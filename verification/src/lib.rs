//! `ikigai_fn`: a library of reusable function endpoints, with the text logic
//! behind each endpoint verified.
//!
//! Each endpoint is one plain function (or, for the two that resolve other
//! resources, a few steps) from the endpoint's arguments to its body:
//!
//! - `toUpper`, `reverseList`, `split`, `wrap`, `greet`, `echo`: [`functions`];
//! - `compose`, recursive `$a{<iri>}` transclusion: [`compose`], which scans
//!   shapes with [`markers`] and reads marker bodies with [`request`];
//! - `conditional`, a lazy branch on a boolean resource: [`conditional`].
//!
//! Binding the endpoints into a space, reading their arguments off an
//! invocation and resolving other resources is the host's part.

pub mod bytes;
pub mod catalog;
pub mod chars;
pub mod compose;
pub mod conditional;
pub mod error;
pub mod functions;
pub mod iri;
pub mod markers;
pub mod request;
pub mod text;

pub use bytes::utf8_len;
pub use compose::{
    assemble, compose, compose_source, plan_expansion, settle_marker, shape_text, Compose,
    Expansion, Settled, COMPOSE_MAX_DEPTH,
};
pub use conditional::{
    as_bool, branch_arguments, branch_step, condition_iri, conditional, ArgRead, Branch,
    BranchRefusal, Branches, Conditional, Side,
};
pub use error::FnError;
pub use functions::{
    echo_text, greet_text, reverse_list_text, split_text, to_upper_text, wrap_text,
};
pub use markers::{find_marker_end, scan, Segment};
pub use request::{parse_marker, parse_query, unquote, MarkerRequest};
