use vstd::prelude::*;

use crate::chars::push_str;
use crate::error::{FnError, Failure};

verus! {

/// What `ikigai_core::Iri::parse` makes of `s`: `Ok` when `s` is an absolute
/// IRI, else `Err` with the text its `IriError` displays.
pub uninterp spec fn iri_parse(s: Seq<char>) -> Result<(), Seq<char>>;

/// `ikigai_core::Iri::parse`: checks `s` as an absolute IRI, keeping nothing
/// but the verdict and, on refusal, the error's displayed text.
#[verifier::external_body]
pub(crate) fn check_iri(s: &str) -> (r: Result<(), String>)
    ensures
        match r {
            Ok(_) => iri_parse(s@) is Ok,
            Err(m) => iri_parse(s@) == Err::<(), Seq<char>>(m@),
        },
{
    match ikigai_core::Iri::parse(s) {
        Ok(_) => Ok(()),
        Err(e) => Err(e.to_string()),
    }
}

/// Whether `s` is an absolute IRI.
pub open spec fn is_iri(s: Seq<char>) -> bool {
    iri_parse(s) is Ok
}

/// The text `Iri::parse` gives when it refuses `s`.
pub open spec fn iri_refusal(s: Seq<char>) -> Seq<char> {
    match iri_parse(s) {
        Err(m) => m,
        Ok(_) => Seq::empty(),
    }
}

/// What `parse_iri(s, arg)` answers: `s` itself when it is an IRI, else an
/// `InvalidArgument` naming `arg`.
pub open spec fn iri_argument(s: Seq<char>, arg: Seq<char>) -> Result<Seq<char>, Failure> {
    if is_iri(s) {
        Ok(s)
    } else {
        Err(Failure::InvalidArgument(arg, "not an IRI: "@ + iri_refusal(s)))
    }
}

/// Parse an argument that must be an IRI, reporting which argument if it isn't.
/// On success the IRI's text comes back unchanged.
pub fn parse_iri(s: &str, arg: &str) -> (r: Result<String, FnError>)
    ensures
        crate::error::outcome(r) == iri_argument(s@, arg@),
{
    match check_iri(s) {
        Ok(()) => Ok(s.to_owned()),
        Err(e) => {
            let mut detail = String::new();
            push_str(&mut detail, "not an IRI: ");
            push_str(&mut detail, e.as_str());
            Err(FnError::InvalidArgument { name: arg.to_owned(), detail })
        },
    }
}

} // verus!
