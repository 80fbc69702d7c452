use vstd::prelude::*;

verus! {

/// Why an endpoint refused to produce a representation.
#[derive(Debug)]
pub enum FnError {
    /// A required argument was absent.
    MissingArgument(String),
    /// An argument was present but unusable.
    InvalidArgument { name: String, detail: String },
    /// The endpoint failed while producing its representation.
    Endpoint(String),
}

/// An [`FnError`] with its strings taken as character sequences.
pub enum Failure {
    MissingArgument(Seq<char>),
    InvalidArgument(Seq<char>, Seq<char>),
    Endpoint(Seq<char>),
}

impl View for FnError {
    type V = Failure;

    open spec fn view(&self) -> Failure {
        match self {
            FnError::MissingArgument(n) => Failure::MissingArgument(n@),
            FnError::InvalidArgument { name, detail } => Failure::InvalidArgument(name@, detail@),
            FnError::Endpoint(m) => Failure::Endpoint(m@),
        }
    }
}

/// A result's view: the value's view on success, the failure on error.
pub open spec fn outcome<T: View>(r: Result<T, FnError>) -> Result<T::V, Failure> {
    match r {
        Ok(v) => Ok(v@),
        Err(e) => Err(e@),
    }
}

} // verus!
