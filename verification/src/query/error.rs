//! The error of the query grammar.

use vstd::prelude::*;
use vstd::string::*;
use crate::error::{Failure, failure_text, titled, titled_text};

verus! {

/// Why a source is no query document.
#[derive(Debug, PartialEq, Eq, Clone)]
pub struct ParseError(pub crate::error::ParseError);

impl View for ParseError {
    type V = Failure;

    open spec fn view(&self) -> Failure {
        self.0@
    }
}

impl ParseError {
    /// The error as it is shown.
    pub fn to_string(&self) -> (s: String)
        ensures
            s@ == titled_text("query"@, failure_text(self@)),
    {
        titled("query", self.0.to_string().as_str())
    }
}

} // verus!
