//! Provides the errors that can occur during parsing.

use vstd::prelude::*;

verus! {

/// Represents the possible parsing errors.
#[derive(Debug)]
pub enum ParseErr<SourceErr> {
    /// The input was too short to finish parsing.
    InputTooShort,
    /// An input source specific error occurred.
    SourceErr(SourceErr),
}

impl<SourceErr> vstd::std_specs::convert::FromSpecImpl<SourceErr> for ParseErr<SourceErr> {
    open spec fn obeys_from_spec() -> bool {
        true
    }

    open spec fn from_spec(value: SourceErr) -> ParseErr<SourceErr> {
        ParseErr::SourceErr(value)
    }
}

impl<SourceErr> From<SourceErr> for ParseErr<SourceErr> {
    fn from(value: SourceErr) -> (r: ParseErr<SourceErr>) {
        ParseErr::SourceErr(value)
    }
}

impl<SourceErr> ParseErr<SourceErr> {
    /// A description of the error; the error of the source is described by the source.
    pub fn describe(&self) -> (r: Option<&'static str>)
        ensures
            self is InputTooShort <==> r is Some,
    {
        match self {
            ParseErr::InputTooShort => Some("input too short"),
            ParseErr::SourceErr(_) => None,
        }
    }
}

} // verus!
