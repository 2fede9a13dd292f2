//! The errors that a statute lookup can end in.

use vstd::prelude::*;
use vstd::string::to_string_from_display_ensures;

verus! {

#[verifier::external_type_specification]
#[verifier::external_body]
pub struct ExReqwestError(reqwest::Error);

/// Why a statute could not be looked up.
#[derive(Debug)]
pub enum LawErrorKind {
    /// The identifier is not of the form `<year>:<number>`.
    IDFormatError,
    /// The document lacks a field that a statute must have.
    DataFormatError,
    /// The document could not be read at all: it is longer, or opens more
    /// tags, than the parser is handed.
    ParserError,
    /// The request to the document service failed, or was answered with an
    /// error status.
    RequestError(reqwest::Error),
}

impl LawErrorKind {
    /// The text shown to a user in place of a result.
    pub fn to_string(&self) -> (r: String)
        ensures
            self is IDFormatError ==> r@ == "Valid LawID format is <year>:<number>."@,
            self is DataFormatError ==> r@ == "Law does not contain valid information."@,
            self is ParserError ==> r@ == "Placeholder"@,
            self is RequestError ==> to_string_from_display_ensures::<reqwest::Error>(
                &self->RequestError_0,
                r,
            ),
    {
        match self {
            LawErrorKind::IDFormatError => String::from_str("Valid LawID format is <year>:<number>."),
            LawErrorKind::DataFormatError => String::from_str("Law does not contain valid information."),
            LawErrorKind::ParserError => String::from_str("Placeholder"),
            LawErrorKind::RequestError(e) => e.to_string(),
        }
    }
}

impl From<reqwest::Error> for LawErrorKind {
    fn from(error: reqwest::Error) -> (r: LawErrorKind) {
        LawErrorKind::RequestError(error)
    }
}

impl vstd::std_specs::convert::FromSpecImpl<reqwest::Error> for LawErrorKind {
    open spec fn obeys_from_spec() -> bool {
        true
    }

    open spec fn from_spec(v: reqwest::Error) -> LawErrorKind {
        LawErrorKind::RequestError(v)
    }
}

} // verus!
