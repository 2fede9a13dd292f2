//! Errors of parsing an identifier into its parts.

use vstd::prelude::*;
use vstd::string::to_string_from_display_ensures;

verus! {

#[verifier::external_type_specification]
#[verifier::external_body]
pub struct ExParseIntError(std::num::ParseIntError);

/// Relies on `ParseIntError::clone`, which the derived `Clone` of
/// `ParseLawError` calls; nothing is assumed of the copy.
pub assume_specification[ <std::num::ParseIntError as Clone>::clone ](
    e: &std::num::ParseIntError,
) -> std::num::ParseIntError;

/// Why a text is not an identifier.
#[derive(Clone, Debug, Eq, PartialEq)]
pub enum ParseLawError {
    /// The text is not of the form `<year>:<number>`.
    InvalidFormat,
    /// A part of the text is not an integer.
    NotAnInt(std::num::ParseIntError),
}

/// The format error, with the text that explains the expected form.
#[derive(Debug, Clone, Copy)]
pub struct InvalidFormat;

impl InvalidFormat {
    /// The explanation shown for a malformed identifier.
    pub fn as_str(&self) -> (r: &str)
        ensures
            r@ == "Invalid Format, search format should be <year>:<number>"@,
    {
        "Invalid Format, search format should be <year>:<number>"
    }
}

impl ParseLawError {
    /// The text shown to a user in place of a result.
    pub fn to_string(&self) -> (r: String)
        ensures
            self is InvalidFormat ==> r@ == "Parsing error \"Invalid Format, search format should be <year>:<number>\""@,
            self is NotAnInt ==> to_string_from_display_ensures::<std::num::ParseIntError>(
                &self->NotAnInt_0,
                r,
            ),
    {
        match self {
            ParseLawError::InvalidFormat => {
                let mut r = String::from_str("Parsing error \"");
                r.append(InvalidFormat.as_str());
                r.append("\"");
                proof {
                    reveal_strlit("Parsing error \"");
                    reveal_strlit("Invalid Format, search format should be <year>:<number>");
                    reveal_strlit("\"");
                    reveal_strlit("Parsing error \"Invalid Format, search format should be <year>:<number>\"");
                    assert(r@ =~= "Parsing error \"Invalid Format, search format should be <year>:<number>\""@);
                }
                r
            },
            ParseLawError::NotAnInt(e) => e.to_string(),
        }
    }
}

impl From<std::num::ParseIntError> for ParseLawError {
    fn from(error: std::num::ParseIntError) -> (r: ParseLawError) {
        ParseLawError::NotAnInt(error)
    }
}

impl vstd::std_specs::convert::FromSpecImpl<std::num::ParseIntError> for ParseLawError {
    open spec fn obeys_from_spec() -> bool {
        true
    }

    open spec fn from_spec(v: std::num::ParseIntError) -> ParseLawError {
        ParseLawError::NotAnInt(v)
    }
}

} // verus!
