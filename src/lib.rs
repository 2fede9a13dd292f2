//! Lookup of Swedish statutes ("lagar") by their identifier, the
//! `year:number` designation ("beteckning") such as `1998:899`.
//!
//! The library parses and validates identifiers, builds the address of a
//! statute's document in the public document service, and extracts the
//! fields of a statute from the document that the service returns.

pub mod err;
pub mod error;
pub mod law_data;
pub mod law_id;

pub use err::{InvalidFormat, ParseLawError};
pub use error::LawErrorKind;
pub use law_data::{Law, LawData};
pub use law_id::LawID;
