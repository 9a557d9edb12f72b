//! Errors of the crate.

use vstd::prelude::*;

verus! {

/// An error that occurred while reading a GDTF file or one of its resources.
#[derive(Debug)]
#[non_exhaustive]
pub enum GdtfError {
    /// An input or output operation failed; the text describes the failure.
    Io(String),
    /// The description is not valid XML of the expected shape; the text describes why.
    InvalidXml(String),
    /// The requested resource is not in the file.
    ResourceNotFound,
}

/// The result of an operation that may fail with a [GdtfError].
pub type GdtfResult<T> = Result<T, GdtfError>;

/// The message of an error: the prefix of its kind, then the description it carries.
pub open spec fn error_message(e: GdtfError) -> Seq<char> {
    match e {
        GdtfError::Io(s) => "i/o error: "@ + s@,
        GdtfError::InvalidXml(s) => "invalid xml: "@ + s@,
        GdtfError::ResourceNotFound => "specified resource not found in file"@,
    }
}

impl GdtfError {
    /// The message describing the error, as it is displayed.
    pub fn message(&self) -> (r: String)
        ensures
            r@ == error_message(*self),
    {
        match self {
            GdtfError::Io(s) => {
                let mut out = crate::text::chars_of("i/o error: ");
                crate::text::append_str(&mut out, s.as_str());
                crate::text::string_from_chars(&out)
            },
            GdtfError::InvalidXml(s) => {
                let mut out = crate::text::chars_of("invalid xml: ");
                crate::text::append_str(&mut out, s.as_str());
                crate::text::string_from_chars(&out)
            },
            GdtfError::ResourceNotFound => {
                crate::text::string_from_chars(&crate::text::chars_of("specified resource not found in file"))
            },
        }
    }
}

} // verus!
