//! The version that a mapping document has to declare.
use crate::ast::UsmlDocument;
use crate::text::{same_text, text3};
use vstd::prelude::*;

verus! {

/// Why a text is no mapping document.
#[derive(Debug)]
pub enum ParseError {
    /// The text is no YAML of the document's shape; the text reports why.
    YamlError(String),
    /// The document declares the given version, which is not `0.1`.
    InvalidVersion(String),
}

/// A `ParseError` as contracts see it.
pub enum ParseFailure {
    YamlError(Seq<char>),
    InvalidVersion(Seq<char>),
}

impl ParseFailure {
    /// The text that reports the failure.
    pub open spec fn message(self) -> Seq<char> {
        match self {
            ParseFailure::YamlError(cause) => "YAML parse error: "@ + cause,
            ParseFailure::InvalidVersion(version) => "invalid version: expected '0.1', got '"@
                + version + "'"@,
        }
    }
}

impl View for ParseError {
    type V = ParseFailure;

    open spec fn view(&self) -> ParseFailure {
        match self {
            ParseError::YamlError(cause) => ParseFailure::YamlError(cause@),
            ParseError::InvalidVersion(version) => ParseFailure::InvalidVersion(version@),
        }
    }
}

impl ParseError {
    /// The text that reports the failure.
    pub fn message(&self) -> (r: String)
        ensures
            r@ == self@.message(),
    {
        match self {
            ParseError::YamlError(cause) => {
                let mut r = String::from_str("YAML parse error: ");
                r.append(cause.as_str());
                r
            },
            ParseError::InvalidVersion(version) => text3(
                "invalid version: expected '0.1', got '",
                version.as_str(),
                "'",
            ),
        }
    }
}

/// Accepts a document that declares the version `0.1`, and refuses any other
/// with the version that it declares.
pub fn check_version(doc: UsmlDocument) -> (r: Result<UsmlDocument, ParseError>)
    ensures
        match r {
            Ok(accepted) => doc.version@ == "0.1"@ && accepted == doc,
            Err(e) => doc.version@ != "0.1"@ && e@ == ParseFailure::InvalidVersion(doc.version@),
        },
{
    if same_text(doc.version.as_str(), "0.1") {
        Ok(doc)
    } else {
        Err(ParseError::InvalidVersion(doc.version))
    }
}

} // verus!
