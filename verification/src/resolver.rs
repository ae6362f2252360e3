//! Schema facts taken from DBML and OpenAPI documents, and the ways in which
//! getting them can fail.
use crate::text::texts;
use vstd::prelude::*;

pub mod dbml;
pub mod openapi;

verus! {

/// Why a reference could not be resolved.
#[derive(Debug)]
pub enum ResolverError {
    /// The file at the path could not be read; the second text is the cause.
    IoError(String, String),
    /// The text from the named source is no valid DBML.
    DbmlParseError(String, String),
    /// The text from the named source is no valid OpenAPI document.
    OpenapiParseError(String, String),
    /// The document lacks the element that the text describes.
    NotFound(String),
}

/// A `ResolverError` as contracts see it.
pub enum ResolverFailure {
    IoError(Seq<char>, Seq<char>),
    DbmlParseError(Seq<char>, Seq<char>),
    OpenapiParseError(Seq<char>, Seq<char>),
    NotFound(Seq<char>),
}

impl ResolverFailure {
    /// The text that reports the failure.
    pub open spec fn message(self) -> Seq<char> {
        match self {
            ResolverFailure::IoError(path, cause) => "ファイル読み込みエラー '"@ + path + "': "@
                + cause,
            ResolverFailure::DbmlParseError(source, detail) => "DBML パースエラー '"@ + source
                + "': "@ + detail,
            ResolverFailure::OpenapiParseError(source, detail) => "OpenAPI パースエラー '"@
                + source + "': "@ + detail,
            ResolverFailure::NotFound(what) => "参照先が見つかりません: '"@ + what + "'"@,
        }
    }
}

impl View for ResolverError {
    type V = ResolverFailure;

    open spec fn view(&self) -> ResolverFailure {
        match self {
            ResolverError::IoError(path, cause) => ResolverFailure::IoError(path@, cause@),
            ResolverError::DbmlParseError(source, detail) => ResolverFailure::DbmlParseError(
                source@,
                detail@,
            ),
            ResolverError::OpenapiParseError(source, detail) => ResolverFailure::OpenapiParseError(
                source@,
                detail@,
            ),
            ResolverError::NotFound(what) => ResolverFailure::NotFound(what@),
        }
    }
}

impl ResolverError {
    /// The text that reports the failure.
    pub fn message(&self) -> (r: String)
        ensures
            r@ == self@.message(),
    {
        match self {
            ResolverError::IoError(path, cause) => {
                let mut r = String::from_str("ファイル読み込みエラー '");
                r.append(path.as_str());
                r.append("': ");
                r.append(cause.as_str());
                r
            },
            ResolverError::DbmlParseError(source, detail) => {
                let mut r = String::from_str("DBML パースエラー '");
                r.append(source.as_str());
                r.append("': ");
                r.append(detail.as_str());
                r
            },
            ResolverError::OpenapiParseError(source, detail) => {
                let mut r = String::from_str("OpenAPI パースエラー '");
                r.append(source.as_str());
                r.append("': ");
                r.append(detail.as_str());
                r
            },
            ResolverError::NotFound(what) => {
                let mut r = String::from_str("参照先が見つかりません: '");
                r.append(what.as_str());
                r.append("'");
                r
            },
        }
    }
}

/// A table of a DBML schema: its name and the names of its columns.
#[derive(Debug, Clone)]
pub struct DbmlTable {
    pub name: String,
    pub columns: Vec<String>,
}

/// A `DbmlTable` as contracts see it.
pub struct TableFacts {
    pub name: Seq<char>,
    pub columns: Seq<Seq<char>>,
}

impl View for DbmlTable {
    type V = TableFacts;

    open spec fn view(&self) -> TableFacts {
        TableFacts { name: self.name@, columns: texts(self.columns@) }
    }
}

/// The tables of a list, as contracts see them.
pub open spec fn tables(list: Seq<DbmlTable>) -> Seq<TableFacts> {
    list.map_values(|t: DbmlTable| t@)
}

/// What an OpenAPI document says of one response of one operation.
#[derive(Debug, Clone)]
pub struct OpenapiResponse {
    /// The names of the response's fields.
    pub fields: Vec<String>,
    /// The names of the operation's parameters.
    pub parameters: Vec<String>,
}

/// An `OpenapiResponse` as contracts see it: the rules ask only whether a
/// name is among the fields or the parameters.
pub struct ResponseFacts {
    pub fields: Set<Seq<char>>,
    pub parameters: Set<Seq<char>>,
}

impl View for OpenapiResponse {
    type V = ResponseFacts;

    open spec fn view(&self) -> ResponseFacts {
        ResponseFacts {
            fields: texts(self.fields@).to_set(),
            parameters: texts(self.parameters@).to_set(),
        }
    }
}

/// What reading one file gave: its text, or the cause of the failure.
#[derive(Debug)]
pub struct FileRead {
    /// The path that was read.
    pub path: String,
    pub content: Result<String, String>,
}

} // verus!
