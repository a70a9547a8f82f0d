//! The errors of the library, and the texts in which they are shown.
use crate::text::{
    bytes_text, debug_text, debugged, decimal, decimal_text, listed, Utf8Failure,
};
use vstd::prelude::*;

verus! {

/// Why a text cannot be taken for a username or for the content of a message.
#[derive(Debug, PartialEq)]
pub enum TextValidityError {
    TooLong { kind_of_entity: String, actual_entity: String, max_len: usize, actual_len: usize },
}

impl TextValidityError {
    /// Whether the error says that the text `entity`, a `kind`, has more chars than `max_len`.
    pub open spec fn is_too_long(&self, kind: Seq<char>, entity: Seq<char>, max_len: usize) -> bool {
        match *self {
            TextValidityError::TooLong { kind_of_entity, actual_entity, max_len: max, actual_len } => {
                &&& kind_of_entity@ == kind
                &&& actual_entity@ == entity
                &&& max == max_len
                &&& actual_len == entity.len()
            },
        }
    }

    /// The text in which the error is shown.
    pub open spec fn shown(&self) -> Seq<char> {
        match *self {
            TextValidityError::TooLong { kind_of_entity, actual_entity, max_len, actual_len } => {
                "Too long "@ + kind_of_entity@ + " (expected at most "@ + decimal(max_len as nat)
                    + " chars, found "@ + decimal(actual_len as nat) + "): [["@ + actual_entity@
                    + "]]."@
            },
        }
    }

    /// The text in which the error is shown.
    pub fn text(&self) -> (r: String)
        ensures
            r@ == self.shown(),
    {
        match self {
            TextValidityError::TooLong { kind_of_entity, actual_entity, max_len, actual_len } => {
                "Too long ".to_owned().concat(kind_of_entity.as_str()).concat(
                    " (expected at most ",
                ).concat(decimal_text(*max_len).as_str()).concat(" chars, found ").concat(
                    decimal_text(*actual_len).as_str(),
                ).concat("): [[").concat(actual_entity.as_str()).concat("]].")
            },
        }
    }
}

/// What kind of failure a JSON parse met: reading failed, the text is no JSON, it is not the JSON
/// of a message, or it ends too early.
#[derive(Clone, Copy, Debug, PartialEq, Eq, Structural)]
pub enum JsonErrorCategory {
    Io,
    Syntax,
    Data,
    Eof,
}

impl JsonErrorCategory {
    /// The name of the category.
    pub open spec fn shown(self) -> Seq<char> {
        match self {
            JsonErrorCategory::Io => "Io"@,
            JsonErrorCategory::Syntax => "Syntax"@,
            JsonErrorCategory::Data => "Data"@,
            JsonErrorCategory::Eof => "Eof"@,
        }
    }

    /// The name of the category.
    pub fn text(self) -> (r: &'static str)
        ensures
            r@ == self.shown(),
    {
        match self {
            JsonErrorCategory::Io => "Io",
            JsonErrorCategory::Syntax => "Syntax",
            JsonErrorCategory::Data => "Data",
            JsonErrorCategory::Eof => "Eof",
        }
    }
}

/// What a failed JSON parse reports: the category, the name of the kind of failure that reading
/// met, if it did, and the place in the text.
#[derive(Debug, PartialEq)]
pub struct JsonError {
    pub category: JsonErrorCategory,
    pub io_error_kind: Option<String>,
    pub line: usize,
    pub column: usize,
}

/// Why a paket cannot be converted to a message.
#[derive(Debug, PartialEq)]
pub enum MsgFromPaketError {
    NoInitDelimiter { candidate: Vec<u8> },
    NoEndDelimiter { candidate: Vec<u8> },
    SerdeJson {
        dispaketed_candidate: String,
        category: JsonErrorCategory,
        io_error_kind: Option<String>,
        line: usize,
        column: usize,
    },
    StringFromUtf8(Utf8Failure),
    EmptyPaket,
    /// The username or the content is too long.
    TextValidity(TextValidityError),
}

/// How the kind of failure that reading met is shown.
pub open spec fn io_error_kind_shown(kind: Option<String>) -> Seq<char> {
    match kind {
        Some(name) => "Some("@ + name@ + ")"@,
        None => "None"@,
    }
}

fn io_error_kind_text(kind: &Option<String>) -> (r: String)
    ensures
        r@ == io_error_kind_shown(*kind),
{
    match kind {
        Some(name) => "Some(".to_owned().concat(name.as_str()).concat(")"),
        None => "None".to_owned(),
    }
}

impl MsgFromPaketError {
    /// Whether the error reports the failed parse `err` of `text`.
    pub open spec fn is_serde_json(&self, text: Seq<char>, err: JsonError) -> bool {
        match *self {
            MsgFromPaketError::SerdeJson {
                dispaketed_candidate,
                category,
                io_error_kind,
                line,
                column,
            } => {
                &&& dispaketed_candidate@ == text
                &&& category == err.category
                &&& io_error_kind == err.io_error_kind
                &&& line == err.line
                &&& column == err.column
            },
            _ => false,
        }
    }

    /// The text in which the error is shown.
    pub open spec fn shown(&self) -> Seq<char> {
        match *self {
            MsgFromPaketError::NoInitDelimiter { candidate } => {
                "No paket init byte delimiter (\u{C0}) found in the utf8 sample. The sample is: [["@
                    + ("["@ + listed(candidate@) + "]"@) + "]]."@
            },
            MsgFromPaketError::NoEndDelimiter { candidate } => {
                "No paket end byte delimiter (\u{C1}) found in the utf8 sample. The sample is: [["@
                    + ("["@ + listed(candidate@) + "]"@) + "]]."@
            },
            MsgFromPaketError::SerdeJson {
                dispaketed_candidate,
                category,
                io_error_kind,
                line,
                column,
            } => {
                "serde_json Error: [["@ + debugged(dispaketed_candidate@) + "]], "@
                    + category.shown() + ", "@ + io_error_kind_shown(io_error_kind)
                    + ", at coord (line, column)=("@ + decimal(line as nat) + ","@ + decimal(
                    column as nat,
                ) + ")."@
            },
            MsgFromPaketError::StringFromUtf8(failure) => failure.shown(),
            MsgFromPaketError::EmptyPaket => "The utf8 paket given was empty."@,
            MsgFromPaketError::TextValidity(err) => err.shown(),
        }
    }

    /// The text in which the error is shown.
    pub fn text(&self) -> (r: String)
        ensures
            r@ == self.shown(),
    {
        match self {
            MsgFromPaketError::NoInitDelimiter { candidate } => {
                "No paket init byte delimiter (\u{C0}) found in the utf8 sample. The sample is: [[".to_owned().concat(
                    bytes_text(candidate).as_str(),
                ).concat("]].")
            },
            MsgFromPaketError::NoEndDelimiter { candidate } => {
                "No paket end byte delimiter (\u{C1}) found in the utf8 sample. The sample is: [[".to_owned().concat(
                    bytes_text(candidate).as_str(),
                ).concat("]].")
            },
            MsgFromPaketError::SerdeJson {
                dispaketed_candidate,
                category,
                io_error_kind,
                line,
                column,
            } => {
                "serde_json Error: [[".to_owned().concat(
                    debug_text(dispaketed_candidate.as_str()).as_str(),
                ).concat("]], ").concat(category.text()).concat(", ").concat(
                    io_error_kind_text(io_error_kind).as_str(),
                ).concat(", at coord (line, column)=(").concat(
                    decimal_text(*line).as_str(),
                ).concat(",").concat(decimal_text(*column).as_str()).concat(").")
            },
            MsgFromPaketError::StringFromUtf8(failure) => failure.text(),
            MsgFromPaketError::EmptyPaket => "The utf8 paket given was empty.".to_owned(),
            MsgFromPaketError::TextValidity(err) => err.text(),
        }
    }
}

/// Something was empty that should not have been.
#[derive(Debug, PartialEq)]
pub struct UnusualEmptyEntity {
    pub entity: String,
}

impl UnusualEmptyEntity {
    /// The text in which the error is shown.
    pub open spec fn shown(&self) -> Seq<char> {
        "Unusual None returned from '"@ + self.entity@ + "' in 'message_paketer'."@
    }

    /// The text in which the error is shown.
    pub fn text(&self) -> (r: String)
        ensures
            r@ == self.shown(),
    {
        "Unusual None returned from '".to_owned().concat(self.entity.as_str()).concat(
            "' in 'message_paketer'.",
        )
    }
}

} // verus!
