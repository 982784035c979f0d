//! Which reader a document goes to, decided from its path: PDF and plain
//! text are supported, anything else is refused.
use vstd::prelude::*;
use vstd::string::*;

use crate::error::{FileNotFoundError, UnsupportedFileTypeError};

verus! {

/// The media type that `mime_guess` guesses first for a path, if any.
pub uninterp spec fn guessed_mime(path: Seq<char>) -> Option<Seq<char>>;

/// Relies on `mime_guess::from_path` and `MimeGuess::first_raw`: the first
/// media type guessed from the path's extension.
#[verifier::external_body]
fn guess_mime(path: &str) -> (r: Option<String>)
    ensures
        r is Some <==> guessed_mime(path@) is Some,
        r matches Some(m) ==> guessed_mime(path@) == Some(m@),
{
    match mime_guess::from_path(path).first_raw() {
        Some(m) => Some(m.to_string()),
        None => None,
    }
}

/// The readers the parser has.
#[derive(Debug, Clone, Copy, PartialEq, Eq)]
pub enum DocumentKind {
    Pdf,
    Text,
}

/// Why a document cannot be parsed.
#[derive(Debug)]
pub enum ParseError {
    FileNotFound(FileNotFoundError),
    UnsupportedFileType(UnsupportedFileTypeError),
}

/// The reader for a media type.
pub open spec fn kind_of_mime(mime: Option<Seq<char>>) -> Option<DocumentKind> {
    match mime {
        Some(m) => if m == "application/pdf"@ {
            Some(DocumentKind::Pdf)
        } else if m == "text/plain"@ {
            Some(DocumentKind::Text)
        } else {
            None
        },
        None => None,
    }
}

/// The reader for a media type: `application/pdf` or `text/plain`.
pub fn kind_for_mime(mime: Option<String>) -> (r: Option<DocumentKind>)
    ensures
        r == kind_of_mime(
            match mime {
                Some(m) => Some(m@),
                None => None,
            },
        ),
{
    match mime {
        Some(m) => {
            if m == String::from_str("application/pdf") {
                Some(DocumentKind::Pdf)
            } else if m == String::from_str("text/plain") {
                Some(DocumentKind::Text)
            } else {
                None
            }
        },
        None => None,
    }
}

/// Parses documents into text.
pub struct Parser {}

impl Parser {
    pub fn new() -> (r: Parser) {
        Parser {  }
    }

    /// The reader for a document: a missing file is not found; a file whose
    /// guessed media type is neither PDF nor plain text is unsupported.
    pub fn document_kind(&self, filename: &str, exists: bool) -> (r: Result<DocumentKind, ParseError>)
        ensures
            !exists ==> (r matches Err(ParseError::FileNotFound(e)) && e@ == filename@),
            exists ==> match kind_of_mime(guessed_mime(filename@)) {
                Some(k) => r == Ok::<DocumentKind, ParseError>(k),
                None => (r matches Err(ParseError::UnsupportedFileType(e)) && e@ == filename@),
            },
    {
        if !exists {
            return Err(ParseError::FileNotFound(FileNotFoundError::new(filename)));
        }
        match kind_for_mime(guess_mime(filename)) {
            Some(k) => Ok(k),
            None => Err(ParseError::UnsupportedFileType(UnsupportedFileTypeError::new(filename))),
        }
    }
}

} // verus!
