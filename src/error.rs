//! Error values of the library.
use vstd::prelude::*;
use vstd::string::*;

verus! {

/// A general error carrying a message.
#[derive(Debug)]
pub struct Error {
    message: String,
}

impl View for Error {
    type V = Seq<char>;

    closed spec fn view(&self) -> Seq<char> {
        self.message@
    }
}

impl Error {
    pub fn new(message: &str) -> (r: Error)
        ensures
            r@ == message@,
    {
        Error { message: String::from_str(message) }
    }

    /// The message this error was made with.
    pub fn message(&self) -> (r: &str)
        ensures
            r@ == self@,
    {
        self.message.as_str()
    }

    /// The text shown for this error: `SemDeskError: <message>`.
    pub fn describe(&self) -> (r: String)
        ensures
            r@ == "SemDeskError: "@ + self@,
    {
        let r = String::from_str("SemDeskError: ");
        r.concat(self.message.as_str())
    }
}

/// A document path that does not exist.
#[derive(Debug)]
pub struct FileNotFoundError {
    filename: String,
}

impl View for FileNotFoundError {
    type V = Seq<char>;

    closed spec fn view(&self) -> Seq<char> {
        self.filename@
    }
}

impl FileNotFoundError {
    pub fn new(filename: &str) -> (r: FileNotFoundError)
        ensures
            r@ == filename@,
    {
        FileNotFoundError { filename: String::from_str(filename) }
    }

    /// The path that was not found.
    pub fn filename(&self) -> (r: &str)
        ensures
            r@ == self@,
    {
        self.filename.as_str()
    }

    /// The text shown for this error: `FileNotFoundError: <path>`.
    pub fn describe(&self) -> (r: String)
        ensures
            r@ == "FileNotFoundError: "@ + self@,
    {
        let r = String::from_str("FileNotFoundError: ");
        r.concat(self.filename.as_str())
    }
}

/// A document whose type the parser cannot read.
#[derive(Debug)]
pub struct UnsupportedFileTypeError {
    filename: String,
}

impl View for UnsupportedFileTypeError {
    type V = Seq<char>;

    closed spec fn view(&self) -> Seq<char> {
        self.filename@
    }
}

impl UnsupportedFileTypeError {
    pub fn new(filename: &str) -> (r: UnsupportedFileTypeError)
        ensures
            r@ == filename@,
    {
        UnsupportedFileTypeError { filename: String::from_str(filename) }
    }

    /// The path of the unsupported document.
    pub fn filename(&self) -> (r: &str)
        ensures
            r@ == self@,
    {
        self.filename.as_str()
    }

    /// The text shown for this error: `UnsupportedFileTypeError: <path>`.
    pub fn describe(&self) -> (r: String)
        ensures
            r@ == "UnsupportedFileTypeError: "@ + self@,
    {
        let r = String::from_str("UnsupportedFileTypeError: ");
        r.concat(self.filename.as_str())
    }
}

} // verus!

verus! {

/// Why a catalog operation failed.
#[derive(Debug, Clone, Copy, PartialEq, Eq)]
pub enum CatalogError {
    /// No entry is stored under the key.
    NotFound,
    /// The stored entry does not read back.
    Corrupt,
    /// The store itself failed.
    Store,
}

} // verus!
