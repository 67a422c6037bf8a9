//! The errors of the library, how they are classified, and their text.

use crate::paths::{io_error_display, path_display, path_text};
use crate::text::{concat, decimal, push_decimal};
use std::path::PathBuf;
use vstd::prelude::*;
use vstd::string::*;

verus! {

/// What can go wrong in an operation of this library.
#[derive(Debug)]
pub enum PdfCatError {
    /// Input file was not found.
    FileNotFound { path: PathBuf },
    /// Input file is not accessible.
    FileNotAccessible { path: PathBuf, source: std::io::Error },
    /// Input path is not a regular file.
    NotAFile { path: PathBuf },
    /// The file could not be loaded.
    FailedToLoadPdf { path: PathBuf, reason: String },
    /// The file is corrupted or has an invalid structure.
    CorruptedPdf { path: PathBuf, details: String },
    /// The file is encrypted.
    EncryptedPdf { path: PathBuf },
    /// No file was left to merge.
    NoFilesToMerge,
    /// The output exists and may not be overwritten.
    OutputExists { path: PathBuf },
    /// The output file could not be created.
    FailedToCreateOutput { path: PathBuf, source: std::io::Error },
    /// The output file could not be written.
    FailedToWrite { path: PathBuf, source: std::io::Error },
    /// The list of inputs could not be read.
    FailedToReadInputList { path: PathBuf, source: std::io::Error },
    /// The list of inputs holds an invalid line.
    InvalidInputList { path: PathBuf, line_number: usize, details: String },
    /// A page range asks for pages that the document lacks.
    InvalidPageRange { path: PathBuf, range: String, total_pages: usize },
    /// The merge failed.
    MergeFailed { reason: String },
    /// Bookmarks could not be written.
    BookmarkFailed { path: PathBuf, reason: String },
    /// The document information could not be written.
    MetadataFailed { reason: String },
    /// The configuration is invalid.
    InvalidConfig { message: String },
    /// The user cancelled.
    Cancelled,
    /// Another I/O error.
    Io { source: std::io::Error },
    /// Any other error.
    Other { message: String },
}

impl From<std::io::Error> for PdfCatError {
    fn from(err: std::io::Error) -> (r: Self) {
        PdfCatError::Io { source: err }
    }
}

impl vstd::std_specs::convert::FromSpecImpl<std::io::Error> for PdfCatError {
    open spec fn obeys_from_spec() -> bool {
        true
    }

    open spec fn from_spec(err: std::io::Error) -> Self {
        PdfCatError::Io { source: err }
    }
}

impl PdfCatError {
    /// Whether the error carries an I/O error as its cause.
    pub open spec fn has_source(&self) -> bool {
        match self {
            PdfCatError::FileNotAccessible { .. } => true,
            PdfCatError::FailedToCreateOutput { .. } => true,
            PdfCatError::FailedToWrite { .. } => true,
            PdfCatError::FailedToReadInputList { .. } => true,
            PdfCatError::Io { .. } => true,
            _ => false,
        }
    }

    /// Whether processing may go on after this error where the caller asked
    /// for that: so it is with the errors of a single input, that it is
    /// missing, cannot be read, is no file, or holds no document that can be
    /// used. An error in the structure of a document ends the merge.
    pub open spec fn recoverable(&self) -> bool {
        match self {
            PdfCatError::FileNotFound { .. } => true,
            PdfCatError::FileNotAccessible { .. } => true,
            PdfCatError::NotAFile { .. } => true,
            PdfCatError::FailedToLoadPdf { .. } => true,
            PdfCatError::CorruptedPdf { .. } => true,
            PdfCatError::EncryptedPdf { .. } => true,
            _ => false,
        }
    }

    /// Whether this error always ends all processing, whatever the caller
    /// asked for: nothing is left to merge, the output may not be written or
    /// could not be, or the user cancelled.
    pub open spec fn fatal(&self) -> bool {
        match self {
            PdfCatError::NoFilesToMerge => true,
            PdfCatError::OutputExists { .. } => true,
            PdfCatError::FailedToCreateOutput { .. } => true,
            PdfCatError::FailedToWrite { .. } => true,
            PdfCatError::Cancelled => true,
            _ => false,
        }
    }

    /// The exit code of the process for each error.
    pub open spec fn code(&self) -> i32 {
        match self {
            PdfCatError::FileNotFound { .. } => 2,
            PdfCatError::FileNotAccessible { .. } => 2,
            PdfCatError::NotAFile { .. } => 2,
            PdfCatError::FailedToLoadPdf { .. } => 3,
            PdfCatError::CorruptedPdf { .. } => 3,
            PdfCatError::EncryptedPdf { .. } => 3,
            PdfCatError::NoFilesToMerge => 1,
            PdfCatError::OutputExists { .. } => 4,
            PdfCatError::FailedToCreateOutput { .. } => 5,
            PdfCatError::FailedToWrite { .. } => 5,
            PdfCatError::FailedToReadInputList { .. } => 2,
            PdfCatError::InvalidInputList { .. } => 1,
            PdfCatError::InvalidPageRange { .. } => 1,
            PdfCatError::MergeFailed { .. } => 6,
            PdfCatError::BookmarkFailed { .. } => 6,
            PdfCatError::MetadataFailed { .. } => 6,
            PdfCatError::InvalidConfig { .. } => 1,
            PdfCatError::Cancelled => 130,
            PdfCatError::Io { .. } => 5,
            PdfCatError::Other { .. } => 1,
        }
    }

    /// The text of the error, given the text of its I/O cause (which is
    /// ignored where the error has none).
    pub open spec fn message(&self, cause: Seq<char>) -> Seq<char> {
        match self {
            PdfCatError::FileNotFound { path } => "File not found: "@ + path_text(*path),
            PdfCatError::FileNotAccessible { path, .. } => "Cannot access file: "@ + path_text(
                *path,
            ) + "\n  Reason: "@ + cause,
            PdfCatError::NotAFile { path } => "Not a file: "@ + path_text(*path),
            PdfCatError::FailedToLoadPdf { path, reason } => "Failed to load PDF: "@ + path_text(
                *path,
            ) + "\n  Reason: "@ + reason@,
            PdfCatError::CorruptedPdf { path, details } => "Corrupted or invalid PDF: "@
                + path_text(*path) + "\n  Details: "@ + details@,
            PdfCatError::EncryptedPdf { path } => "PDF is encrypted and cannot be processed: "@
                + path_text(*path)
                + "\n  Hint: Decrypt the PDF first using 'qpdf --decrypt' or similar tools"@,
            PdfCatError::NoFilesToMerge => "No input files specified for merging"@,
            PdfCatError::OutputExists { path } => "Output file already exists: "@ + path_text(
                *path,
            ) + "\n  Use --force to overwrite or choose a different output path"@,
            PdfCatError::FailedToCreateOutput { path, .. } => "Failed to create output file: "@
                + path_text(*path) + "\n  Reason: "@ + cause,
            PdfCatError::FailedToWrite { path, .. } => "Failed to write to output file: "@
                + path_text(*path) + "\n  Reason: "@ + cause,
            PdfCatError::FailedToReadInputList { path, .. } => "Failed to read input list file: "@
                + path_text(*path) + "\n  Reason: "@ + cause,
            PdfCatError::InvalidInputList { path, line_number, details } =>
                "Invalid entry in input list file: "@ + path_text(*path) + " at line "@ + decimal(
                *line_number as nat,
            ) + "\n  Details: "@ + details@,
            PdfCatError::InvalidPageRange { path, range, total_pages } => "Invalid page range '"@
                + range@ + "' for PDF: "@ + path_text(*path) + "\n  PDF has "@ + decimal(
                *total_pages as nat,
            ) + " page(s). Page numbers must be between 1 and "@ + decimal(*total_pages as nat),
            PdfCatError::MergeFailed { reason } => "Merge operation failed: "@ + reason@,
            PdfCatError::BookmarkFailed { path, reason } => "Failed to process bookmarks for: "@
                + path_text(*path) + "\n  Reason: "@ + reason@,
            PdfCatError::MetadataFailed { reason } => "Failed to set metadata: "@ + reason@,
            PdfCatError::InvalidConfig { message } => "Invalid configuration: "@ + message@,
            PdfCatError::Cancelled => "Operation cancelled by user"@,
            PdfCatError::Io { .. } => "I/O error: "@ + cause,
            PdfCatError::Other { message } => message@,
        }
    }

    /// A `FileNotFound` error.
    pub fn file_not_found(path: PathBuf) -> (e: Self)
        ensures
            e == (PdfCatError::FileNotFound { path }),
    {
        PdfCatError::FileNotFound { path }
    }

    /// A `NotAFile` error.
    pub fn not_a_file(path: PathBuf) -> (e: Self)
        ensures
            e == (PdfCatError::NotAFile { path }),
    {
        PdfCatError::NotAFile { path }
    }

    /// A `FailedToLoadPdf` error.
    pub fn failed_to_load_pdf(path: PathBuf, reason: &str) -> (e: Self)
        ensures
            e matches PdfCatError::FailedToLoadPdf { path: p, reason: r } && p == path && r@
                == reason@,
    {
        PdfCatError::FailedToLoadPdf { path, reason: reason.to_owned() }
    }

    /// A `CorruptedPdf` error.
    pub fn corrupted_pdf(path: PathBuf, details: &str) -> (e: Self)
        ensures
            e matches PdfCatError::CorruptedPdf { path: p, details: d } && p == path && d@
                == details@,
    {
        PdfCatError::CorruptedPdf { path, details: details.to_owned() }
    }

    /// An `EncryptedPdf` error.
    pub fn encrypted_pdf(path: PathBuf) -> (e: Self)
        ensures
            e == (PdfCatError::EncryptedPdf { path }),
    {
        PdfCatError::EncryptedPdf { path }
    }

    /// An `OutputExists` error.
    pub fn output_exists(path: PathBuf) -> (e: Self)
        ensures
            e == (PdfCatError::OutputExists { path }),
    {
        PdfCatError::OutputExists { path }
    }

    /// A `MergeFailed` error.
    pub fn merge_failed(reason: &str) -> (e: Self)
        ensures
            e matches PdfCatError::MergeFailed { reason: r } && r@ == reason@,
    {
        PdfCatError::MergeFailed { reason: reason.to_owned() }
    }

    /// An `InvalidConfig` error.
    pub fn invalid_config(message: &str) -> (e: Self)
        ensures
            e matches PdfCatError::InvalidConfig { message: m } && m@ == message@,
    {
        PdfCatError::InvalidConfig { message: message.to_owned() }
    }

    /// An `Other` error.
    pub fn other(message: &str) -> (e: Self)
        ensures
            e matches PdfCatError::Other { message: m } && m@ == message@,
    {
        PdfCatError::Other { message: message.to_owned() }
    }

    /// Whether processing may go on after this error where the caller asked
    /// for that.
    pub fn is_recoverable(&self) -> (b: bool)
        ensures
            b == self.recoverable(),
    {
        match self {
            PdfCatError::FileNotFound { .. } => true,
            PdfCatError::FileNotAccessible { .. } => true,
            PdfCatError::NotAFile { .. } => true,
            PdfCatError::FailedToLoadPdf { .. } => true,
            PdfCatError::CorruptedPdf { .. } => true,
            PdfCatError::EncryptedPdf { .. } => true,
            _ => false,
        }
    }

    /// Whether this error always ends all processing.
    pub fn is_fatal(&self) -> (b: bool)
        ensures
            b == self.fatal(),
    {
        match self {
            PdfCatError::NoFilesToMerge => true,
            PdfCatError::OutputExists { .. } => true,
            PdfCatError::FailedToCreateOutput { .. } => true,
            PdfCatError::FailedToWrite { .. } => true,
            PdfCatError::Cancelled => true,
            _ => false,
        }
    }

    /// The exit code of the process for this error.
    pub fn exit_code(&self) -> (c: i32)
        ensures
            c == self.code(),
    {
        match self {
            PdfCatError::FileNotFound { .. } => 2,
            PdfCatError::FileNotAccessible { .. } => 2,
            PdfCatError::NotAFile { .. } => 2,
            PdfCatError::FailedToLoadPdf { .. } => 3,
            PdfCatError::CorruptedPdf { .. } => 3,
            PdfCatError::EncryptedPdf { .. } => 3,
            PdfCatError::NoFilesToMerge => 1,
            PdfCatError::OutputExists { .. } => 4,
            PdfCatError::FailedToCreateOutput { .. } => 5,
            PdfCatError::FailedToWrite { .. } => 5,
            PdfCatError::FailedToReadInputList { .. } => 2,
            PdfCatError::InvalidInputList { .. } => 1,
            PdfCatError::InvalidPageRange { .. } => 1,
            PdfCatError::MergeFailed { .. } => 6,
            PdfCatError::BookmarkFailed { .. } => 6,
            PdfCatError::MetadataFailed { .. } => 6,
            PdfCatError::InvalidConfig { .. } => 1,
            PdfCatError::Cancelled => 130,
            PdfCatError::Io { .. } => 5,
            PdfCatError::Other { .. } => 1,
        }
    }

    /// The I/O error that caused this error, if one did.
    pub fn source(&self) -> (r: Option<&std::io::Error>)
        ensures
            r is Some == self.has_source(),
    {
        match self {
            PdfCatError::FileNotAccessible { source, .. } => Some(source),
            PdfCatError::FailedToCreateOutput { source, .. } => Some(source),
            PdfCatError::FailedToWrite { source, .. } => Some(source),
            PdfCatError::FailedToReadInputList { source, .. } => Some(source),
            PdfCatError::Io { source } => Some(source),
            _ => None,
        }
    }

    /// The text of the error given the text of its cause.
    pub fn render(&self, cause: &str) -> (r: String)
        ensures
            r@ == self.message(cause@),
    {
        let r = match self {
            PdfCatError::FileNotFound { path } => {
                let p = path_display(path);
                concat("File not found: ", p.as_str())
            },
            PdfCatError::FileNotAccessible { path, .. } => {
                two_part("Cannot access file: ", path, "\n  Reason: ", cause)
            },
            PdfCatError::NotAFile { path } => {
                let p = path_display(path);
                concat("Not a file: ", p.as_str())
            },
            PdfCatError::FailedToLoadPdf { path, reason } => {
                two_part("Failed to load PDF: ", path, "\n  Reason: ", reason.as_str())
            },
            PdfCatError::CorruptedPdf { path, details } => {
                two_part("Corrupted or invalid PDF: ", path, "\n  Details: ", details.as_str())
            },
            PdfCatError::EncryptedPdf { path } => {
                two_part(
                    "PDF is encrypted and cannot be processed: ",
                    path,
                    "\n  Hint: Decrypt the PDF first using 'qpdf --decrypt' or similar tools",
                    "",
                )
            },
            PdfCatError::NoFilesToMerge => "No input files specified for merging".to_owned(),
            PdfCatError::OutputExists { path } => {
                two_part(
                    "Output file already exists: ",
                    path,
                    "\n  Use --force to overwrite or choose a different output path",
                    "",
                )
            },
            PdfCatError::FailedToCreateOutput { path, .. } => {
                two_part("Failed to create output file: ", path, "\n  Reason: ", cause)
            },
            PdfCatError::FailedToWrite { path, .. } => {
                two_part("Failed to write to output file: ", path, "\n  Reason: ", cause)
            },
            PdfCatError::FailedToReadInputList { path, .. } => {
                two_part("Failed to read input list file: ", path, "\n  Reason: ", cause)
            },
            PdfCatError::InvalidInputList { path, line_number, details } => {
                let mut r = two_part("Invalid entry in input list file: ", path, " at line ", "");
                push_decimal(&mut r, *line_number as u64);
                r.append("\n  Details: ");
                r.append(details.as_str());
                r
            },
            PdfCatError::InvalidPageRange { path, range, total_pages } => {
                let mut r = concat("Invalid page range '", range.as_str());
                r.append("' for PDF: ");
                let p = path_display(path);
                r.append(p.as_str());
                r.append("\n  PDF has ");
                push_decimal(&mut r, *total_pages as u64);
                r.append(" page(s). Page numbers must be between 1 and ");
                push_decimal(&mut r, *total_pages as u64);
                r
            },
            PdfCatError::MergeFailed { reason } => concat(
                "Merge operation failed: ",
                reason.as_str(),
            ),
            PdfCatError::BookmarkFailed { path, reason } => {
                two_part("Failed to process bookmarks for: ", path, "\n  Reason: ", reason.as_str())
            },
            PdfCatError::MetadataFailed { reason } => concat(
                "Failed to set metadata: ",
                reason.as_str(),
            ),
            PdfCatError::InvalidConfig { message } => concat(
                "Invalid configuration: ",
                message.as_str(),
            ),
            PdfCatError::Cancelled => "Operation cancelled by user".to_owned(),
            PdfCatError::Io { .. } => concat("I/O error: ", cause),
            PdfCatError::Other { message } => message.clone(),
        };
        proof {
            reveal_strlit("");
        }
        assert(r@ =~= self.message(cause@));
        r
    }

    /// The text of the error. Where the error has an I/O cause, the text of
    /// that cause stands in it as the operating system words it.
    pub fn to_string(&self) -> (r: String)
        ensures
            !self.has_source() ==> r@ == self.message(Seq::empty()),
            self.has_source() ==> exists|cause: Seq<char>| r@ == self.message(cause),
    {
        match self.source() {
            Some(e) => {
                let cause = io_error_display(e);
                self.render(cause.as_str())
            },
            None => {
                proof {
                    reveal_strlit("");
                }
                let r = self.render("");
                assert(""@ =~= Seq::<char>::empty());
                r
            },
        }
    }
}

/// `lead`, the text of `path`, `middle` and `tail`, one after the other.
fn two_part(lead: &str, path: &PathBuf, middle: &str, tail: &str) -> (r: String)
    ensures
        r@ == lead@ + path_text(*path) + middle@ + tail@,
{
    let p = path_display(path);
    let mut r = concat(lead, p.as_str());
    r.append(middle);
    r.append(tail);
    r
}

} // verus!
