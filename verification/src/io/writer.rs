//! What writing a document is asked to do, and what it reports.

use crate::document::{Document, DocumentView};
use crate::merge::compact::{compress, compressed};
use crate::merge::renumber::{renumber_objects, renumbered};
use crate::utils::{format_file_size, size_text};
use std::path::PathBuf;
use std::time::Duration;
use vstd::prelude::*;
use vstd::string::*;

verus! {

/// Options for writing a document.
#[derive(Debug, Clone)]
pub struct WriteOptions {
    /// Write to a temporary file, then rename.
    pub atomic: bool,
    /// Compress the streams before writing.
    pub compress: bool,
    /// Renumber the objects before writing.
    pub optimize: bool,
    /// Buffer size for writing, in bytes.
    pub buffer_size: usize,
}

/// What a write operation reports.
#[derive(Debug, Clone)]
pub struct WriteStatistics {
    /// Time taken to write the file.
    pub write_time: Duration,
    /// Size of the written file in bytes.
    pub file_size: u64,
    /// Path where the file was written.
    pub output_path: PathBuf,
    /// Whether the streams were compressed.
    pub compressed: bool,
    /// Whether the objects were renumbered.
    pub optimized: bool,
}

/// Writer settings.
#[derive(Debug, Clone)]
pub struct PdfWriter {
    options: WriteOptions,
}

impl Default for WriteOptions {
    fn default() -> (r: Self)
        ensures
            r.atomic,
            r.compress,
            r.optimize,
            r.buffer_size == 8192,
    {
        WriteOptions { atomic: true, compress: true, optimize: true, buffer_size: 8192 }
    }
}

impl WriteStatistics {
    /// The size of the written file as text.
    pub fn format_file_size(&self) -> (r: String)
        ensures
            r@ == size_text(self.file_size as nat),
    {
        format_file_size(self.file_size)
    }
}

impl Default for PdfWriter {
    fn default() -> (r: Self)
        ensures
            r.options() == (WriteOptions {
                atomic: true,
                compress: true,
                optimize: true,
                buffer_size: 8192,
            }),
    {
        PdfWriter { options: WriteOptions::default() }
    }
}

/// The document as it is written: compressed and renumbered from 1, each
/// where the options ask for it.
pub open spec fn prepared_for_writing(doc: DocumentView, compress: bool, optimize: bool) -> DocumentView {
    let packed = if compress {
        compressed(doc)
    } else {
        doc
    };
    if optimize {
        renumbered(packed, 1)
    } else {
        packed
    }
}

impl PdfWriter {
    /// The options of the writer.
    pub closed spec fn options(&self) -> WriteOptions {
        self.options
    }

    /// A writer with the default options: atomic, compressing, renumbering,
    /// with a buffer of 8192 bytes.
    pub fn new() -> (r: Self)
        ensures
            r.options() == (WriteOptions {
                atomic: true,
                compress: true,
                optimize: true,
                buffer_size: 8192,
            }),
    {
        PdfWriter { options: WriteOptions::default() }
    }

    /// A writer with the given options.
    pub fn with_options(options: WriteOptions) -> (r: Self)
        ensures
            r.options() == options,
    {
        PdfWriter { options }
    }

    /// A writer that writes in place.
    pub fn non_atomic() -> (r: Self)
        ensures
            r.options() == (WriteOptions {
                atomic: false,
                compress: true,
                optimize: true,
                buffer_size: 8192,
            }),
    {
        PdfWriter {
            options: WriteOptions { atomic: false, compress: true, optimize: true, buffer_size: 8192 },
        }
    }

    /// A writer that does not compress.
    pub fn without_compression() -> (r: Self)
        ensures
            r.options() == (WriteOptions {
                atomic: true,
                compress: false,
                optimize: true,
                buffer_size: 8192,
            }),
    {
        PdfWriter {
            options: WriteOptions { atomic: true, compress: false, optimize: true, buffer_size: 8192 },
        }
    }

    /// The options of the writer.
    pub fn write_options(&self) -> (r: &WriteOptions)
        ensures
            *r == self.options(),
    {
        &self.options
    }

    /// The document as it is to be written: a copy, compressed and
    /// renumbered where the options ask for it. `None` where the objects
    /// are too many to renumber.
    pub fn prepare(&self, doc: &Document) -> (r: Option<Document>)
        ensures
            match r {
                Some(d) => {
                    &&& d@ == prepared_for_writing(
                        doc@,
                        self.options().compress,
                        self.options().optimize,
                    )
                    &&& (self.options().optimize ==> doc@.objects.len() <= u32::MAX)
                },
                None => self.options().optimize && doc@.objects.len() > u32::MAX,
            },
    {
        let mut copy = doc.clone();
        if self.options.compress {
            compress(&mut copy);
        }
        if self.options.optimize {
            if copy.object_count() as u64 > 0xFFFF_FFFF {
                return None;
            }
            renumber_objects(&mut copy);
        }
        Some(copy)
    }
}

} // verus!
