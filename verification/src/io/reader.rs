//! Loaded documents and the statistics of a batch of loads.

use crate::document::Document;
use crate::error::PdfCatError;
use crate::time::{duration_add, duration_div, duration_zero, longest_nanos, nanos_of};
use crate::utils::{format_file_size, size_text};
use std::path::PathBuf;
use std::time::Duration;
use vstd::prelude::*;
use vstd::string::*;

verus! {

/// A loaded document with what is known of its file.
#[derive(Debug)]
pub struct LoadedPdf {
    /// The document.
    pub document: Document,
    /// Path to the source file.
    pub path: PathBuf,
    /// Number of pages of the document.
    pub page_count: usize,
    /// Time taken to load the document.
    pub load_time: Duration,
    /// File size in bytes.
    pub file_size: u64,
}

/// Statistics for a batch of loads.
#[derive(Debug, Clone)]
pub struct LoadStatistics {
    /// Number of files loaded.
    pub success_count: usize,
    /// Number of files that failed to load.
    pub failure_count: usize,
    /// Total time taken for all loads.
    pub total_time: Duration,
    /// Average time per file loaded.
    pub average_time: Duration,
    /// Total size of the files loaded, capped at the largest number.
    pub total_size: u64,
    /// Total number of pages loaded, capped at the largest number.
    pub total_pages: usize,
}

/// Reader settings.
#[derive(Debug, Clone)]
pub struct PdfReader {
    verify: bool,
}

/// The number of successful loads among `results`.
pub open spec fn successes(results: Seq<Result<LoadedPdf, PdfCatError>>) -> nat
    decreases results.len(),
{
    if results.len() == 0 {
        0
    } else {
        successes(results.drop_last()) + if results.last() is Ok {
            1nat
        } else {
            0nat
        }
    }
}

/// The sizes of the files loaded, added up.
pub open spec fn size_sum(results: Seq<Result<LoadedPdf, PdfCatError>>) -> nat
    decreases results.len(),
{
    if results.len() == 0 {
        0
    } else {
        size_sum(results.drop_last()) + match results.last() {
            Ok(loaded) => loaded.file_size as nat,
            Err(_) => 0nat,
        }
    }
}

/// The pages of the files loaded, added up.
pub open spec fn page_sum(results: Seq<Result<LoadedPdf, PdfCatError>>) -> nat
    decreases results.len(),
{
    if results.len() == 0 {
        0
    } else {
        page_sum(results.drop_last()) + match results.last() {
            Ok(loaded) => loaded.page_count as nat,
            Err(_) => 0nat,
        }
    }
}

/// The load times of the files loaded, added up in nanoseconds, each sum
/// capped at the longest span.
pub open spec fn time_sum(results: Seq<Result<LoadedPdf, PdfCatError>>) -> nat
    decreases results.len(),
{
    if results.len() == 0 {
        0
    } else {
        match results.last() {
            Ok(loaded) => capped(
                time_sum(results.drop_last()) + nanos_of(loaded.load_time),
                longest_nanos(),
            ),
            Err(_) => time_sum(results.drop_last()),
        }
    }
}

/// `n`, or `cap` where `n` is larger.
pub open spec fn capped(n: nat, cap: nat) -> nat {
    if n <= cap {
        n
    } else {
        cap
    }
}

/// The number of successes is at most the number of results.
pub proof fn lemma_successes_bound(results: Seq<Result<LoadedPdf, PdfCatError>>)
    ensures
        successes(results) <= results.len(),
    decreases results.len(),
{
    if results.len() > 0 {
        lemma_successes_bound(results.drop_last());
    }
}

/// The time of the loads that succeeded, divided by their number, in whole
/// nanoseconds; the number counts up to `u32::MAX`. 0 where none succeeded.
pub open spec fn mean_time(results: Seq<Result<LoadedPdf, PdfCatError>>) -> nat {
    if successes(results) == 0 {
        0
    } else if successes(results) <= u32::MAX {
        time_sum(results) / successes(results)
    } else {
        time_sum(results) / (u32::MAX as nat)
    }
}

impl LoadedPdf {
    /// A loaded document; its pages are counted.
    pub fn new(document: Document, path: PathBuf, load_time: Duration, file_size: u64) -> (r:
        LoadedPdf)
        ensures
            r.document@ == document@,
            r.path == path,
            r.page_count == document@.pages().len(),
            r.load_time == load_time,
            r.file_size == file_size,
    {
        let page_count = document.get_pages().len();
        LoadedPdf { document, path, page_count, load_time, file_size }
    }
}

impl LoadStatistics {
    /// The statistics of a batch of loads that took `total_time`.
    pub fn from_results(results: &Vec<Result<LoadedPdf, PdfCatError>>, total_time: Duration) -> (s:
        LoadStatistics)
        ensures
            s.success_count == successes(results@),
            s.failure_count == results@.len() - successes(results@),
            s.total_time == total_time,
            s.total_size == capped(size_sum(results@), u64::MAX as nat),
            s.total_pages == capped(page_sum(results@), usize::MAX as nat),
            nanos_of(s.average_time) <= mean_time(results@),
            nanos_of(s.average_time) + 1 >= mean_time(results@),
    {
        let mut success_count: usize = 0;
        let mut failure_count: usize = 0;
        let mut total_size: u64 = 0;
        let mut total_pages: usize = 0;
        let mut total_load_time = duration_zero();
        let mut i: usize = 0;
        assert(results@.subrange(0, 0) =~= Seq::<Result<LoadedPdf, PdfCatError>>::empty());
        while i < results.len()
            invariant
                i <= results.len(),
                success_count == successes(results@.subrange(0, i as int)),
                success_count + failure_count == i,
                total_size == capped(size_sum(results@.subrange(0, i as int)), u64::MAX as nat),
                total_pages == capped(
                    page_sum(results@.subrange(0, i as int)),
                    usize::MAX as nat,
                ),
                nanos_of(total_load_time) == time_sum(results@.subrange(0, i as int)),
                nanos_of(total_load_time) <= longest_nanos(),
            decreases results.len() - i,
        {
            proof {
                assert(results@.subrange(0, i + 1).drop_last() =~= results@.subrange(0, i as int));
                assert(results@.subrange(0, i + 1).last() == results@[i as int]);
                lemma_successes_bound(results@.subrange(0, i as int));
            }
            match &results[i] {
                Ok(loaded) => {
                    success_count += 1;
                    total_size = total_size.saturating_add(loaded.file_size);
                    total_pages = total_pages.saturating_add(loaded.page_count);
                    total_load_time = duration_add(total_load_time, loaded.load_time);
                },
                Err(_) => {
                    failure_count += 1;
                },
            }
            i += 1;
        }
        assert(results@.subrange(0, i as int) =~= results@);
        let average_time = if success_count > 0 {
            let parts: u32 = if success_count as u64 > 0xFFFF_FFFF {
                0xFFFF_FFFF
            } else {
                success_count as u32
            };
            duration_div(total_load_time, parts)
        } else {
            duration_zero()
        };
        LoadStatistics {
            success_count,
            failure_count,
            total_time,
            average_time,
            total_size,
            total_pages,
        }
    }

    /// The total size as text.
    pub fn format_total_size(&self) -> (r: String)
        ensures
            r@ == size_text(self.total_size as nat),
    {
        format_file_size(self.total_size)
    }
}

/// Whether `needle` stands in `hay` at position `at`.
pub open spec fn occurs_at(hay: Seq<char>, needle: Seq<char>, at: int) -> bool {
    0 <= at && at + needle.len() <= hay.len() && hay.subrange(at, at + needle.len()) == needle
}

/// Whether `needle` stands somewhere in `hay`.
pub open spec fn occurs(hay: Seq<char>, needle: Seq<char>) -> bool {
    exists|at: int| occurs_at(hay, needle, at)
}

/// Whether `needle` stands somewhere in `hay`.
pub fn contains_text(hay: &Vec<char>, needle: &Vec<char>) -> (r: bool)
    ensures
        r == occurs(hay@, needle@),
{
    if needle.len() > hay.len() {
        assert forall|at: int| !occurs_at(hay@, needle@, at) by {}
        return false;
    }
    let last: usize = hay.len() - needle.len();
    let mut at: usize = 0;
    while at <= last
        invariant
            last == hay.len() - needle.len(),
            at <= last + 1,
            forall|k: int| 0 <= k < at ==> !occurs_at(hay@, needle@, k),
        decreases last + 1 - at,
    {
        let mut j: usize = 0;
        while j < needle.len() && hay[at + j] == needle[j]
            invariant
                at <= last,
                last == hay.len() - needle.len(),
                j <= needle.len(),
                forall|k: int| 0 <= k < j ==> hay@[at + k] == needle@[k],
            decreases needle.len() - j,
        {
            j += 1;
        }
        if j == needle.len() {
            assert(hay@.subrange(at as int, at + needle.len()) =~= needle@);
            assert(occurs_at(hay@, needle@, at as int));
            return true;
        }
        assert(!occurs_at(hay@, needle@, at as int)) by {
            if occurs_at(hay@, needle@, at as int) {
                assert(hay@.subrange(at as int, at + needle.len())[j as int] == needle@[j as int]);
            }
        }
        at += 1;
    }
    assert forall|k: int| !occurs_at(hay@, needle@, k) by {}
    false
}

impl Default for PdfReader {
    fn default() -> (r: Self)
        ensures
            r.verifies(),
    {
        PdfReader { verify: true }
    }
}

impl PdfReader {
    /// Whether the reader checks that a document has pages.
    pub closed spec fn verifies(&self) -> bool {
        self.verify
    }

    /// A reader that checks what it loads.
    pub fn new() -> (r: Self)
        ensures
            r.verifies(),
    {
        PdfReader { verify: true }
    }

    /// A reader that does not check what it loads.
    pub fn without_verification() -> (r: Self)
        ensures
            !r.verifies(),
    {
        PdfReader { verify: false }
    }

    /// The error for a file that could not be loaded: `EncryptedPdf` where
    /// the loader's message speaks of encryption or of a password, else
    /// `FailedToLoadPdf` with the message.
    pub fn load_error(path: PathBuf, message: &str) -> (e: PdfCatError)
        ensures
            if occurs(message@, "encrypt"@) || occurs(message@, "password"@) {
                e == (PdfCatError::EncryptedPdf { path })
            } else {
                e matches PdfCatError::FailedToLoadPdf { path: p, reason } && p == path && reason@
                    == message@
            },
    {
        let chars = crate::text::chars_of(message);
        let encrypt = crate::text::chars_of("encrypt");
        let password = crate::text::chars_of("password");
        if contains_text(&chars, &encrypt) || contains_text(&chars, &password) {
            PdfCatError::encrypted_pdf(path)
        } else {
            PdfCatError::failed_to_load_pdf(path, message)
        }
    }

    /// Takes in a document that was read from `path`: with its pages
    /// counted, unless the reader checks and the document has no page.
    pub fn accept(&self, document: Document, path: PathBuf, load_time: Duration, file_size: u64) -> (r:
        Result<LoadedPdf, PdfCatError>)
        ensures
            match r {
                Ok(loaded) => {
                    &&& !(self.verifies() && document@.pages().len() == 0)
                    &&& loaded.document@ == document@
                    &&& loaded.path == path
                    &&& loaded.page_count == document@.pages().len()
                    &&& loaded.load_time == load_time
                    &&& loaded.file_size == file_size
                },
                Err(e) => {
                    &&& self.verifies() && document@.pages().len() == 0
                    &&& e matches PdfCatError::CorruptedPdf { path: p, details } && p == path
                        && details@ == "PDF has no pages"@
                },
            },
    {
        if self.verify {
            let pages = document.get_pages();
            if pages.len() == 0 {
                return Err(PdfCatError::corrupted_pdf(path, "PDF has no pages"));
            }
        }
        Ok(LoadedPdf::new(document, path, load_time, file_size))
    }
}

} // verus!
