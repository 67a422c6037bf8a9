//! What validating the inputs reports, before a merge is attempted.

use crate::config::{
    find_sep, last_page, next_sep, page_number, parse_page_number, range_debug, PageRange,
};
use crate::document::Document;
use crate::text::{chars_of, slice_chars};
use crate::error::PdfCatError;
use crate::io::reader::capped;
use crate::utils::{format_file_size, size_text};
use std::path::PathBuf;
use vstd::prelude::*;
use vstd::string::*;

verus! {

/// What validating one file found.
#[derive(Debug, Clone)]
pub struct ValidationResult {
    /// Path to the file.
    pub path: PathBuf,
    /// Number of pages.
    pub page_count: usize,
    /// Version of the format, major and minor.
    pub version: Option<(u8, u8)>,
    /// Size of the file in bytes.
    pub file_size: u64,
    /// Whether the file is encrypted.
    pub is_encrypted: bool,
    /// Number of objects.
    pub object_count: usize,
    /// Width and height of the first page in points, each held as the bit
    /// pattern of its single-precision encoding.
    pub page_dimensions: Option<(u32, u32)>,
}

/// Summary of validating several files.
#[derive(Debug, Clone)]
pub struct ValidationSummary {
    /// What was found for each file.
    pub results: Vec<ValidationResult>,
    /// Total number of pages, capped at the largest number.
    pub total_pages: usize,
    /// Total size in bytes, capped at the largest number.
    pub total_size: u64,
    /// Number of files that passed.
    pub files_validated: usize,
    /// Number of files that failed.
    pub files_failed: usize,
}

/// Validator settings.
#[derive(Debug, Clone, Copy)]
pub struct Validator {
    strict: bool,
}

/// The pages of the files, added up.
pub open spec fn pages_total(results: Seq<ValidationResult>) -> nat
    decreases results.len(),
{
    if results.len() == 0 {
        0
    } else {
        pages_total(results.drop_last()) + results.last().page_count as nat
    }
}

/// The sizes of the files, added up.
pub open spec fn sizes_total(results: Seq<ValidationResult>) -> nat
    decreases results.len(),
{
    if results.len() == 0 {
        0
    } else {
        sizes_total(results.drop_last()) + results.last().file_size as nat
    }
}

/// The position of the first file that lacks a page that the range names.
pub open spec fn first_short(results: Seq<ValidationResult>, last: u32) -> Option<int> {
    if exists|i: int| 0 <= i < results.len() && (#[trigger] results[i]).page_count < last {
        Some(
            choose|i: int|
                0 <= i < results.len() && (#[trigger] results[i]).page_count < last && forall|
                    j: int,
                |
                    0 <= j < i ==> (#[trigger] results[j]).page_count >= last,
        )
    } else {
        None
    }
}

/// The files that passed among `results`, in order.
pub open spec fn passed(results: Seq<Result<ValidationResult, PdfCatError>>) -> Seq<
    ValidationResult,
>
    decreases results.len(),
{
    if results.len() == 0 {
        Seq::empty()
    } else {
        match results.last() {
            Ok(result) => passed(results.drop_last()).push(result),
            Err(_) => passed(results.drop_last()),
        }
    }
}

/// The error of the first file that failed.
pub open spec fn first_invalid(results: Seq<Result<ValidationResult, PdfCatError>>) -> Option<
    PdfCatError,
>
    decreases results.len(),
{
    if results.len() == 0 {
        None
    } else {
        match first_invalid(results.drop_last()) {
            Some(e) => Some(e),
            None => match results.last() {
                Ok(_) => None,
                Err(e) => Some(e),
            },
        }
    }
}

/// The first failure among the first `k` results is the first failure among
/// all.
pub proof fn lemma_first_invalid_stays(
    results: Seq<Result<ValidationResult, PdfCatError>>,
    k: int,
)
    requires
        0 <= k <= results.len(),
        first_invalid(results.subrange(0, k)) is Some,
    ensures
        first_invalid(results) == first_invalid(results.subrange(0, k)),
    decreases results.len() - k,
{
    if k == results.len() {
        assert(results.subrange(0, k) =~= results);
    } else {
        assert(results.subrange(0, k + 1).drop_last() =~= results.subrange(0, k));
        lemma_first_invalid_stays(results, k + 1);
    }
}

/// Whether some file failed.
pub open spec fn any_invalid(results: Seq<Result<ValidationResult, PdfCatError>>) -> bool {
    exists|i: int| 0 <= i < results.len() && (#[trigger] results[i]) is Err
}

/// A part of a version, as it counts: the number that the text writes where
/// it fits 8 bits, else 0.
pub open spec fn version_part(text: Seq<char>) -> u8 {
    match page_number(text) {
        Some(n) => if n <= u8::MAX {
            n as u8
        } else {
            0
        },
        None => 0,
    }
}

/// The version that a text such as `1.7` writes: what stands before the
/// first point and what stands after it; nothing where there is no point.
pub open spec fn version_of(text: Seq<char>) -> Option<(u8, u8)> {
    let point = next_sep(text, 0, '.');
    if point < text.len() {
        Some(
            (
                version_part(text.subrange(0, point)),
                version_part(text.subrange(point + 1, text.len() as int)),
            ),
        )
    } else {
        None
    }
}

fn parse_version_part(chars: &Vec<char>) -> (r: u8)
    ensures
        r == version_part(chars@),
{
    match parse_page_number(chars) {
        Some(n) => if n <= 255 {
            n as u8
        } else {
            0
        },
        None => 0,
    }
}

/// The version that a text writes.
pub fn parse_version(text: &str) -> (r: Option<(u8, u8)>)
    ensures
        r == version_of(text@),
{
    let chars = chars_of(text);
    let point = find_sep(&chars, 0, '.');
    if point < chars.len() {
        let major = parse_version_part(&slice_chars(&chars, 0, point));
        let minor = parse_version_part(&slice_chars(&chars, point + 1, chars.len()));
        Some((major, minor))
    } else {
        None
    }
}

impl ValidationResult {
    /// What is found of a document that was read from `path`: its pages and
    /// objects counted and its version read. The size of the file and the
    /// size of the first page are taken as given.
    pub fn from_document(
        path: PathBuf,
        doc: &Document,
        file_size: u64,
        page_dimensions: Option<(u32, u32)>,
    ) -> (r: ValidationResult)
        ensures
            r.path == path,
            r.page_count == doc@.pages().len(),
            r.version == version_of(doc@.version),
            r.file_size == file_size,
            !r.is_encrypted,
            r.object_count == doc@.objects.len(),
            r.page_dimensions == page_dimensions,
    {
        ValidationResult {
            path,
            page_count: doc.get_pages().len(),
            version: parse_version(doc.version().as_str()),
            file_size,
            is_encrypted: false,
            object_count: doc.object_count(),
            page_dimensions,
        }
    }
}

impl ValidationSummary {
    /// The summary of files that all passed.
    pub fn from_results(results: Vec<ValidationResult>) -> (s: ValidationSummary)
        ensures
            s.results@ == results@,
            s.total_pages == capped(pages_total(results@), usize::MAX as nat),
            s.total_size == capped(sizes_total(results@), u64::MAX as nat),
            s.files_validated == results@.len(),
            s.files_failed == 0,
    {
        let mut total_pages: usize = 0;
        let mut total_size: u64 = 0;
        let mut i: usize = 0;
        assert(results@.subrange(0, 0) =~= Seq::<ValidationResult>::empty());
        while i < results.len()
            invariant
                i <= results.len(),
                total_pages == capped(
                    pages_total(results@.subrange(0, i as int)),
                    usize::MAX as nat,
                ),
                total_size == capped(sizes_total(results@.subrange(0, i as int)), u64::MAX as nat),
            decreases results.len() - i,
        {
            proof {
                assert(results@.subrange(0, i + 1).drop_last() =~= results@.subrange(0, i as int));
                assert(results@.subrange(0, i + 1).last() == results@[i as int]);
            }
            total_pages = total_pages.saturating_add(results[i].page_count);
            total_size = total_size.saturating_add(results[i].file_size);
            i += 1;
        }
        assert(results@.subrange(0, i as int) =~= results@);
        let files_validated = results.len();
        ValidationSummary { results, total_pages, total_size, files_validated, files_failed: 0 }
    }

    /// The total size as text.
    pub fn format_total_size(&self) -> (r: String)
        ensures
            r@ == size_text(self.total_size as nat),
    {
        format_file_size(self.total_size)
    }
}

impl Default for Validator {
    fn default() -> (r: Self)
        ensures
            !r.is_strict(),
    {
        Validator { strict: false }
    }
}

impl Validator {
    /// Whether warnings count as errors.
    pub closed spec fn is_strict(&self) -> bool {
        self.strict
    }

    /// A validator with the default settings.
    pub fn new() -> (r: Self)
        ensures
            !r.is_strict(),
    {
        Validator { strict: false }
    }

    /// A validator for which warnings count as errors.
    pub fn strict() -> (r: Self)
        ensures
            r.is_strict(),
    {
        Validator { strict: true }
    }

    /// The summary of what validating a batch of files gave. Without
    /// `continue_on_error` the first failure is returned as the error; with
    /// it the failures are counted and left out. Fails with
    /// `NoFilesToMerge` where no file passed.
    pub fn summarize(
        &self,
        results: Vec<Result<ValidationResult, PdfCatError>>,
        continue_on_error: bool,
    ) -> (r: Result<ValidationSummary, PdfCatError>)
        ensures
            match r {
                Ok(summary) => {
                    &&& continue_on_error || !any_invalid(results@)
                    &&& summary.results@ == passed(results@)
                    &&& summary.results@.len() > 0
                    &&& summary.files_validated == passed(results@).len()
                    &&& summary.files_failed == results@.len() - passed(results@).len()
                    &&& summary.total_pages == capped(
                        pages_total(passed(results@)),
                        usize::MAX as nat,
                    )
                    &&& summary.total_size == capped(sizes_total(passed(results@)), u64::MAX as nat)
                },
                Err(e) => if continue_on_error || !any_invalid(results@) {
                    e is NoFilesToMerge && passed(results@).len() == 0
                } else {
                    first_invalid(results@) == Some(e)
                },
            },
    {
        let ghost all = results@;
        let total = results.len();
        let mut pending = results;
        let mut taken: Vec<Result<ValidationResult, PdfCatError>> = Vec::new();
        while pending.len() > 0
            invariant
                pending@.len() + taken@.len() == all.len(),
                forall|j: int| 0 <= j < pending@.len() ==> pending@[j] == all[j],
                forall|j: int|
                    0 <= j < taken@.len() ==> (#[trigger] taken@[j]) == all[all.len() - 1 - j],
            decreases pending@.len(),
        {
            let last = pending.pop().unwrap();
            taken.push(last);
        }
        let mut kept: Vec<ValidationResult> = Vec::new();
        assert(all.subrange(0, 0) =~= Seq::<Result<ValidationResult, PdfCatError>>::empty());
        while taken.len() > 0
            invariant
                all == results@,
                total == all.len(),
                taken@.len() <= all.len(),
                forall|j: int|
                    0 <= j < taken@.len() ==> (#[trigger] taken@[j]) == all[all.len() - 1 - j],
                kept@ == passed(all.subrange(0, all.len() - taken@.len())),
                kept@.len() <= all.len() - taken@.len(),
                continue_on_error || !any_invalid(all.subrange(0, all.len() - taken@.len())),
                continue_on_error || first_invalid(all.subrange(0, all.len() - taken@.len()))
                    is None,
            decreases taken@.len(),
        {
            let ghost done = all.len() - taken@.len();
            let next = taken.pop().unwrap();
            proof {
                assert(next == all[done]);
                assert(all.subrange(0, done + 1).drop_last() =~= all.subrange(0, done));
                assert(all.subrange(0, done + 1).last() == all[done]);
            }
            match next {
                Ok(result) => {
                    kept.push(result);
                    proof {
                        if any_invalid(all.subrange(0, done + 1)) {
                            let j = choose|j: int|
                                0 <= j < done + 1 && (#[trigger] all.subrange(0, done + 1)[j])
                                    is Err;
                            assert(all.subrange(0, done)[j] is Err);
                        }
                    }
                },
                Err(e) => {
                    if !continue_on_error {
                        proof {
                            assert(all[done] is Err);
                            lemma_first_invalid_stays(all, done + 1);
                        }
                        return Err(e);
                    }
                },
            }
        }
        assert(all.subrange(0, all.len() as int) =~= all);
        if kept.len() == 0 {
            return Err(PdfCatError::NoFilesToMerge);
        }
        let failed: usize = total - kept.len();
        let mut summary = ValidationSummary::from_results(kept);
        summary.files_failed = failed;
        Ok(summary)
    }

    /// Checks the page range against the files that passed: the first file
    /// that lacks a page that the range names gives `InvalidPageRange`.
    pub fn check_page_range(&self, range: &PageRange, summary: &ValidationSummary) -> (r: Result<
        (),
        PdfCatError,
    >)
        ensures
            match r {
                Ok(()) => first_short(summary.results@, last_page(range@)) is None,
                Err(e) => {
                    &&& first_short(summary.results@, last_page(range@)) matches Some(i)
                    &&& e matches PdfCatError::InvalidPageRange { path, range: shown, total_pages }
                    &&& path == summary.results@[i].path
                    &&& total_pages == summary.results@[i].page_count
                    &&& shown@ == range_debug(range@)
                },
            },
    {
        let last = range.max_page();
        let mut i: usize = 0;
        while i < summary.results.len()
            invariant
                i <= summary.results.len(),
                last == last_page(range@),
                forall|j: int| 0 <= j < i ==> (#[trigger] summary.results@[j]).page_count >= last,
            decreases summary.results.len() - i,
        {
            let count = summary.results[i].page_count;
            if (count as u64) < last as u64 {
                proof {
                    let found = first_short(summary.results@, last)->0;
                    if found < i {
                        assert(summary.results@[found].page_count >= last);
                    } else if found > i {
                        assert(summary.results@[i as int].page_count >= last);
                    }
                }
                return Err(
                    PdfCatError::InvalidPageRange {
                        path: summary.results[i].path.clone(),
                        range: range.debug_text(),
                        total_pages: count,
                    },
                );
            }
            i += 1;
        }
        Ok(())
    }
}

} // verus!
