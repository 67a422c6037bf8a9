//! The merge: the sources are folded into one document, one after the
//! other, then bookmarked, stamped, compacted and renumbered.

use crate::config::{
    last_page, pages_upto, CompressionLevel, Config, Metadata, PageRange, PageRangeItem, Rotation,
};
use crate::document::{Document, DocumentView};
use crate::error::PdfCatError;
use crate::io::reader::{capped, LoadedPdf, PdfReader};
use crate::merge::bookmarks::{
    bookmark_targets, can_add_outline, with_outline, BookmarkManager,
};
use crate::merge::compact::{compress, compressed, prune_objects, pruned};
use crate::merge::metadata::{
    can_set_metadata, current_seconds, format_pdf_date_seconds, pdf_date, with_metadata,
    MetadataManager,
};
use crate::merge::keeping::{all_sound, law_merge_keeps_page_order, ready_total};
use crate::merge::owed::{law_merge_succeeds, merge_owed};
use crate::merge::pages::{
    can_add_pages, references, selected, with_pages, with_pages_added, with_pages_rotated,
    PageExtractor,
};
use crate::merge::renumber::{
    can_renumber, renumber_objects, renumber_objects_with, renumbered,
};
use crate::object::{Object, ObjectId};
use crate::time::{instant_elapsed, instant_now};
use crate::utils::{format_file_size, size_text};
use std::path::PathBuf;
use std::time::Duration;
use vstd::prelude::*;
use vstd::string::*;

verus! {

/// Statistics about a merge.
#[derive(Debug, Clone)]
pub struct MergeStatistics {
    /// Number of documents merged.
    pub files_merged: usize,
    /// Number of pages of the merged document.
    pub total_pages: usize,
    /// Time taken for the merge.
    pub merge_time: Duration,
    /// Time taken to load the documents.
    pub load_time: Duration,
    /// Total size of the input files, capped at the largest number.
    pub input_size: u64,
    /// Number of bookmarks counted; the merge counts none.
    pub bookmarks_added: usize,
    /// Whether compression was asked for.
    pub compressed: bool,
}

/// Result of a merge.
#[derive(Debug)]
pub struct MergeResult {
    /// The merged document.
    pub document: Document,
    /// Statistics about the merge.
    pub statistics: MergeStatistics,
    /// Paths of the files that were merged.
    pub merged_files: Vec<PathBuf>,
}

/// Merger of documents.
#[derive(Debug, Clone)]
pub struct Merger {
    reader: PdfReader,
    page_extractor: PageExtractor,
    bookmark_manager: BookmarkManager,
    metadata_manager: MetadataManager,
}

/// The documents of the sources, in order.
pub open spec fn documents(sources: Seq<LoadedPdf>) -> Seq<DocumentView> {
    Seq::new(sources.len(), |i: int| sources[i].document@)
}

/// The paths of the sources, in order.
pub open spec fn paths(sources: Seq<LoadedPdf>) -> Seq<PathBuf> {
    Seq::new(sources.len(), |i: int| sources[i].path)
}

/// The sizes of the sources, added up.
pub open spec fn input_sum(sources: Seq<LoadedPdf>) -> nat
    decreases sources.len(),
{
    if sources.len() == 0 {
        0
    } else {
        input_sum(sources.drop_last()) + sources.last().file_size as nat
    }
}

/// The items of a page range, where there is one.
pub open spec fn range_items(range: Option<PageRange>) -> Option<Seq<PageRangeItem>> {
    match range {
        Some(r) => Some(r@),
        None => None,
    }
}

/// A document with only the pages that the range selects; `None` where the
/// range names a page that the document lacks or selects no page.
pub open spec fn extracted(doc: DocumentView, items: Seq<PageRangeItem>) -> Option<DocumentView> {
    let total = doc.pages().len();
    if total <= u32::MAX && last_page(items) <= total && pages_upto(items, total).len() > 0 {
        Some(with_pages(doc, selected(doc.pages(), pages_upto(items, total))))
    } else {
        None
    }
}

/// A source made ready: its pages extracted where a range is given, then
/// turned where a rotation is given. `None` where either fails.
pub open spec fn prepared(
    doc: DocumentView,
    range: Option<Seq<PageRangeItem>>,
    rotation: Option<Rotation>,
) -> Option<DocumentView> {
    let cut = match range {
        Some(items) => extracted(doc, items),
        None => Some(doc),
    };
    match cut {
        Some(d) => match rotation {
            Some(r) => {
                let (turned, ok) = with_pages_rotated(d, d.pages(), r.degrees() as i64);
                if ok {
                    Some(turned)
                } else {
                    None
                }
            },
            None => Some(d),
        },
        None => None,
    }
}

/// The objects of `source`, renumbered to lie above the watermark of
/// `base`, joined to those of `base`.
pub open spec fn joined(base: DocumentView, source: DocumentView) -> DocumentView {
    let moved = renumbered(source, (base.max_id + 1) as u32);
    DocumentView {
        objects: base.objects + moved.objects,
        max_id: if moved.max_id > base.max_id {
            moved.max_id
        } else {
            base.max_id
        },
        ..base
    }
}

/// `base` with a ready source absorbed: the objects of the source are
/// renumbered from the number above the watermark of `base` and joined, and
/// its pages are appended to the page tree. `None` where the numbers run
/// out or the page tree cannot take the pages.
pub open spec fn absorbed(base: DocumentView, source: DocumentView) -> Option<DocumentView> {
    if base.max_id < u32::MAX && can_renumber(source, (base.max_id + 1) as u32) {
        let moved = renumbered(source, (base.max_id + 1) as u32);
        if can_add_pages(joined(base, source), moved.pages()) {
            Some(with_pages_added(joined(base, source), moved.pages()))
        } else {
            None
        }
    } else {
        None
    }
}

/// The sources combined: the first made ready, and each further one made
/// ready and absorbed, in order. `None` where there is no source or a step
/// fails.
pub open spec fn combined(
    sources: Seq<DocumentView>,
    range: Option<Seq<PageRangeItem>>,
    rotation: Option<Rotation>,
) -> Option<DocumentView>
    decreases sources.len(),
{
    if sources.len() == 0 {
        None
    } else if sources.len() == 1 {
        prepared(sources[0], range, rotation)
    } else {
        match combined(sources.drop_last(), range, rotation) {
            Some(base) => match prepared(sources.last(), range, rotation) {
                Some(source) => absorbed(base, source),
                None => None,
            },
            None => None,
        }
    }
}

/// The document with bookmarks for the files where they are asked for.
/// `None` where they cannot be added.
pub open spec fn bookmarked(doc: DocumentView, files: Seq<PathBuf>, enabled: bool) -> Option<
    DocumentView,
> {
    if !enabled || files.len() == 0 || doc.pages().len() == 0 {
        Some(doc)
    } else if can_add_outline(doc, files.len()) {
        Some(with_outline(doc, bookmark_targets(doc.pages(), files)))
    } else {
        None
    }
}

/// The document with the information written where a field is set. `None`
/// where it cannot be written.
pub open spec fn stamped(doc: DocumentView, metadata: Metadata, date: Seq<char>) -> Option<
    DocumentView,
> {
    if metadata.empty() {
        Some(doc)
    } else if can_set_metadata(doc) {
        Some(with_metadata(doc, metadata, date))
    } else {
        None
    }
}

/// The document compacted at a level: not at all, its streams compressed,
/// or compressed and pruned.
pub open spec fn compacted(doc: DocumentView, level: CompressionLevel) -> DocumentView {
    match level {
        CompressionLevel::Uncompressed => doc,
        CompressionLevel::Standard => compressed(doc),
        CompressionLevel::Maximum => pruned(compressed(doc)),
    }
}

/// The document renumbered from 1. `None` where its objects are too many.
pub open spec fn finished(doc: DocumentView) -> Option<DocumentView> {
    if can_renumber(doc, 1) {
        Some(renumbered(doc, 1))
    } else {
        None
    }
}

/// The merge before its last step: the sources combined, bookmarked,
/// stamped and compacted. `None` where a step fails.
pub open spec fn assembled(
    sources: Seq<DocumentView>,
    files: Seq<PathBuf>,
    config: Config,
    date: Seq<char>,
) -> Option<DocumentView> {
    match combined(sources, range_items(config.page_range), config.rotation) {
        Some(whole) => match bookmarked(whole, files, config.bookmarks) {
            Some(marked) => match stamped(marked, config.metadata, date) {
                Some(dated) => Some(compacted(dated, config.compression)),
                None => None,
            },
            None => None,
        },
        None => None,
    }
}

/// What a merge of `sources` gives under `config`, stamped with `date`:
/// the sources combined, bookmarked, stamped, compacted and renumbered from
/// 1. `None` where a step fails.
pub open spec fn merge_plan(
    sources: Seq<DocumentView>,
    files: Seq<PathBuf>,
    config: Config,
    date: Seq<char>,
) -> Option<DocumentView> {
    match combined(sources, range_items(config.page_range), config.rotation) {
        Some(whole) => match bookmarked(whole, files, config.bookmarks) {
            Some(marked) => match stamped(marked, config.metadata, date) {
                Some(dated) => finished(compacted(dated, config.compression)),
                None => None,
            },
            None => None,
        },
        None => None,
    }
}

/// The successful loads among `results`, in order.
pub open spec fn survivors(results: Seq<Result<LoadedPdf, PdfCatError>>) -> Seq<LoadedPdf>
    decreases results.len(),
{
    if results.len() == 0 {
        Seq::empty()
    } else {
        match results.last() {
            Ok(loaded) => survivors(results.drop_last()).push(loaded),
            Err(_) => survivors(results.drop_last()),
        }
    }
}

/// The error of the first load that failed.
pub open spec fn first_failure(results: Seq<Result<LoadedPdf, PdfCatError>>) -> Option<PdfCatError>
    decreases results.len(),
{
    if results.len() == 0 {
        None
    } else {
        match first_failure(results.drop_last()) {
            Some(e) => Some(e),
            None => match results.last() {
                Ok(_) => None,
                Err(e) => Some(e),
            },
        }
    }
}

/// Whether an error is one that a step of the merge gives.
pub open spec fn merge_error(e: PdfCatError) -> bool {
    ||| e is NoFilesToMerge
    ||| e is InvalidPageRange
    ||| e is MergeFailed
    ||| e is BookmarkFailed
    ||| e is MetadataFailed
}

/// Whether some load failed.
pub open spec fn any_failed(results: Seq<Result<LoadedPdf, PdfCatError>>) -> bool {
    exists|i: int| 0 <= i < results.len() && (#[trigger] results[i]) is Err
}

impl MergeStatistics {
    /// The total size of the input files as text.
    pub fn format_input_size(&self) -> (r: String)
        ensures
            r@ == size_text(self.input_size as nat),
    {
        format_file_size(self.input_size)
    }
}

impl Default for Merger {
    fn default() -> (r: Self) {
        Merger::new()
    }
}

impl Merger {
    /// The reader that the merger loads its sources with.
    pub closed spec fn reader(&self) -> PdfReader {
        self.reader
    }

    /// A merger; its reader checks what it loads.
    pub fn new() -> (r: Self)
        ensures
            r.reader().verifies(),
    {
        Merger {
            reader: PdfReader::new(),
            page_extractor: PageExtractor::new(),
            bookmark_manager: BookmarkManager::new(),
            metadata_manager: MetadataManager::new(),
        }
    }

    /// Appends references to `page_ids` to the `Kids` of the page tree, in
    /// order, and raises its `Count` by their number; a missing `Count`
    /// counts as 0.
    ///
    /// Fails with `MergeFailed`, and changes nothing, where the catalog, its
    /// `Pages` reference or the page-tree dictionary cannot be resolved,
    /// where `Kids` is missing or no array, or where the raised `Count` does
    /// not fit 64 bits.
    pub fn add_pages_to_tree(&self, merged: &mut Document, page_ids: &Vec<ObjectId>) -> (r: Result<
        (),
        PdfCatError,
    >)
        ensures
            match r {
                Ok(()) => {
                    &&& can_add_pages(old(merged)@, page_ids@)
                    &&& final(merged)@ == with_pages_added(old(merged)@, page_ids@)
                    &&& final(merged)@.pages() == old(merged)@.pages() + page_ids@
                },
                Err(e) => {
                    &&& e matches PdfCatError::MergeFailed { .. }
                    &&& !can_add_pages(old(merged)@, page_ids@)
                    &&& final(merged)@ == old(merged)@
                },
            },
    {
        let tree_id = match merged.page_tree_id() {
            Some(id) => id,
            None => {
                return Err(PdfCatError::merge_failed("Failed to get pages reference"));
            },
        };
        let mut dict = match merged.page_tree() {
            Some(tree) => tree.clone(),
            None => {
                return Err(PdfCatError::merge_failed("Pages object is not a dictionary"));
            },
        };
        let mut kids: Vec<Object> = match dict.get("Kids".as_bytes()) {
            Some(o) => match o.as_array() {
                Some(a) => {
                    let mut copy: Vec<Object> = Vec::new();
                    let mut i: usize = 0;
                    while i < a.len()
                        invariant
                            i <= a.len(),
                            copy@.len() == i,
                            forall|j: int| 0 <= j < i ==> (#[trigger] copy@[j])@ == a@[j]@,
                        decreases a.len() - i,
                    {
                        copy.push(a[i].clone());
                        i += 1;
                    }
                    assert(crate::object::array_view(copy) =~= crate::object::array_view(*a));
                    copy
                },
                None => {
                    return Err(PdfCatError::merge_failed("Kids is not an array"));
                },
            },
            None => {
                return Err(PdfCatError::merge_failed("Pages dictionary missing Kids array"));
            },
        };
        let current: i64 = match dict.get("Count".as_bytes()) {
            Some(o) => match o.as_i64() {
                Some(c) => c,
                None => 0,
            },
            None => 0,
        };
        let raised: i128 = current as i128 + page_ids.len() as i128;
        if raised > 0x7FFF_FFFF_FFFF_FFFF {
            return Err(PdfCatError::merge_failed("Page count is too large"));
        }
        merged.is_well_formed();
        proof {
            crate::merge::paging::lemma_pages_added(merged@, page_ids@);
        }
        let ghost before_kids = crate::object::array_view(kids);
        let mut added = references(page_ids);
        let ghost added_view = crate::object::array_view(added);
        kids.append(&mut added);
        assert(crate::object::array_view(kids) =~= before_kids + added_view);
        dict.set("Kids".as_bytes_vec(), Object::Array(kids));
        dict.set("Count".as_bytes_vec(), Object::Integer(raised as i64));
        merged.set_object(tree_id, Object::Dictionary(dict));
        Ok(())
    }

    /// Makes a source ready: a copy with its pages extracted where a range
    /// is given, then turned where a rotation is given.
    pub fn prepare(&self, doc: &Document, config: &Config) -> (r: Result<Document, PdfCatError>)
        ensures
            match r {
                Ok(d) => prepared(doc@, range_items(config.page_range), config.rotation) == Some(
                    d@,
                ),
                Err(e) => {
                    &&& prepared(doc@, range_items(config.page_range), config.rotation) is None
                    &&& (e is InvalidPageRange || e is MergeFailed)
                },
            },
    {
        let mut ready = match &config.page_range {
            Some(range) => match self.page_extractor.extract_pages(doc, range) {
                Ok(d) => d,
                Err(e) => {
                    return Err(e);
                },
            },
            None => doc.clone(),
        };
        match config.rotation {
            Some(rotation) => match self.page_extractor.rotate_all_pages(&mut ready, rotation) {
                Ok(()) => {},
                Err(e) => {
                    return Err(e);
                },
            },
            None => {},
        }
        Ok(ready)
    }

    /// Absorbs a ready source into `merged`: renumbers its objects from the
    /// number above the watermark of `merged`, takes them over, and appends
    /// its pages to the page tree.
    pub fn absorb(&self, merged: &mut Document, source: Document) -> (r: Result<(), PdfCatError>)
        ensures
            match r {
                Ok(()) => absorbed(old(merged)@, source@) == Some(final(merged)@),
                Err(e) => absorbed(old(merged)@, source@) is None && e
                    matches PdfCatError::MergeFailed { .. },
            },
    {
        let mut source = source;
        let max_id = merged.max_id();
        if max_id == u32::MAX || source.object_count() as u64 > (u32::MAX - max_id) as u64 {
            return Err(PdfCatError::merge_failed("No identifier left"));
        }
        let ghost before = merged@;
        let ghost initial = source@;
        renumber_objects_with(&mut source, max_id + 1);
        let pages = source.get_pages();
        merged.absorb(source);
        assert(merged@ == joined(before, initial));
        self.add_pages_to_tree(merged, &pages)
    }

    /// Merges the sources under `config` at the time `secs`, in seconds
    /// since the start of 1970: the sources are made ready and combined,
    /// then the document is bookmarked, stamped, compacted and renumbered
    /// from 1.
    ///
    /// Fails with `NoFilesToMerge` where there is no source, and with the
    /// error of the first step that fails otherwise.
    pub fn merge_documents_at(&self, loaded_pdfs: &Vec<LoadedPdf>, config: &Config, secs: u64) -> (r:
        Result<Document, PdfCatError>)
        ensures
            match r {
                Ok(d) => merge_plan(
                    documents(loaded_pdfs@),
                    paths(loaded_pdfs@),
                    *config,
                    pdf_date(secs as nat),
                ) == Some(d@),
                Err(e) => {
                    &&& merge_plan(
                        documents(loaded_pdfs@),
                        paths(loaded_pdfs@),
                        *config,
                        pdf_date(secs as nat),
                    ) is None
                    &&& (e is NoFilesToMerge <==> loaded_pdfs@.len() == 0)
                    &&& merge_error(e)
                },
            },
    {
        let ghost sources = documents(loaded_pdfs@);
        let ghost range = range_items(config.page_range);
        if loaded_pdfs.len() == 0 {
            return Err(PdfCatError::NoFilesToMerge);
        }
        let mut merged = match self.prepare(&loaded_pdfs[0].document, config) {
            Ok(d) => d,
            Err(e) => {
                proof {
                    lemma_combined_fails(sources, range, config.rotation, 1);
                }
                return Err(e);
            },
        };
        let mut i: usize = 1;
        assert(sources.subrange(0, 1)[0] == sources[0]);
        while i < loaded_pdfs.len()
            invariant
                1 <= i <= loaded_pdfs.len(),
                sources == documents(loaded_pdfs@),
                range == range_items(config.page_range),
                combined(sources.subrange(0, i as int), range, config.rotation) == Some(merged@),
            decreases loaded_pdfs.len() - i,
        {
            proof {
                assert(sources.subrange(0, i + 1).drop_last() =~= sources.subrange(0, i as int));
                assert(sources.subrange(0, i + 1).last() == sources[i as int]);
            }
            let source = match self.prepare(&loaded_pdfs[i].document, config) {
                Ok(d) => d,
                Err(e) => {
                    proof {
                        lemma_combined_fails(sources, range, config.rotation, i + 1);
                    }
                    return Err(e);
                },
            };
            match self.absorb(&mut merged, source) {
                Ok(()) => {},
                Err(e) => {
                    proof {
                        lemma_combined_fails(sources, range, config.rotation, i + 1);
                    }
                    return Err(e);
                },
            }
            i += 1;
        }
        assert(sources.subrange(0, i as int) =~= sources);
        if config.bookmarks {
            let mut files: Vec<PathBuf> = Vec::new();
            let mut k: usize = 0;
            while k < loaded_pdfs.len()
                invariant
                    k <= loaded_pdfs.len(),
                    files@.len() == k,
                    forall|j: int| 0 <= j < k ==> files@[j] == (#[trigger] loaded_pdfs@[j]).path,
                decreases loaded_pdfs.len() - k,
            {
                files.push(loaded_pdfs[k].path.clone());
                k += 1;
            }
            assert(files@ =~= paths(loaded_pdfs@));
            match self.bookmark_manager.add_bookmarks_for_files(&mut merged, &files) {
                Ok(()) => {},
                Err(e) => {
                    return Err(e);
                },
            }
        }
        let date = format_pdf_date_seconds(secs);
        match self.metadata_manager.set_metadata_dated(&mut merged, &config.metadata, date.as_str()) {
            Ok(()) => {},
            Err(e) => {
                return Err(e);
            },
        }
        match config.compression {
            CompressionLevel::Uncompressed => {},
            CompressionLevel::Standard => {
                compress(&mut merged);
            },
            CompressionLevel::Maximum => {
                compress(&mut merged);
                prune_objects(&mut merged);
            },
        }
        if merged.object_count() as u64 > 0xFFFF_FFFF {
            return Err(PdfCatError::merge_failed("Too many objects"));
        }
        renumber_objects(&mut merged);
        Ok(merged)
    }

    /// Merges the sources under `config` at the current time.
    ///
    /// Fails with `NoFilesToMerge` where there is no source, and with the
    /// error of the first step that fails otherwise. A merge of sound documents
    /// that have the pages asked for is owed where the numbers do not run out,
    /// and has the pages of its sources, those that the range selects, added
    /// up.
    pub fn merge_documents(&self, loaded_pdfs: &Vec<LoadedPdf>, config: &Config) -> (r: Result<
        Document,
        PdfCatError,
    >)
        ensures
            exists|secs: u64|
                match r {
                    Ok(d) => (#[trigger] merge_plan(
                        documents(loaded_pdfs@),
                        paths(loaded_pdfs@),
                        *config,
                        pdf_date(secs as nat),
                    )) == Some(d@),
                    Err(e) => merge_plan(
                        documents(loaded_pdfs@),
                        paths(loaded_pdfs@),
                        *config,
                        pdf_date(secs as nat),
                    ) is None,
                },
            r matches Err(e) ==> (e is NoFilesToMerge <==> loaded_pdfs@.len() == 0) && merge_error(e),
            merge_owed(documents(loaded_pdfs@), paths(loaded_pdfs@), *config) ==> r is Ok,
            r is Ok && all_sound(documents(loaded_pdfs@)) ==> r->Ok_0@.pages().len()
                == ready_total(documents(loaded_pdfs@), range_items(config.page_range)),
    {
        let secs = current_seconds();
        let r = self.merge_documents_at(loaded_pdfs, config, secs);
        proof {
            if r is Ok && all_sound(documents(loaded_pdfs@)) {
                law_merge_keeps_page_order(
                    documents(loaded_pdfs@),
                    paths(loaded_pdfs@),
                    *config,
                    pdf_date(secs as nat),
                );
            }
            if merge_owed(documents(loaded_pdfs@), paths(loaded_pdfs@), *config) {
                law_merge_succeeds(
                    documents(loaded_pdfs@),
                    paths(loaded_pdfs@),
                    *config,
                    pdf_date(secs as nat),
                );
            }
        }
        r
    }

    /// Merges what a batch of loads gave. Without `continue_on_error` the
    /// first failed load ends the merge with its error; with it the failed
    /// loads are left out. The merge fails with `NoFilesToMerge` where no
    /// load is left, and otherwise only where the merge of the loads that
    /// are left has no result. A merge of sound documents that have the pages
    /// asked for is owed where the numbers do not run out, and has the pages
    /// of its sources, those that the range selects, added up.
    pub fn merge_loaded(
        &self,
        results: Vec<Result<LoadedPdf, PdfCatError>>,
        config: &Config,
        load_time: Duration,
    ) -> (r: Result<MergeResult, PdfCatError>)
        ensures
            match r {
                Ok(merged) => {
                    &&& config.continue_on_error || !any_failed(results@)
                    &&& survivors(results@).len() > 0
                    &&& merged.statistics.files_merged == survivors(results@).len()
                    &&& merged.statistics.total_pages == merged.document@.pages().len()
                    &&& merged.statistics.load_time == load_time
                    &&& merged.statistics.input_size == capped(
                        input_sum(survivors(results@)),
                        u64::MAX as nat,
                    )
                    &&& merged.statistics.bookmarks_added == 0
                    &&& merged.statistics.compressed == (config.compression
                        != CompressionLevel::Uncompressed)
                    &&& merged.merged_files@ == paths(survivors(results@))
                    &&& exists|secs: u64|
                        (#[trigger] merge_plan(
                            documents(survivors(results@)),
                            paths(survivors(results@)),
                            *config,
                            pdf_date(secs as nat),
                        )) == Some(merged.document@)
                },
                Err(e) => if !config.continue_on_error && any_failed(results@) {
                    first_failure(results@) == Some(e)
                } else {
                    &&& merge_error(e)
                    &&& (e is NoFilesToMerge <==> survivors(results@).len() == 0)
                    &&& survivors(results@).len() > 0 ==> exists|secs: u64|
                        (#[trigger] merge_plan(
                            documents(survivors(results@)),
                            paths(survivors(results@)),
                            *config,
                            pdf_date(secs as nat),
                        )) is None
                },
            },
            (config.continue_on_error || !any_failed(results@)) && merge_owed(
                documents(survivors(results@)),
                paths(survivors(results@)),
                *config,
            ) ==> r is Ok,
            r is Ok && all_sound(documents(survivors(results@)))
                ==> r->Ok_0.statistics.total_pages == ready_total(
                documents(survivors(results@)),
                range_items(config.page_range),
            ),
    {
        let started = instant_now();
        let loaded_pdfs = match keep_loaded(results, config.continue_on_error) {
            Ok(kept) => kept,
            Err(e) => {
                return Err(e);
            },
        };
        if loaded_pdfs.len() == 0 {
            return Err(PdfCatError::NoFilesToMerge);
        }
        let document = match self.merge_documents(&loaded_pdfs, config) {
            Ok(d) => d,
            Err(e) => {
                return Err(e);
            },
        };
        let merge_time = instant_elapsed(&started);
        let (input_size, merged_files) = sizes_and_paths(&loaded_pdfs);
        let total_pages = document.get_pages().len();
        let compressed = match config.compression {
            CompressionLevel::Uncompressed => false,
            _ => true,
        };
        let statistics = MergeStatistics {
            files_merged: loaded_pdfs.len(),
            total_pages,
            merge_time,
            load_time,
            input_size,
            bookmarks_added: 0,
            compressed,
        };
        Ok(MergeResult { document, statistics, merged_files })
    }
}

/// The successful loads of a batch, in order. Without `continue_on_error`
/// the first failed load is returned as the error.
pub fn keep_loaded(results: Vec<Result<LoadedPdf, PdfCatError>>, continue_on_error: bool) -> (r:
    Result<Vec<LoadedPdf>, PdfCatError>)
    ensures
        match r {
            Ok(kept) => kept@ == survivors(results@) && (continue_on_error || !any_failed(
                results@,
            )),
            Err(e) => !continue_on_error && any_failed(results@) && first_failure(results@)
                == Some(e),
        },
{
    let ghost all = results@;
    let mut pending = results;
    let mut taken: Vec<Result<LoadedPdf, PdfCatError>> = Vec::new();
    // The results are taken from the back, so they are turned round first.
    while pending.len() > 0
        invariant
            pending@.len() + taken@.len() == all.len(),
            forall|j: int| 0 <= j < pending@.len() ==> pending@[j] == all[j],
            forall|j: int| 0 <= j < taken@.len() ==> (#[trigger] taken@[j]) == all[all.len() - 1 - j],
        decreases pending@.len(),
    {
        let last = pending.pop().unwrap();
        taken.push(last);
    }
    let mut kept: Vec<LoadedPdf> = Vec::new();
    assert(all.subrange(0, 0) =~= Seq::<Result<LoadedPdf, PdfCatError>>::empty());
    while taken.len() > 0
        invariant
            all == results@,
            taken@.len() <= all.len(),
            forall|j: int| 0 <= j < taken@.len() ==> (#[trigger] taken@[j]) == all[all.len() - 1 - j],
            kept@ == survivors(all.subrange(0, all.len() - taken@.len())),
            continue_on_error || !any_failed(all.subrange(0, all.len() - taken@.len())),
            continue_on_error || first_failure(all.subrange(0, all.len() - taken@.len()))
                is None,
        decreases taken@.len(),
    {
        let ghost done = all.len() - taken@.len();
        let next = taken.pop().unwrap();
        proof {
            assert(next == all[done]);
            assert(all.subrange(0, done + 1).drop_last() =~= all.subrange(0, done));
            assert(all.subrange(0, done + 1).last() == all[done]);
        }
        match next {
            Ok(loaded) => {
                kept.push(loaded);
                proof {
                    if any_failed(all.subrange(0, done + 1)) {
                        let j = choose|j: int|
                            0 <= j < done + 1 && (#[trigger] all.subrange(0, done + 1)[j]) is Err;
                        assert(all.subrange(0, done)[j] is Err);
                    }
                }
            },
            Err(e) => {
                if !continue_on_error {
                    proof {
                        lemma_survivors_failed(all, done);
                        assert(any_failed(all));
                        lemma_first_failure(all, done);
                    }
                    return Err(e);
                }
            },
        }
    }
    assert(all.subrange(0, all.len() as int) =~= all);
    Ok(kept)
}

/// The sizes of the sources added up, capped at the largest number, and
/// their paths in order.
pub fn sizes_and_paths(sources: &Vec<LoadedPdf>) -> (r: (u64, Vec<PathBuf>))
    ensures
        r.0 == capped(input_sum(sources@), u64::MAX as nat),
        r.1@ == paths(sources@),
{
    let mut input_size: u64 = 0;
    let mut files: Vec<PathBuf> = Vec::new();
    let mut k: usize = 0;
    assert(sources@.subrange(0, 0) =~= Seq::<LoadedPdf>::empty());
    while k < sources.len()
        invariant
            k <= sources.len(),
            input_size == capped(input_sum(sources@.subrange(0, k as int)), u64::MAX as nat),
            files@.len() == k,
            forall|j: int| 0 <= j < k ==> files@[j] == (#[trigger] sources@[j]).path,
        decreases sources.len() - k,
    {
        proof {
            assert(sources@.subrange(0, k + 1).drop_last() =~= sources@.subrange(0, k as int));
            assert(sources@.subrange(0, k + 1).last() == sources@[k as int]);
        }
        input_size = input_size.saturating_add(sources[k].file_size);
        files.push(sources[k].path.clone());
        k += 1;
    }
    assert(sources@.subrange(0, k as int) =~= sources@);
    assert(files@ =~= paths(sources@));
    (input_size, files)
}

/// Where no load before position `k` failed and the load at `k` did, its
/// error is the first failure.
pub proof fn lemma_first_failure(results: Seq<Result<LoadedPdf, PdfCatError>>, k: int)
    requires
        0 <= k < results.len(),
        results[k] is Err,
        first_failure(results.subrange(0, k)) is None,
    ensures
        first_failure(results) == Some(results[k]->Err_0),
    decreases results.len() - k,
{
    assert(results.subrange(0, k + 1).drop_last() =~= results.subrange(0, k));
    assert(results.subrange(0, k + 1).last() == results[k]);
    lemma_first_failure_stays(results, k + 1);
}

/// The first failure among the first `k` loads is the first failure among
/// all.
pub proof fn lemma_first_failure_stays(results: Seq<Result<LoadedPdf, PdfCatError>>, k: int)
    requires
        0 <= k <= results.len(),
        first_failure(results.subrange(0, k)) is Some,
    ensures
        first_failure(results) == first_failure(results.subrange(0, k)),
    decreases results.len() - k,
{
    if k == results.len() {
        assert(results.subrange(0, k) =~= results);
    } else {
        assert(results.subrange(0, k + 1).drop_last() =~= results.subrange(0, k));
        lemma_first_failure_stays(results, k + 1);
    }
}

/// Where the first `k` sources cannot be combined, neither can all.
pub proof fn lemma_combined_fails(
    sources: Seq<DocumentView>,
    range: Option<Seq<PageRangeItem>>,
    rotation: Option<Rotation>,
    k: int,
)
    requires
        1 <= k <= sources.len(),
        combined(sources.subrange(0, k), range, rotation) is None,
    ensures
        combined(sources, range, rotation) is None,
    decreases sources.len() - k,
{
    if k == sources.len() {
        assert(sources.subrange(0, k) =~= sources);
    } else {
        assert(sources.subrange(0, k + 1).drop_last() =~= sources.subrange(0, k));
        lemma_combined_fails(sources, range, rotation, k + 1);
    }
}

/// A failed load at position `k` is a failed load.
pub proof fn lemma_survivors_failed(results: Seq<Result<LoadedPdf, PdfCatError>>, k: int)
    requires
        0 <= k < results.len(),
        results[k] is Err,
    ensures
        any_failed(results),
{
}

} // verus!
