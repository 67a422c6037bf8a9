//! Page operations: enumeration, extraction by range, rotation, and the two
//! ways of writing the page tree (appending and replacing).

use crate::config::{last_page, pages_upto, range_debug, PageRange, PageRangeItem, Rotation};
use crate::document::{references_to, resolve, Document, DocumentView};
use crate::error::PdfCatError;
use crate::object::{
    array_view, lookup, name, with_entry, Dictionary, Object, ObjectId, Value,
};
use crate::paths::{path_from_text, path_text};
use vstd::prelude::*;
use vstd::string::*;

verus! {

/// Page rotation angles.
#[derive(Debug, Clone, Copy, PartialEq, Eq, Structural)]
pub enum PageRotation {
    /// No rotation.
    NoRotation,
    /// 90 degrees clockwise.
    Clockwise90,
    /// 180 degrees.
    Rotate180,
    /// 270 degrees clockwise.
    Clockwise270,
}

impl From<Rotation> for PageRotation {
    fn from(rotation: Rotation) -> (r: Self) {
        match rotation {
            Rotation::Clockwise90 => PageRotation::Clockwise90,
            Rotation::Rotate180 => PageRotation::Rotate180,
            Rotation::Clockwise270 => PageRotation::Clockwise270,
        }
    }
}

impl vstd::std_specs::convert::FromSpecImpl<Rotation> for PageRotation {
    open spec fn obeys_from_spec() -> bool {
        true
    }

    open spec fn from_spec(rotation: Rotation) -> Self {
        match rotation {
            Rotation::Clockwise90 => PageRotation::Clockwise90,
            Rotation::Rotate180 => PageRotation::Rotate180,
            Rotation::Clockwise270 => PageRotation::Clockwise270,
        }
    }
}

impl PageRotation {
    /// The degrees of a rotation.
    pub open spec fn degrees(&self) -> i64 {
        match self {
            PageRotation::NoRotation => 0,
            PageRotation::Clockwise90 => 90,
            PageRotation::Rotate180 => 180,
            PageRotation::Clockwise270 => 270,
        }
    }

    /// The degrees of this rotation.
    pub fn as_degrees(&self) -> (d: i64)
        ensures
            d == self.degrees(),
    {
        match self {
            PageRotation::NoRotation => 0,
            PageRotation::Clockwise90 => 90,
            PageRotation::Rotate180 => 180,
            PageRotation::Clockwise270 => 270,
        }
    }
}

/// The `Count` that a page-tree dictionary records; 0 where it records none.
pub open spec fn count_of(tree: Seq<(Seq<u8>, Value)>) -> i64 {
    match lookup(tree, name("Count")) {
        Some(Value::Integer(c)) => c,
        _ => 0,
    }
}

/// The rotation that a page dictionary records; 0 where it records none.
pub open spec fn rotation_of(page: Seq<(Seq<u8>, Value)>) -> i64 {
    match lookup(page, name("Rotate")) {
        Some(Value::Integer(r)) => r,
        _ => 0,
    }
}

/// A rotation of `current` degrees turned by `degrees` more: the sum, taken
/// modulo 360 into the range from 0 to 359.
pub open spec fn rotated(current: i64, degrees: i64) -> i64 {
    ((current + degrees) % 360) as i64
}

/// A page-tree dictionary with `kids` as its `Kids` and `count` as its
/// `Count`.
pub open spec fn tree_with(tree: Seq<(Seq<u8>, Value)>, kids: Seq<Value>, count: i64) -> Seq<
    (Seq<u8>, Value),
> {
    with_entry(
        with_entry(tree, name("Kids"), Value::Array(kids)),
        name("Count"),
        Value::Integer(count),
    )
}

/// The pages that the page numbers select: page `n` is `all[n - 1]`.
pub open spec fn selected(all: Seq<ObjectId>, numbers: Seq<u32>) -> Seq<ObjectId> {
    Seq::new(numbers.len(), |i: int| all[numbers[i] - 1])
}

/// The document with the page tree replaced: `Kids` holds references to
/// `ids` and nothing else, `Count` their number. Defined where the document
/// has a page tree.
pub open spec fn with_pages(doc: DocumentView, ids: Seq<ObjectId>) -> DocumentView {
    doc.with_object(
        doc.page_tree_id()->0,
        Value::Dict(tree_with(doc.page_tree()->0, references_to(ids), ids.len() as i64)),
    )
}

/// The document with references to `ids` appended to `Kids` and `Count`
/// raised by their number. Defined where the document has a page tree with a
/// `Kids` array.
pub open spec fn with_pages_added(doc: DocumentView, ids: Seq<ObjectId>) -> DocumentView {
    doc.with_object(
        doc.page_tree_id()->0,
        Value::Dict(
            tree_with(
                doc.page_tree()->0,
                doc.kids()->0 + references_to(ids),
                (count_of(doc.page_tree()->0) + ids.len()) as i64,
            ),
        ),
    )
}

/// Whether references to `ids` can be appended: the document has a page
/// tree with a `Kids` array, and the raised `Count` fits 64 bits.
pub open spec fn can_add_pages(doc: DocumentView, ids: Seq<ObjectId>) -> bool {
    &&& doc.kids() is Some
    &&& count_of(doc.page_tree()->0) + ids.len() <= i64::MAX
}

/// The document with the page stored under `id` turned by `degrees`;
/// `None` where `id` does not resolve to a dictionary.
pub open spec fn with_page_rotated(doc: DocumentView, id: ObjectId, degrees: i64) -> Option<
    DocumentView,
> {
    match doc.get(id) {
        Some(Value::Dict(page)) => Some(
            doc.with_object(
                resolve(doc.objects, id)->0,
                Value::Dict(
                    with_entry(
                        page,
                        name("Rotate"),
                        Value::Integer(rotated(rotation_of(page), degrees)),
                    ),
                ),
            ),
        ),
        _ => None,
    }
}

/// The document after turning the pages `ids` one after the other, and
/// whether all of them could be turned: the turning stops at the first that
/// could not.
pub open spec fn with_pages_rotated(doc: DocumentView, ids: Seq<ObjectId>, degrees: i64) -> (
    DocumentView,
    bool,
)
    decreases ids.len(),
{
    if ids.len() == 0 {
        (doc, true)
    } else {
        let (before, ok) = with_pages_rotated(doc, ids.drop_last(), degrees);
        if !ok {
            (before, false)
        } else {
            match with_page_rotated(before, ids.last(), degrees) {
                Some(after) => (after, true),
                None => (before, false),
            }
        }
    }
}

/// Every page number that `pages_upto` gives lies between 1 and `max`.
pub proof fn lemma_pages_upto_bounds(items: Seq<PageRangeItem>, max: nat)
    ensures
        forall|i: int|
            0 <= i < pages_upto(items, max).len() ==> 1 <= (#[trigger] pages_upto(items, max)[i])
                <= max,
        pages_upto(items, max).len() <= max,
    decreases max,
{
    if max == 0 || max > u32::MAX {
    } else {
        lemma_pages_upto_bounds(items, (max - 1) as nat);
    }
}

/// The reference objects to `ids`, in order.
pub fn references(ids: &Vec<ObjectId>) -> (r: Vec<Object>)
    ensures
        array_view(r) == references_to(ids@),
{
    let mut r: Vec<Object> = Vec::new();
    let mut i: usize = 0;
    while i < ids.len()
        invariant
            i <= ids.len(),
            r@.len() == i,
            forall|j: int| 0 <= j < i ==> (#[trigger] r@[j])@ == Value::Reference(ids@[j]),
        decreases ids.len() - i,
    {
        r.push(Object::Reference(ids[i]));
        i += 1;
    }
    assert(array_view(r) =~= references_to(ids@));
    r
}

/// A page rotation turned by `degrees`.
pub fn rotate_degrees(current: i64, degrees: i64) -> (r: i64)
    requires
        0 <= degrees < 360,
    ensures
        r == rotated(current, degrees),
        0 <= r < 360,
{
    // 25620477880152991 * 360 is a multiple of 360 above 2^63, so the sum
    // below is never negative and its remainder is the modulus.
    let shift: i128 = 9_223_372_036_855_076_760;
    let sum: i128 = current as i128 + degrees as i128 + shift;
    assert(shift == 25620477880152991 * 360);
    assert((current + degrees + 25620477880152991 * 360) % 360 == (current + degrees) % 360)
        by (nonlinear_arith);
    let r: i128 = sum % 360;
    r as i64
}

/// Page extractor for manipulating the pages of a document.
#[derive(Debug, Clone, Copy)]
pub struct PageExtractor;

impl Default for PageExtractor {
    fn default() -> (r: Self) {
        PageExtractor
    }
}

impl PageExtractor {
    /// A page extractor.
    pub fn new() -> (r: Self) {
        PageExtractor
    }

    /// A copy of the document that holds only the pages that the range
    /// selects, in ascending page order.
    ///
    /// Fails with `InvalidPageRange` where the range names a page that the
    /// document lacks, and with `MergeFailed` where it selects no page.
    pub fn extract_pages(&self, doc: &Document, page_range: &PageRange) -> (r: Result<
        Document,
        PdfCatError,
    >)
        ensures
            match r {
                Ok(d) => {
                    &&& doc@.pages().len() <= u32::MAX
                    &&& last_page(page_range@) <= doc@.pages().len()
                    &&& pages_upto(page_range@, doc@.pages().len()).len() > 0
                    &&& d@ == with_pages(
                        doc@,
                        selected(doc@.pages(), pages_upto(page_range@, doc@.pages().len())),
                    )
                    &&& d@.pages() == selected(
                        doc@.pages(),
                        pages_upto(page_range@, doc@.pages().len()),
                    )
                },
                Err(PdfCatError::InvalidPageRange { path, range, total_pages }) => {
                    &&& doc@.pages().len() <= u32::MAX
                    &&& last_page(page_range@) > doc@.pages().len()
                    &&& total_pages == doc@.pages().len()
                    &&& range@ == range_debug(page_range@)
                    &&& path_text(path) == "document"@
                },
                Err(PdfCatError::MergeFailed { .. }) => {
                    ||| doc@.pages().len() > u32::MAX
                    ||| (last_page(page_range@) <= doc@.pages().len() && pages_upto(
                        page_range@,
                        doc@.pages().len(),
                    ).len() == 0)
                },
                Err(_) => false,
            },
    {
        let all_pages = doc.get_pages();
        if all_pages.len() > 0xFFFF_FFFF {
            return Err(PdfCatError::merge_failed("Too many pages"));
        }
        let max_pages: u32 = all_pages.len() as u32;
        if page_range.max_page() > max_pages {
            return Err(
                PdfCatError::InvalidPageRange {
                    path: path_from_text("document"),
                    range: page_range.debug_text(),
                    total_pages: all_pages.len(),
                },
            );
        }
        let requested = page_range.to_pages(max_pages);
        if requested.len() == 0 {
            return Err(PdfCatError::merge_failed("No pages in range"));
        }
        proof {
            lemma_pages_upto_bounds(page_range@, max_pages as nat);
        }
        let mut page_ids: Vec<ObjectId> = Vec::new();
        let mut i: usize = 0;
        while i < requested.len()
            invariant
                i <= requested.len(),
                all_pages@ == doc@.pages(),
                page_ids@.len() == i,
                forall|j: int|
                    0 <= j < requested@.len() ==> 1 <= (#[trigger] requested@[j])
                        <= all_pages@.len(),
                forall|j: int| 0 <= j < i ==> page_ids@[j] == all_pages@[requested@[j] - 1],
            decreases requested.len() - i,
        {
            let number: u32 = requested[i];
            page_ids.push(all_pages[(number - 1) as usize]);
            i += 1;
        }
        assert(page_ids@ =~= selected(doc@.pages(), requested@));
        let mut new_doc = doc.clone();
        match self.update_page_tree(&mut new_doc, &page_ids) {
            Ok(()) => Ok(new_doc),
            Err(e) => Err(e),
        }
    }

    /// Replaces the page tree: `Kids` holds references to `page_ids` and
    /// nothing else, `Count` their number.
    ///
    /// Fails with `MergeFailed`, and changes nothing, where the catalog, its
    /// `Pages` reference or the page-tree dictionary cannot be resolved.
    pub fn update_page_tree(&self, doc: &mut Document, page_ids: &Vec<ObjectId>) -> (r: Result<
        (),
        PdfCatError,
    >)
        ensures
            match r {
                Ok(()) => {
                    &&& old(doc)@.page_tree() is Some
                    &&& page_ids@.len() <= i64::MAX
                    &&& final(doc)@ == with_pages(old(doc)@, page_ids@)
                    &&& final(doc)@.pages() == page_ids@
                },
                Err(e) => {
                    &&& e matches PdfCatError::MergeFailed { .. }
                    &&& (old(doc)@.page_tree() is None || page_ids@.len() > i64::MAX)
                    &&& final(doc)@ == old(doc)@
                },
            },
    {
        let tree_id = match doc.page_tree_id() {
            Some(id) => id,
            None => {
                return Err(PdfCatError::merge_failed("Failed to get pages reference"));
            },
        };
        let mut dict = match doc.page_tree() {
            Some(tree) => tree.clone(),
            None => {
                return Err(PdfCatError::merge_failed("Pages object is not a dictionary"));
            },
        };
        if page_ids.len() as u64 > 0x7FFF_FFFF_FFFF_FFFF {
            return Err(PdfCatError::merge_failed("Too many pages"));
        }
        let count: i64 = page_ids.len() as i64;
        doc.is_well_formed();
        proof {
            crate::merge::paging::lemma_pages_replaced(doc@, page_ids@);
        }
        dict.set("Kids".as_bytes_vec(), Object::Array(references(page_ids)));
        dict.set("Count".as_bytes_vec(), Object::Integer(count));
        doc.set_object(tree_id, Object::Dictionary(dict));
        Ok(())
    }

    /// Turns every page of the document by `rotation`, adding to the
    /// rotation that each page records.
    ///
    /// Stops with `MergeFailed` at the first page that does not resolve to a
    /// dictionary; the pages before it stay turned.
    pub fn rotate_all_pages(&self, doc: &mut Document, rotation: Rotation) -> (r: Result<
        (),
        PdfCatError,
    >)
        ensures
            (final(doc)@, r is Ok) == with_pages_rotated(
                old(doc)@,
                old(doc)@.pages(),
                rotation.degrees() as i64,
            ),
            r matches Err(e) ==> e matches PdfCatError::MergeFailed { .. },
    {
        let page_rotation = PageRotation::from(rotation);
        let degrees = page_rotation.as_degrees();
        let page_ids = doc.get_pages();
        let mut i: usize = 0;
        assert(page_ids@.subrange(0, 0) =~= Seq::<ObjectId>::empty());
        while i < page_ids.len()
            invariant
                i <= page_ids.len(),
                page_ids@ == old(doc)@.pages(),
                degrees == rotation.degrees(),
                (doc@, true) == with_pages_rotated(
                    old(doc)@,
                    page_ids@.subrange(0, i as int),
                    degrees,
                ),
            decreases page_ids.len() - i,
        {
            proof {
                assert(page_ids@.subrange(0, i + 1).drop_last() =~= page_ids@.subrange(
                    0,
                    i as int,
                ));
                assert(page_ids@.subrange(0, i + 1).last() == page_ids@[i as int]);
            }
            match self.rotate_page(doc, page_ids[i], degrees) {
                Ok(()) => {},
                Err(e) => {
                    proof {
                        lemma_rotation_stops(old(doc)@, page_ids@, degrees, i + 1);
                    }
                    return Err(e);
                },
            }
            i += 1;
        }
        assert(page_ids@.subrange(0, i as int) =~= page_ids@);
        Ok(())
    }

    /// Turns one page by `degrees`.
    ///
    /// Fails with `MergeFailed`, and changes nothing, where `page_id` does
    /// not resolve to a dictionary.
    pub fn rotate_page(&self, doc: &mut Document, page_id: ObjectId, degrees: i64) -> (r: Result<
        (),
        PdfCatError,
    >)
        requires
            0 <= degrees < 360,
        ensures
            match r {
                Ok(()) => with_page_rotated(old(doc)@, page_id, degrees) == Some(final(doc)@),
                Err(e) => {
                    &&& e matches PdfCatError::MergeFailed { .. }
                    &&& with_page_rotated(old(doc)@, page_id, degrees) is None
                    &&& final(doc)@ == old(doc)@
                },
            },
    {
        let target = match doc.resolve_id(page_id) {
            Some(id) => id,
            None => {
                return Err(PdfCatError::merge_failed("Failed to get page"));
            },
        };
        let mut dict = match doc.get_direct(target) {
            Some(o) => match o.as_dict() {
                Some(d) => d.clone(),
                None => {
                    return Err(PdfCatError::merge_failed("Page object is not a dictionary"));
                },
            },
            None => {
                return Err(PdfCatError::merge_failed("Failed to get page"));
            },
        };
        let current: i64 = match dict.get("Rotate".as_bytes()) {
            Some(o) => match o.as_i64() {
                Some(r) => r,
                None => 0,
            },
            None => 0,
        };
        let turned = rotate_degrees(current, degrees);
        dict.set("Rotate".as_bytes_vec(), Object::Integer(turned));
        doc.set_object(target, Object::Dictionary(dict));
        Ok(())
    }

    /// The number of pages of a document.
    pub fn page_count(&self, doc: &Document) -> (n: usize)
        ensures
            n == doc@.pages().len(),
    {
        doc.get_pages().len()
    }
}

/// Once a page cannot be turned, the turning of a longer list stops at the
/// same state.
pub proof fn lemma_rotation_stops(doc: DocumentView, ids: Seq<ObjectId>, degrees: i64, k: int)
    requires
        0 <= k <= ids.len(),
        !with_pages_rotated(doc, ids.subrange(0, k), degrees).1,
    ensures
        with_pages_rotated(doc, ids, degrees) == with_pages_rotated(
            doc,
            ids.subrange(0, k),
            degrees,
        ),
    decreases ids.len() - k,
{
    if k == ids.len() {
        assert(ids.subrange(0, k) =~= ids);
    } else {
        assert(ids.subrange(0, k + 1).drop_last() =~= ids.subrange(0, k));
        lemma_rotation_stops(doc, ids, degrees, k + 1);
    }
}

} // verus!
