//! When a merge is owed: a merge of sound documents that have the pages
//! asked for succeeds where the numbers do not run out.

use crate::config::{pages_upto, Config, PageRangeItem, Rotation};
use crate::document::{
    has_id, lemma_links_kept, lemma_objects_with, lemma_rank_exists, lemma_resolve_end,
    lemma_resolve_preserved, objects_with, references_to, DocumentView, DEREF_LIMIT,
};
use crate::merge::bookmarks::{bookmark_targets, can_add_outline, outline_root_id, with_outline};
use crate::merge::closure::{
    lemma_bookmarked_sound, lemma_combined_sound, lemma_joined_sound, lemma_prepared_sound,
    lemma_stored_names, sound,
};
use crate::merge::compact::{compressed, reachable};
use crate::merge::counting::lemma_renumbered_pages;
use crate::merge::keeping::{ready_pages, ready_total};
use crate::merge::merger::{
    bookmarked, combined, compacted, extracted, finished, joined, merge_plan, prepared,
    range_items, stamped,
};
use crate::merge::metadata::{info_after, info_before, info_place, with_info_ref, with_metadata};
use crate::merge::pages::{
    can_add_pages, count_of, lemma_pages_upto_bounds, selected, tree_with, with_pages,
    with_pages_added,
};
use crate::merge::paging::{
    lemma_appended_keeps_pages, lemma_dict_replaced, lemma_objects_appended, lemma_pages_added,
    lemma_pages_replaced, lemma_pages_rotated_pages,
};
use crate::merge::renumber::renumbered;
use crate::merge::turning::{lemma_pages_turned, lemma_turned_keeps_count, turnable};
use crate::names::lemma_tree_names_differ;
use crate::object::{lemma_with_entry, lookup, name, with_entry, ObjectId, Value};
use std::path::PathBuf;
use vstd::prelude::*;

verus! {

/// The objects of the sources, counted together.
pub open spec fn object_total(sources: Seq<DocumentView>) -> nat
    decreases sources.len(),
{
    if sources.len() == 0 {
        0
    } else {
        object_total(sources.drop_last()) + sources.last().objects.len()
    }
}

/// The watermark that combining the sources reaches: that of the first
/// source, raised by the number of the objects of each further one.
pub open spec fn watermark(sources: Seq<DocumentView>) -> int
    decreases sources.len(),
{
    if sources.len() == 0 {
        0
    } else if sources.len() == 1 {
        sources[0].max_id as int
    } else {
        watermark(sources.drop_last()) + sources.last().objects.len()
    }
}

/// The `Count` that combining the sources reaches: that of the first
/// source's page tree, raised by the number of the pages of each further
/// one.
pub open spec fn counted(sources: Seq<DocumentView>) -> int
    decreases sources.len(),
{
    if sources.len() == 0 {
        0
    } else if sources.len() == 1 {
        count_of(sources[0].page_tree()->0) as int
    } else {
        counted(sources.drop_last()) + sources.last().pages().len()
    }
}

/// Whether the numbers do not run out while the sources are merged: the
/// watermark stays below the largest number, the `Count` fits 64 bits, and
/// the objects can be numbered from 1.
pub open spec fn roomy(sources: Seq<DocumentView>) -> bool {
    &&& watermark(sources) < u32::MAX
    &&& counted(sources) <= i64::MAX
    &&& object_total(sources) <= u32::MAX
}

/// The objects that the outline of a merge adds: the root and an item for
/// each file, where bookmarks are asked for.
pub open spec fn outline_room(files: Seq<PathBuf>, config: Config) -> nat {
    if config.bookmarks && files.len() > 0 {
        files.len() + 1
    } else {
        0
    }
}

/// The objects that the information of a merge adds: at most the
/// information dictionary, where a field is set.
pub open spec fn information_room(config: Config) -> nat {
    if config.metadata.empty() {
        0
    } else {
        1
    }
}

/// The `Count` that combining the sources made ready reaches: without a
/// page range as for the sources themselves, with one the number of the
/// pages that it selects in all.
pub open spec fn counted_ready(sources: Seq<DocumentView>, range: Option<Seq<PageRangeItem>>) -> int {
    match range {
        None => counted(sources),
        Some(_) => ready_total(sources, range) as int,
    }
}

/// Whether a merge of the sources under `config` is owed: there is a
/// source; each is sound and has a page tree, has the pages that the page
/// range names, with one of them selected, where there is a range, and has
/// only pages that resolve to dictionaries where a rotation is asked for;
/// and the numbers do not run out, neither while the sources are combined
/// nor for what the outline and the information add.
pub open spec fn merge_owed(sources: Seq<DocumentView>, files: Seq<PathBuf>, config: Config) -> bool {
    &&& sources.len() > 0
    &&& forall|i: int|
        0 <= i < sources.len() ==> can_ready(
            #[trigger] sources[i],
            range_items(config.page_range),
            config.rotation,
        )
    &&& watermark(sources) < u32::MAX
    &&& counted_ready(sources, range_items(config.page_range)) <= i64::MAX
    &&& watermark(sources) + outline_room(files, config) + information_room(config) <= u32::MAX
    &&& object_total(sources) + outline_room(files, config) + information_room(config)
        <= u32::MAX
}

/// Whether a source can be made ready: it is sound and has a page tree, it
/// has the pages that the range names, with one of them selected, and its
/// pages resolve to dictionaries where they are to be turned.
pub open spec fn can_ready(
    doc: DocumentView,
    range: Option<Seq<PageRangeItem>>,
    rotation: Option<Rotation>,
) -> bool {
    &&& sound(doc)
    &&& doc.kids() is Some
    &&& range is Some ==> extracted(doc, range->0) is Some
    &&& rotation is Some ==> turnable(doc, doc.pages())
}

/// The watermark and the `Count` do not fall while sources are added.
proof fn lemma_roomy_front(sources: Seq<DocumentView>)
    requires
        sources.len() > 1,
        roomy(sources),
    ensures
        roomy(sources.drop_last()),
{
}

/// After pages are appended, the `Count` of the page tree is what it was,
/// raised by their number; the objects are as many as they were, and the
/// watermark stays.
proof fn lemma_count_added(doc: DocumentView, ids: Seq<ObjectId>)
    requires
        doc.well_formed(),
        can_add_pages(doc, ids),
    ensures
        with_pages_added(doc, ids).page_tree() is Some,
        count_of(with_pages_added(doc, ids).page_tree()->0) == count_of(doc.page_tree()->0)
            + ids.len(),
        with_pages_added(doc, ids).objects.len() == doc.objects.len(),
        with_pages_added(doc, ids).max_id == doc.max_id,
{
    let tid = doc.page_tree_id()->0;
    let tree = doc.page_tree()->0;
    let kids = Value::Array(doc.kids()->0 + references_to(ids));
    let count = Value::Integer((count_of(tree) + ids.len()) as i64);
    let first = with_entry(tree, name("Kids"), kids);
    let new_tree = with_entry(first, name("Count"), count);
    lemma_tree_names_differ();
    lemma_stored_names(doc, tid);
    lemma_with_entry(tree, name("Kids"), kids);
    lemma_with_entry(first, name("Count"), count);
    assert(lookup(new_tree, name("Pages")) == lookup(first, name("Pages")));
    assert(lookup(first, name("Pages")) == lookup(tree, name("Pages")));
    lemma_dict_replaced(doc, tid, new_tree);
    let pages = lookup(doc.catalog()->0, name("Pages"))->0->Reference_0;
    lemma_resolve_end(doc.objects, pages, DEREF_LIMIT as nat);
    assert(has_id(doc.objects, tid));
}

/// Sound sources that each have a page tree can be combined as they are
/// where the numbers do not run out.
pub proof fn lemma_plain_combined(sources: Seq<DocumentView>)
    requires
        sources.len() > 0,
        forall|i: int|
            0 <= i < sources.len() ==> sound(#[trigger] sources[i]) && sources[i].kids() is Some,
        roomy(sources),
    ensures
        combined(sources, None, None) is Some,
        combined(sources, None, None)->0.max_id == watermark(sources),
        combined(sources, None, None)->0.objects.len() == object_total(sources),
        combined(sources, None, None)->0.kids() is Some,
        count_of(combined(sources, None, None)->0.page_tree()->0) == counted(sources),
        sound(combined(sources, None, None)->0),
    decreases sources.len(),
{
    if sources.len() == 1 {
        assert(sources.drop_last().len() == 0);
        assert(object_total(sources.drop_last()) == 0);
        assert(sources.last() == sources[0]);
    } else {
        let front = sources.drop_last();
        assert forall|i: int| 0 <= i < front.len() implies sound(#[trigger] front[i])
            && front[i].kids() is Some by {
            assert(front[i] == sources[i]);
        }
        lemma_roomy_front(sources);
        lemma_plain_combined(front);
        let base = combined(front, None, None)->0;
        let source = sources.last();
        assert(source == sources[sources.len() - 1]);
        let start = (base.max_id + 1) as u32;
        let moved = renumbered(source, start);
        let all = joined(base, source);
        lemma_joined_sound(base, source);
        lemma_appended_keeps_pages(base, all, moved.objects);
        let tid = base.page_tree_id()->0;
        let pages = lookup(base.catalog()->0, name("Pages"))->0->Reference_0;
        lemma_resolve_end(base.objects, pages, DEREF_LIMIT as nat);
        lemma_objects_appended(base.objects, moved.objects, tid);
        assert(all.page_tree() == base.page_tree());
        lemma_renumbered_pages(source, start);
        assert(can_add_pages(all, moved.pages()));
        lemma_count_added(all, moved.pages());
        lemma_pages_added(all, moved.pages());
        assert forall|i: int| 0 <= i < sources.len() implies sound(#[trigger] sources[i]) by {}
        lemma_combined_sound(sources, None, None);
    }
}

/// Adding an outline adds the root and the items, and raises the
/// watermark by their number.
proof fn lemma_outline_room(doc: DocumentView, items: Seq<(Seq<char>, ObjectId)>)
    requires
        doc.well_formed(),
        doc.catalog() is Some,
        can_add_outline(doc, items.len()),
    ensures
        with_outline(doc, items).objects.len() == doc.objects.len() + items.len() + 1,
        with_outline(doc, items).max_id == doc.max_id + items.len() + 1,
{
    let cid = doc.catalog_id()->0;
    let marked = with_entry(
        doc.catalog()->0,
        name("Outlines"),
        Value::Reference(outline_root_id(doc)),
    );
    assert(has_id(doc.objects, cid));
    lemma_objects_with(doc.objects, cid, Value::Dict(marked));
    assert(objects_with(doc.objects, cid, Value::Dict(marked)).len() == doc.objects.len());
}

/// Bookmarks can be added where the identifiers above the watermark
/// suffice; they add their objects and raise the watermark by as many.
proof fn lemma_bookmarked_room(whole: DocumentView, files: Seq<PathBuf>, config: Config)
    requires
        sound(whole),
        whole.kids() is Some,
        whole.max_id + outline_room(files, config) <= u32::MAX,
    ensures
        bookmarked(whole, files, config.bookmarks) is Some,
        sound(bookmarked(whole, files, config.bookmarks)->0),
        bookmarked(whole, files, config.bookmarks)->0.max_id <= whole.max_id + outline_room(
            files,
            config,
        ),
        bookmarked(whole, files, config.bookmarks)->0.objects.len() <= whole.objects.len()
            + outline_room(files, config),
{
    if config.bookmarks && files.len() > 0 && whole.pages().len() > 0 {
        lemma_outline_room(whole, bookmark_targets(whole.pages(), files));
    }
    lemma_bookmarked_sound(whole, files, config.bookmarks);
}

/// The information can be written where an identifier is left for it; it
/// adds one object at most.
proof fn lemma_stamped_room(doc: DocumentView, config: Config, date: Seq<char>)
    requires
        doc.well_formed(),
        doc.max_id + information_room(config) <= u32::MAX,
    ensures
        stamped(doc, config.metadata, date) is Some,
        stamped(doc, config.metadata, date)->0.objects.len() <= doc.objects.len()
            + information_room(config),
{
    if !config.metadata.empty() {
        let v = Value::Dict(info_after(info_before(doc), config.metadata, date));
        let after = objects_with(doc.objects, info_place(doc), v);
        assert(with_info_ref(doc).objects == doc.objects);
        assert(with_metadata(doc, config.metadata, date).objects == after);
        if has_id(doc.objects, info_place(doc)) {
            assert(after.len() == doc.objects.len());
        } else {
            lemma_rank_exists(doc.objects, info_place(doc));
            assert(after.len() == doc.objects.len() + 1);
        }
    }
}

/// A document whose objects can be numbered from 1 can be compacted and
/// renumbered.
proof fn lemma_finished_room(doc: DocumentView, config: Config)
    requires
        doc.objects.len() <= u32::MAX,
    ensures
        finished(compacted(doc, config.compression)) is Some,
{
    let packed = compressed(doc);
    packed.objects.lemma_filter_len(|e: (ObjectId, Value)| reachable(packed, e.0));
}

/// The sources made ready: each with the pages that the range selects,
/// turned where a rotation is asked for.
pub open spec fn readied(
    sources: Seq<DocumentView>,
    range: Option<Seq<PageRangeItem>>,
    rotation: Option<Rotation>,
) -> Seq<DocumentView> {
    Seq::new(sources.len(), |i: int| prepared(sources[i], range, rotation)->0)
}

/// The pages that a range selects up to a page are not more than the
/// pages up to it.
proof fn lemma_selection_is_short(items: Seq<PageRangeItem>, max: nat)
    ensures
        pages_upto(items, max).len() <= max,
    decreases max,
{
    if max > 0 && max <= u32::MAX {
        lemma_selection_is_short(items, (max - 1) as nat);
    }
}

/// After the page tree is replaced, its `Count` is the number of the pages
/// given; the objects are as many as they were, and the watermark stays.
proof fn lemma_count_replaced(doc: DocumentView, ids: Seq<ObjectId>)
    requires
        doc.well_formed(),
        doc.page_tree() is Some,
        ids.len() <= i64::MAX,
    ensures
        with_pages(doc, ids).page_tree() is Some,
        count_of(with_pages(doc, ids).page_tree()->0) == ids.len(),
        with_pages(doc, ids).objects.len() == doc.objects.len(),
        with_pages(doc, ids).max_id == doc.max_id,
{
    let tid = doc.page_tree_id()->0;
    let tree = doc.page_tree()->0;
    let kids = Value::Array(references_to(ids));
    let count = Value::Integer(ids.len() as i64);
    let first = with_entry(tree, name("Kids"), kids);
    let new_tree = with_entry(first, name("Count"), count);
    lemma_tree_names_differ();
    lemma_stored_names(doc, tid);
    lemma_with_entry(tree, name("Kids"), kids);
    lemma_with_entry(first, name("Count"), count);
    assert(lookup(new_tree, name("Pages")) == lookup(first, name("Pages")));
    assert(lookup(first, name("Pages")) == lookup(tree, name("Pages")));
    lemma_dict_replaced(doc, tid, new_tree);
    let pages = lookup(doc.catalog()->0, name("Pages"))->0->Reference_0;
    lemma_resolve_end(doc.objects, pages, DEREF_LIMIT as nat);
    assert(has_id(doc.objects, tid));
}

/// The pages that a range selects resolve to dictionaries after the
/// extraction, where the pages of the document did.
proof fn lemma_extracted_turnable(doc: DocumentView, items: Seq<PageRangeItem>)
    requires
        sound(doc),
        doc.kids() is Some,
        extracted(doc, items) is Some,
        turnable(doc, doc.pages()),
    ensures
        turnable(extracted(doc, items)->0, ready_pages(doc, Some(items))),
{
    let total = doc.pages().len();
    let numbers = pages_upto(items, total);
    let ids = selected(doc.pages(), numbers);
    let cut = with_pages(doc, ids);
    let tid = doc.page_tree_id()->0;
    let v = Value::Dict(tree_with(doc.page_tree()->0, references_to(ids), ids.len() as i64));
    let pages = lookup(doc.catalog()->0, name("Pages"))->0->Reference_0;
    lemma_resolve_end(doc.objects, pages, DEREF_LIMIT as nat);
    lemma_pages_upto_bounds(items, total);
    lemma_objects_with(doc.objects, tid, v);
    lemma_links_kept(doc.objects, tid, v);
    assert forall|j: int| 0 <= j < ids.len() implies (#[trigger] cut.get(ids[j])) is Some
        && cut.get(ids[j])->0 is Dict by {
        let page = doc.pages()[numbers[j] - 1];
        assert(ids[j] == page);
        assert(doc.get(page) is Some && doc.get(page)->0 is Dict);
        lemma_resolve_preserved(doc.objects, cut.objects, page, DEREF_LIMIT as nat);
    }
}

/// A source that can be made ready is made ready; it keeps its objects in
/// number and its watermark, has the pages that the range selects, and its
/// page tree counts them where there is a range, and as before where there
/// is none.
proof fn lemma_ready_one(
    doc: DocumentView,
    range: Option<Seq<PageRangeItem>>,
    rotation: Option<Rotation>,
)
    requires
        can_ready(doc, range, rotation),
    ensures
        prepared(doc, range, rotation) is Some,
        sound(prepared(doc, range, rotation)->0),
        prepared(doc, range, rotation)->0.kids() is Some,
        prepared(doc, range, rotation)->0.max_id == doc.max_id,
        prepared(doc, range, rotation)->0.objects.len() == doc.objects.len(),
        prepared(doc, range, rotation)->0.pages() == ready_pages(doc, range),
        count_of(prepared(doc, range, rotation)->0.page_tree()->0) == match range {
            None => count_of(doc.page_tree()->0) as int,
            Some(_) => ready_pages(doc, range).len() as int,
        },
{
    lemma_prepared_sound(doc, range, None);
    let cut = prepared(doc, range, None)->0;
    match range {
        Some(items) => {
            let total = doc.pages().len();
            let ids = selected(doc.pages(), pages_upto(items, total));
            lemma_selection_is_short(items, total);
            lemma_pages_replaced(doc, ids);
            lemma_count_replaced(doc, ids);
            if rotation is Some {
                lemma_extracted_turnable(doc, items);
            }
        },
        None => {},
    }
    match rotation {
        Some(r) => {
            lemma_pages_turned(cut, cut.pages(), r.degrees() as i64);
            lemma_pages_rotated_pages(cut, cut.pages(), r.degrees() as i64);
            lemma_turned_keeps_count(cut, cut.pages(), r.degrees() as i64);
        },
        None => {},
    }
}

/// Sources that can be made ready are as roomy ready as they were.
proof fn lemma_readied(
    sources: Seq<DocumentView>,
    range: Option<Seq<PageRangeItem>>,
    rotation: Option<Rotation>,
)
    requires
        forall|i: int| 0 <= i < sources.len() ==> can_ready(#[trigger] sources[i], range, rotation),
    ensures
        forall|i: int|
            0 <= i < sources.len() ==> prepared(#[trigger] sources[i], range, rotation) is Some,
        forall|i: int|
            0 <= i < sources.len() ==> sound(#[trigger] readied(sources, range, rotation)[i])
                && readied(sources, range, rotation)[i].kids() is Some,
        watermark(readied(sources, range, rotation)) == watermark(sources),
        object_total(readied(sources, range, rotation)) == object_total(sources),
        counted(readied(sources, range, rotation)) == counted_ready(sources, range),
    decreases sources.len(),
{
    let ready = readied(sources, range, rotation);
    assert forall|i: int| 0 <= i < sources.len() implies prepared(
        #[trigger] sources[i],
        range,
        rotation,
    ) is Some by {
        lemma_ready_one(sources[i], range, rotation);
    }
    assert forall|i: int| 0 <= i < sources.len() implies sound(#[trigger] ready[i])
        && ready[i].kids() is Some by {
        lemma_ready_one(sources[i], range, rotation);
    }
    if sources.len() > 0 {
        let front = sources.drop_last();
        assert forall|i: int| 0 <= i < front.len() implies can_ready(
            #[trigger] front[i],
            range,
            rotation,
        ) by {
            assert(front[i] == sources[i]);
        }
        lemma_readied(front, range, rotation);
        assert(ready.drop_last() =~= readied(front, range, rotation));
        assert(sources.last() == sources[sources.len() - 1]);
        assert(ready.last() == ready[sources.len() - 1]);
        lemma_ready_one(sources.last(), range, rotation);
        if sources.len() == 1 {
            assert(sources[0] == sources.last());
            assert(ready[0] == ready.last());
            assert(front.len() == 0);
            assert(ready_total(front, range) == 0);
        }
    }
}

/// Combining sources is combining them made ready.
proof fn lemma_combined_readied(
    sources: Seq<DocumentView>,
    range: Option<Seq<PageRangeItem>>,
    rotation: Option<Rotation>,
)
    requires
        forall|i: int|
            0 <= i < sources.len() ==> prepared(#[trigger] sources[i], range, rotation) is Some,
    ensures
        combined(sources, range, rotation) == combined(
            readied(sources, range, rotation),
            None,
            None,
        ),
    decreases sources.len(),
{
    let ready = readied(sources, range, rotation);
    if sources.len() == 1 {
        assert(prepared(sources[0], range, rotation) is Some);
    } else if sources.len() > 1 {
        let front = sources.drop_last();
        assert forall|i: int| 0 <= i < front.len() implies prepared(
            #[trigger] front[i],
            range,
            rotation,
        ) is Some by {
            assert(front[i] == sources[i]);
        }
        lemma_combined_readied(front, range, rotation);
        assert(ready.drop_last() =~= readied(front, range, rotation));
        assert(sources.last() == sources[sources.len() - 1]);
        assert(ready.last() == ready[sources.len() - 1]);
    }
}

/// A merge is owed: sound documents that each have a page tree give a
/// document wherever the numbers do not run out, each source has the pages
/// that the page range names and, where a rotation is asked for, every page
/// resolves to a dictionary; with or without bookmarks and information, at
/// every level of compaction.
pub proof fn law_merge_succeeds(
    sources: Seq<DocumentView>,
    files: Seq<PathBuf>,
    config: Config,
    date: Seq<char>,
)
    requires
        merge_owed(sources, files, config),
    ensures
        merge_plan(sources, files, config, date) is Some,
{
    let range = range_items(config.page_range);
    lemma_readied(sources, range, config.rotation);
    lemma_combined_readied(sources, range, config.rotation);
    lemma_plain_combined(readied(sources, range, config.rotation));
    let whole = combined(sources, range, config.rotation)->0;
    lemma_bookmarked_room(whole, files, config);
    let marked = bookmarked(whole, files, config.bookmarks)->0;
    lemma_stamped_room(marked, config, date);
    let dated = stamped(marked, config.metadata, date)->0;
    lemma_finished_room(dated, config);
}

} // verus!
