//! What a merge keeps: the objects of every source, each under an
//! identifier of its own, and the pages in their order.

use crate::config::{
    item_contains, pages_upto, range_contains, CompressionLevel, Config, PageRangeItem,
    Rotation,
};
use crate::document::{
    has_id, index_of, lemma_index_unique, lemma_resolve_end, object_at, DocumentView,
    DEREF_LIMIT,
};
use crate::merge::bookmarks::{
    bookmark_targets, can_add_outline, lemma_target_in_range, outline_item_id,
    outline_root_id, pages_per_file,
};
use crate::merge::closure::{
    lemma_bookmarked_sound, lemma_combined_sound, lemma_compressed_sound, lemma_ids_listed,
    lemma_joined_sound, lemma_metadata_sound, lemma_pages_stored, lemma_prepared_sound,
    lemma_pruned_sound, sound,
};
use crate::merge::compact::compressed;
use crate::merge::counting::{
    lemma_pruned_pages, lemma_renumbered_object, lemma_renumbered_pages,
};
use crate::merge::merger::{
    absorbed, assembled, bookmarked, combined, compacted, joined, merge_plan, prepared,
    range_items, stamped,
};
use crate::merge::metadata::{can_set_metadata, info_id, info_ref};
use crate::merge::pages::selected;
use crate::merge::paging::{
    lemma_appended_keeps_pages, lemma_compressed_pages, lemma_joined_pages,
    lemma_metadata_pages, lemma_objects_appended, lemma_outline_pages, lemma_pages_added,
    lemma_pages_replaced, lemma_pages_rotated_pages,
};
use crate::merge::renumber::{
    can_renumber, ids_of, renumbered, renumbered_id, renumbered_ids, renumbered_value,
};
use crate::object::{lookup, name, ObjectId};
use std::path::PathBuf;
use vstd::prelude::*;

verus! {

/// Absorbing a source keeps every object. The objects of the base stay
/// under their identifiers, and but for the page tree, which takes the new
/// pages, they stay as they are. Behind them stands each object of the
/// source, in order, under a number above the watermark of the base, with
/// its generation and with the references in it renumbered.
pub proof fn law_absorbing_keeps_every_object(base: DocumentView, source: DocumentView)
    requires
        sound(base),
        sound(source),
        base.kids() is Some,
        absorbed(base, source) is Some,
    ensures
        absorbed(base, source)->0.objects.len() == base.objects.len() + source.objects.len(),
        forall|i: int|
            0 <= i < base.objects.len() ==> (#[trigger] absorbed(base, source)->0.objects[i]).0
                == base.objects[i].0,
        forall|i: int|
            0 <= i < base.objects.len() && base.objects[i].0 != base.page_tree_id()->0
                ==> #[trigger] absorbed(base, source)->0.objects[i] == base.objects[i],
        forall|k: int|
            0 <= k < source.objects.len() ==> {
                let stored = #[trigger] absorbed(base, source)->0.objects[base.objects.len() + k];
                &&& stored.0.0 == base.max_id + 1 + k
                &&& stored.0.0 > base.max_id
                &&& stored.0.1 == source.objects[k].0.1
                &&& stored.1 == renumbered_value(
                    ids_of(source.objects),
                    (base.max_id + 1) as u32,
                    source.objects[k].1,
                )
            },
{
    let start = (base.max_id + 1) as u32;
    let moved = renumbered(source, start);
    let all = joined(base, source);
    let tid = base.page_tree_id()->0;
    lemma_joined_sound(base, source);
    lemma_appended_keeps_pages(base, all, moved.objects);
    let pages = lookup(base.catalog()->0, name("Pages"))->0->Reference_0;
    lemma_resolve_end(base.objects, pages, DEREF_LIMIT as nat);
    lemma_objects_appended(base.objects, moved.objects, tid);
    let at = index_of(base.objects, tid);
    assert(all.objects[at] == base.objects[at]);
    lemma_index_unique(all.objects, tid, at);
    let after = absorbed(base, source)->0;
    assert forall|k: int| 0 <= k < source.objects.len() implies {
        let stored = #[trigger] after.objects[base.objects.len() + k];
        &&& stored.0.0 == base.max_id + 1 + k
        &&& stored.0.0 > base.max_id
        &&& stored.0.1 == source.objects[k].0.1
        &&& stored.1 == renumbered_value(ids_of(source.objects), start, source.objects[k].1)
    } by {
        assert(after.objects[base.objects.len() + k] == all.objects[base.objects.len() + k]);
        assert(all.objects[base.objects.len() + k] == moved.objects[k]);
    }
    assert forall|i: int| 0 <= i < base.objects.len() implies (#[trigger] after.objects[i]).0
        == base.objects[i].0 by {
        assert(all.objects[i] == base.objects[i]);
    }
    assert forall|i: int|
        0 <= i < base.objects.len() && base.objects[i].0 != tid implies #[trigger] after.objects[i]
        == base.objects[i] by {
        assert(all.objects[i] == base.objects[i]);
    }
}

/// The pages of a source that is made ready: the pages that the range
/// selects, in ascending page order, or all its pages where there is no
/// range.
pub open spec fn ready_pages(doc: DocumentView, range: Option<Seq<PageRangeItem>>) -> Seq<
    ObjectId,
> {
    match range {
        Some(items) => selected(doc.pages(), pages_upto(items, doc.pages().len())),
        None => doc.pages(),
    }
}

/// The pages of the sources combined, in order: the pages of the first
/// source made ready, and behind them those of each further source, each
/// under the identifier that it got when the source was absorbed.
pub open spec fn combined_pages(
    sources: Seq<DocumentView>,
    range: Option<Seq<PageRangeItem>>,
    rotation: Option<Rotation>,
) -> Seq<ObjectId>
    decreases sources.len(),
{
    if sources.len() == 0 {
        Seq::empty()
    } else if sources.len() == 1 {
        ready_pages(sources[0], range)
    } else {
        combined_pages(sources.drop_last(), range, rotation) + renumbered_ids(
            ids_of(prepared(sources.last(), range, rotation)->0.objects),
            (combined(sources.drop_last(), range, rotation)->0.max_id + 1) as u32,
            ready_pages(sources.last(), range),
        )
    }
}

/// The number of the pages of the sources made ready, added up.
pub open spec fn ready_total(sources: Seq<DocumentView>, range: Option<Seq<PageRangeItem>>) -> nat
    decreases sources.len(),
{
    if sources.len() == 0 {
        0
    } else {
        ready_total(sources.drop_last(), range) + ready_pages(sources.last(), range).len()
    }
}

/// Whether every source is sound and has a page tree.
pub open spec fn all_sound(sources: Seq<DocumentView>) -> bool {
    forall|i: int|
        0 <= i < sources.len() ==> sound(#[trigger] sources[i]) && sources[i].kids() is Some
}

/// The pages of a merge of one source are the pages of the source made
/// ready, and those of a merge of two the pages of both, added up.
pub proof fn law_page_totals_of_few(
    sources: Seq<DocumentView>,
    range: Option<Seq<PageRangeItem>>,
)
    ensures
        sources.len() == 1 ==> ready_total(sources, range) == ready_pages(sources[0], range).len(),
        sources.len() == 2 ==> ready_total(sources, range) == ready_pages(
            sources[0],
            range,
        ).len() + ready_pages(sources[1], range).len(),
{
    if sources.len() == 1 {
        assert(sources.drop_last().len() == 0);
        assert(ready_total(sources.drop_last(), range) == 0);
        assert(sources.last() == sources[0]);
    } else if sources.len() == 2 {
        let front = sources.drop_last();
        assert(front.drop_last().len() == 0);
        assert(ready_total(front.drop_last(), range) == 0);
        assert(front.last() == sources[0]);
        assert(ready_total(front, range) == ready_pages(sources[0], range).len());
        assert(sources.last() == sources[1]);
    }
}

/// A sound source that is made ready has the pages that the range selects,
/// or its own where there is no range, and is sound.
pub proof fn lemma_ready_pages(
    doc: DocumentView,
    range: Option<Seq<PageRangeItem>>,
    rotation: Option<Rotation>,
)
    requires
        sound(doc),
        doc.kids() is Some,
        prepared(doc, range, rotation) is Some,
    ensures
        prepared(doc, range, rotation)->0.kids() is Some,
        prepared(doc, range, rotation)->0.pages() == ready_pages(doc, range),
        sound(prepared(doc, range, rotation)->0),
{
    lemma_prepared_sound(doc, range, rotation);
    lemma_prepared_sound(doc, range, None);
    let cut = prepared(doc, range, None)->0;
    match range {
        Some(items) => {
            lemma_pages_replaced(
                doc,
                selected(doc.pages(), pages_upto(items, doc.pages().len())),
            );
        },
        None => {},
    }
    match rotation {
        Some(r) => {
            lemma_pages_rotated_pages(cut, cut.pages(), r.degrees() as i64);
        },
        None => {},
    }
}

/// Sound sources that are combined have their pages in the order of the
/// sources, and in each source in the order of its pages.
pub proof fn lemma_combined_order(
    sources: Seq<DocumentView>,
    range: Option<Seq<PageRangeItem>>,
    rotation: Option<Rotation>,
)
    requires
        forall|i: int|
            0 <= i < sources.len() ==> sound(#[trigger] sources[i]) && sources[i].kids() is Some,
        combined(sources, range, rotation) is Some,
    ensures
        combined(sources, range, rotation)->0.kids() is Some,
        combined(sources, range, rotation)->0.pages() == combined_pages(sources, range, rotation),
        combined_pages(sources, range, rotation).len() == ready_total(sources, range),
        sound(combined(sources, range, rotation)->0),
    decreases sources.len(),
{
    assert forall|i: int| 0 <= i < sources.len() implies sound(#[trigger] sources[i]) by {}
    lemma_combined_sound(sources, range, rotation);
    if sources.len() == 1 {
        lemma_ready_pages(sources[0], range, rotation);
        assert(sources.drop_last().len() == 0);
        assert(ready_total(sources.drop_last(), range) == 0);
        assert(sources.last() == sources[0]);
    } else {
        let front = sources.drop_last();
        assert forall|i: int| 0 <= i < front.len() implies sound(#[trigger] front[i])
            && front[i].kids() is Some by {
            assert(front[i] == sources[i]);
        }
        lemma_combined_order(front, range, rotation);
        lemma_ready_pages(sources.last(), range, rotation);
        let base = combined(front, range, rotation)->0;
        let source = prepared(sources.last(), range, rotation)->0;
        let start = (base.max_id + 1) as u32;
        let moved = renumbered(source, start);
        lemma_joined_sound(base, source);
        lemma_joined_pages(base, source);
        lemma_pages_added(joined(base, source), moved.pages());
        lemma_renumbered_pages(source, start);
    }
}

/// Bookmarks, the information and compaction leave the pages of a sound
/// document as they are.
pub proof fn lemma_finishing_keeps_pages(
    whole: DocumentView,
    files: Seq<PathBuf>,
    config: Config,
    date: Seq<char>,
)
    requires
        sound(whole),
        whole.kids() is Some,
        bookmarked(whole, files, config.bookmarks) is Some,
        stamped(bookmarked(whole, files, config.bookmarks)->0, config.metadata, date) is Some,
    ensures
        ({
            let marked = bookmarked(whole, files, config.bookmarks)->0;
            let dated = stamped(marked, config.metadata, date)->0;
            let small = compacted(dated, config.compression);
            &&& sound(marked)
            &&& marked.kids() is Some
            &&& sound(dated)
            &&& dated.kids() is Some
            &&& sound(small)
            &&& small.kids() is Some
            &&& small.pages() == whole.pages()
        }),
{
    lemma_bookmarked_sound(whole, files, config.bookmarks);
    if config.bookmarks && files.len() > 0 && whole.pages().len() > 0 {
        let items = bookmark_targets(whole.pages(), files);
        assert forall|i: int| 0 <= i < items.len() implies has_id(
            whole.objects,
            (#[trigger] items[i]).1,
        ) by {
            lemma_target_in_range(whole.pages().len(), files.len(), i as nat);
            lemma_pages_stored(whole, i * pages_per_file(whole.pages().len(), files.len()));
        }
        lemma_outline_pages(whole, items);
    }
    let marked = bookmarked(whole, files, config.bookmarks)->0;
    if !config.metadata.empty() {
        lemma_metadata_sound(marked, config.metadata, date);
        lemma_metadata_pages(marked, config.metadata, date);
    }
    let dated = stamped(marked, config.metadata, date)->0;
    match config.compression {
        CompressionLevel::Uncompressed => {},
        CompressionLevel::Standard => {
            lemma_compressed_sound(dated);
            lemma_compressed_pages(dated);
        },
        CompressionLevel::Maximum => {
            lemma_compressed_sound(dated);
            lemma_compressed_pages(dated);
            lemma_pruned_sound(compressed(dated));
            lemma_pruned_pages(compressed(dated));
        },
    }
}

/// A merge of sound documents that each have a page tree keeps the pages in
/// their order. Before the last renumbering the pages are those of the
/// sources combined: of the first source, then of the second, and so on,
/// each source's pages in its own order (those that the range selects,
/// where there is one). The last renumbering gives each page its final
/// identifier and changes neither their number nor their order.
pub proof fn law_merge_keeps_page_order(
    sources: Seq<DocumentView>,
    files: Seq<PathBuf>,
    config: Config,
    date: Seq<char>,
)
    requires
        forall|i: int|
            0 <= i < sources.len() ==> sound(#[trigger] sources[i]) && sources[i].kids() is Some,
        merge_plan(sources, files, config, date) is Some,
    ensures
        assembled(sources, files, config, date) is Some,
        assembled(sources, files, config, date)->0.pages() == combined_pages(
            sources,
            range_items(config.page_range),
            config.rotation,
        ),
        merge_plan(sources, files, config, date)->0.pages() == renumbered_ids(
            ids_of(assembled(sources, files, config, date)->0.objects),
            1,
            combined_pages(sources, range_items(config.page_range), config.rotation),
        ),
        merge_plan(sources, files, config, date)->0.pages().len() == ready_total(
            sources,
            range_items(config.page_range),
        ),
{
    let range = range_items(config.page_range);
    lemma_combined_order(sources, range, config.rotation);
    let whole = combined(sources, range, config.rotation)->0;
    lemma_finishing_keeps_pages(whole, files, config, date);
    lemma_renumbered_pages(assembled(sources, files, config, date)->0, 1);
}

/// A merge of one sound document that has a page tree, without a page
/// range, keeps its pages in their order: page `n` of the result is page `n`
/// of the document, under its final identifier.
pub proof fn law_merge_of_one_keeps_page_order(
    a: DocumentView,
    files: Seq<PathBuf>,
    config: Config,
    date: Seq<char>,
)
    requires
        sound(a),
        a.kids() is Some,
        config.page_range is None,
        merge_plan(seq![a], files, config, date) is Some,
    ensures
        assembled(seq![a], files, config, date) is Some,
        assembled(seq![a], files, config, date)->0.pages() == a.pages(),
        merge_plan(seq![a], files, config, date)->0.pages() == renumbered_ids(
            ids_of(assembled(seq![a], files, config, date)->0.objects),
            1,
            a.pages(),
        ),
{
    law_merge_keeps_page_order(seq![a], files, config, date);
}

/// What a merge adds comes under identifiers that no object carries: the
/// outline root and its items stand above the watermark, and so does an
/// information dictionary that is made anew.
pub proof fn law_added_identifiers_are_fresh(doc: DocumentView, count: nat, i: int)
    requires
        doc.well_formed(),
        0 <= i < count,
    ensures
        can_add_outline(doc, count) ==> !has_id(doc.objects, outline_root_id(doc)) && !has_id(
            doc.objects,
            outline_item_id(doc, i),
        ) && outline_item_id(doc, i) != outline_root_id(doc),
        info_ref(doc) is None && can_set_metadata(doc) ==> !has_id(doc.objects, info_id(doc)),
{
    if has_id(doc.objects, outline_root_id(doc)) {
        let k = index_of(doc.objects, outline_root_id(doc));
        assert(doc.objects[k].0.0 <= doc.max_id);
    }
    if has_id(doc.objects, outline_item_id(doc, i)) {
        let k = index_of(doc.objects, outline_item_id(doc, i));
        assert(doc.objects[k].0.0 <= doc.max_id);
    }
    if has_id(doc.objects, info_id(doc)) {
        let k = index_of(doc.objects, info_id(doc));
        assert(doc.objects[k].0.0 <= doc.max_id);
    }
}

/// Renumbering keeps every object: each stored object is stored afterwards
/// under the number that its place in the order gives it, with its
/// generation, holding what it held with every reference renumbered; and
/// two objects never come under one identifier.
pub proof fn law_renumbering_keeps_every_object(
    doc: DocumentView,
    start: u32,
    a: ObjectId,
    b: ObjectId,
)
    requires
        sound(doc),
        can_renumber(doc, start),
        has_id(doc.objects, a),
        has_id(doc.objects, b),
    ensures
        renumbered_id(ids_of(doc.objects), start, a) == (
            (start + index_of(doc.objects, a)) as u32,
            a.1,
        ),
        object_at(renumbered(doc, start).objects, renumbered_id(ids_of(doc.objects), start, a))
            == Some(renumbered_value(ids_of(doc.objects), start, object_at(doc.objects, a)->0)),
        a != b ==> renumbered_id(ids_of(doc.objects), start, a) != renumbered_id(
            ids_of(doc.objects),
            start,
            b,
        ),
{
    lemma_renumbered_object(doc, start, a);
    lemma_ids_listed(doc.objects, a);
    lemma_ids_listed(doc.objects, b);
    if a != b {
        let i = index_of(doc.objects, a);
        let j = index_of(doc.objects, b);
        assert(doc.objects[i].0 == a && doc.objects[j].0 == b);
    }
}

/// The last step of a merge keeps what was assembled: the result is the
/// assembled document renumbered from 1, so each of its objects, the
/// outline and the information among them, is in the result under its final
/// identifier, with every reference following.
pub proof fn law_merge_renumbers_what_was_assembled(
    sources: Seq<DocumentView>,
    files: Seq<PathBuf>,
    config: Config,
    date: Seq<char>,
    id: ObjectId,
)
    requires
        forall|i: int|
            0 <= i < sources.len() ==> sound(#[trigger] sources[i]) && sources[i].kids() is Some,
        merge_plan(sources, files, config, date) is Some,
        has_id(assembled(sources, files, config, date)->0.objects, id),
    ensures
        assembled(sources, files, config, date) is Some,
        merge_plan(sources, files, config, date) == Some(
            renumbered(assembled(sources, files, config, date)->0, 1),
        ),
        object_at(
            merge_plan(sources, files, config, date)->0.objects,
            renumbered_id(ids_of(assembled(sources, files, config, date)->0.objects), 1, id),
        ) == Some(
            renumbered_value(
                ids_of(assembled(sources, files, config, date)->0.objects),
                1,
                object_at(assembled(sources, files, config, date)->0.objects, id)->0,
            ),
        ),
{
    let range = range_items(config.page_range);
    lemma_combined_order(sources, range, config.rotation);
    let whole = combined(sources, range, config.rotation)->0;
    lemma_finishing_keeps_pages(whole, files, config, date);
    lemma_renumbered_object(assembled(sources, files, config, date)->0, 1, id);
}

/// A range of one page selects that page and no other, of a document that
/// has it.
pub proof fn lemma_single_page_selected(page: u32, total: nat)
    requires
        1 <= page <= total <= u32::MAX,
    ensures
        pages_upto(seq![PageRangeItem::Single(page)], total) == seq![page],
    decreases total,
{
    let items = seq![PageRangeItem::Single(page)];
    assert forall|p: u32| #[trigger] range_contains(items, p) <==> p == page by {
        if p == page {
            assert(item_contains(items[0], p));
        }
    }
    if total > page {
        lemma_single_page_selected(page, (total - 1) as nat);
        assert(!range_contains(items, total as u32));
    } else {
        lemma_none_selected_below(page, (total - 1) as nat);
        assert(range_contains(items, total as u32));
        assert(pages_upto(items, total) =~= seq![page]);
    }
}

/// A range of one page selects nothing among the pages before it.
proof fn lemma_none_selected_below(page: u32, total: nat)
    requires
        total < page,
    ensures
        pages_upto(seq![PageRangeItem::Single(page)], total) == Seq::<u32>::empty(),
    decreases total,
{
    let items = seq![PageRangeItem::Single(page)];
    if total > 0 {
        lemma_none_selected_below(page, (total - 1) as nat);
        assert forall|p: u32| #[trigger] range_contains(items, p) implies p == page by {}
        assert(!range_contains(items, total as u32));
    }
}

/// A merge under a range of one page takes one page of each source: of
/// sound documents that each have that page, the merge has as many pages as
/// there are sources.
pub proof fn law_merge_of_one_page_each(
    sources: Seq<DocumentView>,
    files: Seq<PathBuf>,
    config: Config,
    date: Seq<char>,
    page: u32,
)
    requires
        forall|i: int|
            0 <= i < sources.len() ==> sound(#[trigger] sources[i]) && sources[i].kids() is Some
                && page <= sources[i].pages().len() <= u32::MAX,
        page >= 1,
        range_items(config.page_range) == Some(seq![PageRangeItem::Single(page)]),
        merge_plan(sources, files, config, date) is Some,
    ensures
        merge_plan(sources, files, config, date)->0.pages().len() == sources.len(),
{
    law_merge_keeps_page_order(sources, files, config, date);
    lemma_one_page_each(sources, page);
}

/// Under a range of one page, sources that each have that page make
/// ready one page each.
pub proof fn lemma_one_page_each(sources: Seq<DocumentView>, page: u32)
    requires
        forall|i: int|
            0 <= i < sources.len() ==> page <= (#[trigger] sources[i]).pages().len() <= u32::MAX,
        page >= 1,
    ensures
        ready_total(sources, Some(seq![PageRangeItem::Single(page)])) == sources.len(),
    decreases sources.len(),
{
    if sources.len() > 0 {
        let front = sources.drop_last();
        assert forall|i: int| 0 <= i < front.len() implies page <= (
        #[trigger] front[i]).pages().len() <= u32::MAX by {
            assert(front[i] == sources[i]);
        }
        lemma_one_page_each(front, page);
        assert(sources.last() == sources[sources.len() - 1]);
        lemma_single_page_selected(page, sources.last().pages().len());
    }
}

} // verus!
