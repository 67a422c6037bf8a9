//! The page count of a merge: pruning and renumbering keep the pages, and a
//! merge has the pages of its sources, added up.

use crate::config::{CompressionLevel, Config, Rotation};
use crate::document::{
    has_id, index_of, lemma_index_unique, lemma_resolve_end, object_at, references_in,
    resolve_from, DocumentView, DEREF_LIMIT,
};
use crate::merge::bookmarks::{bookmark_targets, lemma_target_in_range, pages_per_file};
use crate::merge::closure::{
    lemma_bookmarked_sound, lemma_combined_sound, lemma_compressed_sound, lemma_entry_refers,
    lemma_filter_kept, lemma_ids_listed, lemma_joined_sound, lemma_metadata_sound,
    lemma_pages_stored, lemma_prepared_sound, lemma_pruned_sound, lemma_renumbered_sound,
    lemma_stored_names, sound,
};
use crate::merge::compact::{
    compressed, entries_refer, is_path, lemma_path_extended, pruned, reachable, value_refers,
};
use crate::merge::merger::{bookmarked, combined, compacted, joined, merge_plan, prepared, stamped};
use crate::merge::paging::{
    lemma_compressed_pages, lemma_joined_pages, lemma_metadata_pages, lemma_outline_pages,
    lemma_pages_added, lemma_pages_rotated_pages,
};
use crate::merge::renumber::{
    can_renumber, ids_of, lemma_renumbered_names, renumbered, renumbered_entries, renumbered_id,
    renumbered_ids, renumbered_value,
};
use crate::object::{
    has_name, lemma_slot_unique, lookup, name, names_distinct, slot, ObjectId, Value,
};
use std::path::PathBuf;
use vstd::prelude::*;

verus! {

/// What an entry of the trailer or of a stored dictionary refers to.
proof fn lemma_lookup_refers(d: Seq<(Seq<u8>, Value)>, key: Seq<u8>, to: ObjectId)
    requires
        lookup(d, key) == Some(Value::Reference(to)),
    ensures
        entries_refer(d, to),
{
    let at = slot(d, key);
    assert(d[at].1 == Value::Reference(to));
    assert(value_refers(d[at].1, to));
    lemma_entry_refers(d, at, to);
}

/// An identifier that is reachable and resolves, resolves among the
/// reachable objects alone, to an end that is reachable.
proof fn lemma_resolve_pruned(doc: DocumentView, id: ObjectId, hops: nat)
    requires
        sound(doc),
        reachable(doc, id),
        resolve_from(doc.objects, id, hops) is Some,
    ensures
        resolve_from(pruned(doc).objects, id, hops) == resolve_from(doc.objects, id, hops),
        reachable(doc, resolve_from(doc.objects, id, hops)->0),
    decreases hops,
{
    lemma_kept_object(doc, id);
    match object_at(doc.objects, id) {
        Some(Value::Reference(next)) => {
            let path = choose|path: Seq<ObjectId>| #[trigger]
                is_path(doc, path) && path.last() == id;
            assert(value_refers(object_at(doc.objects, id)->0, next));
            lemma_path_extended(doc, path, next);
            lemma_resolve_pruned(doc, next, (hops - 1) as nat);
        },
        _ => {},
    }
}

/// An object that is reachable is stored after pruning as it was before.
proof fn lemma_kept_object(doc: DocumentView, id: ObjectId)
    requires
        doc.well_formed(),
        reachable(doc, id),
        has_id(doc.objects, id),
    ensures
        has_id(pruned(doc).objects, id),
        object_at(pruned(doc).objects, id) == object_at(doc.objects, id),
{
    let keep = |e: (ObjectId, Value)| reachable(doc, e.0);
    let f = pruned(doc).objects;
    lemma_filter_kept(doc.objects, keep);
    let j = index_of(doc.objects, id);
    assert(keep(doc.objects[j]));
    let i = choose|i: int| 0 <= i < f.len() && f[i] == doc.objects[j];
    lemma_index_unique(f, id, i);
}

/// Removing what is not reachable leaves the pages of a document as they
/// are.
pub proof fn lemma_pruned_pages(doc: DocumentView)
    requires
        sound(doc),
        doc.kids() is Some,
    ensures
        pruned(doc).kids() == doc.kids(),
        pruned(doc).pages() == doc.pages(),
{
    let cid = doc.catalog_id()->0;
    let cat = doc.catalog()->0;
    let tid = doc.page_tree_id()->0;
    let root = lookup(doc.trailer, name("Root"))->0->Reference_0;
    let pages = lookup(cat, name("Pages"))->0->Reference_0;
    lemma_lookup_refers(doc.trailer, name("Root"), root);
    let start = seq![root];
    assert(is_path(doc, start) && start.last() == root);
    lemma_resolve_pruned(doc, root, DEREF_LIMIT as nat);
    lemma_resolve_end(doc.objects, root, DEREF_LIMIT as nat);
    lemma_kept_object(doc, cid);
    lemma_lookup_refers(cat, name("Pages"), pages);
    assert(value_refers(object_at(doc.objects, cid)->0, pages));
    let to_catalog = choose|path: Seq<ObjectId>| #[trigger]
        is_path(doc, path) && path.last() == cid;
    lemma_path_extended(doc, to_catalog, pages);
    lemma_resolve_pruned(doc, pages, DEREF_LIMIT as nat);
    lemma_resolve_end(doc.objects, pages, DEREF_LIMIT as nat);
    lemma_kept_object(doc, tid);
}

/// A stored object is stored after renumbering under its new identifier,
/// with its references renumbered.
pub proof fn lemma_renumbered_object(doc: DocumentView, start: u32, id: ObjectId)
    requires
        sound(doc),
        can_renumber(doc, start),
        has_id(doc.objects, id),
    ensures
        has_id(
            renumbered(doc, start).objects,
            renumbered_id(ids_of(doc.objects), start, id),
        ),
        object_at(
            renumbered(doc, start).objects,
            renumbered_id(ids_of(doc.objects), start, id),
        ) == Some(
            renumbered_value(ids_of(doc.objects), start, object_at(doc.objects, id)->0),
        ),
{
    let ids = ids_of(doc.objects);
    let after = renumbered(doc, start);
    lemma_renumbered_sound(doc, start);
    lemma_ids_listed(doc.objects, id);
    let p = index_of(doc.objects, id);
    assert(ids[p] == id);
    assert(after.objects[p].0 == renumbered_id(ids, start, id));
    lemma_index_unique(after.objects, renumbered_id(ids, start, id), p);
}

/// Renumbered entries hold under a name what the entries held, renumbered.
pub proof fn lemma_renumbered_lookup(
    ids: Seq<ObjectId>,
    start: u32,
    d: Seq<(Seq<u8>, Value)>,
    key: Seq<u8>,
)
    requires
        names_distinct(d),
    ensures
        lookup(renumbered_entries(ids, start, d), key) == match lookup(d, key) {
            Some(v) => Some(renumbered_value(ids, start, v)),
            None => None,
        },
{
    let moved = renumbered_entries(ids, start, d);
    lemma_renumbered_names(ids, start, d);
    if has_name(d, key) {
        let at = slot(d, key);
        assert(moved[at].0 == key);
        lemma_slot_unique(moved, key, at);
    } else if has_name(moved, key) {
        let at = slot(moved, key);
        assert(d[at].0 == key);
    }
}

/// An identifier that resolves, resolves after renumbering under its new
/// identifier, to the new identifier of its end.
pub proof fn lemma_renumbered_resolve(doc: DocumentView, start: u32, id: ObjectId, hops: nat)
    requires
        sound(doc),
        can_renumber(doc, start),
        resolve_from(doc.objects, id, hops) is Some,
    ensures
        resolve_from(
            renumbered(doc, start).objects,
            renumbered_id(ids_of(doc.objects), start, id),
            hops,
        ) == Some(
            renumbered_id(ids_of(doc.objects), start, resolve_from(doc.objects, id, hops)->0),
        ),
    decreases hops,
{
    assert(has_id(doc.objects, id));
    lemma_renumbered_object(doc, start, id);
    match object_at(doc.objects, id) {
        Some(Value::Reference(next)) => {
            lemma_renumbered_resolve(doc, start, next, (hops - 1) as nat);
        },
        _ => {},
    }
}

/// Renumbered kids hold the references that the kids held, renumbered, in
/// the same order.
proof fn lemma_renumbered_kids(ids: Seq<ObjectId>, start: u32, kids: Seq<Value>)
    ensures
        references_in(renumbered_value(ids, start, Value::Array(kids))->Array_0)
            == renumbered_ids(ids, start, references_in(kids)),
    decreases kids.len(),
{
    let moved = renumbered_value(ids, start, Value::Array(kids))->Array_0;
    if kids.len() > 0 {
        let front = kids.drop_last();
        let moved_front = renumbered_value(ids, start, Value::Array(front))->Array_0;
        lemma_renumbered_kids(ids, start, front);
        assert(moved.drop_last() =~= moved_front);
        assert(moved.last() == renumbered_value(ids, start, kids.last()));
        assert(references_in(moved) =~= renumbered_ids(ids, start, references_in(kids)));
    } else {
        assert(references_in(moved) =~= renumbered_ids(ids, start, references_in(kids)));
    }
}

/// Renumbering keeps the page tree and its pages in their order: each page
/// is the page that it was, under its new identifier.
pub proof fn lemma_renumbered_pages(doc: DocumentView, start: u32)
    requires
        sound(doc),
        can_renumber(doc, start),
        doc.kids() is Some,
    ensures
        renumbered(doc, start).kids() is Some,
        renumbered(doc, start).pages() == renumbered_ids(
            ids_of(doc.objects),
            start,
            doc.pages(),
        ),
        renumbered(doc, start).pages().len() == doc.pages().len(),
        renumbered(doc, start).catalog() == Some(
            renumbered_entries(ids_of(doc.objects), start, doc.catalog()->0),
        ),
{
    let ids = ids_of(doc.objects);
    let after = renumbered(doc, start);
    let cid = doc.catalog_id()->0;
    let cat = doc.catalog()->0;
    let tid = doc.page_tree_id()->0;
    let tree = doc.page_tree()->0;
    let kids = doc.kids()->0;
    let root = lookup(doc.trailer, name("Root"))->0->Reference_0;
    let pages = lookup(cat, name("Pages"))->0->Reference_0;
    lemma_renumbered_lookup(ids, start, doc.trailer, name("Root"));
    lemma_renumbered_resolve(doc, start, root, DEREF_LIMIT as nat);
    lemma_resolve_end(doc.objects, root, DEREF_LIMIT as nat);
    lemma_renumbered_object(doc, start, cid);
    lemma_stored_names(doc, cid);
    lemma_renumbered_lookup(ids, start, cat, name("Pages"));
    assert(after.catalog() == Some(renumbered_entries(ids, start, cat)));
    lemma_renumbered_resolve(doc, start, pages, DEREF_LIMIT as nat);
    lemma_resolve_end(doc.objects, pages, DEREF_LIMIT as nat);
    lemma_renumbered_object(doc, start, tid);
    lemma_stored_names(doc, tid);
    lemma_renumbered_lookup(ids, start, tree, name("Kids"));
    assert(after.page_tree() == Some(renumbered_entries(ids, start, tree)));
    lemma_renumbered_kids(ids, start, kids);
}

/// The pages of the sources, added up.
pub open spec fn total_pages(sources: Seq<DocumentView>) -> nat
    decreases sources.len(),
{
    if sources.len() == 0 {
        0
    } else {
        total_pages(sources.drop_last()) + sources.last().pages().len()
    }
}

/// A source that is made ready without a page range keeps its pages.
proof fn lemma_prepared_pages(doc: DocumentView, rotation: Option<Rotation>)
    requires
        sound(doc),
        doc.kids() is Some,
        prepared(doc, None, rotation) is Some,
    ensures
        prepared(doc, None, rotation)->0.kids() is Some,
        prepared(doc, None, rotation)->0.pages() == doc.pages(),
        sound(prepared(doc, None, rotation)->0),
{
    lemma_prepared_sound(doc, None, rotation);
    match rotation {
        Some(r) => {
            lemma_pages_rotated_pages(doc, doc.pages(), r.degrees() as i64);
        },
        None => {},
    }
}

/// Sources that are combined without a page range have their pages, added
/// up.
proof fn lemma_combined_pages(sources: Seq<DocumentView>, rotation: Option<Rotation>)
    requires
        forall|i: int|
            0 <= i < sources.len() ==> sound(#[trigger] sources[i]) && sources[i].kids() is Some,
        combined(sources, None, rotation) is Some,
    ensures
        combined(sources, None, rotation)->0.kids() is Some,
        combined(sources, None, rotation)->0.pages().len() == total_pages(sources),
        sound(combined(sources, None, rotation)->0),
    decreases sources.len(),
{
    assert forall|i: int| 0 <= i < sources.len() implies sound(#[trigger] sources[i]) by {}
    lemma_combined_sound(sources, None, rotation);
    if sources.len() == 1 {
        lemma_prepared_pages(sources[0], rotation);
        assert(sources.drop_last().len() == 0);
        assert(total_pages(sources.drop_last()) == 0);
    } else {
        let front = sources.drop_last();
        assert forall|i: int| 0 <= i < front.len() implies sound(#[trigger] front[i])
            && front[i].kids() is Some by {
            assert(front[i] == sources[i]);
        }
        lemma_combined_pages(front, rotation);
        lemma_prepared_pages(sources.last(), rotation);
        let base = combined(front, None, rotation)->0;
        let source = prepared(sources.last(), None, rotation)->0;
        let start = (base.max_id + 1) as u32;
        let moved = renumbered(source, start);
        lemma_joined_sound(base, source);
        lemma_joined_pages(base, source);
        lemma_pages_added(joined(base, source), moved.pages());
        lemma_renumbered_pages(source, start);
    }
}

/// A merge without a page range, of sound documents that each have a page
/// tree, has as many pages as its sources have together.
pub proof fn law_merge_page_count(
    sources: Seq<DocumentView>,
    files: Seq<PathBuf>,
    config: Config,
    date: Seq<char>,
)
    requires
        forall|i: int|
            0 <= i < sources.len() ==> sound(#[trigger] sources[i]) && sources[i].kids() is Some,
        config.page_range is None,
        merge_plan(sources, files, config, date) is Some,
    ensures
        merge_plan(sources, files, config, date)->0.pages().len() == total_pages(sources),
{
    lemma_combined_pages(sources, config.rotation);
    let whole = combined(sources, None, config.rotation)->0;
    lemma_bookmarked_sound(whole, files, config.bookmarks);
    if config.bookmarks && files.len() > 0 && whole.pages().len() > 0 {
        let items = bookmark_targets(whole.pages(), files);
        assert forall|i: int| 0 <= i < items.len() implies has_id(
            whole.objects,
            (#[trigger] items[i]).1,
        ) by {
            lemma_target_in_range(whole.pages().len(), files.len(), i as nat);
            lemma_pages_stored(whole, i * pages_per_file(whole.pages().len(), files.len()));
        }
        lemma_outline_pages(whole, items);
    }
    let marked = bookmarked(whole, files, config.bookmarks)->0;
    if !config.metadata.empty() {
        lemma_metadata_sound(marked, config.metadata, date);
        lemma_metadata_pages(marked, config.metadata, date);
    }
    let dated = stamped(marked, config.metadata, date)->0;
    match config.compression {
        CompressionLevel::Uncompressed => {},
        CompressionLevel::Standard => {
            lemma_compressed_sound(dated);
            lemma_compressed_pages(dated);
        },
        CompressionLevel::Maximum => {
            lemma_compressed_sound(dated);
            lemma_compressed_pages(dated);
            lemma_pruned_sound(compressed(dated));
            lemma_pruned_pages(compressed(dated));
        },
    }
    lemma_renumbered_pages(compacted(dated, config.compression), 1);
}

/// The pages of two sources, added up.
proof fn lemma_total_of_two(a: DocumentView, b: DocumentView)
    ensures
        total_pages(seq![a, b]) == a.pages().len() + b.pages().len(),
{
    let sources = seq![a, b];
    let front = sources.drop_last();
    assert(front =~= seq![a]);
    assert(front.drop_last() =~= Seq::<DocumentView>::empty());
    assert(total_pages(front.drop_last()) == 0);
    assert(front.last() == a);
    assert(total_pages(front) == a.pages().len());
    assert(sources.last() == b);
}

/// Merging two sound documents that each have a page tree, without a page
/// range, gives as many pages as the two have together.
#[verifier::rlimit(80)]
pub proof fn law_merge_of_two_adds_pages(
    a: DocumentView,
    b: DocumentView,
    files: Seq<PathBuf>,
    config: Config,
    date: Seq<char>,
)
    requires
        sound(a),
        sound(b),
        a.kids() is Some,
        b.kids() is Some,
        config.page_range is None,
        merge_plan(seq![a, b], files, config, date) is Some,
    ensures
        merge_plan(seq![a, b], files, config, date)->0.pages().len() == a.pages().len()
            + b.pages().len(),
{
    let sources = seq![a, b];
    assert forall|i: int| 0 <= i < sources.len() implies sound(#[trigger] sources[i])
        && sources[i].kids() is Some by {
        if i == 0 {
            assert(sources[i] == a);
        } else {
            assert(sources[i] == b);
        }
    }
    law_merge_page_count(sources, files, config, date);
    lemma_total_of_two(a, b);
}

/// Merging one sound document that has a page tree, without a page range,
/// gives as many pages as the document has.
pub proof fn law_merge_of_one_keeps_pages(
    a: DocumentView,
    files: Seq<PathBuf>,
    config: Config,
    date: Seq<char>,
)
    requires
        sound(a),
        a.kids() is Some,
        config.page_range is None,
        merge_plan(seq![a], files, config, date) is Some,
    ensures
        merge_plan(seq![a], files, config, date)->0.pages().len() == a.pages().len(),
{
    let sources = seq![a];
    law_merge_page_count(sources, files, config, date);
    assert(sources.drop_last() =~= Seq::<DocumentView>::empty());
    assert(total_pages(sources.drop_last()) == 0);
}

} // verus!
