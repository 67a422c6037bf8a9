//! Laws of the merge engine: what holds of every document across its
//! operations.

use crate::document::{
    has_id, ids_ascending, index_of, lemma_index_unique, lemma_links_kept, lemma_objects_with,
    lemma_resolve_end, lemma_resolve_preserved, link, object_at, objects_with, resolve,
    DocumentView, DEREF_LIMIT,
};
use crate::error::PdfCatError;
use crate::io::reader::{successes, LoadedPdf};
use crate::merge::bookmarks::{
    can_add_outline, has_outlines, outline_objects, outline_root_id, with_outline,
    without_outlines,
};
use crate::merge::merger::{any_failed, survivors};
use crate::merge::paging::{lemma_catalog_kept, lemma_objects_appended};
use crate::document::references_to;
use crate::merge::pages::{
    can_add_pages, count_of, rotated, rotation_of, with_page_rotated, with_pages,
    with_pages_added,
};
use crate::object::{
    has_name, lemma_slot_unique, lemma_with_entry, lemma_without_entry, lookup, name,
    names_distinct, slot, with_entry, without_entry, ObjectId, Value,
};
use vstd::prelude::*;

verus! {

/// Two quarter turns are a half turn: turning a rotation by 90 degrees twice
/// gives what turning it by 180 degrees once gives, whatever the rotation
/// was.
pub proof fn law_quarter_turns_add(r: i64)
    ensures
        rotated(rotated(r, 90), 90) == rotated(r, 180),
{
    assert(((r + 90) % 360 + 90) % 360 == (r + 180) % 360) by (nonlinear_arith);
}

/// Storing twice under one name is storing the second value once.
pub proof fn lemma_with_entry_twice(d: Seq<(Seq<u8>, Value)>, key: Seq<u8>, a: Value, b: Value)
    requires
        names_distinct(d),
    ensures
        with_entry(with_entry(d, key, a), key, b) == with_entry(d, key, b),
{
    lemma_with_entry(d, key, a);
    let first = with_entry(d, key, a);
    if has_name(d, key) {
        let at = slot(d, key);
        assert(first[at].0 == key);
        lemma_slot_unique(first, key, at);
        assert(with_entry(first, key, b) =~= with_entry(d, key, b));
    } else {
        let at = d.len() as int;
        assert(first[at].0 == key);
        lemma_slot_unique(first, key, at);
        assert(with_entry(first, key, b) =~= with_entry(d, key, b));
    }
}

/// Storing twice under one identifier is storing the second object once.
pub proof fn lemma_objects_with_twice(objs: Seq<(ObjectId, Value)>, id: ObjectId, a: Value, b: Value)
    requires
        ids_ascending(objs),
    ensures
        objects_with(objects_with(objs, id, a), id, b) == objects_with(objs, id, b),
{
    lemma_objects_with(objs, id, a);
    let first = objects_with(objs, id, a);
    if has_id(objs, id) {
        let at = index_of(objs, id);
        assert(first[at].0 == id);
        lemma_index_unique(first, id, at);
        assert(objects_with(first, id, b) =~= objects_with(objs, id, b));
    } else {
        crate::document::lemma_rank_exists(objs, id);
        let at = crate::document::rank(objs, id);
        assert(first[at].0 == id);
        lemma_index_unique(first, id, at);
        assert(objects_with(first, id, b) =~= objects_with(objs, id, b));
    }
}

/// Turning a page by 90 degrees twice leaves the document as turning the
/// page by 180 degrees once does.
pub proof fn law_quarter_turns_of_a_page(doc: DocumentView, id: ObjectId)
    requires
        doc.well_formed(),
        with_page_rotated(doc, id, 90) is Some,
    ensures
        with_page_rotated(doc, id, 180) is Some,
        with_page_rotated(with_page_rotated(doc, id, 90)->0, id, 90) == with_page_rotated(
            doc,
            id,
            180,
        ),
{
    let end = resolve(doc.objects, id)->0;
    let page = doc.get(id)->0->Dict_0;
    let r0 = rotation_of(page);
    let r1 = rotated(r0, 90);
    let once = with_page_rotated(doc, id, 90)->0;
    let page1 = with_entry(page, name("Rotate"), Value::Integer(r1));
    lemma_resolve_end(doc.objects, id, DEREF_LIMIT as nat);
    assert(object_at(doc.objects, end) == Some(Value::Dict(page)));
    let k = index_of(doc.objects, end);
    assert(doc.objects[k].1 == Value::Dict(page));
    assert(names_distinct(page)) by {
        assert(crate::document::top_dict(doc.objects[k].1) == Some(page));
    }
    lemma_with_entry(page, name("Rotate"), Value::Integer(r1));
    lemma_objects_with(doc.objects, end, Value::Dict(page1));
    lemma_links_kept(doc.objects, end, Value::Dict(page1));
    lemma_resolve_preserved(doc.objects, once.objects, id, DEREF_LIMIT as nat);
    assert(resolve(once.objects, id) == Some(end));
    assert(once.get(id) == Some(Value::Dict(page1)));
    assert(rotation_of(page1) == r1);
    law_quarter_turns_add(r0);
    lemma_with_entry_twice(
        page,
        name("Rotate"),
        Value::Integer(r1),
        Value::Integer(rotated(r1, 90)),
    );
    lemma_objects_with_twice(
        doc.objects,
        end,
        Value::Dict(page1),
        Value::Dict(with_entry(page, name("Rotate"), Value::Integer(rotated(r0, 180)))),
    );
    assert(once.max_id == doc.max_id) by {
        assert(doc.objects[k].0.0 <= doc.max_id);
    }
}

/// After bookmarks are added to a document that has a catalog, the document
/// has bookmarks; after they are removed again, it has none.
pub proof fn law_bookmarks_added_then_removed(doc: DocumentView, items: Seq<(Seq<char>, ObjectId)>)
    requires
        doc.well_formed(),
        can_add_outline(doc, items.len()),
    ensures
        has_outlines(with_outline(doc, items)),
        !has_outlines(without_outlines(with_outline(doc, items))),
        names_distinct(doc.catalog()->0),
        with_outline(doc, items).catalog() == Some(
            with_entry(
                doc.catalog()->0,
                name("Outlines"),
                Value::Reference(outline_root_id(doc)),
            ),
        ),
{
    let cid = doc.catalog_id()->0;
    let cat = doc.catalog()->0;
    let marked = with_entry(cat, name("Outlines"), Value::Reference(outline_root_id(doc)));
    let stored = objects_with(doc.objects, cid, Value::Dict(marked));
    let extra = outline_objects(doc, items);
    let added = with_outline(doc, items);
    let k = index_of(doc.objects, cid);
    assert(object_at(doc.objects, cid) == Some(Value::Dict(cat)));
    assert(doc.objects[k].1 == Value::Dict(cat));
    assert(names_distinct(cat)) by {
        assert(crate::document::top_dict(doc.objects[k].1) == Some(cat));
    }
    lemma_with_entry(cat, name("Outlines"), Value::Reference(outline_root_id(doc)));
    lemma_objects_with(doc.objects, cid, Value::Dict(marked));
    lemma_links_kept(doc.objects, cid, Value::Dict(marked));
    lemma_outline_order(doc, items);
    assert forall|x: ObjectId| has_id(doc.objects, x) implies #[trigger] link(added.objects, x)
        == link(doc.objects, x) by {
        assert(has_id(stored, x));
        lemma_objects_appended(stored, extra, x);
    }
    assert(has_id(stored, cid));
    lemma_objects_appended(stored, extra, cid);
    lemma_catalog_kept(doc, added);
    assert(added.catalog() == Some(marked));
    assert(has_name(marked, name("Outlines")));

    let removed = without_outlines(added);
    let cleared = without_entry(marked, name("Outlines"));
    lemma_without_entry(marked, name("Outlines"));
    lemma_objects_with(added.objects, cid, Value::Dict(cleared));
    lemma_links_kept(added.objects, cid, Value::Dict(cleared));
    lemma_catalog_kept(added, removed);
    assert(removed.catalog() == Some(cleared));
}

/// The objects of a document with its catalog replaced, followed by the
/// objects of an outline, ascend.
pub proof fn lemma_outline_order(doc: DocumentView, items: Seq<(Seq<char>, ObjectId)>)
    requires
        doc.well_formed(),
        can_add_outline(doc, items.len()),
    ensures
        ids_ascending(with_outline(doc, items).objects),
{
    let cid = doc.catalog_id()->0;
    let cat = doc.catalog()->0;
    let marked = with_entry(cat, name("Outlines"), Value::Reference(outline_root_id(doc)));
    let stored = objects_with(doc.objects, cid, Value::Dict(marked));
    let extra = outline_objects(doc, items);
    let all = stored + extra;
    lemma_objects_with(doc.objects, cid, Value::Dict(marked));
    assert(stored.len() == doc.objects.len());
    assert forall|i: int, j: int| 0 <= i < j < all.len() implies crate::document::id_less(
        (#[trigger] all[i]).0,
        (#[trigger] all[j]).0,
    ) by {
        let n = stored.len() as int;
        if j < n {
            assert(crate::document::id_less(stored[i].0, stored[j].0));
        } else if i >= n {
            assert(all[i] == extra[i - n]);
            assert(all[j] == extra[j - n]);
        } else {
            assert(all[i] == stored[i]);
            assert(all[j] == extra[j - n]);
            assert(has_id(stored, stored[i].0));
            assert(has_id(doc.objects, stored[i].0));
            let m = index_of(doc.objects, stored[i].0);
            assert(doc.objects[m].0.0 <= doc.max_id);
        }
    }
}

/// After a page tree is replaced, its `Count` is the number of its `Kids`.
pub proof fn law_count_after_replacing(doc: DocumentView, ids: Seq<ObjectId>)
    requires
        doc.well_formed(),
        doc.page_tree() is Some,
        ids.len() <= i64::MAX,
    ensures
        with_pages(doc, ids).kids() is Some,
        count_of(with_pages(doc, ids).page_tree()->0) == with_pages(doc, ids).kids()->0.len(),
{
    let tid = doc.page_tree_id()->0;
    let tree = doc.page_tree()->0;
    let kids = Value::Array(references_to(ids));
    let count = Value::Integer(ids.len() as i64);
    let first = with_entry(tree, name("Kids"), kids);
    let new_tree = with_entry(first, name("Count"), count);
    crate::names::lemma_tree_names_differ();
    crate::merge::closure::lemma_stored_names(doc, tid);
    lemma_with_entry(tree, name("Kids"), kids);
    lemma_with_entry(first, name("Count"), count);
    assert(lookup(new_tree, name("Pages")) == lookup(first, name("Pages")));
    assert(lookup(first, name("Pages")) == lookup(tree, name("Pages")));
    assert(lookup(new_tree, name("Kids")) == lookup(first, name("Kids")));
    crate::merge::paging::lemma_dict_replaced(doc, tid, new_tree);
}

/// Where the `Count` of a page tree is the number of its `Kids`, it is so
/// again after pages are appended.
pub proof fn law_count_after_appending(doc: DocumentView, ids: Seq<ObjectId>)
    requires
        doc.well_formed(),
        can_add_pages(doc, ids),
        count_of(doc.page_tree()->0) == doc.kids()->0.len(),
    ensures
        with_pages_added(doc, ids).kids() is Some,
        count_of(with_pages_added(doc, ids).page_tree()->0) == with_pages_added(
            doc,
            ids,
        ).kids()->0.len(),
{
    let tid = doc.page_tree_id()->0;
    let tree = doc.page_tree()->0;
    let kids = Value::Array(doc.kids()->0 + references_to(ids));
    let count = Value::Integer((count_of(tree) + ids.len()) as i64);
    let first = with_entry(tree, name("Kids"), kids);
    let new_tree = with_entry(first, name("Count"), count);
    crate::names::lemma_tree_names_differ();
    crate::merge::closure::lemma_stored_names(doc, tid);
    lemma_with_entry(tree, name("Kids"), kids);
    lemma_with_entry(first, name("Count"), count);
    assert(lookup(new_tree, name("Pages")) == lookup(first, name("Pages")));
    assert(lookup(first, name("Pages")) == lookup(tree, name("Pages")));
    assert(lookup(new_tree, name("Kids")) == lookup(first, name("Kids")));
    crate::merge::paging::lemma_dict_replaced(doc, tid, new_tree);
}

/// The loads that are left are the successful ones: as many as there are
/// results, less the failed.
pub proof fn law_survivors_counted(results: Seq<Result<LoadedPdf, PdfCatError>>)
    ensures
        survivors(results).len() == successes(results),
        successes(results) <= results.len(),
    decreases results.len(),
{
    if results.len() > 0 {
        law_survivors_counted(results.drop_last());
    }
}

/// Where no load failed, every load is left, in order.
pub proof fn law_all_loaded_survive(results: Seq<Result<LoadedPdf, PdfCatError>>)
    requires
        forall|i: int| 0 <= i < results.len() ==> (#[trigger] results[i]) is Ok,
    ensures
        !any_failed(results),
        survivors(results).len() == results.len(),
        forall|i: int|
            0 <= i < results.len() ==> (#[trigger] survivors(results)[i]) == results[i]->Ok_0,
    decreases results.len(),
{
    if results.len() > 0 {
        let front = results.drop_last();
        assert forall|i: int| 0 <= i < front.len() implies (#[trigger] front[i]) is Ok by {
            assert(front[i] == results[i]);
        }
        law_all_loaded_survive(front);
        assert(results.last() == results[results.len() - 1]);
        assert forall|i: int| 0 <= i < results.len() implies (#[trigger] survivors(results)[i])
            == results[i]->Ok_0 by {
            if i < front.len() {
                assert(survivors(results)[i] == survivors(front)[i]);
                assert(front[i] == results[i]);
            }
        }
    }
}

} // verus!
