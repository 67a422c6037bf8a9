//! Closed documents: documents in which every reference is to an object
//! that is stored, and that the operations of the merge keep them so.

use crate::document::{
    has_id, id_less, ids_ascending, index_of, lemma_index_unique, lemma_objects_with,
    lemma_stored_kept, object_at, objects_with, references_in, references_to, top_dict,
    DocumentView,
};
use crate::config::Metadata;
use crate::merge::bookmarks::{
    can_add_outline, destination, outline_item, outline_item_id, outline_objects, outline_root,
    outline_root_id, with_outline,
};
use crate::merge::compact::{
    compressed, compressed_value, compressible, entries_refer, is_path, items_refer,
    lemma_path_extended, pruned, reachable, value_refers,
};
use crate::config::{pages_upto, PageRangeItem, Rotation};
use crate::merge::bookmarks::{bookmark_targets, lemma_target_in_range, pages_per_file};
use crate::merge::merger::{
    absorbed, bookmarked, combined, compacted, extracted, joined, merge_plan, prepared,
    range_items, stamped,
};
use crate::merge::pages::{lemma_pages_upto_bounds, selected};
use crate::config::{CompressionLevel, Config};
use std::path::PathBuf;
use crate::merge::metadata::{
    can_set_metadata, info_after, info_before, info_id, info_place, info_ref, text_value,
    with_field, with_metadata,
};
use crate::merge::pages::{can_add_pages, count_of, with_pages_added};
use crate::merge::pages::{
    rotated, rotation_of, tree_with, with_page_rotated, with_pages, with_pages_rotated,
};
use crate::merge::renumber::{
    ascending, can_renumber, ids_of, lemma_renumbered_names, listed, place_of, renumbered,
    renumbered_entries, renumbered_id, renumbered_value,
};
use crate::object::name;
use crate::document::{lemma_resolve_end, resolve, DEREF_LIMIT};
use crate::object::{
    has_name, lemma_with_entry, names_distinct, slot, with_entry, ObjectId, Value,
};
use vstd::prelude::*;

verus! {

/// Every reference in the trailer and in the objects of the document is to
/// an object that the document stores.
pub open spec fn closed(doc: DocumentView) -> bool {
    &&& forall|id: ObjectId| #[trigger]
        entries_refer(doc.trailer, id) ==> has_id(doc.objects, id)
    &&& forall|k: int, id: ObjectId|
        0 <= k < doc.objects.len() && #[trigger] value_refers(doc.objects[k].1, id) ==> has_id(
            doc.objects,
            id,
        )
}

/// A document that is well formed and closed.
pub open spec fn sound(doc: DocumentView) -> bool {
    doc.well_formed() && closed(doc)
}

/// The entries refer to what one of their values refers to.
pub proof fn lemma_entry_refers(d: Seq<(Seq<u8>, Value)>, i: int, id: ObjectId)
    requires
        0 <= i < d.len(),
        value_refers(d[i].1, id),
    ensures
        entries_refer(d, id),
    decreases d.len(),
{
    if i == d.len() - 1 {
        assert(d.last() == d[i]);
        assert(value_refers(d.last().1, id));
    } else {
        assert(d.drop_last()[i] == d[i]);
        lemma_entry_refers(d.drop_last(), i, id);
        assert(entries_refer(d.drop_last(), id));
    }
}

/// What the entries refer to, one of their values refers to.
pub proof fn lemma_refers_entry(d: Seq<(Seq<u8>, Value)>, id: ObjectId) -> (i: int)
    requires
        entries_refer(d, id),
    ensures
        0 <= i < d.len(),
        value_refers(d[i].1, id),
    decreases d.len(),
{
    if value_refers(d.last().1, id) {
        d.len() - 1
    } else {
        assert(entries_refer(d.drop_last(), id));
        let i = lemma_refers_entry(d.drop_last(), id);
        assert(d.drop_last()[i] == d[i]);
        i
    }
}

/// The items refer to what one of them refers to.
pub proof fn lemma_item_refers(a: Seq<Value>, i: int, id: ObjectId)
    requires
        0 <= i < a.len(),
        value_refers(a[i], id),
    ensures
        items_refer(a, id),
    decreases a.len(),
{
    if i == a.len() - 1 {
        assert(a.last() == a[i]);
        assert(value_refers(a.last(), id));
    } else {
        assert(a.drop_last()[i] == a[i]);
        lemma_item_refers(a.drop_last(), i, id);
        assert(items_refer(a.drop_last(), id));
    }
}

/// What the items refer to, one of them refers to.
pub proof fn lemma_refers_item(a: Seq<Value>, id: ObjectId) -> (i: int)
    requires
        items_refer(a, id),
    ensures
        0 <= i < a.len(),
        value_refers(a[i], id),
    decreases a.len(),
{
    if value_refers(a.last(), id) {
        a.len() - 1
    } else {
        assert(items_refer(a.drop_last(), id));
        let i = lemma_refers_item(a.drop_last(), id);
        assert(a.drop_last()[i] == a[i]);
        i
    }
}

/// After storing a value under a name, the entries refer to nothing but
/// what they referred to before and what the value refers to.
pub proof fn lemma_with_entry_refers(
    d: Seq<(Seq<u8>, Value)>,
    key: Seq<u8>,
    v: Value,
    id: ObjectId,
)
    requires
        entries_refer(with_entry(d, key, v), id),
    ensures
        entries_refer(d, id) || value_refers(v, id),
{
    let w = with_entry(d, key, v);
    let i = lemma_refers_entry(w, id);
    if has_name(d, key) {
        if i == slot(d, key) {
            assert(w[i].1 == v);
        } else {
            assert(w[i] == d[i]);
            lemma_entry_refers(d, i, id);
        }
    } else {
        if i == d.len() {
            assert(w[i].1 == v);
        } else {
            assert(w[i] == d[i]);
            lemma_entry_refers(d, i, id);
        }
    }
}

/// An array of references to `ids` refers to nothing but `ids`.
pub proof fn lemma_references_to_refer(ids: Seq<ObjectId>, id: ObjectId) -> (i: int)
    requires
        items_refer(references_to(ids), id),
    ensures
        0 <= i < ids.len(),
        ids[i] == id,
{
    let i = lemma_refers_item(references_to(ids), id);
    assert(references_to(ids)[i] == Value::Reference(ids[i]));
    i
}

/// The kids refer to each of the identifiers that their references hold.
pub proof fn lemma_references_in_refer(kids: Seq<Value>, i: int)
    requires
        0 <= i < references_in(kids).len(),
    ensures
        items_refer(kids, references_in(kids)[i]),
    decreases kids.len(),
{
    let id = references_in(kids)[i];
    let front = kids.drop_last();
    match kids.last() {
        Value::Reference(r) => {
            if i == references_in(front).len() {
                assert(value_refers(kids.last(), id));
            } else {
                lemma_references_in_refer(front, i);
                assert(items_refer(front, id));
            }
        },
        _ => {
            lemma_references_in_refer(front, i);
            assert(items_refer(front, id));
        },
    }
}

/// The object stored under an identifier, by its position.
pub proof fn lemma_object_at_position(objs: Seq<(ObjectId, Value)>, id: ObjectId) -> (k: int)
    requires
        has_id(objs, id),
    ensures
        0 <= k < objs.len(),
        objs[k].0 == id,
        object_at(objs, id) == Some(objs[k].1),
        k == index_of(objs, id),
{
    index_of(objs, id)
}

/// Storing a value whose references are stored, or are to the value itself,
/// keeps a document closed.
pub proof fn lemma_stored_closed(doc: DocumentView, id: ObjectId, v: Value)
    requires
        sound(doc),
        match top_dict(v) {
            Some(d) => names_distinct(d),
            None => true,
        },
        forall|x: ObjectId| #[trigger] value_refers(v, x) ==> x == id || has_id(doc.objects, x),
    ensures
        sound(doc.with_object(id, v)),
{
    let after = doc.with_object(id, v);
    lemma_objects_with(doc.objects, id, v);
    lemma_stored_kept(doc, id, v);
    assert forall|x: ObjectId| #[trigger] entries_refer(after.trailer, x) implies has_id(
        after.objects,
        x,
    ) by {
        assert(has_id(doc.objects, x));
    }
    assert forall|k: int, x: ObjectId|
        0 <= k < after.objects.len() && #[trigger] value_refers(
            after.objects[k].1,
            x,
        ) implies has_id(after.objects, x) by {
        let here = after.objects[k].0;
        lemma_index_unique(after.objects, here, k);
        if here == id {
            assert(after.objects[k].1 == v);
            assert(value_refers(v, x));
        } else {
            assert(has_id(after.objects, here));
            assert(has_id(doc.objects, here));
            assert(object_at(after.objects, here) == object_at(doc.objects, here));
            assert(object_at(after.objects, here) == Some(after.objects[k].1));
            let j = lemma_object_at_position(doc.objects, here);
            assert(doc.objects[j].1 == after.objects[k].1);
            assert(value_refers(doc.objects[j].1, x));
            assert(has_id(doc.objects, x));
        }
    }
}

/// What the object stored under an identifier refers to is stored, in a
/// closed document.
pub proof fn lemma_closed_object(doc: DocumentView, id: ObjectId, x: ObjectId)
    requires
        closed(doc),
        has_id(doc.objects, id),
        value_refers(object_at(doc.objects, id)->0, x),
    ensures
        has_id(doc.objects, x),
{
    let k = lemma_object_at_position(doc.objects, id);
    assert(value_refers(doc.objects[k].1, x));
}

/// The names of the dictionary stored under an identifier are distinct, in
/// a well-formed document.
pub proof fn lemma_stored_names(doc: DocumentView, id: ObjectId)
    requires
        doc.well_formed(),
        object_at(doc.objects, id) is Some,
        object_at(doc.objects, id)->0 is Dict,
    ensures
        names_distinct(object_at(doc.objects, id)->0->Dict_0),
{
    let k = lemma_object_at_position(doc.objects, id);
    assert(top_dict(doc.objects[k].1) == Some(object_at(doc.objects, id)->0->Dict_0));
}

/// Each page of a closed document is stored.
pub proof fn lemma_pages_stored(doc: DocumentView, i: int)
    requires
        closed(doc),
        0 <= i < doc.pages().len(),
    ensures
        has_id(doc.objects, doc.pages()[i]),
{
    let tid = doc.page_tree_id()->0;
    let tree = doc.page_tree()->0;
    let kids = doc.kids()->0;
    let page = doc.pages()[i];
    lemma_references_in_refer(kids, i);
    let at = slot(tree, name("Kids"));
    assert(tree[at].1 == Value::Array(kids));
    assert(value_refers(tree[at].1, page));
    lemma_entry_refers(tree, at, page);
    assert(value_refers(Value::Dict(tree), page));
    assert(has_id(doc.objects, tid));
    lemma_closed_object(doc, tid, page);
}

/// Replacing the page tree by references to stored objects keeps a document
/// sound.
pub proof fn lemma_with_pages_sound(doc: DocumentView, ids: Seq<ObjectId>)
    requires
        sound(doc),
        doc.page_tree() is Some,
        forall|i: int| 0 <= i < ids.len() ==> has_id(doc.objects, #[trigger] ids[i]),
    ensures
        sound(with_pages(doc, ids)),
{
    let tid = doc.page_tree_id()->0;
    let tree = doc.page_tree()->0;
    let kids = Value::Array(references_to(ids));
    let count = Value::Integer(ids.len() as i64);
    let first = with_entry(tree, name("Kids"), kids);
    let new_tree = tree_with(tree, references_to(ids), ids.len() as i64);
    lemma_stored_names(doc, tid);
    lemma_with_entry(tree, name("Kids"), kids);
    lemma_with_entry(first, name("Count"), count);
    assert forall|x: ObjectId| #[trigger] value_refers(Value::Dict(new_tree), x) implies x == tid
        || has_id(doc.objects, x) by {
        assert(entries_refer(new_tree, x));
        lemma_with_entry_refers(first, name("Count"), count, x);
        assert(!value_refers(count, x));
        lemma_with_entry_refers(tree, name("Kids"), kids, x);
        if entries_refer(tree, x) {
            assert(value_refers(Value::Dict(tree), x));
            lemma_closed_object(doc, tid, x);
        } else {
            assert(items_refer(references_to(ids), x));
            let i = lemma_references_to_refer(ids, x);
        }
    }
    lemma_stored_closed(doc, tid, Value::Dict(new_tree));
}

/// Turning a page keeps a document sound.
pub proof fn lemma_page_rotated_sound(doc: DocumentView, id: ObjectId, degrees: i64)
    requires
        sound(doc),
        with_page_rotated(doc, id, degrees) is Some,
    ensures
        sound(with_page_rotated(doc, id, degrees)->0),
{
    let end = resolve(doc.objects, id)->0;
    let page = doc.get(id)->0->Dict_0;
    let turned = Value::Integer(rotated(rotation_of(page), degrees));
    let new_page = with_entry(page, name("Rotate"), turned);
    lemma_resolve_end(doc.objects, id, DEREF_LIMIT as nat);
    lemma_stored_names(doc, end);
    lemma_with_entry(page, name("Rotate"), turned);
    assert forall|x: ObjectId| #[trigger] value_refers(Value::Dict(new_page), x) implies x == end
        || has_id(doc.objects, x) by {
        assert(entries_refer(new_page, x));
        lemma_with_entry_refers(page, name("Rotate"), turned, x);
        assert(!value_refers(turned, x));
        assert(value_refers(Value::Dict(page), x));
        lemma_closed_object(doc, end, x);
    }
    lemma_stored_closed(doc, end, Value::Dict(new_page));
}

/// Turning pages one after the other keeps a document sound.
pub proof fn lemma_pages_rotated_sound(doc: DocumentView, ids: Seq<ObjectId>, degrees: i64)
    requires
        sound(doc),
    ensures
        sound(with_pages_rotated(doc, ids, degrees).0),
    decreases ids.len(),
{
    if ids.len() > 0 {
        lemma_pages_rotated_sound(doc, ids.drop_last(), degrees);
        let (before, ok) = with_pages_rotated(doc, ids.drop_last(), degrees);
        if ok && with_page_rotated(before, ids.last(), degrees) is Some {
            lemma_page_rotated_sound(before, ids.last(), degrees);
        }
    }
}

/// Compressing the streams keeps a document sound.
pub proof fn lemma_compressed_sound(doc: DocumentView)
    requires
        sound(doc),
    ensures
        sound(compressed(doc)),
{
    let after = compressed(doc);
    assert forall|i: int, j: int| 0 <= i < j < after.objects.len() implies id_less(
        (#[trigger] after.objects[i]).0,
        (#[trigger] after.objects[j]).0,
    ) by {
        assert(id_less(doc.objects[i].0, doc.objects[j].0));
    }
    assert forall|i: int| 0 <= i < after.objects.len() implies (#[trigger] after.objects[i]).0.0
        <= after.max_id && match top_dict(after.objects[i].1) {
        Some(d) => names_distinct(d),
        None => true,
    } by {
        assert(doc.objects[i].0.0 <= doc.max_id);
        let v = doc.objects[i].1;
        assert(match top_dict(v) {
            Some(d) => names_distinct(d),
            None => true,
        });
        match v {
            Value::Stream(d, content, allowed) => {
                if compressible(d, content, allowed) {
                    let filter = Value::Name(name("FlateDecode"));
                    lemma_with_entry(d, name("Filter"), filter);
                    lemma_with_entry(
                        with_entry(d, name("Filter"), filter),
                        name("Length"),
                        Value::Integer(crate::merge::compact::deflated(content).len() as i64),
                    );
                }
            },
            _ => {},
        }
    }
    assert forall|x: ObjectId| has_id(doc.objects, x) implies has_id(after.objects, x) by {
        let k = index_of(doc.objects, x);
        assert(after.objects[k].0 == x);
    }
    assert forall|k: int, x: ObjectId|
        0 <= k < after.objects.len() && #[trigger] value_refers(
            after.objects[k].1,
            x,
        ) implies has_id(after.objects, x) by {
        let v = doc.objects[k].1;
        assert(after.objects[k].1 == compressed_value(v));
        match v {
            Value::Stream(d, content, allowed) => {
                if compressible(d, content, allowed) {
                    let filter = Value::Name(name("FlateDecode"));
                    let length = Value::Integer(
                        crate::merge::compact::deflated(content).len() as i64,
                    );
                    let first = with_entry(d, name("Filter"), filter);
                    assert(entries_refer(with_entry(first, name("Length"), length), x));
                    lemma_with_entry_refers(first, name("Length"), length, x);
                    assert(!value_refers(length, x));
                    lemma_with_entry_refers(d, name("Filter"), filter, x);
                    assert(!value_refers(filter, x));
                    assert(value_refers(v, x));
                }
            },
            _ => {},
        }
        assert(value_refers(doc.objects[k].1, x));
        assert(has_id(doc.objects, x));
    }
    assert forall|x: ObjectId| #[trigger] entries_refer(after.trailer, x) implies has_id(
        after.objects,
        x,
    ) by {
        assert(has_id(doc.objects, x));
    }
}

/// The identifiers of the objects are listed where they are stored, at the
/// same position.
pub proof fn lemma_ids_listed(objs: Seq<(ObjectId, Value)>, id: ObjectId)
    requires
        ids_ascending(objs),
    ensures
        listed(ids_of(objs), id) == has_id(objs, id),
        has_id(objs, id) ==> place_of(ids_of(objs), id) == index_of(objs, id),
{
    let ids = ids_of(objs);
    if has_id(objs, id) {
        let k = index_of(objs, id);
        assert(ids[k] == id);
        let p = place_of(ids, id);
        assert(objs[p].0 == id);
        lemma_index_unique(objs, id, p);
    }
    if listed(ids, id) {
        let p = place_of(ids, id);
        assert(objs[p].0 == id);
    }
}

/// What a renumbered value refers to is the new identifier of something
/// that the value referred to.
pub proof fn lemma_renumbered_refers(ids: Seq<ObjectId>, start: u32, v: Value, to: ObjectId) -> (from:
    ObjectId)
    requires
        value_refers(renumbered_value(ids, start, v), to),
    ensures
        value_refers(v, from),
        renumbered_id(ids, start, from) == to,
    decreases v,
{
    match v {
        Value::Reference(r) => r,
        Value::Array(a) => {
            let moved = renumbered_value(ids, start, v)->Array_0;
            assert(items_refer(moved, to));
            let i = lemma_refers_item(moved, to);
            assert(moved[i] == renumbered_value(ids, start, a[i]));
            assert(decreases_to!(v => v->Array_0));
            assert(decreases_to!(v->Array_0 => v->Array_0[i]));
            let from = lemma_renumbered_refers(ids, start, a[i], to);
            lemma_item_refers(a, i, from);
            assert(value_refers(v, from));
            from
        },
        Value::Dict(d) => {
            assert(entries_refer(renumbered_entries(ids, start, d), to));
            assert(decreases_to!(v => v->Dict_0));
            let from = lemma_renumbered_entries_refer(ids, start, d, to);
            assert(value_refers(v, from));
            from
        },
        Value::Stream(d, _, _) => {
            assert(entries_refer(renumbered_entries(ids, start, d), to));
            assert(decreases_to!(v => v->Stream_0));
            let from = lemma_renumbered_entries_refer(ids, start, d, to);
            assert(value_refers(v, from));
            from
        },
        _ => to,
    }
}

/// What renumbered entries refer to is the new identifier of something
/// that the entries referred to.
pub proof fn lemma_renumbered_entries_refer(
    ids: Seq<ObjectId>,
    start: u32,
    d: Seq<(Seq<u8>, Value)>,
    to: ObjectId,
) -> (from: ObjectId)
    requires
        entries_refer(renumbered_entries(ids, start, d), to),
    ensures
        entries_refer(d, from),
        renumbered_id(ids, start, from) == to,
    decreases d,
{
    let moved = renumbered_entries(ids, start, d);
    let i = lemma_refers_entry(moved, to);
    assert(moved[i].1 == renumbered_value(ids, start, d[i].1));
    assert(decreases_to!(d => d[i]));
    assert(decreases_to!(d[i] => d[i].1));
    let from = lemma_renumbered_refers(ids, start, d[i].1, to);
    lemma_entry_refers(d, i, from);
    from
}

/// Renumbering keeps a document sound.
pub proof fn lemma_renumbered_sound(doc: DocumentView, start: u32)
    requires
        sound(doc),
        can_renumber(doc, start),
    ensures
        sound(renumbered(doc, start)),
{
    let ids = ids_of(doc.objects);
    let after = renumbered(doc, start);
    lemma_renumbered_names(ids, start, doc.trailer);
    assert forall|i: int| 0 <= i < after.objects.len() implies (#[trigger] after.objects[i]).0.0
        <= after.max_id && match top_dict(after.objects[i].1) {
        Some(d) => names_distinct(d),
        None => true,
    } by {
        let v = doc.objects[i].1;
        assert(match top_dict(v) {
            Some(d) => names_distinct(d),
            None => true,
        });
        match top_dict(v) {
            Some(d) => {
                lemma_renumbered_names(ids, start, d);
            },
            None => {},
        }
    }
    assert forall|x: ObjectId, from: ObjectId|
        has_id(doc.objects, from) && renumbered_id(ids, start, from) == x implies has_id(
        after.objects,
        x,
    ) by {
        lemma_ids_listed(doc.objects, from);
        let p = place_of(ids, from);
        assert(ids[p] == from);
        assert(after.objects[p].0 == x);
    }
    assert forall|x: ObjectId| #[trigger] entries_refer(after.trailer, x) implies has_id(
        after.objects,
        x,
    ) by {
        let from = lemma_renumbered_entries_refer(ids, start, doc.trailer, x);
        assert(has_id(doc.objects, from));
    }
    assert forall|k: int, x: ObjectId|
        0 <= k < after.objects.len() && #[trigger] value_refers(
            after.objects[k].1,
            x,
        ) implies has_id(after.objects, x) by {
        let from = lemma_renumbered_refers(ids, start, doc.objects[k].1, x);
        assert(value_refers(doc.objects[k].1, from));
        assert(has_id(doc.objects, from));
    }
}

/// The objects of a renumbered document carry the numbers from the start
/// on.
pub proof fn lemma_renumbered_numbers(doc: DocumentView, start: u32, k: int)
    requires
        can_renumber(doc, start),
        0 <= k < doc.objects.len(),
    ensures
        renumbered(doc, start).objects[k].0.0 == start + k,
{
}

/// An object of the first part or of the second part is an object of the
/// two parts joined.
pub proof fn lemma_joined_has(a: Seq<(ObjectId, Value)>, b: Seq<(ObjectId, Value)>, id: ObjectId)
    requires
        has_id(a, id) || has_id(b, id),
    ensures
        has_id(a + b, id),
{
    if has_id(a, id) {
        let i = index_of(a, id);
        assert((a + b)[i] == a[i]);
    } else {
        let i = index_of(b, id);
        assert((a + b)[a.len() + i] == b[i]);
    }
}

/// The objects of a source that is renumbered above the watermark of a
/// base, joined to the objects of the base, make a sound document.
pub proof fn lemma_joined_sound(base: DocumentView, source: DocumentView)
    requires
        sound(base),
        sound(source),
        base.max_id < u32::MAX,
        can_renumber(source, (base.max_id + 1) as u32),
    ensures
        sound(joined(base, source)),
        sound(renumbered(source, (base.max_id + 1) as u32)),
{
    let start = (base.max_id + 1) as u32;
    let moved = renumbered(source, start);
    let all = joined(base, source);
    let n = base.objects.len() as int;
    lemma_renumbered_sound(source, start);
    assert forall|i: int, j: int| 0 <= i < j < all.objects.len() implies id_less(
        (#[trigger] all.objects[i]).0,
        (#[trigger] all.objects[j]).0,
    ) by {
        if j < n {
            assert(id_less(base.objects[i].0, base.objects[j].0));
        } else if i >= n {
            assert(id_less(moved.objects[i - n].0, moved.objects[j - n].0));
        } else {
            assert(base.objects[i].0.0 <= base.max_id);
            lemma_renumbered_numbers(source, start, j - n);
        }
    }
    assert forall|i: int| 0 <= i < all.objects.len() implies (#[trigger] all.objects[i]).0.0
        <= all.max_id && match top_dict(all.objects[i].1) {
        Some(d) => names_distinct(d),
        None => true,
    } by {
        if i < n {
            assert(all.objects[i] == base.objects[i]);
            assert(base.objects[i].0.0 <= base.max_id);
        } else {
            assert(all.objects[i] == moved.objects[i - n]);
            assert(moved.objects[i - n].0.0 <= moved.max_id);
        }
    }
    assert forall|x: ObjectId| #[trigger] entries_refer(all.trailer, x) implies has_id(
        all.objects,
        x,
    ) by {
        assert(has_id(base.objects, x));
        lemma_joined_has(base.objects, moved.objects, x);
    }
    assert forall|k: int, x: ObjectId|
        0 <= k < all.objects.len() && #[trigger] value_refers(all.objects[k].1, x) implies has_id(
        all.objects,
        x,
    ) by {
        if k < n {
            assert(all.objects[k] == base.objects[k]);
            assert(value_refers(base.objects[k].1, x));
            assert(has_id(base.objects, x));
        } else {
            assert(all.objects[k] == moved.objects[k - n]);
            assert(value_refers(moved.objects[k - n].1, x));
            assert(has_id(moved.objects, x));
        }
        lemma_joined_has(base.objects, moved.objects, x);
    }
}

/// Appending references to stored objects to the page tree keeps a
/// document sound.
pub proof fn lemma_pages_added_sound(doc: DocumentView, ids: Seq<ObjectId>)
    requires
        sound(doc),
        can_add_pages(doc, ids),
        forall|i: int| 0 <= i < ids.len() ==> has_id(doc.objects, #[trigger] ids[i]),
    ensures
        sound(with_pages_added(doc, ids)),
{
    let tid = doc.page_tree_id()->0;
    let tree = doc.page_tree()->0;
    let old_kids = doc.kids()->0;
    let kids = Value::Array(old_kids + references_to(ids));
    let count = Value::Integer((count_of(tree) + ids.len()) as i64);
    let first = with_entry(tree, name("Kids"), kids);
    let new_tree = with_entry(first, name("Count"), count);
    lemma_stored_names(doc, tid);
    lemma_with_entry(tree, name("Kids"), kids);
    lemma_with_entry(first, name("Count"), count);
    assert forall|x: ObjectId| #[trigger] value_refers(Value::Dict(new_tree), x) implies x == tid
        || has_id(doc.objects, x) by {
        assert(entries_refer(new_tree, x));
        lemma_with_entry_refers(first, name("Count"), count, x);
        assert(!value_refers(count, x));
        lemma_with_entry_refers(tree, name("Kids"), kids, x);
        if entries_refer(tree, x) {
            assert(value_refers(Value::Dict(tree), x));
            lemma_closed_object(doc, tid, x);
        } else {
            assert(items_refer(old_kids + references_to(ids), x));
            let i = lemma_refers_item(old_kids + references_to(ids), x);
            if i < old_kids.len() {
                assert((old_kids + references_to(ids))[i] == old_kids[i]);
                lemma_item_refers(old_kids, i, x);
                let at = slot(tree, name("Kids"));
                assert(tree[at].1 == Value::Array(old_kids));
                assert(value_refers(tree[at].1, x));
                lemma_entry_refers(tree, at, x);
                assert(value_refers(Value::Dict(tree), x));
                lemma_closed_object(doc, tid, x);
            } else {
                let m = i - old_kids.len();
                assert((old_kids + references_to(ids))[i] == references_to(ids)[m]);
                assert(references_to(ids)[m] == Value::Reference(ids[m]));
            }
        }
    }
    lemma_stored_closed(doc, tid, Value::Dict(new_tree));
}

/// Absorbing a sound source into a sound base gives a sound document.
pub proof fn lemma_absorbed_sound(base: DocumentView, source: DocumentView)
    requires
        sound(base),
        sound(source),
        absorbed(base, source) is Some,
    ensures
        sound(absorbed(base, source)->0),
{
    let start = (base.max_id + 1) as u32;
    let moved = renumbered(source, start);
    let all = joined(base, source);
    lemma_joined_sound(base, source);
    assert forall|i: int| 0 <= i < moved.pages().len() implies has_id(
        all.objects,
        #[trigger] moved.pages()[i],
    ) by {
        lemma_pages_stored(moved, i);
        lemma_joined_has(base.objects, moved.objects, moved.pages()[i]);
    }
    lemma_pages_added_sound(all, moved.pages());
}

/// The information dictionary after writing refers to nothing but what it
/// referred to before, and its names are distinct.
pub proof fn lemma_info_after(d: Seq<(Seq<u8>, Value)>, m: Metadata, date: Seq<char>)
    requires
        names_distinct(d),
    ensures
        names_distinct(info_after(d, m, date)),
        forall|x: ObjectId| #[trigger]
            entries_refer(info_after(d, m, date), x) ==> entries_refer(d, x),
{
    let a = with_field(d, name("Title"), m.title);
    let b = with_field(a, name("Author"), m.author);
    let c = with_field(b, name("Subject"), m.subject);
    let e = with_field(c, name("Keywords"), m.keywords);
    let f = with_entry(e, name("Creator"), text_value("pdfcat"@));
    let g = with_entry(f, name("Producer"), text_value("pdfcat"@));
    let h = with_entry(g, name("CreationDate"), text_value(date));
    let i = with_entry(h, name("ModDate"), text_value(date));
    lemma_with_field(d, name("Title"), m.title);
    lemma_with_field(a, name("Author"), m.author);
    lemma_with_field(b, name("Subject"), m.subject);
    lemma_with_field(c, name("Keywords"), m.keywords);
    lemma_with_entry(e, name("Creator"), text_value("pdfcat"@));
    lemma_with_entry(f, name("Producer"), text_value("pdfcat"@));
    lemma_with_entry(g, name("CreationDate"), text_value(date));
    lemma_with_entry(h, name("ModDate"), text_value(date));
    assert forall|x: ObjectId| #[trigger] entries_refer(info_after(d, m, date), x) implies entries_refer(
        d,
        x,
    ) by {
        assert(entries_refer(i, x));
        lemma_with_entry_refers(h, name("ModDate"), text_value(date), x);
        assert(!value_refers(text_value(date), x));
        lemma_with_entry_refers(g, name("CreationDate"), text_value(date), x);
        lemma_with_entry_refers(f, name("Producer"), text_value("pdfcat"@), x);
        assert(!value_refers(text_value("pdfcat"@), x));
        lemma_with_entry_refers(e, name("Creator"), text_value("pdfcat"@), x);
        assert(entries_refer(e, x));
        assert(entries_refer(c, x));
        assert(entries_refer(b, x));
        assert(entries_refer(a, x));
    }
}

/// Storing a field keeps the names distinct and adds no reference.
pub proof fn lemma_with_field(d: Seq<(Seq<u8>, Value)>, key: Seq<u8>, field: Option<String>)
    requires
        names_distinct(d),
    ensures
        names_distinct(with_field(d, key, field)),
        forall|x: ObjectId| #[trigger]
            entries_refer(with_field(d, key, field), x) ==> entries_refer(d, x),
{
    match field {
        Some(text) => {
            lemma_with_entry(d, key, text_value(text@));
            assert forall|x: ObjectId| #[trigger]
                entries_refer(with_field(d, key, field), x) implies entries_refer(d, x) by {
                lemma_with_entry_refers(d, key, text_value(text@), x);
                assert(!value_refers(text_value(text@), x));
            }
        },
        None => {},
    }
}

/// Storing a value under a name of the trailer keeps a document sound
/// where what the value refers to is stored.
pub proof fn lemma_trailer_entry_sound(doc: DocumentView, key: Seq<u8>, v: Value)
    requires
        sound(doc),
        forall|x: ObjectId| #[trigger] value_refers(v, x) ==> has_id(doc.objects, x),
    ensures
        sound(DocumentView { trailer: with_entry(doc.trailer, key, v), ..doc }),
{
    lemma_with_entry(doc.trailer, key, v);
    let after = DocumentView { trailer: with_entry(doc.trailer, key, v), ..doc };
    assert forall|x: ObjectId| #[trigger] entries_refer(after.trailer, x) implies has_id(
        after.objects,
        x,
    ) by {
        lemma_with_entry_refers(doc.trailer, key, v, x);
        if entries_refer(doc.trailer, x) {
        } else {
            assert(value_refers(v, x));
        }
    }
    assert forall|k: int, x: ObjectId|
        0 <= k < after.objects.len() && #[trigger] value_refers(
            after.objects[k].1,
            x,
        ) implies has_id(after.objects, x) by {
        assert(value_refers(doc.objects[k].1, x));
    }
}

/// Writing the information keeps a document sound.
pub proof fn lemma_metadata_sound(doc: DocumentView, m: Metadata, date: Seq<char>)
    requires
        sound(doc),
        can_set_metadata(doc),
    ensures
        sound(with_metadata(doc, m, date)),
{
    let id = info_id(doc);
    let place = info_place(doc);
    let before = info_before(doc);
    let v = Value::Dict(info_after(before, m, date));
    match doc.get(id) {
        Some(Value::Dict(d)) => {
            lemma_resolve_end(doc.objects, id, DEREF_LIMIT as nat);
            lemma_stored_names(doc, place);
        },
        _ => {},
    }
    lemma_info_after(before, m, date);
    assert forall|x: ObjectId| #[trigger] value_refers(v, x) implies x == place || has_id(
        doc.objects,
        x,
    ) by {
        assert(entries_refer(info_after(before, m, date), x));
        assert(entries_refer(before, x));
        match doc.get(id) {
            Some(Value::Dict(d)) => {
                assert(value_refers(Value::Dict(d), x));
                lemma_closed_object(doc, place, x);
            },
            _ => {
                assert(before.len() == 0);
            },
        }
    }
    lemma_stored_closed(doc, place, v);
    let stored = doc.with_object(place, v);
    match info_ref(doc) {
        Some(r) => {
            assert(with_metadata(doc, m, date) == stored);
        },
        None => {
            assert(!has_id(doc.objects, id)) by {
                if has_id(doc.objects, id) {
                    let k = index_of(doc.objects, id);
                    assert(doc.objects[k].0.0 <= doc.max_id);
                }
            }
            assert(place == id);
            lemma_objects_with(doc.objects, id, v);
            assert forall|x: ObjectId| #[trigger]
                value_refers(Value::Reference(id), x) implies has_id(stored.objects, x) by {
                assert(x == id);
            }
            lemma_trailer_entry_sound(stored, name("Info"), Value::Reference(id));
            assert(with_metadata(doc, m, date) == (DocumentView {
                trailer: with_entry(stored.trailer, name("Info"), Value::Reference(id)),
                ..stored
            }));
        },
    }
}

/// What a filter keeps of ascending objects ascends; each object kept is
/// one of the objects and meets the filter, and each object that meets the
/// filter is kept.
pub proof fn lemma_filter_kept(
    objs: Seq<(ObjectId, Value)>,
    keep: spec_fn((ObjectId, Value)) -> bool,
)
    requires
        ids_ascending(objs),
    ensures
        ids_ascending(objs.filter(keep)),
        forall|i: int|
            0 <= i < objs.filter(keep).len() ==> keep(#[trigger] objs.filter(keep)[i]) && exists|
                j: int,
            |
                0 <= j < objs.len() && objs[j] == objs.filter(keep)[i],
        forall|j: int|
            0 <= j < objs.len() && keep(#[trigger] objs[j]) ==> exists|i: int|
                0 <= i < objs.filter(keep).len() && objs.filter(keep)[i] == objs[j],
    decreases objs.len(),
{
    reveal(Seq::filter);
    let f = objs.filter(keep);
    if objs.len() > 0 {
        let front = objs.drop_last();
        let last = objs.last();
        let n = objs.len() - 1;
        assert forall|i: int, j: int| 0 <= i < j < front.len() implies id_less(
            (#[trigger] front[i]).0,
            (#[trigger] front[j]).0,
        ) by {
            assert(front[i] == objs[i]);
            assert(front[j] == objs[j]);
        }
        lemma_filter_kept(front, keep);
        let g = front.filter(keep);
        assert forall|i: int| 0 <= i < f.len() implies keep(#[trigger] f[i]) && exists|j: int|
            0 <= j < objs.len() && objs[j] == f[i] by {
            if i < g.len() {
                assert(f[i] == g[i]);
                let j = choose|j: int| 0 <= j < front.len() && front[j] == g[i];
                assert(objs[j] == f[i]);
            } else {
                assert(f[i] == last);
                assert(objs[n] == f[i]);
            }
        }
        assert forall|j: int| 0 <= j < objs.len() && keep(#[trigger] objs[j]) implies exists|
            i: int,
        |
            0 <= i < f.len() && f[i] == objs[j] by {
            if j < n {
                assert(front[j] == objs[j]);
                let i = choose|i: int| 0 <= i < g.len() && g[i] == front[j];
                assert(f[i] == objs[j]);
            } else {
                assert(f[g.len() as int] == objs[j]);
            }
        }
        assert forall|a: int, b: int| 0 <= a < b < f.len() implies id_less(
            (#[trigger] f[a]).0,
            (#[trigger] f[b]).0,
        ) by {
            if b < g.len() {
                assert(f[a] == g[a]);
                assert(f[b] == g[b]);
            } else {
                assert(f[b] == last);
                assert(f[a] == g[a]);
                let j = choose|j: int| 0 <= j < front.len() && front[j] == g[a];
                assert(objs[j] == g[a]);
                assert(id_less(objs[j].0, objs[n].0));
            }
        }
    }
}

/// Removing what is not reachable keeps a document sound.
pub proof fn lemma_pruned_sound(doc: DocumentView)
    requires
        sound(doc),
    ensures
        sound(pruned(doc)),
{
    let keep = |e: (ObjectId, Value)| reachable(doc, e.0);
    let after = pruned(doc);
    let f = after.objects;
    lemma_filter_kept(doc.objects, keep);
    assert forall|i: int| 0 <= i < f.len() implies (#[trigger] f[i]).0.0 <= after.max_id
        && match top_dict(f[i].1) {
        Some(d) => names_distinct(d),
        None => true,
    } by {
        let j = choose|j: int| 0 <= j < doc.objects.len() && doc.objects[j] == f[i];
        assert(doc.objects[j].0.0 <= doc.max_id);
    }
    assert forall|x: ObjectId| has_id(doc.objects, x) && reachable(doc, x) implies has_id(
        f,
        x,
    ) by {
        let j = index_of(doc.objects, x);
        assert(keep(doc.objects[j]));
        let i = choose|i: int| 0 <= i < f.len() && f[i] == doc.objects[j];
        assert(f[i].0 == x);
    }
    assert forall|x: ObjectId| #[trigger] entries_refer(after.trailer, x) implies has_id(f, x) by {
        assert(has_id(doc.objects, x));
        let path = seq![x];
        assert(is_path(doc, path) && path.last() == x);
    }
    assert forall|k: int, x: ObjectId|
        0 <= k < f.len() && #[trigger] value_refers(f[k].1, x) implies has_id(f, x) by {
        let j = choose|j: int| 0 <= j < doc.objects.len() && doc.objects[j] == f[k];
        assert(keep(f[k]));
        assert(value_refers(doc.objects[j].1, x));
        assert(has_id(doc.objects, x));
        let source = doc.objects[j].0;
        lemma_index_unique(doc.objects, source, j);
        let path = choose|path: Seq<ObjectId>| #[trigger]
            is_path(doc, path) && path.last() == source;
        assert(object_at(doc.objects, source) == Some(doc.objects[j].1));
        lemma_path_extended(doc, path, x);
    }
}

/// The destination of a bookmark refers to its page and to nothing else.
pub proof fn lemma_destination_refers(page: ObjectId, x: ObjectId)
    requires
        value_refers(destination(page), x),
    ensures
        x == page,
{
    let items = destination(page)->Array_0;
    assert(items_refer(items, x));
    let i = lemma_refers_item(items, x);
    if i != 0 {
        assert(!value_refers(items[i], x));
    }
}

/// The outline root refers to nothing but the first and the last item, and
/// its names are distinct.
pub proof fn lemma_outline_root(doc: DocumentView, count: int)
    ensures
        names_distinct(outline_root(doc, count)),
        forall|x: ObjectId| #[trigger]
            entries_refer(outline_root(doc, count), x) ==> count > 0 && (x == outline_item_id(
                doc,
                0,
            ) || x == outline_item_id(doc, count - 1)),
{
    let kind = Value::Name(name("Outlines"));
    let number = Value::Integer(count as i64);
    let first = Value::Reference(outline_item_id(doc, 0));
    let last = Value::Reference(outline_item_id(doc, count - 1));
    let none = Seq::<(Seq<u8>, Value)>::empty();
    let a = with_entry(none, name("Type"), kind);
    let b = with_entry(a, name("Count"), number);
    let c = with_entry(b, name("First"), first);
    let e = with_entry(c, name("Last"), last);
    lemma_with_entry(none, name("Type"), kind);
    lemma_with_entry(a, name("Count"), number);
    lemma_with_entry(b, name("First"), first);
    lemma_with_entry(c, name("Last"), last);
    assert forall|x: ObjectId| #[trigger] entries_refer(outline_root(doc, count), x) implies count
        > 0 && (x == outline_item_id(doc, 0) || x == outline_item_id(doc, count - 1)) by {
        if count > 0 {
            assert(entries_refer(e, x));
            lemma_with_entry_refers(c, name("Last"), last, x);
            if !value_refers(last, x) {
                lemma_with_entry_refers(b, name("First"), first, x);
                if !value_refers(first, x) {
                    lemma_with_entry_refers(a, name("Count"), number, x);
                    assert(!value_refers(number, x));
                    lemma_with_entry_refers(none, name("Type"), kind, x);
                    assert(!value_refers(kind, x));
                    assert(!entries_refer(none, x));
                }
            }
        } else {
            assert(entries_refer(b, x));
            lemma_with_entry_refers(a, name("Count"), number, x);
            assert(!value_refers(number, x));
            lemma_with_entry_refers(none, name("Type"), kind, x);
            assert(!value_refers(kind, x));
            assert(!entries_refer(none, x));
        }
    }
}

/// An outline item refers to nothing but the root, its page and the items
/// beside it, and its names are distinct.
pub proof fn lemma_outline_item(
    doc: DocumentView,
    title: Seq<char>,
    page: ObjectId,
    i: int,
    count: int,
)
    ensures
        names_distinct(outline_item(doc, title, page, i, count)),
        forall|x: ObjectId| #[trigger]
            entries_refer(outline_item(doc, title, page, i, count), x) ==> {
                ||| x == outline_root_id(doc)
                ||| x == page
                ||| (i > 0 && x == outline_item_id(doc, i - 1))
                ||| (i < count - 1 && x == outline_item_id(doc, i + 1))
            },
{
    let text = Value::Str(vstd::utf8::encode_utf8(title), crate::object::StringFormat::Literal);
    let parent = Value::Reference(outline_root_id(doc));
    let dest = destination(page);
    let prev = Value::Reference(outline_item_id(doc, i - 1));
    let next = Value::Reference(outline_item_id(doc, i + 1));
    let none = Seq::<(Seq<u8>, Value)>::empty();
    let a = with_entry(none, name("Title"), text);
    let b = with_entry(a, name("Parent"), parent);
    let c = with_entry(b, name("Dest"), dest);
    let e = if i > 0 {
        with_entry(c, name("Prev"), prev)
    } else {
        c
    };
    let f = if i < count - 1 {
        with_entry(e, name("Next"), next)
    } else {
        e
    };
    lemma_with_entry(none, name("Title"), text);
    lemma_with_entry(a, name("Parent"), parent);
    lemma_with_entry(b, name("Dest"), dest);
    lemma_with_entry(c, name("Prev"), prev);
    lemma_with_entry(e, name("Next"), next);
    assert(outline_item(doc, title, page, i, count) == f);
    assert forall|x: ObjectId| #[trigger] entries_refer(f, x) implies {
        ||| x == outline_root_id(doc)
        ||| x == page
        ||| (i > 0 && x == outline_item_id(doc, i - 1))
        ||| (i < count - 1 && x == outline_item_id(doc, i + 1))
    } by {
        if i < count - 1 {
            lemma_with_entry_refers(e, name("Next"), next, x);
        }
        if !(i < count - 1 && value_refers(next, x)) {
            assert(entries_refer(e, x));
            if i > 0 {
                lemma_with_entry_refers(c, name("Prev"), prev, x);
            }
            if !(i > 0 && value_refers(prev, x)) {
                assert(entries_refer(c, x));
                lemma_with_entry_refers(b, name("Dest"), dest, x);
                if value_refers(dest, x) {
                    lemma_destination_refers(page, x);
                } else {
                    lemma_with_entry_refers(a, name("Parent"), parent, x);
                    if !value_refers(parent, x) {
                        lemma_with_entry_refers(none, name("Title"), text, x);
                        assert(!value_refers(text, x));
                        assert(!entries_refer(none, x));
                    }
                }
            }
        }
    }
}

/// Adding an outline whose items point at stored pages keeps a document
/// sound.
pub proof fn lemma_outline_sound(doc: DocumentView, items: Seq<(Seq<char>, ObjectId)>)
    requires
        sound(doc),
        can_add_outline(doc, items.len()),
        forall|i: int| 0 <= i < items.len() ==> has_id(doc.objects, (#[trigger] items[i]).1),
    ensures
        sound(with_outline(doc, items)),
{
    let cid = doc.catalog_id()->0;
    let cat = doc.catalog()->0;
    let root_ref = Value::Reference(outline_root_id(doc));
    let marked = with_entry(cat, name("Outlines"), root_ref);
    let stored = objects_with(doc.objects, cid, Value::Dict(marked));
    let extra = outline_objects(doc, items);
    let after = with_outline(doc, items);
    let all = after.objects;
    let n = stored.len() as int;
    let count = items.len() as int;
    assert(object_at(doc.objects, cid) == Some(Value::Dict(cat)));
    lemma_stored_names(doc, cid);
    lemma_with_entry(cat, name("Outlines"), root_ref);
    lemma_objects_with(doc.objects, cid, Value::Dict(marked));
    lemma_stored_kept(doc, cid, Value::Dict(marked));
    assert(stored.len() == doc.objects.len());
    lemma_outline_root(doc, count);
    assert forall|i: int, j: int| 0 <= i < j < all.len() implies id_less(
        (#[trigger] all[i]).0,
        (#[trigger] all[j]).0,
    ) by {
        if j < n {
            assert(id_less(stored[i].0, stored[j].0));
        } else if i >= n {
            assert(all[i] == extra[i - n]);
            assert(all[j] == extra[j - n]);
        } else {
            assert(all[i] == stored[i]);
            assert(all[j] == extra[j - n]);
            assert(has_id(stored, stored[i].0));
            assert(has_id(doc.objects, stored[i].0));
            let m = index_of(doc.objects, stored[i].0);
            assert(doc.objects[m].0.0 <= doc.max_id);
        }
    }
    assert forall|i: int| 0 <= i < all.len() implies (#[trigger] all[i]).0.0 <= after.max_id
        && match top_dict(all[i].1) {
        Some(d) => names_distinct(d),
        None => true,
    } by {
        if i < n {
            assert(all[i] == stored[i]);
            assert(has_id(stored, stored[i].0));
            assert(has_id(doc.objects, stored[i].0));
            let m = index_of(doc.objects, stored[i].0);
            assert(doc.objects[m].0.0 <= doc.max_id);
        } else {
            assert(all[i] == extra[i - n]);
            if i > n {
                lemma_outline_item(
                    doc,
                    items[i - n - 1].0,
                    items[i - n - 1].1,
                    i - n - 1,
                    count,
                );
            }
        }
    }
    assert forall|x: ObjectId| has_id(doc.objects, x) implies has_id(all, x) by {
        assert(has_id(stored, x));
        lemma_joined_has(stored, extra, x);
    }
    assert(has_id(all, outline_root_id(doc))) by {
        assert(all[n] == extra[0]);
    }
    assert forall|m: int| 0 <= m < count implies has_id(all, #[trigger] outline_item_id(doc, m)) by {
        assert(all[n + 1 + m] == extra[1 + m]);
    }
    assert forall|x: ObjectId| #[trigger] entries_refer(after.trailer, x) implies has_id(
        all,
        x,
    ) by {
        assert(has_id(doc.objects, x));
    }
    assert forall|k: int, x: ObjectId|
        0 <= k < all.len() && #[trigger] value_refers(all[k].1, x) implies has_id(all, x) by {
        if k < n {
            assert(all[k] == stored[k]);
            let here = stored[k].0;
            lemma_index_unique(stored, here, k);
            assert(object_at(stored, here) == Some(stored[k].1));
            if here == cid {
                assert(stored[k].1 == Value::Dict(marked));
                assert(entries_refer(marked, x));
                lemma_with_entry_refers(cat, name("Outlines"), root_ref, x);
                if entries_refer(cat, x) {
                    assert(value_refers(Value::Dict(cat), x));
                    lemma_closed_object(doc, cid, x);
                }
            } else {
                assert(has_id(stored, here));
                assert(has_id(doc.objects, here));
                assert(object_at(stored, here) == object_at(doc.objects, here));
                lemma_closed_object(doc, here, x);
            }
        } else if k == n {
            assert(all[k] == extra[0]);
            assert(entries_refer(outline_root(doc, count), x));
        } else {
            let m = k - n - 1;
            assert(all[k] == extra[1 + m]);
            lemma_outline_item(doc, items[m].0, items[m].1, m, count);
            assert(entries_refer(outline_item(doc, items[m].0, items[m].1, m, count), x));
            if x == items[m].1 {
                assert(has_id(doc.objects, items[m].1));
            }
        }
    }
}

/// Making a sound source ready gives a sound document.
pub proof fn lemma_prepared_sound(
    doc: DocumentView,
    range: Option<Seq<PageRangeItem>>,
    rotation: Option<Rotation>,
)
    requires
        sound(doc),
        prepared(doc, range, rotation) is Some,
    ensures
        sound(prepared(doc, range, rotation)->0),
{
    let cut = match range {
        Some(items) => {
            let total = doc.pages().len();
            let numbers = pages_upto(items, total);
            let ids = selected(doc.pages(), numbers);
            lemma_pages_upto_bounds(items, total);
            assert forall|i: int| 0 <= i < ids.len() implies has_id(
                doc.objects,
                #[trigger] ids[i],
            ) by {
                lemma_pages_stored(doc, numbers[i] - 1);
            }
            lemma_with_pages_sound(doc, ids);
            extracted(doc, items)->0
        },
        None => doc,
    };
    match rotation {
        Some(r) => {
            lemma_pages_rotated_sound(cut, cut.pages(), r.degrees() as i64);
        },
        None => {},
    }
}

/// Combining sound sources gives a sound document.
pub proof fn lemma_combined_sound(
    sources: Seq<DocumentView>,
    range: Option<Seq<PageRangeItem>>,
    rotation: Option<Rotation>,
)
    requires
        forall|i: int| 0 <= i < sources.len() ==> sound(#[trigger] sources[i]),
        combined(sources, range, rotation) is Some,
    ensures
        sound(combined(sources, range, rotation)->0),
    decreases sources.len(),
{
    if sources.len() == 1 {
        lemma_prepared_sound(sources[0], range, rotation);
    } else {
        let front = sources.drop_last();
        assert forall|i: int| 0 <= i < front.len() implies sound(#[trigger] front[i]) by {
            assert(front[i] == sources[i]);
        }
        lemma_combined_sound(front, range, rotation);
        lemma_prepared_sound(sources.last(), range, rotation);
        lemma_absorbed_sound(
            combined(front, range, rotation)->0,
            prepared(sources.last(), range, rotation)->0,
        );
    }
}

/// Adding the bookmarks of a merge keeps a document sound.
pub proof fn lemma_bookmarked_sound(doc: DocumentView, files: Seq<PathBuf>, enabled: bool)
    requires
        sound(doc),
        bookmarked(doc, files, enabled) is Some,
    ensures
        sound(bookmarked(doc, files, enabled)->0),
{
    if enabled && files.len() > 0 && doc.pages().len() > 0 {
        let items = bookmark_targets(doc.pages(), files);
        assert forall|i: int| 0 <= i < items.len() implies has_id(
            doc.objects,
            (#[trigger] items[i]).1,
        ) by {
            lemma_target_in_range(doc.pages().len(), files.len(), i as nat);
            lemma_pages_stored(doc, i * pages_per_file(doc.pages().len(), files.len()));
        }
        lemma_outline_sound(doc, items);
    }
}

/// After a merge of documents in which no identifier occurs twice and every
/// reference is to a stored object, the same holds of the result: its
/// identifiers ascend, so none occurs twice, and every reference in it is
/// to an object that it stores.
pub proof fn law_merge_is_sound(
    sources: Seq<DocumentView>,
    files: Seq<PathBuf>,
    config: Config,
    date: Seq<char>,
)
    requires
        forall|i: int| 0 <= i < sources.len() ==> sound(#[trigger] sources[i]),
        merge_plan(sources, files, config, date) is Some,
    ensures
        sound(merge_plan(sources, files, config, date)->0),
{
    let range = range_items(config.page_range);
    lemma_combined_sound(sources, range, config.rotation);
    let whole = combined(sources, range, config.rotation)->0;
    lemma_bookmarked_sound(whole, files, config.bookmarks);
    let marked = bookmarked(whole, files, config.bookmarks)->0;
    if !config.metadata.empty() {
        lemma_metadata_sound(marked, config.metadata, date);
    }
    let dated = stamped(marked, config.metadata, date)->0;
    match config.compression {
        CompressionLevel::Uncompressed => {},
        CompressionLevel::Standard => {
            lemma_compressed_sound(dated);
        },
        CompressionLevel::Maximum => {
            lemma_compressed_sound(dated);
            lemma_pruned_sound(compressed(dated));
        },
    }
    lemma_renumbered_sound(compacted(dated, config.compression), 1);
}

} // verus!
