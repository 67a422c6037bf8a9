//! The pages of a document across the operations of the merge: which
//! operations leave the page tree where it is, and what they make of the
//! pages.

use crate::document::{
    has_id, ids_ascending, index_of, lemma_index_unique, lemma_links_kept, lemma_objects_with,
    lemma_resolve_end, lemma_resolve_preserved, link, object_at, objects_with, references_in,
    references_to, resolve, resolve_from, DocumentView, DEREF_LIMIT,
};
use crate::config::Metadata;
use crate::document::id_less;
use crate::merge::bookmarks::{
    can_add_outline, outline_objects, outline_root_id, with_outline,
};
use crate::merge::closure::{
    lemma_joined_sound, lemma_object_at_position, lemma_outline_sound, lemma_pages_rotated_sound,
    lemma_stored_names, sound,
};
use crate::merge::compact::{compressed, compressed_value};
use crate::merge::merger::joined;
use crate::merge::metadata::{
    can_set_metadata, info_after, info_before, info_id, info_place, info_ref, text_value,
    with_field, with_metadata,
};
use crate::merge::renumber::{can_renumber, renumbered};
use crate::names::lemma_info_names_differ;
use crate::merge::pages::{
    count_of, rotated, rotation_of, with_page_rotated, with_pages, with_pages_added,
    with_pages_rotated,
};
use crate::names::lemma_tree_names_differ;
use crate::object::{lemma_with_entry, lookup, name, names_distinct, with_entry, ObjectId, Value};
use vstd::prelude::*;

verus! {

/// Where every object of `a` links in `b` as it does in `a`, the trailer
/// refers to the same root, and the catalog of `a` is a dictionary in `b`
/// too, that dictionary is the catalog of `b`.
pub proof fn lemma_catalog_kept(a: DocumentView, b: DocumentView)
    requires
        a.catalog() is Some,
        lookup(b.trailer, name("Root")) == lookup(a.trailer, name("Root")),
        forall|x: ObjectId| has_id(a.objects, x) ==> #[trigger] link(b.objects, x) == link(
            a.objects,
            x,
        ),
        object_at(b.objects, a.catalog_id()->0) is Some,
        object_at(b.objects, a.catalog_id()->0)->0 is Dict,
    ensures
        b.catalog_id() == a.catalog_id(),
        b.catalog() == Some(object_at(b.objects, a.catalog_id()->0)->0->Dict_0),
{
    let root = lookup(a.trailer, name("Root"))->0->Reference_0;
    lemma_resolve_preserved(a.objects, b.objects, root, DEREF_LIMIT as nat);
}

/// Where every object of `a` links in `b` as it does in `a`, the trailer
/// refers to the same root, the catalog of `a` is a dictionary in `b` with
/// the same `Pages`, and the page tree of `a` is a dictionary in `b`, that
/// dictionary is the page tree of `b`.
pub proof fn lemma_page_tree_kept(a: DocumentView, b: DocumentView)
    requires
        a.page_tree() is Some,
        lookup(b.trailer, name("Root")) == lookup(a.trailer, name("Root")),
        forall|x: ObjectId| has_id(a.objects, x) ==> #[trigger] link(b.objects, x) == link(
            a.objects,
            x,
        ),
        object_at(b.objects, a.catalog_id()->0) is Some,
        object_at(b.objects, a.catalog_id()->0)->0 is Dict,
        lookup(object_at(b.objects, a.catalog_id()->0)->0->Dict_0, name("Pages")) == lookup(
            a.catalog()->0,
            name("Pages"),
        ),
        object_at(b.objects, a.page_tree_id()->0) is Some,
        object_at(b.objects, a.page_tree_id()->0)->0 is Dict,
    ensures
        b.catalog_id() == a.catalog_id(),
        b.page_tree_id() == a.page_tree_id(),
        b.page_tree() == Some(object_at(b.objects, a.page_tree_id()->0)->0->Dict_0),
{
    lemma_catalog_kept(a, b);
    let pages = lookup(a.catalog()->0, name("Pages"))->0->Reference_0;
    lemma_resolve_preserved(a.objects, b.objects, pages, DEREF_LIMIT as nat);
}

/// Replacing a dictionary by one with the same `Pages` leaves the catalog
/// and the page tree where they are; the new dictionary is the catalog or
/// the page tree where the old one was.
pub proof fn lemma_dict_replaced(doc: DocumentView, id: ObjectId, d: Seq<(Seq<u8>, Value)>)
    requires
        doc.well_formed(),
        doc.page_tree() is Some,
        object_at(doc.objects, id) is Some,
        object_at(doc.objects, id)->0 is Dict,
        lookup(d, name("Pages")) == lookup(object_at(doc.objects, id)->0->Dict_0, name("Pages")),
    ensures
        doc.with_object(id, Value::Dict(d)).catalog_id() == doc.catalog_id(),
        doc.with_object(id, Value::Dict(d)).page_tree_id() == doc.page_tree_id(),
        doc.with_object(id, Value::Dict(d)).page_tree() == Some(
            if id == doc.page_tree_id()->0 {
                d
            } else {
                doc.page_tree()->0
            },
        ),
        doc.with_object(id, Value::Dict(d)).max_id == doc.max_id,
        doc.with_object(id, Value::Dict(d)).trailer == doc.trailer,
{
    let after = doc.with_object(id, Value::Dict(d));
    let cid = doc.catalog_id()->0;
    let tid = doc.page_tree_id()->0;
    lemma_objects_with(doc.objects, id, Value::Dict(d));
    lemma_links_kept(doc.objects, id, Value::Dict(d));
    let pages = lookup(doc.catalog()->0, name("Pages"))->0->Reference_0;
    lemma_resolve_end(doc.objects, pages, DEREF_LIMIT as nat);
    assert(has_id(doc.objects, cid));
    assert(has_id(doc.objects, tid));
    if id != cid {
        assert(object_at(after.objects, cid) == object_at(doc.objects, cid));
    }
    if id != tid {
        assert(object_at(after.objects, tid) == object_at(doc.objects, tid));
    }
    lemma_page_tree_kept(doc, after);
    let k = lemma_object_at_position(doc.objects, id);
    assert(doc.objects[k].0.0 <= doc.max_id);
}

/// Replacing a dictionary by one with the same `Pages` and the same `Kids`
/// leaves the pages as they are.
pub proof fn lemma_dict_replaced_keeps_pages(doc: DocumentView, id: ObjectId, d: Seq<(Seq<u8>, Value)>)
    requires
        doc.well_formed(),
        doc.kids() is Some,
        object_at(doc.objects, id) is Some,
        object_at(doc.objects, id)->0 is Dict,
        lookup(d, name("Pages")) == lookup(object_at(doc.objects, id)->0->Dict_0, name("Pages")),
        lookup(d, name("Kids")) == lookup(object_at(doc.objects, id)->0->Dict_0, name("Kids")),
    ensures
        doc.with_object(id, Value::Dict(d)).kids() == doc.kids(),
        doc.with_object(id, Value::Dict(d)).pages() == doc.pages(),
        doc.with_object(id, Value::Dict(d)).page_tree_id() == doc.page_tree_id(),
        doc.with_object(id, Value::Dict(d)).catalog_id() == doc.catalog_id(),
{
    lemma_dict_replaced(doc, id, d);
}

/// The references among kids that are followed by references to `ids` hold
/// what the references among the kids hold, followed by `ids`.
pub proof fn lemma_references_appended(kids: Seq<Value>, ids: Seq<ObjectId>)
    ensures
        references_in(kids + references_to(ids)) == references_in(kids) + ids,
    decreases ids.len(),
{
    if ids.len() == 0 {
        assert(kids + references_to(ids) =~= kids);
        assert(references_in(kids) + ids =~= references_in(kids));
    } else {
        let front = ids.drop_last();
        let all = kids + references_to(ids);
        lemma_references_appended(kids, front);
        assert(all.drop_last() =~= kids + references_to(front));
        assert(all.last() == Value::Reference(ids.last()));
        assert(references_in(kids) + ids =~= (references_in(kids) + front).push(ids.last()));
    }
}

/// After pages are appended to the page tree, the pages of the document
/// are the pages that were there, followed by the pages appended.
pub proof fn lemma_pages_added(doc: DocumentView, ids: Seq<ObjectId>)
    requires
        doc.well_formed(),
        doc.kids() is Some,
    ensures
        with_pages_added(doc, ids).pages() == doc.pages() + ids,
        with_pages_added(doc, ids).kids() is Some,
{
    let tid = doc.page_tree_id()->0;
    let tree = doc.page_tree()->0;
    let kids = Value::Array(doc.kids()->0 + references_to(ids));
    let count = Value::Integer((count_of(tree) + ids.len()) as i64);
    let first = with_entry(tree, name("Kids"), kids);
    let new_tree = with_entry(first, name("Count"), count);
    lemma_tree_names_differ();
    lemma_stored_names(doc, tid);
    lemma_with_entry(tree, name("Kids"), kids);
    lemma_with_entry(first, name("Count"), count);
    assert(lookup(new_tree, name("Pages")) == lookup(first, name("Pages")));
    assert(lookup(first, name("Pages")) == lookup(tree, name("Pages")));
    assert(lookup(new_tree, name("Kids")) == lookup(first, name("Kids")));
    lemma_dict_replaced(doc, tid, new_tree);
    lemma_references_appended(doc.kids()->0, ids);
}

/// The references to `ids` hold `ids`.
pub proof fn lemma_references_of(ids: Seq<ObjectId>)
    ensures
        references_in(references_to(ids)) == ids,
{
    lemma_references_appended(Seq::empty(), ids);
    assert(Seq::<Value>::empty() + references_to(ids) =~= references_to(ids));
    assert(references_in(Seq::<Value>::empty()) + ids =~= ids);
}

/// After the page tree is replaced, the pages of the document are the
/// pages that it was given.
pub proof fn lemma_pages_replaced(doc: DocumentView, ids: Seq<ObjectId>)
    requires
        doc.well_formed(),
        doc.page_tree() is Some,
    ensures
        with_pages(doc, ids).pages() == ids,
        with_pages(doc, ids).kids() is Some,
{
    let tid = doc.page_tree_id()->0;
    let tree = doc.page_tree()->0;
    let kids = Value::Array(references_to(ids));
    let count = Value::Integer(ids.len() as i64);
    let first = with_entry(tree, name("Kids"), kids);
    let new_tree = with_entry(first, name("Count"), count);
    lemma_tree_names_differ();
    lemma_stored_names(doc, tid);
    lemma_with_entry(tree, name("Kids"), kids);
    lemma_with_entry(first, name("Count"), count);
    assert(lookup(new_tree, name("Pages")) == lookup(first, name("Pages")));
    assert(lookup(first, name("Pages")) == lookup(tree, name("Pages")));
    assert(lookup(new_tree, name("Kids")) == lookup(first, name("Kids")));
    lemma_dict_replaced(doc, tid, new_tree);
    lemma_references_of(ids);
}

/// Turning a page leaves the pages of a document as they are.
pub proof fn lemma_page_rotated_pages(doc: DocumentView, id: ObjectId, degrees: i64)
    requires
        doc.well_formed(),
        doc.kids() is Some,
        with_page_rotated(doc, id, degrees) is Some,
    ensures
        with_page_rotated(doc, id, degrees)->0.kids() == doc.kids(),
        with_page_rotated(doc, id, degrees)->0.pages() == doc.pages(),
{
    let end = resolve(doc.objects, id)->0;
    let page = doc.get(id)->0->Dict_0;
    let turned = Value::Integer(rotated(rotation_of(page), degrees));
    lemma_resolve_end(doc.objects, id, DEREF_LIMIT as nat);
    lemma_tree_names_differ();
    lemma_stored_names(doc, end);
    lemma_with_entry(page, name("Rotate"), turned);
    let new_page = with_entry(page, name("Rotate"), turned);
    assert(lookup(new_page, name("Pages")) == lookup(page, name("Pages")));
    assert(lookup(new_page, name("Kids")) == lookup(page, name("Kids")));
    lemma_dict_replaced_keeps_pages(doc, end, new_page);
}

/// Turning pages one after the other leaves the pages of a document as
/// they are.
pub proof fn lemma_pages_rotated_pages(doc: DocumentView, ids: Seq<ObjectId>, degrees: i64)
    requires
        sound(doc),
        doc.kids() is Some,
    ensures
        with_pages_rotated(doc, ids, degrees).0.kids() == doc.kids(),
        with_pages_rotated(doc, ids, degrees).0.pages() == doc.pages(),
    decreases ids.len(),
{
    if ids.len() > 0 {
        lemma_pages_rotated_pages(doc, ids.drop_last(), degrees);
        lemma_pages_rotated_sound(doc, ids.drop_last(), degrees);
        let (before, ok) = with_pages_rotated(doc, ids.drop_last(), degrees);
        if ok && with_page_rotated(before, ids.last(), degrees) is Some {
            lemma_page_rotated_pages(before, ids.last(), degrees);
        }
    }
}

/// Objects that follow in the order do not hide the objects before them.
pub proof fn lemma_objects_appended(
    objs: Seq<(ObjectId, Value)>,
    extra: Seq<(ObjectId, Value)>,
    id: ObjectId,
)
    requires
        ids_ascending(objs + extra),
        has_id(objs, id),
    ensures
        has_id(objs + extra, id),
        object_at(objs + extra, id) == object_at(objs, id),
{
    let all = objs + extra;
    let i = index_of(objs, id);
    assert(all[i] == objs[i]);
    lemma_index_unique(all, id, i);
}

/// Objects that are added behind the objects of a document leave its page
/// tree where it is.
pub proof fn lemma_appended_keeps_pages(doc: DocumentView, after: DocumentView, extra: Seq<
    (ObjectId, Value),
>)
    requires
        doc.kids() is Some,
        after.trailer == doc.trailer,
        after.objects == doc.objects + extra,
        ids_ascending(after.objects),
    ensures
        after.kids() == doc.kids(),
        after.pages() == doc.pages(),
        after.page_tree_id() == doc.page_tree_id(),
        after.catalog_id() == doc.catalog_id(),
{
    let cid = doc.catalog_id()->0;
    let tid = doc.page_tree_id()->0;
    let pages = lookup(doc.catalog()->0, name("Pages"))->0->Reference_0;
    lemma_resolve_end(doc.objects, pages, DEREF_LIMIT as nat);
    assert forall|x: ObjectId| has_id(doc.objects, x) implies #[trigger] link(after.objects, x)
        == link(doc.objects, x) by {
        lemma_objects_appended(doc.objects, extra, x);
    }
    lemma_objects_appended(doc.objects, extra, cid);
    lemma_objects_appended(doc.objects, extra, tid);
    lemma_page_tree_kept(doc, after);
}

/// Joining the objects of a source to a base leaves the pages of the base
/// as they are.
pub proof fn lemma_joined_pages(base: DocumentView, source: DocumentView)
    requires
        sound(base),
        sound(source),
        base.kids() is Some,
        base.max_id < u32::MAX,
        can_renumber(source, (base.max_id + 1) as u32),
    ensures
        joined(base, source).kids() == base.kids(),
        joined(base, source).pages() == base.pages(),
{
    lemma_joined_sound(base, source);
    lemma_appended_keeps_pages(
        base,
        joined(base, source),
        renumbered(source, (base.max_id + 1) as u32).objects,
    );
}

/// Adding an outline leaves the pages of a document as they are.
pub proof fn lemma_outline_pages(doc: DocumentView, items: Seq<(Seq<char>, ObjectId)>)
    requires
        sound(doc),
        doc.kids() is Some,
        can_add_outline(doc, items.len()),
        forall|i: int| 0 <= i < items.len() ==> has_id(doc.objects, (#[trigger] items[i]).1),
    ensures
        with_outline(doc, items).kids() == doc.kids(),
        with_outline(doc, items).pages() == doc.pages(),
{
    let cid = doc.catalog_id()->0;
    let cat = doc.catalog()->0;
    let root_ref = Value::Reference(outline_root_id(doc));
    let marked = with_entry(cat, name("Outlines"), root_ref);
    let stored = doc.with_object(cid, Value::Dict(marked));
    assert(object_at(doc.objects, cid) == Some(Value::Dict(cat)));
    lemma_tree_names_differ();
    lemma_stored_names(doc, cid);
    lemma_with_entry(cat, name("Outlines"), root_ref);
    assert(lookup(marked, name("Pages")) == lookup(cat, name("Pages")));
    assert(lookup(marked, name("Kids")) == lookup(cat, name("Kids")));
    lemma_dict_replaced_keeps_pages(doc, cid, marked);
    lemma_outline_sound(doc, items);
    lemma_appended_keeps_pages(stored, with_outline(doc, items), outline_objects(doc, items));
}

/// Compressing the streams leaves the pages of a document as they are.
pub proof fn lemma_compressed_pages(doc: DocumentView)
    requires
        doc.well_formed(),
        doc.kids() is Some,
    ensures
        compressed(doc).kids() == doc.kids(),
        compressed(doc).pages() == doc.pages(),
        compressed(doc).catalog() == doc.catalog(),
{
    let after = compressed(doc);
    let cid = doc.catalog_id()->0;
    let tid = doc.page_tree_id()->0;
    let pages = lookup(doc.catalog()->0, name("Pages"))->0->Reference_0;
    lemma_resolve_end(doc.objects, pages, DEREF_LIMIT as nat);
    assert forall|i: int, j: int| 0 <= i < j < after.objects.len() implies id_less(
        (#[trigger] after.objects[i]).0,
        (#[trigger] after.objects[j]).0,
    ) by {
        assert(id_less(doc.objects[i].0, doc.objects[j].0));
    }
    assert forall|x: ObjectId| has_id(doc.objects, x) implies has_id(after.objects, x)
        && object_at(after.objects, x) == Some(compressed_value(object_at(doc.objects, x)->0)) by {
        let k = index_of(doc.objects, x);
        assert(after.objects[k].0 == x);
        lemma_index_unique(after.objects, x, k);
    }
    assert forall|x: ObjectId| has_id(doc.objects, x) implies #[trigger] link(after.objects, x)
        == link(doc.objects, x) by {
        assert(object_at(after.objects, x) == Some(
            compressed_value(object_at(doc.objects, x)->0),
        ));
    }
    assert(object_at(after.objects, cid) == Some(
        compressed_value(object_at(doc.objects, cid)->0),
    ));
    assert(object_at(after.objects, tid) == Some(
        compressed_value(object_at(doc.objects, tid)->0),
    ));
    lemma_page_tree_kept(doc, after);
}

/// An identifier that resolves within some hops resolves to the same end
/// within more.
pub proof fn lemma_resolve_monotone(
    objs: Seq<(ObjectId, Value)>,
    id: ObjectId,
    hops: nat,
    more: nat,
)
    requires
        resolve_from(objs, id, hops) is Some,
        hops <= more,
    ensures
        resolve_from(objs, id, more) == resolve_from(objs, id, hops),
    decreases hops,
{
    match object_at(objs, id) {
        Some(Value::Reference(next)) => {
            lemma_resolve_monotone(objs, next, (hops - 1) as nat, (more - 1) as nat);
        },
        _ => {},
    }
}

/// Where every object but `y` links in `b` as it does in `a`, an identifier
/// that resolves in `a` to a dictionary resolves in `b` to the same end,
/// unless `y` resolves to a dictionary itself.
pub proof fn lemma_resolve_avoids(
    a: Seq<(ObjectId, Value)>,
    b: Seq<(ObjectId, Value)>,
    id: ObjectId,
    hops: nat,
    y: ObjectId,
)
    requires
        forall|x: ObjectId| x != y && has_id(a, x) ==> #[trigger] link(b, x) == link(a, x),
        resolve_from(a, id, hops) is Some,
        object_at(a, resolve_from(a, id, hops)->0) is Some,
        object_at(a, resolve_from(a, id, hops)->0)->0 is Dict,
        hops <= DEREF_LIMIT,
        match resolve(a, y) {
            Some(e) => !(object_at(a, e) is Some && object_at(a, e)->0 is Dict),
            None => true,
        },
    ensures
        resolve_from(b, id, hops) == resolve_from(a, id, hops),
        id != y,
    decreases hops,
{
    if id == y {
        lemma_resolve_monotone(a, id, hops, DEREF_LIMIT as nat);
    } else {
        assert(has_id(a, id));
        assert(link(b, id) == link(a, id));
        match object_at(a, id) {
            Some(Value::Reference(next)) => {
                lemma_resolve_avoids(a, b, next, (hops - 1) as nat, y);
            },
            _ => {},
        }
    }
}

/// The information dictionary after writing holds under `key` what it held
/// before, where `key` is none of the names that are written.
pub proof fn lemma_info_after_keeps(
    d: Seq<(Seq<u8>, Value)>,
    m: Metadata,
    date: Seq<char>,
    key: Seq<u8>,
)
    requires
        names_distinct(d),
        key != name("Title"),
        key != name("Author"),
        key != name("Subject"),
        key != name("Keywords"),
        key != name("Creator"),
        key != name("Producer"),
        key != name("CreationDate"),
        key != name("ModDate"),
    ensures
        lookup(info_after(d, m, date), key) == lookup(d, key),
{
    let a = with_field(d, name("Title"), m.title);
    let b = with_field(a, name("Author"), m.author);
    let c = with_field(b, name("Subject"), m.subject);
    let e = with_field(c, name("Keywords"), m.keywords);
    let f = with_entry(e, name("Creator"), text_value("pdfcat"@));
    let g = with_entry(f, name("Producer"), text_value("pdfcat"@));
    let h = with_entry(g, name("CreationDate"), text_value(date));
    lemma_field_keeps(d, name("Title"), m.title, key);
    lemma_field_keeps(a, name("Author"), m.author, key);
    lemma_field_keeps(b, name("Subject"), m.subject, key);
    lemma_field_keeps(c, name("Keywords"), m.keywords, key);
    lemma_with_entry(e, name("Creator"), text_value("pdfcat"@));
    lemma_with_entry(f, name("Producer"), text_value("pdfcat"@));
    lemma_with_entry(g, name("CreationDate"), text_value(date));
    lemma_with_entry(h, name("ModDate"), text_value(date));
    assert(lookup(f, key) == lookup(e, key));
    assert(lookup(g, key) == lookup(f, key));
    assert(lookup(h, key) == lookup(g, key));
    assert(lookup(with_entry(h, name("ModDate"), text_value(date)), key) == lookup(h, key));
}

/// Storing a field keeps the names distinct and leaves every other name as
/// it was.
pub proof fn lemma_field_keeps(
    d: Seq<(Seq<u8>, Value)>,
    name_of_field: Seq<u8>,
    field: Option<String>,
    key: Seq<u8>,
)
    requires
        names_distinct(d),
        key != name_of_field,
    ensures
        names_distinct(with_field(d, name_of_field, field)),
        lookup(with_field(d, name_of_field, field), key) == lookup(d, key),
{
    match field {
        Some(text) => {
            lemma_with_entry(d, name_of_field, text_value(text@));
            assert(lookup(with_entry(d, name_of_field, text_value(text@)), key) == lookup(d, key));
        },
        None => {},
    }
}

/// Writing the information leaves the pages of a document as they are.
pub proof fn lemma_metadata_pages(doc: DocumentView, m: Metadata, date: Seq<char>)
    requires
        sound(doc),
        doc.kids() is Some,
        can_set_metadata(doc),
    ensures
        with_metadata(doc, m, date).kids() == doc.kids(),
        with_metadata(doc, m, date).pages() == doc.pages(),
{
    let id = info_id(doc);
    let place = info_place(doc);
    let before = info_before(doc);
    let after_dict = info_after(before, m, date);
    let v = Value::Dict(after_dict);
    let after = with_metadata(doc, m, date);
    let cid = doc.catalog_id()->0;
    let tid = doc.page_tree_id()->0;
    let root = lookup(doc.trailer, name("Root"))->0->Reference_0;
    let pages = lookup(doc.catalog()->0, name("Pages"))->0->Reference_0;
    lemma_info_names_differ();
    lemma_resolve_end(doc.objects, root, DEREF_LIMIT as nat);
    lemma_resolve_end(doc.objects, pages, DEREF_LIMIT as nat);
    match doc.get(id) {
        Some(Value::Dict(d)) => {
            lemma_resolve_end(doc.objects, id, DEREF_LIMIT as nat);
            assert(info_ref(doc) is Some) by {
                if info_ref(doc) is None {
                    if has_id(doc.objects, id) {
                        let k = index_of(doc.objects, id);
                        assert(doc.objects[k].0.0 <= doc.max_id);
                    }
                }
            }
            lemma_stored_names(doc, place);
            lemma_info_after_keeps(d, m, date, name("Pages"));
            lemma_info_after_keeps(d, m, date, name("Kids"));
            lemma_dict_replaced_keeps_pages(doc, place, after_dict);
            assert(after == doc.with_object(place, v));
        },
        _ => {
            assert(place == id);
            lemma_objects_with(doc.objects, id, v);
            assert(lookup(after.trailer, name("Root")) == lookup(doc.trailer, name("Root"))) by {
                if info_ref(doc) is None {
                    crate::object::lemma_with_entry(
                        doc.trailer,
                        name("Info"),
                        Value::Reference(id),
                    );
                }
            }
            assert(after.objects == objects_with(doc.objects, id, v));
            assert forall|x: ObjectId| x != id && has_id(doc.objects, x) implies #[trigger] link(
                after.objects,
                x,
            ) == link(doc.objects, x) by {
                assert(object_at(after.objects, x) == object_at(doc.objects, x));
            }
            lemma_resolve_avoids(doc.objects, after.objects, root, DEREF_LIMIT as nat, id);
            assert(cid != id) by {
                if cid == id {
                    assert(resolve(doc.objects, id) == Some(id));
                }
            }
            assert(object_at(after.objects, cid) == object_at(doc.objects, cid));
            lemma_resolve_avoids(doc.objects, after.objects, pages, DEREF_LIMIT as nat, id);
            assert(tid != id) by {
                if tid == id {
                    assert(resolve(doc.objects, id) == Some(id));
                }
            }
            assert(object_at(after.objects, tid) == object_at(doc.objects, tid));
        },
    }
}

} // verus!
