//! Renumbering: every object gets a fresh number, counted up from a start
//! in the order of the identifiers, and every reference follows.

use crate::document::{
    dicts_distinct, id_before, id_less, objects_view, top_dict, Document, DocumentView,
};
use crate::object::{array_view, names_distinct, Dictionary, Object, ObjectId, Value};
use vstd::prelude::*;

verus! {

/// The identifiers of the objects, in order.
pub open spec fn ids_of(objs: Seq<(ObjectId, Value)>) -> Seq<ObjectId> {
    Seq::new(objs.len(), |i: int| objs[i].0)
}

/// The identifiers ascend strictly.
pub open spec fn ascending(ids: Seq<ObjectId>) -> bool {
    forall|i: int, j: int| 0 <= i < j < ids.len() ==> id_less(#[trigger] ids[i], #[trigger] ids[j])
}

/// `id` is one of `ids`.
pub open spec fn listed(ids: Seq<ObjectId>, id: ObjectId) -> bool {
    exists|i: int| 0 <= i < ids.len() && #[trigger] ids[i] == id
}

/// The position of `id` among `ids`.
pub open spec fn place_of(ids: Seq<ObjectId>, id: ObjectId) -> int {
    choose|i: int| 0 <= i < ids.len() && #[trigger] ids[i] == id
}

/// The identifier that takes the place of `id`: the object at position `k`
/// gets the number `start + k` and keeps its generation; an identifier that
/// no object carries stays as it is.
pub open spec fn renumbered_id(ids: Seq<ObjectId>, start: u32, id: ObjectId) -> ObjectId {
    if listed(ids, id) {
        ((start + place_of(ids, id)) as u32, id.1)
    } else {
        id
    }
}

/// The identifiers that take the place of those of `list`, in order.
pub open spec fn renumbered_ids(ids: Seq<ObjectId>, start: u32, list: Seq<ObjectId>) -> Seq<
    ObjectId,
> {
    Seq::new(list.len(), |i: int| renumbered_id(ids, start, list[i]))
}

/// A value with every reference in it renumbered.
pub open spec fn renumbered_value(ids: Seq<ObjectId>, start: u32, v: Value) -> Value
    decreases v,
{
    match v {
        Value::Reference(id) => Value::Reference(renumbered_id(ids, start, id)),
        Value::Array(a) => Value::Array(
            Seq::new(
                a.len(),
                |i: int|
                    if 0 <= i < a.len() {
                        renumbered_value(ids, start, a[i])
                    } else {
                        Value::Null
                    },
            ),
        ),
        Value::Dict(d) => Value::Dict(renumbered_entries(ids, start, d)),
        Value::Stream(d, content, flag) => Value::Stream(
            renumbered_entries(ids, start, d),
            content,
            flag,
        ),
        other => other,
    }
}

/// The entries of a dictionary with every reference in them renumbered.
pub open spec fn renumbered_entries(ids: Seq<ObjectId>, start: u32, d: Seq<(Seq<u8>, Value)>) -> Seq<
    (Seq<u8>, Value),
>
    decreases d,
{
    Seq::new(
        d.len(),
        |i: int|
            if 0 <= i < d.len() {
                (d[i].0, renumbered_value(ids, start, d[i].1))
            } else {
                (Seq::empty(), Value::Null)
            },
    )
}

/// Whether the objects can be renumbered from `start`: the start is at
/// least 1 and the last number fits 32 bits.
pub open spec fn can_renumber(doc: DocumentView, start: u32) -> bool {
    start >= 1 && start + doc.objects.len() <= u32::MAX + 1
}

/// The document renumbered from `start`: the object at position `k` of the
/// order carries the number `start + k`, every reference to an object
/// follows it, and the watermark is the last number given.
pub open spec fn renumbered(doc: DocumentView, start: u32) -> DocumentView {
    let ids = ids_of(doc.objects);
    DocumentView {
        version: doc.version,
        trailer: renumbered_entries(ids, start, doc.trailer),
        objects: Seq::new(
            doc.objects.len(),
            |k: int|
                (((start + k) as u32, ids[k].1), renumbered_value(ids, start, doc.objects[k].1)),
        ),
        max_id: (start + doc.objects.len() - 1) as u32,
    }
}

/// The position of `id` among `ids`.
fn find_id(ids: &Vec<ObjectId>, id: ObjectId) -> (r: Option<usize>)
    requires
        ascending(ids@),
    ensures
        match r {
            Some(k) => k < ids@.len() && ids@[k as int] == id && listed(ids@, id) && place_of(
                ids@,
                id,
            ) == k,
            None => !listed(ids@, id),
        },
{
    let mut lo: usize = 0;
    let mut hi: usize = ids.len();
    while lo < hi
        invariant
            ascending(ids@),
            lo <= hi <= ids.len(),
            forall|j: int| 0 <= j < lo ==> id_less(#[trigger] ids@[j], id),
            forall|j: int| hi <= j < ids.len() ==> !id_less(#[trigger] ids@[j], id),
        decreases hi - lo,
    {
        let mid: usize = lo + (hi - lo) / 2;
        if id_before(ids[mid], id) {
            assert forall|j: int| 0 <= j < mid + 1 implies id_less(#[trigger] ids@[j], id) by {
                if j < mid {
                    assert(id_less(ids@[j], ids@[mid as int]));
                }
            }
            lo = mid + 1;
        } else {
            assert forall|j: int| mid <= j < ids.len() implies !id_less(#[trigger] ids@[j], id) by {
                if mid < j {
                    assert(id_less(ids@[mid as int], ids@[j]));
                }
            }
            hi = mid;
        }
    }
    if lo < ids.len() && ids[lo].0 == id.0 && ids[lo].1 == id.1 {
        proof {
            let s = place_of(ids@, id);
            if s < lo {
                assert(id_less(ids@[s], ids@[lo as int]));
            } else if lo < s {
                assert(id_less(ids@[lo as int], ids@[s]));
            }
        }
        Some(lo)
    } else {
        proof {
            if listed(ids@, id) {
                let s = place_of(ids@, id);
                if s < lo {
                    assert(id_less(ids@[s], id));
                } else if s > lo {
                    assert(id_less(ids@[lo as int], ids@[s]));
                    assert(!id_less(ids@[lo as int], id));
                }
            }
        }
        None
    }
}

/// The identifier that takes the place of `id`.
fn remap_id(ids: &Vec<ObjectId>, start: u32, id: ObjectId) -> (r: ObjectId)
    requires
        ascending(ids@),
        start + ids@.len() <= u32::MAX + 1,
    ensures
        r == renumbered_id(ids@, start, id),
{
    match find_id(ids, id) {
        Some(k) => (start + k as u32, id.1),
        None => id,
    }
}

/// The object with every reference in it renumbered.
fn remap_object(o: Object, ids: &Vec<ObjectId>, start: u32) -> (r: Object)
    requires
        ascending(ids@),
        start + ids@.len() <= u32::MAX + 1,
    ensures
        r@ == renumbered_value(ids@, start, o@),
    decreases o@,
{
    match o {
        Object::Reference(id) => Object::Reference(remap_id(ids, start, id)),
        Object::Array(items) => {
            let mut items = items;
            let ghost initial = array_view(items);
            let mut i: usize = 0;
            while i < items.len()
                invariant
                    ascending(ids@),
                    start + ids@.len() <= u32::MAX + 1,
                    o@ == Value::Array(initial),
                    i <= items.len(),
                    items.len() == initial.len(),
                    forall|j: int|
                        0 <= j < i ==> (#[trigger] items@[j])@ == renumbered_value(
                            ids@,
                            start,
                            initial[j],
                        ),
                    forall|j: int| i <= j < items.len() ==> (#[trigger] items@[j])@ == initial[j],
                decreases items.len() - i,
            {
                let mut slot = Object::Null;
                std::mem::swap(&mut items[i], &mut slot);
                proof {
                    assert(slot@ == initial[i as int]);
                    assert(o@->Array_0 == initial);
                    assert(decreases_to!(o@ => o@->Array_0));
                    assert(decreases_to!(o@->Array_0 => o@->Array_0[i as int]));
                }
                let mapped = remap_object(slot, ids, start);
                items[i] = mapped;
                i += 1;
            }
            assert(array_view(items) =~= renumbered_value(ids@, start, o@)->Array_0);
            Object::Array(items)
        },
        Object::Dictionary(d) => {
            let mut d = d;
            remap_dictionary(&mut d, ids, start);
            Object::Dictionary(d)
        },
        Object::Stream(s) => {
            let mut s = s;
            remap_dictionary(&mut s.dict, ids, start);
            Object::Stream(s)
        },
        other => other,
    }
}

/// Renumbers every reference in the entries of a dictionary.
fn remap_dictionary(d: &mut Dictionary, ids: &Vec<ObjectId>, start: u32)
    requires
        ascending(ids@),
        start + ids@.len() <= u32::MAX + 1,
    ensures
        final(d)@ == renumbered_entries(ids@, start, old(d)@),
    decreases old(d)@,
{
    let ghost initial = d@;
    let mut i: usize = 0;
    while i < d.len()
        invariant
            ascending(ids@),
            start + ids@.len() <= u32::MAX + 1,
            initial == old(d)@,
            i <= d@.len(),
            d@.len() == initial.len(),
            forall|j: int|
                0 <= j < i ==> (#[trigger] d@[j]) == (
                    initial[j].0,
                    renumbered_value(ids@, start, initial[j].1),
                ),
            forall|j: int| i <= j < d@.len() ==> (#[trigger] d@[j]) == initial[j],
        decreases d@.len() - i,
    {
        let value = d.replace_value_at(i, Object::Null);
        let mapped = remap_object(value, ids, start);
        let _ = d.replace_value_at(i, mapped);
        i += 1;
    }
    assert(d@ =~= renumbered_entries(ids@, start, initial));
}

/// Renumbering keeps the names of a dictionary, so they stay distinct.
pub proof fn lemma_renumbered_names(ids: Seq<ObjectId>, start: u32, d: Seq<(Seq<u8>, Value)>)
    requires
        names_distinct(d),
    ensures
        names_distinct(renumbered_entries(ids, start, d)),
{
    let r = renumbered_entries(ids, start, d);
    assert forall|i: int, j: int| 0 <= i < j < r.len() implies (#[trigger] r[i]).0 != (
    #[trigger] r[j]).0 by {
        assert(r[i].0 == d[i].0);
        assert(r[j].0 == d[j].0);
    }
}

/// Gives every object the number `starting_id + k`, where `k` is its
/// position in the order of the identifiers, and rewrites every reference
/// to an object in the objects and in the trailer. The watermark becomes
/// the last number given.
pub fn renumber_objects_with(doc: &mut Document, starting_id: u32)
    requires
        can_renumber(old(doc)@, starting_id),
    ensures
        final(doc)@ == renumbered(old(doc)@, starting_id),
{
    let ghost before = doc@;
    let mut taken = Document::with_version("");
    std::mem::swap(doc, &mut taken);
    let (version, trailer, objects, _) = taken.into_parts();
    let mut trailer = trailer;
    let mut objects = objects;
    let count: usize = objects.len();
    let mut ids: Vec<ObjectId> = Vec::new();
    let mut i: usize = 0;
    while i < count
        invariant
            i <= count,
            count == objects.len(),
            ids@.len() == i,
            forall|j: int| 0 <= j < i ==> ids@[j] == (#[trigger] objects@[j]).0,
        decreases count - i,
    {
        ids.push(objects[i].0);
        i += 1;
    }
    assert(ids@ =~= ids_of(before.objects));
    assert(ascending(ids@)) by {
        assert forall|a: int, b: int| 0 <= a < b < ids@.len() implies id_less(
            #[trigger] ids@[a],
            #[trigger] ids@[b],
        ) by {
            assert(id_less(before.objects[a].0, before.objects[b].0));
        }
    }
    remap_dictionary(&mut trailer, &ids, starting_id);
    let mut renumbered_objects: Vec<(ObjectId, Object)> = Vec::new();
    let mut k: usize = 0;
    while k < count
        invariant
            k <= count,
            count == objects.len(),
            count == before.objects.len(),
            ids@ == ids_of(before.objects),
            ascending(ids@),
            starting_id >= 1,
            starting_id + count <= u32::MAX + 1,
            dicts_distinct(before.objects),
            renumbered_objects@.len() == k,
            forall|j: int|
                k <= j < count ==> (#[trigger] objects@[j]).0 == before.objects[j].0
                    && objects@[j].1@ == before.objects[j].1,
            forall|j: int|
                0 <= j < k ==> (#[trigger] renumbered_objects@[j]).0 == (
                    (starting_id + j) as u32,
                    ids@[j].1,
                ) && renumbered_objects@[j].1@ == renumbered_value(
                    ids@,
                    starting_id,
                    before.objects[j].1,
                ),
        decreases count - k,
    {
        let mut slot: (ObjectId, Object) = ((0, 0), Object::Null);
        std::mem::swap(&mut objects[k], &mut slot);
        let (id, object) = slot;
        let mapped = remap_object(object, &ids, starting_id);
        renumbered_objects.push(((starting_id + k as u32, id.1), mapped));
        k += 1;
    }
    let max_id: u32 = starting_id - 1 + count as u32;
    let ghost after = objects_view(renumbered_objects);
    assert(after =~= renumbered(before, starting_id).objects);
    assert forall|a: int| 0 <= a < after.len() implies (#[trigger] after[a]).0.0 <= max_id
        && match top_dict(after[a].1) {
        Some(d) => names_distinct(d),
        None => true,
    } by {
        match top_dict(before.objects[a].1) {
            Some(d) => {
                lemma_renumbered_names(ids@, starting_id, d);
            },
            None => {},
        }
    }
    let mut rebuilt = Document::from_parts(version, trailer, renumbered_objects, max_id);
    std::mem::swap(doc, &mut rebuilt);
}

/// Renumbers the objects from 1.
pub fn renumber_objects(doc: &mut Document)
    requires
        can_renumber(old(doc)@, 1),
    ensures
        final(doc)@ == renumbered(old(doc)@, 1),
{
    renumber_objects_with(doc, 1)
}

} // verus!
