//! Compaction: compressing streams and removing the objects that nothing
//! reachable from the trailer refers to.

use crate::document::{
    has_id, id_less, ids_ascending, index_of, lemma_index_unique, object_at, objects_view,
    position_in, top_dict, Document, DocumentView,
};
use crate::object::{
    array_view, has_name, name, names_distinct, with_entry, Dictionary, Object, ObjectId, Stream,
    Value,
};
use vstd::prelude::*;
use vstd::string::*;

verus! {

/// The content that `lopdf::Stream::compress` leaves in a stream without a
/// filter that held `content`: the content deflated where that saves more
/// than 19 bytes, else the content as it was.
pub uninterp spec fn deflated(content: Seq<u8>) -> Seq<u8>;

/// `lopdf::Stream::compress` on a fresh stream over `content`: the content
/// that the stream holds afterwards. It is either the content as it was or
/// more than 19 bytes shorter.
#[verifier::external_body]
fn deflate(content: &Vec<u8>) -> (r: Vec<u8>)
    ensures
        r@ == deflated(content@),
        r@ == content@ || r@.len() + 19 < content@.len(),
{
    let mut stream = lopdf::Stream::new(lopdf::Dictionary::new(), content.clone());
    let _ = stream.compress();
    stream.content
}

/// Whether a stream gets compressed: it allows it, has no filter yet, and
/// deflating makes its content shorter.
pub open spec fn compressible(d: Seq<(Seq<u8>, Value)>, content: Seq<u8>, allowed: bool) -> bool {
    &&& allowed
    &&& !has_name(d, name("Filter"))
    &&& deflated(content).len() < content.len()
    &&& deflated(content).len() <= i64::MAX
}

/// A value after compression: a stream that gets compressed holds the
/// deflated content, names the filter and records the new length; any other
/// value stays as it is.
pub open spec fn compressed_value(v: Value) -> Value {
    match v {
        Value::Stream(d, content, allowed) => if compressible(d, content, allowed) {
            Value::Stream(
                with_entry(
                    with_entry(d, name("Filter"), Value::Name(name("FlateDecode"))),
                    name("Length"),
                    Value::Integer(deflated(content).len() as i64),
                ),
                deflated(content),
                allowed,
            )
        } else {
            v
        },
        _ => v,
    }
}

/// The document with every stream compressed that can be.
pub open spec fn compressed(doc: DocumentView) -> DocumentView {
    DocumentView {
        objects: Seq::new(
            doc.objects.len(),
            |k: int| (doc.objects[k].0, compressed_value(doc.objects[k].1)),
        ),
        ..doc
    }
}

/// Whether a value holds a reference to `id`, at any depth.
pub open spec fn value_refers(v: Value, id: ObjectId) -> bool
    decreases v,
{
    match v {
        Value::Reference(r) => r == id,
        Value::Array(a) => items_refer(a, id),
        Value::Dict(d) => entries_refer(d, id),
        Value::Stream(d, _, _) => entries_refer(d, id),
        _ => false,
    }
}

/// Whether some item holds a reference to `id`.
pub open spec fn items_refer(a: Seq<Value>, id: ObjectId) -> bool
    decreases a,
{
    if a.len() == 0 {
        false
    } else {
        items_refer(a.drop_last(), id) || value_refers(a.last(), id)
    }
}

/// Whether the value of some entry holds a reference to `id`.
pub open spec fn entries_refer(d: Seq<(Seq<u8>, Value)>, id: ObjectId) -> bool
    decreases d,
{
    if d.len() == 0 {
        false
    } else {
        entries_refer(d.drop_last(), id) || value_refers(d.last().1, id)
    }
}

/// Whether `path` leads from the trailer along references: the trailer
/// refers to its first identifier, and each identifier but the last carries
/// an object that refers to the next.
pub open spec fn is_path(doc: DocumentView, path: Seq<ObjectId>) -> bool {
    &&& path.len() > 0
    &&& entries_refer(doc.trailer, path[0])
    &&& forall|i: int|
        0 <= i < path.len() - 1 ==> has_id(doc.objects, #[trigger] path[i]) && value_refers(
            object_at(doc.objects, path[i])->0,
            path[i + 1],
        )
}

/// Whether `id` is reachable from the trailer.
pub open spec fn reachable(doc: DocumentView, id: ObjectId) -> bool {
    exists|path: Seq<ObjectId>| #[trigger] is_path(doc, path) && path.last() == id
}

/// The document without the objects that are not reachable from the trailer.
pub open spec fn pruned(doc: DocumentView) -> DocumentView {
    DocumentView {
        objects: doc.objects.filter(|e: (ObjectId, Value)| reachable(doc, e.0)),
        ..doc
    }
}

/// The number of marks that are set.
pub open spec fn count_set(marks: Seq<bool>) -> nat
    decreases marks.len(),
{
    if marks.len() == 0 {
        0
    } else {
        count_set(marks.drop_last()) + if marks.last() {
            1nat
        } else {
            0nat
        }
    }
}

/// Setting a mark that was not set raises the count by one; the count never
/// exceeds the number of marks.
proof fn lemma_count_set(marks: Seq<bool>, j: int)
    requires
        0 <= j < marks.len(),
        !marks[j],
    ensures
        count_set(marks.update(j, true)) == count_set(marks) + 1,
        count_set(marks) < marks.len(),
    decreases marks.len(),
{
    let last = marks.len() - 1;
    if j == last {
        assert(marks.update(j, true).drop_last() =~= marks.drop_last());
        lemma_count_bound(marks.drop_last());
    } else {
        assert(marks.update(j, true).drop_last() =~= marks.drop_last().update(j, true));
        lemma_count_set(marks.drop_last(), j);
    }
}

/// The count of set marks is at most the number of marks.
proof fn lemma_count_bound(marks: Seq<bool>)
    ensures
        count_set(marks) <= marks.len(),
    decreases marks.len(),
{
    if marks.len() > 0 {
        lemma_count_bound(marks.drop_last());
    }
}

/// Compresses a stream where it allows it, has no filter, and gets shorter.
pub fn compress_stream(stream: &mut Stream)
    ensures
        Value::Stream(final(stream).dict@, final(stream).content@, final(stream).allows_compression)
            == compressed_value(
            Value::Stream(old(stream).dict@, old(stream).content@, old(stream).allows_compression),
        ),
{
    if !stream.allows_compression || stream.dict.has("Filter".as_bytes()) {
        return ;
    }
    let packed = deflate(&stream.content);
    if packed.len() < stream.content.len() && packed.len() as u64 <= 0x7FFF_FFFF_FFFF_FFFF {
        let length: i64 = packed.len() as i64;
        stream.dict.set("Filter".as_bytes_vec(), Object::name("FlateDecode"));
        stream.dict.set("Length".as_bytes_vec(), Object::Integer(length));
        stream.content = packed;
    }
}

/// Compresses every stream of the document that allows it, has no filter,
/// and gets shorter by it.
pub fn compress(doc: &mut Document)
    ensures
        final(doc)@ == compressed(old(doc)@),
{
    let ghost before = doc@;
    let mut taken = Document::with_version("");
    std::mem::swap(doc, &mut taken);
    let (version, trailer, objects, max_id) = taken.into_parts();
    let mut objects = objects;
    let count: usize = objects.len();
    let mut k: usize = 0;
    while k < count
        invariant
            k <= count,
            count == objects.len(),
            count == before.objects.len(),
            before.well_formed(),
            forall|j: int|
                0 <= j < k ==> (#[trigger] objects_view(objects)[j]) == (
                    before.objects[j].0,
                    compressed_value(before.objects[j].1),
                ) && match top_dict(objects_view(objects)[j].1) {
                    Some(d) => names_distinct(d),
                    None => true,
                },
            forall|j: int| k <= j < count ==> (#[trigger] objects_view(objects)[j]) == before.objects[j],
        decreases count - k,
    {
        let ghost prior = objects_view(objects);
        let mut slot: (ObjectId, Object) = ((0, 0), Object::Null);
        std::mem::swap(&mut objects[k], &mut slot);
        let (id, object) = slot;
        assert(id == before.objects[k as int].0 && object@ == before.objects[k as int].1) by {
            assert(prior[k as int] == before.objects[k as int]);
        }
        let packed = match object {
            Object::Stream(s) => {
                let mut s = s;
                compress_stream(&mut s);
                s.dict.names_are_distinct();
                Object::Stream(s)
            },
            other => other,
        };
        objects[k] = (id, packed);
        assert forall|j: int| 0 <= j < count && j != k implies (#[trigger] objects_view(
            objects,
        )[j]) == prior[j] by {}
        k += 1;
    }
    let ghost after = objects_view(objects);
    assert(after =~= compressed(before).objects);
    assert forall|i: int, j: int| 0 <= i < j < after.len() implies id_less(
        (#[trigger] after[i]).0,
        (#[trigger] after[j]).0,
    ) by {
        assert(id_less(before.objects[i].0, before.objects[j].0));
    }
    assert forall|i: int| 0 <= i < after.len() implies (#[trigger] after[i]).0.0 <= max_id by {
        assert(before.objects[i].0.0 <= max_id);
    }
    let mut rebuilt = Document::from_parts(version, trailer, objects, max_id);
    std::mem::swap(doc, &mut rebuilt);
}

/// Adds to `out` the identifiers that the references in `o` hold.
pub fn collect_references(o: &Object, out: &mut Vec<ObjectId>)
    ensures
        forall|id: ObjectId|
            #[trigger] final(out)@.contains(id) ==> old(out)@.contains(id) || value_refers(o@, id),
        forall|id: ObjectId| old(out)@.contains(id) ==> #[trigger] final(out)@.contains(id),
        forall|id: ObjectId| #[trigger] value_refers(o@, id) ==> final(out)@.contains(id),
    decreases o@,
{
    match o {
        Object::Reference(id) => {
            let ghost before = out@;
            out.push(*id);
            assert forall|x: ObjectId| out@.contains(x) <==> (before.contains(x) || x == *id) by {
                if before.contains(x) {
                    let i = choose|i: int| 0 <= i < before.len() && before[i] == x;
                    assert(out@[i] == x);
                }
                if x == *id {
                    assert(out@[before.len() as int] == x);
                }
            }
            assert(o@ == Value::Reference(*id));
            assert(out@[before.len() as int] == *id);
            assert(out@.contains(*id));
            assert(forall|x: ObjectId| #[trigger] value_refers(o@, x) ==> out@.contains(x));
        },
        Object::Array(items) => {
            let ghost all = array_view(*items);
            let mut i: usize = 0;
            assert(all.subrange(0, 0) =~= Seq::<Value>::empty());
            while i < items.len()
                invariant
                    i <= items.len(),
                    all == array_view(*items),
                    o@ == Value::Array(all),
                    forall|id: ObjectId|
                        #[trigger] out@.contains(id) ==> old(out)@.contains(id) || items_refer(
                            all.subrange(0, i as int),
                            id,
                        ),
                    forall|id: ObjectId| old(out)@.contains(id) ==> #[trigger] out@.contains(id),
                    forall|id: ObjectId|
                        #[trigger] items_refer(all.subrange(0, i as int), id) ==> out@.contains(id),
                decreases items.len() - i,
            {
                proof {
                    assert(items[i as int]@ == all[i as int]);
                    assert(o@->Array_0 == all);
                    assert(decreases_to!(o@ => o@->Array_0));
                    assert(decreases_to!(o@->Array_0 => o@->Array_0[i as int]));
                    assert(all.subrange(0, i + 1).drop_last() =~= all.subrange(0, i as int));
                    assert(all.subrange(0, i + 1).last() == all[i as int]);
                }
                let ghost prior = out@;
                collect_references(&items[i], out);
                assert forall|id: ObjectId| #[trigger]
                    out@.contains(id) implies old(out)@.contains(id) || items_refer(
                    all.subrange(0, i + 1),
                    id,
                ) by {
                    if prior.contains(id) {
                    } else {
                        assert(value_refers(all[i as int], id));
                    }
                }
                assert forall|id: ObjectId| #[trigger]
                    items_refer(all.subrange(0, i + 1), id) implies out@.contains(id) by {
                    if items_refer(all.subrange(0, i as int), id) {
                        assert(prior.contains(id));
                    } else {
                        assert(value_refers(all[i as int], id));
                    }
                }
                i += 1;
            }
            assert(all.subrange(0, i as int) =~= all);
            assert forall|x: ObjectId| #[trigger] value_refers(o@, x) implies out@.contains(x) by {
                assert(items_refer(all, x));
            }
        },
        Object::Dictionary(d) => {
            proof {
                assert(o@->Dict_0 == d@);
                assert(decreases_to!(o@ => o@->Dict_0));
            }
            collect_entry_references(d, out);
            assert(o@ == Value::Dict(d@));
            assert forall|x: ObjectId| #[trigger] value_refers(o@, x) implies out@.contains(x) by {
                assert(entries_refer(d@, x));
            }
        },
        Object::Stream(s) => {
            proof {
                assert(o@->Stream_0 == s.dict@);
                assert(decreases_to!(o@ => o@->Stream_0));
            }
            collect_entry_references(&s.dict, out);
            assert(o@ == Value::Stream(s.dict@, s.content@, s.allows_compression));
            assert forall|x: ObjectId| #[trigger] value_refers(o@, x) implies out@.contains(x) by {
                assert(entries_refer(s.dict@, x));
            }
        },
        _ => {
            assert(o@ is Null || o@ is Boolean || o@ is Integer || o@ is Real || o@ is Name || o@
                is Str);
            assert(forall|x: ObjectId| #[trigger] value_refers(o@, x) ==> out@.contains(x));
        },
    }
}

/// Adds to `out` the identifiers that the references in the entries of `d`
/// hold.
fn collect_entry_references(d: &Dictionary, out: &mut Vec<ObjectId>)
    ensures
        forall|id: ObjectId|
            #[trigger] final(out)@.contains(id) ==> old(out)@.contains(id) || entries_refer(d@, id),
        forall|id: ObjectId| old(out)@.contains(id) ==> #[trigger] final(out)@.contains(id),
        forall|id: ObjectId| #[trigger] entries_refer(d@, id) ==> final(out)@.contains(id),
    decreases d@,
{
    let mut i: usize = 0;
    assert(d@.subrange(0, 0) =~= Seq::<(Seq<u8>, Value)>::empty());
    while i < d.len()
        invariant
            i <= d@.len(),
            forall|id: ObjectId|
                #[trigger] out@.contains(id) ==> old(out)@.contains(id) || entries_refer(
                    d@.subrange(0, i as int),
                    id,
                ),
            forall|id: ObjectId| old(out)@.contains(id) ==> #[trigger] out@.contains(id),
            forall|id: ObjectId|
                #[trigger] entries_refer(d@.subrange(0, i as int), id) ==> out@.contains(id),
        decreases d@.len() - i,
    {
        proof {
            assert(decreases_to!(d@ => d@[i as int]));
            assert(decreases_to!(d@[i as int] => d@[i as int].1));
            assert(d@.subrange(0, i + 1).drop_last() =~= d@.subrange(0, i as int));
            assert(d@.subrange(0, i + 1).last() == d@[i as int]);
        }
        let ghost prior = out@;
        collect_references(d.value_at(i), out);
        assert forall|id: ObjectId| #[trigger]
            out@.contains(id) implies old(out)@.contains(id) || entries_refer(
            d@.subrange(0, i + 1),
            id,
        ) by {
            if prior.contains(id) {
            } else {
                assert(value_refers(d@[i as int].1, id));
            }
        }
        assert forall|id: ObjectId| #[trigger]
            entries_refer(d@.subrange(0, i + 1), id) implies out@.contains(id) by {
            if entries_refer(d@.subrange(0, i as int), id) {
                assert(prior.contains(id));
            } else {
                assert(value_refers(d@[i as int].1, id));
            }
        }
        i += 1;
    }
    assert(d@.subrange(0, i as int) =~= d@);
}

/// The marks are closed under reference: what the trailer refers to is
/// marked, and so is what a marked object refers to.
pub open spec fn marks_closed(doc: DocumentView, marks: Seq<bool>) -> bool {
    &&& marks.len() == doc.objects.len()
    &&& forall|id: ObjectId|
        entries_refer(doc.trailer, id) && has_id(doc.objects, id) ==> marks[index_of(
            doc.objects,
            id,
        )]
    &&& forall|j: int, id: ObjectId|
        0 <= j < marks.len() && marks[j] && #[trigger] value_refers(doc.objects[j].1, id)
            && has_id(doc.objects, id) ==> marks[index_of(doc.objects, id)]
}

/// Where the marks are closed, the object at the end of a path is marked
/// where it is stored.
proof fn lemma_path_marked(doc: DocumentView, marks: Seq<bool>, path: Seq<ObjectId>)
    requires
        ids_ascending(doc.objects),
        marks_closed(doc, marks),
        is_path(doc, path),
        has_id(doc.objects, path.last()),
    ensures
        marks[index_of(doc.objects, path.last())],
    decreases path.len(),
{
    if path.len() > 1 {
        let front = path.drop_last();
        let n = path.len() - 1;
        assert(front[0] == path[0]);
        assert forall|i: int| 0 <= i < front.len() - 1 implies has_id(
            doc.objects,
            #[trigger] front[i],
        ) && value_refers(object_at(doc.objects, front[i])->0, front[i + 1]) by {
            assert(front[i] == path[i]);
            assert(front[i + 1] == path[i + 1]);
        }
        assert(has_id(doc.objects, path[n - 1]));
        assert(front.last() == path[n - 1]);
        lemma_path_marked(doc, marks, front);
        let j = index_of(doc.objects, path[n - 1]);
        assert(object_at(doc.objects, path[n - 1]) == Some(doc.objects[j].1));
        assert(value_refers(doc.objects[j].1, path[n]));
    }
}

/// A path that is extended by what its last object refers to is a path.
pub proof fn lemma_path_extended(doc: DocumentView, path: Seq<ObjectId>, next: ObjectId)
    requires
        is_path(doc, path),
        has_id(doc.objects, path.last()),
        value_refers(object_at(doc.objects, path.last())->0, next),
    ensures
        is_path(doc, path.push(next)),
        reachable(doc, next),
{
    let longer = path.push(next);
    assert(longer[0] == path[0]);
    assert forall|i: int| 0 <= i < longer.len() - 1 implies has_id(
        doc.objects,
        #[trigger] longer[i],
    ) && value_refers(object_at(doc.objects, longer[i])->0, longer[i + 1]) by {
        assert(longer[i] == path[i]);
        if i < path.len() - 1 {
            assert(longer[i + 1] == path[i + 1]);
        }
    }
    assert(longer.last() == next);
}

/// Marks the stored objects among `found` and puts the newly marked on the
/// work list.
fn mark_found(
    objects: &Vec<(ObjectId, Object)>,
    found: &Vec<ObjectId>,
    marks: &mut Vec<bool>,
    work: &mut Vec<usize>,
    Ghost(doc): Ghost<DocumentView>,
)
    requires
        doc.objects == objects_view(*objects),
        ids_ascending(doc.objects),
        old(marks)@.len() == objects.len(),
        forall|t: int| 0 <= t < found@.len() ==> reachable(doc, #[trigger] found@[t]),
        forall|j: int|
            0 <= j < old(marks)@.len() && #[trigger] old(marks)@[j] ==> reachable(
                doc,
                doc.objects[j].0,
            ),
        forall|w: int|
            0 <= w < old(work)@.len() ==> (#[trigger] old(work)@[w]) < old(marks)@.len() && old(marks)@[old(work)@[w] as int],
    ensures
        final(marks)@.len() == old(marks)@.len(),
        forall|j: int| 0 <= j < old(marks)@.len() && old(marks)@[j] ==> #[trigger] final(marks)@[j],
        forall|j: int|
            0 <= j < final(marks)@.len() && #[trigger] final(marks)@[j] ==> reachable(
                doc,
                doc.objects[j].0,
            ),
        forall|j: int|
            0 <= j < final(marks)@.len() && #[trigger] final(marks)@[j] && !old(marks)@[j]
                ==> final(work)@.contains(j as usize),
        forall|w: int|
            0 <= w < final(work)@.len() ==> (#[trigger] final(work)@[w]) < final(marks)@.len()
                && final(marks)@[final(work)@[w] as int],
        forall|w: int| 0 <= w < old(work)@.len() ==> final(work)@[w] == #[trigger] old(work)@[w],
        final(work)@.len() >= old(work)@.len(),
        forall|t: int|
            0 <= t < found@.len() && has_id(doc.objects, #[trigger] found@[t]) ==> final(marks)@[index_of(doc.objects, found@[t])],
        count_set(final(marks)@) >= count_set(old(marks)@),
        final(work)@.len() - old(work)@.len() == count_set(final(marks)@) - count_set(
            old(marks)@,
        ),
{
    let mut t: usize = 0;
    while t < found.len()
        invariant
            t <= found.len(),
            doc.objects == objects_view(*objects),
            ids_ascending(doc.objects),
            marks@.len() == objects.len(),
            marks@.len() == old(marks)@.len(),
            forall|u: int| 0 <= u < found@.len() ==> reachable(doc, #[trigger] found@[u]),
            forall|j: int| 0 <= j < old(marks)@.len() && old(marks)@[j] ==> #[trigger] marks@[j],
            forall|j: int|
                0 <= j < marks@.len() && #[trigger] marks@[j] ==> reachable(doc, doc.objects[j].0),
            forall|j: int|
                0 <= j < marks@.len() && #[trigger] marks@[j] && !old(marks)@[j] ==> work@.contains(
                    j as usize,
                ),
            forall|w: int|
                0 <= w < work@.len() ==> (#[trigger] work@[w]) < marks@.len() && marks@[work@[w] as int],
            forall|w: int| 0 <= w < old(work)@.len() ==> work@[w] == #[trigger] old(work)@[w],
            work@.len() >= old(work)@.len(),
            forall|u: int|
                0 <= u < t && has_id(doc.objects, #[trigger] found@[u]) ==> marks@[index_of(
                    doc.objects,
                    found@[u],
                )],
            count_set(marks@) >= count_set(old(marks)@),
            work@.len() - old(work)@.len() == count_set(marks@) - count_set(old(marks)@),
        decreases found.len() - t,
    {
        match position_in(objects, found[t]) {
            Some(j) => {
                if !marks[j] {
                    let ghost marks_before = marks@;
                    let ghost work_before = work@;
                    proof {
                        lemma_count_set(marks@, j as int);
                        assert(reachable(doc, found@[t as int]));
                    }
                    marks[j] = true;
                    work.push(j);
                    assert forall|i: int|
                        0 <= i < marks@.len() && #[trigger] marks@[i] && !old(marks)@[i]
                        implies work@.contains(i as usize) by {
                        if i == j {
                            assert(work@[work_before.len() as int] == j);
                        } else {
                            assert(marks_before[i]);
                            let w = choose|w: int|
                                0 <= w < work_before.len() && work_before[w] == i as usize;
                            assert(work@[w] == i as usize);
                        }
                    }
                }
            },
            None => {},
        }
        t += 1;
    }
}

/// Removes the objects that are not reachable from the trailer.
pub fn prune_objects(doc: &mut Document)
    ensures
        final(doc)@ == pruned(old(doc)@),
{
    let ghost before = doc@;
    let mut taken = Document::with_version("");
    std::mem::swap(doc, &mut taken);
    let (version, trailer, objects, max_id) = taken.into_parts();
    let mut objects = objects;
    let count: usize = objects.len();
    let mut marks: Vec<bool> = Vec::new();
    let mut i: usize = 0;
    while i < count
        invariant
            i <= count,
            marks@.len() == i,
            forall|j: int| 0 <= j < i ==> !(#[trigger] marks@[j]),
            count_set(marks@) == 0,
        decreases count - i,
    {
        let ghost prior = marks@;
        marks.push(false);
        assert(marks@.drop_last() =~= prior);
        i += 1;
    }
    let mut work: Vec<usize> = Vec::new();
    let mut found: Vec<ObjectId> = Vec::new();
    collect_entry_references(&trailer, &mut found);
    proof {
        assert forall|t: int| 0 <= t < found@.len() implies reachable(
            before,
            #[trigger] found@[t],
        ) by {
            assert(found@.contains(found@[t]));
            let path = seq![found@[t]];
            assert(is_path(before, path) && path.last() == found@[t]);
        }
    }
    mark_found(&objects, &found, &mut marks, &mut work, Ghost(before));
    proof {
        assert forall|id: ObjectId|
            entries_refer(before.trailer, id) && has_id(before.objects, id) implies marks@[index_of(
            before.objects,
            id,
        )] by {
            assert(found@.contains(id));
            let t = choose|t: int| 0 <= t < found@.len() && found@[t] == id;
            assert(has_id(before.objects, found@[t]));
        }
    }
    proof {
        lemma_count_bound(marks@);
    }
    while work.len() > 0
        invariant
            before.objects == objects_view(objects),
            before.trailer == trailer@,
            before.well_formed(),
            count == objects.len(),
            marks@.len() == count,
            forall|j: int|
                0 <= j < marks@.len() && #[trigger] marks@[j] ==> reachable(
                    before,
                    before.objects[j].0,
                ),
            forall|w: int|
                0 <= w < work@.len() ==> (#[trigger] work@[w]) < marks@.len() && marks@[work@[w] as int],
            forall|id: ObjectId|
                entries_refer(before.trailer, id) && has_id(before.objects, id)
                    ==> marks@[index_of(before.objects, id)],
            forall|j: int, id: ObjectId|
                0 <= j < marks@.len() && marks@[j] && !work@.contains(j as usize)
                    && #[trigger] value_refers(before.objects[j].1, id) && has_id(
                    before.objects,
                    id,
                ) ==> marks@[index_of(before.objects, id)],
            count_set(marks@) <= count,
        decreases 2 * (count - count_set(marks@)) + work@.len(),
    {
        let ghost work_before = work@;
        let ghost marks_before = marks@;
        let k = work.pop().unwrap();
        let ghost work_popped = work@;
        let ghost source = before.objects[k as int].0;
        let mut found: Vec<ObjectId> = Vec::new();
        collect_references(&objects[k].1, &mut found);
        proof {
            assert(marks@[k as int]);
            assert(reachable(before, source));
            assert(objects_view(objects)[k as int].1 == objects[k as int].1@);
            lemma_index_unique(before.objects, source, k as int);
            let path = choose|path: Seq<ObjectId>|
                #[trigger] is_path(before, path) && path.last() == source;
            assert forall|t: int| 0 <= t < found@.len() implies reachable(
                before,
                #[trigger] found@[t],
            ) by {
                assert(found@.contains(found@[t]));
                assert(value_refers(before.objects[k as int].1, found@[t]));
                assert(object_at(before.objects, source) == Some(before.objects[k as int].1));
                lemma_path_extended(before, path, found@[t]);
            }
        }
        mark_found(&objects, &found, &mut marks, &mut work, Ghost(before));
        proof {
            lemma_count_bound(marks@);
            assert forall|j: int, id: ObjectId|
                0 <= j < marks@.len() && marks@[j] && !work@.contains(j as usize)
                    && #[trigger] value_refers(before.objects[j].1, id) && has_id(
                    before.objects,
                    id,
                ) implies marks@[index_of(before.objects, id)] by {
                if j == k {
                    assert(found@.contains(id));
                    let t = choose|t: int| 0 <= t < found@.len() && found@[t] == id;
                    assert(has_id(before.objects, found@[t]));
                } else {
                    if !marks_before[j] {
                        assert(work@.contains(j as usize));
                    } else {
                        if work_before.contains(j as usize) {
                            let w = choose|w: int|
                                0 <= w < work_before.len() && work_before[w] == j as usize;
                            if w < work_popped.len() {
                                assert(work_popped[w] == j as usize);
                                assert(work@[w] == j as usize);
                            } else {
                                assert(j == k);
                            }
                        }
                        assert(marks_before[index_of(before.objects, id)]);
                    }
                }
            }
        }
    }
    proof {
        assert(marks_closed(before, marks@)) by {
            assert forall|j: int, id: ObjectId|
                0 <= j < marks@.len() && marks@[j] && #[trigger] value_refers(
                    before.objects[j].1,
                    id,
                ) && has_id(before.objects, id) implies marks@[index_of(before.objects, id)] by {
                assert(!work@.contains(j as usize));
            }
        }
    }
    let ghost keep = |e: (ObjectId, Value)| reachable(before, e.0);
    let mut kept: Vec<(ObjectId, Object)> = Vec::new();
    let ghost mut origin: Seq<int> = Seq::empty();
    let mut k: usize = 0;
    proof {
        reveal(Seq::filter);
        assert(before.objects.subrange(0, 0) =~= Seq::<(ObjectId, Value)>::empty());
    }
    while k < count
        invariant
            k <= count,
            count == objects.len(),
            count == before.objects.len(),
            marks@.len() == count,
            before.well_formed(),
            marks_closed(before, marks@),
            keep == (|e: (ObjectId, Value)| reachable(before, e.0)),
            forall|j: int|
                0 <= j < marks@.len() && #[trigger] marks@[j] ==> reachable(
                    before,
                    before.objects[j].0,
                ),
            forall|j: int| k <= j < count ==> (#[trigger] objects_view(objects)[j]) == before.objects[j],
            objects_view(kept) == before.objects.subrange(0, k as int).filter(keep),
            origin.len() == kept.len(),
            forall|a: int| 0 <= a < origin.len() ==> 0 <= (#[trigger] origin[a]) < k,
            forall|a: int, b: int|
                0 <= a < b < origin.len() ==> (#[trigger] origin[a]) < (#[trigger] origin[b]),
            forall|a: int|
                0 <= a < origin.len() ==> (#[trigger] objects_view(kept)[a])
                    == before.objects[origin[a]],
        decreases count - k,
    {
        let ghost prior = objects_view(objects);
        let ghost kept_before = objects_view(kept);
        let mut slot: (ObjectId, Object) = ((0, 0), Object::Null);
        std::mem::swap(&mut objects[k], &mut slot);
        proof {
            assert(prior[k as int] == before.objects[k as int]);
            assert forall|j: int| k < j < count implies (#[trigger] objects_view(objects)[j])
                == before.objects[j] by {
                assert(objects_view(objects)[j] == prior[j]);
            }
            let entry = before.objects[k as int];
            assert(before.objects.subrange(0, k + 1).drop_last() =~= before.objects.subrange(
                0,
                k as int,
            ));
            assert(before.objects.subrange(0, k + 1).last() == entry);
            reveal(Seq::filter);
            if reachable(before, entry.0) {
                let path = choose|path: Seq<ObjectId>|
                    #[trigger] is_path(before, path) && path.last() == entry.0;
                lemma_index_unique(before.objects, entry.0, k as int);
                lemma_path_marked(before, marks@, path);
            }
            assert(marks@[k as int] == keep(entry));
        }
        if marks[k] {
            kept.push(slot);
            proof {
                origin = origin.push(k as int);
                assert(objects_view(kept) =~= kept_before.push(before.objects[k as int]));
            }
        }
        k += 1;
    }
    proof {
        assert(before.objects.subrange(0, count as int) =~= before.objects);
        let after = objects_view(kept);
        assert forall|a: int, b: int| 0 <= a < b < after.len() implies id_less(
            (#[trigger] after[a]).0,
            (#[trigger] after[b]).0,
        ) by {
            assert(id_less(before.objects[origin[a]].0, before.objects[origin[b]].0));
        }
        assert forall|a: int| 0 <= a < after.len() implies (#[trigger] after[a]).0.0 <= max_id
            && match top_dict(after[a].1) {
            Some(d) => names_distinct(d),
            None => true,
        } by {
            assert(after[a] == before.objects[origin[a]]);
        }
    }
    let mut rebuilt = Document::from_parts(version, trailer, kept, max_id);
    std::mem::swap(doc, &mut rebuilt);
}

} // verus!
