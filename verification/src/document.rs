//! The object graph of one document: objects by identifier, the trailer and
//! the identifier watermark.

use crate::object::{
    array_view, lookup, name, names_distinct, with_entry, without_entry, Dictionary, Object,
    ObjectId, Value,
};
use vstd::prelude::*;
use vstd::string::*;

verus! {

/// How many references `resolve` follows before it gives up.
pub const DEREF_LIMIT: usize = 128;

/// The mathematical value of a document. `objects` is ordered by identifier.
pub struct DocumentView {
    pub version: Seq<char>,
    pub trailer: Seq<(Seq<u8>, Value)>,
    pub objects: Seq<(ObjectId, Value)>,
    pub max_id: u32,
}

/// A document: its objects ordered by identifier, its trailer, and a
/// watermark that no object number exceeds.
#[derive(Debug)]
pub struct Document {
    version: String,
    trailer: Dictionary,
    objects: Vec<(ObjectId, Object)>,
    max_id: u32,
}

/// The order of identifiers: by number, then by generation.
pub open spec fn id_less(a: ObjectId, b: ObjectId) -> bool {
    a.0 < b.0 || (a.0 == b.0 && a.1 < b.1)
}

/// The identifiers ascend strictly along the sequence.
pub open spec fn ids_ascending(objs: Seq<(ObjectId, Value)>) -> bool {
    forall|i: int, j: int|
        0 <= i < j < objs.len() ==> id_less((#[trigger] objs[i]).0, (#[trigger] objs[j]).0)
}

/// No object number exceeds `max_id`.
pub open spec fn ids_bounded(objs: Seq<(ObjectId, Value)>, max_id: u32) -> bool {
    forall|i: int| 0 <= i < objs.len() ==> (#[trigger] objs[i]).0.0 <= max_id
}

/// The dictionary at the top of a value: the dictionary itself, or the
/// dictionary of a stream.
pub open spec fn top_dict(v: Value) -> Option<Seq<(Seq<u8>, Value)>> {
    match v {
        Value::Dict(d) => Some(d),
        Value::Stream(d, _, _) => Some(d),
        _ => None,
    }
}

/// In no dictionary at the top of an object does a name occur twice.
pub open spec fn dicts_distinct(objs: Seq<(ObjectId, Value)>) -> bool {
    forall|i: int|
        0 <= i < objs.len() ==> match top_dict((#[trigger] objs[i]).1) {
            Some(d) => names_distinct(d),
            None => true,
        }
}

/// Some object carries the identifier `id`.
pub open spec fn has_id(objs: Seq<(ObjectId, Value)>, id: ObjectId) -> bool {
    exists|i: int| 0 <= i < objs.len() && (#[trigger] objs[i]).0 == id
}

/// The position of the object that carries `id`.
pub open spec fn index_of(objs: Seq<(ObjectId, Value)>, id: ObjectId) -> int {
    choose|i: int| 0 <= i < objs.len() && (#[trigger] objs[i]).0 == id
}

/// The object stored under `id`, if any.
pub open spec fn object_at(objs: Seq<(ObjectId, Value)>, id: ObjectId) -> Option<Value> {
    if has_id(objs, id) {
        Some(objs[index_of(objs, id)].1)
    } else {
        None
    }
}

/// `k` is where `id` belongs: everything before is smaller, nothing from
/// there on is.
pub open spec fn is_rank(objs: Seq<(ObjectId, Value)>, id: ObjectId, k: int) -> bool {
    &&& 0 <= k <= objs.len()
    &&& forall|j: int| 0 <= j < k ==> id_less((#[trigger] objs[j]).0, id)
    &&& forall|j: int| k <= j < objs.len() ==> !id_less((#[trigger] objs[j]).0, id)
}

/// The number of objects whose identifier is smaller than `id`.
pub open spec fn rank(objs: Seq<(ObjectId, Value)>, id: ObjectId) -> int {
    choose|k: int| is_rank(objs, id, k)
}

/// The objects after storing `v` under `id`: in place of the object that
/// carried `id`, or else at the place that the order gives it.
pub open spec fn objects_with(objs: Seq<(ObjectId, Value)>, id: ObjectId, v: Value) -> Seq<
    (ObjectId, Value),
> {
    if has_id(objs, id) {
        objs.update(index_of(objs, id), (id, v))
    } else {
        objs.insert(rank(objs, id), (id, v))
    }
}

/// The objects after deleting the one stored under `id`.
pub open spec fn objects_without(objs: Seq<(ObjectId, Value)>, id: ObjectId) -> Seq<
    (ObjectId, Value),
> {
    if has_id(objs, id) {
        objs.remove(index_of(objs, id))
    } else {
        objs
    }
}

/// Where a chain of references that starts at `id` ends: the identifier of
/// the first object on it that is no reference. `None` where an object is
/// missing or the chain is longer than `hops`.
pub open spec fn resolve_from(objs: Seq<(ObjectId, Value)>, id: ObjectId, hops: nat) -> Option<
    ObjectId,
>
    decreases hops,
{
    match object_at(objs, id) {
        None => None,
        Some(Value::Reference(next)) => if hops == 0 {
            None
        } else {
            resolve_from(objs, next, (hops - 1) as nat)
        },
        Some(_) => Some(id),
    }
}

/// The identifier that `id` resolves to.
pub open spec fn resolve(objs: Seq<(ObjectId, Value)>, id: ObjectId) -> Option<ObjectId> {
    resolve_from(objs, id, DEREF_LIMIT as nat)
}

/// The object that `id` resolves to.
pub open spec fn resolved(objs: Seq<(ObjectId, Value)>, id: ObjectId) -> Option<Value> {
    match resolve(objs, id) {
        Some(end) => object_at(objs, end),
        None => None,
    }
}

/// The identifiers held by the references among `kids`, in order.
pub open spec fn references_in(kids: Seq<Value>) -> Seq<ObjectId>
    decreases kids.len(),
{
    if kids.len() == 0 {
        Seq::empty()
    } else {
        match kids.last() {
            Value::Reference(id) => references_in(kids.drop_last()).push(id),
            _ => references_in(kids.drop_last()),
        }
    }
}

/// The reference objects to `ids`, in order.
pub open spec fn references_to(ids: Seq<ObjectId>) -> Seq<Value> {
    Seq::new(ids.len(), |i: int| Value::Reference(ids[i]))
}

impl DocumentView {
    /// The invariant of a document.
    pub open spec fn well_formed(self) -> bool {
        &&& names_distinct(self.trailer)
        &&& ids_ascending(self.objects)
        &&& ids_bounded(self.objects, self.max_id)
        &&& dicts_distinct(self.objects)
    }

    /// The object that `id` resolves to.
    pub open spec fn get(self, id: ObjectId) -> Option<Value> {
        resolved(self.objects, id)
    }

    /// The identifier of the catalog: what the trailer's `Root` reference
    /// resolves to, where that is a dictionary.
    pub open spec fn catalog_id(self) -> Option<ObjectId> {
        match lookup(self.trailer, name("Root")) {
            Some(Value::Reference(r)) => match resolve(self.objects, r) {
                Some(end) => match object_at(self.objects, end) {
                    Some(Value::Dict(_)) => Some(end),
                    _ => None,
                },
                None => None,
            },
            _ => None,
        }
    }

    /// The catalog dictionary.
    pub open spec fn catalog(self) -> Option<Seq<(Seq<u8>, Value)>> {
        match self.catalog_id() {
            Some(id) => match object_at(self.objects, id) {
                Some(Value::Dict(d)) => Some(d),
                _ => None,
            },
            None => None,
        }
    }

    /// The identifier of the page-tree root: what the catalog's `Pages`
    /// reference resolves to.
    pub open spec fn page_tree_id(self) -> Option<ObjectId> {
        match self.catalog() {
            Some(cat) => match lookup(cat, name("Pages")) {
                Some(Value::Reference(p)) => resolve(self.objects, p),
                _ => None,
            },
            None => None,
        }
    }

    /// The dictionary of the page-tree root.
    pub open spec fn page_tree(self) -> Option<Seq<(Seq<u8>, Value)>> {
        match self.page_tree_id() {
            Some(id) => match object_at(self.objects, id) {
                Some(Value::Dict(d)) => Some(d),
                _ => None,
            },
            None => None,
        }
    }

    /// The `Kids` array of the page-tree root.
    pub open spec fn kids(self) -> Option<Seq<Value>> {
        match self.page_tree() {
            Some(tree) => match lookup(tree, name("Kids")) {
                Some(Value::Array(kids)) => Some(kids),
                _ => None,
            },
            None => None,
        }
    }

    /// The pages in order: the identifiers that the references of the root's
    /// `Kids` array hold. Page number `n` is `pages()[n - 1]`.
    pub open spec fn pages(self) -> Seq<ObjectId> {
        match self.kids() {
            Some(kids) => references_in(kids),
            None => Seq::empty(),
        }
    }

    /// The document with `v` stored under `id`.
    pub open spec fn with_object(self, id: ObjectId, v: Value) -> DocumentView {
        DocumentView {
            objects: objects_with(self.objects, id, v),
            max_id: if id.0 > self.max_id {
                id.0
            } else {
                self.max_id
            },
            ..self
        }
    }
}

/// With ascending identifiers, the object that carries `id` is the only one.
pub proof fn lemma_index_unique(objs: Seq<(ObjectId, Value)>, id: ObjectId, i: int)
    requires
        ids_ascending(objs),
        0 <= i < objs.len(),
        objs[i].0 == id,
    ensures
        has_id(objs, id),
        index_of(objs, id) == i,
{
    let s = index_of(objs, id);
    if s < i {
        assert(id_less(objs[s].0, objs[i].0));
    } else if i < s {
        assert(id_less(objs[i].0, objs[s].0));
    }
}

/// With ascending identifiers, only one position is the rank of `id`.
pub proof fn lemma_rank_unique(objs: Seq<(ObjectId, Value)>, id: ObjectId, k: int)
    requires
        is_rank(objs, id, k),
    ensures
        rank(objs, id) == k,
{
    let r = rank(objs, id);
    if r < k {
        assert(id_less(objs[r].0, id));
    } else if k < r {
        assert(id_less(objs[k].0, id));
    }
}

/// Storing under `id` keeps the order, makes `id` present with the stored
/// value, and leaves every other identifier as it was.
pub proof fn lemma_objects_with(objs: Seq<(ObjectId, Value)>, id: ObjectId, v: Value)
    requires
        ids_ascending(objs),
    ensures
        ids_ascending(objects_with(objs, id, v)),
        object_at(objects_with(objs, id, v), id) == Some(v),
        forall|other: ObjectId|
            other != id ==> #[trigger] object_at(objects_with(objs, id, v), other) == object_at(
                objs,
                other,
            ),
        forall|other: ObjectId|
            #[trigger] has_id(objects_with(objs, id, v), other) <==> (other == id || has_id(
                objs,
                other,
            )),
{
    let w = objects_with(objs, id, v);
    if has_id(objs, id) {
        let at = index_of(objs, id);
        assert forall|i: int, j: int| 0 <= i < j < w.len() implies id_less(
            (#[trigger] w[i]).0,
            (#[trigger] w[j]).0,
        ) by {
            assert(w[i].0 == objs[i].0);
            assert(w[j].0 == objs[j].0);
        }
        lemma_index_unique(w, id, at);
        assert forall|other: ObjectId| other != id implies #[trigger] object_at(w, other)
            == object_at(objs, other) by {
            if has_id(objs, other) {
                let i = index_of(objs, other);
                assert(w[i] == objs[i]);
                lemma_index_unique(w, other, i);
            } else if has_id(w, other) {
                let i = index_of(w, other);
                assert(objs[i].0 == other);
            }
        }
        assert forall|other: ObjectId| #[trigger]
            has_id(w, other) <==> (other == id || has_id(objs, other)) by {
            if has_id(objs, other) {
                let i = index_of(objs, other);
                assert(w[i].0 == objs[i].0);
            }
            if has_id(w, other) {
                let i = index_of(w, other);
                assert(w[i].0 == objs[i].0);
            }
        }
    } else {
        lemma_rank_exists(objs, id);
        let k = rank(objs, id);
        assert forall|j: int| k <= j < objs.len() implies id_less(id, (#[trigger] objs[j]).0) by {
            assert(!id_less(objs[j].0, id));
            assert(objs[j].0 != id);
        }
        assert forall|i: int, j: int| 0 <= i < j < w.len() implies id_less(
            (#[trigger] w[i]).0,
            (#[trigger] w[j]).0,
        ) by {
            let si = if i < k { i } else { i - 1 };
            let sj = if j < k { j } else { j - 1 };
            if i != k {
                assert(w[i] == objs[si]);
            }
            if j != k {
                assert(w[j] == objs[sj]);
            }
        }
        assert(w[k] == (id, v));
        lemma_index_unique(w, id, k);
        assert forall|other: ObjectId| other != id implies #[trigger] object_at(w, other)
            == object_at(objs, other) by {
            if has_id(objs, other) {
                let i = index_of(objs, other);
                let wi = if i < k { i } else { i + 1 };
                assert(w[wi] == objs[i]);
                lemma_index_unique(w, other, wi);
            } else if has_id(w, other) {
                let i = index_of(w, other);
                let si = if i < k { i } else { i - 1 };
                assert(w[i] == objs[si]);
            }
        }
        assert forall|other: ObjectId| #[trigger]
            has_id(w, other) <==> (other == id || has_id(objs, other)) by {
            if has_id(objs, other) {
                let i = index_of(objs, other);
                let wi = if i < k { i } else { i + 1 };
                assert(w[wi] == objs[i]);
            }
            if has_id(w, other) && other != id {
                let i = index_of(w, other);
                let si = if i < k { i } else { i - 1 };
                assert(w[i] == objs[si]);
            }
        }
    }
}

/// Storing an object whose top dictionary has distinct names keeps a
/// document well formed.
pub proof fn lemma_stored_kept(doc: DocumentView, id: ObjectId, v: Value)
    requires
        ids_ascending(doc.objects),
        ids_bounded(doc.objects, doc.max_id),
        dicts_distinct(doc.objects),
        match top_dict(v) {
            Some(d) => names_distinct(d),
            None => true,
        },
    ensures
        ids_ascending(doc.with_object(id, v).objects),
        ids_bounded(doc.with_object(id, v).objects, doc.with_object(id, v).max_id),
        dicts_distinct(doc.with_object(id, v).objects),
{
    lemma_objects_with(doc.objects, id, v);
    let w = doc.with_object(id, v).objects;
    let raised = doc.with_object(id, v).max_id;
    assert forall|i: int| 0 <= i < w.len() implies (#[trigger] w[i]).0.0 <= raised && match top_dict(
        w[i].1,
    ) {
        Some(d) => names_distinct(d),
        None => true,
    } by {
        lemma_index_unique(w, w[i].0, i);
        if w[i].0 != id {
            assert(has_id(w, w[i].0));
            assert(has_id(doc.objects, w[i].0));
            let j = index_of(doc.objects, w[i].0);
            assert(doc.objects[j].0.0 <= doc.max_id);
            assert(object_at(w, w[i].0) == object_at(doc.objects, w[i].0));
        } else {
            assert(object_at(w, id) == Some(v));
        }
    }
}

/// With ascending identifiers, every identifier has a rank.
pub proof fn lemma_rank_exists(objs: Seq<(ObjectId, Value)>, id: ObjectId)
    requires
        ids_ascending(objs),
    ensures
        is_rank(objs, id, rank(objs, id)),
    decreases objs.len(),
{
    if objs.len() == 0 {
        assert(is_rank(objs, id, 0));
    } else {
        let front = objs.drop_last();
        assert forall|i: int, j: int| 0 <= i < j < front.len() implies id_less(
            (#[trigger] front[i]).0,
            (#[trigger] front[j]).0,
        ) by {
            assert(front[i] == objs[i]);
            assert(front[j] == objs[j]);
        }
        lemma_rank_exists(front, id);
        let k = rank(front, id);
        let n = objs.len() - 1;
        if id_less(objs[n].0, id) {
            assert forall|j: int| 0 <= j < n + 1 implies id_less((#[trigger] objs[j]).0, id) by {
                if j < n {
                    assert(id_less(objs[j].0, objs[n].0));
                }
            }
            assert(is_rank(objs, id, n + 1));
        } else {
            if k < n {
                assert(front[k] == objs[k]);
            }
            assert forall|j: int| 0 <= j < k implies id_less((#[trigger] objs[j]).0, id) by {
                assert(front[j] == objs[j]);
            }
            assert forall|j: int| k <= j < objs.len() implies !id_less(
                (#[trigger] objs[j]).0,
                id,
            ) by {
                if j < n {
                    assert(front[j] == objs[j]);
                }
            }
            assert(is_rank(objs, id, k));
        }
    }
}

/// Deleting `id` keeps the order, makes `id` absent, and leaves every other
/// identifier as it was.
pub proof fn lemma_objects_without(objs: Seq<(ObjectId, Value)>, id: ObjectId)
    requires
        ids_ascending(objs),
    ensures
        ids_ascending(objects_without(objs, id)),
        !has_id(objects_without(objs, id), id),
        forall|other: ObjectId|
            other != id ==> #[trigger] object_at(objects_without(objs, id), other) == object_at(
                objs,
                other,
            ),
{
    let w = objects_without(objs, id);
    if has_id(objs, id) {
        let k = index_of(objs, id);
        assert forall|i: int| 0 <= i < w.len() implies (#[trigger] w[i]) == objs[if i < k {
            i
        } else {
            i + 1
        }] by {}
        assert forall|i: int, j: int| 0 <= i < j < w.len() implies id_less(
            (#[trigger] w[i]).0,
            (#[trigger] w[j]).0,
        ) by {
            let si = if i < k { i } else { i + 1 };
            let sj = if j < k { j } else { j + 1 };
            assert(w[i] == objs[si]);
            assert(w[j] == objs[sj]);
        }
        if has_id(w, id) {
            let i = index_of(w, id);
            let si = if i < k { i } else { i + 1 };
            assert(w[i] == objs[si]);
            lemma_index_unique(objs, id, si);
        }
        assert forall|other: ObjectId| other != id implies #[trigger] object_at(w, other)
            == object_at(objs, other) by {
            if has_id(objs, other) {
                let i = index_of(objs, other);
                let wi = if i < k { i } else { i - 1 };
                assert(w[wi] == objs[i]);
                lemma_index_unique(w, other, wi);
            } else if has_id(w, other) {
                let i = index_of(w, other);
                let si = if i < k { i } else { i + 1 };
                assert(w[i] == objs[si]);
            }
        }
    }
}

/// What the object stored under `id` links to: nothing where no object is
/// stored, the target where it is a reference, no target where it is
/// anything else.
pub open spec fn link(objs: Seq<(ObjectId, Value)>, id: ObjectId) -> Option<Option<ObjectId>> {
    match object_at(objs, id) {
        None => None,
        Some(Value::Reference(t)) => Some(Some(t)),
        Some(_) => Some(None),
    }
}

/// Where every object of `a` links in `b` as it does in `a`, an identifier
/// that resolves in `a` resolves in `b` to the same end.
pub proof fn lemma_resolve_preserved(
    a: Seq<(ObjectId, Value)>,
    b: Seq<(ObjectId, Value)>,
    id: ObjectId,
    hops: nat,
)
    requires
        forall|x: ObjectId| has_id(a, x) ==> #[trigger] link(b, x) == link(a, x),
        resolve_from(a, id, hops) is Some,
    ensures
        resolve_from(b, id, hops) == resolve_from(a, id, hops),
    decreases hops,
{
    assert(has_id(a, id));
    assert(link(b, id) == link(a, id));
    match object_at(a, id) {
        Some(Value::Reference(next)) => {
            lemma_resolve_preserved(a, b, next, (hops - 1) as nat);
        },
        _ => {},
    }
}

/// An identifier that resolves, resolves to an object that is stored and is
/// no reference.
pub proof fn lemma_resolve_end(objs: Seq<(ObjectId, Value)>, id: ObjectId, hops: nat)
    requires
        resolve_from(objs, id, hops) is Some,
    ensures
        link(objs, resolve_from(objs, id, hops)->0) == Some(None::<ObjectId>),
        has_id(objs, resolve_from(objs, id, hops)->0),
    decreases hops,
{
    match object_at(objs, id) {
        Some(Value::Reference(next)) => {
            lemma_resolve_end(objs, next, (hops - 1) as nat);
        },
        _ => {},
    }
}

/// Storing under an identifier that is larger than all others adds the
/// object at the end.
pub proof fn lemma_push_largest(objs: Seq<(ObjectId, Value)>, id: ObjectId, v: Value)
    requires
        ids_ascending(objs),
        forall|i: int| 0 <= i < objs.len() ==> id_less((#[trigger] objs[i]).0, id),
    ensures
        !has_id(objs, id),
        objects_with(objs, id, v) == objs.push((id, v)),
{
    if has_id(objs, id) {
        let i = index_of(objs, id);
        assert(id_less(objs[i].0, id));
    }
    assert(is_rank(objs, id, objs.len() as int));
    lemma_rank_unique(objs, id, objs.len() as int);
    assert(objs.insert(objs.len() as int, (id, v)) =~= objs.push((id, v)));
}

/// Storing a value that is no reference, in place of one that was none
/// either or under a new identifier, keeps every link of the objects that
/// were there.
pub proof fn lemma_links_kept(objs: Seq<(ObjectId, Value)>, id: ObjectId, v: Value)
    requires
        ids_ascending(objs),
        !(v is Reference),
        match object_at(objs, id) {
            Some(Value::Reference(_)) => false,
            _ => true,
        },
    ensures
        forall|x: ObjectId|
            has_id(objs, x) ==> #[trigger] link(objects_with(objs, id, v), x) == link(objs, x),
{
    lemma_objects_with(objs, id, v);
    assert forall|x: ObjectId| has_id(objs, x) implies #[trigger] link(
        objects_with(objs, id, v),
        x,
    ) == link(objs, x) by {
        if x != id {
            assert(object_at(objects_with(objs, id, v), x) == object_at(objs, x));
        }
    }
}

/// Whether `a` comes before `b` in the order of identifiers.
pub fn id_before(a: ObjectId, b: ObjectId) -> (r: bool)
    ensures
        r == id_less(a, b),
{
    a.0 < b.0 || (a.0 == b.0 && a.1 < b.1)
}

/// The identifiers and values of a vector of objects, in order.
pub open spec fn objects_view(v: Vec<(ObjectId, Object)>) -> Seq<(ObjectId, Value)> {
    Seq::new(v.len() as nat, |i: int| (v[i].0, v[i].1@))
}

/// The rank of `id` among `objects`: the position of the first object that
/// is not smaller.
pub fn rank_in(objects: &Vec<(ObjectId, Object)>, id: ObjectId) -> (k: usize)
    requires
        ids_ascending(objects_view(*objects)),
    ensures
        is_rank(objects_view(*objects), id, k as int),
{
    let ghost objs = objects_view(*objects);
    let mut lo: usize = 0;
    let mut hi: usize = objects.len();
    while lo < hi
        invariant
            objs == objects_view(*objects),
            ids_ascending(objs),
            lo <= hi <= objects.len(),
            forall|j: int| 0 <= j < lo ==> id_less((#[trigger] objs[j]).0, id),
            forall|j: int| hi <= j < objects.len() ==> !id_less((#[trigger] objs[j]).0, id),
        decreases hi - lo,
    {
        let mid: usize = lo + (hi - lo) / 2;
        assert(objs[mid as int].0 == objects@[mid as int].0);
        if id_before(objects[mid].0, id) {
            assert forall|j: int| 0 <= j < mid + 1 implies id_less((#[trigger] objs[j]).0, id) by {
                if j < mid {
                    assert(id_less(objs[j].0, objs[mid as int].0));
                }
            }
            lo = mid + 1;
        } else {
            assert forall|j: int| mid <= j < objects.len() implies !id_less(
                (#[trigger] objs[j]).0,
                id,
            ) by {
                if mid < j {
                    assert(id_less(objs[mid as int].0, objs[j].0));
                }
            }
            hi = mid;
        }
    }
    lo
}

/// The position of the object stored under `id` among `objects`.
pub fn position_in(objects: &Vec<(ObjectId, Object)>, id: ObjectId) -> (r: Option<usize>)
    requires
        ids_ascending(objects_view(*objects)),
    ensures
        match r {
            Some(i) => i < objects.len() && objects_view(*objects)[i as int].0 == id && has_id(
                objects_view(*objects),
                id,
            ) && index_of(objects_view(*objects), id) == i,
            None => !has_id(objects_view(*objects), id),
        },
{
    let ghost objs = objects_view(*objects);
    let k = rank_in(objects, id);
    if k < objects.len() && objects[k].0.0 == id.0 && objects[k].0.1 == id.1 {
        proof {
            assert(objs[k as int].0 == objects@[k as int].0);
            lemma_index_unique(objs, id, k as int);
        }
        Some(k)
    } else {
        proof {
            if k < objects.len() {
                assert(objs[k as int].0 == objects@[k as int].0);
            }
            if has_id(objs, id) {
                let i = index_of(objs, id);
                if i < k {
                    assert(id_less(objs[i].0, id));
                } else if i > k {
                    assert(id_less(objs[k as int].0, objs[i].0));
                    assert(!id_less(objs[k as int].0, id));
                }
            }
        }
        None
    }
}

impl View for Document {
    type V = DocumentView;

    closed spec fn view(&self) -> DocumentView {
        DocumentView {
            version: self.version@,
            trailer: self.trailer@,
            objects: objects_view(self.objects),
            max_id: self.max_id,
        }
    }
}

impl Clone for Document {
    fn clone(&self) -> (r: Self)
        ensures
            r@ == self@,
    {
        proof {
            use_type_invariant(self);
        }
        let mut out: Vec<(ObjectId, Object)> = Vec::new();
        let mut i: usize = 0;
        while i < self.objects.len()
            invariant
                i <= self.objects.len(),
                out@.len() == i,
                forall|j: int|
                    0 <= j < i ==> out@[j].0 == self.objects@[j].0 && out@[j].1@
                        == self.objects@[j].1@,
            decreases self.objects.len() - i,
        {
            let id = self.objects[i].0;
            let o = self.objects[i].1.clone();
            out.push((id, o));
            i += 1;
        }
        assert(objects_view(out) =~= objects_view(self.objects));
        Document {
            version: self.version.clone(),
            trailer: self.trailer.clone(),
            objects: out,
            max_id: self.max_id,
        }
    }
}

impl Document {
    /// The invariant of a document: its identifiers ascend and none exceeds
    /// the watermark.
    #[verifier::type_invariant]
    pub closed spec fn well_formed(&self) -> bool {
        &&& ids_ascending(self@.objects)
        &&& ids_bounded(self@.objects, self@.max_id)
        &&& dicts_distinct(self@.objects)
    }

    /// An empty document of the given version.
    pub fn with_version(version: &str) -> (d: Document)
        ensures
            d@.version == version@,
            d@.trailer.len() == 0,
            d@.objects.len() == 0,
            d@.max_id == 0,
    {
        let d = Document {
            version: version.to_owned(),
            trailer: Dictionary::new(),
            objects: Vec::new(),
            max_id: 0,
        };
        d
    }

    /// That a document is well formed.
    pub fn is_well_formed(&self)
        ensures
            self@.well_formed(),
    {
        proof {
            use_type_invariant(self);
        }
        self.trailer.names_are_distinct();
    }

    /// The version of the file format.
    pub fn version(&self) -> (v: &String)
        ensures
            v@ == self@.version,
    {
        &self.version
    }

    /// The watermark: no object number exceeds it.
    pub fn max_id(&self) -> (m: u32)
        ensures
            m == self@.max_id,
    {
        self.max_id
    }

    /// The trailer dictionary.
    pub fn trailer(&self) -> (t: &Dictionary)
        ensures
            t@ == self@.trailer,
    {
        &self.trailer
    }

    /// Stores `value` under `key` in the trailer.
    pub fn trailer_set(&mut self, key: Vec<u8>, value: Object)
        ensures
            final(self)@ == (DocumentView {
                trailer: with_entry(old(self)@.trailer, key@, value@),
                ..old(self)@
            }),
    {
        proof {
            use_type_invariant(&*self);
        }
        let mut trailer = Dictionary::new();
        std::mem::swap(&mut self.trailer, &mut trailer);
        trailer.set(key, value);
        std::mem::swap(&mut self.trailer, &mut trailer);
    }

    /// Deletes `key` from the trailer and returns what was stored there.
    pub fn trailer_remove(&mut self, key: &[u8]) -> (r: Option<Object>)
        ensures
            final(self)@ == (DocumentView {
                trailer: without_entry(old(self)@.trailer, key@),
                ..old(self)@
            }),
            match r {
                Some(o) => lookup(old(self)@.trailer, key@) == Some(o@),
                None => lookup(old(self)@.trailer, key@) is None,
            },
    {
        proof {
            use_type_invariant(&*self);
        }
        let mut trailer = Dictionary::new();
        std::mem::swap(&mut self.trailer, &mut trailer);
        let r = trailer.remove(key);
        std::mem::swap(&mut self.trailer, &mut trailer);
        r
    }

    /// The number of objects.
    pub fn object_count(&self) -> (n: usize)
        ensures
            n == self@.objects.len(),
    {
        self.objects.len()
    }

    /// The identifier of the object at position `i` of the order.
    pub fn id_at(&self, i: usize) -> (id: ObjectId)
        requires
            i < self@.objects.len(),
        ensures
            id == self@.objects[i as int].0,
    {
        self.objects[i].0
    }

    /// The object at position `i` of the order.
    pub fn object_at(&self, i: usize) -> (o: &Object)
        requires
            i < self@.objects.len(),
        ensures
            o@ == self@.objects[i as int].1,
    {
        &self.objects[i].1
    }

    /// The rank of `id`: the position of the first object that is not
    /// smaller.
    fn search(&self, id: ObjectId) -> (k: usize)
        ensures
            is_rank(self@.objects, id, k as int),
    {
        proof {
            use_type_invariant(self);
        }
        rank_in(&self.objects, id)
    }

    /// The position of the object stored under `id`.
    fn position(&self, id: ObjectId) -> (r: Option<usize>)
        ensures
            match r {
                Some(i) => i < self@.objects.len() && self@.objects[i as int].0 == id && has_id(
                    self@.objects,
                    id,
                ) && index_of(self@.objects, id) == i,
                None => !has_id(self@.objects, id),
            },
    {
        proof {
            use_type_invariant(self);
        }
        position_in(&self.objects, id)
    }

    /// Whether an object is stored under `id`.
    pub fn has_object(&self, id: ObjectId) -> (b: bool)
        ensures
            b == has_id(self@.objects, id),
    {
        self.position(id).is_some()
    }

    /// The object stored under `id` itself, a reference not followed.
    pub fn get_direct(&self, id: ObjectId) -> (r: Option<&Object>)
        ensures
            match r {
                Some(o) => object_at(self@.objects, id) == Some(o@),
                None => object_at(self@.objects, id) is None,
            },
    {
        match self.position(id) {
            Some(i) => Some(&self.objects[i].1),
            None => None,
        }
    }

    /// The identifier that `id` resolves to: the end of the chain of
    /// references that starts there.
    pub fn resolve_id(&self, id: ObjectId) -> (r: Option<ObjectId>)
        ensures
            r == resolve(self@.objects, id),
    {
        let mut current = id;
        let mut hops: usize = DEREF_LIMIT;
        loop
            invariant
                hops <= DEREF_LIMIT,
                resolve(self@.objects, id) == resolve_from(self@.objects, current, hops as nat),
            decreases hops,
        {
            match self.get_direct(current) {
                None => {
                    return None;
                },
                Some(o) => match o.as_reference() {
                    Some(next) => {
                        if hops == 0 {
                            return None;
                        }
                        current = next;
                        hops -= 1;
                    },
                    None => {
                        return Some(current);
                    },
                },
            }
        }
    }

    /// The object that `id` resolves to.
    pub fn get_object(&self, id: ObjectId) -> (r: Option<&Object>)
        ensures
            match r {
                Some(o) => self@.get(id) == Some(o@),
                None => self@.get(id) is None,
            },
    {
        match self.resolve_id(id) {
            Some(end) => self.get_direct(end),
            None => None,
        }
    }

    /// The dictionary that `id` resolves to.
    pub fn get_dictionary(&self, id: ObjectId) -> (r: Option<&Dictionary>)
        ensures
            match self@.get(id) {
                Some(Value::Dict(d)) => r matches Some(x) && x@ == d,
                _ => r is None,
            },
    {
        match self.get_object(id) {
            Some(o) => o.as_dict(),
            None => None,
        }
    }

    /// Stores `object` under `id`, in place of what was there, and raises the
    /// watermark to the number of `id` where it was below.
    pub fn set_object(&mut self, id: ObjectId, object: Object)
        ensures
            final(self)@ == old(self)@.with_object(id, object@),
    {
        proof {
            use_type_invariant(&*self);
            lemma_objects_with(self@.objects, id, object@);
        }
        match &object {
            Object::Dictionary(d) => {
                d.names_are_distinct();
            },
            Object::Stream(s) => {
                s.dict.names_are_distinct();
            },
            _ => {},
        }
        let ghost before = self@;
        let k = self.search(id);
        proof {
            lemma_rank_unique(before.objects, id, k as int);
        }
        let found = k < self.objects.len() && self.objects[k].0.0 == id.0 && self.objects[k].0.1
            == id.1;
        let mut objects: Vec<(ObjectId, Object)> = Vec::new();
        let raised: u32 = if id.0 > self.max_id {
            id.0
        } else {
            self.max_id
        };
        self.max_id = raised;
        std::mem::swap(&mut self.objects, &mut objects);
        if found {
            proof {
                lemma_index_unique(before.objects, id, k as int);
            }
            objects[k] = (id, object);
        } else {
            proof {
                if has_id(before.objects, id) {
                    let i = index_of(before.objects, id);
                    if i < k {
                        assert(id_less(before.objects[i].0, id));
                    } else if i > k {
                        assert(id_less(before.objects[k as int].0, before.objects[i].0));
                        assert(!id_less(before.objects[k as int].0, id));
                    }
                }
            }
            objects.insert(k, (id, object));
        }
        assert(objects_view(objects) =~= objects_with(before.objects, id, object@));
        proof {
            lemma_stored_kept(before, id, object@);
        }
        std::mem::swap(&mut self.objects, &mut objects);
    }

    /// The identifier of the catalog.
    pub fn catalog_id(&self) -> (r: Option<ObjectId>)
        ensures
            r == self@.catalog_id(),
    {
        let root = match self.trailer.get("Root".as_bytes()) {
            Some(o) => match o.as_reference() {
                Some(id) => id,
                None => {
                    return None;
                },
            },
            None => {
                return None;
            },
        };
        match self.resolve_id(root) {
            Some(end) => match self.get_direct(end) {
                Some(o) => match o.as_dict() {
                    Some(_) => Some(end),
                    None => None,
                },
                None => None,
            },
            None => None,
        }
    }

    /// The catalog dictionary.
    pub fn catalog(&self) -> (r: Option<&Dictionary>)
        ensures
            match self@.catalog() {
                Some(d) => r matches Some(x) && x@ == d,
                None => r is None,
            },
    {
        match self.catalog_id() {
            Some(id) => match self.get_direct(id) {
                Some(o) => o.as_dict(),
                None => None,
            },
            None => None,
        }
    }

    /// The identifier of the page-tree root.
    pub fn page_tree_id(&self) -> (r: Option<ObjectId>)
        ensures
            r == self@.page_tree_id(),
    {
        match self.catalog() {
            Some(cat) => match cat.get("Pages".as_bytes()) {
                Some(o) => match o.as_reference() {
                    Some(p) => self.resolve_id(p),
                    None => None,
                },
                None => None,
            },
            None => None,
        }
    }

    /// The dictionary of the page-tree root.
    pub fn page_tree(&self) -> (r: Option<&Dictionary>)
        ensures
            match self@.page_tree() {
                Some(d) => r matches Some(x) && x@ == d,
                None => r is None,
            },
    {
        match self.page_tree_id() {
            Some(id) => match self.get_direct(id) {
                Some(o) => o.as_dict(),
                None => None,
            },
            None => None,
        }
    }

    /// The pages in order: element `n - 1` is the identifier of page `n`.
    pub fn get_pages(&self) -> (pages: Vec<ObjectId>)
        ensures
            pages@ == self@.pages(),
    {
        let mut pages: Vec<ObjectId> = Vec::new();
        let kids = match self.page_tree() {
            Some(tree) => match tree.get("Kids".as_bytes()) {
                Some(o) => match o.as_array() {
                    Some(a) => a,
                    None => {
                        return pages;
                    },
                },
                None => {
                    return pages;
                },
            },
            None => {
                return pages;
            },
        };
        let ghost all = array_view(*kids);
        let mut i: usize = 0;
        assert(all.subrange(0, 0) =~= Seq::<Value>::empty());
        while i < kids.len()
            invariant
                i <= kids.len(),
                all == array_view(*kids),
                pages@ == references_in(all.subrange(0, i as int)),
            decreases kids.len() - i,
        {
            proof {
                assert(all.subrange(0, i + 1).drop_last() =~= all.subrange(0, i as int));
                assert(all.subrange(0, i + 1).last() == kids[i as int]@);
            }
            match kids[i].as_reference() {
                Some(id) => {
                    pages.push(id);
                },
                None => {},
            }
            i += 1;
        }
        assert(all.subrange(0, i as int) =~= all);
        pages
    }

    /// Deletes the object stored under `id` itself and returns it.
    pub fn remove_object(&mut self, id: ObjectId) -> (r: Option<Object>)
        ensures
            final(self)@ == (DocumentView {
                objects: objects_without(old(self)@.objects, id),
                ..old(self)@
            }),
            match r {
                Some(o) => object_at(old(self)@.objects, id) == Some(o@),
                None => object_at(old(self)@.objects, id) is None,
            },
    {
        proof {
            use_type_invariant(&*self);
            lemma_objects_without(self@.objects, id);
        }
        let ghost before = self@;
        match self.position(id) {
            Some(i) => {
                let mut objects: Vec<(ObjectId, Object)> = Vec::new();
                std::mem::swap(&mut self.objects, &mut objects);
                let removed = objects.remove(i);
                assert(objects_view(objects) =~= objects_without(before.objects, id));
                assert forall|j: int| 0 <= j < objects.len() implies (#[trigger] objects_view(
                    objects,
                )[j]).0.0 <= before.max_id && match top_dict(objects_view(objects)[j].1) {
                    Some(d) => names_distinct(d),
                    None => true,
                } by {
                    let k = if j < i { j } else { j + 1 };
                    assert(objects_view(objects)[j] == before.objects[k]);
                }
                std::mem::swap(&mut self.objects, &mut objects);
                Some(removed.1)
            },
            None => None,
        }
    }

    /// Takes the document apart into its version, trailer, objects in
    /// order and watermark.
    pub fn into_parts(self) -> (parts: (String, Dictionary, Vec<(ObjectId, Object)>, u32))
        ensures
            parts.0@ == self@.version,
            parts.1@ == self@.trailer,
            objects_view(parts.2) == self@.objects,
            parts.3 == self@.max_id,
            self@.well_formed(),
    {
        proof {
            use_type_invariant(&self);
        }
        self.trailer.names_are_distinct();
        (self.version, self.trailer, self.objects, self.max_id)
    }

    /// A document of the given parts.
    pub fn from_parts(
        version: String,
        trailer: Dictionary,
        objects: Vec<(ObjectId, Object)>,
        max_id: u32,
    ) -> (d: Document)
        requires
            ids_ascending(objects_view(objects)),
            ids_bounded(objects_view(objects), max_id),
            dicts_distinct(objects_view(objects)),
        ensures
            d@ == (DocumentView {
                version: version@,
                trailer: trailer@,
                objects: objects_view(objects),
                max_id,
            }),
    {
        Document { version, trailer, objects, max_id }
    }

    /// Takes over the objects of `other`, all of whose numbers lie above the
    /// watermark, and raises the watermark to that of `other` where it is
    /// higher.
    pub fn absorb(&mut self, other: Document)
        requires
            forall|i: int|
                0 <= i < other@.objects.len() ==> (#[trigger] other@.objects[i]).0.0 > old(
                    self,
                )@.max_id,
        ensures
            final(self)@ == (DocumentView {
                objects: old(self)@.objects + other@.objects,
                max_id: if other@.max_id > old(self)@.max_id {
                    other@.max_id
                } else {
                    old(self)@.max_id
                },
                ..old(self)@
            }),
    {
        let ghost before = self@;
        let mut taken = Document::with_version("");
        std::mem::swap(self, &mut taken);
        let (version, trailer, objects, max_id) = taken.into_parts();
        let (_, _, added, added_max) = other.into_parts();
        let mut objects = objects;
        let mut added = added;
        objects.append(&mut added);
        let raised: u32 = if added_max > max_id {
            added_max
        } else {
            max_id
        };
        let ghost joined = objects_view(objects);
        assert(joined =~= before.objects + other@.objects);
        assert forall|i: int, j: int| 0 <= i < j < joined.len() implies id_less(
            (#[trigger] joined[i]).0,
            (#[trigger] joined[j]).0,
        ) by {
            let n = before.objects.len() as int;
            if j < n {
                assert(id_less(before.objects[i].0, before.objects[j].0));
            } else if i >= n {
                assert(id_less(other@.objects[i - n].0, other@.objects[j - n].0));
            } else {
                assert(before.objects[i].0.0 <= before.max_id);
                assert(other@.objects[j - n].0.0 > before.max_id);
            }
        }
        assert forall|i: int| 0 <= i < joined.len() implies (#[trigger] joined[i]).0.0 <= raised
            && match top_dict(joined[i].1) {
            Some(d) => names_distinct(d),
            None => true,
        } by {
            let n = before.objects.len() as int;
            if i < n {
                assert(joined[i] == before.objects[i]);
            } else {
                assert(joined[i] == other@.objects[i - n]);
            }
        }
        let mut rebuilt = Document::from_parts(version, trailer, objects, raised);
        std::mem::swap(self, &mut rebuilt);
    }

    /// Raises the watermark to `to` where it is below.
    pub fn raise_max_id(&mut self, to: u32)
        ensures
            final(self)@ == (DocumentView {
                max_id: if to > old(self)@.max_id {
                    to
                } else {
                    old(self)@.max_id
                },
                ..old(self)@
            }),
    {
        proof {
            use_type_invariant(&*self);
        }
        if to > self.max_id {
            self.max_id = to;
        }
    }

    /// A fresh identifier: the watermark, raised by one, with generation 0.
    /// `None` where the watermark cannot be raised.
    pub fn new_object_id(&mut self) -> (r: Option<ObjectId>)
        ensures
            match r {
                Some(id) => {
                    &&& old(self)@.max_id < u32::MAX
                    &&& id == ((old(self)@.max_id + 1) as u32, 0u16)
                    &&& final(self)@ == (DocumentView { max_id: id.0, ..old(self)@ })
                    &&& !has_id(old(self)@.objects, id)
                },
                None => old(self)@.max_id == u32::MAX && final(self)@ == old(self)@,
            },
    {
        proof {
            use_type_invariant(&*self);
        }
        if self.max_id == u32::MAX {
            return None;
        }
        let ghost before = self@;
        let next: u32 = self.max_id + 1;
        self.max_id = next;
        proof {
            if has_id(before.objects, (next, 0u16)) {
                let i = index_of(before.objects, (next, 0u16));
                assert(before.objects[i].0.0 <= before.max_id);
            }
        }
        Some((next, 0))
    }
}

} // verus!
