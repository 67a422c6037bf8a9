//! Turning every page of a document: what each object becomes, and that
//! two quarter turns of a document are a half turn of it.

use crate::document::{
    has_id, lemma_index_unique, lemma_links_kept, lemma_resolve_end, lemma_resolve_preserved,
    link, resolve, DocumentView, DEREF_LIMIT,
};
use crate::merge::closure::{
    lemma_object_at_position, lemma_pages_rotated_sound, lemma_stored_names, sound,
};
use crate::merge::laws::lemma_with_entry_twice;
use crate::merge::pages::{
    count_of, rotated, rotation_of, with_page_rotated, with_pages_rotated,
};
use crate::merge::paging::{lemma_page_tree_kept, lemma_pages_rotated_pages};
use crate::names::lemma_tree_names_differ;
use crate::object::{lemma_with_entry, lookup, name, with_entry, ObjectId, Value};
use vstd::prelude::*;

verus! {

/// How many of `ids` resolve to `x`.
pub open spec fn turns(objs: Seq<(ObjectId, Value)>, ids: Seq<ObjectId>, x: ObjectId) -> nat
    decreases ids.len(),
{
    if ids.len() == 0 {
        0
    } else {
        let more: nat = if resolve(objs, ids.last()) == Some(x) {
            1
        } else {
            0
        };
        turns(objs, ids.drop_last(), x) + more
    }
}

/// An object after `n` turns by `degrees`: a dictionary that is turned at
/// least once records its rotation raised by the turns, modulo 360; any
/// other object is as it was.
pub open spec fn turned(v: Value, n: nat, degrees: i64) -> Value {
    match v {
        Value::Dict(page) => if n > 0 {
            Value::Dict(
                with_entry(
                    page,
                    name("Rotate"),
                    Value::Integer(((rotation_of(page) + n * degrees) % 360) as i64),
                ),
            )
        } else {
            v
        },
        _ => v,
    }
}

/// Whether each of `ids` resolves to a dictionary.
pub open spec fn turnable(doc: DocumentView, ids: Seq<ObjectId>) -> bool {
    forall|i: int|
        0 <= i < ids.len() ==> (#[trigger] doc.get(ids[i])) is Some && doc.get(ids[i])->0 is Dict
}

/// One more turn of a rotation that was turned `n` times.
proof fn lemma_turn_more(r: i64, n: nat, d: i64)
    ensures
        rotated(((r + n * d) % 360) as i64, d) == ((r + (n + 1) * d) % 360) as i64,
{
    let x = r + n * d;
    assert((n + 1) * d == n * d + d) by (nonlinear_arith);
    assert(((x % 360) + d) % 360 == (x + d) % 360) by (nonlinear_arith);
}

/// As many turns again.
proof fn lemma_turn_again(r: i64, n: nat, d: i64)
    ensures
        ((((r + n * d) % 360) as i64 + n * d) % 360) as i64 == ((r + n * (2 * d)) % 360) as i64,
{
    let x = r + n * d;
    let y = n * d;
    assert(n * (2 * d) == n * d + n * d) by (nonlinear_arith);
    assert(((x % 360) + y) % 360 == (x + y) % 360) by (nonlinear_arith);
}

/// Turning pages that each resolve to a dictionary turns them all. Each
/// object is then what it was, turned as often as a page resolves to it;
/// nothing else changes, and every identifier resolves as before.
pub proof fn lemma_pages_turned(doc: DocumentView, ids: Seq<ObjectId>, d: i64)
    requires
        sound(doc),
        turnable(doc, ids),
    ensures
        ({
            let (after, ok) = with_pages_rotated(doc, ids, d);
            &&& ok
            &&& sound(after)
            &&& after.version == doc.version
            &&& after.trailer == doc.trailer
            &&& after.max_id == doc.max_id
            &&& after.objects.len() == doc.objects.len()
            &&& forall|k: int|
                0 <= k < doc.objects.len() ==> #[trigger] after.objects[k] == (
                    doc.objects[k].0,
                    turned(doc.objects[k].1, turns(doc.objects, ids, doc.objects[k].0), d),
                )
            &&& forall|x: ObjectId|
                has_id(doc.objects, x) ==> #[trigger] link(after.objects, x) == link(
                    doc.objects,
                    x,
                )
        }),
    decreases ids.len(),
{
    lemma_pages_rotated_sound(doc, ids, d);
    if ids.len() > 0 {
        let front = ids.drop_last();
        let x = ids.last();
        assert forall|i: int| 0 <= i < front.len() implies (#[trigger] doc.get(front[i])) is Some
            && doc.get(front[i])->0 is Dict by {
            assert(front[i] == ids[i]);
        }
        lemma_pages_turned(doc, front, d);
        lemma_pages_rotated_sound(doc, front, d);
        let (before, ok) = with_pages_rotated(doc, front, d);
        assert(doc.get(ids[ids.len() - 1]) is Some);
        let end = resolve(doc.objects, x)->0;
        let p0 = doc.get(x)->0->Dict_0;
        lemma_resolve_preserved(doc.objects, before.objects, x, DEREF_LIMIT as nat);
        lemma_resolve_end(doc.objects, x, DEREF_LIMIT as nat);
        let k = lemma_object_at_position(doc.objects, end);
        let n = turns(doc.objects, front, end);
        assert(before.objects[k] == (end, turned(doc.objects[k].1, n, d)));
        lemma_index_unique(before.objects, end, k);
        lemma_object_at_position(before.objects, end);
        lemma_stored_names(doc, end);
        let pb = before.get(x)->0->Dict_0;
        let v = Value::Dict(
            with_entry(pb, name("Rotate"), Value::Integer(rotated(rotation_of(pb), d))),
        );
        let after = with_page_rotated(before, x, d)->0;
        assert(after.objects == before.objects.update(k, (end, v)));
        if n == 0 {
            assert((n + 1) * d == d) by (nonlinear_arith)
                requires
                    n == 0,
            ;
        } else {
            let a = Value::Integer(((rotation_of(p0) + n * d) % 360) as i64);
            lemma_with_entry(p0, name("Rotate"), a);
            lemma_with_entry_twice(
                p0,
                name("Rotate"),
                a,
                Value::Integer(rotated(rotation_of(pb), d)),
            );
            lemma_turn_more(rotation_of(p0), n, d);
        }
        assert(v == turned(doc.objects[k].1, n + 1, d));
        lemma_links_kept(before.objects, end, v);
        assert forall|y: ObjectId| has_id(doc.objects, y) implies #[trigger] link(
            after.objects,
            y,
        ) == link(doc.objects, y) by {
            let j = lemma_object_at_position(doc.objects, y);
            assert(before.objects[j].0 == y);
            lemma_index_unique(before.objects, y, j);
        }
        assert forall|j: int| 0 <= j < doc.objects.len() implies #[trigger] after.objects[j] == (
            doc.objects[j].0,
            turned(doc.objects[j].1, turns(doc.objects, ids, doc.objects[j].0), d),
        ) by {
            if j != k {
                assert(after.objects[j] == before.objects[j]);
                if doc.objects[j].0 == end {
                    lemma_index_unique(doc.objects, end, j);
                }
            }
        }
    }
}

/// Turning pages leaves the page tree where it is and its `Count` as it
/// is, also where a page resolves to the catalog or to the page tree.
pub proof fn lemma_turned_keeps_count(doc: DocumentView, ids: Seq<ObjectId>, d: i64)
    requires
        sound(doc),
        doc.kids() is Some,
        turnable(doc, ids),
    ensures
        with_pages_rotated(doc, ids, d).0.page_tree() is Some,
        count_of(with_pages_rotated(doc, ids, d).0.page_tree()->0) == count_of(
            doc.page_tree()->0,
        ),
{
    lemma_pages_turned(doc, ids, d);
    let after = with_pages_rotated(doc, ids, d).0;
    let cid = doc.catalog_id()->0;
    let tid = doc.page_tree_id()->0;
    let pages = lookup(doc.catalog()->0, name("Pages"))->0->Reference_0;
    lemma_resolve_end(doc.objects, pages, DEREF_LIMIT as nat);
    lemma_tree_names_differ();
    let kc = lemma_object_at_position(doc.objects, cid);
    let kt = lemma_object_at_position(doc.objects, tid);
    lemma_index_unique(after.objects, cid, kc);
    lemma_index_unique(after.objects, tid, kt);
    lemma_object_at_position(after.objects, cid);
    lemma_object_at_position(after.objects, tid);
    lemma_stored_names(doc, cid);
    lemma_stored_names(doc, tid);
    let cat = doc.catalog()->0;
    let tree = doc.page_tree()->0;
    let nc = turns(doc.objects, ids, cid);
    let nt = turns(doc.objects, ids, tid);
    if nc > 0 {
        lemma_with_entry(
            cat,
            name("Rotate"),
            Value::Integer(((rotation_of(cat) + nc * d) % 360) as i64),
        );
    }
    if nt > 0 {
        lemma_with_entry(
            tree,
            name("Rotate"),
            Value::Integer(((rotation_of(tree) + nt * d) % 360) as i64),
        );
    }
    lemma_page_tree_kept(doc, after);
}

/// Where each of `ids` resolves in `b` as it does in `a`, as many of them
/// resolve to `x` in both.
proof fn lemma_turns_kept(
    a: Seq<(ObjectId, Value)>,
    b: Seq<(ObjectId, Value)>,
    ids: Seq<ObjectId>,
    x: ObjectId,
)
    requires
        forall|i: int| 0 <= i < ids.len() ==> resolve(a, #[trigger] ids[i]) == resolve(b, ids[i]),
    ensures
        turns(a, ids, x) == turns(b, ids, x),
    decreases ids.len(),
{
    if ids.len() > 0 {
        let front = ids.drop_last();
        assert forall|i: int| 0 <= i < front.len() implies resolve(a, #[trigger] front[i])
            == resolve(b, front[i]) by {
            assert(front[i] == ids[i]);
        }
        lemma_turns_kept(a, b, front, x);
        assert(ids.last() == ids[ids.len() - 1]);
    }
}

/// Two quarter turns of a document are a half turn of it: where every page
/// resolves to a dictionary, turning all pages by 90 degrees twice succeeds
/// and gives the document that turning them by 180 degrees once gives.
pub proof fn law_quarter_turns_of_all_pages(doc: DocumentView)
    requires
        sound(doc),
        turnable(doc, doc.pages()),
    ensures
        ({
            let (once, first) = with_pages_rotated(doc, doc.pages(), 90);
            let (twice, second) = with_pages_rotated(once, once.pages(), 90);
            let (half, third) = with_pages_rotated(doc, doc.pages(), 180);
            first && second && third && twice == half
        }),
{
    let ids = doc.pages();
    lemma_pages_turned(doc, ids, 90);
    if doc.kids() is Some {
        lemma_pages_rotated_pages(doc, ids, 90);
    }
    let (once, first) = with_pages_rotated(doc, ids, 90);
    assert forall|i: int| 0 <= i < ids.len() implies resolve(doc.objects, #[trigger] ids[i])
        == resolve(once.objects, ids[i]) && once.get(ids[i]) is Some && once.get(
        ids[i],
    )->0 is Dict by {
        assert(doc.get(ids[i]) is Some);
        let end = resolve(doc.objects, ids[i])->0;
        lemma_resolve_preserved(doc.objects, once.objects, ids[i], DEREF_LIMIT as nat);
        lemma_resolve_end(doc.objects, ids[i], DEREF_LIMIT as nat);
        let k = lemma_object_at_position(doc.objects, end);
        assert(once.objects[k].0 == end);
        lemma_index_unique(once.objects, end, k);
        lemma_object_at_position(once.objects, end);
    }
    lemma_pages_turned(once, ids, 90);
    lemma_pages_turned(doc, ids, 180);
    let (twice, second) = with_pages_rotated(once, ids, 90);
    let (half, third) = with_pages_rotated(doc, ids, 180);
    assert forall|k: int| 0 <= k < doc.objects.len() implies #[trigger] twice.objects[k]
        == half.objects[k] by {
        let id = doc.objects[k].0;
        let v = doc.objects[k].1;
        let c = turns(doc.objects, ids, id);
        lemma_turns_kept(doc.objects, once.objects, ids, id);
        assert(once.objects[k] == (id, turned(v, c, 90)));
        assert(twice.objects[k] == (id, turned(turned(v, c, 90), c, 90)));
        assert(half.objects[k] == (id, turned(v, c, 180)));
        if c > 0 && v is Dict {
            let p0 = v->Dict_0;
            lemma_index_unique(doc.objects, id, k);
            lemma_object_at_position(doc.objects, id);
            lemma_stored_names(doc, id);
            let a = Value::Integer(((rotation_of(p0) + c * 90) % 360) as i64);
            let inner = with_entry(p0, name("Rotate"), a);
            lemma_with_entry(p0, name("Rotate"), a);
            let b = Value::Integer(((rotation_of(inner) + c * 90) % 360) as i64);
            lemma_with_entry_twice(p0, name("Rotate"), a, b);
            lemma_turn_again(rotation_of(p0), c, 90);
        }
    }
    assert(twice.objects =~= half.objects);
}

} // verus!
