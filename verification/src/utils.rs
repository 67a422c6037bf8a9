//! Helpers: sizes as text, and copying what an object refers to from one
//! document into another.

use crate::document::{
    has_id, index_of, lemma_objects_with, object_at, Document, DocumentView,
};
use crate::merge::compact::{collect_references, value_refers};
use crate::object::{Object, ObjectId, Value};
use crate::text::{decimal, padded, push_decimal, push_padded};
use vstd::prelude::*;
use vstd::string::*;

verus! {

/// `size * 100 / unit`, rounded to the nearest whole number, a tie going to
/// the even one.
pub open spec fn rounded_hundredths(size: nat, unit: nat) -> nat {
    let n = size * 100;
    let q = n / unit;
    let r = n % unit;
    if 2 * r > unit || (2 * r == unit && q % 2 == 1) {
        q + 1
    } else {
        q
    }
}

/// The step between the numbers that 53 binary digits write at the size of
/// `size`: 1 up to 2^53, and twice the step of the half above.
pub open spec fn step_of(size: nat) -> nat
    decreases size,
{
    if size < 9_007_199_254_740_992 {
        1
    } else {
        2 * step_of(size / 2)
    }
}

/// `size` as 53 binary digits hold it: the nearest multiple of its step, a
/// tie going to the even multiple.
pub open spec fn held_size(size: nat) -> nat {
    let step = step_of(size);
    let q = size / step;
    let r = size % step;
    if 2 * r > step || (2 * r == step && q % 2 == 1) {
        (q + 1) * step
    } else {
        q * step
    }
}

/// A number of hundredths written with two decimals.
pub open spec fn two_decimals(hundredths: nat) -> Seq<char> {
    decimal(hundredths / 100) + "."@ + padded(hundredths % 100, 2)
}

/// A size in bytes as text: in the largest of GB, MB and KB (powers of
/// 1024) that the size reaches, with two decimals, or else in bytes. A size
/// of more than 53 binary digits counts as 53 binary digits hold it.
pub open spec fn size_text(size: nat) -> Seq<char> {
    if size >= 1_073_741_824 {
        two_decimals(rounded_hundredths(held_size(size), 1_073_741_824)) + " GB"@
    } else if size >= 1_048_576 {
        two_decimals(rounded_hundredths(size, 1_048_576)) + " MB"@
    } else if size >= 1024 {
        two_decimals(rounded_hundredths(size, 1024)) + " KB"@
    } else {
        decimal(size) + " bytes"@
    }
}

/// `size * 100 / unit`, rounded to the nearest whole number, a tie going to
/// the even one.
fn hundredths_of(size: u128, unit: u64) -> (h: u64)
    requires
        unit >= 1024,
        size <= 0x2_0000_0000_0000_0000,
    ensures
        h == rounded_hundredths(size as nat, unit as nat),
{
    let n: u128 = size * 100;
    let q: u128 = n / unit as u128;
    let r: u128 = n % unit as u128;
    assert(q < 0xFFFF_FFFF_FFFF_FFFF) by (nonlinear_arith)
        requires
            q == n / (unit as u128),
            n <= 0x2_0000_0000_0000_0000 * 100,
            unit >= 1024,
    ;
    let up = 2 * r > unit as u128 || (2 * r == unit as u128 && q % 2 == 1);
    if up {
        (q + 1) as u64
    } else {
        q as u64
    }
}

/// `size` as 53 binary digits hold it.
fn held(size: u64) -> (r: u128)
    ensures
        r == held_size(size as nat),
        r <= 0x2_0000_0000_0000_0000,
{
    let mut step: u128 = 1;
    let mut rest: u64 = size;
    while rest >= 9_007_199_254_740_992
        invariant
            step_of(size as nat) == step * step_of(rest as nat),
            rest * step <= size < (rest + 1) * step,
            1 <= step <= 4096,
        decreases rest,
    {
        proof {
            let half = rest / 2;
            assert(step < 2048) by (nonlinear_arith)
                requires
                    rest * step <= size,
                    size <= 0xFFFF_FFFF_FFFF_FFFF,
                    rest >= 9_007_199_254_740_992,
            ;
            assert(half * (2 * step) <= size < (half + 1) * (2 * step)) by (nonlinear_arith)
                requires
                    rest * step <= size < (rest + 1) * step,
                    half == rest / 2,
                    step >= 1,
            ;
            assert(step * (2 * step_of(half as nat)) == (2 * step) * step_of(half as nat))
                by (nonlinear_arith);
        }
        rest = rest / 2;
        step = step * 2;
    }
    assert(step_of(size as nat) == step) by (nonlinear_arith)
        requires
            step_of(size as nat) == step * step_of(rest as nat),
            step_of(rest as nat) == 1,
    ;
    let q: u128 = size as u128 / step;
    let r: u128 = size as u128 % step;
    assert(q * step <= size) by (nonlinear_arith)
        requires
            q == (size as u128) / step,
            step >= 1,
    ;
    assert((q + 1) * step == q * step + step) by (nonlinear_arith);
    if 2 * r > step || (2 * r == step && q % 2 == 1) {
        (q + 1) * step
    } else {
        q * step
    }
}

/// A size in bytes as text, such as `1.50 MB` or `500 bytes`.
pub fn format_file_size(size: u64) -> (r: String)
    ensures
        r@ == size_text(size as nat),
{
    let mut r = String::new();
    if size >= 1024 {
        let (unit, suffix): (u64, &str) = if size >= 1_073_741_824 {
            (1_073_741_824, " GB")
        } else if size >= 1_048_576 {
            (1_048_576, " MB")
        } else {
            (1024, " KB")
        };
        let counted: u128 = if size >= 1_073_741_824 {
            held(size)
        } else {
            size as u128
        };
        let h = hundredths_of(counted, unit);
        push_decimal(&mut r, h / 100);
        r.append(".");
        push_padded(&mut r, h % 100, 2);
        r.append(suffix);
        assert(r@ =~= size_text(size as nat));
    } else {
        push_decimal(&mut r, size);
        r.append(" bytes");
        assert(r@ =~= size_text(size as nat));
    }
    r
}

/// Whether `path` leads from the value along references to objects that
/// the target lacks and that resolve in the source: the value refers to its
/// first identifier, and what each identifier but the last resolves to in
/// the source refers to the next.
pub open spec fn is_copy_path(
    target: DocumentView,
    source: DocumentView,
    v: Value,
    path: Seq<ObjectId>,
) -> bool {
    &&& path.len() > 0
    &&& value_refers(v, path[0])
    &&& forall|i: int|
        0 <= i < path.len() ==> !has_id(target.objects, #[trigger] path[i]) && source.get(
            path[i],
        ) is Some
    &&& forall|i: int|
        0 <= i < path.len() - 1 ==> value_refers(source.get(#[trigger] path[i])->0, path[i + 1])
}

/// Whether copying what the value refers to brings `id` into the target.
pub open spec fn wanted(target: DocumentView, source: DocumentView, v: Value, id: ObjectId) -> bool {
    exists|path: Seq<ObjectId>| #[trigger] is_copy_path(target, source, v, path) && path.last() == id
}

/// How many objects of the source the target lacks.
pub open spec fn missing(source: Seq<(ObjectId, Value)>, target: Seq<(ObjectId, Value)>) -> nat
    decreases source.len(),
{
    if source.len() == 0 {
        0
    } else {
        missing(source.drop_last(), target) + if has_id(target, source.last().0) {
            0nat
        } else {
            1nat
        }
    }
}

/// A target that has gained objects lacks no more objects of the source
/// than before.
proof fn lemma_missing_falls(
    source: Seq<(ObjectId, Value)>,
    before: Seq<(ObjectId, Value)>,
    after: Seq<(ObjectId, Value)>,
)
    requires
        forall|x: ObjectId| has_id(before, x) ==> has_id(after, x),
    ensures
        missing(source, after) <= missing(source, before),
    decreases source.len(),
{
    if source.len() > 0 {
        lemma_missing_falls(source.drop_last(), before, after);
    }
}

/// A target that has gained an object of the source lacks fewer objects of
/// the source than before.
proof fn lemma_missing_drops(
    source: Seq<(ObjectId, Value)>,
    before: Seq<(ObjectId, Value)>,
    after: Seq<(ObjectId, Value)>,
    id: ObjectId,
)
    requires
        forall|x: ObjectId| has_id(before, x) ==> has_id(after, x),
        has_id(source, id),
        !has_id(before, id),
        has_id(after, id),
    ensures
        missing(source, after) < missing(source, before),
    decreases source.len(),
{
    let front = source.drop_last();
    if source.last().0 == id {
        lemma_missing_falls(front, before, after);
    } else {
        let k = index_of(source, id);
        assert(front[k] == source[k]);
        lemma_missing_drops(front, before, after, id);
    }
}

/// A path that is extended by what its last object refers to, where the
/// target lacks that and the source resolves it, is a path.
proof fn lemma_copy_path_extended(
    target: DocumentView,
    source: DocumentView,
    v: Value,
    path: Seq<ObjectId>,
    next: ObjectId,
)
    requires
        is_copy_path(target, source, v, path),
        value_refers(source.get(path.last())->0, next),
        !has_id(target.objects, next),
        source.get(next) is Some,
    ensures
        is_copy_path(target, source, v, path.push(next)),
        wanted(target, source, v, next),
{
    let longer = path.push(next);
    assert(longer[0] == path[0]);
    assert forall|i: int| 0 <= i < longer.len() implies !has_id(
        target.objects,
        #[trigger] longer[i],
    ) && source.get(longer[i]) is Some by {
        if i < path.len() {
            assert(longer[i] == path[i]);
        }
    }
    assert forall|i: int| 0 <= i < longer.len() - 1 implies value_refers(
        source.get(#[trigger] longer[i])->0,
        longer[i + 1],
    ) by {
        assert(longer[i] == path[i]);
        if i < path.len() - 1 {
            assert(longer[i + 1] == path[i + 1]);
        }
    }
    assert(longer.last() == next);
}

/// What the value refers to, and what that refers to in turn, is stored in
/// a target that has everything that the value refers to and that the source
/// resolves, and everything that its copies refer to and the source resolves.
proof fn lemma_wanted_stored(
    before: DocumentView,
    after: DocumentView,
    source: DocumentView,
    v: Value,
    path: Seq<ObjectId>,
)
    requires
        is_copy_path(before, source, v, path),
        forall|x: ObjectId| #[trigger]
            value_refers(v, x) ==> has_id(after.objects, x) || source.get(x) is None,
        forall|c: ObjectId, x: ObjectId|
            has_id(after.objects, c) && !has_id(before.objects, c) && #[trigger] value_refers(
                source.get(c)->0,
                x,
            ) ==> has_id(after.objects, x) || source.get(x) is None,
    ensures
        has_id(after.objects, path.last()),
    decreases path.len(),
{
    if path.len() == 1 {
        assert(value_refers(v, path[0]));
    } else {
        let front = path.drop_last();
        let n = path.len() - 1;
        assert(front[0] == path[0]);
        assert forall|i: int| 0 <= i < front.len() implies !has_id(
            before.objects,
            #[trigger] front[i],
        ) && source.get(front[i]) is Some by {
            assert(front[i] == path[i]);
        }
        assert forall|i: int| 0 <= i < front.len() - 1 implies value_refers(
            source.get(#[trigger] front[i])->0,
            front[i + 1],
        ) by {
            assert(front[i] == path[i]);
            assert(front[i + 1] == path[i + 1]);
        }
        lemma_wanted_stored(before, after, source, v, front);
        assert(front.last() == path[n - 1]);
        assert(value_refers(source.get(path[n - 1])->0, path[n]));
    }
}

/// Copies into `target` what `obj` refers to, and what that refers to in
/// turn: every object that `target` lacks and that the reference resolves to
/// in `source` is stored under the identifier of the reference. The objects
/// that `target` has stay as they are, and nothing else is stored.
pub fn copy_references(target: &mut Document, source: &Document, obj: &Object)
    ensures
        final(target)@.trailer == old(target)@.trailer,
        final(target)@.version == old(target)@.version,
        forall|id: ObjectId|
            has_id(old(target)@.objects, id) ==> has_id(final(target)@.objects, id)
                && #[trigger] object_at(final(target)@.objects, id) == object_at(
                old(target)@.objects,
                id,
            ),
        forall|id: ObjectId|
            !has_id(old(target)@.objects, id) ==> (#[trigger] has_id(final(target)@.objects, id)
                <==> wanted(old(target)@, source@, obj@, id)),
        forall|id: ObjectId|
            !has_id(old(target)@.objects, id) && #[trigger] has_id(final(target)@.objects, id)
                ==> object_at(final(target)@.objects, id) == source@.get(id),
{
    let ghost before = target@;
    let mut work: Vec<ObjectId> = Vec::new();
    collect_references(obj, &mut work);
    proof {
        assert forall|w: int| 0 <= w < work@.len() implies value_refers(
            obj@,
            #[trigger] work@[w],
        ) by {
            assert(work@.contains(work@[w]));
        }
    }
    while work.len() > 0
        invariant
            before == old(target)@,
            target@.trailer == before.trailer,
            target@.version == before.version,
            forall|id: ObjectId|
                has_id(before.objects, id) ==> has_id(target@.objects, id) && #[trigger] object_at(
                    target@.objects,
                    id,
                ) == object_at(before.objects, id),
            forall|id: ObjectId|
                #[trigger] has_id(target@.objects, id) && !has_id(before.objects, id) ==> object_at(
                    target@.objects,
                    id,
                ) == source@.get(id) && source@.get(id) is Some && wanted(
                    before,
                    source@,
                    obj@,
                    id,
                ),
            forall|x: ObjectId| #[trigger]
                value_refers(obj@, x) ==> work@.contains(x) || has_id(target@.objects, x)
                    || source@.get(x) is None,
            forall|c: ObjectId, x: ObjectId|
                has_id(target@.objects, c) && !has_id(before.objects, c) && #[trigger] value_refers(
                    source@.get(c)->0,
                    x,
                ) ==> work@.contains(x) || has_id(target@.objects, x) || source@.get(x) is None,
            forall|w: int|
                0 <= w < work@.len() ==> value_refers(obj@, #[trigger] work@[w]) || exists|
                    c: ObjectId,
                |
                    has_id(target@.objects, c) && !has_id(before.objects, c) && #[trigger] value_refers(
                        source@.get(c)->0,
                        work@[w],
                    ),
        decreases missing(source@.objects, target@.objects), work@.len(),
    {
        let ghost work_before = work@;
        let ghost held = target@;
        target.is_well_formed();
        let id = work.pop().unwrap();
        let ghost rest = work@;
        proof {
            assert(work_before[work_before.len() - 1] == id);
            assert forall|x: ObjectId| work_before.contains(x) implies rest.contains(x) || x
                == id by {
                let i = choose|i: int| 0 <= i < work_before.len() && work_before[i] == x;
                if i < rest.len() {
                    assert(rest[i] == x);
                }
            }
        }
        let mut copied = false;
        if !target.has_object(id) {
            match source.get_object(id) {
                Some(o) => {
                    let copy = o.clone();
                    collect_references(o, &mut work);
                    proof {
                        lemma_objects_with(held.objects, id, copy@);
                        assert(has_id(source@.objects, id));
                    }
                    target.set_object(id, copy);
                    copied = true;
                    proof {
                        lemma_missing_drops(source@.objects, held.objects, target@.objects, id);
                        // The copy is wanted: it is offered by the value or by a copy.
                        if value_refers(obj@, id) {
                            let path = seq![id];
                            assert(is_copy_path(before, source@, obj@, path) && path.last() == id);
                        } else {
                            let c = choose|c: ObjectId|
                                has_id(held.objects, c) && !has_id(before.objects, c)
                                    && #[trigger] value_refers(source@.get(c)->0, id);
                            let path = choose|path: Seq<ObjectId>| #[trigger]
                                is_copy_path(before, source@, obj@, path) && path.last() == c;
                            lemma_copy_path_extended(before, source@, obj@, path, id);
                        }
                        assert forall|x: ObjectId| #[trigger]
                            has_id(target@.objects, x) && !has_id(
                                before.objects,
                                x,
                            ) implies object_at(target@.objects, x) == source@.get(x)
                            && source@.get(x) is Some && wanted(before, source@, obj@, x) by {
                            if x != id {
                                assert(has_id(held.objects, x));
                                assert(object_at(target@.objects, x) == object_at(held.objects, x));
                            }
                        }
                        assert forall|x: ObjectId|
                            has_id(before.objects, x) implies has_id(target@.objects, x)
                            && #[trigger] object_at(target@.objects, x) == object_at(
                            before.objects,
                            x,
                        ) by {
                            assert(has_id(held.objects, x));
                            assert(object_at(held.objects, x) == object_at(before.objects, x));
                            assert(x != id);
                            assert(object_at(target@.objects, x) == object_at(held.objects, x));
                        }
                        assert forall|c: ObjectId, x: ObjectId|
                            has_id(target@.objects, c) && !has_id(before.objects, c)
                                && #[trigger] value_refers(source@.get(c)->0, x) implies work@.contains(
                            x,
                        ) || has_id(target@.objects, x) || source@.get(x) is None by {
                            if c == id {
                                assert(value_refers(o@, x));
                            } else {
                                assert(has_id(held.objects, c));
                                if work_before.contains(x) {
                                    if x != id {
                                        assert(rest.contains(x));
                                    }
                                } else if has_id(held.objects, x) {
                                }
                            }
                        }
                        assert forall|x: ObjectId| #[trigger] value_refers(obj@, x) implies work@.contains(
                            x,
                        ) || has_id(target@.objects, x) || source@.get(x) is None by {
                            if work_before.contains(x) {
                                if x != id {
                                    assert(rest.contains(x));
                                }
                            } else if has_id(held.objects, x) {
                            }
                        }
                        assert forall|w: int| 0 <= w < work@.len() implies value_refers(
                            obj@,
                            #[trigger] work@[w],
                        ) || exists|c: ObjectId|
                            has_id(target@.objects, c) && !has_id(before.objects, c)
                                && #[trigger] value_refers(source@.get(c)->0, work@[w]) by {
                            let x = work@[w];
                            assert(work@.contains(x));
                            if rest.contains(x) {
                                let i = choose|i: int| 0 <= i < rest.len() && rest[i] == x;
                                assert(work_before[i] == x);
                                if !value_refers(obj@, x) {
                                    let c = choose|c: ObjectId|
                                        has_id(held.objects, c) && !has_id(before.objects, c)
                                            && #[trigger] value_refers(source@.get(c)->0, x);
                                    assert(has_id(target@.objects, c));
                                }
                            } else {
                                assert(value_refers(o@, x));
                                assert(value_refers(source@.get(id)->0, x));
                            }
                        }
                    }
                },
                None => {},
            }
        }
        proof {
            if !copied {
                assert(target@ == held);
                assert(work@ == rest);
                assert forall|w: int| 0 <= w < work@.len() implies value_refers(
                    obj@,
                    #[trigger] work@[w],
                ) || exists|c: ObjectId|
                    has_id(target@.objects, c) && !has_id(before.objects, c)
                        && #[trigger] value_refers(source@.get(c)->0, work@[w]) by {
                    assert(work_before[w] == work@[w]);
                }
            }
        }
    }
    proof {
        assert forall|id: ObjectId| !has_id(before.objects, id) && wanted(
            before,
            source@,
            obj@,
            id,
        ) implies #[trigger] has_id(target@.objects, id) by {
            let path = choose|path: Seq<ObjectId>| #[trigger]
                is_copy_path(before, source@, obj@, path) && path.last() == id;
            assert forall|x: ObjectId| #[trigger] value_refers(obj@, x) implies has_id(
                target@.objects,
                x,
            ) || source@.get(x) is None by {
                assert(!work@.contains(x));
            }
            assert forall|c: ObjectId, x: ObjectId|
                has_id(target@.objects, c) && !has_id(before.objects, c)
                    && #[trigger] value_refers(source@.get(c)->0, x) implies has_id(
                target@.objects,
                x,
            ) || source@.get(x) is None by {
                assert(!work@.contains(x));
            }
            lemma_wanted_stored(before, target@, source@, obj@, path);
        }
    }
}

} // verus!
