//! The PDF object model: identifiers, the tagged object value, dictionaries
//! and streams, each with its mathematical view.

use vstd::prelude::*;
use vstd::string::*;

verus! {

/// An object identifier: object number and generation.
pub type ObjectId = (u32, u16);

/// How a string object is written in a file.
#[derive(Clone, Copy, Debug, PartialEq, Eq, Structural)]
pub enum StringFormat {
    Literal,
    Hexadecimal,
}

/// The mathematical value of an object. A dictionary is the sequence of its
/// entries in insertion order; no name occurs twice in it.
pub enum Value {
    Null,
    Boolean(bool),
    Integer(i64),
    Real(u32),
    Name(Seq<u8>),
    Str(Seq<u8>, StringFormat),
    Array(Seq<Value>),
    Dict(Seq<(Seq<u8>, Value)>),
    Stream(Seq<(Seq<u8>, Value)>, Seq<u8>, bool),
    Reference(ObjectId),
}

/// A PDF object.
#[derive(Debug)]
pub enum Object {
    Null,
    Boolean(bool),
    Integer(i64),
    /// A real number, held as the bit pattern of its single-precision encoding.
    Real(u32),
    Name(Vec<u8>),
    String(Vec<u8>, StringFormat),
    Array(Vec<Object>),
    Dictionary(Dictionary),
    Stream(Stream),
    Reference(ObjectId),
}

/// A dictionary: names mapped to objects, in insertion order, no name twice.
#[derive(Debug)]
pub struct Dictionary {
    entries: Vec<(Vec<u8>, Object)>,
}

/// A stream: a dictionary and a byte payload.
#[derive(Debug)]
pub struct Stream {
    pub dict: Dictionary,
    pub content: Vec<u8>,
    pub allows_compression: bool,
}

/// The bytes of a name written as text.
pub open spec fn name(s: &str) -> Seq<u8> {
    s.spec_bytes()
}

/// No name occurs twice among the entries.
pub open spec fn names_distinct(d: Seq<(Seq<u8>, Value)>) -> bool {
    forall|i: int, j: int| 0 <= i < j < d.len() ==> (#[trigger] d[i]).0 != (#[trigger] d[j]).0
}

/// Some entry carries the name `key`.
pub open spec fn has_name(d: Seq<(Seq<u8>, Value)>, key: Seq<u8>) -> bool {
    exists|i: int| 0 <= i < d.len() && (#[trigger] d[i]).0 == key
}

/// The position of an entry named `key`.
pub open spec fn slot(d: Seq<(Seq<u8>, Value)>, key: Seq<u8>) -> int {
    choose|i: int| 0 <= i < d.len() && (#[trigger] d[i]).0 == key
}

/// The value stored under `key`, if any.
pub open spec fn lookup(d: Seq<(Seq<u8>, Value)>, key: Seq<u8>) -> Option<Value> {
    if has_name(d, key) {
        Some(d[slot(d, key)].1)
    } else {
        None
    }
}

/// The entries after storing `v` under `key`: an existing entry keeps its
/// place, a new one goes to the end.
pub open spec fn with_entry(d: Seq<(Seq<u8>, Value)>, key: Seq<u8>, v: Value) -> Seq<
    (Seq<u8>, Value),
> {
    if has_name(d, key) {
        d.update(slot(d, key), (key, v))
    } else {
        d.push((key, v))
    }
}

/// The entries after deleting `key`: the last entry moves into the gap.
pub open spec fn without_entry(d: Seq<(Seq<u8>, Value)>, key: Seq<u8>) -> Seq<(Seq<u8>, Value)> {
    if has_name(d, key) {
        d.update(slot(d, key), d.last()).drop_last()
    } else {
        d
    }
}

/// The values of the items of an array, in order.
pub open spec fn array_view(a: Vec<Object>) -> Seq<Value>
    decreases a,
{
    Seq::new(a.len() as nat, |i: int| if 0 <= i < a.len() { a[i]@ } else { Value::Null })
}

/// The names and values of a vector of entries, in order.
pub open spec fn entries_view(e: Vec<(Vec<u8>, Object)>) -> Seq<(Seq<u8>, Value)>
    decreases e,
{
    Seq::new(
        e.len() as nat,
        |i: int| if 0 <= i < e.len() { (e[i].0@, e[i].1@) } else { (Seq::empty(), Value::Null) },
    )
}

impl View for Object {
    type V = Value;

    open spec fn view(&self) -> Value
        decreases self,
    {
        match self {
            Object::Null => Value::Null,
            Object::Boolean(b) => Value::Boolean(*b),
            Object::Integer(i) => Value::Integer(*i),
            Object::Real(r) => Value::Real(*r),
            Object::Name(n) => Value::Name(n@),
            Object::String(s, f) => Value::Str(s@, *f),
            Object::Array(a) => Value::Array(array_view(*a)),
            Object::Dictionary(d) => Value::Dict(d@),
            Object::Stream(s) => Value::Stream(s.dict@, s.content@, s.allows_compression),
            Object::Reference(id) => Value::Reference(*id),
        }
    }
}

impl View for Dictionary {
    type V = Seq<(Seq<u8>, Value)>;

    closed spec fn view(&self) -> Seq<(Seq<u8>, Value)>
        decreases self,
    {
        entries_view(self.entries)
    }
}

/// A fact about `slot`: with distinct names, the entry named `key` is the
/// only one, so any position that carries the name is the slot.
pub proof fn lemma_slot_unique(d: Seq<(Seq<u8>, Value)>, key: Seq<u8>, i: int)
    requires
        names_distinct(d),
        0 <= i < d.len(),
        d[i].0 == key,
    ensures
        has_name(d, key),
        slot(d, key) == i,
{
    let s = slot(d, key);
    if s < i {
        assert(d[s].0 != d[i].0);
    } else if i < s {
        assert(d[i].0 != d[s].0);
    }
}

/// Storing under `key` keeps the names distinct, makes `key` present with the
/// stored value, and leaves every other name as it was.
pub proof fn lemma_with_entry(d: Seq<(Seq<u8>, Value)>, key: Seq<u8>, v: Value)
    requires
        names_distinct(d),
    ensures
        names_distinct(with_entry(d, key, v)),
        lookup(with_entry(d, key, v), key) == Some(v),
        forall|other: Seq<u8>|
            other != key ==> #[trigger] lookup(with_entry(d, key, v), other) == lookup(d, other),
{
    let w = with_entry(d, key, v);
    let at = if has_name(d, key) { slot(d, key) } else { d.len() as int };
    assert(w[at] == (key, v));
    assert(w.len() > at);
    assert forall|i: int, j: int| 0 <= i < j < w.len() implies (#[trigger] w[i]).0 != (
    #[trigger] w[j]).0 by {
        if has_name(d, key) {
            assert(w[i].0 == d[i].0);
            assert(w[j].0 == d[j].0);
        } else {
            if j == d.len() {
                assert(w[i] == d[i]);
                assert(d[i].0 != key);
            } else {
                assert(w[i] == d[i]);
                assert(w[j] == d[j]);
            }
        }
    }
    lemma_slot_unique(w, key, at);
    assert forall|other: Seq<u8>| other != key implies #[trigger] lookup(w, other) == lookup(
        d,
        other,
    ) by {
        if has_name(d, other) {
            let i = slot(d, other);
            assert(w[i] == d[i]);
            lemma_slot_unique(w, other, i);
        } else if has_name(w, other) {
            let i = slot(w, other);
            if i < d.len() {
                assert(d[i].0 == other);
            }
        }
    }
}

/// Deleting `key` keeps the names distinct, makes `key` absent, and leaves
/// every other name as it was.
pub proof fn lemma_without_entry(d: Seq<(Seq<u8>, Value)>, key: Seq<u8>)
    requires
        names_distinct(d),
    ensures
        names_distinct(without_entry(d, key)),
        !has_name(without_entry(d, key), key),
        forall|other: Seq<u8>|
            other != key ==> #[trigger] lookup(without_entry(d, key), other) == lookup(d, other),
{
    let w = without_entry(d, key);
    if has_name(d, key) {
        let at = slot(d, key);
        let last = d.len() - 1;
        assert forall|i: int| 0 <= i < w.len() implies (#[trigger] w[i]) == d[if i == at {
            last
        } else {
            i
        }] by {}
        assert forall|i: int, j: int| 0 <= i < j < w.len() implies (#[trigger] w[i]).0 != (
        #[trigger] w[j]).0 by {
            let si = if i == at { last } else { i };
            let sj = if j == at { last } else { j };
            assert(w[i] == d[si]);
            assert(w[j] == d[sj]);
            if si < sj {
                assert(d[si].0 != d[sj].0);
            } else {
                assert(d[sj].0 != d[si].0);
            }
        }
        if has_name(w, key) {
            let i = slot(w, key);
            let si = if i == at { last } else { i };
            assert(w[i] == d[si]);
            lemma_slot_unique(d, key, si);
        }
        assert forall|other: Seq<u8>| other != key implies #[trigger] lookup(w, other) == lookup(
            d,
            other,
        ) by {
            if has_name(d, other) {
                let i = slot(d, other);
                let wi = if i == last { at } else { i };
                assert(w[wi] == d[i]);
                lemma_slot_unique(w, other, wi);
            } else if has_name(w, other) {
                let i = slot(w, other);
                let si = if i == at { last } else { i };
                assert(w[i] == d[si]);
            }
        }
    } else {
        assert(w == d);
    }
}

/// Whether two byte strings are equal.
pub fn bytes_eq(a: &[u8], b: &[u8]) -> (r: bool)
    ensures
        r == (a@ == b@),
{
    if a.len() != b.len() {
        return false;
    }
    let mut i: usize = 0;
    while i < a.len()
        invariant
            a.len() == b.len(),
            i <= a.len(),
            forall|j: int| 0 <= j < i ==> a@[j] == b@[j],
        decreases a.len() - i,
    {
        if a[i] != b[i] {
            return false;
        }
        i += 1;
    }
    assert(a@ =~= b@);
    true
}

/// A copy of a byte string.
pub fn clone_bytes(v: &[u8]) -> (r: Vec<u8>)
    ensures
        r@ == v@,
{
    let mut r: Vec<u8> = Vec::new();
    let mut i: usize = 0;
    while i < v.len()
        invariant
            i <= v.len(),
            r@ == v@.subrange(0, i as int),
        decreases v.len() - i,
    {
        r.push(v[i]);
        i += 1;
        assert(r@ =~= v@.subrange(0, i as int));
    }
    assert(r@ =~= v@);
    r
}

impl Clone for Object {
    fn clone(&self) -> (r: Self)
        ensures
            r@ == self@,
        decreases self,
    {
        match self {
            Object::Null => Object::Null,
            Object::Boolean(b) => Object::Boolean(*b),
            Object::Integer(i) => Object::Integer(*i),
            Object::Real(x) => Object::Real(*x),
            Object::Name(n) => Object::Name(clone_bytes(n.as_slice())),
            Object::String(s, f) => Object::String(clone_bytes(s.as_slice()), *f),
            Object::Array(a) => {
                let mut out: Vec<Object> = Vec::new();
                let mut i: usize = 0;
                while i < a.len()
                    invariant
                        *self matches Object::Array(v) && v == *a,
                        i <= a.len(),
                        out@.len() == i,
                        forall|j: int| 0 <= j < i ==> out@[j]@ == a@[j]@,
                    decreases a.len() - i,
                {
                    proof {
                        assert(decreases_to!(*a => a[i as int]));
                    }
                    let item = a[i].clone();
                    out.push(item);
                    i += 1;
                }
                assert(array_view(out) =~= array_view(*a));
                Object::Array(out)
            },
            Object::Dictionary(d) => Object::Dictionary(d.clone()),
            Object::Stream(s) => Object::Stream(s.clone()),
            Object::Reference(id) => Object::Reference(*id),
        }
    }
}

impl Clone for Dictionary {
    fn clone(&self) -> (r: Self)
        ensures
            r@ == self@,
        decreases self,
    {
        proof {
            use_type_invariant(self);
        }
        let mut out: Vec<(Vec<u8>, Object)> = Vec::new();
        let mut i: usize = 0;
        while i < self.entries.len()
            invariant
                i <= self.entries.len(),
                out@.len() == i,
                forall|j: int|
                    0 <= j < i ==> out@[j].0@ == self.entries@[j].0@ && out@[j].1@
                        == self.entries@[j].1@,
            decreases self.entries.len() - i,
        {
            proof {
                assert(decreases_to!(self.entries => self.entries[i as int]));
            }
            let k = clone_bytes(self.entries[i].0.as_slice());
            let v = self.entries[i].1.clone();
            out.push((k, v));
            i += 1;
        }
        assert(entries_view(out) =~= entries_view(self.entries));
        Dictionary { entries: out }
    }
}

impl Clone for Stream {
    fn clone(&self) -> (r: Self)
        ensures
            r.dict@ == self.dict@,
            r.content@ == self.content@,
            r.allows_compression == self.allows_compression,
        decreases self,
    {
        Stream {
            dict: self.dict.clone(),
            content: clone_bytes(self.content.as_slice()),
            allows_compression: self.allows_compression,
        }
    }
}

impl Object {
    /// The integer held by an `Integer` object.
    pub fn as_i64(&self) -> (r: Option<i64>)
        ensures
            r == match self@ {
                Value::Integer(i) => Some(i),
                _ => None,
            },
    {
        match self {
            Object::Integer(i) => Some(*i),
            _ => None,
        }
    }

    /// The identifier held by a `Reference` object.
    pub fn as_reference(&self) -> (r: Option<ObjectId>)
        ensures
            r == match self@ {
                Value::Reference(id) => Some(id),
                _ => None,
            },
    {
        match self {
            Object::Reference(id) => Some(*id),
            _ => None,
        }
    }

    /// The dictionary held by a `Dictionary` object.
    pub fn as_dict(&self) -> (r: Option<&Dictionary>)
        ensures
            match self@ {
                Value::Dict(d) => r matches Some(x) && x@ == d,
                _ => r is None,
            },
    {
        match self {
            Object::Dictionary(d) => Some(d),
            _ => None,
        }
    }

    /// The items of an `Array` object.
    pub fn as_array(&self) -> (r: Option<&Vec<Object>>)
        ensures
            match self@ {
                Value::Array(a) => r matches Some(x) && array_view(*x) == a,
                _ => r is None,
            },
    {
        match self {
            Object::Array(a) => Some(a),
            _ => None,
        }
    }

    /// A literal string object holding the bytes of `text`.
    pub fn string_literal(text: &str) -> (r: Object)
        ensures
            r@ == Value::Str(text.spec_bytes(), StringFormat::Literal),
    {
        Object::String(text.as_bytes_vec(), StringFormat::Literal)
    }

    /// A name object holding the bytes of `text`.
    pub fn name(text: &str) -> (r: Object)
        ensures
            r@ == Value::Name(text.spec_bytes()),
    {
        Object::Name(text.as_bytes_vec())
    }
}

impl Dictionary {
    /// The invariant of a dictionary: no name occurs twice.
    #[verifier::type_invariant]
    pub closed spec fn well_formed(&self) -> bool {
        names_distinct(self@)
    }

    /// An empty dictionary.
    pub fn new() -> (d: Dictionary)
        ensures
            d@ == Seq::<(Seq<u8>, Value)>::empty(),
    {
        let d = Dictionary { entries: Vec::new() };
        assert(d@ =~= Seq::<(Seq<u8>, Value)>::empty());
        d
    }

    /// That the names of a dictionary are distinct.
    pub fn names_are_distinct(&self)
        ensures
            names_distinct(self@),
    {
        proof {
            use_type_invariant(self);
        }
    }

    /// The number of entries.
    pub fn len(&self) -> (n: usize)
        ensures
            n == self@.len(),
    {
        self.entries.len()
    }

    /// Whether the dictionary has no entry.
    pub fn is_empty(&self) -> (b: bool)
        ensures
            b == (self@.len() == 0),
    {
        self.entries.len() == 0
    }

    fn find(&self, key: &[u8]) -> (r: Option<usize>)
        ensures
            match r {
                Some(i) => i < self@.len() && self@[i as int].0 == key@ && has_name(self@, key@)
                    && slot(self@, key@) == i,
                None => !has_name(self@, key@),
            },
    {
        proof {
            use_type_invariant(self);
        }
        let mut i: usize = 0;
        while i < self.entries.len()
            invariant
                names_distinct(self@),
                i <= self.entries.len(),
                forall|j: int| 0 <= j < i ==> (#[trigger] self@[j]).0 != key@,
            decreases self.entries.len() - i,
        {
            if bytes_eq(self.entries[i].0.as_slice(), key) {
                proof {
                    lemma_slot_unique(self@, key@, i as int);
                }
                return Some(i);
            }
            i += 1;
        }
        None
    }

    /// Whether an entry is stored under `key`.
    pub fn has(&self, key: &[u8]) -> (b: bool)
        ensures
            b == has_name(self@, key@),
    {
        self.find(key).is_some()
    }

    /// The object stored under `key`.
    pub fn get(&self, key: &[u8]) -> (r: Option<&Object>)
        ensures
            match r {
                Some(o) => lookup(self@, key@) == Some(o@),
                None => lookup(self@, key@) is None,
            },
    {
        match self.find(key) {
            Some(i) => Some(&self.entries[i].1),
            None => None,
        }
    }

    /// The name of the entry at position `i`.
    pub fn key_at(&self, i: usize) -> (k: &Vec<u8>)
        requires
            i < self@.len(),
        ensures
            k@ == self@[i as int].0,
    {
        &self.entries[i].0
    }

    /// The object of the entry at position `i`.
    pub fn value_at(&self, i: usize) -> (o: &Object)
        requires
            i < self@.len(),
        ensures
            o@ == self@[i as int].1,
    {
        &self.entries[i].1
    }

    /// Stores `value` under `key`, in place of what was there.
    pub fn set(&mut self, key: Vec<u8>, value: Object)
        ensures
            final(self)@ == with_entry(old(self)@, key@, value@),
    {
        proof {
            use_type_invariant(&*self);
            lemma_with_entry(self@, key@, value@);
        }
        let ghost before = self@;
        match self.find(key.as_slice()) {
            Some(i) => {
                let mut entries: Vec<(Vec<u8>, Object)> = Vec::new();
                assert(entries_view(entries) =~= Seq::<(Seq<u8>, Value)>::empty());
                std::mem::swap(&mut self.entries, &mut entries);
                entries[i] = (key, value);
                assert(entries_view(entries) =~= with_entry(before, key@, value@));
                std::mem::swap(&mut self.entries, &mut entries);
            },
            None => {
                let mut entries: Vec<(Vec<u8>, Object)> = Vec::new();
                assert(entries_view(entries) =~= Seq::<(Seq<u8>, Value)>::empty());
                std::mem::swap(&mut self.entries, &mut entries);
                entries.push((key, value));
                assert(entries_view(entries) =~= with_entry(before, key@, value@));
                std::mem::swap(&mut self.entries, &mut entries);
            },
        }
    }

    /// Puts `value` in place of the object of the entry at position `i`, and
    /// returns the object that was there.
    pub fn replace_value_at(&mut self, i: usize, value: Object) -> (r: Object)
        requires
            i < old(self)@.len(),
        ensures
            final(self)@ == old(self)@.update(i as int, (old(self)@[i as int].0, value@)),
            r@ == old(self)@[i as int].1,
    {
        proof {
            use_type_invariant(&*self);
        }
        let ghost before = self@;
        let mut entries: Vec<(Vec<u8>, Object)> = Vec::new();
        assert(entries_view(entries) =~= Seq::<(Seq<u8>, Value)>::empty());
        std::mem::swap(&mut self.entries, &mut entries);
        let mut slot: (Vec<u8>, Object) = (Vec::new(), Object::Null);
        std::mem::swap(&mut entries[i], &mut slot);
        let (key, old_value) = slot;
        entries[i] = (key, value);
        let ghost after = entries_view(entries);
        assert(after =~= before.update(i as int, (before[i as int].0, value@)));
        assert forall|a: int, b: int| 0 <= a < b < after.len() implies (#[trigger] after[a]).0 != (
        #[trigger] after[b]).0 by {
            assert(after[a].0 == before[a].0);
            assert(after[b].0 == before[b].0);
        }
        std::mem::swap(&mut self.entries, &mut entries);
        old_value
    }

    /// Deletes the entry stored under `key` and returns its object.
    pub fn remove(&mut self, key: &[u8]) -> (r: Option<Object>)
        ensures
            final(self)@ == without_entry(old(self)@, key@),
            match r {
                Some(o) => lookup(old(self)@, key@) == Some(o@),
                None => lookup(old(self)@, key@) is None,
            },
    {
        proof {
            use_type_invariant(&*self);
            lemma_without_entry(self@, key@);
        }
        let ghost before = self@;
        match self.find(key) {
            Some(i) => {
                let mut entries: Vec<(Vec<u8>, Object)> = Vec::new();
                assert(entries_view(entries) =~= Seq::<(Seq<u8>, Value)>::empty());
                std::mem::swap(&mut self.entries, &mut entries);
                let removed = entries.swap_remove(i);
                assert(entries_view(entries) =~= without_entry(before, key@));
                std::mem::swap(&mut self.entries, &mut entries);
                Some(removed.1)
            },
            None => None,
        }
    }
}

impl Stream {
    /// A stream over `content`, with its length recorded under `Length`.
    pub fn new(dict: Dictionary, content: Vec<u8>) -> (s: Stream)
        requires
            content@.len() <= i64::MAX,
        ensures
            s.dict@ == with_entry(dict@, name("Length"), Value::Integer(content@.len() as i64)),
            s.content@ == content@,
            s.allows_compression,
    {
        let mut dict = dict;
        let n: usize = content.len();
        dict.set("Length".as_bytes_vec(), Object::Integer(n as i64));
        Stream { dict, content, allows_compression: true }
    }
}

} // verus!
