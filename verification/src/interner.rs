//! Tables that give each value one identifier.
use crate::arena::{
    arena_alloc, arena_get, arena_len, arena_values, idx_from_u32, new_arena, raw_index,
    AnnotatedItemId,
};
use crate::reflection::RawIdentifiers;
use crate::rustdoc::GlobalItemId;
use vstd::prelude::*;

verus! {

/// The position of the first `v` in `s`, or the length of `s` where there is none.
pub open spec fn position<V>(s: Seq<V>, v: V) -> int
    decreases s.len(),
{
    if s.len() == 0 || s[0] == v {
        0
    } else {
        1 + position(s.drop_first(), v)
    }
}

/// The values `s` and `v`: `v` is added behind the others, unless it is there already.
pub open spec fn interned<V>(s: Seq<V>, v: V) -> Seq<V> {
    if s.contains(v) {
        s
    } else {
        s.push(v)
    }
}

/// Where a position leads.
pub proof fn lemma_position<V>(s: Seq<V>, v: V)
    ensures
        0 <= position(s, v) <= s.len(),
        position(s, v) < s.len() <==> s.contains(v),
        position(s, v) < s.len() ==> s[position(s, v)] == v,
        forall|i: int| 0 <= i < position(s, v) ==> s[i] != v,
    decreases s.len(),
{
    if s.len() > 0 && s[0] != v {
        let rest = s.drop_first();
        lemma_position(rest, v);
        if s.contains(v) {
            let k = choose|k: int| 0 <= k < s.len() && s[k] == v;
            assert(rest[k - 1] == v);
        }
        assert forall|i: int| 0 <= i < position(s, v) implies s[i] != v by {
            if i > 0 {
                assert(rest[i - 1] == s[i]);
            }
        }
    }
}

/// A position is known by what it leads to.
pub proof fn lemma_is_position<V>(s: Seq<V>, v: V, i: int)
    requires
        0 <= i <= s.len(),
        forall|j: int| 0 <= j < i ==> s[j] != v,
        i < s.len() ==> s[i] == v,
    ensures
        position(s, v) == i,
        i == s.len() ==> !s.contains(v),
{
    lemma_position(s, v);
}

/// Interning a value gives it the identifier under which it is found from then on, changes the
/// identifier of no other value, and keeps each value once.
pub proof fn law_interning<V>(s: Seq<V>, v: V, other: V)
    ensures
        position(interned(s, v), v) == position(s, v),
        interned(s, v).contains(v),
        interned(s, v)[position(s, v)] == v,
        s.contains(other) ==> position(interned(s, v), other) == position(s, other),
        s.is_prefix_of(interned(s, v)),
        s.no_duplicates() ==> interned(s, v).no_duplicates(),
        interned(interned(s, v), v) == interned(s, v),
{
    lemma_position(s, v);
    lemma_position(s, other);
    let t = interned(s, v);
    if !s.contains(v) {
        assert(t[s.len() as int] == v);
        assert forall|i: int| 0 <= i < s.len() implies s[i] != v by {
            assert(s.contains(s[i]));
        }
    }
    assert(t.contains(v));
    lemma_is_position(t, v, position(s, v));
    if s.contains(other) {
        lemma_is_position(t, other, position(s, other));
    }
}

/// Two values that are both interned have the same identifier only where they are the same.
pub proof fn law_identifiers_are_unique<V>(s: Seq<V>, a: V, b: V)
    requires
        s.contains(a),
        s.contains(b),
    ensures
        position(s, a) == position(s, b) <==> a == b,
{
    lemma_position(s, a);
    lemma_position(s, b);
}

/// Adding values behind the others changes no identifier.
pub proof fn law_identifiers_are_stable<V>(s: Seq<V>, t: Seq<V>, v: V)
    requires
        s.is_prefix_of(t),
        s.contains(v),
    ensures
        position(t, v) == position(s, v),
        t.contains(v),
{
    lemma_position(s, v);
    assert(t[position(s, v)] == v);
    assert forall|j: int| 0 <= j < position(s, v) implies t[j] != v by {
        assert(t[j] == s[j]);
    }
    lemma_is_position(t, v, position(s, v));
}

/// A value that can be told from others.
pub trait Internable: View + Sized {
    /// Whether `self` and `other` are the same value.
    fn same(&self, other: &Self) -> (res: bool)
        ensures
            res == (self@ == other@),
    ;
}

impl Internable for RawIdentifiers {
    fn same(&self, other: &Self) -> (res: bool) {
        self.created_at.crate_name == other.created_at.crate_name && self.created_at.module
            == other.created_at.module && self.import_path == other.import_path
    }
}

/// A table that gives each value one identifier: its position. No value occurs twice.
#[derive(Debug)]
pub struct Interner<T: View> {
    values: Vec<T>,
}

impl<T: View> View for Interner<T> {
    type V = Seq<T::V>;

    closed spec fn view(&self) -> Seq<T::V> {
        self.values@.map_values(|v: T| v@)
    }
}

impl<T: View> Interner<T> {
    #[verifier::type_invariant]
    spec fn distinct(self) -> bool {
        self@.no_duplicates()
    }

    /// Every value has an identifier.
    pub proof fn lemma_len(&self)
        ensures
            self@.len() <= usize::MAX,
    {
        assert(self.values@.len() == self.values.len());
    }
}

impl<T: Internable> Interner<T> {
    /// A table without values.
    pub fn new() -> (res: Self)
        ensures
            res@ == Seq::<T::V>::empty(),
    {
        let res = Interner { values: Vec::new() };
        assert(res@ =~= Seq::<T::V>::empty());
        res
    }

    /// The number of values.
    pub fn len(&self) -> (res: usize)
        ensures
            res == self@.len(),
    {
        self.values.len()
    }

    /// The value with the identifier `id`.
    pub fn get(&self, id: usize) -> (res: &T)
        requires
            id < self@.len(),
        ensures
            res@ == self@[id as int],
            position(self@, res@) == id,
    {
        proof {
            use_type_invariant(self);
            lemma_is_position(self@, self@[id as int], id as int);
        }
        &self.values[id]
    }

    /// The identifier of `value`, which is added where it is not there yet.
    pub fn get_or_intern(&mut self, value: T) -> (res: usize)
        ensures
            final(self)@ == interned(old(self)@, value@),
            res == position(old(self)@, value@),
    {
        let mut i: usize = 0;
        while i < self.values.len()
            invariant
                *self == *old(self),
                i <= self.values@.len(),
                forall|j: int| 0 <= j < i ==> self@[j] != value@,
            decreases self.values@.len() - i,
        {
            if self.values[i].same(&value) {
                proof {
                    lemma_is_position(self@, value@, i as int);
                    assert(self@.contains(self@[i as int]));
                }
                return i;
            }
            i = i + 1;
        }
        proof {
            lemma_is_position(self@, value@, i as int);
            use_type_invariant(&*self);
            law_interning(self@, value@, value@);
        }
        let ghost before = self@;
        let mut values: Vec<T> = Vec::new();
        std::mem::swap(&mut values, &mut self.values);
        values.push(value);
        assert(values@.map_values(|v: T| v@) =~= before.push(value@));
        self.values = values;
        i
    }
}

/// A table that gives each annotated item one identifier. No item occurs twice.
#[derive(Debug)]
pub struct AnnotationInterner {
    arena: la_arena::Arena<GlobalItemId>,
}

impl View for AnnotationInterner {
    type V = Seq<(u32, Seq<char>)>;

    closed spec fn view(&self) -> Seq<(u32, Seq<char>)> {
        arena_values(self.arena)
    }
}

impl AnnotationInterner {
    /// No item occurs twice, and each has an identifier of 32 bits.
    #[verifier::type_invariant]
    spec fn distinct(self) -> bool {
        self@.no_duplicates() && self@.len() <= u32::MAX + 1
    }

    /// A table without items.
    pub fn new() -> (res: Self)
        ensures
            res@ == Seq::<(u32, Seq<char>)>::empty(),
    {
        AnnotationInterner { arena: new_arena() }
    }

    /// The number of items.
    pub fn len(&self) -> (res: usize)
        ensures
            res == self@.len(),
    {
        arena_len(&self.arena)
    }

    /// The item with the identifier `id`.
    pub fn get(&self, id: AnnotatedItemId) -> (res: &GlobalItemId)
        requires
            raw_index(id) < self@.len(),
        ensures
            res@ == self@[raw_index(id) as int],
            position(self@, res@) == raw_index(id),
    {
        proof {
            use_type_invariant(self);
            lemma_is_position(self@, self@[raw_index(id) as int], raw_index(id) as int);
        }
        arena_get(&self.arena, id)
    }

    /// The identifier of `item`, which is added where it is not there yet. Identifiers have 32
    /// bits: where they have all been given out, no item can be added.
    pub fn get_or_intern(&mut self, item: GlobalItemId) -> (res: AnnotatedItemId)
        requires
            old(self)@.contains(item@) || old(self)@.len() <= u32::MAX,
        ensures
            final(self)@ == interned(old(self)@, item@),
            raw_index(res) == position(old(self)@, item@),
    {
        proof {
            use_type_invariant(&*self);
        }
        let n: usize = arena_len(&self.arena);
        let mut i: usize = 0;
        while i < n
            invariant
                *self == *old(self),
                n == self@.len() <= u32::MAX + 1,
                i <= n,
                forall|j: int| 0 <= j < i ==> self@[j] != item@,
            decreases n - i,
        {
            let id = idx_from_u32(i as u32);
            let known = arena_get(&self.arena, id);
            if known.same(&item) {
                proof {
                    lemma_is_position(self@, item@, i as int);
                    assert(self@.contains(self@[i as int]));
                }
                return id;
            }
            i = i + 1;
        }
        proof {
            lemma_is_position(self@, item@, i as int);
            law_interning(self@, item@, item@);
        }
        let mut arena = new_arena();
        std::mem::swap(&mut arena, &mut self.arena);
        let id = arena_alloc(&mut arena, item);
        self.arena = arena;
        id
    }
}

} // verus!
