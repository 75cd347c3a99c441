//! A bidirectional value-numbering table.
//!
//! A [`Numberer`] assigns densely increasing integer identifiers to distinct
//! values on first encounter, starting from a configurable offset, and
//! answers lookups in both directions (value to id, id to value).
//!
//! The table owns a single ordered sequence of values; the reverse index
//! (value to id) is derived from that sequence rather than stored, so the
//! two directions can never fall out of sync.

use vstd::prelude::*;

mod serialize;

pub use serialize::SerializedNumberer;

verus! {

use vstd::std_specs::cmp::PartialEqSpec;

/// Assigns integer identifiers to distinct values in insertion order.
///
/// The k-th distinct value added (0-indexed) receives id `start_at + k`.
/// Ids below `start_at` are treated as reserved by the caller.
#[derive(Clone, Debug, PartialEq, Eq)]
pub struct Numberer<T> {
    values: Vec<T>,
    start_at: usize,
}

/// True if some entry of `s` is equal to `v` under `T`'s equality relation,
/// probing with `v` on the left.
pub open spec fn has_value<T: PartialEq>(s: Seq<T>, v: T) -> bool {
    exists|i: int| 0 <= i < s.len() && #[trigger] v.eq_spec(&s[i])
}

/// Index of the last entry of `s` equal to `v`, or `-1` if there is none.
///
/// The table resolves a value to the id of its last equal entry, so that a
/// sequence holding logical duplicates (possible only through
/// deserialization of a hand-made payload) behaves like a map whose equal
/// keys were inserted in order: the last write wins.
pub open spec fn last_match<T: PartialEq>(s: Seq<T>, v: T) -> int
    decreases s.len(),
{
    if s.len() == 0 {
        -1
    } else if v.eq_spec(&s[s.len() - 1]) {
        s.len() - 1
    } else {
        last_match(s.drop_last(), v)
    }
}

/// The entries a table holding `s` holds after adding `v`: unchanged if an
/// equal value is already present, extended by `v` otherwise.
pub open spec fn table_after_add<T: PartialEq>(s: Seq<T>, v: T) -> Seq<T> {
    if has_value(s, v) {
        s
    } else {
        s.push(v)
    }
}

/// The id a table holding `s` with offset `off` hands out for adding `v`:
/// the id of the last equal entry if one is present, the next fresh id
/// otherwise.
pub open spec fn id_after_add<T: PartialEq>(s: Seq<T>, off: nat, v: T) -> int {
    if has_value(s, v) {
        off + last_match(s, v)
    } else {
        off + s.len() as int
    }
}

/// True if no two entries of `s` are equal: the later entry of any pair,
/// probing on the left, does not match the earlier one.
pub open spec fn distinct<T: PartialEq>(s: Seq<T>) -> bool {
    forall|i: int, j: int| 0 <= i < j < s.len() ==> !(#[trigger] s[j].eq_spec(&s[i]))
}

impl<T> Numberer<T> {
    /// The ordered sequence of values held by the table, first added first.
    pub closed spec fn entries(&self) -> Seq<T> {
        self.values@
    }

    /// The offset fixed at construction: the id of the first value added.
    pub closed spec fn offset(&self) -> nat {
        self.start_at as nat
    }

    /// Constructs an empty table whose first id will be `start_at`.
    pub fn new(start_at: usize) -> (r: Self)
        ensures
            r.entries() == Seq::<T>::empty(),
            r.offset() == start_at,
    {
        Numberer { values: Vec::new(), start_at }
    }

    /// True iff no value has ever been added.
    pub fn is_empty(&self) -> (r: bool)
        ensures
            r == (self.entries().len() == 0),
    {
        self.values.len() == 0
    }

    /// One past the highest id issued so far: the count of distinct values
    /// added plus the offset. This is the id the next new value would get.
    pub fn len(&self) -> (r: usize)
        requires
            self.entries().len() + self.offset() <= usize::MAX,
        ensures
            r == self.entries().len() + self.offset(),
    {
        self.values.len() + self.start_at
    }

    /// Returns the value with id `number`, or nothing if `number` is below
    /// the offset or at least one past the highest id issued: an
    /// out-of-range id in either direction is a miss, not a fault.
    pub fn value(&self, number: usize) -> (r: Option<&T>)
        ensures
            self.offset() <= number < self.offset() + self.entries().len() ==> (r matches Some(v)
                && *v == self.entries()[number - self.offset()]),
            !(self.offset() <= number < self.offset() + self.entries().len()) ==> r is None,
    {
        if number < self.start_at {
            None
        } else {
            let index = number - self.start_at;
            if index < self.values.len() {
                Some(&self.values[index])
            } else {
                None
            }
        }
    }
}

impl<T: Eq> Numberer<T> {
    /// Returns the id under which `item` is held, or nothing if no equal
    /// value was ever added.
    pub fn number(&self, item: &T) -> (r: Option<usize>)
        requires
            T::obeys_eq_spec(),
            self.entries().len() + self.offset() <= usize::MAX,
        ensures
            r == (if has_value(self.entries(), *item) {
                Some((self.offset() + last_match(self.entries(), *item)) as usize)
            } else {
                None::<usize>
            }),
    {
        proof {
            lemma_last_match(self.entries(), *item);
        }
        let mut i: usize = self.values.len();
        while i > 0
            invariant
                T::obeys_eq_spec(),
                i <= self.entries().len(),
                self.entries().len() + self.offset() <= usize::MAX,
                forall|j: int| i <= j < self.entries().len()
                    ==> !(#[trigger] item.eq_spec(&self.entries()[j])),
                last_match(self.entries(), *item) < i,
            decreases i,
        {
            proof {
                lemma_last_match(self.entries(), *item);
            }
            i = i - 1;
            if *item == self.values[i] {
                return Some(self.start_at + i);
            }
        }
        None
    }

    /// Adds a value. If an equal value is already held, its id is returned
    /// and the table is left unchanged; otherwise the value is appended,
    /// receives the next id, `count of values held + offset`, and that id
    /// is returned.
    pub fn add(&mut self, value: T) -> (r: usize)
        requires
            T::obeys_eq_spec(),
            old(self).entries().len() + old(self).offset() <= usize::MAX,
            !has_value(old(self).entries(), value)
                ==> old(self).entries().len() + old(self).offset() < usize::MAX,
        ensures
            final(self).offset() == old(self).offset(),
            final(self).entries() == table_after_add(old(self).entries(), value),
            r == id_after_add(old(self).entries(), old(self).offset(), value),
            distinct(old(self).entries()) ==> distinct(final(self).entries()),
    {
        proof {
            lemma_last_match(self.entries(), value);
        }
        let mut i: usize = self.values.len();
        while i > 0
            invariant
                T::obeys_eq_spec(),
                i <= self.entries().len(),
                self.entries().len() + self.offset() <= usize::MAX,
                forall|j: int| i <= j < self.entries().len()
                    ==> !(#[trigger] value.eq_spec(&self.entries()[j])),
                last_match(self.entries(), value) < i,
            decreases i,
        {
            proof {
                lemma_last_match(self.entries(), value);
            }
            i = i - 1;
            if value == self.values[i] {
                return self.start_at + i;
            }
        }
        let number: usize = self.values.len() + self.start_at;
        self.values.push(value);
        proof {
            if distinct(old(self).entries()) {
                assert forall|i2: int, j2: int| 0 <= i2 < j2 < self.entries().len()
                    implies !self.entries()[j2].eq_spec(&self.entries()[i2]) by {
                    if j2 < old(self).entries().len() {
                    } else {
                        assert(!value.eq_spec(&old(self).entries()[i2]));
                    }
                }
            }
        }
        number
    }
}

/// What `last_match` finds: an in-range index of an entry equal to the
/// probed value, with no equal entry after it, exactly when the sequence
/// holds an equal entry at all.
pub proof fn lemma_last_match<T: PartialEq>(s: Seq<T>, v: T)
    ensures
        -1 <= last_match(s, v) < s.len(),
        last_match(s, v) >= 0 ==> v.eq_spec(&s[last_match(s, v)]),
        forall|j: int| last_match(s, v) < j < s.len() ==> !(#[trigger] v.eq_spec(&s[j])),
        (last_match(s, v) >= 0) <==> has_value(s, v),
    decreases s.len(),
{
    if s.len() == 0 {
    } else if v.eq_spec(&s[s.len() - 1]) {
    } else {
        lemma_last_match(s.drop_last(), v);
        assert(forall|j: int| 0 <= j < s.len() - 1 ==> s.drop_last()[j] == s[j]);
        if has_value(s, v) {
            let i = choose|i: int| 0 <= i < s.len() && v.eq_spec(&s[i]);
            assert(v.eq_spec(&s.drop_last()[i]));
        }
    }
}

/// Adding a value twice in a row yields the same id both times, and in
/// total the table grows by no more than one entry. The hypothesis is
/// `T`'s side of the bargain: its equality relation is reflexive at `v`.
pub proof fn lemma_add_idempotent<T: PartialEq>(s: Seq<T>, off: nat, v: T)
    requires
        v.eq_spec(&v),
    ensures
        id_after_add(table_after_add(s, v), off, v) == id_after_add(s, off, v),
        table_after_add(table_after_add(s, v), v) == table_after_add(s, v),
        table_after_add(s, v).len() <= s.len() + 1,
{
    if !has_value(s, v) {
        let t = s.push(v);
        assert(v.eq_spec(&t[t.len() - 1]));
        assert(has_value(t, v));
        assert(last_match(t, v) == s.len());
    }
}

/// In a duplicate-free table, the entry at position `k` — the k-th
/// distinct value added, counting from zero — resolves back to position
/// `k`, so its id is exactly the offset plus `k`. The hypotheses are
/// `T`'s side of the bargain: equality is reflexive at the probed entry,
/// symmetric and transitive.
pub proof fn lemma_insertion_order_lookup<T: PartialEq>(s: Seq<T>, k: int)
    requires
        distinct(s),
        0 <= k < s.len(),
        s[k].eq_spec(&s[k]),
        vstd::laws_eq::obeys_eq_spec_properties::<T>(),
    ensures
        has_value(s, s[k]),
        last_match(s, s[k]) == k,
    decreases s.len(),
{
    reveal(vstd::laws_eq::obeys_eq_spec_properties);
    assert(has_value(s, s[k])) by {
        assert(s[k].eq_spec(&s[k]));
    }
    if k < s.len() - 1 {
        assert(!s[k].eq_spec(&s[s.len() - 1]));
        assert(forall|j: int| 0 <= j < s.len() - 1 ==> s.drop_last()[j] == s[j]);
        lemma_insertion_order_lookup(s.drop_last(), k);
    }
}

/// A value just added under id `n` is found both ways afterwards: looking
/// the value up yields `n` again, and `n` names a position holding an
/// equal value. The hypothesis is reflexivity of equality at `v`.
pub proof fn lemma_bidirectional_lookup<T: PartialEq>(s: Seq<T>, off: nat, v: T)
    requires
        v.eq_spec(&v),
    ensures
        ({
            let t = table_after_add(s, v);
            let n = id_after_add(s, off, v);
            &&& has_value(t, v)
            &&& off + last_match(t, v) == n
            &&& off <= n < off + t.len()
            &&& v.eq_spec(&t[n - off])
        }),
{
    lemma_last_match(s, v);
    if !has_value(s, v) {
        let t = s.push(v);
        assert(v.eq_spec(&t[t.len() - 1]));
        assert(has_value(t, v));
        assert(last_match(t, v) == s.len());
    }
}

} // verus!
