//! Minimal external representation of a [`Numberer`].
//!
//! Only the ordered value list and the offset are worth persisting: the
//! reverse index is fully derivable from them, and writing it out would
//! duplicate information that could desynchronize in a hand-edited payload.

use vstd::prelude::*;

use crate::Numberer;

verus! {

/// The serialized form of a [`Numberer`]: exactly the ordered value list
/// and the starting offset, and nothing else.
#[derive(PartialEq, Eq)]
pub struct SerializedNumberer<T> {
    /// The ordered values of the table, first added first.
    pub values: Vec<T>,
    /// The id of the first value.
    pub start_at: usize,
}

impl<T> SerializedNumberer<T> {
    /// The serialized form of `table`, as a value.
    pub closed spec fn of_table(table: Numberer<T>) -> SerializedNumberer<T> {
        SerializedNumberer { values: table.values, start_at: table.start_at }
    }

    /// Projects a table onto its serialized form, discarding nothing but
    /// derived information.
    pub fn from_table(table: Numberer<T>) -> (r: Self)
        ensures
            r == Self::of_table(table),
            r.values@ == table.entries(),
            r.start_at == table.offset(),
    {
        SerializedNumberer { values: table.values, start_at: table.start_at }
    }
}

impl<T> Numberer<T> {
    /// The table a serialized form reconstructs, as a value.
    pub closed spec fn of_serialized(serialized: SerializedNumberer<T>) -> Numberer<T> {
        Numberer { values: serialized.values, start_at: serialized.start_at }
    }

    /// Rebuilds a table from its serialized form. Accepts any value
    /// sequence; the reverse index is re-derived from it, so a payload
    /// holding logical duplicates resolves each value to its last
    /// occurrence, as a map built by inserting the pairs in order would.
    pub fn from_serialized(serialized: SerializedNumberer<T>) -> (r: Self)
        ensures
            r == Self::of_serialized(serialized),
            r.entries() == serialized.values@,
            r.offset() == serialized.start_at,
    {
        Numberer { values: serialized.values, start_at: serialized.start_at }
    }
}

/// Exporting a table and importing the result reconstructs the table
/// exactly, and importing a serialized form and exporting the result
/// reconstructs the serialized form exactly: the round trip loses nothing.
pub proof fn lemma_round_trip<T>(table: Numberer<T>, serialized: SerializedNumberer<T>)
    ensures
        Numberer::of_serialized(SerializedNumberer::of_table(table)) == table,
        SerializedNumberer::of_table(Numberer::of_serialized(serialized)) == serialized,
{
}

} // verus!
