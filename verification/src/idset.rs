//! Sets of identifiers: the ordered set and the hashed set of the
//! standard library, with what an insertion and a membership test do to
//! them stated over their views.

use std::collections::{BTreeSet, HashSet};
use vstd::prelude::*;

verus! {

/// An empty ordered set of identifiers.
pub fn no_ids() -> (s: BTreeSet<u64>)
    ensures
        s@ == Set::<u64>::empty(),
{
    BTreeSet::new()
}

/// Puts `id` into the set and says whether it was new.
pub fn put_id(s: &mut BTreeSet<u64>, id: u64) -> (fresh: bool)
    ensures
        final(s)@ == old(s)@.insert(id),
        fresh == !old(s)@.contains(id),
{
    broadcast use vstd::laws_cmp::group_laws_cmp;

    s.insert(id)
}

/// Whether `id` is in the set.
pub fn holds_id(s: &BTreeSet<u64>, id: u64) -> (r: bool)
    ensures
        r == s@.contains(id),
{
    broadcast use vstd::laws_cmp::group_laws_cmp;
    broadcast use vstd::std_specs::btree::axiom_set_contains_deref_key;

    s.contains(&id)
}

/// An empty hashed set of identifiers.
pub fn no_marks() -> (s: HashSet<u64>)
    ensures
        s@ == Set::<u64>::empty(),
{
    HashSet::new()
}

/// Puts `id` into the set and says whether it was new.
pub fn mark_id(s: &mut HashSet<u64>, id: u64) -> (fresh: bool)
    ensures
        final(s)@ == old(s)@.insert(id),
        fresh == !old(s)@.contains(id),
{
    broadcast use vstd::std_specs::hash::group_hash_axioms;

    s.insert(id)
}

/// Whether `id` is in the set.
pub fn is_marked(s: &HashSet<u64>, id: u64) -> (r: bool)
    ensures
        r == s@.contains(id),
{
    broadcast use vstd::std_specs::hash::group_hash_axioms;

    s.contains(&id)
}

} // verus!
