//! The slab that allocates the slot index of every queued value, and the
//! sequence number recorded in each slot.
//!
//! `slab_entries` names what a slab holds: each occupied key with its value.
//! The functions below call `slab::Slab` and state their effect on it.

use vstd::prelude::*;
use slab::Slab;

verus! {

/// Declares `slab::Slab`, whose contents Verus does not see.
#[verifier::external_type_specification]
#[verifier::external_body]
#[verifier::reject_recursive_types(T)]
pub struct ExSlab<T>(Slab<T>);

/// The occupied keys of a slab of sequence numbers, each with its value.
pub uninterp spec fn slab_entries(slab: Slab<u64>) -> Map<usize, u64>;

/// `Slab::new`: a slab with no occupied key.
#[verifier::external_body]
pub(crate) fn slab_new() -> (slab: Slab<u64>)
    ensures
        slab_entries(slab).dom() == Set::<usize>::empty(),
{
    Slab::new()
}

/// `Slab::insert`: stores `value` under a key that was not occupied and
/// returns that key; the other keys keep their values.
#[verifier::external_body]
pub(crate) fn slab_insert(slab: &mut Slab<u64>, value: u64) -> (key: usize)
    ensures
        !slab_entries(*old(slab)).contains_key(key),
        slab_entries(*final(slab)) == slab_entries(*old(slab)).insert(key, value),
{
    slab.insert(value)
}

/// `Slab::get`: the value stored under `key`, copied, or `None` where the key
/// is not occupied.
#[verifier::external_body]
pub(crate) fn slab_get(slab: &Slab<u64>, key: usize) -> (r: Option<u64>)
    ensures
        r == (if slab_entries(*slab).contains_key(key) {
            Some(slab_entries(*slab)[key])
        } else {
            None::<u64>
        }),
{
    slab.get(key).copied()
}

/// `Slab::clear`: no key is occupied afterwards.
#[verifier::external_body]
pub(crate) fn slab_clear(slab: &mut Slab<u64>)
    ensures
        slab_entries(*final(slab)).dom() == Set::<usize>::empty(),
{
    slab.clear()
}

} // verus!
