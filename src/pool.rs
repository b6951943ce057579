//! The slab pool used by `SlabBuffer`, behind trusted wrappers over the `slab`
//! crate. What a pool holds is named by `pool_entries`: a map from key to value.
use vstd::prelude::*;
use slab::Slab;

verus! {

/// The pool type of the `slab` crate, opaque to proofs.
#[verifier::external_type_specification]
#[verifier::external_body]
#[verifier::reject_recursive_types(T)]
pub struct ExSlab<T>(Slab<T>);

/// The values that a slab holds, by key.
pub uninterp spec fn pool_entries(s: Slab<u64>) -> Map<usize, u64>;

/// Relies on `slab::Slab::with_capacity`: the new slab holds no value.
#[verifier::external_body]
pub(crate) fn pool_with_capacity(capacity: usize) -> (r: Slab<u64>)
    ensures
        pool_entries(r).dom() == Set::<usize>::empty(),
{
    Slab::with_capacity(capacity)
}

/// Relies on `slab::Slab::insert`: the value is stored under the key returned,
/// which held no value before; the other keys keep their values.
#[verifier::external_body]
pub(crate) fn pool_insert(s: &mut Slab<u64>, v: u64) -> (k: usize)
    ensures
        !pool_entries(*old(s)).contains_key(k),
        pool_entries(*final(s)) == pool_entries(*old(s)).insert(k, v),
{
    s.insert(v)
}

/// Relies on `IndexMut` for `slab::Slab`: the value under an occupied key is
/// replaced in place (a vacant key would panic).
#[verifier::external_body]
pub(crate) fn pool_set(s: &mut Slab<u64>, k: usize, v: u64)
    requires
        pool_entries(*old(s)).contains_key(k),
    ensures
        pool_entries(*final(s)) == pool_entries(*old(s)).insert(k, v),
{
    s[k] = v;
}

/// Relies on `slab::Slab::remove`: the value under an occupied key is returned
/// and the key released (a vacant key would panic).
#[verifier::external_body]
pub(crate) fn pool_remove(s: &mut Slab<u64>, k: usize) -> (v: u64)
    requires
        pool_entries(*old(s)).contains_key(k),
    ensures
        v == pool_entries(*old(s))[k],
        pool_entries(*final(s)) == pool_entries(*old(s)).remove(k),
{
    s.remove(k)
}

} // verus!
