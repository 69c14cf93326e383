use vstd::prelude::*;

verus! {

#[verifier::external_type_specification]
#[verifier::external_body]
#[verifier::reject_recursive_types(K)]
#[verifier::reject_recursive_types(V)]
#[verifier::reject_recursive_types(S)]
pub struct ExDashMap<K, V, S>(dashmap::DashMap<K, V, S>);

/// The answer of a lookup that does not wait for a lock.
pub enum Lookup<T> {
    /// The entry is there; this is a copy of it.
    Present(T),
    /// The map was read and holds no such entry.
    Absent,
    /// The map could not be read, since a writer held the lock.
    Locked,
}

} // verus!
