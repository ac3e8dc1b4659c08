use std::collections::HashMap;
use std::hash::Hash;
use vstd::prelude::*;
use vstd::std_specs::hash::obeys_key_model;

verus! {

/// Relies on `HashMap::remove_entry`: when the map holds `k` it removes that
/// entry and hands back the stored key with its value; otherwise the map is
/// left as it was and the result is `None`. Under the key model the stored
/// key equals `k`.
#[verifier::external_body]
pub(crate) fn take_entry<K: Eq + Hash, V>(m: &mut HashMap<K, V>, k: &K) -> (r: Option<(K, V)>)
    requires
        obeys_key_model::<K>(),
    ensures
        match r {
            Some(e) => {
                &&& old(m)@.contains_key(*k)
                &&& e.0 == *k
                &&& e.1 == old(m)@[*k]
                &&& final(m)@ == old(m)@.remove(*k)
            },
            None => !old(m)@.contains_key(*k) && final(m)@ == old(m)@,
        },
{
    m.remove_entry(k)
}

} // verus!
