//! The mathematical model of the registry's operations.
//!
//! Entries are a `Map` from keys to `WithArgs`. Each operation is described
//! as a fold over the sequence of per-key outcomes it handles, in order, so
//! that a key named twice is handled twice.
use crate::{Keyed, WithArgs};
use vstd::prelude::*;

verus! {

/// The entry stored under `k`, if any.
pub open spec fn lookup<K, V>(m: Map<K, V>, k: K) -> Option<V> {
    if m.contains_key(k) {
        Some(m[k])
    } else {
        None
    }
}

/// Every clone of a key equals the key it was cloned from.
pub open spec fn clones_equal<K: Clone>() -> bool {
    forall|a: K, b: K| #[trigger] call_ensures(K::clone, (&a,), b) ==> a == b
}

/// The factory accepts every argument value.
pub open spec fn callable_on_all<A, C, F: Fn(&A) -> C>(f: F) -> bool {
    forall|a: &A| #[trigger] f.requires((a,))
}

/// Each pair of `built` carries the key and the arguments of the matching
/// pair of `entries`, with a component that `f` may return for those
/// arguments.
pub open spec fn built_from<K, A, C, F: Fn(&A) -> C>(
    f: F,
    entries: Seq<(K, A)>,
    built: Seq<(K, WithArgs<A, C>)>,
) -> bool {
    &&& built.len() == entries.len()
    &&& forall|i: int|
        0 <= i < entries.len() ==> {
            &&& (#[trigger] built[i]).0 == entries[i].0
            &&& built[i].1.args == entries[i].1
            &&& f.ensures((&entries[i].1,), built[i].1.component)
        }
}

/// Each pair of `built` carries the key of the matching pair of `entries`
/// and an outcome that `f` may return for its arguments: the built entry
/// with those arguments, or the error.
pub open spec fn try_built_from<K, A, C, E, F: Fn(&A) -> Result<C, E>>(
    f: F,
    entries: Seq<(K, A)>,
    built: Seq<(K, Result<WithArgs<A, C>, E>)>,
) -> bool {
    &&& built.len() == entries.len()
    &&& forall|i: int|
        0 <= i < entries.len() ==> {
            &&& (#[trigger] built[i]).0 == entries[i].0
            &&& match built[i].1 {
                Ok(w) => w.args == entries[i].1 && f.ensures((&entries[i].1,), Ok(w.component)),
                Err(e) => f.ensures((&entries[i].1,), Err(e)),
            }
        }
}

/// `built` is how building `entries` in order with `f` can have gone when
/// building stops at the first failure: every outcome but the last is a
/// built entry, and fewer outcomes than entries means the last one failed.
pub open spec fn try_init_run<K, A, C, E, F: Fn(&A) -> Result<C, E>>(
    f: F,
    entries: Seq<(K, A)>,
    built: Seq<(K, Result<WithArgs<A, C>, E>)>,
) -> bool {
    &&& built.len() <= entries.len()
    &&& try_built_from(f, entries.take(built.len() as int), built)
    &&& forall|i: int| 0 <= i < built.len() - 1 ==> (#[trigger] built[i]).1 is Ok
    &&& built.len() < entries.len() ==> built.len() > 0 && built.last().1 is Err
}

/// `outs` pairs each key of `keys`, in order, with what the factory gave for
/// it: nothing where `m` holds no entry, else a component that `f` may
/// return for the stored arguments.
pub open spec fn rebuilt_from<K, A, C, F: Fn(&A) -> C>(
    f: F,
    m: Map<K, WithArgs<A, C>>,
    keys: Seq<K>,
    outs: Seq<Keyed<K, Option<C>>>,
) -> bool {
    &&& outs.len() == keys.len()
    &&& forall|i: int|
        0 <= i < keys.len() ==> {
            &&& (#[trigger] outs[i]).key == keys[i]
            &&& match outs[i].value {
                Some(c) => m.contains_key(keys[i]) && f.ensures((&m[keys[i]].args,), c),
                None => !m.contains_key(keys[i]),
            }
        }
}

/// `outs` pairs each key of `keys`, in order, with what the factory gave for
/// it: nothing where `m` holds no entry, else an outcome that `f` may return
/// for the stored arguments.
pub open spec fn try_rebuilt_from<K, A, C, E, F: Fn(&A) -> Result<C, E>>(
    f: F,
    m: Map<K, WithArgs<A, C>>,
    keys: Seq<K>,
    outs: Seq<Keyed<K, Option<Result<C, E>>>>,
) -> bool {
    &&& outs.len() == keys.len()
    &&& forall|i: int|
        0 <= i < keys.len() ==> {
            &&& (#[trigger] outs[i]).key == keys[i]
            &&& match outs[i].value {
                Some(o) => m.contains_key(keys[i]) && f.ensures((&m[keys[i]].args,), o),
                None => !m.contains_key(keys[i]),
            }
        }
}

// Inserting: construction and update.

/// `m` after inserting the pairs of `s` one after another: a later pair wins
/// over an earlier one with the same key.
pub open spec fn insert_all<K, V>(m: Map<K, V>, s: Seq<(K, V)>) -> Map<K, V>
    decreases s.len(),
{
    if s.len() == 0 {
        m
    } else {
        insert_all(m, s.drop_last()).insert(s.last().0, s.last().1)
    }
}

/// What inserting the `i`-th pair of `s` into `m` displaces.
pub open spec fn displaced<K, V>(m: Map<K, V>, s: Seq<(K, V)>, i: int) -> Option<V> {
    lookup(insert_all(m, s.take(i)), s[i].0)
}

/// `m` after inserting, one after another, the pairs of `s` whose value was
/// built; a failed pair leaves the map as it was.
pub open spec fn insert_built<K, V, E>(m: Map<K, V>, s: Seq<(K, Result<V, E>)>) -> Map<K, V>
    decreases s.len(),
{
    if s.len() == 0 {
        m
    } else {
        let p = insert_built(m, s.drop_last());
        match s.last().1 {
            Ok(v) => p.insert(s.last().0, v),
            Err(_) => p,
        }
    }
}

/// What the `i`-th pair of `s` reports when the pairs are inserted into `m`
/// in order: for a built value, the entry it displaced (`None` for a new
/// key); for a failure, the error.
pub open spec fn try_displaced<K, V, E>(m: Map<K, V>, s: Seq<(K, Result<V, E>)>, i: int) -> Option<
    Result<V, E>,
> {
    match s[i].1 {
        Ok(_) => match lookup(insert_built(m, s.take(i)), s[i].0) {
            Some(p) => Some(Ok(p)),
            None => None,
        },
        Err(e) => Some(Err(e)),
    }
}

/// The first failure among the pairs of `s`, if any.
pub open spec fn first_error<K, V, E>(s: Seq<(K, Result<V, E>)>) -> Option<E>
    decreases s.len(),
{
    if s.len() == 0 {
        None
    } else {
        match first_error(s.drop_last()) {
            Some(e) => Some(e),
            None => match s.last().1 {
                Ok(_) => None,
                Err(e) => Some(e),
            },
        }
    }
}

/// What a construction from the outcomes `s` yields: the first failure, or
/// else the map of every built entry.
pub open spec fn construction<K, V, E>(s: Seq<(K, Result<V, E>)>) -> Result<Map<K, V>, E> {
    match first_error(s) {
        Some(e) => Err(e),
        None => Ok(insert_built(Map::empty(), s)),
    }
}

// Rebuilding: bulk and targeted re-creation.

/// The outcomes of `s`, each holding its component.
pub open spec fn all_built<K, C>(s: Seq<Keyed<K, C>>) -> Seq<Keyed<K, Option<C>>> {
    s.map_values(|o: Keyed<K, C>| Keyed { key: o.key, value: Some(o.value) })
}

/// The outcomes of `s`, each holding its result.
pub open spec fn all_tried<K, C, E>(s: Seq<Keyed<K, Result<C, E>>>) -> Seq<
    Keyed<K, Option<Result<C, E>>>,
> {
    s.map_values(|o: Keyed<K, Result<C, E>>| Keyed { key: o.key, value: Some(o.value) })
}

/// `m` after storing `next` as the component under `k`. This happens only
/// where `m` holds `k` and `next` holds a component; the arguments stay.
pub open spec fn refresh<K, A, C>(m: Map<K, WithArgs<A, C>>, k: K, next: Option<C>) -> Map<
    K,
    WithArgs<A, C>,
> {
    match next {
        Some(c) => if m.contains_key(k) {
            m.insert(k, WithArgs { component: c, args: m[k].args })
        } else {
            m
        },
        None => m,
    }
}

/// What storing `next` under `k` reports: the component it replaced, or
/// `None` where nothing was replaced.
pub open spec fn refresh_report<K, A, C>(m: Map<K, WithArgs<A, C>>, k: K, next: Option<C>) -> Option<
    C,
> {
    match next {
        Some(_) => if m.contains_key(k) {
            Some(m[k].component)
        } else {
            None
        },
        None => None,
    }
}

/// `m` after storing the outcomes of `s` one after another.
pub open spec fn refresh_all<K, A, C>(m: Map<K, WithArgs<A, C>>, s: Seq<Keyed<K, Option<C>>>) -> Map<
    K,
    WithArgs<A, C>,
>
    decreases s.len(),
{
    if s.len() == 0 {
        m
    } else {
        refresh(refresh_all(m, s.drop_last()), s.last().key, s.last().value)
    }
}

/// What the `i`-th outcome of `s` reports when the outcomes are stored into
/// `m` in order.
pub open spec fn refreshed_prev<K, A, C>(
    m: Map<K, WithArgs<A, C>>,
    s: Seq<Keyed<K, Option<C>>>,
    i: int,
) -> Option<C> {
    refresh_report(refresh_all(m, s.take(i)), s[i].key, s[i].value)
}

/// `m` after storing the outcome `next` under `k`: only a built component
/// under a present key replaces anything.
pub open spec fn try_refresh<K, A, C, E>(
    m: Map<K, WithArgs<A, C>>,
    k: K,
    next: Option<Result<C, E>>,
) -> Map<K, WithArgs<A, C>> {
    match next {
        Some(Ok(c)) => refresh(m, k, Some(c)),
        _ => m,
    }
}

/// What storing the outcome `next` under `k` reports: `None` where there was
/// nothing to rebuild, the error of a failed rebuild, or the replaced
/// component.
pub open spec fn try_refresh_report<K, A, C, E>(
    m: Map<K, WithArgs<A, C>>,
    k: K,
    next: Option<Result<C, E>>,
) -> Option<Result<C, E>> {
    match next {
        None => None,
        Some(Err(e)) => Some(Err(e)),
        Some(Ok(c)) => match refresh_report(m, k, Some(c)) {
            Some(p) => Some(Ok(p)),
            None => None,
        },
    }
}

/// `m` after storing the outcomes of `s` one after another.
pub open spec fn try_refresh_all<K, A, C, E>(
    m: Map<K, WithArgs<A, C>>,
    s: Seq<Keyed<K, Option<Result<C, E>>>>,
) -> Map<K, WithArgs<A, C>>
    decreases s.len(),
{
    if s.len() == 0 {
        m
    } else {
        try_refresh(try_refresh_all(m, s.drop_last()), s.last().key, s.last().value)
    }
}

/// What the `i`-th outcome of `s` reports when the outcomes are stored into
/// `m` in order.
pub open spec fn try_refreshed_prev<K, A, C, E>(
    m: Map<K, WithArgs<A, C>>,
    s: Seq<Keyed<K, Option<Result<C, E>>>>,
    i: int,
) -> Option<Result<C, E>> {
    try_refresh_report(try_refresh_all(m, s.take(i)), s[i].key, s[i].value)
}

} // verus!
