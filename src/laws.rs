//! Properties that hold across the registry's operations, stated over the
//! model that their contracts use.
use crate::model::{
    construction, displaced, first_error, insert_all, insert_built, lookup, refresh_all,
    refreshed_prev, rebuilt_from, try_built_from, try_displaced, try_init_run, try_rebuilt_from,
    try_refresh, try_refresh_all, try_refreshed_prev,
};
use crate::{Keyed, WithArgs};
use vstd::prelude::*;

verus! {

/// A construction from outcomes of which any one failed yields an error and
/// no registry.
pub proof fn construction_fails_on_any_failure<K, V, E>(s: Seq<(K, Result<V, E>)>, j: int)
    requires
        0 <= j < s.len(),
        s[j].1 is Err,
    ensures
        construction(s) is Err,
{
    lemma_failure_is_found(s, j);
}

/// Building with a factory that may fail yields no registry as soon as the
/// arguments of one pair cannot be built, whatever the factory returned for
/// the other pairs: there is no way to observe a partly built registry.
pub proof fn construction_is_atomic<K, A, C, E, F: Fn(&A) -> Result<C, E>>(
    f: F,
    entries: Seq<(K, A)>,
    built: Seq<(K, Result<WithArgs<A, C>, E>)>,
    j: int,
)
    requires
        try_init_run(f, entries, built),
        0 <= j < entries.len(),
        forall|o: Result<C, E>| #[trigger] f.ensures((&entries[j].1,), o) ==> o is Err,
    ensures
        construction(built) is Err,
{
    if j < built.len() {
        assert(built[j].0 == entries.take(built.len() as int)[j].0);
        assert(entries.take(built.len() as int)[j] == entries[j]);
        lemma_failure_is_found(built, j);
    } else {
        lemma_failure_is_found(built, built.len() - 1);
    }
}

/// A failed rebuild of one key leaves that key's entry exactly as it was and
/// reports only the error, while a successful rebuild of another key in the
/// same pass stores the new component and reports the replaced one. Each of
/// the two keys is named once.
pub proof fn rebuild_isolates_keys<K, A, C, E>(
    m: Map<K, WithArgs<A, C>>,
    s: Seq<Keyed<K, Option<Result<C, E>>>>,
    failed: int,
    rebuilt: int,
)
    requires
        0 <= failed < s.len(),
        0 <= rebuilt < s.len(),
        m.contains_key(s[failed].key),
        m.contains_key(s[rebuilt].key),
        s[failed].value matches Some(Err(_)),
        s[rebuilt].value matches Some(Ok(_)),
        forall|j: int| 0 <= j < s.len() && j != failed ==> s[j].key != s[failed].key,
        forall|j: int| 0 <= j < s.len() && j != rebuilt ==> s[j].key != s[rebuilt].key,
    ensures
        ({
            let k = s[failed].key;
            &&& try_refresh_all(m, s).contains_key(k)
            &&& try_refresh_all(m, s)[k] == m[k]
            &&& try_refreshed_prev(m, s, failed) == Some(s[failed].value->Some_0)
        }),
        ({
            let k = s[rebuilt].key;
            &&& try_refresh_all(m, s).contains_key(k)
            &&& try_refresh_all(m, s)[k] == WithArgs {
                component: s[rebuilt].value->Some_0->Ok_0,
                args: m[k].args,
            }
            &&& try_refreshed_prev(m, s, rebuilt) == Some(Ok::<C, E>(m[k].component))
        }),
{
    lemma_single_rebuild(m, s, failed);
    lemma_single_rebuild(m, s, rebuilt);
}

/// Rebuilding keys that have no entry changes nothing: each is reported as
/// absent, with no outcome of the factory, and the entries stay as they were.
pub proof fn absent_keys_change_nothing<K, A, C, F: Fn(&A) -> C>(
    f: F,
    m: Map<K, WithArgs<A, C>>,
    keys: Seq<K>,
    outs: Seq<Keyed<K, Option<C>>>,
)
    requires
        rebuilt_from(f, m, keys, outs),
        forall|i: int| 0 <= i < keys.len() ==> !m.contains_key(#[trigger] keys[i]),
    ensures
        forall|i: int| 0 <= i < keys.len() ==> (#[trigger] outs[i]).value is None,
        forall|i: int| 0 <= i < keys.len() ==> #[trigger] refreshed_prev(m, outs, i) is None,
        refresh_all(m, outs) == m,
{
    assert forall|i: int| 0 <= i < keys.len() implies (#[trigger] outs[i]).value is None by {
        assert(!m.contains_key(keys[i]));
    }
    lemma_nothing_built_changes_nothing(m, outs);
    assert forall|i: int| 0 <= i < keys.len() implies #[trigger] refreshed_prev(m, outs, i) is None by {
        assert(outs[i].value is None);
    }
}

/// The fallible form of `absent_keys_change_nothing`.
pub proof fn try_absent_keys_change_nothing<K, A, C, E, F: Fn(&A) -> Result<C, E>>(
    f: F,
    m: Map<K, WithArgs<A, C>>,
    keys: Seq<K>,
    outs: Seq<Keyed<K, Option<Result<C, E>>>>,
)
    requires
        try_rebuilt_from(f, m, keys, outs),
        forall|i: int| 0 <= i < keys.len() ==> !m.contains_key(#[trigger] keys[i]),
    ensures
        forall|i: int| 0 <= i < keys.len() ==> (#[trigger] outs[i]).value is None,
        forall|i: int| 0 <= i < keys.len() ==> #[trigger] try_refreshed_prev(m, outs, i) is None,
        try_refresh_all(m, outs) == m,
{
    assert forall|i: int| 0 <= i < keys.len() implies (#[trigger] outs[i]).value is None by {
        assert(!m.contains_key(keys[i]));
    }
    lemma_nothing_tried_changes_nothing(m, outs);
    assert forall|i: int| 0 <= i < keys.len() implies #[trigger] try_refreshed_prev(m, outs, i) is None by {
        assert(outs[i].value is None);
    }
}

/// Updating one key reports the entry it held, or `None` for a new key; the
/// map grows by one for a new key and keeps its size for an existing one,
/// and holds the new entry under the key.
pub proof fn update_reports_previous<K, V>(m: Map<K, V>, k: K, v: V)
    requires
        m.dom().finite(),
    ensures
        displaced(m, seq![(k, v)], 0) == lookup(m, k),
        insert_all(m, seq![(k, v)]) == m.insert(k, v),
        insert_all(m, seq![(k, v)]).len() == if m.contains_key(k) {
            m.len()
        } else {
            m.len() + 1
        },
{
    let s = seq![(k, v)];
    assert(s.take(0) =~= Seq::<(K, V)>::empty());
    assert(s.drop_last() =~= Seq::<(K, V)>::empty());
    if m.contains_key(k) {
        assert(m.insert(k, v).dom() =~= m.dom());
    } else {
        assert(m.insert(k, v).dom() =~= m.dom().insert(k));
    }
}

/// A fallible update of one key behaves as `update_reports_previous` says
/// when the entry was built, and leaves the map exactly as it was, reporting
/// the error, when it failed.
pub proof fn try_update_reports_previous<K, V, E>(m: Map<K, V>, k: K, o: Result<V, E>)
    requires
        m.dom().finite(),
    ensures
        match o {
            Ok(v) => {
                &&& try_displaced(m, seq![(k, o)], 0) == match lookup(m, k) {
                    Some(p) => Some(Ok::<V, E>(p)),
                    None => None,
                }
                &&& insert_built(m, seq![(k, o)]) == m.insert(k, v)
                &&& insert_built(m, seq![(k, o)]).len() == if m.contains_key(k) {
                    m.len()
                } else {
                    m.len() + 1
                }
            },
            Err(e) => {
                &&& try_displaced(m, seq![(k, o)], 0) == Some(Err::<V, E>(e))
                &&& insert_built(m, seq![(k, o)]) == m
            },
        },
{
    let s = seq![(k, o)];
    assert(s.take(0) =~= Seq::<(K, Result<V, E>)>::empty());
    assert(s.drop_last() =~= Seq::<(K, Result<V, E>)>::empty());
    if let Ok(v) = o {
        if m.contains_key(k) {
            assert(m.insert(k, v).dom() =~= m.dom());
        } else {
            assert(m.insert(k, v).dom() =~= m.dom().insert(k));
        }
    }
}

/// Rebuilding never changes which keys have entries, nor the arguments
/// stored with them: only components are replaced.
pub proof fn rebuild_keeps_keys_and_args<K, A, C>(
    m: Map<K, WithArgs<A, C>>,
    s: Seq<Keyed<K, Option<C>>>,
)
    ensures
        refresh_all(m, s).dom() == m.dom(),
        forall|k: K| #[trigger] m.contains_key(k) ==> refresh_all(m, s)[k].args == m[k].args,
    decreases s.len(),
{
    if s.len() > 0 {
        rebuild_keeps_keys_and_args(m, s.drop_last());
        let p = refresh_all(m, s.drop_last());
        if s.last().value is Some && p.contains_key(s.last().key) {
            assert(refresh_all(m, s).dom() =~= p.dom());
        }
    }
}

/// The fallible form of `rebuild_keeps_keys_and_args`.
pub proof fn try_rebuild_keeps_keys_and_args<K, A, C, E>(
    m: Map<K, WithArgs<A, C>>,
    s: Seq<Keyed<K, Option<Result<C, E>>>>,
)
    ensures
        try_refresh_all(m, s).dom() == m.dom(),
        forall|k: K| #[trigger] m.contains_key(k) ==> try_refresh_all(m, s)[k].args == m[k].args,
    decreases s.len(),
{
    if s.len() > 0 {
        try_rebuild_keeps_keys_and_args(m, s.drop_last());
        let p = try_refresh_all(m, s.drop_last());
        if s.last().value matches Some(Ok(_)) && p.contains_key(s.last().key) {
            assert(try_refresh_all(m, s).dom() =~= p.dom());
        }
    }
}

/// A failure among the outcomes is found by `first_error`.
proof fn lemma_failure_is_found<K, V, E>(s: Seq<(K, Result<V, E>)>, j: int)
    requires
        0 <= j < s.len(),
        s[j].1 is Err,
    ensures
        first_error(s) is Some,
    decreases s.len(),
{
    if j < s.len() - 1 {
        lemma_failure_is_found(s.drop_last(), j);
    }
}

/// Outcomes that hold no component change nothing.
proof fn lemma_nothing_built_changes_nothing<K, A, C>(
    m: Map<K, WithArgs<A, C>>,
    s: Seq<Keyed<K, Option<C>>>,
)
    requires
        forall|i: int| 0 <= i < s.len() ==> (#[trigger] s[i]).value is None,
    ensures
        refresh_all(m, s) == m,
        forall|n: int| 0 <= n <= s.len() ==> #[trigger] refresh_all(m, s.take(n)) == m,
    decreases s.len(),
{
    if s.len() > 0 {
        lemma_nothing_built_changes_nothing(m, s.drop_last());
        assert forall|n: int| 0 <= n <= s.len() implies #[trigger] refresh_all(m, s.take(n)) == m by {
            if n < s.len() {
                assert(s.take(n) =~= s.drop_last().take(n));
            } else {
                assert(s.take(n) =~= s);
            }
        }
    } else {
        assert forall|n: int| 0 <= n <= s.len() implies #[trigger] refresh_all(m, s.take(n)) == m by {
            assert(s.take(n) =~= s);
        }
    }
}

/// Outcomes that hold no result change nothing.
proof fn lemma_nothing_tried_changes_nothing<K, A, C, E>(
    m: Map<K, WithArgs<A, C>>,
    s: Seq<Keyed<K, Option<Result<C, E>>>>,
)
    requires
        forall|i: int| 0 <= i < s.len() ==> (#[trigger] s[i]).value is None,
    ensures
        try_refresh_all(m, s) == m,
        forall|n: int| 0 <= n <= s.len() ==> #[trigger] try_refresh_all(m, s.take(n)) == m,
    decreases s.len(),
{
    if s.len() > 0 {
        lemma_nothing_tried_changes_nothing(m, s.drop_last());
        assert forall|n: int| 0 <= n <= s.len() implies #[trigger] try_refresh_all(m, s.take(n)) == m by {
            if n < s.len() {
                assert(s.take(n) =~= s.drop_last().take(n));
            } else {
                assert(s.take(n) =~= s);
            }
        }
    } else {
        assert forall|n: int| 0 <= n <= s.len() implies #[trigger] try_refresh_all(m, s.take(n)) == m by {
            assert(s.take(n) =~= s);
        }
    }
}

/// Storing outcomes keeps the keys, and a key that no outcome names keeps
/// its entry.
proof fn lemma_unnamed_key_kept<K, A, C, E>(
    m: Map<K, WithArgs<A, C>>,
    s: Seq<Keyed<K, Option<Result<C, E>>>>,
    k: K,
)
    requires
        forall|j: int| 0 <= j < s.len() ==> (#[trigger] s[j]).key != k,
    ensures
        try_refresh_all(m, s).dom() == m.dom(),
        m.contains_key(k) ==> try_refresh_all(m, s)[k] == m[k],
    decreases s.len(),
{
    if s.len() > 0 {
        lemma_unnamed_key_kept(m, s.drop_last(), k);
        let p = try_refresh_all(m, s.drop_last());
        assert(s.last().key != k);
        if let Some(Ok(c)) = s.last().value {
            if p.contains_key(s.last().key) {
                assert(try_refresh(p, s.last().key, s.last().value).dom() =~= p.dom());
            }
        }
    }
}

/// Storing the outcomes of `s` amounts to storing its first `n`, then the
/// rest.
proof fn lemma_split<K, A, C, E>(m: Map<K, WithArgs<A, C>>, s: Seq<Keyed<K, Option<Result<C, E>>>>, n: int)
    requires
        0 <= n <= s.len(),
    ensures
        try_refresh_all(m, s) == try_refresh_all(try_refresh_all(m, s.take(n)), s.skip(n)),
    decreases s.len(),
{
    if n == s.len() {
        assert(s.take(n) =~= s);
        assert(s.skip(n) =~= Seq::<Keyed<K, Option<Result<C, E>>>>::empty());
    } else {
        lemma_split(m, s.drop_last(), n);
        assert(s.drop_last().take(n) =~= s.take(n));
        assert(s.skip(n).drop_last() =~= s.drop_last().skip(n));
    }
}

/// The outcome of a key named once decides its entry after the pass and its
/// report.
proof fn lemma_single_rebuild<K, A, C, E>(
    m: Map<K, WithArgs<A, C>>,
    s: Seq<Keyed<K, Option<Result<C, E>>>>,
    i: int,
)
    requires
        0 <= i < s.len(),
        m.contains_key(s[i].key),
        forall|j: int| 0 <= j < s.len() && j != i ==> s[j].key != s[i].key,
    ensures
        try_refresh_all(m, s).contains_key(s[i].key),
        try_refresh_all(m, s)[s[i].key] == try_refresh(m, s[i].key, s[i].value)[s[i].key],
        try_refreshed_prev(m, s, i) == match s[i].value {
            None => None,
            Some(Err(e)) => Some(Err(e)),
            Some(Ok(_)) => Some(Ok::<C, E>(m[s[i].key].component)),
        },
{
    let k = s[i].key;
    let before = s.take(i);
    let after = s.skip(i + 1);
    assert forall|j: int| 0 <= j < before.len() implies (#[trigger] before[j]).key != k by {
        assert(before[j] == s[j]);
    }
    lemma_unnamed_key_kept(m, before, k);
    let m1 = try_refresh_all(m, before);
    let m2 = try_refresh(m1, k, s[i].value);
    assert(s.take(i + 1).drop_last() =~= before);
    assert(m2.contains_key(k));
    assert(m2.dom() =~= m1.dom());
    assert forall|j: int| 0 <= j < after.len() implies (#[trigger] after[j]).key != k by {
        assert(after[j] == s[i + 1 + j]);
    }
    lemma_unnamed_key_kept(m2, after, k);
    lemma_split(m, s, i + 1);
}

} // verus!
