//! Applying outcomes that were computed elsewhere.
//!
//! A caller that runs the factory calls of one operation concurrently hands
//! their outcomes, in input order, to these functions, which update the
//! entries in one pass and report per key in that same order.
use crate::map_ops::take_entry;
use crate::model::{
    all_built, all_tried, clones_equal, construction, displaced, first_error, insert_all,
    insert_built, lookup, refresh, refresh_all, refresh_report, refreshed_prev, try_displaced,
    try_refresh, try_refresh_all, try_refresh_report, try_refreshed_prev,
};
use std::collections::HashMap;
use vstd::pervasive::cloned;
use crate::{ComponentManager, Keyed, WithArgs};
use std::hash::Hash;
use vstd::prelude::*;
use vstd::std_specs::iter::IteratorSpec;
use vstd::std_specs::hash::obeys_key_model;

verus! {

impl<Key, Args, Comp, FnInit> ComponentManager<Key, Args, Comp, FnInit> {
    /// Stores `next` as the component under `key` where there is an entry,
    /// and reports the component it replaced.
    pub(crate) fn refresh_one(&mut self, key: Key, next: Option<Comp>) -> (r: Keyed<Key, Option<Comp>>)
        where
            Key: Eq + Hash,
        requires
            obeys_key_model::<Key>(),
        ensures
            final(self)@ == refresh(old(self)@, key, next),
            r == (Keyed { key, value: refresh_report(old(self)@, key, next) }),
            final(self).factory() == old(self).factory(),
    {
        match next {
            Some(c) => match take_entry(&mut self.map, &key) {
                Some((stored, entry)) => {
                    let WithArgs { component: prev, args } = entry;
                    self.map.insert(stored, WithArgs { component: c, args });
                    proof {
                        assert(self.map@ =~= refresh(old(self)@, key, next));
                    }
                    Keyed { key, value: Some(prev) }
                },
                None => Keyed { key, value: None },
            },
            None => Keyed { key, value: None },
        }
    }

    /// Inserts `entry` under `key` and reports, under a clone of `key`, the
    /// entry it displaced.
    pub(crate) fn update_one(&mut self, key: Key, entry: WithArgs<Args, Comp>) -> (r: Keyed<
        Key,
        Option<WithArgs<Args, Comp>>,
    >)
        where
            Key: Clone + Eq + Hash,
        requires
            obeys_key_model::<Key>(),
        ensures
            final(self)@ == old(self)@.insert(key, entry),
            cloned(key, r.key),
            r.value == lookup(old(self)@, key),
            final(self).factory() == old(self).factory(),
    {
        let reported = key.clone();
        let prev = self.map.insert(key, entry);
        Keyed { key: reported, value: prev }
    }

    /// Stores the outcome `next` under `key`: only a built component under a
    /// key that has an entry replaces the stored component. Reports `None`
    /// where there was nothing to rebuild, the error of a failed rebuild, or
    /// the replaced component.
    pub(crate) fn try_refresh_one<Error>(&mut self, key: Key, next: Option<Result<Comp, Error>>) -> (r:
        Keyed<Key, Option<Result<Comp, Error>>>)
        where
            Key: Eq + Hash,
        requires
            obeys_key_model::<Key>(),
        ensures
            final(self)@ == try_refresh(old(self)@, key, next),
            r == (Keyed { key, value: try_refresh_report(old(self)@, key, next) }),
            final(self).factory() == old(self).factory(),
    {
        match next {
            None => Keyed { key, value: None },
            Some(Err(e)) => Keyed { key, value: Some(Err(e)) },
            Some(Ok(c)) => {
                let Keyed { key, value } = self.refresh_one(key, Some(c));
                match value {
                    Some(prev) => Keyed { key, value: Some(Ok(prev)) },
                    None => Keyed { key, value: None },
                }
            },
        }
    }

    /// Inserts a built entry under `key`; a failure changes nothing. Reports,
    /// under a clone of `key`, the displaced entry of a built one (`None` for
    /// a new key), or the error.
    pub(crate) fn try_update_one<Error>(
        &mut self,
        key: Key,
        outcome: Result<WithArgs<Args, Comp>, Error>,
    ) -> (r: Keyed<Key, Option<Result<WithArgs<Args, Comp>, Error>>>)
        where
            Key: Clone + Eq + Hash,
        requires
            obeys_key_model::<Key>(),
        ensures
            final(self)@ == match outcome {
                Ok(w) => old(self)@.insert(key, w),
                Err(_) => old(self)@,
            },
            cloned(key, r.key),
            r.value == match outcome {
                Ok(_) => match lookup(old(self)@, key) {
                    Some(p) => Some(Ok(p)),
                    None => None,
                },
                Err(e) => Some(Err(e)),
            },
            final(self).factory() == old(self).factory(),
    {
        match outcome {
            Ok(entry) => {
                let Keyed { key, value } = self.update_one(key, entry);
                match value {
                    Some(prev) => Keyed { key, value: Some(Ok(prev)) },
                    None => Keyed { key, value: None },
                }
            },
            Err(e) => Keyed { key, value: Some(Err(e)) },
        }
    }

    /// Clones of the keys of every entry, each once, in the order in which
    /// the map yields them.
    pub fn key_list(&self) -> (r: Vec<Key>)
        where
            Key: Clone,
        requires
            obeys_key_model::<Key>(),
            clones_equal::<Key>(),
        ensures
            r@.no_duplicates(),
            r@.to_set() == self@.dom(),
            r@.len() == self@.dom().len(),
    {
        let mut r: Vec<Key> = Vec::new();
        for k in it: self.map.keys()
            invariant
                clones_equal::<Key>(),
                it.seq() == self.map.keys().remaining(),
                r@.len() == it.index(),
                forall|i: int| 0 <= i < it.index() ==> #[trigger] r@[i] == *it.seq()[i],
        {
            let c = k.clone();
            r.push(c);
        }
        proof {
            assert(r@ =~= self.map.keys().remaining().unref());
        }
        r
    }

    /// Stores each outcome of `outcomes` in order: a component under a key
    /// that has an entry replaces the stored component; `None`, or a key
    /// without an entry, changes nothing. One report per outcome, in the
    /// same order, holds the replaced component or `None`.
    pub fn apply_reinit(&mut self, outcomes: Vec<Keyed<Key, Option<Comp>>>) -> (r: Vec<
        Keyed<Key, Option<Comp>>,
    >)
        where
            Key: Eq + Hash,
        requires
            obeys_key_model::<Key>(),
        ensures
            final(self)@ == refresh_all(old(self)@, outcomes@),
            final(self).factory() == old(self).factory(),
            r@.len() == outcomes@.len(),
            forall|i: int|
                0 <= i < outcomes@.len() ==> {
                    &&& (#[trigger] r@[i]).key == outcomes@[i].key
                    &&& r@[i].value == refreshed_prev(old(self)@, outcomes@, i)
                },
    {
        let ghost s = outcomes@;
        let mut r: Vec<Keyed<Key, Option<Comp>>> = Vec::new();
        for o in it: outcomes
            invariant
                it.seq() == s,
                obeys_key_model::<Key>(),
                self@ == refresh_all(old(self)@, s.take(it.index() as int)),
                self.factory() == old(self).factory(),
                r@.len() == it.index(),
                forall|i: int|
                    0 <= i < it.index() ==> {
                        &&& (#[trigger] r@[i]).key == s[i].key
                        &&& r@[i].value == refreshed_prev(old(self)@, s, i)
                    },
        {
            let ghost i = it.index() as int;
            proof {
                assert(s.take(i + 1).drop_last() =~= s.take(i));
            }
            let Keyed { key, value } = o;
            let report = self.refresh_one(key, value);
            r.push(report);
        }
        proof {
            assert(s.take(s.len() as int) =~= s);
        }
        r
    }

    /// Builds a registry that holds the entries of `entries`, inserted in
    /// order, and keeps `init` as its factory.
    pub fn from_entries(entries: Vec<(Key, WithArgs<Args, Comp>)>, init: FnInit) -> (r: Self)
        where
            Key: Eq + Hash,
        requires
            obeys_key_model::<Key>(),
        ensures
            r@ == insert_all(Map::empty(), entries@),
            r.factory() == init,
    {
        let ghost es = entries@;
        let mut map: HashMap<Key, WithArgs<Args, Comp>> = HashMap::new();
        for pair in it: entries
            invariant
                it.seq() == es,
                obeys_key_model::<Key>(),
                map@ == insert_all(Map::empty(), es.take(it.index() as int)),
        {
            let ghost i = it.index() as int;
            proof {
                assert(es.take(i + 1).drop_last() =~= es.take(i));
            }
            let (key, entry) = pair;
            map.insert(key, entry);
        }
        proof {
            assert(es.take(es.len() as int) =~= es);
        }
        ComponentManager { map, init }
    }

    /// Builds a registry from the outcomes of `entries` when every one was
    /// built; otherwise returns the error of the first failed one, in order,
    /// and no registry.
    pub fn try_from_entries<Error>(
        entries: Vec<(Key, Result<WithArgs<Args, Comp>, Error>)>,
        init: FnInit,
    ) -> (r: Result<Self, Error>)
        where
            Key: Eq + Hash,
        requires
            obeys_key_model::<Key>(),
        ensures
            match r {
                Ok(m) => m.factory() == init && construction(entries@) == Ok::<_, Error>(m@),
                Err(e) => construction(entries@) == Err::<Map<Key, WithArgs<Args, Comp>>, _>(e),
            },
    {
        let ghost es = entries@;
        let mut map: HashMap<Key, WithArgs<Args, Comp>> = HashMap::new();
        for pair in it: entries
            invariant
                it.seq() == es,
                obeys_key_model::<Key>(),
                first_error(es.take(it.index() as int)) is None,
                map@ == insert_built(Map::empty(), es.take(it.index() as int)),
        {
            let ghost i = it.index() as int;
            proof {
                assert(es.take(i + 1).drop_last() =~= es.take(i));
            }
            let (key, outcome) = pair;
            match outcome {
                Ok(entry) => {
                    map.insert(key, entry);
                },
                Err(e) => {
                    proof {
                        lemma_first_error_of_prefix(es, i + 1);
                    }
                    return Err(e);
                },
            }
        }
        proof {
            assert(es.take(es.len() as int) =~= es);
        }
        Ok(ComponentManager { map, init })
    }

    /// Stores each outcome of `outcomes` in order, as `apply_reinit` does,
    /// and reports with the same rules.
    pub fn try_apply_reinit<Error>(
        &mut self,
        outcomes: Vec<Keyed<Key, Option<Result<Comp, Error>>>>,
    ) -> (r: Vec<Keyed<Key, Option<Result<Comp, Error>>>>)
        where
            Key: Eq + Hash,
        requires
            obeys_key_model::<Key>(),
        ensures
            final(self)@ == try_refresh_all(old(self)@, outcomes@),
            final(self).factory() == old(self).factory(),
            r@.len() == outcomes@.len(),
            forall|i: int|
                0 <= i < outcomes@.len() ==> {
                    &&& (#[trigger] r@[i]).key == outcomes@[i].key
                    &&& r@[i].value == try_refreshed_prev(old(self)@, outcomes@, i)
                },
    {
        let ghost s = outcomes@;
        let mut r: Vec<Keyed<Key, Option<Result<Comp, Error>>>> = Vec::new();
        for o in it: outcomes
            invariant
                it.seq() == s,
                obeys_key_model::<Key>(),
                self@ == try_refresh_all(old(self)@, s.take(it.index() as int)),
                self.factory() == old(self).factory(),
                r@.len() == it.index(),
                forall|i: int|
                    0 <= i < it.index() ==> {
                        &&& (#[trigger] r@[i]).key == s[i].key
                        &&& r@[i].value == try_refreshed_prev(old(self)@, s, i)
                    },
        {
            let ghost i = it.index() as int;
            proof {
                assert(s.take(i + 1).drop_last() =~= s.take(i));
            }
            let Keyed { key, value } = o;
            let report = self.try_refresh_one(key, value);
            r.push(report);
        }
        proof {
            assert(s.take(s.len() as int) =~= s);
        }
        r
    }

    /// Stores each component of `next` under its key, in order, and reports
    /// the component it replaced. Every key must have an entry.
    pub fn replace_components(&mut self, next: Vec<Keyed<Key, Comp>>) -> (r: Vec<Keyed<Key, Comp>>)
        where
            Key: Eq + Hash,
        requires
            obeys_key_model::<Key>(),
            forall|i: int| 0 <= i < next@.len() ==> old(self)@.contains_key(#[trigger] next@[i].key),
        ensures
            final(self)@ == refresh_all(old(self)@, all_built(next@)),
            final(self).factory() == old(self).factory(),
            r@.len() == next@.len(),
            forall|i: int|
                0 <= i < next@.len() ==> {
                    &&& (#[trigger] r@[i]).key == next@[i].key
                    &&& Some(r@[i].value) == refreshed_prev(old(self)@, all_built(next@), i)
                },
    {
        let ghost m0 = self@;
        let ghost s = all_built(next@);
        let ghost ns = next@;
        let mut r: Vec<Keyed<Key, Comp>> = Vec::new();
        for o in it: next
            invariant
                it.seq() == ns,
                s == all_built(ns),
                obeys_key_model::<Key>(),
                forall|i: int| 0 <= i < ns.len() ==> m0.contains_key(#[trigger] ns[i].key),
                self@ == refresh_all(m0, s.take(it.index() as int)),
                self@.dom() == m0.dom(),
                self.factory() == old(self).factory(),
                r@.len() == it.index(),
                forall|i: int|
                    0 <= i < it.index() ==> {
                        &&& (#[trigger] r@[i]).key == ns[i].key
                        &&& Some(r@[i].value) == refreshed_prev(m0, s, i)
                    },
        {
            let ghost i = it.index() as int;
            proof {
                assert(s.take(i + 1).drop_last() =~= s.take(i));
                assert(s[i] == Keyed { key: ns[i].key, value: Some(ns[i].value) });
            }
            let Keyed { key, value } = o;
            let report = self.refresh_one(key, Some(value));
            proof {
                assert(self@.dom() =~= m0.dom());
            }
            let Keyed { key, value } = report;
            match value {
                Some(prev) => {
                    r.push(Keyed { key, value: prev });
                },
                None => {},
            }
        }
        proof {
            assert(s.take(s.len() as int) =~= s);
        }
        r
    }

    /// Stores each outcome of `next` under its key, in order: a built
    /// component replaces the stored one and is reported with the replaced
    /// component; a failure changes nothing and is reported with its error.
    /// Every key must have an entry.
    pub fn try_replace_components<Error>(&mut self, next: Vec<Keyed<Key, Result<Comp, Error>>>) -> (r:
        Vec<Keyed<Key, Result<Comp, Error>>>)
        where
            Key: Eq + Hash,
        requires
            obeys_key_model::<Key>(),
            forall|i: int| 0 <= i < next@.len() ==> old(self)@.contains_key(#[trigger] next@[i].key),
        ensures
            final(self)@ == try_refresh_all(old(self)@, all_tried(next@)),
            final(self).factory() == old(self).factory(),
            r@.len() == next@.len(),
            forall|i: int|
                0 <= i < next@.len() ==> {
                    &&& (#[trigger] r@[i]).key == next@[i].key
                    &&& Some(r@[i].value) == try_refreshed_prev(old(self)@, all_tried(next@), i)
                },
    {
        let ghost m0 = self@;
        let ghost s = all_tried(next@);
        let ghost ns = next@;
        let mut r: Vec<Keyed<Key, Result<Comp, Error>>> = Vec::new();
        for o in it: next
            invariant
                it.seq() == ns,
                s == all_tried(ns),
                obeys_key_model::<Key>(),
                forall|i: int| 0 <= i < ns.len() ==> m0.contains_key(#[trigger] ns[i].key),
                self@ == try_refresh_all(m0, s.take(it.index() as int)),
                self@.dom() == m0.dom(),
                self.factory() == old(self).factory(),
                r@.len() == it.index(),
                forall|i: int|
                    0 <= i < it.index() ==> {
                        &&& (#[trigger] r@[i]).key == ns[i].key
                        &&& Some(r@[i].value) == try_refreshed_prev(m0, s, i)
                    },
        {
            let ghost i = it.index() as int;
            proof {
                assert(s.take(i + 1).drop_last() =~= s.take(i));
                assert(s[i] == Keyed { key: ns[i].key, value: Some(ns[i].value) });
            }
            let Keyed { key, value } = o;
            let report = self.try_refresh_one(key, Some(value));
            proof {
                assert(self@.dom() =~= m0.dom());
            }
            let Keyed { key, value } = report;
            match value {
                Some(outcome) => {
                    r.push(Keyed { key, value: outcome });
                },
                None => {},
            }
        }
        proof {
            assert(s.take(s.len() as int) =~= s);
        }
        r
    }

    /// Inserts each entry of `entries` under its key, in order, and reports,
    /// under a clone of the key, the entry it displaced or `None` for a new
    /// key.
    pub fn apply_update(&mut self, entries: Vec<(Key, WithArgs<Args, Comp>)>) -> (r: Vec<
        Keyed<Key, Option<WithArgs<Args, Comp>>>,
    >)
        where
            Key: Clone + Eq + Hash,
        requires
            obeys_key_model::<Key>(),
        ensures
            final(self)@ == insert_all(old(self)@, entries@),
            final(self).factory() == old(self).factory(),
            r@.len() == entries@.len(),
            forall|i: int|
                0 <= i < entries@.len() ==> {
                    &&& cloned(entries@[i].0, (#[trigger] r@[i]).key)
                    &&& r@[i].value == displaced(old(self)@, entries@, i)
                },
    {
        let ghost s = entries@;
        let mut r: Vec<Keyed<Key, Option<WithArgs<Args, Comp>>>> = Vec::new();
        for pair in it: entries
            invariant
                it.seq() == s,
                obeys_key_model::<Key>(),
                self@ == insert_all(old(self)@, s.take(it.index() as int)),
                self.factory() == old(self).factory(),
                r@.len() == it.index(),
                forall|i: int|
                    0 <= i < it.index() ==> {
                        &&& cloned(s[i].0, (#[trigger] r@[i]).key)
                        &&& r@[i].value == displaced(old(self)@, s, i)
                    },
        {
            let ghost i = it.index() as int;
            proof {
                assert(s.take(i + 1).drop_last() =~= s.take(i));
            }
            let (key, entry) = pair;
            let report = self.update_one(key, entry);
            r.push(report);
        }
        proof {
            assert(s.take(s.len() as int) =~= s);
        }
        r
    }

    /// Inserts each built entry of `entries` under its key, in order; a
    /// failure changes nothing. Reports, under a clone of the key, `Ok` of
    /// the displaced entry, `None` for a new key, or the error.
    pub fn try_apply_update<Error>(
        &mut self,
        entries: Vec<(Key, Result<WithArgs<Args, Comp>, Error>)>,
    ) -> (r: Vec<Keyed<Key, Option<Result<WithArgs<Args, Comp>, Error>>>>)
        where
            Key: Clone + Eq + Hash,
        requires
            obeys_key_model::<Key>(),
        ensures
            final(self)@ == insert_built(old(self)@, entries@),
            final(self).factory() == old(self).factory(),
            r@.len() == entries@.len(),
            forall|i: int|
                0 <= i < entries@.len() ==> {
                    &&& cloned(entries@[i].0, (#[trigger] r@[i]).key)
                    &&& r@[i].value == try_displaced(old(self)@, entries@, i)
                },
    {
        let ghost s = entries@;
        let mut r: Vec<Keyed<Key, Option<Result<WithArgs<Args, Comp>, Error>>>> = Vec::new();
        for pair in it: entries
            invariant
                it.seq() == s,
                obeys_key_model::<Key>(),
                self@ == insert_built(old(self)@, s.take(it.index() as int)),
                self.factory() == old(self).factory(),
                r@.len() == it.index(),
                forall|i: int|
                    0 <= i < it.index() ==> {
                        &&& cloned(s[i].0, (#[trigger] r@[i]).key)
                        &&& r@[i].value == try_displaced(old(self)@, s, i)
                    },
        {
            let ghost i = it.index() as int;
            proof {
                assert(s.take(i + 1).drop_last() =~= s.take(i));
            }
            let (key, outcome) = pair;
            let report = self.try_update_one(key, outcome);
            r.push(report);
        }
        proof {
            assert(s.take(s.len() as int) =~= s);
        }
        r
    }
}

/// Where the last of the first `n` outcomes failed and none before it did,
/// it is the first failure of the whole sequence.
proof fn lemma_first_error_of_prefix<K, V, E>(s: Seq<(K, Result<V, E>)>, n: int)
    requires
        0 < n <= s.len(),
        first_error(s.take(n - 1)) is None,
        s[n - 1].1 is Err,
    ensures
        first_error(s) == Some(s[n - 1].1->Err_0),
    decreases s.len(),
{
    assert(s.take(n).drop_last() =~= s.take(n - 1));
    if n < s.len() {
        assert(s.drop_last().take(n - 1) =~= s.take(n - 1));
        lemma_first_error_of_prefix(s.drop_last(), n);
    } else {
        assert(s.drop_last() =~= s.take(n - 1));
    }
}

} // verus!
