//! Operations with a factory that may fail to build a component.
use crate::model::{
    callable_on_all, clones_equal, construction, first_error, insert_built, try_built_from,
    try_displaced, try_init_run, try_rebuilt_from, try_refresh_all, try_refreshed_prev,
};
use crate::{ComponentManager, Keyed, WithArgs};
use std::collections::HashMap;
use std::hash::Hash;
use vstd::pervasive::cloned;
use vstd::prelude::*;
use vstd::std_specs::hash::obeys_key_model;

verus! {

impl<Key, Args, Comp, FnInit> ComponentManager<Key, Args, Comp, FnInit> {
    /// Builds a registry from `args`, calling `init` once per pair in order
    /// and stopping at the first failure, whose error is returned; no
    /// registry is made then. Where two pairs share a key, the later one is
    /// kept.
    pub fn try_init<Error>(args: Vec<(Key, Args)>, init: FnInit) -> (r: Result<Self, Error>)
        where
            Key: Eq + Hash,
            FnInit: Fn(&Args) -> Result<Comp, Error>,
        requires
            obeys_key_model::<Key>(),
            callable_on_all(init),
        ensures
            exists|built: Seq<(Key, Result<WithArgs<Args, Comp>, Error>)>|
                {
                    &&& try_init_run(init, args@, built)
                    &&& match r {
                        Ok(m) => m.factory() == init && construction(built) == Ok::<_, Error>(m@),
                        Err(e) => construction(built) == Err::<Map<Key, WithArgs<Args, Comp>>, _>(e),
                    }
                },
    {
        let ghost es = args@;
        let ghost mut built: Seq<(Key, Result<WithArgs<Args, Comp>, Error>)> = Seq::empty();
        let mut map: HashMap<Key, WithArgs<Args, Comp>> = HashMap::new();
        for pair in it: args
            invariant
                it.seq() == es,
                obeys_key_model::<Key>(),
                callable_on_all(init),
                built.len() == it.index(),
                try_built_from(init, es.take(it.index() as int), built),
                forall|i: int| 0 <= i < built.len() ==> (#[trigger] built[i]).1 is Ok,
                first_error(built) is None,
                map@ == insert_built(Map::empty(), built),
        {
            let ghost i = it.index() as int;
            let (key, a) = pair;
            proof {
                assert(es.take(i + 1).drop_last() =~= es.take(i));
            }
            match init(&a) {
                Ok(component) => {
                    let entry = WithArgs { component, args: a };
                    proof {
                        let b = (key, Ok(entry));
                        assert(built.push(b).drop_last() =~= built);
                        built = built.push(b);
                    }
                    map.insert(key, entry);
                },
                Err(e) => {
                    proof {
                        let b = (key, Err(e));
                        assert(built.push(b).drop_last() =~= built);
                        built = built.push(b);
                        assert(try_init_run(init, es, built));
                    }
                    return Err(e);
                },
            }
        }
        proof {
            assert(es.take(es.len() as int) =~= es);
            assert(try_init_run(init, es, built));
        }
        Ok(ComponentManager { map, init })
    }

    /// Rebuilds every entry from its stored arguments. A built component
    /// replaces the stored one and is reported with the replaced component;
    /// a failure leaves the entry as it was and is reported with its error.
    /// Each key is reported once.
    pub fn try_reinit_all<Error>(&mut self) -> (r: Vec<Keyed<Key, Result<Comp, Error>>>)
        where
            Key: Clone + Eq + Hash,
            FnInit: Fn(&Args) -> Result<Comp, Error>,
        requires
            obeys_key_model::<Key>(),
            clones_equal::<Key>(),
            callable_on_all(old(self).factory()),
        ensures
            final(self).factory() == old(self).factory(),
            r@.len() == old(self)@.dom().len(),
            forall|i: int, j: int| 0 <= i < j < r@.len() ==> r@[i].key != r@[j].key,
            forall|k: Key|
                #[trigger] old(self)@.contains_key(k) ==> exists|i: int|
                    0 <= i < r@.len() && r@[i].key == k,
            final(self)@.dom() == old(self)@.dom(),
            forall|i: int|
                0 <= i < r@.len() ==> {
                    let k = (#[trigger] r@[i]).key;
                    &&& old(self)@.contains_key(k)
                    &&& match r@[i].value {
                        Ok(prev) => {
                            &&& prev == old(self)@[k].component
                            &&& final(self)@[k].args == old(self)@[k].args
                            &&& old(self).factory().ensures(
                                (&old(self)@[k].args,),
                                Ok(final(self)@[k].component),
                            )
                        },
                        Err(e) => {
                            &&& final(self)@[k] == old(self)@[k]
                            &&& old(self).factory().ensures((&old(self)@[k].args,), Err(e))
                        },
                    }
                },
    {
        let ghost m0 = self@;
        let ghost f = self.factory();
        let keys = self.key_list();
        let ghost ks = keys@;
        let mut r: Vec<Keyed<Key, Result<Comp, Error>>> = Vec::new();
        for key in it: keys
            invariant
                it.seq() == ks,
                ks.no_duplicates(),
                ks.to_set() == m0.dom(),
                obeys_key_model::<Key>(),
                callable_on_all(f),
                self.factory() == f,
                self@.dom() == m0.dom(),
                forall|k: Key|
                    #[trigger] m0.contains_key(k) && !ks.take(it.index() as int).contains(k)
                        ==> self@[k] == m0[k],
                r@.len() == it.index(),
                forall|i: int|
                    0 <= i < it.index() ==> {
                        let k = (#[trigger] r@[i]).key;
                        &&& k == ks[i]
                        &&& match r@[i].value {
                            Ok(prev) => {
                                &&& prev == m0[k].component
                                &&& self@[k].args == m0[k].args
                                &&& f.ensures((&m0[k].args,), Ok(self@[k].component))
                            },
                            Err(e) => {
                                &&& self@[k] == m0[k]
                                &&& f.ensures((&m0[k].args,), Err(e))
                            },
                        }
                    },
        {
            let ghost i = it.index() as int;
            proof {
                assert(ks.to_set().contains(ks[i]));
                assert(!ks.take(i).contains(ks[i]));
                assert forall|k: Key| #[trigger]
                    ks.take(i + 1).contains(k) == (ks.take(i).contains(k) || k == ks[i]) by {
                    if ks.take(i + 1).contains(k) {
                        let j = choose|j: int| 0 <= j < i + 1 && #[trigger] ks.take(i + 1)[j] == k;
                        if j < i {
                            assert(ks.take(i)[j] == k);
                        }
                    }
                    if ks.take(i).contains(k) {
                        let j = choose|j: int| 0 <= j < i && #[trigger] ks.take(i)[j] == k;
                        assert(ks.take(i + 1)[j] == k);
                    }
                    if k == ks[i] {
                        assert(ks.take(i + 1)[i] == k);
                    }
                }
            }
            let next = match self.map.get(&key) {
                Some(entry) => {
                    proof {
                        assert(self.init == f);
                    }
                    Some((self.init)(&entry.args))
                },
                None => None,
            };
            let report = self.try_refresh_one(key, next);
            proof {
                assert(self@.dom() =~= m0.dom());
            }
            let Keyed { key, value } = report;
            match value {
                Some(outcome) => {
                    r.push(Keyed { key, value: outcome });
                },
                None => {},
            }
        }
        proof {
            assert(ks.take(ks.len() as int) =~= ks);
            assert forall|k: Key| #[trigger] m0.contains_key(k) implies exists|i: int|
                0 <= i < r@.len() && r@[i].key == k by {
                assert(ks.to_set().contains(k));
                let j = choose|j: int| 0 <= j < ks.len() && #[trigger] ks[j] == k;
                assert(r@[j].key == k);
            }
        }
        r
    }

    /// Rebuilds the entry of each key of `keys`, in order, from its stored
    /// arguments. A key without an entry is reported with `None` and the
    /// factory is not called for it. Otherwise a built component replaces
    /// the stored one and the report holds `Ok` of the replaced component; a
    /// failure leaves the entry as it was and the report holds its error.
    pub fn try_reinit<Error>(&mut self, keys: Vec<Key>) -> (r: Vec<
        Keyed<Key, Option<Result<Comp, Error>>>,
    >)
        where
            Key: Eq + Hash,
            FnInit: Fn(&Args) -> Result<Comp, Error>,
        requires
            obeys_key_model::<Key>(),
            callable_on_all(old(self).factory()),
        ensures
            final(self).factory() == old(self).factory(),
            exists|outs: Seq<Keyed<Key, Option<Result<Comp, Error>>>>|
                {
                    &&& try_rebuilt_from(old(self).factory(), old(self)@, keys@, outs)
                    &&& final(self)@ == try_refresh_all(old(self)@, outs)
                    &&& r@.len() == keys@.len()
                    &&& forall|i: int|
                        0 <= i < keys@.len() ==> {
                            &&& (#[trigger] r@[i]).key == keys@[i]
                            &&& r@[i].value == try_refreshed_prev(old(self)@, outs, i)
                        }
                },
    {
        let ghost ks = keys@;
        let ghost m0 = self@;
        let ghost f = self.factory();
        let ghost mut outs: Seq<Keyed<Key, Option<Result<Comp, Error>>>> = Seq::empty();
        let mut r: Vec<Keyed<Key, Option<Result<Comp, Error>>>> = Vec::new();
        for key in it: keys
            invariant
                it.seq() == ks,
                obeys_key_model::<Key>(),
                callable_on_all(f),
                self.factory() == f,
                outs.len() == it.index(),
                try_rebuilt_from(f, m0, ks.take(it.index() as int), outs),
                self@ == try_refresh_all(m0, outs),
                self@.dom() == m0.dom(),
                forall|k: Key| #[trigger] m0.contains_key(k) ==> self@[k].args == m0[k].args,
                r@.len() == it.index(),
                forall|i: int|
                    0 <= i < it.index() ==> {
                        &&& (#[trigger] r@[i]).key == ks[i]
                        &&& r@[i].value == try_refreshed_prev(m0, outs, i)
                    },
        {
            let ghost i = it.index() as int;
            let next = match self.map.get(&key) {
                Some(entry) => {
                    proof {
                        assert(self.init == f);
                    }
                    Some((self.init)(&entry.args))
                },
                None => None,
            };
            proof {
                let o = Keyed { key, value: next };
                assert(outs.push(o).drop_last() =~= outs);
                assert(outs.push(o).take(i) =~= outs);
                assert(ks.take(i + 1).drop_last() =~= ks.take(i));
                assert forall|j: int| 0 <= j < i implies try_refreshed_prev(m0, outs.push(o), j)
                    == try_refreshed_prev(m0, outs, j) by {
                    assert(outs.push(o).take(j) =~= outs.take(j));
                }
                outs = outs.push(o);
            }
            let report = self.try_refresh_one(key, next);
            proof {
                assert(self@.dom() =~= m0.dom());
            }
            r.push(report);
        }
        proof {
            assert(ks.take(ks.len() as int) =~= ks);
        }
        r
    }

    /// Calls the factory on the arguments of each pair of `updates`, in
    /// order. A built component is stored with those arguments under the
    /// pair's key, and the report holds `Ok` of the displaced entry, or
    /// `None` where the key was new. A failure changes nothing and the
    /// report holds its error. Each report carries a clone of the key.
    pub fn try_update<Error>(&mut self, updates: Vec<(Key, Args)>) -> (r: Vec<
        Keyed<Key, Option<Result<WithArgs<Args, Comp>, Error>>>,
    >)
        where
            Key: Clone + Eq + Hash,
            FnInit: Fn(&Args) -> Result<Comp, Error>,
        requires
            obeys_key_model::<Key>(),
            callable_on_all(old(self).factory()),
        ensures
            final(self).factory() == old(self).factory(),
            exists|built: Seq<(Key, Result<WithArgs<Args, Comp>, Error>)>|
                {
                    &&& try_built_from(old(self).factory(), updates@, built)
                    &&& final(self)@ == insert_built(old(self)@, built)
                    &&& r@.len() == updates@.len()
                    &&& forall|i: int|
                        0 <= i < updates@.len() ==> {
                            &&& cloned(updates@[i].0, (#[trigger] r@[i]).key)
                            &&& r@[i].value == try_displaced(old(self)@, built, i)
                        }
                },
    {
        let ghost us = updates@;
        let ghost m0 = self@;
        let ghost f = self.factory();
        let ghost mut built: Seq<(Key, Result<WithArgs<Args, Comp>, Error>)> = Seq::empty();
        let mut r: Vec<Keyed<Key, Option<Result<WithArgs<Args, Comp>, Error>>>> = Vec::new();
        for pair in it: updates
            invariant
                it.seq() == us,
                obeys_key_model::<Key>(),
                callable_on_all(f),
                self.factory() == f,
                built.len() == it.index(),
                try_built_from(f, us.take(it.index() as int), built),
                self@ == insert_built(m0, built),
                r@.len() == it.index(),
                forall|i: int|
                    0 <= i < it.index() ==> {
                        &&& cloned(us[i].0, (#[trigger] r@[i]).key)
                        &&& r@[i].value == try_displaced(m0, built, i)
                    },
        {
            let ghost i = it.index() as int;
            let (key, args) = pair;
            proof {
                assert(self.init == f);
            }
            let outcome = match (self.init)(&args) {
                Ok(component) => Ok(WithArgs { component, args }),
                Err(e) => Err(e),
            };
            proof {
                let b = (key, outcome);
                assert(built.push(b).drop_last() =~= built);
                assert(built.push(b).take(i) =~= built);
                assert(us.take(i + 1).drop_last() =~= us.take(i));
                assert forall|j: int| 0 <= j < i implies try_displaced(m0, built.push(b), j)
                    == try_displaced(m0, built, j) by {
                    assert(built.push(b).take(j) =~= built.take(j));
                }
                built = built.push(b);
            }
            let report = self.try_update_one(key, outcome);
            r.push(report);
        }
        proof {
            assert(us.take(us.len() as int) =~= us);
        }
        r
    }
}

} // verus!
