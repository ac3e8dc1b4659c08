//! Operations with a factory that always builds a component.
use crate::model::{
    built_from, callable_on_all, clones_equal, displaced, insert_all, rebuilt_from, refresh_all, refreshed_prev,
};
use crate::{ComponentManager, Keyed, WithArgs};
use std::collections::HashMap;
use std::hash::Hash;
use vstd::pervasive::cloned;
use vstd::prelude::*;
use vstd::std_specs::hash::obeys_key_model;

verus! {

impl<Key, Args, Comp, FnInit> ComponentManager<Key, Args, Comp, FnInit> {
    /// Builds a registry from `args`, calling `init` once per pair in order.
    /// Where two pairs share a key, the later one is kept.
    pub fn init(args: Vec<(Key, Args)>, init: FnInit) -> (r: Self)
        where
            Key: Eq + Hash,
            FnInit: Fn(&Args) -> Comp,
        requires
            obeys_key_model::<Key>(),
            callable_on_all(init),
        ensures
            r.factory() == init,
            exists|built: Seq<(Key, WithArgs<Args, Comp>)>|
                {
                    &&& built_from(init, args@, built)
                    &&& r@ == insert_all(Map::empty(), built)
                },
    {
        let ghost es = args@;
        let ghost mut built: Seq<(Key, WithArgs<Args, Comp>)> = Seq::empty();
        let mut map: HashMap<Key, WithArgs<Args, Comp>> = HashMap::new();
        for pair in it: args
            invariant
                it.seq() == es,
                obeys_key_model::<Key>(),
                callable_on_all(init),
                built.len() == it.index(),
                built_from(init, es.take(it.index() as int), built),
                map@ == insert_all(Map::empty(), built),
        {
            let ghost i = it.index() as int;
            let (key, a) = pair;
            let component = init(&a);
            let entry = WithArgs { component, args: a };
            proof {
                let b = (key, entry);
                assert(built.push(b).drop_last() =~= built);
                assert(es.take(i + 1).drop_last() =~= es.take(i));
                built = built.push(b);
            }
            map.insert(key, entry);
        }
        proof {
            assert(es.take(es.len() as int) =~= es);
        }
        ComponentManager { map, init }
    }

    /// Rebuilds every entry from its stored arguments and reports, for each
    /// key once, the component that the new one replaced.
    pub fn reinit_all(&mut self) -> (r: Vec<Keyed<Key, Comp>>)
        where
            Key: Clone + Eq + Hash,
            FnInit: Fn(&Args) -> Comp,
        requires
            obeys_key_model::<Key>(),
            clones_equal::<Key>(),
            callable_on_all(old(self).factory()),
        ensures
            final(self).factory() == old(self).factory(),
            r@.len() == old(self)@.dom().len(),
            forall|i: int, j: int| 0 <= i < j < r@.len() ==> r@[i].key != r@[j].key,
            forall|k: Key|
                #[trigger] old(self)@.contains_key(k) ==> exists|i: int|
                    0 <= i < r@.len() && r@[i].key == k,
            forall|i: int|
                0 <= i < r@.len() ==> {
                    &&& old(self)@.contains_key((#[trigger] r@[i]).key)
                    &&& r@[i].value == old(self)@[r@[i].key].component
                },
            final(self)@.dom() == old(self)@.dom(),
            forall|k: Key|
                #[trigger] old(self)@.contains_key(k) ==> {
                    &&& final(self)@[k].args == old(self)@[k].args
                    &&& old(self).factory().ensures((&old(self)@[k].args,), final(self)@[k].component)
                },
    {
        let ghost m0 = self@;
        let ghost f = self.factory();
        let keys = self.key_list();
        let ghost ks = keys@;
        let mut r: Vec<Keyed<Key, Comp>> = Vec::new();
        for key in it: keys
            invariant
                it.seq() == ks,
                ks.no_duplicates(),
                ks.to_set() == m0.dom(),
                obeys_key_model::<Key>(),
                callable_on_all(f),
                self.factory() == f,
                self@.dom() == m0.dom(),
                forall|k: Key|
                    #[trigger] m0.contains_key(k) ==> {
                        &&& self@[k].args == m0[k].args
                        &&& if ks.take(it.index() as int).contains(k) {
                            f.ensures((&m0[k].args,), self@[k].component)
                        } else {
                            self@[k] == m0[k]
                        }
                    },
                r@.len() == it.index(),
                forall|i: int|
                    0 <= i < it.index() ==> {
                        &&& (#[trigger] r@[i]).key == ks[i]
                        &&& r@[i].value == m0[ks[i]].component
                    },
        {
            let ghost i = it.index() as int;
            proof {
                assert(ks.to_set().contains(ks[i]));
                assert(!ks.take(i).contains(ks[i]));
                assert forall|k: Key| #[trigger] ks.take(i + 1).contains(k) == (ks.take(i).contains(k) || k == ks[i]) by {
                    if ks.take(i + 1).contains(k) {
                        let j = choose|j: int| 0 <= j < i + 1 && #[trigger] ks.take(i + 1)[j] == k;
                        if j < i {
                            assert(ks.take(i)[j] == k);
                        }
                    }
                    if ks.take(i).contains(k) {
                        let j = choose|j: int| 0 <= j < i && #[trigger] ks.take(i)[j] == k;
                        assert(ks.take(i + 1)[j] == k);
                    }
                    if k == ks[i] {
                        assert(ks.take(i + 1)[i] == k);
                    }
                }
            }
            let next = match self.map.get(&key) {
                Some(entry) => {
                    proof {
                        assert(self.init == f);
                    }
                    Some((self.init)(&entry.args))
                },
                None => None,
            };
            let report = self.refresh_one(key, next);
            proof {
                assert(self@.dom() =~= m0.dom());
            }
            let Keyed { key, value } = report;
            match value {
                Some(prev) => {
                    r.push(Keyed { key, value: prev });
                },
                None => {},
            }
        }
        proof {
            assert(ks.take(ks.len() as int) =~= ks);
            assert forall|k: Key| #[trigger] m0.contains_key(k) implies exists|i: int|
                0 <= i < r@.len() && r@[i].key == k by {
                assert(ks.to_set().contains(k));
                let j = choose|j: int| 0 <= j < ks.len() && #[trigger] ks[j] == k;
                assert(r@[j].key == k);
            }
        }
        r
    }

    /// Rebuilds the entry of each key of `keys`, in order, from its stored
    /// arguments. A key without an entry is reported with `None` and the
    /// factory is not called for it; otherwise the report holds the
    /// component that the new one replaced. A key named twice is rebuilt
    /// twice.
    pub fn reinit(&mut self, keys: Vec<Key>) -> (r: Vec<Keyed<Key, Option<Comp>>>)
        where
            Key: Eq + Hash,
            FnInit: Fn(&Args) -> Comp,
        requires
            obeys_key_model::<Key>(),
            callable_on_all(old(self).factory()),
        ensures
            final(self).factory() == old(self).factory(),
            exists|outs: Seq<Keyed<Key, Option<Comp>>>|
                {
                    &&& rebuilt_from(old(self).factory(), old(self)@, keys@, outs)
                    &&& final(self)@ == refresh_all(old(self)@, outs)
                    &&& r@.len() == keys@.len()
                    &&& forall|i: int|
                        0 <= i < keys@.len() ==> {
                            &&& (#[trigger] r@[i]).key == keys@[i]
                            &&& r@[i].value == refreshed_prev(old(self)@, outs, i)
                        }
                },
    {
        let ghost ks = keys@;
        let ghost m0 = self@;
        let ghost f = self.factory();
        let ghost mut outs: Seq<Keyed<Key, Option<Comp>>> = Seq::empty();
        let mut r: Vec<Keyed<Key, Option<Comp>>> = Vec::new();
        for key in it: keys
            invariant
                it.seq() == ks,
                obeys_key_model::<Key>(),
                callable_on_all(f),
                self.factory() == f,
                outs.len() == it.index(),
                rebuilt_from(f, m0, ks.take(it.index() as int), outs),
                self@ == refresh_all(m0, outs),
                self@.dom() == m0.dom(),
                forall|k: Key| #[trigger] m0.contains_key(k) ==> self@[k].args == m0[k].args,
                r@.len() == it.index(),
                forall|i: int|
                    0 <= i < it.index() ==> {
                        &&& (#[trigger] r@[i]).key == ks[i]
                        &&& r@[i].value == refreshed_prev(m0, outs, i)
                    },
        {
            let ghost i = it.index() as int;
            let next = match self.map.get(&key) {
                Some(entry) => {
                    proof {
                        assert(self.init == f);
                    }
                    Some((self.init)(&entry.args))
                },
                None => None,
            };
            proof {
                let o = Keyed { key, value: next };
                assert(outs.push(o).drop_last() =~= outs);
                assert(outs.push(o).take(i) =~= outs);
                assert(ks.take(i + 1).drop_last() =~= ks.take(i));
                assert forall|j: int| 0 <= j < i implies refreshed_prev(m0, outs.push(o), j)
                    == refreshed_prev(m0, outs, j) by {
                    assert(outs.push(o).take(j) =~= outs.take(j));
                }
                outs = outs.push(o);
            }
            let report = self.refresh_one(key, next);
            proof {
                assert(self@.dom() =~= m0.dom());
            }
            r.push(report);
        }
        proof {
            assert(ks.take(ks.len() as int) =~= ks);
        }
        r
    }

    /// Builds a component from the arguments of each pair of `updates`, in
    /// order, and stores it with those arguments under the pair's key. Each
    /// report holds a clone of the key and the entry that was displaced, or
    /// `None` where the key was new.
    pub fn update(&mut self, updates: Vec<(Key, Args)>) -> (r: Vec<
        Keyed<Key, Option<WithArgs<Args, Comp>>>,
    >)
        where
            Key: Clone + Eq + Hash,
            FnInit: Fn(&Args) -> Comp,
        requires
            obeys_key_model::<Key>(),
            callable_on_all(old(self).factory()),
        ensures
            final(self).factory() == old(self).factory(),
            exists|built: Seq<(Key, WithArgs<Args, Comp>)>|
                {
                    &&& built_from(old(self).factory(), updates@, built)
                    &&& final(self)@ == insert_all(old(self)@, built)
                    &&& r@.len() == updates@.len()
                    &&& forall|i: int|
                        0 <= i < updates@.len() ==> {
                            &&& cloned(updates@[i].0, (#[trigger] r@[i]).key)
                            &&& r@[i].value == displaced(old(self)@, built, i)
                        }
                },
    {
        let ghost us = updates@;
        let ghost m0 = self@;
        let ghost f = self.factory();
        let ghost mut built: Seq<(Key, WithArgs<Args, Comp>)> = Seq::empty();
        let mut r: Vec<Keyed<Key, Option<WithArgs<Args, Comp>>>> = Vec::new();
        for pair in it: updates
            invariant
                it.seq() == us,
                obeys_key_model::<Key>(),
                callable_on_all(f),
                self.factory() == f,
                built.len() == it.index(),
                built_from(f, us.take(it.index() as int), built),
                self@ == insert_all(m0, built),
                r@.len() == it.index(),
                forall|i: int|
                    0 <= i < it.index() ==> {
                        &&& cloned(us[i].0, (#[trigger] r@[i]).key)
                        &&& r@[i].value == displaced(m0, built, i)
                    },
        {
            let ghost i = it.index() as int;
            let (key, args) = pair;
            proof {
                assert(self.init == f);
            }
            let component = (self.init)(&args);
            let entry = WithArgs { component, args };
            proof {
                let b = (key, entry);
                assert(built.push(b).drop_last() =~= built);
                assert(built.push(b).take(i) =~= built);
                assert(us.take(i + 1).drop_last() =~= us.take(i));
                assert forall|j: int| 0 <= j < i implies displaced(m0, built.push(b), j)
                    == displaced(m0, built, j) by {
                    assert(built.push(b).take(j) =~= built.take(j));
                }
                built = built.push(b);
            }
            let report = self.update_one(key, entry);
            r.push(report);
        }
        proof {
            assert(us.take(us.len() as int) =~= us);
        }
        r
    }
}

} // verus!
