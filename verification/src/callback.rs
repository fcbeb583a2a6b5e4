//! Callbacks identified by stable ids.
//!
//! Callbacks are registered under a `CallbackId`, and everything that refers to a callback
//! stores the id rather than the callback itself.

use std::collections::HashMap;
use std::collections::HashSet;
use vstd::prelude::*;

verus! {

/// A stable identifier of a callback.
#[derive(Debug, Clone, Copy, Default, PartialEq, Eq, Hash, Structural)]
pub struct CallbackId(pub u64);

/// Looks up the value stored under `key` for mutation. Wraps `HashMap::get_mut`, which returns
/// the value stored under the key, or `None` if there is none; writes through the returned
/// reference replace that value and change nothing else in the map. This holds for key types
/// whose equality and hashing agree with equality of their values, as for the integer keys used
/// here.
#[verifier::external_body]
pub(crate) fn hash_map_get_mut<'a, K: std::hash::Hash + Eq, V>(map: &'a mut HashMap<K, V>, key: &K) -> (value: Option<&'a mut V>)
    requires
        vstd::std_specs::hash::obeys_key_model::<K>(),
    ensures
        match value {
            Some(v) => {
                &&& old(map)@.contains_key(*key)
                &&& *v == old(map)@[*key]
                &&& final(map)@ == old(map)@.insert(*key, *final(v))
            },
            None => !old(map)@.contains_key(*key) && final(map)@ == old(map)@,
        },
{
    map.get_mut(key)
}

/// The keys of `map`, each once, in the order the map yields them.
pub(crate) fn key_list<K: Copy, V>(map: &HashMap<K, V>) -> (keys: Vec<K>)
    requires
        vstd::std_specs::hash::obeys_key_model::<K>(),
    ensures
        keys@.to_set() == map@.dom(),
        keys@.no_duplicates(),
{
    let mut keys: Vec<K> = Vec::new();
    for k in it: map.keys()
        invariant
            keys@ == it.seq().unref().take(it.index() as int),
            it.seq().unref().to_set() == map@.dom(),
            it.seq().unref().no_duplicates(),
            it.index() == it.seq().len() ==> keys@.to_set() == map@.dom() && keys@.no_duplicates(),
    {
        keys.push(*k);
        assert(keys@ =~= it.seq().unref().take(it.index() + 1));
        assert(it.index() + 1 == it.seq().len() ==> keys@ =~= it.seq().unref());
    }
    keys
}

/// The members of `set`, each once, in the order the set yields them.
pub(crate) fn member_list<K: Copy>(set: &HashSet<K>) -> (members: Vec<K>)
    requires
        vstd::std_specs::hash::obeys_key_model::<K>(),
    ensures
        members@.to_set() == set@,
        members@.no_duplicates(),
{
    let mut members: Vec<K> = Vec::new();
    for k in it: set.iter()
        invariant
            members@ == it.seq().unref().take(it.index() as int),
            it.seq().unref().to_set() == set@,
            it.seq().unref().no_duplicates(),
            it.index() == it.seq().len() ==> members@.to_set() == set@ && members@.no_duplicates(),
    {
        members.push(*k);
        assert(members@ =~= it.seq().unref().take(it.index() + 1));
        assert(it.index() + 1 == it.seq().len() ==> members@ =~= it.seq().unref());
    }
    members
}

/// Associates callback ids with their callbacks.
pub struct CallbackManager<T> {
    callbacks: HashMap<u64, T>,
}

impl<T> View for CallbackManager<T> {
    type V = Map<u64, T>;

    closed spec fn view(&self) -> Map<u64, T> {
        self.callbacks@
    }
}

impl<T> CallbackManager<T> {
    pub fn new() -> (manager: CallbackManager<T>)
        ensures
            manager@ == Map::<u64, T>::empty(),
    {
        CallbackManager { callbacks: HashMap::new() }
    }

    /// Registers `callback` under `callback_id`, replacing any callback registered under it.
    pub fn register(&mut self, callback_id: CallbackId, callback: T)
        ensures
            final(self)@ == old(self)@.insert(callback_id.0, callback),
    {
        self.callbacks.insert(callback_id.0, callback);
    }

    pub fn get(&self, callback_id: &CallbackId) -> (callback: Option<&T>)
        ensures
            match callback {
                Some(c) => self@.contains_key(callback_id.0) && *c == self@[callback_id.0],
                None => !self@.contains_key(callback_id.0),
            },
    {
        self.callbacks.get(&callback_id.0)
    }

    pub fn get_mut(&mut self, callback_id: &CallbackId) -> (callback: Option<&mut T>)
        ensures
            match callback {
                Some(c) => {
                    &&& old(self)@.contains_key(callback_id.0)
                    &&& *c == old(self)@[callback_id.0]
                    &&& final(self)@ == old(self)@.insert(callback_id.0, *final(c))
                },
                None => !old(self)@.contains_key(callback_id.0) && final(self)@ == old(self)@,
            },
    {
        hash_map_get_mut(&mut self.callbacks, &callback_id.0)
    }
}

} // verus!
