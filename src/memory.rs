use vstd::prelude::*;
use vstd::hash_map::StringHashMap;

verus! {

/// A store that keeps its bindings in memory only.
pub struct KvStore {
    map: StringHashMap<String>,
}

impl KvStore {
    /// The bindings, each key with the value it is bound to.
    pub closed spec fn bindings(&self) -> Map<Seq<char>, Seq<char>> {
        Map::new(|k: Seq<char>| self.map@.contains_key(k), |k: Seq<char>| self.map@[k]@)
    }

    /// A store with no bindings.
    pub fn new() -> (r: KvStore)
        ensures
            r.bindings() == Map::<Seq<char>, Seq<char>>::empty(),
    {
        let r = KvStore { map: StringHashMap::new() };
        assert(r.bindings() =~= Map::<Seq<char>, Seq<char>>::empty());
        r
    }

    /// The value bound to the key, if any.
    pub fn get(&self, key: String) -> (r: Option<String>)
        ensures
            r is Some <==> self.bindings().contains_key(key@),
            r is Some ==> r->0@ == self.bindings()[key@],
    {
        match self.map.get(key.as_str()) {
            Some(v) => Some(v.clone()),
            None => None,
        }
    }

    /// Binds the key to the value, in place of any earlier value.
    pub fn set(&mut self, key: String, val: String)
        ensures
            final(self).bindings() == old(self).bindings().insert(key@, val@),
    {
        self.map.insert(key, val);
        assert(self.bindings() =~= old(self).bindings().insert(key@, val@));
    }

    /// Drops the key's binding; a key without one is left as it is.
    pub fn remove(&mut self, key: String)
        ensures
            final(self).bindings() == old(self).bindings().remove(key@),
    {
        self.map.remove(key.as_str());
        assert(self.bindings() =~= old(self).bindings().remove(key@));
    }
}

impl Default for KvStore {
    fn default() -> (r: KvStore)
        ensures
            r.bindings() == Map::<Seq<char>, Seq<char>>::empty(),
    {
        KvStore::new()
    }
}

} // verus!
