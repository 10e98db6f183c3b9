use vstd::prelude::*;
use vstd::hash_map::StringHashMap;

use crate::command::{Command, KvError};
use crate::model::index_of;

verus! {

/// Log size, in bytes, beyond which a `set` compacts the log.
pub const COMPACTION_THRESHOLD: u64 = 500;

/// Whether a `set` whose record was appended at `offset` must compact the log.
pub fn needs_compaction(offset: u64) -> (r: bool)
    ensures
        r == (offset > COMPACTION_THRESHOLD),
{
    offset > COMPACTION_THRESHOLD
}

/// The in-memory index: each live key and the offset in the log of the
/// record that holds its current value.
pub struct Index {
    map: StringHashMap<u64>,
}

impl View for Index {
    type V = Map<Seq<char>, u64>;

    closed spec fn view(&self) -> Map<Seq<char>, u64> {
        self.map@
    }
}

impl Index {
    /// An index of no keys, that of an empty log.
    pub fn new() -> (r: Index)
        ensures
            r@ == Map::<Seq<char>, u64>::empty(),
    {
        Index { map: StringHashMap::new() }
    }

    /// Builds the index by replaying the log's entries, each with the offset
    /// at which it begins, in file order.
    pub fn replay(entries: &Vec<(u64, Command)>) -> (r: Index)
        ensures
            r@ == index_of(entries@),
    {
        let mut index = Index::new();
        let mut i: usize = 0;
        while i < entries.len()
            invariant
                i <= entries.len(),
                index@ == index_of(entries@.take(i as int)),
            decreases entries.len() - i,
        {
            assert(entries@.take(i as int + 1).drop_last() == entries@.take(i as int));
            let e = &entries[i];
            match &e.1 {
                Command::Put(k, _) => index.record_put(k.clone(), e.0),
                Command::Rm(k) => index.record_remove(k),
            }
            i = i + 1;
        }
        assert(entries@.take(entries.len() as int) == entries@);
        index
    }

    /// The offset of the record that holds the key's value, if the key has one.
    pub fn offset_of(&self, key: &str) -> (r: Option<u64>)
        ensures
            r == (if self@.contains_key(key@) {
                Some(self@[key@])
            } else {
                None::<u64>
            }),
    {
        match self.map.get(key) {
            Some(o) => Some(*o),
            None => None,
        }
    }

    /// Whether the key has a value.
    pub fn contains_key(&self, key: &str) -> (r: bool)
        ensures
            r == self@.contains_key(key@),
    {
        self.map.contains_key(key)
    }

    /// The number of live keys.
    pub fn len(&self) -> (r: usize)
        ensures
            r == self@.len(),
    {
        self.map.len()
    }

    /// Records that the key's value now lives in the record at `offset`.
    pub fn record_put(&mut self, key: String, offset: u64)
        ensures
            final(self)@ == old(self)@.insert(key@, offset),
    {
        self.map.insert(key, offset);
    }

    /// Records that the key has no value any more.
    pub fn record_remove(&mut self, key: &str)
        ensures
            final(self)@ == old(self)@.remove(key@),
    {
        self.map.remove(key);
    }

    /// Whether a removal of the key may go ahead: it fails, and nothing is
    /// written, when the key has no value.
    pub fn check_remove(&self, key: &str) -> (r: Result<(), KvError>)
        ensures
            r is Ok <==> self@.contains_key(key@),
            r is Err ==> r->Err_0 is KeyNoExist,
    {
        if self.map.contains_key(key) {
            Ok(())
        } else {
            Err(KvError::KeyNoExist)
        }
    }
}

} // verus!
