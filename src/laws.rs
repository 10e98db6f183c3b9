use vstd::prelude::*;

use crate::command::Command;
use crate::model::{
    commands_of, compacts, index_of, lemma_compaction_keeps_store, lemma_index_agrees_with_store,
    offsets_increasing, store_of,
};

verus! {

/// The record that a read at the key's indexed offset finds in the log
/// binds the key to `v`.
pub open spec fn reads_as(es: Seq<(u64, Command)>, k: Seq<char>, v: Seq<char>) -> bool {
    &&& index_of(es).contains_key(k)
    &&& forall|i: int|
        0 <= i < es.len() && #[trigger] es[i].0 == index_of(es)[k] ==> {
            &&& es[i].1 is Put
            &&& es[i].1.key_view() == k
            &&& es[i].1.value_view() == v
        }
}

/// Every offset of `es` lies below `o`: a record appended at `o` follows them all.
pub open spec fn ends_before(es: Seq<(u64, Command)>, o: u64) -> bool {
    forall|i: int| 0 <= i < es.len() ==> #[trigger] es[i].0 < o
}

proof fn lemma_append_keeps_order(es: Seq<(u64, Command)>, e: (u64, Command))
    requires
        offsets_increasing(es),
        ends_before(es, e.0),
    ensures
        offsets_increasing(es.push(e)),
{
    assert forall|i: int, j: int| 0 <= i < j < es.push(e).len() implies es.push(e)[i].0 < es.push(
        e,
    )[j].0 by {
        if j < es.len() {
            assert(es.push(e)[i] == es[i] && es.push(e)[j] == es[j]);
        } else {
            assert(es.push(e)[i] == es[i]);
        }
    }
}

/// After `set(k, v)` appends its record at the end of the log, a read of `k`
/// finds `v`.
pub proof fn law_set_then_get(es: Seq<(u64, Command)>, k: String, v: String, o: u64)
    requires
        offsets_increasing(es),
        ends_before(es, o),
    ensures
        reads_as(es.push((o, Command::Put(k, v))), k@, v@),
        store_of(commands_of(es.push((o, Command::Put(k, v)))))[k@] == v@,
{
    let es2 = es.push((o, Command::Put(k, v)));
    lemma_append_keeps_order(es, (o, Command::Put(k, v)));
    lemma_index_agrees_with_store(es2, k@);
    assert(commands_of(es2).drop_last() == commands_of(es)) by {
        assert(commands_of(es2).drop_last() =~= commands_of(es));
    }
    assert(commands_of(es2).last() == Command::Put(k, v));
}

/// After `set(k, v1)` and then `set(k, v2)`, a read of `k` finds `v2`.
pub proof fn law_overwrite(
    es: Seq<(u64, Command)>,
    k: String,
    v1: String,
    v2: String,
    o1: u64,
    o2: u64,
)
    requires
        offsets_increasing(es),
        ends_before(es, o1),
        o1 < o2,
    ensures
        reads_as(es.push((o1, Command::Put(k, v1))).push((o2, Command::Put(k, v2))), k@, v2@),
{
    let es1 = es.push((o1, Command::Put(k, v1)));
    lemma_append_keeps_order(es, (o1, Command::Put(k, v1)));
    assert(ends_before(es1, o2)) by {
        assert forall|i: int| 0 <= i < es1.len() implies #[trigger] es1[i].0 < o2 by {
            if i < es.len() {
                assert(es1[i] == es[i]);
            }
        }
    }
    law_set_then_get(es1, k, v2, o2);
}

/// After `set(k, v)` and then `remove(k)`, `k` has no value: a read finds
/// none, and a second removal is refused.
pub proof fn law_remove(es: Seq<(u64, Command)>, k: String, v: String, o1: u64, o2: u64)
    ensures
        !index_of(es.push((o1, Command::Put(k, v))).push((o2, Command::Rm(k)))).contains_key(k@),
        !store_of(
            commands_of(es.push((o1, Command::Put(k, v))).push((o2, Command::Rm(k)))),
        ).contains_key(k@),
{
    let es2 = es.push((o1, Command::Put(k, v))).push((o2, Command::Rm(k)));
    assert(es2.drop_last() == es.push((o1, Command::Put(k, v))));
    assert(commands_of(es2).drop_last() =~= commands_of(es2.drop_last()));
    assert(commands_of(es2).last() == Command::Rm(k));
}

/// The index that the store keeps up to date, key by key, as it appends
/// records is the index that replaying the log builds: reopening the store
/// gives every key the value it had before.
pub proof fn law_reopen(es: Seq<(u64, Command)>, idx: Map<Seq<char>, u64>, e: (u64, Command))
    requires
        idx == index_of(es),
    ensures
        index_of(es.push(e)) == (match e.1 {
            Command::Put(k, _) => idx.insert(k@, e.0),
            Command::Rm(k) => idx.remove(k@),
        }),
{
    assert(es.push(e).drop_last() == es);
}

/// A log rebuilt from the entries that compaction keeps, at any growing
/// offsets, gives every key the value it had, its reads find those values,
/// and it holds one record per live key.
pub proof fn law_compaction(cs: Seq<Command>, es: Seq<(u64, Command)>)
    requires
        compacts(cs, commands_of(es)),
        offsets_increasing(es),
    ensures
        store_of(commands_of(es)) == store_of(cs),
        es.len() == store_of(cs).dom().len(),
        forall|k: Seq<char>| #[trigger]
            index_of(es).contains_key(k) == store_of(cs).contains_key(k),
        forall|k: Seq<char>| #[trigger]
            store_of(cs).contains_key(k) ==> reads_as(es, k, store_of(cs)[k]),
{
    lemma_compaction_keeps_store(cs, commands_of(es));
    assert forall|k: Seq<char>| #[trigger]
        index_of(es).contains_key(k) == store_of(cs).contains_key(k) by {
        lemma_index_agrees_with_store(es, k);
    }
    assert forall|k: Seq<char>| #[trigger]
        store_of(cs).contains_key(k) implies reads_as(es, k, store_of(cs)[k]) by {
        lemma_index_agrees_with_store(es, k);
    }
}

} // verus!
