use vstd::prelude::*;

use crate::command::Command;

verus! {

/// What the log says of each key: the value of its latest `Put`, unless a
/// later `Rm` removed it.
pub open spec fn store_of(cs: Seq<Command>) -> Map<Seq<char>, Seq<char>>
    decreases cs.len(),
{
    if cs.len() == 0 {
        Map::empty()
    } else {
        let prev = store_of(cs.drop_last());
        let c = cs.last();
        match c {
            Command::Put(k, v) => prev.insert(k@, v@),
            Command::Rm(k) => prev.remove(k@),
        }
    }
}

/// The index that replaying a log builds: each live key maps to the offset of
/// the entry that last set it.
pub open spec fn index_of(es: Seq<(u64, Command)>) -> Map<Seq<char>, u64>
    decreases es.len(),
{
    if es.len() == 0 {
        Map::empty()
    } else {
        let prev = index_of(es.drop_last());
        let e = es.last();
        match e.1 {
            Command::Put(k, _) => prev.insert(k@, e.0),
            Command::Rm(k) => prev.remove(k@),
        }
    }
}

/// The commands of a log whose entries carry their offsets.
pub open spec fn commands_of(es: Seq<(u64, Command)>) -> Seq<Command> {
    es.map_values(|e: (u64, Command)| e.1)
}

/// Offsets grow strictly along the log, as they do in a file that is appended to.
pub open spec fn offsets_increasing(es: Seq<(u64, Command)>) -> bool {
    forall|i: int, j: int| 0 <= i < j < es.len() ==> es[i].0 < es[j].0
}

proof fn lemma_commands_drop_last(es: Seq<(u64, Command)>)
    requires
        es.len() > 0,
    ensures
        commands_of(es.drop_last()) == commands_of(es).drop_last(),
        commands_of(es).last() == es.last().1,
        commands_of(es).len() == es.len(),
{
    assert(commands_of(es.drop_last()) =~= commands_of(es).drop_last());
}

/// The index that replay builds holds exactly the keys that have a value, and
/// the entry at a key's offset is the `Put` that gave the key its value.
pub proof fn lemma_index_agrees_with_store(es: Seq<(u64, Command)>, k: Seq<char>)
    requires
        offsets_increasing(es),
    ensures
        index_of(es).contains_key(k) == store_of(commands_of(es)).contains_key(k),
        index_of(es).contains_key(k) ==> forall|i: int|
            0 <= i < es.len() && #[trigger] es[i].0 == index_of(es)[k] ==> {
                &&& es[i].1 is Put
                &&& es[i].1.key_view() == k
                &&& es[i].1.value_view() == store_of(commands_of(es))[k]
            },
    decreases es.len(),
{
    if es.len() > 0 {
        let pre = es.drop_last();
        lemma_commands_drop_last(es);
        lemma_index_agrees_with_store(pre, k);
        if index_of(es).contains_key(k) {
            let o = index_of(es)[k];
            let n = es.len() - 1;
            match es.last().1 {
                Command::Put(k2, _) => {
                    if k2@ != k {
                        assert forall|i: int|
                            0 <= i < es.len() && #[trigger] es[i].0 == o implies {
                                &&& es[i].1 is Put
                                &&& es[i].1.key_view() == k
                                &&& es[i].1.value_view() == store_of(commands_of(es))[k]
                            } by {
                            if i == n {
                                assert(index_of(pre).contains_key(k));
                                assert(false) by {
                                    lemma_offset_in_log(pre, k);
                                }
                            } else {
                                assert(pre[i] == es[i]);
                            }
                        }
                    } else {
                        assert forall|i: int|
                            0 <= i < es.len() && #[trigger] es[i].0 == o implies {
                                &&& es[i].1 is Put
                                &&& es[i].1.key_view() == k
                                &&& es[i].1.value_view() == store_of(commands_of(es))[k]
                            } by {
                            if i < n {
                                assert(es[i].0 < es[n].0);
                            }
                        }
                    }
                },
                Command::Rm(k2) => {
                    assert forall|i: int|
                        0 <= i < es.len() && #[trigger] es[i].0 == o implies {
                            &&& es[i].1 is Put
                            &&& es[i].1.key_view() == k
                            &&& es[i].1.value_view() == store_of(commands_of(es))[k]
                        } by {
                        if i == n {
                            assert(false) by {
                                lemma_offset_in_log(pre, k);
                            }
                        } else {
                            assert(pre[i] == es[i]);
                        }
                    }
                },
            }
        }
    }
}

/// Every offset in the index is the offset of some entry of the log.
proof fn lemma_offset_in_log(es: Seq<(u64, Command)>, k: Seq<char>)
    requires
        index_of(es).contains_key(k),
    ensures
        exists|i: int| 0 <= i < es.len() && es[i].0 == index_of(es)[k],
    decreases es.len(),
{
    let pre = es.drop_last();
    match es.last().1 {
        Command::Put(k2, _) => {
            if k2@ == k {
                assert(es[es.len() - 1].0 == index_of(es)[k]);
            } else {
                lemma_offset_in_log(pre, k);
                let i = choose|i: int| 0 <= i < pre.len() && pre[i].0 == index_of(pre)[k];
                assert(es[i] == pre[i]);
            }
        },
        Command::Rm(k2) => {
            lemma_offset_in_log(pre, k);
            let i = choose|i: int| 0 <= i < pre.len() && pre[i].0 == index_of(pre)[k];
            assert(es[i] == pre[i]);
        },
    }
}

} // verus!

verus! {

/// The entry at `j` is the last one in `cs` that is about key `k`.
pub open spec fn is_last_for(cs: Seq<Command>, j: int, k: Seq<char>) -> bool {
    &&& 0 <= j < cs.len()
    &&& cs[j].key_view() == k
    &&& forall|j2: int| j < j2 < cs.len() ==> #[trigger] cs[j2].key_view() != k
}

/// Whether `k` has a value in the store is decided by the last entry about
/// it: a `Put` gives it that entry's value, a removal none.
pub proof fn lemma_store_last(cs: Seq<Command>, j: int, k: Seq<char>)
    requires
        is_last_for(cs, j, k),
    ensures
        store_of(cs).contains_key(k) == cs[j] is Put,
        cs[j] is Put ==> store_of(cs)[k] == cs[j].value_view(),
    decreases cs.len(),
{
    let pre = cs.drop_last();
    if j < cs.len() - 1 {
        assert(cs[cs.len() - 1].key_view() != k);
        assert forall|j2: int| j < j2 < pre.len() implies #[trigger] pre[j2].key_view() != k by {
            assert(pre[j2] == cs[j2]);
        }
        lemma_store_last(pre, j, k);
    }
}

/// A key that no entry is about has no value.
pub proof fn lemma_store_untouched(cs: Seq<Command>, k: Seq<char>)
    requires
        forall|j: int| 0 <= j < cs.len() ==> #[trigger] cs[j].key_view() != k,
    ensures
        !store_of(cs).contains_key(k),
    decreases cs.len(),
{
    if cs.len() > 0 {
        let pre = cs.drop_last();
        assert(cs[cs.len() - 1].key_view() != k);
        assert forall|j: int| 0 <= j < pre.len() implies #[trigger] pre[j].key_view() != k by {
            assert(pre[j] == cs[j]);
        }
        lemma_store_untouched(pre, k);
    }
}

/// `r` holds one `Put` for each key that has a value in `cs`, with that
/// value, and nothing else.
pub open spec fn compacts(cs: Seq<Command>, r: Seq<Command>) -> bool {
    &&& forall|u: int| 0 <= u < r.len() ==> {
        &&& #[trigger] r[u] is Put
        &&& store_of(cs).contains_key(r[u].key_view())
        &&& store_of(cs)[r[u].key_view()] == r[u].value_view()
    }
    &&& forall|k: Seq<char>| #[trigger]
        store_of(cs).contains_key(k) ==> exists|u: int| 0 <= u < r.len() && r[u].key_view() == k
    &&& forall|u1: int, u2: int|
        0 <= u1 < u2 < r.len() ==> #[trigger] r[u1].key_view() != #[trigger] r[u2].key_view()
}

/// A log of `Put`s about distinct keys gives each of those keys its `Put`'s value.
proof fn lemma_store_of_distinct_puts(r: Seq<Command>, k: Seq<char>)
    requires
        forall|u: int| 0 <= u < r.len() ==> #[trigger] r[u] is Put,
        forall|u1: int, u2: int|
            0 <= u1 < u2 < r.len() ==> #[trigger] r[u1].key_view() != #[trigger] r[u2].key_view(),
    ensures
        store_of(r).contains_key(k) <==> exists|u: int| 0 <= u < r.len() && r[u].key_view() == k,
        forall|u: int|
            0 <= u < r.len() && r[u].key_view() == k ==> store_of(r)[k] == #[trigger] r[u].value_view(),
{
    assert forall|u: int| 0 <= u < r.len() && r[u].key_view() == k implies is_last_for(r, u, k) by {
        assert forall|j2: int| u < j2 < r.len() implies #[trigger] r[j2].key_view() != k by {
            assert(r[u].key_view() != r[j2].key_view());
        }
    }
    if exists|u: int| 0 <= u < r.len() && r[u].key_view() == k {
        let u = choose|u: int| 0 <= u < r.len() && r[u].key_view() == k;
        lemma_store_last(r, u, k);
        assert forall|u2: int| 0 <= u2 < r.len() && r[u2].key_view() == k implies store_of(r)[k]
            == #[trigger] r[u2].value_view() by {
            lemma_store_last(r, u2, k);
        }
    } else {
        lemma_store_untouched(r, k);
    }
}

/// Compaction keeps what the log says: a log that `compacts` another gives
/// every key the same value, and holds one record per live key.
pub proof fn lemma_compaction_keeps_store(cs: Seq<Command>, r: Seq<Command>)
    requires
        compacts(cs, r),
    ensures
        store_of(r) == store_of(cs),
        r.len() == store_of(cs).dom().len(),
{
    assert forall|k: Seq<char>| #[trigger] store_of(r).contains_key(k) == store_of(cs).contains_key(k)
        && (store_of(cs).contains_key(k) ==> store_of(r)[k] == store_of(cs)[k]) by {
        lemma_store_of_distinct_puts(r, k);
        if store_of(cs).contains_key(k) {
            let u = choose|u: int| 0 <= u < r.len() && r[u].key_view() == k;
            assert(store_of(r)[k] == r[u].value_view());
        }
    }
    assert(store_of(r) =~= store_of(cs));
    let keys = r.map_values(|c: Command| c.key_view());
    assert(keys.no_duplicates()) by {
        assert forall|a: int, b: int| 0 <= a < keys.len() && 0 <= b < keys.len() && a != b
            implies keys[a] != keys[b] by {
            if a < b {
                assert(r[a].key_view() != r[b].key_view());
            } else {
                assert(r[b].key_view() != r[a].key_view());
            }
        }
    }
    keys.unique_seq_to_set();
    assert(keys.to_set() =~= store_of(cs).dom()) by {
        assert forall|k: Seq<char>| keys.to_set().contains(k) implies store_of(cs).dom().contains(k) by {
            let u = choose|u: int| 0 <= u < keys.len() && keys[u] == k;
            assert(r[u].key_view() == k);
        }
        assert forall|k: Seq<char>| store_of(cs).dom().contains(k) implies keys.to_set().contains(k) by {
            assert(store_of(cs).contains_key(k));
            let u = choose|u: int| 0 <= u < r.len() && r[u].key_view() == k;
            assert(keys[u] == k);
        }
    }
}

} // verus!
