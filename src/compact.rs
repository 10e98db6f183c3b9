use vstd::prelude::*;
use vstd::hash_map::StringHashMap;

use crate::command::Command;
use crate::model::{
    compacts, is_last_for, lemma_compaction_keeps_store, lemma_store_last, lemma_store_untouched,
    store_of,
};

verus! {

/// The records that a compacted log holds: one `Put` for each key that has a
/// value after `cmds`, carrying that value. Keys whose last entry is a
/// removal, and every superseded entry, are left out.
pub fn live_entries(cmds: &Vec<Command>) -> (r: Vec<Command>)
    ensures
        compacts(cmds@, r@),
        store_of(r@) == store_of(cmds@),
        r.len() == store_of(cmds@).dom().len(),
{
    // For each key seen so far, the position of the last entry about it.
    let mut latest: StringHashMap<usize> = StringHashMap::new();
    let mut i: usize = 0;
    while i < cmds.len()
        invariant
            i <= cmds.len(),
            forall|k: Seq<char>| #[trigger]
                latest@.contains_key(k) ==> is_last_for(cmds@.take(i as int), latest@[k] as int, k),
            forall|j: int| 0 <= j < i ==> latest@.contains_key(#[trigger] cmds@[j].key_view()),
        decreases cmds.len() - i,
    {
        let key = cmds[i].key();
        latest.insert(key.clone(), i);
        proof {
            let pre = cmds@.take(i as int);
            let now = cmds@.take(i as int + 1);
            assert forall|k: Seq<char>| #[trigger] latest@.contains_key(k) implies is_last_for(
                now,
                latest@[k] as int,
                k,
            ) by {
                if k != key@ {
                    let j = latest@[k] as int;
                    assert(is_last_for(pre, j, k));
                    assert forall|j2: int| j < j2 < now.len() implies #[trigger] now[j2].key_view()
                        != k by {
                        if j2 < i {
                            assert(now[j2] == pre[j2]);
                        }
                    }
                }
            }
        }
        i = i + 1;
    }
    assert(cmds@.take(cmds.len() as int) == cmds@);

    // Keep each `Put` that is the last entry about its key.
    let mut out: Vec<Command> = Vec::new();
    let ghost mut pos: Seq<int> = Seq::empty();
    let mut j: usize = 0;
    while j < cmds.len()
        invariant
            j <= cmds.len(),
            forall|k: Seq<char>| #[trigger]
                latest@.contains_key(k) ==> is_last_for(cmds@, latest@[k] as int, k),
            forall|n: int| 0 <= n < cmds.len() ==> latest@.contains_key(#[trigger] cmds@[n].key_view()),
            pos.len() == out.len(),
            forall|u: int| 0 <= u < out.len() ==> {
                &&& #[trigger] out@[u] is Put
                &&& 0 <= pos[u] < j
                &&& latest@.contains_key(out@[u].key_view())
                &&& latest@[out@[u].key_view()] == pos[u]
                &&& store_of(cmds@).contains_key(out@[u].key_view())
                &&& store_of(cmds@)[out@[u].key_view()] == out@[u].value_view()
            },
            forall|u1: int, u2: int| 0 <= u1 < u2 < pos.len() ==> #[trigger] pos[u1] < #[trigger] pos[u2],
            forall|n: int|
                0 <= n < j && #[trigger] cmds@[n] is Put && latest@[cmds@[n].key_view()] == n
                    ==> exists|u: int| 0 <= u < out.len() && out@[u].key_view() == cmds@[n].key_view(),
        decreases cmds.len() - j,
    {
        let key = cmds[j].key();
        let last: usize = match latest.get(key.as_str()) {
            Some(n) => *n,
            None => j,
        };
        let ghost before = out@;
        let ghost pos0 = pos;
        if last == j {
            proof {
                lemma_store_last(cmds@, j as int, key@);
            }
            match &cmds[j] {
                Command::Put(k, v) => {
                    out.push(Command::Put(k.clone(), v.clone()));
                    proof {
                        pos = pos.push(j as int);
                    }
                },
                Command::Rm(_) => {},
            }
        }
        proof {
            assert forall|u: int| 0 <= u < before.len() implies out@[u] == before[u] && pos[u]
                == pos0[u] by {}
            assert forall|n: int|
                0 <= n < j + 1 && #[trigger] cmds@[n] is Put && latest@[cmds@[n].key_view()] == n
                    implies exists|u: int| 0 <= u < out.len() && out@[u].key_view()
                    == cmds@[n].key_view() by {
                if n < j {
                    let u = choose|u: int|
                        0 <= u < before.len() && before[u].key_view() == cmds@[n].key_view();
                    assert(out@[u] == before[u]);
                } else {
                    assert(out@[before.len() as int].key_view() == cmds@[n].key_view());
                }
            }
        }
        j = j + 1;
    }
    proof {
        assert forall|u1: int, u2: int|
            0 <= u1 < u2 < out.len() implies #[trigger] out@[u1].key_view()
            != #[trigger] out@[u2].key_view() by {
            assert(pos[u1] < pos[u2]);
        }
        assert forall|k: Seq<char>| #[trigger] store_of(cmds@).contains_key(k) implies exists|u: int|
            0 <= u < out.len() && out@[u].key_view() == k by {
            if !latest@.contains_key(k) {
                assert forall|n: int| 0 <= n < cmds.len() implies #[trigger] cmds@[n].key_view()
                    != k by {}
                lemma_store_untouched(cmds@, k);
            }
            let n = latest@[k] as int;
            lemma_store_last(cmds@, n, k);
            assert(cmds@[n] is Put && latest@[cmds@[n].key_view()] == n);
        }
        lemma_compaction_keeps_store(cmds@, out@);
    }
    out
}

} // verus!
