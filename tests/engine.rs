use kvs::{
    live_entries, needs_compaction, split_records, value_of, Command, Index, KvError, KvStore,
    COMPACTION_THRESHOLD,
};

fn put(k: &str, v: &str) -> Command {
    Command::Put(k.to_string(), v.to_string())
}

fn rm(k: &str) -> Command {
    Command::Rm(k.to_string())
}

// The bytes of a record as the log stores it.
fn line(c: &Command) -> String {
    match c {
        Command::Put(k, v) => format!("{{\"Set\":[\"{}\",\"{}\"]}}\n", k, v),
        Command::Rm(k) => format!("{{\"Rm\":\"{}\"}}\n", k),
    }
}

// Lays the commands out one after another, as appends to the log do.
fn lay_out(cmds: Vec<Command>) -> (Vec<(u64, Command)>, u64) {
    let mut at: u64 = 0;
    let mut es = Vec::new();
    for c in cmds {
        let n = line(&c).len() as u64;
        es.push((at, c));
        at += n;
    }
    (es, at)
}

// What `get` returns: look the key up, read the record at its offset.
fn read(index: &Index, es: &[(u64, Command)], key: &str) -> Option<String> {
    let o = index.offset_of(key)?;
    let (_, c) = es.iter().find(|(at, _)| *at == o).expect("a record at the offset");
    let c = match c {
        Command::Put(k, v) => Command::Put(k.clone(), v.clone()),
        Command::Rm(k) => Command::Rm(k.clone()),
    };
    Some(value_of(c).expect("a Put at the offset"))
}

#[test]
fn split_records_cuts_at_newlines() {
    let log = b"{\"Rm\":\"a\"}\nxy\n".to_vec();
    assert_eq!(split_records(&log), vec![(0, 11), (11, 14)]);
}

#[test]
fn split_records_keeps_an_unterminated_tail() {
    let log = b"ab\ncd".to_vec();
    assert_eq!(split_records(&log), vec![(0, 3), (3, 5)]);
}

#[test]
fn split_records_of_empty_log() {
    assert!(split_records(&Vec::new()).is_empty());
}

#[test]
fn split_records_keeps_empty_lines() {
    let log = b"\n\nz\n".to_vec();
    assert_eq!(split_records(&log), vec![(0, 1), (1, 2), (2, 4)]);
}

#[test]
fn set_then_get_returns_value() {
    let (es, _) = lay_out(vec![put("k", "v")]);
    let index = Index::replay(&es);
    assert_eq!(read(&index, &es, "k"), Some("v".to_string()));
}

#[test]
fn overwrite_returns_latest_value() {
    let (es, _) = lay_out(vec![put("k", "v1"), put("k", "v2")]);
    let index = Index::replay(&es);
    assert_eq!(index.offset_of("k"), Some(es[1].0));
    assert_eq!(read(&index, &es, "k"), Some("v2".to_string()));
}

#[test]
fn remove_then_get_has_no_value() {
    let (es, _) = lay_out(vec![put("k", "v"), rm("k")]);
    let index = Index::replay(&es);
    assert_eq!(read(&index, &es, "k"), None);
    assert!(matches!(index.check_remove("k"), Err(KvError::KeyNoExist)));
}

#[test]
fn remove_of_a_live_key_is_allowed() {
    let mut index = Index::new();
    index.record_put("k".to_string(), 0);
    assert!(index.check_remove("k").is_ok());
    index.record_remove("k");
    assert!(matches!(index.check_remove("k"), Err(KvError::KeyNoExist)));
    assert!(!index.contains_key("k"));
}

#[test]
fn index_kept_by_writes_matches_replay() {
    let (es, _) = lay_out(vec![put("a", "1"), put("b", "2"), put("a", "3"), rm("b"), put("c", "4")]);
    let mut live = Index::new();
    for (o, c) in &es {
        match c {
            Command::Put(k, _) => live.record_put(k.clone(), *o),
            Command::Rm(k) => live.record_remove(k),
        }
    }
    let reopened = Index::replay(&es);
    for k in ["a", "b", "c", "d"] {
        assert_eq!(live.offset_of(k), reopened.offset_of(k));
    }
    assert_eq!(reopened.len(), 2);
}

#[test]
fn example_sets_and_remove_survive_reopen() {
    let (es, _) = lay_out(vec![put("a", "1"), put("b", "2"), put("a", "3"), rm("b")]);
    let index = Index::replay(&es);
    assert_eq!(read(&index, &es, "a"), Some("3".to_string()));
    assert_eq!(read(&index, &es, "b"), None);
    let again = Index::replay(&es);
    assert_eq!(read(&again, &es, "a"), Some("3".to_string()));
    assert_eq!(read(&again, &es, "b"), None);
}

#[test]
fn offsets_follow_record_lengths() {
    let (es, end) = lay_out(vec![put("a", "1"), rm("a")]);
    assert_eq!(es[0].0, 0);
    assert_eq!(es[1].0, 18);
    assert_eq!(end, 29);
}

#[test]
fn value_of_put_is_its_value() {
    assert_eq!(value_of(put("k", "v")).unwrap(), "v");
}

#[test]
fn value_of_removal_is_bad_log_entry() {
    assert!(matches!(value_of(rm("k")), Err(KvError::BadLogEntry)));
}

#[test]
fn compaction_keeps_one_put_per_live_key() {
    let cmds = vec![put("a", "1"), put("b", "2"), put("a", "3"), rm("b"), put("c", "4"), rm("d")];
    let live = live_entries(&cmds);
    assert_eq!(live.len(), 2);
    let mut got: Vec<(String, String)> = live
        .iter()
        .map(|c| match c {
            Command::Put(k, v) => (k.clone(), v.clone()),
            Command::Rm(_) => panic!("a removal survived compaction"),
        })
        .collect();
    got.sort();
    assert_eq!(got, vec![("a".to_string(), "3".to_string()), ("c".to_string(), "4".to_string())]);
}

#[test]
fn compaction_keeps_reads() {
    let cmds = vec![put("x", "1"), put("y", "2"), put("x", "5"), rm("y"), put("y", "6")];
    let (es, _) = lay_out(cmds);
    let before = Index::replay(&es);
    let olds: Vec<Option<String>> = ["x", "y", "z"].iter().map(|k| read(&before, &es, k)).collect();
    let cmds: Vec<Command> = es.into_iter().map(|(_, c)| c).collect();
    let (new_es, _) = lay_out(live_entries(&cmds));
    assert_eq!(new_es.len(), 2);
    let after = Index::replay(&new_es);
    let news: Vec<Option<String>> = ["x", "y", "z"].iter().map(|k| read(&after, &new_es, k)).collect();
    assert_eq!(olds, news);
    assert_eq!(news, vec![Some("5".to_string()), Some("6".to_string()), None]);
}

#[test]
fn compaction_of_empty_log_is_empty() {
    assert!(live_entries(&Vec::new()).is_empty());
}

#[test]
fn threshold_is_strict() {
    assert!(!needs_compaction(COMPACTION_THRESHOLD));
    assert!(needs_compaction(COMPACTION_THRESHOLD + 1));
    assert!(!needs_compaction(0));
    assert_eq!(COMPACTION_THRESHOLD, 500);
}

#[test]
fn many_sets_trigger_compaction_and_shrink_log() {
    let mut cmds = Vec::new();
    let mut fired = false;
    let mut at: u64 = 0;
    for n in 0..40 {
        let c = put(&format!("k{}", n % 3), &format!("v{}", n));
        if needs_compaction(at) {
            fired = true;
        }
        at += line(&c).len() as u64;
        cmds.push(c);
    }
    assert!(fired);
    let live = live_entries(&cmds);
    let (new_es, new_end) = lay_out(live);
    assert!(new_end < at);
    assert_eq!(new_es.len(), 3);
    let after = Index::replay(&new_es);
    assert_eq!(read(&after, &new_es, "k0"), Some("v39".to_string()));
    assert_eq!(read(&after, &new_es, "k1"), Some("v37".to_string()));
    assert_eq!(read(&after, &new_es, "k2"), Some("v38".to_string()));
}

#[test]
fn key_of_commands() {
    assert_eq!(put("a", "1").key(), "a");
    assert_eq!(rm("b").key(), "b");
}

#[test]
fn error_messages() {
    assert_eq!(KvError::KeyNoExist.message(), "Key not found");
    assert_eq!(KvError::BadLogEntry.message(), "Bad log entry");
    assert_eq!(KvError::PathError("x".to_string()).message(), "could not open path");
    assert_eq!(KvError::SerializeError("x".to_string()).message(), "could not serialize to JSON");
}

#[test]
fn memory_store_set_get_remove() {
    let mut s = KvStore::new();
    assert_eq!(s.get("a".to_string()), None);
    s.set("a".to_string(), "1".to_string());
    assert_eq!(s.get("a".to_string()), Some("1".to_string()));
    s.set("a".to_string(), "2".to_string());
    assert_eq!(s.get("a".to_string()), Some("2".to_string()));
    s.remove("a".to_string());
    assert_eq!(s.get("a".to_string()), None);
    s.remove("a".to_string());
    assert_eq!(s.get("a".to_string()), None);
}

#[test]
fn memory_store_default_is_empty() {
    let s = KvStore::default();
    assert_eq!(s.get("x".to_string()), None);
}
