use std::collections::BTreeMap;

use kvs::{locate_records, value_of, Command, CommandPos, KvsError, LogEngine, Record};

/// Segment files kept in memory, driven by the engine's decisions.
struct Disk {
    segments: BTreeMap<u64, Vec<u8>>,
    engine: LogEngine,
    compactions: usize,
}

fn decode(bytes: &[u8]) -> Command {
    let v: serde_json::Value = serde_json::from_slice(bytes).expect("record is JSON");
    if let Some(set) = v.get("Set") {
        Command::set(
            set["key"].as_str().unwrap().to_string(),
            set["value"].as_str().unwrap().to_string(),
        )
    } else {
        Command::remove(v["Remove"]["key"].as_str().unwrap().to_string())
    }
}

impl Disk {
    fn open_empty() -> Disk {
        let mut segments = BTreeMap::new();
        segments.insert(0, Vec::new());
        Disk { segments, engine: LogEngine::gen_index(&Vec::new(), 0, 0), compactions: 0 }
    }

    fn reopen(&self) -> Disk {
        let mut records = Vec::new();
        for (fid, bytes) in &self.segments {
            let cmds: Vec<Command> = serde_json::Deserializer::from_slice(bytes)
                .into_iter::<serde_json::Value>()
                .map(|v| decode(&serde_json::to_vec(&v.unwrap()).unwrap()))
                .collect();
            records.extend(locate_records(*fid, bytes, &cmds).unwrap());
        }
        let active = *self.segments.keys().last().unwrap();
        let len = self.segments[&active].len() as u64;
        Disk {
            segments: self.segments.clone(),
            engine: LogEngine::gen_index(&records, active, len),
            compactions: 0,
        }
    }

    fn perform(&mut self, a: kvs::Append) {
        let seg = self.segments.get_mut(&a.pos.fid).unwrap();
        assert_eq!(seg.len() as u64, a.pos.pos);
        seg.extend_from_slice(&a.bytes);
        assert_eq!(a.bytes.len() as u64, a.pos.len);
        if a.rotated {
            self.segments.insert(self.engine.current_fid(), Vec::new());
        }
        if a.compact {
            let c = self.engine.compact().unwrap();
            for fid in c.old_max + 1..=self.engine.current_fid() {
                self.segments.insert(fid, Vec::new());
            }
            for m in &c.moves {
                let from = &self.segments[&m.from.fid];
                let bytes = from[m.from.pos as usize..(m.from.pos + m.from.len) as usize].to_vec();
                let to = self.segments.get_mut(&m.to.fid).unwrap();
                assert_eq!(to.len() as u64, m.to.pos);
                to.extend_from_slice(&bytes);
            }
            self.segments.retain(|fid, _| *fid > c.old_max);
            self.compactions += 1;
        }
    }

    fn set(&mut self, k: &str, v: &str) {
        let a = self.engine.set(k.to_string(), v.to_string()).unwrap();
        self.perform(a);
    }

    fn remove(&mut self, k: &str) -> Result<(), KvsError> {
        let a = self.engine.remove(k.to_string())?;
        self.perform(a);
        Ok(())
    }

    fn get(&self, k: &str) -> Option<String> {
        let key = k.to_string();
        let pos = self.engine.lookup(&key)?;
        let seg = &self.segments[&pos.fid];
        let bytes = seg[pos.pos as usize..(pos.pos + pos.len) as usize].to_vec();
        let cmd = decode(&bytes);
        Some(value_of(&key, &bytes, cmd).unwrap())
    }
}

#[test]
fn set_get_remove_scenario() {
    let mut d = Disk::open_empty();
    d.set("k", "v");
    assert_eq!(d.get("k"), Some("v".to_string()));
    assert!(d.remove("k").is_ok());
    assert_eq!(d.get("k"), None);
    assert!(matches!(d.remove("k"), Err(KvsError::KeyNotFoundError)));
}

#[test]
fn overwrite_survives_reopen() {
    let mut d = Disk::open_empty();
    d.set("a", "1");
    d.set("a", "2");
    let r = d.reopen();
    assert_eq!(r.get("a"), Some("2".to_string()));
}

#[test]
fn read_your_writes_many_times() {
    let mut d = Disk::open_empty();
    for i in 0..50 {
        d.set("x", &format!("v{}", i));
    }
    assert_eq!(d.get("x"), Some("v49".to_string()));
}

#[test]
fn removed_key_stays_removed_after_reopen() {
    let mut d = Disk::open_empty();
    d.set("a", "1");
    d.set("b", "2");
    d.remove("a").unwrap();
    let r = d.reopen();
    assert_eq!(r.get("a"), None);
    assert_eq!(r.get("b"), Some("2".to_string()));
    assert_eq!(r.engine.stale_bytes(), d.engine.stale_bytes());
}

#[test]
fn ten_thousand_pairs() {
    let mut d = Disk::open_empty();
    for i in 0..10000 {
        d.set(&format!("key{}", i), &format!("val{}", i));
    }
    let mut i: u64 = 7;
    for _ in 0..10000 {
        i = (i * 7919 + 13) % 10000;
        assert_eq!(d.get(&format!("key{}", i)), Some(format!("val{}", i)));
    }
    assert_eq!(d.engine.len(), 10000);
    let r = d.reopen();
    assert_eq!(r.get("key1234"), Some("val1234".to_string()));
}

#[test]
fn writes_past_threshold_rotate() {
    let mut d = Disk::open_empty();
    let value = "x".repeat(1000);
    for i in 0..2000 {
        d.set(&format!("key{}", i), &value);
    }
    assert!(d.segments.len() > 1);
    let ids: Vec<u64> = d.segments.keys().cloned().collect();
    assert!(ids.windows(2).all(|w| w[0] < w[1]));
    assert_eq!(*ids.last().unwrap(), d.engine.current_fid());
    for i in 0..2000 {
        assert_eq!(d.get(&format!("key{}", i)), Some(value.clone()));
    }
    let r = d.reopen();
    assert_eq!(r.get("key1999"), Some(value.clone()));
}

#[test]
fn overwrites_trigger_compaction() {
    let mut d = Disk::open_empty();
    for i in 0..10000 {
        d.set(&format!("key{}", i), &format!("val{}", i));
    }
    let max_before = *d.segments.keys().last().unwrap();
    let mut round = 0;
    while d.compactions == 0 {
        round += 1;
        for i in 0..10000 {
            d.set(&format!("key{}", i), &format!("new{}-{}", round, i));
        }
    }
    assert!(d.segments.keys().all(|fid| *fid > max_before));
    for i in 0..10000 {
        let v = d.get(&format!("key{}", i)).unwrap();
        assert!(v.starts_with("new"));
        assert!(v.ends_with(&format!("-{}", i)));
    }
    let r = d.reopen();
    for i in (0..10000).step_by(97) {
        assert_eq!(r.get(&format!("key{}", i)), d.get(&format!("key{}", i)));
    }
}

#[test]
fn compaction_resets_stale_bytes() {
    let mut d = Disk::open_empty();
    d.set("a", "1");
    d.set("a", "2");
    d.set("b", "3");
    assert!(d.engine.stale_bytes() > 0);
    let c = d.engine.compact().unwrap();
    assert_eq!(c.old_max, 0);
    assert_eq!(c.moves.len(), 2);
    assert_eq!(d.engine.stale_bytes(), 0);
    assert_eq!(d.engine.current_fid(), 1);
    assert_eq!(c.moves[0].to, CommandPos::new(1, 0, c.moves[0].from.len));
    assert_eq!(
        c.moves[1].to,
        CommandPos::new(1, c.moves[0].from.len, c.moves[1].from.len)
    );
    assert_eq!(d.engine.current_pointer(), c.moves[0].from.len + c.moves[1].from.len);
}

#[test]
fn stale_bytes_count_overwrites_and_removes() {
    let mut e = LogEngine::gen_index(&Vec::new(), 0, 0);
    let first = e.set("a".to_string(), "1".to_string()).unwrap();
    assert_eq!(e.stale_bytes(), 0);
    let second = e.set("a".to_string(), "2".to_string()).unwrap();
    assert_eq!(e.stale_bytes(), first.pos.len);
    let rm = e.remove("a".to_string()).unwrap();
    assert_eq!(e.stale_bytes(), first.pos.len + second.pos.len + rm.pos.len);
    assert_eq!(e.len(), 0);
}

#[test]
fn appends_land_at_end_of_active_segment() {
    let mut e = LogEngine::gen_index(&Vec::new(), 4, 100);
    let a = e.set("k".to_string(), "v".to_string()).unwrap();
    assert_eq!(a.pos.fid, 4);
    assert_eq!(a.pos.pos, 100);
    assert_eq!(e.current_pointer(), 100 + a.pos.len);
    assert!(!a.rotated);
    assert!(!a.compact);
}

#[test]
fn append_past_rotation_threshold_opens_next_segment() {
    let mut e = LogEngine::gen_index(&Vec::new(), 2, 1048576 - 10);
    let a = e.set("k".to_string(), "v".to_string()).unwrap();
    assert!(a.rotated);
    assert_eq!(a.pos.fid, 2);
    assert_eq!(e.current_fid(), 3);
    assert_eq!(e.current_pointer(), 0);
}

#[test]
fn append_at_exact_threshold_does_not_rotate() {
    let probe = Command::set("k".to_string(), "v".to_string()).encode();
    let start = 1048576 - probe.len() as u64;
    let mut e = LogEngine::gen_index(&Vec::new(), 0, start);
    let a = e.set("k".to_string(), "v".to_string()).unwrap();
    assert!(!a.rotated);
    assert_eq!(e.current_pointer(), 1048576);
}

#[test]
fn offset_overflow_is_an_error() {
    let mut e = LogEngine::gen_index(&Vec::new(), 0, u64::MAX - 3);
    assert!(matches!(e.set("k".to_string(), "v".to_string()), Err(KvsError::StringError(_))));
    assert_eq!(e.current_pointer(), u64::MAX - 3);
    assert_eq!(e.lookup(&"k".to_string()), None);
}

#[test]
fn replay_later_records_win() {
    let records = vec![
        Record { pos: CommandPos::new(0, 0, 10), cmd: Command::set("a".to_string(), "1".to_string()) },
        Record { pos: CommandPos::new(0, 10, 12), cmd: Command::set("b".to_string(), "2".to_string()) },
        Record { pos: CommandPos::new(1, 0, 9), cmd: Command::remove("b".to_string()) },
        Record { pos: CommandPos::new(1, 9, 11), cmd: Command::set("a".to_string(), "3".to_string()) },
    ];
    let e = LogEngine::gen_index(&records, 1, 20);
    assert_eq!(e.lookup(&"a".to_string()), Some(CommandPos::new(1, 9, 11)));
    assert_eq!(e.lookup(&"b".to_string()), None);
    assert_eq!(e.len(), 1);
    assert_eq!(e.stale_bytes(), 10 + 12 + 9);
    assert_eq!(e.current_fid(), 1);
    assert_eq!(e.current_pointer(), 20);
}

#[test]
fn remove_of_absent_key_writes_nothing() {
    let mut e = LogEngine::gen_index(&Vec::new(), 0, 0);
    assert!(matches!(e.remove("nope".to_string()), Err(KvsError::KeyNotFoundError)));
    assert_eq!(e.current_pointer(), 0);
    assert_eq!(e.stale_bytes(), 0);
}

#[test]
fn value_of_checks_the_record() {
    let k = "k".to_string();
    let set = Command::set("k".to_string(), "v".to_string());
    let bytes = set.encode();
    assert_eq!(value_of(&k, &bytes, set).unwrap(), "v");
    let rm = Command::remove("k".to_string());
    let rm_bytes = rm.encode();
    assert!(matches!(value_of(&k, &rm_bytes, rm), Err(KvsError::UnknownError)));
    let other = Command::set("other".to_string(), "v".to_string());
    let other_bytes = other.encode();
    assert!(matches!(value_of(&k, &other_bytes, other), Err(KvsError::UnknownError)));
}

#[test]
fn value_of_rejects_bytes_of_another_record() {
    let k = "k".to_string();
    let bytes = Command::set("k".to_string(), "old".to_string()).encode();
    let cmd = Command::set("k".to_string(), "new".to_string());
    assert!(matches!(value_of(&k, &bytes, cmd), Err(KvsError::UnknownError)));
}

#[test]
fn records_are_located_where_they_lie() {
    let a = Command::set("a".to_string(), "1".to_string());
    let b = Command::remove("a".to_string());
    let mut bytes = a.encode();
    let first = bytes.len() as u64;
    bytes.extend(b.encode());
    let rs = locate_records(7, &bytes, &vec![a, b]).unwrap();
    assert_eq!(rs.len(), 2);
    assert_eq!(rs[0].pos, CommandPos::new(7, 0, first));
    assert_eq!(rs[1].pos, CommandPos::new(7, first, bytes.len() as u64 - first));
    assert_eq!(rs[1].cmd.key(), "a");
}

#[test]
fn records_that_do_not_tile_the_segment_are_refused() {
    let a = Command::set("a".to_string(), "1".to_string());
    let mut bytes = a.encode();
    bytes.push(b' ');
    assert!(matches!(locate_records(0, &bytes, &vec![a]), Err(KvsError::UnknownError)));
    let other = Command::set("a".to_string(), "2".to_string());
    let bytes = Command::set("a".to_string(), "1".to_string()).encode();
    assert!(matches!(locate_records(0, &bytes, &vec![other]), Err(KvsError::UnknownError)));
    assert_eq!(locate_records(0, &Vec::new(), &Vec::new()).unwrap().len(), 0);
}

#[test]
fn index_keeps_keys_in_any_insertion_order() {
    let mut d = Disk::open_empty();
    for k in ["m", "b", "z", "a", "ключ", "", "mm", "b2"] {
        d.set(k, &format!("v-{}", k));
    }
    d.remove("m").unwrap();
    d.remove("").unwrap();
    for k in ["b", "z", "a", "ключ", "mm", "b2"] {
        assert_eq!(d.get(k), Some(format!("v-{}", k)));
    }
    assert_eq!(d.get("m"), None);
    assert_eq!(d.get(""), None);
    assert_eq!(d.engine.len(), 6);
    let r = d.reopen();
    assert_eq!(r.get("ключ"), Some("v-ключ".to_string()));
    assert_eq!(r.engine.len(), 6);
}

#[test]
fn compaction_spreads_copies_over_fresh_segments() {
    let mut d = Disk::open_empty();
    let value = "y".repeat(1000);
    for i in 0..2000 {
        d.set(&format!("key{}", i), &value);
    }
    let max_before = *d.segments.keys().last().unwrap();
    let c = d.engine.compact().unwrap();
    assert_eq!(c.old_max, max_before);
    assert_eq!(c.moves.len(), 2000);
    assert_eq!(c.moves[0].to, CommandPos::new(max_before + 1, 0, c.moves[0].from.len));
    assert!(d.engine.current_fid() >= max_before + 2);
    for w in c.moves.windows(2) {
        let end = w[0].to.pos + w[0].to.len;
        if end > 1048576 {
            assert_eq!((w[1].to.fid, w[1].to.pos), (w[0].to.fid + 1, 0));
        } else {
            assert_eq!((w[1].to.fid, w[1].to.pos), (w[0].to.fid, end));
        }
    }
    assert_eq!(d.engine.stale_bytes(), 0);
}

#[test]
fn prepare_gives_the_record_and_changes_nothing() {
    let e = LogEngine::gen_index(&Vec::new(), 0, 0);
    let set = Command::set("k".to_string(), "v".to_string());
    assert_eq!(e.prepare(&set).unwrap(), set.encode());
    assert!(matches!(e.prepare(&Command::remove("k".to_string())), Err(KvsError::KeyNotFoundError)));
    assert_eq!(e.current_pointer(), 0);
    let mut e = e;
    let a = e.set("k".to_string(), "v".to_string()).unwrap();
    let rm = Command::remove("k".to_string());
    assert_eq!(e.prepare(&rm).unwrap(), rm.encode());
    assert_eq!(e.lookup(&"k".to_string()), Some(a.pos));
    let full = LogEngine::gen_index(&Vec::new(), 0, u64::MAX - 2);
    assert!(matches!(full.prepare(&set), Err(KvsError::StringError(_))));
}

#[test]
fn errors_convert_into_kvs_error() {
    let io = std::io::Error::new(std::io::ErrorKind::Other, "disk");
    assert!(matches!(KvsError::from(io), KvsError::IOError(_)));
    let json = serde_json::from_str::<u8>("x").unwrap_err();
    assert!(matches!(KvsError::from(json), KvsError::SerdeError(_)));
    let utf8 = String::from_utf8(vec![0xff]).unwrap_err();
    assert!(matches!(KvsError::from(utf8), KvsError::Utf8Error(_)));
}
