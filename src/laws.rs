//! What holds of the engines across several operations.
use vstd::prelude::*;
use vstd::utf8::{decode_utf8, encode_utf8_decode_utf8};
use crate::command::{record_bytes, record_tail, set_head, value_sep, CommandPos, Op};
use crate::json::{json_string, lemma_json_string_injective};
use crate::replay::{Entry, copies, lemma_copies, lemma_live_record, lemma_same_keys, replay_index, replay_stale, replay_values};
use crate::sled_engine::utf8_of;
use crate::store::{appended, compacted, entries_of, records_bytes, ops_of, Append, Compaction, LogEngine, Record};

verus! {

/// `Set` records of key `k` with the given locations and values.
pub open spec fn sets_of(k: Seq<char>, writes: Seq<(CommandPos, Seq<char>)>) -> Seq<Entry> {
    writes.map_values(|w: (CommandPos, Seq<char>)| (w.0, Op::Put { key: k, value: w.1 }))
}

/// Read-your-writes: after any log, a run of writes to one key leaves that
/// key with the last value written.
pub proof fn read_your_writes(h: Seq<Entry>, k: Seq<char>, writes: Seq<(CommandPos, Seq<char>)>)
    requires
        writes.len() > 0,
    ensures
        replay_values(h + sets_of(k, writes)).contains_key(k),
        replay_values(h + sets_of(k, writes))[k] == writes.last().1,
        replay_index(h + sets_of(k, writes))[k] == writes.last().0,
{
    let all = h + sets_of(k, writes);
    assert(all.last() == sets_of(k, writes).last());
}

/// Remove semantics: after a successful remove, the key has no value and no
/// location, so a second remove finds nothing to remove.
pub proof fn remove_then_absent(s0: LogEngine, s1: LogEngine, a: Append, k: Seq<char>)
    requires
        appended(s0, s1, a, Op::Remove { key: k }),
    ensures
        !s1.contents().contains_key(k),
        !s1.index_map().contains_key(k),
{
    assert(s1.history().drop_last() =~= s0.history());
}

/// Restart durability: an engine rebuilt from the same records answers as
/// the engine that wrote them, for every key, and counts the same stale
/// bytes.
pub proof fn restart_durability(s: LogEngine, rebuilt: LogEngine)
    requires
        s.wf(),
        rebuilt.wf(),
        rebuilt.history() == s.history(),
    ensures
        rebuilt.index_map() == s.index_map(),
        rebuilt.contents() == s.contents(),
        rebuilt.stale() == s.stale(),
{
    s.lemma_stale();
    rebuilt.lemma_stale();
}

/// Every live location holds a `Set` record of its key with the key's
/// current value, so a read at that location returns that value.
pub proof fn live_location_holds_value(h: Seq<Entry>, k: Seq<char>)
    requires
        replay_index(h).contains_key(k),
    ensures
        replay_values(h).contains_key(k),
        h.contains((replay_index(h)[k], Op::Put { key: k, value: replay_values(h)[k] })),
{
    lemma_same_keys(h);
    lemma_live_record(h, k);
}

/// Compaction preserves state: copying the live value of each key once,
/// into any fresh locations, gives a log with the same keys and values, in
/// which replay finds no stale byte.
pub proof fn compaction_preserves_state(h: Seq<Entry>, ks: Seq<Seq<char>>, ts: Seq<CommandPos>)
    requires
        ks.no_duplicates(),
        ks.to_set() == replay_values(h).dom(),
        ts.len() == ks.len(),
    ensures
        replay_values(copies(ks, ts, replay_values(h))) == replay_values(h),
        replay_stale(copies(ks, ts, replay_values(h))) == 0,
{
    let vals = replay_values(h);
    let c = copies(ks, ts, vals);
    lemma_copies(ks, ts, vals);
    assert forall|k: Seq<char>| #[trigger] vals.contains_key(k) implies replay_values(c)[k] == vals[k] by {
        assert(ks.to_set().contains(k));
        let j = choose|j: int| 0 <= j < ks.len() && ks[j] == k;
    }
    assert forall|k: Seq<char>| #[trigger] replay_values(c).contains_key(k) implies vals.contains_key(k) by {
        assert(ks.to_set().contains(k));
    }
    assert(replay_values(c) =~= vals);
}

/// Rotation preserves state: an append that passes the threshold opens the
/// next segment, empty, and changes the log only by the appended record.
pub proof fn rotation_preserves_state(s0: LogEngine, s1: LogEngine, a: Append, op: Op)
    requires
        s0.wf(),
        appended(s0, s1, a, op),
        a.rotated,
    ensures
        s1.wf(),
        s1.active_fid() == s0.active_fid() + 1,
        s1.active_fid() > a.pos.fid,
        s1.write_pointer() == 0,
        s1.history() == s0.history().push((a.pos, op)),
{
}

/// With the sled engine too, a read after a write returns the value
/// written: the value read back encodes to the stored bytes.
pub proof fn sled_read_your_writes(
    c: Map<Seq<u8>, Seq<u8>>,
    k: Seq<char>,
    v: Seq<char>,
    got: Seq<char>,
)
    requires
        utf8_of(got) == c.insert(utf8_of(k), utf8_of(v))[utf8_of(k)],
    ensures
        c.insert(utf8_of(k), utf8_of(v)).contains_key(utf8_of(k)),
        got == v,
{
    encode_utf8_decode_utf8(got);
    encode_utf8_decode_utf8(v);
}

/// With the sled engine too, a removed key is no longer stored, so a read
/// finds nothing and a second remove fails.
pub proof fn sled_remove_then_absent(c: Map<Seq<u8>, Seq<u8>>, k: Seq<char>)
    ensures
        !c.remove(utf8_of(k)).contains_key(utf8_of(k)),
{
}

/// Segment `p.fid` of `disk` holds the bytes `b` at location `p`.
pub open spec fn holds_at(disk: Map<u64, Seq<u8>>, p: CommandPos, b: Seq<u8>) -> bool {
    &&& disk.contains_key(p.fid)
    &&& p.len == b.len()
    &&& p.pos + p.len <= disk[p.fid].len()
    &&& disk[p.fid].subrange(p.pos as int, p.pos + p.len) == b
}

/// Every record of the log `h` is encoded in `disk` at its location.
pub open spec fn stored_in(h: Seq<Entry>, disk: Map<u64, Seq<u8>>) -> bool {
    forall|i: int| 0 <= i < h.len() ==> holds_at(disk, #[trigger] h[i].0, record_bytes(h[i].1))
}

/// Reading a live location gives the `Set` record of its key with the
/// key's value, when the segments hold the log.
pub proof fn live_location_reads_value(h: Seq<Entry>, disk: Map<u64, Seq<u8>>, k: Seq<char>)
    requires
        stored_in(h, disk),
        replay_index(h).contains_key(k),
    ensures
        holds_at(disk, replay_index(h)[k], record_bytes(Op::Put { key: k, value: replay_values(h)[k] })),
{
    lemma_live_record(h, k);
    let i = choose|i: int|
        0 <= i < h.len() && #[trigger] h[i] == (
        replay_index(h)[k],
        Op::Put { key: k, value: replay_values(h)[k] },
    );
    assert(holds_at(disk, h[i].0, record_bytes(h[i].1)));
}

/// Appending the engine's record at the end of its segment keeps every
/// record where the log says it is, the new one included.
pub proof fn append_keeps_records(s0: LogEngine, s1: LogEngine, a: Append, op: Op, disk: Map<u64, Seq<u8>>)
    requires
        appended(s0, s1, a, op),
        stored_in(s0.history(), disk),
        disk.contains_key(a.pos.fid),
        disk[a.pos.fid].len() == a.pos.pos,
    ensures
        stored_in(s1.history(), disk.insert(a.pos.fid, disk[a.pos.fid] + a.bytes@)),
{
    let f = a.pos.fid;
    let d1 = disk.insert(f, disk[f] + a.bytes@);
    let h = s1.history();
    assert forall|i: int| 0 <= i < h.len() implies holds_at(d1, #[trigger] h[i].0, record_bytes(h[i].1)) by {
        if i < h.len() - 1 {
            assert(h[i] == s0.history()[i]);
            assert(holds_at(disk, s0.history()[i].0, record_bytes(s0.history()[i].1)));
            let p = h[i].0;
            if p.fid == f {
                assert(d1[f].subrange(p.pos as int, p.pos + p.len) =~= disk[f].subrange(p.pos as int, p.pos + p.len));
            }
        } else {
            assert(h[i] == (a.pos, op));
            assert(d1[f].subrange(a.pos.pos as int, a.pos.pos + a.pos.len) =~= a.bytes@);
        }
    }
}

/// Opening a new, empty segment disturbs no record.
pub proof fn new_segment_keeps_records(h: Seq<Entry>, disk: Map<u64, Seq<u8>>, fid: u64)
    requires
        stored_in(h, disk),
        !disk.contains_key(fid),
    ensures
        stored_in(h, disk.insert(fid, Seq::empty())),
{
    assert forall|i: int| 0 <= i < h.len() implies holds_at(
        disk.insert(fid, Seq::empty()),
        #[trigger] h[i].0,
        record_bytes(h[i].1),
    ) by {
        assert(holds_at(disk, h[i].0, record_bytes(h[i].1)));
    }
}

/// Compaction keeps every record where the log says it is: when each copy
/// in the new segments holds the bytes at its source, the compacted log is
/// held by the new segments.
pub proof fn compaction_keeps_records(
    s0: LogEngine,
    s1: LogEngine,
    c: Compaction,
    disk: Map<u64, Seq<u8>>,
    fresh: Map<u64, Seq<u8>>,
)
    requires
        compacted(s0, s1, c),
        stored_in(s0.history(), disk),
        forall|i: int|
            0 <= i < c.moves@.len() ==> holds_at(
                fresh,
                (#[trigger] c.moves@[i]).to,
                disk[c.moves@[i].from.fid].subrange(
                    c.moves@[i].from.pos as int,
                    c.moves@[i].from.pos + c.moves@[i].from.len,
                ),
            ),
    ensures
        stored_in(s1.history(), fresh),
{
    let h = s1.history();
    assert forall|i: int| 0 <= i < h.len() implies holds_at(fresh, #[trigger] h[i].0, record_bytes(h[i].1)) by {
        let m = c.moves@[i];
        assert(s0.history().contains((m.from, h[i].1)));
        let j = choose|j: int| 0 <= j < s0.history().len() && s0.history()[j] == (m.from, h[i].1);
        assert(holds_at(disk, s0.history()[j].0, record_bytes(s0.history()[j].1)));
    }
}

/// Replay reads back what was written: the records located in a segment
/// are held by that segment at their locations.
pub proof fn located_records_are_stored(fid: u64, bytes: Seq<u8>, rs: Seq<Record>)
    requires
        forall|i: int|
            0 <= i < rs.len() ==> {
                let p = (#[trigger] rs[i]).pos;
                &&& p.fid == fid
                &&& p.len == record_bytes(rs[i].cmd@).len()
                &&& p.pos + p.len <= bytes.len()
                &&& bytes.subrange(p.pos as int, p.pos + p.len) == record_bytes(rs[i].cmd@)
            },
    ensures
        stored_in(entries_of(rs), map![fid => bytes]),
{
    let h = entries_of(rs);
    assert forall|i: int| 0 <= i < h.len() implies holds_at(map![fid => bytes], #[trigger] h[i].0, record_bytes(h[i].1)) by {
        assert(h[i] == rs[i].entry());
        let p = rs[i].pos;
        assert(p.fid == fid);
    }
}

/// Two `Set` records of the same key have the same bytes only if they set
/// the same value.
pub proof fn set_record_determines_value(k: Seq<char>, v1: Seq<char>, v2: Seq<char>)
    requires
        record_bytes(Op::Put { key: k, value: v1 }) == record_bytes(Op::Put { key: k, value: v2 }),
    ensures
        v1 == v2,
{
    let pre = set_head() + json_string(k) + value_sep();
    let b1 = record_bytes(Op::Put { key: k, value: v1 });
    let b2 = record_bytes(Op::Put { key: k, value: v2 });
    assert(b1 == pre + json_string(v1) + record_tail());
    assert(b2 == pre + json_string(v2) + record_tail());
    assert(json_string(v1) =~= b1.subrange(pre.len() as int, b1.len() - 2));
    assert(json_string(v2) =~= b2.subrange(pre.len() as int, b2.len() - 2));
    lemma_json_string_injective(v1, v2);
}

/// Reading a key back returns its current value: when the segments hold
/// the log, the bytes at a live key's location are a `Set` record of that
/// key only for the value the key currently has. (`value_of` succeeds only
/// on bytes that are such a record.)
pub proof fn get_reads_current_value(h: Seq<Entry>, disk: Map<u64, Seq<u8>>, k: Seq<char>, v: Seq<char>)
    requires
        stored_in(h, disk),
        replay_index(h).contains_key(k),
        holds_at(disk, replay_index(h)[k], record_bytes(Op::Put { key: k, value: v })),
    ensures
        replay_values(h).contains_key(k),
        v == replay_values(h)[k],
{
    lemma_same_keys(h);
    live_location_reads_value(h, disk, k);
    set_record_determines_value(k, v, replay_values(h)[k]);
}

} // verus!
