//! The decisions of the log-structured engine. The engine's state knows the
//! active segment, where the next record will land, the index and the stale
//! bytes; whoever owns the files performs the appends, reads, rotations and
//! deletions that it asks for.
use vstd::prelude::*;
use crate::command::{Command, CommandPos, Op};
use crate::command::record_bytes;
use crate::engine::bytes_equal;
use crate::error::KvsError;
use crate::order::{compare_bytes, key_bytes, lemma_key_bytes_injective, lemma_lex_irrefl, lemma_lex_trans, lex_lt};
use crate::replay::{Entry, replay_index, replay_values, replay_stale, capped};

verus! {

/// Size past which the active segment is closed and a new one opened.
pub const ROTATION_THRESHOLD: u64 = 1048576;

/// Stale bytes past which the log is compacted.
pub const COMPACTION_THRESHOLD: u64 = 1048576;

/// One live key and the location of its latest `Set` record.
pub struct IndexEntry {
    pub key: String,
    pub pos: CommandPos,
}

/// A decoded record and where it was found.
pub struct Record {
    pub pos: CommandPos,
    pub cmd: Command,
}

impl Record {
    pub open spec fn entry(&self) -> Entry {
        (self.pos, self.cmd@)
    }
}

/// The records of a log as replay sees them.
pub open spec fn entries_of(rs: Seq<Record>) -> Seq<Entry> {
    rs.map_values(|r: Record| r.entry())
}

/// A record to append to the active segment, and what follows from it.
pub struct Append {
    /// The encoded record.
    pub bytes: Vec<u8>,
    /// Where it lands: the active segment, at its current end.
    pub pos: CommandPos,
    /// The segment passed the rotation threshold: a new, empty segment with
    /// the next id is now the active one and must be created.
    pub rotated: bool,
    /// The stale bytes passed the compaction threshold: compact now.
    pub compact: bool,
}

/// Whether an append of `len` bytes at `ptr` in segment `fid` keeps the
/// offsets and the segment ids within `u64`.
pub open spec fn fits(fid: u64, ptr: u64, len: nat) -> bool {
    &&& ptr + len <= u64::MAX
    &&& ptr + len > ROTATION_THRESHOLD ==> fid < u64::MAX
}

/// `s1` is `s0` after appending the record `op` as `a` says.
pub open spec fn appended(s0: LogEngine, s1: LogEngine, a: Append, op: Op) -> bool {
    let len = a.bytes@.len();
    &&& a.bytes@ == record_bytes(op)
    &&& a.pos.fid == s0.active_fid()
    &&& a.pos.pos == s0.write_pointer()
    &&& a.pos.len == len
    &&& s1.wf()
    &&& s1.history() == s0.history().push((a.pos, op))
    &&& a.rotated == (s0.write_pointer() + len > ROTATION_THRESHOLD)
    &&& a.rotated ==> s1.active_fid() == s0.active_fid() + 1 && s1.write_pointer() == 0
    &&& !a.rotated ==> s1.active_fid() == s0.active_fid() && s1.write_pointer()
        == s0.write_pointer() + len
    &&& a.compact == (s1.stale() > COMPACTION_THRESHOLD)
}

/// One live record to copy during compaction.
pub struct Move {
    /// Where the record lies now.
    pub from: CommandPos,
    /// Where its copy goes, in a fresh segment.
    pub to: CommandPos,
}

/// What compaction asks of the owner of the files: create the segments
/// `old_max + 1 ..= current_fid()`, copy each record in order by appending
/// it to its new segment, then delete every segment whose id is at most
/// `old_max`.
pub struct Compaction {
    pub old_max: u64,
    pub moves: Vec<Move>,
}

/// Where the record after the one at `p` goes when appends rotate past the
/// threshold: the segment id and the offset.
pub open spec fn slot_after(p: CommandPos) -> (int, int) {
    if p.pos + p.len > ROTATION_THRESHOLD {
        (p.fid + 1, 0)
    } else {
        (p.fid as int, p.pos + p.len)
    }
}

/// The copies are laid out by appending them one after another from the
/// start of segment `first`, rotating past the threshold.
pub open spec fn laid_out(ms: Seq<Move>, first: u64) -> bool {
    forall|i: int|
        0 <= i < ms.len() ==> {
            &&& (#[trigger] ms[i]).to.len == ms[i].from.len
            &&& i == 0 ==> ms[i].to.fid == first && ms[i].to.pos == 0
            &&& i > 0 ==> (ms[i].to.fid as int, ms[i].to.pos as int) == slot_after(ms[i - 1].to)
        }
}

/// The entries of `idx` have distinct keys and are exactly the pairs of `m`.
pub open spec fn index_matches(idx: Seq<IndexEntry>, m: Map<Seq<char>, CommandPos>) -> bool {
    &&& forall|i: int, j: int| 0 <= i < j < idx.len() ==> idx[i].key@ != idx[j].key@
    &&& forall|i: int|
        0 <= i < idx.len() ==> #[trigger] m.contains_key(idx[i].key@) && m[idx[i].key@] == idx[i].pos
    &&& forall|k: Seq<char>|
        #[trigger] m.contains_key(k) ==> exists|i: int| 0 <= i < idx.len() && #[trigger] idx[i].key@ == k
}

/// The entries of `idx` are in strictly ascending order of their keys.
pub open spec fn sorted(idx: Seq<IndexEntry>) -> bool {
    forall|i: int, j: int|
        0 <= i < j < idx.len() ==> lex_lt(
            #[trigger] key_bytes(idx[i].key@),
            #[trigger] key_bytes(idx[j].key@),
        )
}

proof fn lemma_update_at(idx: Seq<IndexEntry>, i: int, e: IndexEntry, m: Map<Seq<char>, CommandPos>)
    requires
        index_matches(idx, m),
        sorted(idx),
        0 <= i < idx.len(),
        idx[i].key@ == e.key@,
    ensures
        index_matches(idx.update(i, e), m.insert(e.key@, e.pos)),
        sorted(idx.update(i, e)),
{
    let n = idx.update(i, e);
    let m1 = m.insert(e.key@, e.pos);
    assert forall|j: int| 0 <= j < n.len() implies #[trigger] n[j].key@ == idx[j].key@ by {}
    assert forall|j: int| 0 <= j < n.len() implies #[trigger] m1.contains_key(n[j].key@)
        && m1[n[j].key@] == n[j].pos by {
        if j != i {
            assert(n[j] == idx[j]);
            assert(m.contains_key(idx[j].key@));
            if j < i {
                assert(idx[j].key@ != idx[i].key@);
            } else {
                assert(idx[i].key@ != idx[j].key@);
            }
        }
    }
    assert forall|k: Seq<char>| #[trigger] m1.contains_key(k) implies exists|j: int|
        0 <= j < n.len() && #[trigger] n[j].key@ == k by {
        if k == e.key@ {
            assert(n[i].key@ == k);
        } else {
            let j = choose|j: int| 0 <= j < idx.len() && #[trigger] idx[j].key@ == k;
            assert(n[j].key@ == k);
        }
    }
    assert forall|a: int, b: int| 0 <= a < b < n.len() implies n[a].key@ != n[b].key@ by {
        assert(n[a].key@ == idx[a].key@ && n[b].key@ == idx[b].key@);
    }
    assert forall|a: int, b: int| 0 <= a < b < n.len() implies lex_lt(
        #[trigger] key_bytes(n[a].key@),
        #[trigger] key_bytes(n[b].key@),
    ) by {
        assert(n[a].key@ == idx[a].key@ && n[b].key@ == idx[b].key@);
        assert(lex_lt(key_bytes(idx[a].key@), key_bytes(idx[b].key@)));
    }
}

proof fn lemma_insert_at(idx: Seq<IndexEntry>, p: int, e: IndexEntry, m: Map<Seq<char>, CommandPos>)
    requires
        index_matches(idx, m),
        sorted(idx),
        0 <= p <= idx.len(),
        forall|j: int| 0 <= j < p ==> lex_lt(#[trigger] key_bytes(idx[j].key@), key_bytes(e.key@)),
        forall|j: int| p <= j < idx.len() ==> lex_lt(key_bytes(e.key@), #[trigger] key_bytes(idx[j].key@)),
        !m.contains_key(e.key@),
    ensures
        index_matches(idx.insert(p, e), m.insert(e.key@, e.pos)),
        sorted(idx.insert(p, e)),
{
    let n = idx.insert(p, e);
    let m1 = m.insert(e.key@, e.pos);
    assert forall|a: int, b: int| 0 <= a < b < n.len() implies lex_lt(
        #[trigger] key_bytes(n[a].key@),
        #[trigger] key_bytes(n[b].key@),
    ) by {
        if b < p {
            assert(n[a] == idx[a] && n[b] == idx[b]);
            assert(lex_lt(key_bytes(idx[a].key@), key_bytes(idx[b].key@)));
        } else if b == p {
            assert(n[a] == idx[a] && n[b] == e);
            assert(lex_lt(key_bytes(idx[a].key@), key_bytes(e.key@)));
        } else if a < p {
            assert(n[a] == idx[a] && n[b] == idx[b - 1]);
            assert(lex_lt(key_bytes(idx[a].key@), key_bytes(e.key@)));
            assert(lex_lt(key_bytes(e.key@), key_bytes(idx[b - 1].key@)));
            lemma_lex_trans(key_bytes(n[a].key@), key_bytes(e.key@), key_bytes(n[b].key@));
        } else if a == p {
            assert(n[a] == e && n[b] == idx[b - 1]);
            assert(lex_lt(key_bytes(e.key@), key_bytes(idx[b - 1].key@)));
        } else {
            assert(n[a] == idx[a - 1] && n[b] == idx[b - 1]);
            assert(lex_lt(key_bytes(idx[a - 1].key@), key_bytes(idx[b - 1].key@)));
        }
    }
    assert forall|a: int, b: int| 0 <= a < b < n.len() implies n[a].key@ != n[b].key@ by {
        lemma_lex_irrefl(key_bytes(n[a].key@), key_bytes(n[b].key@));
    }
    assert forall|j: int| 0 <= j < n.len() implies #[trigger] m1.contains_key(n[j].key@)
        && m1[n[j].key@] == n[j].pos by {
        if j < p {
            assert(n[j] == idx[j]);
            assert(m.contains_key(idx[j].key@));
        } else if j > p {
            assert(n[j] == idx[j - 1]);
            assert(m.contains_key(idx[j - 1].key@));
        }
    }
    assert forall|k: Seq<char>| #[trigger] m1.contains_key(k) implies exists|j: int|
        0 <= j < n.len() && #[trigger] n[j].key@ == k by {
        if k == e.key@ {
            assert(n[p].key@ == k);
        } else {
            let j = choose|j: int| 0 <= j < idx.len() && #[trigger] idx[j].key@ == k;
            if j < p {
                assert(n[j].key@ == k);
            } else {
                assert(n[j + 1].key@ == k);
            }
        }
    }
}

proof fn lemma_remove_at(idx: Seq<IndexEntry>, i: int, m: Map<Seq<char>, CommandPos>)
    requires
        index_matches(idx, m),
        sorted(idx),
        0 <= i < idx.len(),
    ensures
        index_matches(idx.remove(i), m.remove(idx[i].key@)),
        sorted(idx.remove(i)),
{
    let n = idx.remove(i);
    let k0 = idx[i].key@;
    let m1 = m.remove(k0);
    assert forall|a: int, b: int| 0 <= a < b < n.len() implies lex_lt(
        #[trigger] key_bytes(n[a].key@),
        #[trigger] key_bytes(n[b].key@),
    ) by {
        let a0 = if a < i { a } else { a + 1 };
        let b0 = if b < i { b } else { b + 1 };
        assert(n[a] == idx[a0] && n[b] == idx[b0]);
    }
    assert forall|a: int, b: int| 0 <= a < b < n.len() implies n[a].key@ != n[b].key@ by {
        let a0 = if a < i { a } else { a + 1 };
        let b0 = if b < i { b } else { b + 1 };
        assert(n[a] == idx[a0] && n[b] == idx[b0]);
    }
    assert forall|j: int| 0 <= j < n.len() implies #[trigger] m1.contains_key(n[j].key@)
        && m1[n[j].key@] == n[j].pos by {
        let j0 = if j < i { j } else { j + 1 };
        assert(n[j] == idx[j0]);
        assert(m.contains_key(idx[j0].key@));
        if j0 < i {
            assert(idx[j0].key@ != idx[i].key@);
        } else {
            assert(idx[i].key@ != idx[j0].key@);
        }
    }
    assert forall|k: Seq<char>| #[trigger] m1.contains_key(k) implies exists|j: int|
        0 <= j < n.len() && #[trigger] n[j].key@ == k by {
        let j = choose|j: int| 0 <= j < idx.len() && #[trigger] idx[j].key@ == k;
        if j < i {
            assert(n[j].key@ == k);
        } else {
            assert(n[j - 1].key@ == k);
        }
    }
}

/// The keys of an index, in its order.
pub open spec fn keys_of(idx: Seq<IndexEntry>) -> Seq<Seq<char>> {
    idx.map_values(|e: IndexEntry| e.key@)
}

/// The locations of an index, in its order.
pub open spec fn locs_of(idx: Seq<IndexEntry>) -> Seq<CommandPos> {
    idx.map_values(|e: IndexEntry| e.pos)
}

/// Copying each live record of `h` (located by `idx`) to the location given
/// by `nidx` gives a log with the same values, located by `nidx`, and no
/// stale byte; each copy is a record of `h`.
proof fn lemma_compacted(h: Seq<Entry>, idx: Seq<IndexEntry>, nidx: Seq<IndexEntry>, moves: Seq<Move>)
    requires
        index_matches(idx, replay_index(h)),
        sorted(idx),
        nidx.len() == idx.len(),
        moves.len() == idx.len(),
        forall|j: int|
            0 <= j < idx.len() ==> {
                &&& (#[trigger] moves[j]).from == idx[j].pos
                &&& moves[j].to == nidx[j].pos
                &&& nidx[j].key@ == idx[j].key@
            },
    ensures
        ({
            let nh = crate::replay::copies(keys_of(idx), locs_of(nidx), replay_values(h));
            &&& index_matches(nidx, replay_index(nh))
            &&& sorted(nidx)
            &&& replay_stale(nh) == 0
            &&& replay_values(nh) == replay_values(h)
            &&& replay_index(nh).dom() == replay_index(h).dom()
            &&& nh.len() == moves.len()
            &&& forall|j: int|
                0 <= j < moves.len() ==> #[trigger] nh[j].0 == moves[j].to && h.contains(
                    (moves[j].from, nh[j].1),
                )
        }),
{
    let ks = keys_of(idx);
    let ts = locs_of(nidx);
    let vals = replay_values(h);
    let nh = crate::replay::copies(ks, ts, vals);
    crate::replay::lemma_same_keys(h);
    crate::replay::lemma_same_keys(nh);
    let n = idx.len();
    assert(ks.no_duplicates()) by {
        assert forall|a: int, b: int| 0 <= a < ks.len() && 0 <= b < ks.len() && a != b
            implies ks[a] != ks[b] by {
            if a < b {
            } else {
            }
        }
    }
    crate::replay::lemma_copies(ks, ts, vals);
    assert forall|k: Seq<char>| #[trigger] replay_index(h).contains_key(k) <==> ks.contains(k) by {
        if replay_index(h).contains_key(k) {
            let j = choose|j: int| 0 <= j < n && #[trigger] idx[j].key@ == k;
            assert(ks[j] == k);
        }
        if ks.contains(k) {
            let j = choose|j: int| 0 <= j < n && ks[j] == k;
            assert(replay_index(h).contains_key(idx[j].key@));
        }
    }
    assert(replay_values(nh) =~= vals) by {
        assert forall|k: Seq<char>| #[trigger] vals.contains_key(k) implies replay_values(nh)[k] == vals[k] by {
            assert(replay_index(h).contains_key(k));
            let j = choose|j: int| 0 <= j < n && ks[j] == k;
        }
    }
    assert(replay_index(nh).dom() =~= replay_index(h).dom());
    assert forall|j: int| 0 <= j < n implies #[trigger] nh[j].0 == moves[j].to && h.contains((moves[j].from, nh[j].1)) by {
        let k = idx[j].key@;
        assert(ks[j] == k);
        assert(replay_index(h).contains_key(k));
        crate::replay::lemma_live_record(h, k);
    }
    assert forall|j: int| 0 <= j < n implies #[trigger] replay_index(nh).contains_key(nidx[j].key@)
        && replay_index(nh)[nidx[j].key@] == nidx[j].pos by {
        assert(moves[j].to == nidx[j].pos);
        assert(ks[j] == nidx[j].key@);
        assert(ts[j] == nidx[j].pos);
    }
    assert forall|kk: Seq<char>| #[trigger] replay_index(nh).contains_key(kk) implies exists|j: int|
        0 <= j < nidx.len() && #[trigger] nidx[j].key@ == kk by {
        let j = choose|j: int| 0 <= j < n && ks[j] == kk;
        assert(moves[j].to == nidx[j].pos);
        assert(nidx[j].key@ == kk);
    }
    assert forall|a: int, b: int| 0 <= a < b < n implies nidx[a].key@ != nidx[b].key@ by {
        assert(moves[a].to == nidx[a].pos && moves[b].to == nidx[b].pos);
        assert(ks[a] == nidx[a].key@ && ks[b] == nidx[b].key@);
    }
    assert forall|a: int, b: int| 0 <= a < b < n implies lex_lt(
        #[trigger] key_bytes(nidx[a].key@),
        #[trigger] key_bytes(nidx[b].key@),
    ) by {
        assert(moves[a].to == nidx[a].pos && moves[b].to == nidx[b].pos);
        assert(key_bytes(idx[a].key@) == key_bytes(nidx[a].key@));
        assert(key_bytes(idx[b].key@) == key_bytes(nidx[b].key@));
    }
}

/// `s1` is `s0` after the compaction `c`: every live record of `s0` is
/// copied, in order, into fresh segments after `s0`'s active one, the log
/// holds only the copies, the values are kept and nothing is stale.
pub open spec fn compacted(s0: LogEngine, s1: LogEngine, c: Compaction) -> bool {
    &&& s1.wf()
    &&& c.old_max == s0.active_fid()
    &&& s1.contents() == s0.contents()
    &&& s1.index_map().dom() == s0.index_map().dom()
    &&& replay_stale(s1.history()) == 0
    &&& s1.stale() == 0
    &&& c.moves@.len() == s1.history().len()
    &&& laid_out(c.moves@, (c.old_max + 1) as u64)
    &&& forall|i: int|
        0 <= i < c.moves@.len() ==> {
            &&& (#[trigger] c.moves@[i]).to == s1.history()[i].0
            &&& s0.history().contains((c.moves@[i].from, s1.history()[i].1))
            &&& c.old_max < c.moves@[i].to.fid <= s1.active_fid()
        }
    &&& c.moves@.len() == 0 ==> s1.active_fid() == c.old_max + 1 && s1.write_pointer() == 0
    &&& c.moves@.len() > 0 ==> (s1.active_fid() as int, s1.write_pointer() as int) == slot_after(
        c.moves@.last().to,
    )
}

/// The in-memory state of the log-structured engine.
pub struct LogEngine {
    index: Vec<IndexEntry>,
    stale_bytes: u64,
    current_fid: u64,
    current_pointer: u64,
    /// The records on disk that the state accounts for, in replay order.
    history: Ghost<Seq<Entry>>,
}

impl LogEngine {
    /// The records on disk, in replay order.
    pub closed spec fn history(&self) -> Seq<Entry> {
        self.history@
    }

    /// The live keys and their locations.
    pub open spec fn index_map(&self) -> Map<Seq<char>, CommandPos> {
        replay_index(self.history())
    }

    /// The live keys and their values.
    pub open spec fn contents(&self) -> Map<Seq<char>, Seq<char>> {
        replay_values(self.history())
    }

    pub closed spec fn active_fid(&self) -> u64 {
        self.current_fid
    }

    pub closed spec fn write_pointer(&self) -> u64 {
        self.current_pointer
    }

    pub closed spec fn stale(&self) -> u64 {
        self.stale_bytes
    }

    pub closed spec fn wf(&self) -> bool {
        &&& index_matches(self.index@, replay_index(self.history@))
        &&& sorted(self.index@)
        &&& self.stale_bytes == capped(replay_stale(self.history@))
    }

    /// A well-formed engine counts as stale exactly what replay finds stale
    /// (capped at the largest `u64`).
    pub proof fn lemma_stale(&self)
        requires
            self.wf(),
        ensures
            self.stale() == capped(replay_stale(self.history())),
    {
    }

    /// An engine with an empty log whose active segment is `fid`.
    pub fn empty(fid: u64) -> (r: LogEngine)
        ensures
            r.wf(),
            r.history() == Seq::<Entry>::empty(),
            r.active_fid() == fid,
            r.write_pointer() == 0,
            r.stale() == 0,
    {
        LogEngine {
            index: Vec::new(),
            stale_bytes: 0,
            current_fid: fid,
            current_pointer: 0,
            history: Ghost(Seq::empty()),
        }
    }

    /// The id of the segment that appends go to.
    pub fn current_fid(&self) -> (r: u64)
        ensures
            r == self.active_fid(),
    {
        self.current_fid
    }

    /// The offset in the active segment where the next record lands.
    pub fn current_pointer(&self) -> (r: u64)
        ensures
            r == self.write_pointer(),
    {
        self.current_pointer
    }

    /// The stale bytes counted so far (capped at the largest `u64`).
    pub fn stale_bytes(&self) -> (r: u64)
        requires
            self.wf(),
        ensures
            r == self.stale(),
            r == capped(replay_stale(self.history())),
    {
        self.stale_bytes
    }

    /// The number of live keys.
    pub fn len(&self) -> (r: usize)
        requires
            self.wf(),
        ensures
            r == self.index_map().len(),
    {
        proof {
            self.lemma_len();
        }
        self.index.len()
    }

    proof fn lemma_len(&self)
        requires
            self.wf(),
        ensures
            self.index@.len() == self.index_map().len(),
    {
        let keys = self.index@.map_values(|e: IndexEntry| e.key@);
        assert(keys.no_duplicates()) by {
            assert forall|i: int, j: int| 0 <= i < keys.len() && 0 <= j < keys.len() && i != j
                implies keys[i] != keys[j] by {
                if i < j {
                } else {
                }
            }
        }
        assert(keys.to_set() =~= self.index_map().dom()) by {
            assert forall|k: Seq<char>| keys.to_set().contains(k) implies self.index_map().dom().contains(k) by {
                let i = choose|i: int| 0 <= i < keys.len() && keys[i] == k;
                assert(replay_index(self.history@).contains_key(self.index@[i].key@));
            }
            assert forall|k: Seq<char>| self.index_map().dom().contains(k) implies keys.to_set().contains(k) by {
                assert(replay_index(self.history@).contains_key(k));
                let i = choose|i: int| 0 <= i < self.index@.len() && #[trigger] self.index@[i].key@ == k;
                assert(keys[i] == k);
            }
        }
        keys.unique_seq_to_set();
    }

    fn search(&self, key: &String) -> (r: Result<usize, usize>)
        requires
            sorted(self.index@),
        ensures
            r is Ok ==> r->Ok_0 < self.index@.len() && self.index@[r->Ok_0 as int].key@ == key@,
            r is Err ==> r->Err_0 <= self.index@.len() && (forall|j: int|
                0 <= j < r->Err_0 ==> lex_lt(#[trigger] key_bytes(self.index@[j].key@), key_bytes(key@)))
                && (forall|j: int|
                r->Err_0 <= j < self.index@.len() ==> lex_lt(key_bytes(key@), #[trigger] key_bytes(self.index@[j].key@))),
    {
        let kb = key.as_str().as_bytes();
        let mut lo: usize = 0;
        let mut hi: usize = self.index.len();
        while lo < hi
            invariant
                0 <= lo <= hi <= self.index@.len(),
                sorted(self.index@),
                kb@ == key_bytes(key@),
                forall|j: int| 0 <= j < lo ==> lex_lt(#[trigger] key_bytes(self.index@[j].key@), key_bytes(key@)),
                forall|j: int| hi <= j < self.index@.len() ==> lex_lt(key_bytes(key@), #[trigger] key_bytes(self.index@[j].key@)),
            decreases hi - lo,
        {
            let mid = lo + (hi - lo) / 2;
            let mb = self.index[mid].key.as_str().as_bytes();
            match compare_bytes(mb, kb) {
                core::cmp::Ordering::Less => {
                    proof {
                        assert forall|j: int| 0 <= j < mid + 1 implies lex_lt(
                            #[trigger] key_bytes(self.index@[j].key@),
                            key_bytes(key@),
                        ) by {
                            if j < mid {
                                lemma_lex_trans(
                                    key_bytes(self.index@[j].key@),
                                    key_bytes(self.index@[mid as int].key@),
                                    key_bytes(key@),
                                );
                            }
                        }
                    }
                    lo = mid + 1;
                },
                core::cmp::Ordering::Greater => {
                    proof {
                        assert forall|j: int| mid <= j < self.index@.len() implies lex_lt(
                            key_bytes(key@),
                            #[trigger] key_bytes(self.index@[j].key@),
                        ) by {
                            if j > mid {
                                lemma_lex_trans(
                                    key_bytes(key@),
                                    key_bytes(self.index@[mid as int].key@),
                                    key_bytes(self.index@[j].key@),
                                );
                            }
                        }
                    }
                    hi = mid;
                },
                core::cmp::Ordering::Equal => {
                    proof {
                        lemma_key_bytes_injective(self.index@[mid as int].key@, key@);
                    }
                    return Ok(mid);
                },
            }
        }
        Err(lo)
    }

    proof fn lemma_absent(&self, key: Seq<char>, p: int)
        requires
            self.wf(),
            0 <= p <= self.index@.len(),
            forall|j: int| 0 <= j < p ==> lex_lt(#[trigger] key_bytes(self.index@[j].key@), key_bytes(key)),
            forall|j: int| p <= j < self.index@.len() ==> lex_lt(key_bytes(key), #[trigger] key_bytes(self.index@[j].key@)),
        ensures
            !self.index_map().contains_key(key),
    {
        if replay_index(self.history@).contains_key(key) {
            let i = choose|i: int| 0 <= i < self.index@.len() && #[trigger] self.index@[i].key@ == key;
            if i < p {
                lemma_lex_irrefl(key_bytes(self.index@[i].key@), key_bytes(key));
            } else {
                lemma_lex_irrefl(key_bytes(key), key_bytes(self.index@[i].key@));
            }
        }
    }

    /// The location of the live record of `key`, if `key` is stored.
    pub fn lookup(&self, key: &String) -> (r: Option<CommandPos>)
        requires
            self.wf(),
        ensures
            r is Some <==> self.index_map().contains_key(key@),
            r is Some ==> r->0 == self.index_map()[key@],
    {
        match self.search(key) {
            Ok(i) => {
                assert(replay_index(self.history@).contains_key(self.index@[i as int].key@));
                Some(self.index[i].pos)
            },
            Err(p) => {
                proof {
                    self.lemma_absent(key@, p as int);
                }
                None
            },
        }
    }

    /// Accounts for the record `cmd` found or written at `pos`: the index
    /// and the stale bytes become those of the log with the record appended.
    pub fn apply(&mut self, pos: CommandPos, cmd: &Command)
        requires
            old(self).wf(),
        ensures
            final(self).wf(),
            final(self).history() == old(self).history().push((pos, cmd@)),
            final(self).active_fid() == old(self).active_fid(),
            final(self).write_pointer() == old(self).write_pointer(),
    {
        let ghost h0 = self.history@;
        let ghost m0 = replay_index(h0);
        let ghost h1 = h0.push((pos, cmd@));
        assert(h1.drop_last() =~= h0);
        let found = self.search(cmd.key());
        let prev_len: u64 = match found {
            Ok(i) => {
                assert(m0.contains_key(self.index@[i as int].key@));
                self.index[i].pos.len
            },
            Err(p) => {
                proof {
                    self.lemma_absent(cmd@.key(), p as int);
                }
                0
            },
        };
        let own: u64 = match cmd {
            Command::Put { .. } => 0,
            Command::Remove { .. } => pos.len,
        };
        self.stale_bytes = self.stale_bytes.saturating_add(prev_len).saturating_add(own);
        self.history = Ghost(h1);
        let ghost idx0 = self.index@;
        match cmd {
            Command::Put { key, .. } => {
                let e = IndexEntry { key: key.clone(), pos };
                match found {
                    Ok(i) => {
                        proof {
                            lemma_update_at(idx0, i as int, e, m0);
                        }
                        self.index.set(i, e);
                    },
                    Err(p) => {
                        proof {
                            lemma_insert_at(idx0, p as int, e, m0);
                        }
                        self.index.insert(p, e);
                    },
                }
            },
            Command::Remove { .. } => {
                match found {
                    Ok(i) => {
                        proof {
                            lemma_remove_at(idx0, i as int, m0);
                        }
                        let _ = self.index.remove(i);
                    },
                    Err(_) => {
                        assert(m0.remove(cmd@.key()) =~= m0);
                    },
                }
            },
        }
    }

    /// The engine for a directory whose records, read in replay order, are
    /// `records`, and whose active segment is `active_fid`, `active_len`
    /// bytes long.
    pub fn gen_index(records: &Vec<Record>, active_fid: u64, active_len: u64) -> (r: LogEngine)
        ensures
            r.wf(),
            r.history() == entries_of(records@),
            r.active_fid() == active_fid,
            r.write_pointer() == active_len,
    {
        let mut e = LogEngine::empty(active_fid);
        e.current_pointer = active_len;
        let mut i: usize = 0;
        while i < records.len()
            invariant
                0 <= i <= records@.len(),
                e.wf(),
                e.history() == entries_of(records@.take(i as int)),
                e.active_fid() == active_fid,
                e.write_pointer() == active_len,
            decreases records@.len() - i,
        {
            e.apply(records[i].pos, &records[i].cmd);
            assert(entries_of(records@.take(i + 1)) =~= entries_of(records@.take(i as int)).push(
                records@[i as int].entry(),
            ));
            i += 1;
        }
        assert(records@.take(records@.len() as int) =~= records@);
        e
    }

    fn write(&mut self, cmd: Command) -> (r: Result<Append, KvsError>)
        requires
            old(self).wf(),
        ensures
            r is Ok <==> fits(old(self).active_fid(), old(self).write_pointer(), record_bytes(cmd@).len()),
            r is Ok ==> appended(*old(self), *final(self), r->Ok_0, cmd@),
            r is Err ==> *final(self) == *old(self) && r->Err_0 is StringError,
    {
        let bytes = cmd.encode();
        let len = bytes.len() as u64;
        let end = match self.current_pointer.checked_add(len) {
            Some(end) => end,
            None => return Err(KvsError::StringError(overflow_message())),
        };
        if end > ROTATION_THRESHOLD && self.current_fid == u64::MAX {
            return Err(KvsError::StringError(overflow_message()));
        }
        let pos = CommandPos::new(self.current_fid, self.current_pointer, len);
        self.apply(pos, &cmd);
        let ghost mid = *self;
        let rotated = end > ROTATION_THRESHOLD;
        if rotated {
            self.current_fid = self.current_fid + 1;
            self.current_pointer = 0;
        } else {
            self.current_pointer = end;
        }
        let compact = self.stale_bytes > COMPACTION_THRESHOLD;
        let a = Append { bytes, pos, rotated, compact };
        assert(self.index@ == mid.index@ && self.history@ == mid.history@);
        Ok(a)
    }

    /// The bytes that `set` or `remove` would append for `cmd`, without
    /// changing anything, so that they can be written before the state
    /// moves; or the error that the call would return.
    pub fn prepare(&self, cmd: &Command) -> (r: Result<Vec<u8>, KvsError>)
        requires
            self.wf(),
        ensures
            r is Ok <==> fits(self.active_fid(), self.write_pointer(), record_bytes(cmd@).len())
                && (cmd@ is Remove ==> self.index_map().contains_key(cmd@.key())),
            r is Ok ==> r->Ok_0@ == record_bytes(cmd@),
            r is Err ==> (r->Err_0 is KeyNotFoundError <==> cmd@ is Remove
                && !self.index_map().contains_key(cmd@.key())),
            r is Err && !(r->Err_0 is KeyNotFoundError) ==> r->Err_0 is StringError,
    {
        if let Command::Remove { key } = cmd {
            if self.lookup(key).is_none() {
                return Err(KvsError::KeyNotFoundError);
            }
        }
        let bytes = cmd.encode();
        let len = bytes.len() as u64;
        let end = match self.current_pointer.checked_add(len) {
            Some(end) => end,
            None => return Err(KvsError::StringError(overflow_message())),
        };
        if end > ROTATION_THRESHOLD && self.current_fid == u64::MAX {
            return Err(KvsError::StringError(overflow_message()));
        }
        Ok(bytes)
    }

    /// Records that `key` maps to `value`: returns the `Set` record to append
    /// at the end of the active segment.
    pub fn set(&mut self, key: String, value: String) -> (r: Result<Append, KvsError>)
        requires
            old(self).wf(),
        ensures
            r is Ok ==> appended(
                *old(self),
                *final(self),
                r->Ok_0,
                Op::Put { key: key@, value: value@ },
            ),
            r is Ok ==> final(self).contents() == old(self).contents().insert(key@, value@),
            r is Ok ==> final(self).index_map() == old(self).index_map().insert(key@, r->Ok_0.pos),
            r is Ok <==> fits(
                old(self).active_fid(),
                old(self).write_pointer(),
                record_bytes(Op::Put { key: key@, value: value@ }).len(),
            ),
            r is Err ==> *final(self) == *old(self) && r->Err_0 is StringError,
    {
        let cmd = Command::set(key, value);
        let r = self.write(cmd);
        proof {
            if r is Ok {
                let h = final(self).history();
                assert(h.drop_last() =~= old(self).history());
            }
        }
        r
    }

    /// Records that `key` is removed: returns the `Remove` record to append,
    /// or `KeyNotFoundError`, with nothing to write, if `key` is not stored.
    pub fn remove(&mut self, key: String) -> (r: Result<Append, KvsError>)
        requires
            old(self).wf(),
        ensures
            !old(self).index_map().contains_key(key@) ==> r is Err && r->Err_0 is KeyNotFoundError,
            r is Ok ==> appended(*old(self), *final(self), r->Ok_0, Op::Remove { key: key@ }),
            r is Ok ==> final(self).contents() == old(self).contents().remove(key@),
            r is Ok ==> final(self).index_map() == old(self).index_map().remove(key@),
            r is Ok <==> old(self).index_map().contains_key(key@) && fits(
                old(self).active_fid(),
                old(self).write_pointer(),
                record_bytes(Op::Remove { key: key@ }).len(),
            ),
            r is Err ==> *final(self) == *old(self),
            r is Err ==> (r->Err_0 is KeyNotFoundError <==> !old(self).index_map().contains_key(key@)),
            r is Err && !(r->Err_0 is KeyNotFoundError) ==> r->Err_0 is StringError,
    {
        match self.lookup(&key) {
            None => Err(KvsError::KeyNotFoundError),
            Some(_) => {
                let cmd = Command::remove(key);
                let r = self.write(cmd);
                proof {
                    if r is Ok {
                        let h = final(self).history();
                        assert(h.drop_last() =~= old(self).history());
                    }
                }
                r
            },
        }
    }
}

impl LogEngine {
    /// The new location of each live record when they are appended one
    /// after another from the start of segment `current_fid + 1`, the fresh
    /// index, and where the next append would go; `None` if an id or an
    /// offset would leave `u64`.
    fn lay_out(&self) -> (r: Option<(Vec<Move>, Vec<IndexEntry>, u64, u64)>)
        ensures
            self.current_fid + self.index@.len() + 1 < u64::MAX && (forall|j: int|
                0 <= j < self.index@.len() ==> #[trigger] self.index@[j].pos.len <= u64::MAX
                    - ROTATION_THRESHOLD) ==> r is Some,
            r is Some ==> {
                let (moves, new_index, fid, ptr) = r->0;
                let old_max = self.current_fid;
                let n = self.index@.len();
                &&& moves@.len() == n
                &&& new_index@.len() == n
                &&& laid_out(moves@, (old_max + 1) as u64)
                &&& forall|j: int|
                    0 <= j < n ==> {
                        &&& (#[trigger] moves@[j]).from == self.index@[j].pos
                        &&& moves@[j].to == new_index@[j].pos
                        &&& new_index@[j].key@ == self.index@[j].key@
                        &&& old_max < moves@[j].to.fid <= fid
                    }
                &&& n == 0 ==> fid == old_max + 1 && ptr == 0
                &&& n > 0 ==> (fid as int, ptr as int) == slot_after(moves@.last().to)
            },
    {
        let old_max = self.current_fid;
        let n = self.index.len();
        if old_max >= u64::MAX - 1 || n as u64 >= u64::MAX - 1 - old_max {
            return None;
        }
        let ghost lens_ok = forall|j: int|
            0 <= j < self.index@.len() ==> #[trigger] self.index@[j].pos.len <= u64::MAX
                - ROTATION_THRESHOLD;
        let mut fid: u64 = old_max + 1;
        let mut ptr: u64 = 0;
        let mut moves: Vec<Move> = Vec::new();
        let mut new_index: Vec<IndexEntry> = Vec::new();
        let mut i: usize = 0;
        while i < n
            invariant
                lens_ok == (forall|j: int|
                    0 <= j < self.index@.len() ==> #[trigger] self.index@[j].pos.len <= u64::MAX
                        - ROTATION_THRESHOLD),
                n == self.index@.len(),
                0 <= i <= n,
                old_max + 1 + n < u64::MAX,
                old_max < fid <= old_max + 1 + i,
                ptr <= ROTATION_THRESHOLD,
                i == 0 ==> fid == old_max + 1 && ptr == 0,
                i > 0 ==> (fid as int, ptr as int) == slot_after(moves@[i - 1].to),
                moves@.len() == i,
                new_index@.len() == i,
                laid_out(moves@, (old_max + 1) as u64),
                forall|j: int|
                    0 <= j < i ==> {
                        &&& (#[trigger] moves@[j]).from == self.index@[j].pos
                        &&& moves@[j].to == new_index@[j].pos
                        &&& new_index@[j].key@ == self.index@[j].key@
                        &&& old_max < moves@[j].to.fid <= fid
                    },
            decreases n - i,
        {
            let from = self.index[i].pos;
            let end = match ptr.checked_add(from.len) {
                Some(end) => end,
                None => return None,
            };
            let to = CommandPos::new(fid, ptr, from.len);
            moves.push(Move { from, to });
            new_index.push(IndexEntry { key: self.index[i].key.clone(), pos: to });
            if end > ROTATION_THRESHOLD {
                fid = fid + 1;
                ptr = 0;
            } else {
                ptr = end;
            }
            i += 1;
        }
        Some((moves, new_index, fid, ptr))
    }

    /// Plans a compaction and moves the state to the one after it: every
    /// live record is copied into fresh segments after the current one, the
    /// old segments are gone, and no byte is stale. It fails, changing
    /// nothing, only where a segment id or an offset would leave `u64`.
    pub fn compact(&mut self) -> (r: Result<Compaction, KvsError>)
        requires
            old(self).wf(),
        ensures
            old(self).active_fid() + old(self).index_map().len() + 1 < u64::MAX && (forall|k: Seq<char>|
                #[trigger] old(self).index_map().contains_key(k) ==> old(self).index_map()[k].len
                    <= u64::MAX - ROTATION_THRESHOLD) ==> r is Ok,
            r is Err ==> *final(self) == *old(self) && r->Err_0 is StringError,
            r is Ok ==> compacted(*old(self), *final(self), r->Ok_0),
    {
        let old_max = self.current_fid;
        proof {
            self.lemma_len();
            assert forall|j: int| 0 <= j < self.index@.len() implies #[trigger] self.index@[j].pos
                == self.index_map()[self.index@[j].key@] && self.index_map().contains_key(
                self.index@[j].key@,
            ) by {
                assert(replay_index(self.history@).contains_key(self.index@[j].key@));
            }
        }
        let (moves, new_index, fid, ptr) = match self.lay_out() {
            Some(p) => p,
            None => return Err(KvsError::StringError(overflow_message())),
        };
        let ghost h = self.history@;
        let ghost nh = crate::replay::copies(
            keys_of(self.index@),
            locs_of(new_index@),
            replay_values(h),
        );
        proof {
            lemma_compacted(h, self.index@, new_index@, moves@);
        }
        self.index = new_index;
        self.history = Ghost(nh);
        self.stale_bytes = 0;
        self.current_fid = fid;
        self.current_pointer = ptr;
        Ok(Compaction { old_max, moves })
    }
}

/// The value held by the record read back at the live location of `key`:
/// `bytes` as read, `cmd` as decoded from them. The record must be a `Set`
/// record of that key whose encoding is exactly `bytes`; otherwise the log
/// and the index disagree.
pub fn value_of(key: &String, bytes: &Vec<u8>, cmd: Command) -> (r: Result<String, KvsError>)
    ensures
        r is Ok <==> cmd@ is Put && cmd@.key() == key@ && bytes@ == record_bytes(cmd@),
        r is Ok ==> cmd@ == (Op::Put { key: key@, value: r->Ok_0@ }),
        r is Err ==> r->Err_0 is UnknownError,
{
    let matches = match &cmd {
        Command::Put { key: k, .. } => *k == *key,
        Command::Remove { .. } => false,
    };
    if !matches {
        return Err(KvsError::UnknownError);
    }
    let encoded = cmd.encode();
    if !bytes_equal(&encoded, bytes) {
        return Err(KvsError::UnknownError);
    }
    match cmd {
        Command::Put { value, .. } => Ok(value),
        Command::Remove { .. } => Err(KvsError::UnknownError),
    }
}

/// The bytes of the records `ops` written one after another.
pub open spec fn records_bytes(ops: Seq<Op>) -> Seq<u8>
    decreases ops.len(),
{
    if ops.len() == 0 {
        Seq::empty()
    } else {
        records_bytes(ops.drop_last()) + record_bytes(ops.last())
    }
}

/// What the commands say, in order.
pub open spec fn ops_of(cmds: Seq<Command>) -> Seq<Op> {
    cmds.map_values(|c: Command| c@)
}

fn matches_at(a: &Vec<u8>, off: usize, b: &Vec<u8>) -> (r: bool)
    requires
        off <= a@.len(),
    ensures
        r <==> off + b@.len() <= a@.len() && a@.subrange(off as int, off + b@.len()) == b@,
{
    let alen = a.len();
    if b.len() > alen - off {
        return false;
    }
    let mut i: usize = 0;
    while i < b.len()
        invariant
            alen == a@.len(),
            off + b@.len() <= a@.len(),
            0 <= i <= b@.len(),
            forall|j: int| 0 <= j < i ==> a@[off + j] == b@[j],
        decreases b@.len() - i,
    {
        if a[off + i] != b[i] {
            assert(a@.subrange(off as int, off + b@.len())[i as int] != b@[i as int]);
            return false;
        }
        i += 1;
    }
    assert(a@.subrange(off as int, off + b@.len()) =~= b@);
    true
}

/// Locates the records of segment `fid`, whose contents are `bytes`:
/// `cmds`, as decoded from `bytes` in order, must encode back to exactly
/// `bytes`, one after another. Each record then lies where its encoding
/// does.
pub fn locate_records(fid: u64, bytes: &Vec<u8>, cmds: &Vec<Command>) -> (r: Result<Vec<Record>, KvsError>)
    ensures
        r is Ok ==> bytes@ == records_bytes(ops_of(cmds@)),
        r is Ok ==> r->Ok_0@.len() == cmds@.len(),
        r is Ok ==> forall|i: int|
            0 <= i < cmds@.len() ==> {
                let p = (#[trigger] r->Ok_0@[i]).pos;
                &&& r->Ok_0@[i].cmd@ == cmds@[i]@
                &&& p.fid == fid
                &&& p.pos == records_bytes(ops_of(cmds@).take(i)).len()
                &&& p.len == record_bytes(cmds@[i]@).len()
                &&& p.pos + p.len <= bytes@.len()
                &&& bytes@.subrange(p.pos as int, p.pos + p.len) == record_bytes(cmds@[i]@)
            },
        r is Ok <==> bytes@ == records_bytes(ops_of(cmds@)),
        r is Err ==> r->Err_0 is UnknownError,
{
    let n = cmds.len();
    let blen = bytes.len();
    let ghost all = cmds@;
    let mut out: Vec<Record> = Vec::new();
    let mut off: usize = 0;
    let mut i: usize = 0;
    while i < n
        invariant
            n == all.len(),
            0 <= i <= n,
            all == cmds@,
            blen == bytes@.len(),
            off <= bytes@.len(),
            off == records_bytes(ops_of(all).take(i as int)).len(),
            bytes@.subrange(0, off as int) == records_bytes(ops_of(all).take(i as int)),
            out@.len() == i,
            forall|j: int|
                0 <= j < i ==> {
                    let p = (#[trigger] out@[j]).pos;
                    &&& out@[j].cmd@ == all[j]@
                    &&& p.fid == fid
                    &&& p.pos == records_bytes(ops_of(all).take(j)).len()
                    &&& p.len == record_bytes(all[j]@).len()
                    &&& p.pos + p.len <= bytes@.len()
                    &&& bytes@.subrange(p.pos as int, p.pos + p.len) == record_bytes(all[j]@)
                },
        decreases n - i,
    {
        let cmd = cmds[i].duplicate();
        let enc = cmd.encode();
        let ghost ops_i1 = ops_of(all).take(i + 1);
        assert(ops_i1.drop_last() =~= ops_of(all).take(i as int));
        assert(records_bytes(ops_i1) == records_bytes(ops_of(all).take(i as int)) + enc@);
        if !matches_at(bytes, off, &enc) {
            proof {
                if bytes@ == records_bytes(ops_of(all)) {
                    lemma_records_bytes_prefix(ops_of(all), i + 1);
                    assert(bytes@.subrange(off as int, off + enc@.len()) =~= records_bytes(ops_i1).subrange(off as int, off + enc@.len()));
                    assert(records_bytes(ops_i1).subrange(off as int, off + enc@.len()) =~= enc@);
                }
            }
            return Err(KvsError::UnknownError);
        }
        let len = enc.len();
        out.push(Record { pos: CommandPos::new(fid, off as u64, len as u64), cmd });
        assert(bytes@.subrange(0, off + len) =~= bytes@.subrange(0, off as int) + enc@);
        off = off + len;
        i += 1;
    }
    assert(ops_of(all).take(n as int) =~= ops_of(all));
    if off != bytes.len() {
        return Err(KvsError::UnknownError);
    }
    assert(bytes@ =~= bytes@.subrange(0, off as int));
    Ok(out)
}

proof fn lemma_records_bytes_prefix(ops: Seq<Op>, k: int)
    requires
        0 <= k <= ops.len(),
    ensures
        records_bytes(ops).len() >= records_bytes(ops.take(k)).len(),
        records_bytes(ops).subrange(0, records_bytes(ops.take(k)).len() as int) == records_bytes(ops.take(k)),
    decreases ops.len() - k,
{
    if k < ops.len() {
        lemma_records_bytes_prefix(ops, k + 1);
        let a = ops.take(k + 1);
        assert(a.drop_last() =~= ops.take(k));
        let pa = records_bytes(a);
        let pk = records_bytes(ops.take(k));
        assert(pa.subrange(0, pk.len() as int) =~= pk);
        assert(records_bytes(ops).subrange(0, pk.len() as int) =~= pa.subrange(0, pk.len() as int));
    } else {
        assert(ops.take(k) =~= ops);
        assert(records_bytes(ops).subrange(0, records_bytes(ops).len() as int) =~= records_bytes(ops));
    }
}

fn overflow_message() -> (r: String) {
    String::from_str("segment offset or id out of range")
}

} // verus!
