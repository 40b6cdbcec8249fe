//! The meaning of a log: replaying records in order (segment id ascending,
//! then offset) gives the live index, the stored values and the stale bytes.
use vstd::prelude::*;
use crate::command::{CommandPos, Op};

verus! {

/// A record as replay sees it: its location and what it says.
pub type Entry = (CommandPos, Op);

/// The location of the latest `Set` of each live key.
pub open spec fn replay_index(h: Seq<Entry>) -> Map<Seq<char>, CommandPos>
    decreases h.len(),
{
    if h.len() == 0 {
        Map::empty()
    } else {
        let m = replay_index(h.drop_last());
        let p = h.last().0;
        match h.last().1 {
            Op::Put { key, .. } => m.insert(key, p),
            Op::Remove { key } => m.remove(key),
        }
    }
}

/// The value of each live key.
pub open spec fn replay_values(h: Seq<Entry>) -> Map<Seq<char>, Seq<char>>
    decreases h.len(),
{
    if h.len() == 0 {
        Map::empty()
    } else {
        let m = replay_values(h.drop_last());
        match h.last().1 {
            Op::Put { key, value } => m.insert(key, value),
            Op::Remove { key } => m.remove(key),
        }
    }
}

/// The bytes that replay finds superseded: each overridden or removed `Set`
/// record, and each `Remove` record itself.
pub open spec fn replay_stale(h: Seq<Entry>) -> nat
    decreases h.len(),
{
    if h.len() == 0 {
        0
    } else {
        let prev = replay_index(h.drop_last());
        let key = h.last().1.key();
        let over: nat = if prev.contains_key(key) { prev[key].len as nat } else { 0 };
        let own: nat = match h.last().1 {
            Op::Put { .. } => 0,
            Op::Remove { .. } => h.last().0.len as nat,
        };
        replay_stale(h.drop_last()) + over + own
    }
}

/// `n` capped at the largest `u64`.
pub open spec fn capped(n: nat) -> u64 {
    if n <= u64::MAX { n as u64 } else { u64::MAX }
}

/// The live keys are the same in both views of a log.
pub proof fn lemma_same_keys(h: Seq<Entry>)
    ensures
        replay_index(h).dom() == replay_values(h).dom(),
    decreases h.len(),
{
    if h.len() > 0 {
        lemma_same_keys(h.drop_last());
    }
    assert(replay_index(h).dom() =~= replay_values(h).dom());
}

/// Every live location holds a `Set` record of its key with the key's value.
pub proof fn lemma_live_record(h: Seq<Entry>, k: Seq<char>)
    requires
        replay_index(h).contains_key(k),
    ensures
        exists|i: int|
            0 <= i < h.len() && #[trigger] h[i] == (
            replay_index(h)[k],
            Op::Put { key: k, value: replay_values(h)[k] },
        ),
    decreases h.len(),
{
    lemma_same_keys(h);
    let t = h.drop_last();
    match h.last().1 {
        Op::Put { key, value } => {
            if key == k {
                assert(h[h.len() - 1] == (
                    replay_index(h)[k],
                    Op::Put { key: k, value: replay_values(h)[k] },
                ));
            } else {
                lemma_live_record(t, k);
                let i = choose|i: int|
                    0 <= i < t.len() && #[trigger] t[i] == (
                    replay_index(t)[k],
                    Op::Put { key: k, value: replay_values(t)[k] },
                );
                assert(h[i] == t[i]);
            }
        },
        Op::Remove { key } => {
            lemma_live_record(t, k);
            let i = choose|i: int|
                0 <= i < t.len() && #[trigger] t[i] == (
                replay_index(t)[k],
                Op::Put { key: k, value: replay_values(t)[k] },
            );
            assert(h[i] == t[i]);
        },
    }
}

/// The `Set` records that copy the value of each key of `ks` to the
/// matching location of `ts`.
pub open spec fn copies(
    ks: Seq<Seq<char>>,
    ts: Seq<CommandPos>,
    vals: Map<Seq<char>, Seq<char>>,
) -> Seq<Entry> {
    Seq::new(ks.len(), |j: int| (ts[j], Op::Put { key: ks[j], value: vals[ks[j]] }))
}

/// Replaying one `Set` record per distinct key gives those keys, at those
/// locations, with those values, and nothing stale.
pub proof fn lemma_copies(ks: Seq<Seq<char>>, ts: Seq<CommandPos>, vals: Map<Seq<char>, Seq<char>>)
    requires
        ks.no_duplicates(),
        ts.len() == ks.len(),
    ensures
        forall|k: Seq<char>| #[trigger] replay_index(copies(ks, ts, vals)).contains_key(k) <==> ks.contains(k),
        forall|k: Seq<char>| #[trigger] replay_values(copies(ks, ts, vals)).contains_key(k) <==> ks.contains(k),
        forall|j: int|
            0 <= j < ks.len() ==> replay_index(copies(ks, ts, vals))[#[trigger] ks[j]] == ts[j]
                && replay_values(copies(ks, ts, vals))[ks[j]] == vals[ks[j]],
        replay_stale(copies(ks, ts, vals)) == 0,
    decreases ks.len(),
{
    let c = copies(ks, ts, vals);
    lemma_same_keys(c);
    if ks.len() > 0 {
        let ks0 = ks.drop_last();
        let ts0 = ts.drop_last();
        let c0 = copies(ks0, ts0, vals);
        assert(c.drop_last() =~= c0);
        assert(ks0.no_duplicates()) by {
            assert forall|a: int, b: int| 0 <= a < ks0.len() && 0 <= b < ks0.len() && a != b
                implies ks0[a] != ks0[b] by {
                assert(ks0[a] == ks[a] && ks0[b] == ks[b]);
            }
        }
        lemma_copies(ks0, ts0, vals);
        let last = ks.last();
        assert(!ks0.contains(last)) by {
            if ks0.contains(last) {
                let a = choose|a: int| 0 <= a < ks0.len() && ks0[a] == last;
                assert(ks[a] == ks[ks.len() - 1]);
            }
        }
        assert forall|k: Seq<char>| #[trigger] replay_index(c).contains_key(k) <==> ks.contains(k) by {
            if ks.contains(k) && k != last {
                let a = choose|a: int| 0 <= a < ks.len() && ks[a] == k;
                assert(ks0[a] == k);
            }
            if ks0.contains(k) {
                let a = choose|a: int| 0 <= a < ks0.len() && ks0[a] == k;
                assert(ks[a] == k);
            }
            assert(ks[ks.len() - 1] == last);
        }
        assert forall|j: int| 0 <= j < ks.len() implies replay_index(c)[#[trigger] ks[j]] == ts[j]
            && replay_values(c)[ks[j]] == vals[ks[j]] by {
            if j < ks.len() - 1 {
                assert(ks0[j] == ks[j]);
                assert(ks0.contains(ks[j]));
            }
        }
    }
}

} // verus!
