//! Segment file names: segment `N` lives in the file `<N>.log`, with `N`
//! written in decimal.
use vstd::prelude::*;

verus! {

/// The decimal digits of `n`, most significant first, without leading zeros.
pub open spec fn decimal(n: nat) -> Seq<u8>
    decreases n,
{
    if n < 10 {
        seq![(48 + n) as u8]
    } else {
        decimal(n / 10).push((48 + n % 10) as u8)
    }
}

/// `.log`
pub open spec fn log_ext() -> Seq<u8> {
    seq![46u8, 108, 111, 103]
}

/// The name of the file of segment `fid`.
pub open spec fn log_name(fid: nat) -> Seq<u8> {
    decimal(fid) + log_ext()
}

pub open spec fn is_digit(b: u8) -> bool {
    48 <= b <= 57
}

pub open spec fn all_digits(s: Seq<u8>) -> bool {
    forall|i: int| 0 <= i < s.len() ==> is_digit(#[trigger] s[i])
}

/// The number that a sequence of decimal digits denotes.
pub open spec fn digits_value(s: Seq<u8>) -> nat
    decreases s.len(),
{
    if s.len() == 0 {
        0
    } else {
        digits_value(s.drop_last()) * 10 + (s.last() - 48) as nat
    }
}

/// The part of a file name before `.log`, if the name ends so.
pub open spec fn log_stem(name: Seq<u8>) -> Option<Seq<u8>> {
    if name.len() >= 4 && name.subrange(name.len() - 4, name.len() as int) == log_ext() {
        Some(name.subrange(0, name.len() - 4))
    } else {
        None
    }
}

/// The segment id that a file name denotes: a non-empty run of decimal
/// digits followed by `.log`, whose value fits in `u64` (leading zeros
/// allowed).
pub open spec fn segment_id_of(name: Seq<u8>) -> Option<u64> {
    match log_stem(name) {
        Some(stem) => if stem.len() > 0 && all_digits(stem) && digits_value(stem) <= u64::MAX {
            Some(digits_value(stem) as u64)
        } else {
            None
        },
        None => None,
    }
}

fn push_decimal(out: &mut Vec<u8>, n: u64)
    ensures
        final(out)@ == old(out)@ + decimal(n as nat),
    decreases n,
{
    if n >= 10 {
        push_decimal(out, n / 10);
    }
    out.push(48u8 + (n % 10) as u8);
    assert(final(out)@ =~= old(out)@ + decimal(n as nat));
}

/// The file name of segment `fid`, as bytes: `<fid>.log`.
pub fn get_log_path(fid: u64) -> (r: Vec<u8>)
    ensures
        r@ == log_name(fid as nat),
{
    let mut out: Vec<u8> = Vec::new();
    push_decimal(&mut out, fid);
    out.push(46u8);
    out.push(108u8);
    out.push(111u8);
    out.push(103u8);
    assert(out@ =~= log_name(fid as nat));
    out
}

proof fn lemma_digits_value_grows(s: Seq<u8>, i: int)
    requires
        0 <= i <= s.len(),
        all_digits(s),
    ensures
        digits_value(s.take(i)) <= digits_value(s),
    decreases s.len() - i,
{
    if i < s.len() {
        lemma_digits_value_grows(s, i + 1);
        assert(s.take(i + 1).drop_last() =~= s.take(i));
    } else {
        assert(s.take(i) =~= s);
    }
}

/// The segment id of a file name, or `None` for a file that is not a
/// segment.
pub fn parse_segment_id(name: &Vec<u8>) -> (r: Option<u64>)
    ensures
        r == segment_id_of(name@),
{
    let len = name.len();
    if len < 4 || name[len - 4] != 46u8 || name[len - 3] != 108u8 || name[len - 2] != 111u8
        || name[len - 1] != 103u8 {
        proof {
            if len >= 4 {
                let t = name@.subrange(len - 4, len as int);
                if t == log_ext() {
                    assert(t[0] == 46u8 && t[1] == 108u8 && t[2] == 111u8 && t[3] == 103u8);
                }
            }
        }
        return None;
    }
    assert(name@.subrange(len - 4, len as int) =~= log_ext());
    let stem_len = len - 4;
    let ghost stem = name@.subrange(0, stem_len as int);
    if stem_len == 0 {
        return None;
    }
    let mut v: u64 = 0;
    let mut i: usize = 0;
    while i < stem_len
        invariant
            stem_len == stem.len(),
            stem_len + 4 == name@.len(),
            stem == name@.subrange(0, stem_len as int),
            0 <= i <= stem_len,
            all_digits(stem.take(i as int)),
            v == digits_value(stem.take(i as int)),
        decreases stem_len - i,
    {
        let b = name[i];
        assert(stem[i as int] == b);
        assert(stem.take(i + 1).drop_last() =~= stem.take(i as int));
        if b < 48u8 || b > 57u8 {
            return None;
        }
        let d = (b - 48u8) as u64;
        let next = match v.checked_mul(10) {
            Some(m) => m.checked_add(d),
            None => None,
        };
        match next {
            Some(w) => {
                v = w;
            },
            None => {
                proof {
                    if all_digits(stem) {
                        lemma_digits_value_grows(stem, i + 1);
                    }
                }
                return None;
            },
        }
        i += 1;
    }
    assert(stem.take(stem_len as int) =~= stem);
    Some(v)
}

/// Decimal digits denote the number they were written from.
pub proof fn lemma_decimal_value(n: nat)
    ensures
        all_digits(decimal(n)),
        digits_value(decimal(n)) == n,
        decimal(n).len() > 0,
    decreases n,
{
    if n >= 10 {
        lemma_decimal_value(n / 10);
        let d = decimal(n);
        assert(d.drop_last() =~= decimal(n / 10));
        assert(d.last() == (48 + n % 10) as u8);
        assert((n / 10) * 10 + n % 10 == n);
        assert(digits_value(d) == digits_value(d.drop_last()) * 10 + (d.last() - 48) as nat);
    } else {
        let d = decimal(n);
        assert(d.drop_last() =~= Seq::<u8>::empty());
        assert(digits_value(d) == digits_value(d.drop_last()) * 10 + (d.last() - 48) as nat);
        assert(d.last() == (48 + n) as u8);
    }
}

/// A segment's file name denotes that segment's id.
pub proof fn segment_name_round_trip(fid: u64)
    ensures
        segment_id_of(log_name(fid as nat)) == Some(fid),
{
    lemma_decimal_value(fid as nat);
    let name = log_name(fid as nat);
    let d = decimal(fid as nat);
    assert(name.subrange(name.len() - 4, name.len() as int) =~= log_ext());
    assert(name.subrange(0, name.len() - 4) =~= d);
}

/// A segment file found in a directory: its id and its name.
pub struct SegmentFile {
    pub id: u64,
    pub name: Vec<u8>,
}

/// Whether some entry of `fs` has id `id`.
pub open spec fn has_id(fs: Seq<SegmentFile>, id: u64) -> bool {
    exists|k: int| 0 <= k < fs.len() && fs[k].id == id
}

/// Whether one of the first `n` names denotes segment `id`.
pub open spec fn denoted(names: Seq<Vec<u8>>, n: int, id: u64) -> bool {
    exists|j: int| 0 <= j < n && segment_id_of(names[j]@) == Some(id)
}

/// Whether the ids of `fs` are strictly increasing.
pub open spec fn ids_increasing(fs: Seq<SegmentFile>) -> bool {
    forall|i: int, j: int| 0 <= i < j < fs.len() ==> fs[i].id < fs[j].id
}

/// The segments among the file names `names`, in ascending order of id:
/// the order in which they are replayed. Each id comes once, with the
/// first name in `names` that denotes it; names that are not segment names
/// are skipped.
pub fn segment_ids(names: &Vec<Vec<u8>>) -> (r: Vec<SegmentFile>)
    ensures
        ids_increasing(r@),
        forall|i: int|
            0 <= i < r@.len() ==> segment_id_of((#[trigger] r@[i]).name@) == Some(r@[i].id)
                && exists|j: int| 0 <= j < names@.len() && names@[j]@ == r@[i].name@,
        forall|id: u64| #[trigger] has_id(r@, id) <==> denoted(names@, names@.len() as int, id),
{
    let mut out: Vec<SegmentFile> = Vec::new();
    let mut i: usize = 0;
    while i < names.len()
        invariant
            0 <= i <= names@.len(),
            ids_increasing(out@),
            forall|k: int|
                0 <= k < out@.len() ==> segment_id_of((#[trigger] out@[k]).name@) == Some(out@[k].id)
                    && exists|j: int| 0 <= j < i && names@[j]@ == out@[k].name@,
            forall|id: u64| #[trigger] has_id(out@, id) <==> denoted(names@, i as int, id),
        decreases names@.len() - i,
    {
        let parsed = parse_segment_id(&names[i]);
        let ghost before = out@;
        match parsed {
            Some(id) => {
                let mut name: Vec<u8> = Vec::new();
                name.extend_from_slice(names[i].as_slice());
                assert(name@ =~= names@[i as int]@);
                insert_sorted(&mut out, SegmentFile { id, name });
            },
            None => {},
        }
        proof {
            assert forall|k: int| 0 <= k < out@.len() implies segment_id_of((#[trigger] out@[k]).name@)
                == Some(out@[k].id) && exists|j: int| 0 <= j < i + 1 && names@[j]@ == out@[k].name@ by {
                if exists|m: int| 0 <= m < before.len() && before[m] == out@[k] {
                    let m = choose|m: int| 0 <= m < before.len() && before[m] == out@[k];
                    let j = choose|j: int| 0 <= j < i && names@[j]@ == before[m].name@;
                    assert(0 <= j < i + 1 && names@[j]@ == out@[k].name@);
                } else {
                    assert(names@[i as int]@ == out@[k].name@);
                }
            }
            assert forall|id: u64| #[trigger] has_id(out@, id) <==> denoted(names@, i + 1, id) by {
                if has_id(out@, id) && !has_id(before, id) {
                    assert(segment_id_of(names@[i as int]@) == Some(id));
                }
                if denoted(names@, i + 1, id) && !denoted(names@, i as int, id) {
                    assert(segment_id_of(names@[i as int]@) == Some(id));
                }
                if denoted(names@, i as int, id) {
                    assert(has_id(before, id));
                }
            }
        }
        i += 1;
    }
    out
}

/// Adds `f` to `v` unless its id is already there; ids stay strictly
/// increasing. Every entry of the result is one of `v` or `f`.
fn insert_sorted(v: &mut Vec<SegmentFile>, f: SegmentFile)
    requires
        ids_increasing(old(v)@),
    ensures
        ids_increasing(final(v)@),
        forall|k: int|
            0 <= k < final(v)@.len() ==> (exists|m: int|
                0 <= m < old(v)@.len() && old(v)@[m] == #[trigger] final(v)@[k]) || final(v)@[k] == f,
        forall|id: u64| #[trigger] has_id(final(v)@, id) <==> (has_id(old(v)@, id) || id == f.id),
{
    let ghost o = v@;
    let mut k: usize = 0;
    while k < v.len() && v[k].id < f.id
        invariant
            0 <= k <= v@.len(),
            v@ == o,
            forall|j: int| 0 <= j < k ==> v@[j].id < f.id,
        decreases v@.len() - k,
    {
        k += 1;
    }
    if k < v.len() && v[k].id == f.id {
        return;
    }
    v.insert(k, f);
    proof {
        let n = v@;
        assert(n =~= o.take(k as int).push(f) + o.skip(k as int));
        assert forall|a: int, b: int| 0 <= a < b < n.len() implies n[a].id < n[b].id by {
            if a < k && b > k {
                assert(o[b - 1].id >= o[k as int].id);
            } else if a == k && b > k {
                assert(o[b - 1].id >= o[k as int].id);
            }
        }
        assert forall|j: int| 0 <= j < n.len() implies (exists|m: int|
            0 <= m < o.len() && o[m] == #[trigger] n[j]) || n[j] == f by {
            if j < k {
                assert(o[j] == n[j]);
            } else if j > k {
                assert(o[j - 1] == n[j]);
            }
        }
        assert forall|id: u64| #[trigger] has_id(n, id) <==> (has_id(o, id) || id == f.id) by {
            if has_id(o, id) {
                let m = choose|m: int| 0 <= m < o.len() && o[m].id == id;
                if m < k {
                    assert(n[m].id == id);
                } else {
                    assert(n[m + 1].id == id);
                }
            }
            if id == f.id {
                assert(n[k as int].id == id);
            }
            if has_id(n, id) {
                let j = choose|j: int| 0 <= j < n.len() && n[j].id == id;
                if j < k {
                    assert(o[j].id == id);
                } else if j > k {
                    assert(o[j - 1].id == id);
                }
            }
        }
    }
}

} // verus!
