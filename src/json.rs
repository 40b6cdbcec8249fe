//! JSON string literals as serde_json writes them: the UTF-8 bytes of the
//! string between quotes, with `"` and `\` escaped by a backslash, the
//! control bytes 08, 09, 0A, 0C, 0D written `\b \t \n \f \r`, every other
//! byte below 20 written `\u00XX` (lowercase hex), and all other bytes as
//! they are.
use vstd::prelude::*;
use vstd::utf8::encode_utf8;

verus! {

/// The lowercase hex digit of `n`, for `n < 16`.
pub open spec fn hex_digit(n: u8) -> u8 {
    if n < 10 {
        (48 + n) as u8
    } else {
        (87 + n) as u8
    }
}

/// How one byte of a string is written inside a JSON string literal.
pub open spec fn escape_byte(b: u8) -> Seq<u8> {
    if b == 34 {
        seq![92u8, 34]
    } else if b == 92 {
        seq![92u8, 92]
    } else if b == 8 {
        seq![92u8, 98]
    } else if b == 9 {
        seq![92u8, 116]
    } else if b == 10 {
        seq![92u8, 110]
    } else if b == 12 {
        seq![92u8, 102]
    } else if b == 13 {
        seq![92u8, 114]
    } else if b < 32 {
        seq![92u8, 117, 48, 48, hex_digit(b / 16), hex_digit(b % 16)]
    } else {
        seq![b]
    }
}

/// The escaped form of a byte string.
pub open spec fn escape_bytes(s: Seq<u8>) -> Seq<u8>
    decreases s.len(),
{
    if s.len() == 0 {
        Seq::empty()
    } else {
        escape_byte(s[0]) + escape_bytes(s.drop_first())
    }
}

/// The JSON string literal of `s`.
pub open spec fn json_string(s: Seq<char>) -> Seq<u8> {
    seq![34u8] + escape_bytes(encode_utf8(s)) + seq![34u8]
}

proof fn lemma_escape_byte_prefix(x: u8, y: u8, t1: Seq<u8>, t2: Seq<u8>)
    requires
        escape_byte(x) + t1 == escape_byte(y) + t2,
    ensures
        x == y,
        t1 == t2,
{
    let ex = escape_byte(x);
    let ey = escape_byte(y);
    let w = ex + t1;
    assert(w == ey + t2);
    assert(w[0] == ex[0] && w[0] == ey[0]);
    if ex.len() > 1 && ey.len() > 1 {
        assert(w[1] == ex[1] && w[1] == ey[1]);
        if ex.len() == 6 && ey.len() == 6 {
            assert(w[4] == ex[4] && w[4] == ey[4]);
            assert(w[5] == ex[5] && w[5] == ey[5]);
            assert(x / 16 < 2 && y / 16 < 2);
            assert(x == (x / 16) * 16 + x % 16);
            assert(y == (y / 16) * 16 + y % 16);
        }
    }
    assert(x == y);
    assert(t1 =~= w.skip(ex.len() as int));
    assert(t2 =~= w.skip(ey.len() as int));
}

/// Escaping loses nothing: distinct byte strings escape differently.
pub proof fn lemma_escape_injective(a: Seq<u8>, b: Seq<u8>)
    requires
        escape_bytes(a) == escape_bytes(b),
    ensures
        a == b,
    decreases a.len(),
{
    if a.len() == 0 {
        if b.len() > 0 {
            assert(escape_bytes(b).len() >= escape_byte(b[0]).len());
        }
        assert(a =~= b);
    } else {
        if b.len() == 0 {
            assert(escape_bytes(a).len() >= escape_byte(a[0]).len());
        } else {
            lemma_escape_byte_prefix(a[0], b[0], escape_bytes(a.drop_first()), escape_bytes(b.drop_first()));
            lemma_escape_injective(a.drop_first(), b.drop_first());
            assert(a =~= seq![a[0]] + a.drop_first());
            assert(b =~= seq![b[0]] + b.drop_first());
        }
    }
}

/// Distinct strings have distinct JSON string literals.
pub proof fn lemma_json_string_injective(a: Seq<char>, b: Seq<char>)
    requires
        json_string(a) == json_string(b),
    ensures
        a == b,
{
    let ea = escape_bytes(encode_utf8(a));
    let eb = escape_bytes(encode_utf8(b));
    assert(ea =~= json_string(a).subrange(1, json_string(a).len() - 1));
    assert(eb =~= json_string(b).subrange(1, json_string(b).len() - 1));
    lemma_escape_injective(encode_utf8(a), encode_utf8(b));
    crate::order::lemma_key_bytes_injective(a, b);
}

} // verus!
