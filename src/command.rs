//! Log records: the two commands, their location in a segment, and their
//! encoding as JSON objects.
use vstd::prelude::*;
use crate::json::json_string;

verus! {

/// A record of the log.
pub enum Command {
    /// `key` now maps to `value`.
    Put { key: String, value: String },
    /// `key` is no longer stored.
    Remove { key: String },
}

/// What a record says, over the characters of its strings.
pub enum Op {
    Put { key: Seq<char>, value: Seq<char> },
    Remove { key: Seq<char> },
}

impl Op {
    pub open spec fn key(self) -> Seq<char> {
        match self {
            Op::Put { key, .. } => key,
            Op::Remove { key } => key,
        }
    }
}

impl View for Command {
    type V = Op;

    open spec fn view(&self) -> Op {
        match self {
            Command::Put { key, value } => Op::Put { key: key@, value: value@ },
            Command::Remove { key } => Op::Remove { key: key@ },
        }
    }
}

impl Command {
    /// A record that sets `key` to `value`.
    pub fn set(key: String, value: String) -> (r: Command)
        ensures
            r@ == (Op::Put { key: key@, value: value@ }),
    {
        Command::Put { key, value }
    }

    /// A record that removes `key`.
    pub fn remove(key: String) -> (r: Command)
        ensures
            r@ == (Op::Remove { key: key@ }),
    {
        Command::Remove { key }
    }

    /// A copy of the record.
    pub fn duplicate(&self) -> (r: Command)
        ensures
            r@ == self@,
    {
        match self {
            Command::Put { key, value } => Command::Put { key: key.clone(), value: value.clone() },
            Command::Remove { key } => Command::Remove { key: key.clone() },
        }
    }

    /// The key that the record is about.
    pub fn key(&self) -> (r: &String)
        ensures
            r@ == self@.key(),
    {
        match self {
            Command::Put { key, .. } => key,
            Command::Remove { key } => key,
        }
    }

    /// The record's bytes in a segment: `{"Set":{"key":K,"value":V}}` or
    /// `{"Remove":{"key":K}}`, where `K` and `V` are JSON string literals.
    pub fn encode(&self) -> (r: Vec<u8>)
        ensures
            r@ == record_bytes(self@),
    {
        match self {
            Command::Put { key, value } => {
                let k = json_literal(key);
                let v = json_literal(value);
                let mut out = set_head_bytes();
                out.extend_from_slice(k.as_slice());
                let mid = value_sep_bytes();
                out.extend_from_slice(mid.as_slice());
                out.extend_from_slice(v.as_slice());
                let tail = record_tail_bytes();
                out.extend_from_slice(tail.as_slice());
                out
            },
            Command::Remove { key } => {
                let k = json_literal(key);
                let mut out = remove_head_bytes();
                out.extend_from_slice(k.as_slice());
                let tail = record_tail_bytes();
                out.extend_from_slice(tail.as_slice());
                out
            },
        }
    }
}

/// Relies on serde_json::to_vec: a `String` serialises to its JSON string
/// literal, and writing into a `Vec` cannot fail.
#[verifier::external_body]
fn to_json_string(s: &String) -> (r: Result<Vec<u8>, serde_json::Error>)
    ensures
        r is Ok,
        r is Ok ==> r->Ok_0@ == json_string(s@),
{
    serde_json::to_vec(s)
}

/// The JSON string literal of `s`.
pub(crate) fn json_literal(s: &String) -> (r: Vec<u8>)
    ensures
        r@ == json_string(s@),
{
    match to_json_string(s) {
        Ok(b) => b,
        Err(_) => Vec::new(),
    }
}

/// `{"Set":{"key":`
pub open spec fn set_head() -> Seq<u8> {
    seq![123u8, 34, 83, 101, 116, 34, 58, 123, 34, 107, 101, 121, 34, 58]
}

/// `{"Remove":{"key":`
pub open spec fn remove_head() -> Seq<u8> {
    seq![123u8, 34, 82, 101, 109, 111, 118, 101, 34, 58, 123, 34, 107, 101, 121, 34, 58]
}

/// `,"value":`
pub open spec fn value_sep() -> Seq<u8> {
    seq![44u8, 34, 118, 97, 108, 117, 101, 34, 58]
}

/// `}}`
pub open spec fn record_tail() -> Seq<u8> {
    seq![125u8, 125]
}

/// The bytes of a record in a segment.
pub open spec fn record_bytes(op: Op) -> Seq<u8> {
    match op {
        Op::Put { key, value } => set_head() + json_string(key) + value_sep() + json_string(value)
            + record_tail(),
        Op::Remove { key } => remove_head() + json_string(key) + record_tail(),
    }
}

pub(crate) fn set_head_bytes() -> (r: Vec<u8>)
    ensures
        r@ == set_head(),
{
    let r = vec![123u8, 34, 83, 101, 116, 34, 58, 123, 34, 107, 101, 121, 34, 58];
    assert(r@ =~= set_head());
    r
}

pub(crate) fn remove_head_bytes() -> (r: Vec<u8>)
    ensures
        r@ == remove_head(),
{
    let r = vec![123u8, 34, 82, 101, 109, 111, 118, 101, 34, 58, 123, 34, 107, 101, 121, 34, 58];
    assert(r@ =~= remove_head());
    r
}

pub(crate) fn value_sep_bytes() -> (r: Vec<u8>)
    ensures
        r@ == value_sep(),
{
    let r = vec![44u8, 34, 118, 97, 108, 117, 101, 34, 58];
    assert(r@ =~= value_sep());
    r
}

pub(crate) fn record_tail_bytes() -> (r: Vec<u8>)
    ensures
        r@ == record_tail(),
{
    let r = vec![125u8, 125];
    assert(r@ =~= record_tail());
    r
}

/// Where a record lies: segment id, byte offset in the segment, byte length.
#[derive(Clone, Copy, PartialEq, Eq, Debug)]
pub struct CommandPos {
    pub fid: u64,
    pub pos: u64,
    pub len: u64,
}

impl CommandPos {
    /// The location of `len` bytes at offset `pos` of segment `fid`.
    pub fn new(fid: u64, pos: u64, len: u64) -> (r: CommandPos)
        ensures
            r == (CommandPos { fid, pos, len }),
    {
        CommandPos { fid, pos, len }
    }
}

} // verus!
