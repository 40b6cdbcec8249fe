//! Messages between client and server: one JSON value each way.
//! Requests: `{"Get":{"key":K}}`, `{"Set":{"key":K,"value":V}}`,
//! `{"Remove":{"key":K}}`. Responses: `{"Ok":V}`, `{"Ok":null}`,
//! `{"Err":M}`.
use vstd::prelude::*;
use crate::command::{json_literal, record_bytes, record_tail, record_tail_bytes, Command, Op};
use crate::json::json_string;

verus! {

/// A request of a client.
pub enum Request {
    /// The value of `key`, if any.
    Get { key: String },
    /// Set `key` to `value`.
    Put { key: String, value: String },
    /// Remove `key`.
    Remove { key: String },
}

/// `{"Get":{"key":`
pub open spec fn get_head() -> Seq<u8> {
    seq![123u8, 34, 71, 101, 116, 34, 58, 123, 34, 107, 101, 121, 34, 58]
}

/// `{"Ok":`
pub open spec fn ok_head() -> Seq<u8> {
    seq![123u8, 34, 79, 107, 34, 58]
}

/// `{"Err":`
pub open spec fn err_head() -> Seq<u8> {
    seq![123u8, 34, 69, 114, 114, 34, 58]
}

/// `null`
pub open spec fn null_bytes() -> Seq<u8> {
    seq![110u8, 117, 108, 108]
}

/// `}`
pub open spec fn close_brace() -> Seq<u8> {
    seq![125u8]
}

/// The bytes of a request.
pub open spec fn request_bytes(r: Request) -> Seq<u8> {
    match r {
        Request::Get { key } => get_head() + json_string(key@) + record_tail(),
        Request::Put { key, value } => record_bytes(Op::Put { key: key@, value: value@ }),
        Request::Remove { key } => record_bytes(Op::Remove { key: key@ }),
    }
}

/// The bytes of a response.
pub open spec fn response_bytes(r: Result<Option<Seq<char>>, Seq<char>>) -> Seq<u8> {
    match r {
        Ok(Some(v)) => ok_head() + json_string(v) + close_brace(),
        Ok(None) => ok_head() + null_bytes() + close_brace(),
        Err(m) => err_head() + json_string(m) + close_brace(),
    }
}

/// What a response says, over the characters of its strings.
pub open spec fn response_view(r: &Result<Option<String>, String>) -> Result<Option<Seq<char>>, Seq<char>> {
    match r {
        Ok(Some(v)) => Ok(Some(v@)),
        Ok(None) => Ok(None),
        Err(m) => Err(m@),
    }
}

impl Request {
    /// The request's bytes on the wire.
    pub fn encode(self) -> (r: Vec<u8>)
        ensures
            r@ == request_bytes(self),
    {
        match self {
            Request::Get { key } => {
                let k = json_literal(&key);
                let mut out = vec![123u8, 34, 71, 101, 116, 34, 58, 123, 34, 107, 101, 121, 34, 58];
                assert(out@ =~= get_head());
                out.extend_from_slice(k.as_slice());
                let tail = record_tail_bytes();
                out.extend_from_slice(tail.as_slice());
                out
            },
            Request::Put { key, value } => Command::set(key, value).encode(),
            Request::Remove { key } => Command::remove(key).encode(),
        }
    }
}

/// A response's bytes on the wire.
pub fn encode_response(resp: &Result<Option<String>, String>) -> (r: Vec<u8>)
    ensures
        r@ == response_bytes(response_view(resp)),
{
    let (mut out, body) = match resp {
        Ok(Some(v)) => {
            let b = json_literal(v);
            let head = vec![123u8, 34, 79, 107, 34, 58];
            assert(head@ =~= ok_head());
            (head, b)
        },
        Ok(None) => {
            let head = vec![123u8, 34, 79, 107, 34, 58];
            let null = vec![110u8, 117, 108, 108];
            assert(head@ =~= ok_head());
            assert(null@ =~= null_bytes());
            (head, null)
        },
        Err(m) => {
            let b = json_literal(m);
            let head = vec![123u8, 34, 69, 114, 114, 34, 58];
            assert(head@ =~= err_head());
            (head, b)
        },
    };
    out.extend_from_slice(body.as_slice());
    out.push(125u8);
    assert(out@ =~= response_bytes(response_view(resp)));
    out
}

} // verus!
