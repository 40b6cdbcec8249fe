//! Which engine a server runs, and the name under which it is persisted.
use vstd::prelude::*;
use crate::error::KvsError;

verus! {

/// The two engines.
#[derive(Clone, Copy, PartialEq, Eq, Structural, Debug)]
pub enum Engine {
    /// The log-structured engine.
    Kvs,
    /// The engine kept by sled.
    Sled,
}

/// The name of an engine, as bytes: `kvs` or `sled`.
pub open spec fn engine_name(e: Engine) -> Seq<u8> {
    match e {
        Engine::Kvs => seq![107u8, 118, 115],
        Engine::Sled => seq![115u8, 108, 101, 100],
    }
}

/// `b` with an ASCII capital letter made small.
pub open spec fn ascii_lower(b: u8) -> u8 {
    if 65 <= b <= 90 {
        (b + 32) as u8
    } else {
        b
    }
}

/// `s` with its ASCII capital letters made small.
pub open spec fn lower_bytes(s: Seq<u8>) -> Seq<u8> {
    Seq::new(s.len(), |i: int| ascii_lower(s[i]))
}

/// The engine whose name is `text`, ignoring ASCII case, if any.
pub open spec fn engine_named(text: Seq<u8>) -> Option<Engine> {
    if lower_bytes(text) == engine_name(Engine::Kvs) {
        Some(Engine::Kvs)
    } else if lower_bytes(text) == engine_name(Engine::Sled) {
        Some(Engine::Sled)
    } else {
        None
    }
}

/// The engine that runs when none was asked for and none was stored.
pub const DEFAULT_ENGINE: Engine = Engine::Kvs;

impl Engine {
    /// The engine's name, as written to the `engine` file.
    pub fn name(&self) -> (r: Vec<u8>)
        ensures
            r@ == engine_name(*self),
    {
        let r = match self {
            Engine::Kvs => vec![107u8, 118, 115],
            Engine::Sled => vec![115u8, 108, 101, 100],
        };
        assert(r@ =~= engine_name(*self));
        r
    }

    /// The engine named by `text` (ASCII case ignored), or `None` for any
    /// other text.
    pub fn parse(text: &Vec<u8>) -> (r: Option<Engine>)
        ensures
            r == engine_named(text@),
    {
        let kvs = Engine::Kvs.name();
        let sled = Engine::Sled.name();
        if lower_equal(text, &kvs) {
            Some(Engine::Kvs)
        } else if lower_equal(text, &sled) {
            Some(Engine::Sled)
        } else {
            None
        }
    }
}

fn lower_equal(a: &Vec<u8>, b: &Vec<u8>) -> (r: bool)
    ensures
        r <==> lower_bytes(a@) == b@,
{
    if a.len() != b.len() {
        return false;
    }
    let mut i: usize = 0;
    while i < a.len()
        invariant
            a@.len() == b@.len(),
            0 <= i <= a@.len(),
            forall|j: int| 0 <= j < i ==> ascii_lower(a@[j]) == b@[j],
        decreases a@.len() - i,
    {
        let c = a[i];
        let lc = if 65 <= c && c <= 90 { c + 32 } else { c };
        if lc != b[i] {
            assert(lower_bytes(a@)[i as int] != b@[i as int]);
            return false;
        }
        i += 1;
    }
    assert(lower_bytes(a@) =~= b@);
    true
}

pub(crate) fn bytes_equal(a: &Vec<u8>, b: &Vec<u8>) -> (r: bool)
    ensures
        r <==> a@ == b@,
{
    if a.len() != b.len() {
        return false;
    }
    let mut i: usize = 0;
    while i < a.len()
        invariant
            a@.len() == b@.len(),
            0 <= i <= a@.len(),
            forall|j: int| 0 <= j < i ==> a@[j] == b@[j],
        decreases a@.len() - i,
    {
        if a[i] != b[i] {
            return false;
        }
        i += 1;
    }
    assert(a@ =~= b@);
    true
}

/// The engine a server starts with, given the one asked for and the one
/// stored by an earlier start: a stored engine that differs from the one
/// asked for is refused; otherwise the one asked for, else the stored one,
/// else the default.
pub fn choose_engine(requested: Option<Engine>, stored: Option<Engine>) -> (r: Result<Engine, KvsError>)
    ensures
        r is Err <==> (requested is Some && stored is Some && requested != stored),
        r is Err ==> r->Err_0 is StringError,
        r is Ok && requested is Some ==> r->Ok_0 == requested->0,
        r is Ok && requested is None && stored is Some ==> r->Ok_0 == stored->0,
        requested is None && stored is None ==> r is Ok && r->Ok_0 == DEFAULT_ENGINE,
{
    match (requested, stored) {
        (Some(a), Some(b)) => {
            if a == b {
                Ok(a)
            } else {
                Err(KvsError::StringError(String::from_str("Wrong engine!")))
            }
        },
        (Some(a), None) => Ok(a),
        (None, Some(b)) => Ok(b),
        (None, None) => Ok(DEFAULT_ENGINE),
    }
}

} // verus!
