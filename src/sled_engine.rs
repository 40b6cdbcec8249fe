//! The alternative engine: the same contract, kept by sled's embedded tree.
use vstd::prelude::*;
use vstd::utf8::{encode_utf8, decode_utf8, valid_utf8};
use crate::error::KvsError;

verus! {

#[verifier::external_type_specification]
#[verifier::external_body]
pub struct ExDb(sled::Db);

/// What a sled database holds: its keys and values, as bytes.
pub uninterp spec fn sled_contents(db: sled::Db) -> Map<Seq<u8>, Seq<u8>>;

/// Whether a sled database was opened read-only (fixed when it is opened).
pub uninterp spec fn sled_read_only(db: sled::Db) -> bool;

/// The bytes under which a string is stored.
pub open spec fn utf8_of(s: Seq<char>) -> Seq<u8> {
    encode_utf8(s)
}

/// Relies on sled::Tree::set: on success the key maps to the new value; a
/// read-only tree refuses the write.
#[verifier::external_body]
fn db_set(db: &mut sled::Db, key: &String, value: &String) -> (r: Result<(), sled::Error>)
    ensures
        r is Ok ==> sled_contents(*final(db)) == sled_contents(*old(db)).insert(
            utf8_of(key@),
            utf8_of(value@),
        ),
        sled_read_only(*old(db)) ==> r is Err,
        sled_read_only(*final(db)) == sled_read_only(*old(db)),
{
    db.set(key.as_bytes(), value.as_bytes().to_vec()).map(|_| ())
}

/// Relies on sled::Tree::get: the value stored under the key, if any.
#[verifier::external_body]
fn db_get(db: &sled::Db, key: &String) -> (r: Result<Option<Vec<u8>>, sled::Error>)
    ensures
        r is Ok ==> (r->Ok_0 is Some <==> sled_contents(*db).contains_key(utf8_of(key@))),
        r is Ok && r->Ok_0 is Some ==> r->Ok_0->0@ == sled_contents(*db)[utf8_of(key@)],
{
    db.get(key.as_bytes()).map(|o| o.map(|v| AsRef::<[u8]>::as_ref(&v).to_vec()))
}

/// Relies on sled::Tree::del: `Ok(true)` when the key was stored and is now
/// gone; `Ok(false)` leaves the tree as it was, and on a tree that is not
/// read-only means that the key was not stored.
#[verifier::external_body]
fn db_del(db: &mut sled::Db, key: &String) -> (r: Result<bool, sled::Error>)
    ensures
        r is Ok && r->Ok_0 ==> sled_contents(*old(db)).contains_key(utf8_of(key@))
            && sled_contents(*final(db)) == sled_contents(*old(db)).remove(utf8_of(key@)),
        r is Ok && !r->Ok_0 ==> sled_contents(*final(db)) == sled_contents(*old(db)),
        r is Ok && !r->Ok_0 && !sled_read_only(*old(db)) ==> !sled_contents(*old(db)).contains_key(
            utf8_of(key@),
        ),
        sled_read_only(*final(db)) == sled_read_only(*old(db)),
{
    db.del(key.as_bytes()).map(|o| o.is_some())
}

/// Relies on sled::Tree::flush: writes dirty buffers out, contents unchanged.
#[verifier::external_body]
fn db_flush(db: &sled::Db) -> (r: Result<(), sled::Error>) {
    db.flush().map(|_| ())
}

/// Relies on String::from_utf8: succeeds exactly on valid UTF-8, with the
/// characters that the bytes encode.
#[verifier::external_body]
fn utf8_string(b: Vec<u8>) -> (r: Result<String, std::string::FromUtf8Error>)
    ensures
        r is Ok <==> valid_utf8(b@),
        r is Ok ==> r->Ok_0@ == decode_utf8(b@),
{
    String::from_utf8(b)
}

/// An engine kept by a sled database.
pub struct SledKvsEngine(sled::Db);

impl SledKvsEngine {
    /// What the database holds.
    pub closed spec fn contents(&self) -> Map<Seq<u8>, Seq<u8>> {
        sled_contents(self.0)
    }

    /// Whether the database is read-only.
    pub closed spec fn read_only(&self) -> bool {
        sled_read_only(self.0)
    }

    /// An engine over `db`.
    pub fn new(db: sled::Db) -> (r: Self)
        ensures
            r.contents() == sled_contents(db),
            r.read_only() == sled_read_only(db),
    {
        SledKvsEngine(db)
    }

    /// Stores `value` under `key`, then flushes.
    pub fn set(&mut self, key: String, value: String) -> (r: Result<(), KvsError>)
        ensures
            r is Ok ==> final(self).contents() == old(self).contents().insert(
                utf8_of(key@),
                utf8_of(value@),
            ),
            r is Err ==> r->Err_0 is SledError,
            old(self).read_only() ==> r is Err,
            final(self).read_only() == old(self).read_only(),
    {
        match db_set(&mut self.0, &key, &value) {
            Ok(()) => {},
            Err(e) => return Err(KvsError::SledError(e)),
        }
        match db_flush(&self.0) {
            Ok(()) => Ok(()),
            Err(e) => Err(KvsError::SledError(e)),
        }
    }

    /// The value stored under `key`, if any.
    pub fn get(&mut self, key: String) -> (r: Result<Option<String>, KvsError>)
        ensures
            final(self).contents() == old(self).contents(),
            final(self).read_only() == old(self).read_only(),
            r is Ok && r->Ok_0 is None ==> !old(self).contents().contains_key(utf8_of(key@)),
            r is Ok && r->Ok_0 is Some ==> old(self).contents().contains_key(utf8_of(key@))
                && utf8_of(r->Ok_0->0@) == old(self).contents()[utf8_of(key@)],
            r is Err ==> r->Err_0 is SledError || (r->Err_0 is Utf8Error
                && old(self).contents().contains_key(utf8_of(key@))
                && !valid_utf8(old(self).contents()[utf8_of(key@)])),
    {
        match db_get(&self.0, &key) {
            Ok(Some(bytes)) => {
                let ghost b = bytes@;
                match utf8_string(bytes) {
                    Ok(s) => {
                        proof {
                            vstd::utf8::decode_utf8_encode_utf8(b);
                        }
                        Ok(Some(s))
                    },
                    Err(e) => Err(KvsError::Utf8Error(e)),
                }
            },
            Ok(None) => Ok(None),
            Err(e) => Err(KvsError::SledError(e)),
        }
    }

    /// Removes `key`, then flushes; `KeyNotFoundError` if it was not stored.
    pub fn remove(&mut self, key: String) -> (r: Result<(), KvsError>)
        ensures
            !old(self).contents().contains_key(utf8_of(key@)) ==> r is Err,
            r is Ok ==> old(self).contents().contains_key(utf8_of(key@))
                && final(self).contents() == old(self).contents().remove(utf8_of(key@)),
            r is Err && r->Err_0 is KeyNotFoundError ==> final(self).contents() == old(self).contents(),
            r is Err && r->Err_0 is KeyNotFoundError && !old(self).read_only() ==> !old(
                self,
            ).contents().contains_key(utf8_of(key@)),
            final(self).read_only() == old(self).read_only(),
            r is Err ==> r->Err_0 is SledError || r->Err_0 is KeyNotFoundError,
    {
        match db_del(&mut self.0, &key) {
            Ok(true) => {},
            Ok(false) => return Err(KvsError::KeyNotFoundError),
            Err(e) => return Err(KvsError::SledError(e)),
        }
        match db_flush(&self.0) {
            Ok(()) => Ok(()),
            Err(e) => Err(KvsError::SledError(e)),
        }
    }
}

} // verus!
