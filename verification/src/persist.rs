//! The persistence lifecycle: the store serialized to UTF-8 bytes,
//! optionally sealed, and read back the same way.

use vstd::prelude::*;
use vstd::utf8::{encode_utf8, decode_utf8, valid_utf8};
use crate::codec::{ser_store, sp_store, serialize_store, parse_store, persisted_view};
use crate::crypto::opened;
use crate::store::{Passwords, PasswordsView};
use crate::text;

verus! {

/// Why a data file could not be loaded.
#[derive(Clone, Copy, PartialEq, Eq, Structural, Debug)]
pub enum LoadError {
    /// The ciphertext did not authenticate under the given key: wrong
    /// password or corrupted file.
    Decryption,
    /// The plaintext is not a data file this crate reads.
    Parse,
}

/// Why a data file could not be produced.
#[derive(Clone, Copy, PartialEq, Eq, Structural, Debug)]
pub enum SaveError {
    /// The cipher refused to seal (it could not draw a nonce).
    Encryption,
}

/// Relies on `String::from_utf8`: succeeds exactly on valid UTF-8 and
/// yields the decoded code points.
#[verifier::external_body]
fn bytes_to_string(b: Vec<u8>) -> (r: Option<String>)
    ensures
        r matches Some(t) ==> valid_utf8(b@) && t@ == decode_utf8(b@),
        r is None ==> !valid_utf8(b@),
{
    match String::from_utf8(b) {
        Ok(t) => Some(t),
        Err(_) => None,
    }
}

/// The UTF-8 bytes of the store's one canonical serialized form.
pub fn store_to_bytes(store: &Passwords) -> (r: Vec<u8>)
    ensures
        r@ == encode_utf8(ser_store(store@)),
{
    let chars = serialize_store(store);
    let text_form = text::chars_to_string(&chars);
    vstd::string::StrSliceExecFns::as_bytes_vec(text_form.as_str())
}

/// The store a byte sequence holds, if it is UTF-8 and parses.
pub open spec fn store_of_bytes(b: Seq<u8>) -> Option<PasswordsView> {
    if valid_utf8(b) {
        sp_store(decode_utf8(b))
    } else {
        None
    }
}

/// Read a store back from file bytes.
pub fn store_from_bytes(bytes: Vec<u8>) -> (r: Option<Passwords>)
    ensures
        match r {
            Some(st) => store_of_bytes(bytes@) == Some(st@),
            None => store_of_bytes(bytes@) is None,
        },
{
    let ghost b = bytes@;
    let text_form = match bytes_to_string(bytes) {
        Some(t) => t,
        None => {
            return None;
        },
    };
    let chars = text::str_to_chars(text_form.as_str());
    parse_store(&chars)
}

/// The plaintext a load attempt works on: the bytes themselves without
/// a key, what they open to with one.
pub open spec fn load_plaintext(b: Seq<u8>, key: Option<Seq<u8>>) -> Option<Seq<u8>> {
    match key {
        None => Some(b),
        Some(k) => opened(k, b),
    }
}

/// Load the store from file bytes, decrypting when a key is given.
/// Fails with `Decryption` exactly when the key is given and the bytes
/// do not authenticate under it, and with `Parse` exactly when the
/// plaintext is not a store.
pub fn load_store(bytes: Vec<u8>, key: Option<&Vec<u8>>) -> (r: Result<Passwords, LoadError>)
    requires
        key matches Some(k) ==> k@.len() == 32,
    ensures
        ({
            let keyv = match key {
                Some(k) => Some(k@),
                None => None,
            };
            match load_plaintext(bytes@, keyv) {
                None => r == Err::<Passwords, LoadError>(LoadError::Decryption),
                Some(pt) => match store_of_bytes(pt) {
                    Some(v) => (r matches Ok(st) && st@ == v),
                    None => r == Err::<Passwords, LoadError>(LoadError::Parse),
                },
            }
        }),
{
    let plain: Vec<u8> = match key {
        Some(k) => match crate::crypto::open_bytes(k, &bytes) {
            Some(pt) => pt,
            None => {
                return Err(LoadError::Decryption);
            },
        },
        None => bytes,
    };
    match store_from_bytes(plain) {
        Some(st) => Ok(st),
        None => Err(LoadError::Parse),
    }
}

/// Produce the file bytes for the store, sealing when a key is given.
/// With a key, a successful result opens under that key to exactly the
/// canonical serialized bytes; sealing itself may fail.
pub fn save_store(store: &Passwords, key: Option<&Vec<u8>>) -> (r: Result<Vec<u8>, SaveError>)
    requires
        key matches Some(k) ==> k@.len() == 32,
    ensures
        key is None ==> (r matches Ok(b) && b@ == encode_utf8(ser_store(store@))),
        key matches Some(k) ==> match r {
            Ok(ct) => opened(k@, ct@) == Some(encode_utf8(ser_store(store@))),
            Err(e) => e == SaveError::Encryption,
        },
{
    let plain = store_to_bytes(store);
    match key {
        Some(k) => match crate::crypto::seal_bytes(k, &plain) {
            Some(ct) => Ok(ct),
            None => Err(SaveError::Encryption),
        },
        None => Ok(plain),
    }
}

/// Persistence round trip: the canonical bytes of a store are valid
/// UTF-8, decode back to the canonical text, and parse back to the same
/// store with its transient cache and tombstone fields cleared. With a
/// key, the sealed file opens to those bytes, so the reload yields the
/// same view.
pub proof fn lemma_persistence_round_trip(v: PasswordsView)
    ensures
        store_of_bytes(encode_utf8(ser_store(v))) == Some(persisted_view(v)),
{
    vstd::utf8::encode_utf8_valid_utf8(ser_store(v));
    vstd::utf8::encode_utf8_decode_utf8(ser_store(v));
    crate::codec::lemma_parse_ser_store(v);
}

} // verus!
