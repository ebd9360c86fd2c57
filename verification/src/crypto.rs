//! Key derivation and the authenticated-encryption boundary around the
//! data file.

use vstd::prelude::*;
use vstd::utf8::encode_utf8;

verus! {

/// The fixed key width the cipher expects.
pub const KEY_LEN: usize = 32;

/// The derived key: the password bytes truncated or zero-padded to
/// exactly 32 bytes. Deliberately not a password-hashing function: the
/// scheme is weak, but it is what previously saved files were sealed
/// with, so it is preserved.
pub open spec fn derived_key(pw: Seq<u8>) -> Seq<u8> {
    Seq::new(32, |i: int| if i < pw.len() { pw[i] } else { 0u8 })
}

/// Truncate or zero-pad the password bytes to the fixed key width.
pub fn derive_key(password: &Vec<u8>) -> (r: Vec<u8>)
    ensures
        r@ == derived_key(password@),
{
    let mut key: Vec<u8> = Vec::new();
    let mut i: usize = 0;
    while i < KEY_LEN
        invariant
            i <= 32,
            key@ =~= derived_key(password@).subrange(0, i as int),
        decreases 32 - i,
    {
        if i < password.len() {
            key.push(password[i]);
        } else {
            key.push(0);
        }
        proof {
            assert(key@ =~= derived_key(password@).subrange(0, i + 1));
        }
        i += 1;
    }
    proof {
        assert(derived_key(password@).subrange(0, 32) =~= derived_key(password@));
    }
    key
}

/// The key derived from a password given as code points: the password's
/// UTF-8 bytes, truncated or zero-padded.
pub fn derive_key_text(password: &Vec<char>) -> (r: Vec<u8>)
    ensures
        r@ == derived_key(encode_utf8(password@)),
{
    let text = crate::text::chars_to_string(password);
    let bytes = vstd::string::StrSliceExecFns::as_bytes_vec(text.as_str());
    derive_key(&bytes)
}

/// What authenticated decryption yields for a key and a ciphertext, if
/// anything: a function of the two alone.
pub uninterp spec fn opened(key: Seq<u8>, ciphertext: Seq<u8>) -> Option<Seq<u8>>;

/// Relies on `orion::aead::seal` (XChaCha20Poly1305 under a fresh random
/// nonce; the 32-byte key is wrapped by `SecretKey::try_from` first):
/// on success the ciphertext opens, under the same key, to exactly the
/// sealed plaintext. Nothing more is promised of an output that embeds a
/// random nonce.
#[verifier::external_body]
pub fn seal_bytes(key: &Vec<u8>, plaintext: &Vec<u8>) -> (r: Option<Vec<u8>>)
    requires
        key@.len() == 32,
    ensures
        r matches Some(ct) ==> opened(key@, ct@) == Some(plaintext@),
{
    let sk = match <orion::aead::SecretKey as core::convert::TryFrom<&[u8]>>::try_from(
        key.as_slice(),
    ) {
        Ok(k) => k,
        Err(_) => {
            return None;
        },
    };
    match orion::aead::seal(&sk, plaintext.as_slice()) {
        Ok(ct) => Some(ct),
        Err(_) => None,
    }
}

/// Relies on `orion::aead::open` (deterministic authenticated
/// decryption; the 32-byte key is wrapped by `SecretKey::try_from`
/// first): success and plaintext depend on the key and ciphertext alone,
/// and a tampered or wrongly keyed ciphertext fails authentication.
#[verifier::external_body]
pub fn open_bytes(key: &Vec<u8>, ciphertext: &Vec<u8>) -> (r: Option<Vec<u8>>)
    requires
        key@.len() == 32,
    ensures
        r matches Some(pt) ==> opened(key@, ciphertext@) == Some(pt@),
        r is None ==> opened(key@, ciphertext@) is None,
{
    let sk = match <orion::aead::SecretKey as core::convert::TryFrom<&[u8]>>::try_from(
        key.as_slice(),
    ) {
        Ok(k) => k,
        Err(_) => {
            return None;
        },
    };
    match orion::aead::open(&sk, ciphertext.as_slice()) {
        Ok(pt) => Some(pt),
        Err(_) => None,
    }
}

} // verus!
