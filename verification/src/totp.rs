//! Time-based one-time-password records: the dual secret representation
//! (canonical base32 text or verbatim fallback), and the per-record code
//! cache that recomputes at most once per time window.

use vstd::prelude::*;
use vstd::string::StrSliceExecFns;
use crate::text;

verus! {

/// Hash algorithm a record may declare in the data file. Records created
/// in the session always use `Sha1`.
#[derive(Clone, Copy, PartialEq, Eq, Structural, Debug)]
pub enum TotpAlgorithm {
    Sha1,
    Sha256,
    Sha512,
}

pub open spec fn algorithm_index(a: TotpAlgorithm) -> int {
    match a {
        TotpAlgorithm::Sha1 => 0,
        TotpAlgorithm::Sha256 => 1,
        TotpAlgorithm::Sha512 => 2,
    }
}

/// The standard time-based one-time code: `digits` decimal digits derived
/// by the HMAC-based algorithm from the secret and the window `time / step`.
/// Computed by the totp crate; a function of its arguments alone.
pub uninterp spec fn totp_code_at(
    alg: int,
    secret: Seq<u8>,
    digits: int,
    step: int,
    time: int,
) -> Seq<char>;

/// Relies on `totp_rs::TOTP::generate`: the code depends on the
/// algorithm, secret, digit count, step and timestamp alone, and is
/// exactly `digits` characters long (a zero-padded decimal below
/// `10^digits`). `generate` divides by the step and indexes the HMAC
/// output, so a positive step and at most 9 digits keep it from
/// panicking.
#[verifier::external_body]
fn generate_code(alg: TotpAlgorithm, secret: &Vec<u8>, digits: usize, step: u64, time: u64) -> (r:
    String)
    requires
        1 <= digits <= 9,
        step > 0,
    ensures
        r@ == totp_code_at(algorithm_index(alg), secret@, digits as int, step as int, time as int),
        r@.len() == digits,
{
    let a = match alg {
        TotpAlgorithm::Sha1 => totp_rs::Algorithm::SHA1,
        TotpAlgorithm::Sha256 => totp_rs::Algorithm::SHA256,
        TotpAlgorithm::Sha512 => totp_rs::Algorithm::SHA512,
    };
    totp_rs::TOTP::new_unchecked(a, digits, 0, step, secret.clone()).generate(time)
}

/// What decoding a text as unpadded RFC 4648 base32 yields, if anything:
/// a function of the text alone.
pub uninterp spec fn base32_decoded(s: Seq<char>) -> Option<Seq<u8>>;

/// Relies on `totp_rs::Secret::to_bytes` for an `Encoded` secret, which
/// is `base32::decode` with the unpadded RFC 4648 alphabet.
#[verifier::external_body]
fn decode_base32(s: &String) -> (r: Option<Vec<u8>>)
    ensures
        match r {
            Some(v) => base32_decoded(s@) == Some(v@),
            None => base32_decoded(s@) is None,
        },
{
    match totp_rs::Secret::Encoded(s.clone()).to_bytes() {
        Ok(v) => Some(v),
        Err(_) => None,
    }
}

/// The canonical unpadded RFC 4648 base32 encoding of the bytes: a
/// function of the bytes alone.
pub uninterp spec fn base32_encoded(b: Seq<u8>) -> Seq<char>;

/// Relies on `totp_rs::TOTP::get_secret_base32`, which is
/// `base32::encode` with the unpadded RFC 4648 alphabet; decoding the
/// canonical encoding gives the bytes back (the alphabets match, so the
/// crate's decode inverts its encode).
#[verifier::external_body]
fn encode_base32(b: &Vec<u8>) -> (r: String)
    ensures
        r@ == base32_encoded(b@),
        base32_decoded(r@) == Some(b@),
{
    totp_rs::TOTP::new_unchecked(totp_rs::Algorithm::SHA1, 6, 0, 30, b.clone())
        .get_secret_base32()
}

/// The cached pair of codes for one time window. Transient: never
/// persisted.
pub struct CachedCodes {
    pub window: u64,
    pub current: String,
    pub next: String,
}

#[verifier::ext_equal]
pub struct CachedCodesView {
    pub window: u64,
    pub current: Seq<char>,
    pub next: Seq<char>,
}

impl View for CachedCodes {
    type V = CachedCodesView;

    open spec fn view(&self) -> CachedCodesView {
        CachedCodesView { window: self.window, current: self.current@, next: self.next@ }
    }
}

/// One authenticator entry: a name, the code parameters, the secret as
/// raw bytes, and, when the user's text was not valid base32, that text
/// kept verbatim as the fallback representation.
pub struct TotpCode {
    pub name: Vec<char>,
    /// `Some` exactly when the last committed secret text was not the
    /// canonical base32 form of any bytes; then `secret` holds that
    /// text's UTF-8 bytes.
    pub raw_secret: Option<Vec<char>>,
    pub algorithm: TotpAlgorithm,
    /// Number of code digits; edits clamp it to `[4, 8)`.
    pub digits: usize,
    /// Accepted step skew, kept only for the data file.
    pub skew: u8,
    /// Window length in seconds.
    pub step: u64,
    /// The secret bytes the codes are computed from.
    pub secret: Vec<u8>,
    /// Transient: never persisted.
    pub cached_codes: Option<CachedCodes>,
    /// Tombstone: marked for removal at save time. Never persisted.
    pub delete: bool,
}

#[verifier::ext_equal]
pub struct TotpCodeView {
    pub name: Seq<char>,
    pub raw_secret: Option<Seq<char>>,
    pub algorithm: TotpAlgorithm,
    pub digits: usize,
    pub skew: u8,
    pub step: u64,
    pub secret: Seq<u8>,
    pub cached_codes: Option<CachedCodesView>,
    pub delete: bool,
}

impl View for TotpCode {
    type V = TotpCodeView;

    open spec fn view(&self) -> TotpCodeView {
        TotpCodeView {
            name: self.name@,
            raw_secret: match self.raw_secret {
                Some(v) => Some(v@),
                None => None,
            },
            algorithm: self.algorithm,
            digits: self.digits,
            skew: self.skew,
            step: self.step,
            secret: self.secret@,
            cached_codes: match self.cached_codes {
                Some(c) => Some(c@),
                None => None,
            },
            delete: self.delete,
        }
    }
}

/// The code this record shows for window `w`.
pub open spec fn code_for(r: TotpCodeView, w: int) -> Seq<char> {
    totp_code_at(algorithm_index(r.algorithm), r.secret, r.digits as int, r.step as int, w * r.step)
}

/// A record the session can compute codes for: a positive window length
/// and a digit count the code algorithm accepts (edits keep it in
/// `[4, 8)`).
pub open spec fn totp_wf(r: TotpCodeView) -> bool {
    &&& r.step > 0
    &&& 1 <= r.digits <= 9
}

/// What committing a secret text makes of a record: the decoded bytes
/// when the text is their canonical base32 form (so that re-encoding
/// reproduces it exactly), else the text kept verbatim with its UTF-8
/// bytes; the stale cache is dropped either way.
pub open spec fn committed_totp(t: TotpCodeView, text: Seq<char>) -> TotpCodeView {
    match base32_decoded(text) {
        Some(b) => if base32_encoded(b) == text {
            TotpCodeView { raw_secret: None, secret: b, cached_codes: None, ..t }
        } else {
            TotpCodeView {
                raw_secret: Some(text),
                secret: vstd::utf8::encode_utf8(text),
                cached_codes: None,
                ..t
            }
        },
        None => TotpCodeView {
            raw_secret: Some(text),
            secret: vstd::utf8::encode_utf8(text),
            cached_codes: None,
            ..t
        },
    }
}

/// The cache, when present, holds exactly the codes of its window: the
/// invariant that lets a contiguous advance reuse the cached next code.
pub open spec fn cache_coherent(r: TotpCodeView) -> bool {
    r.cached_codes matches Some(c) ==> c.current == code_for(r, c.window as int) && c.next
        == code_for(r, c.window as int + 1)
}

impl TotpCode {
    /// The defaults an "add new" action seeds the edit dialog with.
    pub fn new() -> (r: TotpCode)
        ensures
            r@.name == "New code"@,
            r@.raw_secret is None,
            r@.algorithm == TotpAlgorithm::Sha1,
            r@.digits == 6,
            r@.skew == 0,
            r@.step == 30,
            r@.secret == Seq::<u8>::empty(),
            r@.cached_codes is None,
            r@.delete == false,
    {
        let name = text::str_to_chars("New code");
        TotpCode {
            name,
            raw_secret: None,
            algorithm: TotpAlgorithm::Sha1,
            digits: 6,
            skew: 0,
            step: 30,
            secret: Vec::new(),
            cached_codes: None,
            delete: false,
        }
    }

    /// A copy with the same view, for the dialog's copy-edit-commit
    /// protocol.
    pub fn duplicate(&self) -> (r: TotpCode)
        ensures
            r@ == self@,
    {
        let name = clone_chars(&self.name);
        let raw_secret = match &self.raw_secret {
            Some(v) => Some(clone_chars(v)),
            None => None,
        };
        let secret = clone_bytes(&self.secret);
        let cached_codes = match &self.cached_codes {
            Some(c) => Some(
                CachedCodes { window: c.window, current: c.current.clone(), next: c.next.clone() },
            ),
            None => None,
        };
        let r = TotpCode {
            name,
            raw_secret,
            algorithm: self.algorithm,
            digits: self.digits,
            skew: self.skew,
            step: self.step,
            secret,
            cached_codes,
            delete: self.delete,
        };
        proof {
            assert(r@ == self@);
        }
        r
    }

    /// The single text the editing dialog shows for the secret: the
    /// verbatim fallback when one is kept, else the canonical base32
    /// encoding of the secret bytes.
    pub fn get_secret_string(&self) -> (r: Vec<char>)
        ensures
            r@ == match self@.raw_secret {
                Some(t) => t,
                None => base32_encoded(self@.secret),
            },
    {
        match &self.raw_secret {
            Some(raw) => clone_chars(raw),
            None => {
                let encoded = encode_base32(&self.secret);
                text::str_to_chars(encoded.as_str())
            },
        }
    }

    /// Commit a secret text: when it is the canonical base32 form of
    /// some bytes the record keeps only those bytes; otherwise the text
    /// itself is kept verbatim and its UTF-8 bytes feed the code
    /// computation directly, so reopening the editor always shows
    /// exactly the committed text.
    pub fn set_secret_string(&mut self, secret: Vec<char>)
        ensures
            final(self)@ == (TotpCodeView {
                cached_codes: old(self)@.cached_codes,
                ..committed_totp(old(self)@, secret@)
            }),
    {
        let text_form = text::chars_to_string(&secret);
        let mut canonical: Option<Vec<u8>> = None;
        match decode_base32(&text_form) {
            Some(bytes) => {
                let reencoded = encode_base32(&bytes);
                if reencoded == text_form {
                    canonical = Some(bytes);
                }
            },
            None => {},
        }
        match canonical {
            Some(bytes) => {
                self.raw_secret = None;
                self.secret = bytes;
            },
            None => {
                self.secret = text_form.as_str().as_bytes_vec();
                self.raw_secret = Some(secret);
            },
        }
    }

    /// Refresh the cache for `window`. A contiguous advance reuses the
    /// cached next code and computes only one new code; any other
    /// transition recomputes both. Either way the cache afterwards holds
    /// exactly the from-scratch pair for `window`.
    pub fn refresh_at(&mut self, window: u64)
        requires
            totp_wf(old(self)@),
            cache_coherent(old(self)@),
            (window + 1) * old(self)@.step <= u64::MAX,
        ensures
            final(self)@ == (TotpCodeView {
                cached_codes: Some(
                    (CachedCodesView {
                        window,
                        current: code_for(old(self)@, window as int),
                        next: code_for(old(self)@, window as int + 1),
                    }),
                ),
                ..old(self)@
            }),
    {
        proof {
            let st = old(self)@.step as int;
            let w = window as int;
            assert(w + 1 <= (w + 1) * st && w * st <= (w + 1) * st) by (nonlinear_arith)
                requires
                    st > 0,
                    w >= 0,
            ;
        }
        let mut shifted: Option<String> = None;
        if let Some(c) = &self.cached_codes {
            if window > 0 && c.window == window - 1 {
                shifted = Some(c.next.clone());
            }
        }
        let current: String = match shifted {
            Some(s) => s,
            None => generate_code(
                self.algorithm,
                &self.secret,
                self.digits,
                self.step,
                window * self.step,
            ),
        };
        let next: String = generate_code(
            self.algorithm,
            &self.secret,
            self.digits,
            self.step,
            (window + 1) * self.step,
        );
        self.cached_codes = Some(CachedCodes { window, current, next });
    }

    /// The code to show: the cached next or current code, or the
    /// placeholder when nothing was computed yet.
    pub fn get_code(&self, next: bool) -> (r: String)
        ensures
            r@ == match self@.cached_codes {
                Some(c) => if next {
                    c.next
                } else {
                    c.current
                },
                None => "------"@,
            },
    {
        match &self.cached_codes {
            Some(c) => if next {
                c.next.clone()
            } else {
                c.current.clone()
            },
            None => "------".to_owned(),
        }
    }
}

/// Relies on `std::time::SystemTime::now` and `duration_since` from the
/// Unix epoch: the clock reading in whole seconds. Nothing is promised
/// of the clock; callers state what holds for every reading.
#[verifier::external_body]
fn unix_time_secs() -> (r: u64)
    ensures
        r >= 0,
{
    match std::time::SystemTime::now().duration_since(std::time::UNIX_EPOCH) {
        Ok(d) => d.as_secs(),
        Err(_) => 0,
    }
}

impl TotpCode {
    /// Recompute the cached code pair from the clock, as the
    /// non-interactive print mode does. Whatever the clock read, the
    /// cache afterwards holds the codes of one window, and nothing else
    /// changed.
    pub fn calculate_codes(&mut self)
        requires
            totp_wf(old(self)@),
            cache_coherent(old(self)@),
        ensures
            cache_coherent(final(self)@),
            final(self)@ == (TotpCodeView { cached_codes: final(self)@.cached_codes, ..old(self)@ }),
            final(self)@.cached_codes is Some || final(self)@.cached_codes == old(
                self,
            )@.cached_codes,
    {
        let now = unix_time_secs();
        if now <= u64::MAX - self.step {
            let window = now / self.step;
            proof {
                let st = self@.step as int;
                let w = window as int;
                vstd::arithmetic::div_mod::lemma_fundamental_div_mod(now as int, st);
                assert((w + 1) * st == w * st + st) by (nonlinear_arith);
                assert(st * (now as int / st) == (now as int / st) * st) by (nonlinear_arith);
            }
            self.refresh_at(window);
        }
    }
}

/// The single text the editing dialog shows for a record.
pub open spec fn secret_text_of(t: TotpCodeView) -> Seq<char> {
    match t.raw_secret {
        Some(raw) => raw,
        None => base32_encoded(t.secret),
    }
}

/// Committing a secret text and reopening the editor reproduces exactly
/// the text the user last typed, on both branches: the canonical branch
/// is taken only when re-encoding gives the text back, and the fallback
/// branch keeps it verbatim.
pub proof fn lemma_secret_round_trip(t: TotpCodeView, text: Seq<char>)
    ensures
        secret_text_of(committed_totp(t, text)) == text,
{
}

/// The two display groups of a code: the first `digits / 2` characters
/// and the rest, so an odd digit count biases the shorter half to the
/// front.
pub fn code_halves(code: &String, digits: usize) -> (r: (String, String))
    requires
        code@.len() == digits,
    ensures
        r.0@ == code@.subrange(0, digits as int / 2),
        r.1@ == code@.subrange(digits as int / 2, digits as int),
{
    let half = digits / 2;
    let first = code.as_str().substring_char(0, half).to_owned();
    let second = code.as_str().substring_char(half, digits).to_owned();
    (first, second)
}

/// A copy of a code-point buffer with the same view.
pub fn clone_chars(v: &Vec<char>) -> (r: Vec<char>)
    ensures
        r@ == v@,
{
    let r = v.clone();
    proof {
        assert(r@ =~= v@);
    }
    r
}

/// A copy of a byte vector with the same view.
pub fn clone_bytes(v: &Vec<u8>) -> (r: Vec<u8>)
    ensures
        r@ == v@,
{
    let r = v.clone();
    proof {
        assert(r@ =~= v@);
    }
    r
}

} // verus!
