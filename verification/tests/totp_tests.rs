use passrs::text::{chars_to_string, str_to_chars};
use passrs::totp::{code_halves, TotpCode};

const RFC_SEED_BASE32: &str = "GEZDGNBVGY3TQOJQGEZDGNBVGY3TQOJQ";

fn reference_record() -> TotpCode {
    let mut rec = TotpCode::new();
    rec.set_secret_string(str_to_chars(RFC_SEED_BASE32));
    rec
}

#[test]
fn totp_reference_vector_six_digits() {
    // The standard reference secret (the ASCII digits "1234567890"
    // twice); at 59 seconds after the epoch the SHA-1 code is 94287082,
    // so the six-digit form is its low six digits.
    let mut rec = reference_record();
    assert_eq!(rec.secret, b"12345678901234567890".to_vec());
    rec.refresh_at(59 / 30);
    assert_eq!(rec.get_code(false), "287082".to_string());
}

#[test]
fn totp_placeholder_before_any_computation() {
    let rec = TotpCode::new();
    assert_eq!(rec.get_code(false), "------".to_string());
    assert_eq!(rec.get_code(true), "------".to_string());
}

#[test]
fn totp_contiguous_shift_equals_recompute() {
    let mut shifted = reference_record();
    shifted.refresh_at(1);
    shifted.refresh_at(2);

    let mut scratch = reference_record();
    scratch.refresh_at(2);

    assert_eq!(shifted.get_code(false), scratch.get_code(false));
    assert_eq!(shifted.get_code(true), scratch.get_code(true));
}

#[test]
fn totp_next_code_becomes_current() {
    let mut rec = reference_record();
    rec.refresh_at(7);
    let next = rec.get_code(true);
    rec.refresh_at(8);
    assert_eq!(rec.get_code(false), next);
}

#[test]
fn totp_backward_jump_recomputes() {
    let mut rec = reference_record();
    rec.refresh_at(5);
    let five = rec.get_code(false);
    rec.refresh_at(9);
    rec.refresh_at(5);
    assert_eq!(rec.get_code(false), five);
}

#[test]
fn totp_secret_canonical_round_trip() {
    let mut rec = TotpCode::new();
    rec.set_secret_string(str_to_chars("MFRGG"));
    assert_eq!(rec.secret, b"abc".to_vec());
    assert!(rec.raw_secret.is_none());
    assert_eq!(chars_to_string(&rec.get_secret_string()), "MFRGG");
}

#[test]
fn totp_secret_noncanonical_base32_kept_verbatim() {
    // "M" decodes (to no bytes at all), but re-encoding gives the empty
    // text, not "M": the typed text must survive, so it is kept verbatim.
    let mut rec = TotpCode::new();
    rec.set_secret_string(str_to_chars("M"));
    assert!(rec.raw_secret.is_some());
    assert_eq!(rec.secret, b"M".to_vec());
    assert_eq!(chars_to_string(&rec.get_secret_string()), "M");
}

#[test]
fn totp_secret_fallback_round_trip() {
    let mut rec = TotpCode::new();
    rec.set_secret_string(str_to_chars("hello world!"));
    assert!(rec.raw_secret.is_some());
    assert_eq!(rec.secret, b"hello world!".to_vec());
    assert_eq!(chars_to_string(&rec.get_secret_string()), "hello world!");
}

#[test]
fn totp_code_halves_bias_shorter_front() {
    let code = "1234567".to_string();
    let (a, b) = code_halves(&code, 7);
    assert_eq!(a, "123".to_string());
    assert_eq!(b, "4567".to_string());
    let code6 = "287082".to_string();
    let (a6, b6) = code_halves(&code6, 6);
    assert_eq!(a6, "287".to_string());
    assert_eq!(b6, "082".to_string());
}

#[test]
fn totp_calculate_codes_fills_cache() {
    let mut rec = reference_record();
    rec.calculate_codes();
    assert!(rec.cached_codes.is_some());
    let code = rec.get_code(false);
    assert_eq!(code.len(), 6);
    assert!(code.chars().all(|c| c.is_ascii_digit()));
}
