use passrs::codec::{parse_store, serialize_store};
use passrs::crypto::{derive_key, open_bytes, seal_bytes};
use passrs::persist::{load_store, save_store, store_from_bytes, store_to_bytes, LoadError};
use passrs::store::{Password, Passwords};
use passrs::text::{chars_to_string, str_to_chars};
use passrs::totp::TotpCode;

fn sample_store() -> Passwords {
    let mut store = Passwords::empty();
    store.pass.push(Password {
        name: str_to_chars("a"),
        password: str_to_chars("b"),
        delete: false,
    });
    let mut t = TotpCode::new();
    t.name = str_to_chars("t");
    t.secret = vec![1, 2];
    store.totp.push(t);
    store.ui_colour = 3;
    store
}

#[test]
fn serializer_emits_the_compact_canonical_form() {
    let json = chars_to_string(&serialize_store(&sample_store()));
    let expected = "{\"pass\":[{\"name\":\"a\",\"password\":\"b\"}],\"totp\":[{\"name\":\"t\",\"data\":{\"algorithm\":\"SHA1\",\"digits\":6,\"skew\":0,\"step\":30,\"secret\":[1,2]}}],\"ui_colour\":3}";
    assert_eq!(json, expected);
}

#[test]
fn serializer_escapes_controls_quotes_and_backslashes() {
    let mut store = Passwords::empty();
    store.pass.push(Password {
        name: str_to_chars("a\"b\\c\nd\u{1}e"),
        password: str_to_chars("p"),
        delete: false,
    });
    let json = chars_to_string(&serialize_store(&store));
    assert!(json.contains("a\\\"b\\\\c\\nd\\u0001e"));
    let back = parse_store(&str_to_chars(&json)).unwrap();
    assert_eq!(chars_to_string(&back.pass[0].name), "a\"b\\c\nd\u{1}e");
}

#[test]
fn parser_reads_the_canonical_form_back() {
    let store = sample_store();
    let json = serialize_store(&store);
    let back = parse_store(&json).unwrap();
    assert_eq!(back.pass.len(), 1);
    assert_eq!(chars_to_string(&back.pass[0].name), "a");
    assert_eq!(chars_to_string(&back.pass[0].password), "b");
    assert_eq!(back.totp.len(), 1);
    assert_eq!(chars_to_string(&back.totp[0].name), "t");
    assert_eq!(back.totp[0].secret, vec![1, 2]);
    assert_eq!(back.totp[0].digits, 6);
    assert_eq!(back.totp[0].step, 30);
    assert_eq!(back.ui_colour, 3);
}

#[test]
fn parser_accepts_raw_secret_and_unicode_escapes() {
    let json = "{\"pass\":[],\"totp\":[{\"name\":\"\\u00e9\\ud834\\udd1e\",\"raw_secret\":\"not base32!\",\"data\":{\"algorithm\":\"SHA256\",\"digits\":8,\"skew\":1,\"step\":60,\"secret\":[255,0]}}],\"ui_colour\":0}";
    let back = parse_store(&str_to_chars(json)).unwrap();
    let t = &back.totp[0];
    assert_eq!(chars_to_string(&t.name), "é𝄞");
    assert_eq!(chars_to_string(t.raw_secret.as_ref().unwrap()), "not base32!");
    assert_eq!(t.digits, 8);
    assert_eq!(t.skew, 1);
    assert_eq!(t.step, 60);
    assert_eq!(t.secret, vec![255, 0]);
}

#[test]
fn parser_defaults_a_missing_theme_index() {
    let back = parse_store(&str_to_chars("{\"pass\":[],\"totp\":[]}")).unwrap();
    assert_eq!(back.ui_colour, 0);
}

#[test]
fn parser_rejects_malformed_documents() {
    assert!(parse_store(&str_to_chars("")).is_none());
    assert!(parse_store(&str_to_chars("{\"pass\":[],\"totp\":[]}x")).is_none());
    assert!(parse_store(&str_to_chars("{\"pass\":[],\"totp\":[],\"ui_colour\":01}")).is_none());
    assert!(parse_store(&str_to_chars("{\"pass\":[{\"name\":\"a\"}],\"totp\":[]}")).is_none());
}

#[test]
fn byte_round_trip_preserves_the_store() {
    let mut store = sample_store();
    store.pass[0].delete = true;
    store.compact();
    let bytes = store_to_bytes(&store);
    let back = store_from_bytes(bytes).unwrap();
    assert_eq!(back.pass.len(), 0);
    assert_eq!(back.totp.len(), 1);
    assert_eq!(chars_to_string(&back.totp[0].name), "t");
}

#[test]
fn derive_key_truncates_or_pads_to_32_bytes() {
    let short = derive_key(&b"hunter2".to_vec());
    let mut expect = b"hunter2".to_vec();
    expect.resize(32, 0);
    assert_eq!(short, expect);

    let long: Vec<u8> = (0u8..50).collect();
    let cut = derive_key(&long);
    assert_eq!(cut, (0u8..32).collect::<Vec<u8>>());
}

#[test]
fn seal_then_open_reproduces_plaintext() {
    let key = derive_key(&b"hunter2".to_vec());
    let plaintext = b"attack at dawn".to_vec();
    let sealed = seal_bytes(&key, &plaintext).unwrap();
    assert_eq!(open_bytes(&key, &sealed).unwrap(), plaintext);

    let other = derive_key(&b"hunter3".to_vec());
    assert!(open_bytes(&other, &sealed).is_none());
}

#[test]
fn save_then_load_round_trips_through_the_cipher() {
    let store = sample_store();
    let key = derive_key(&b"hunter2".to_vec());
    let sealed = save_store(&store, Some(&key)).unwrap();
    let back = load_store(sealed, Some(&key)).unwrap();
    assert_eq!(chars_to_string(&back.pass[0].name), "a");
    assert_eq!(back.ui_colour, 3);
}

#[test]
fn wrong_password_fails_with_decryption_error() {
    let store = sample_store();
    let key = derive_key(&b"right".to_vec());
    let sealed = save_store(&store, Some(&key)).unwrap();
    let sealed_copy = sealed.clone();
    let wrong = derive_key(&b"wrong".to_vec());
    match load_store(sealed, Some(&wrong)) {
        Err(LoadError::Decryption) => {},
        _ => panic!("expected a decryption failure"),
    }
    // Nothing was overwritten: the on-disk bytes are untouched, and the
    // right key still opens them.
    assert!(load_store(sealed_copy, Some(&key)).is_ok());
}

#[test]
fn unparseable_plaintext_fails_with_parse_error() {
    match load_store(b"not json".to_vec(), None) {
        Err(LoadError::Parse) => {},
        _ => panic!("expected a parse failure"),
    }
}
