//! The canonical vault serialization: exact bytes, escaping, round trips,
//! strictness, and agreement with an independent JSON reader.

use jpassword::credentials::{Credential, Credentials};
use jpassword::vault_codec::{decode_vault, encode_vault};

fn cred(name: &str, url: &str, username: &str, password: &str) -> Credential {
    Credential {
        name: name.to_string(),
        url: url.to_string(),
        username: username.to_string(),
        password: password.to_string(),
    }
}

fn vault(entries: Vec<Credential>) -> Credentials {
    Credentials { credentials: entries }
}

fn assert_same_vault(a: &Credentials, b: &Credentials) {
    assert_eq!(a.credentials.len(), b.credentials.len());
    for (x, y) in a.credentials.iter().zip(b.credentials.iter()) {
        assert_eq!(x.name, y.name);
        assert_eq!(x.url, y.url);
        assert_eq!(x.username, y.username);
        assert_eq!(x.password, y.password);
    }
}

#[test]
fn encode_empty_vault() {
    let bytes = encode_vault(&Credentials::new());
    assert_eq!(bytes, b"{\"credentials\":[]}".to_vec());
}

#[test]
fn encode_one_credential_exact_bytes() {
    let v = vault(vec![cred("site", "http://x", "a", "p")]);
    let expected =
        b"{\"credentials\":[{\"name\":\"site\",\"url\":\"http://x\",\"username\":\"a\",\"password\":\"p\"}]}";
    assert_eq!(encode_vault(&v), expected.to_vec());
}

#[test]
fn encode_two_credentials_comma_separated() {
    let v = vault(vec![cred("a", "", "", ""), cred("b", "", "", "")]);
    let expected = b"{\"credentials\":[{\"name\":\"a\",\"url\":\"\",\"username\":\"\",\"password\":\"\"},{\"name\":\"b\",\"url\":\"\",\"username\":\"\",\"password\":\"\"}]}";
    assert_eq!(encode_vault(&v), expected.to_vec());
}

#[test]
fn encode_escapes_specials() {
    let v = vault(vec![cred("a\"b", "c\\d", "e\nf", "g\th")]);
    let expected = b"{\"credentials\":[{\"name\":\"a\\\"b\",\"url\":\"c\\\\d\",\"username\":\"e\\nf\",\"password\":\"g\\th\"}]}";
    assert_eq!(encode_vault(&v), expected.to_vec());
}

#[test]
fn encode_escapes_control_byte_as_hex() {
    let v = vault(vec![cred("\u{1}", "\u{1f}", "\u{8}", "\u{c}")]);
    let expected = b"{\"credentials\":[{\"name\":\"\\u0001\",\"url\":\"\\u001f\",\"username\":\"\\b\",\"password\":\"\\f\"}]}";
    assert_eq!(encode_vault(&v), expected.to_vec());
}

#[test]
fn encode_matches_serde_json_on_unicode() {
    // serde_json passes non-ASCII through as UTF-8; so does the encoder.
    let v = vault(vec![cred("p\u{e4}ss w\u{f6}rd \u{2603}", "", "", "")]);
    let bytes = encode_vault(&v);
    let text = String::from_utf8(bytes).unwrap();
    assert_eq!(
        text,
        "{\"credentials\":[{\"name\":\"p\u{e4}ss w\u{f6}rd \u{2603}\",\"url\":\"\",\"username\":\"\",\"password\":\"\"}]}"
    );
}

#[test]
fn decode_encode_round_trip_multi() {
    let v = vault(vec![
        cred("site", "http://x", "a", "p"),
        cred("a\"b\\c\nd", "\u{1}\u{2}", "p\u{e4}ss \u{2603} \u{1f512}", ""),
        cred("", "", "", "\r\x0b\x7f"),
    ]);
    let bytes = encode_vault(&v);
    let back = decode_vault(&bytes).expect("canonical encoding must decode");
    assert_same_vault(&v, &back);
}

#[test]
fn decode_encode_round_trip_empty() {
    let bytes = encode_vault(&Credentials::new());
    let back = decode_vault(&bytes).expect("canonical encoding must decode");
    assert_eq!(back.credentials.len(), 0);
}

#[test]
fn decode_rejects_garbage() {
    assert!(decode_vault(&b"".to_vec()).is_none());
    assert!(decode_vault(&b"null".to_vec()).is_none());
    assert!(decode_vault(&b"{\"credentials\":".to_vec()).is_none());
    assert!(decode_vault(&b"{\"credentials\":[".to_vec()).is_none());
    assert!(decode_vault(&b"{\"credentials\":[]".to_vec()).is_none());
    assert!(decode_vault(&b"{\"credentials\":{}}".to_vec()).is_none());
}

#[test]
fn decode_rejects_trailing_bytes() {
    let mut bytes = encode_vault(&Credentials::new());
    bytes.push(b' ');
    assert!(decode_vault(&bytes).is_none());
}

#[test]
fn decode_rejects_truncation() {
    let v = vault(vec![cred("site", "http://x", "a", "p")]);
    let bytes = encode_vault(&v);
    for len in 0..bytes.len() {
        let cut = bytes[..len].to_vec();
        assert!(decode_vault(&cut).is_none(), "prefix of length {} decoded", len);
    }
}

#[test]
fn decode_rejects_non_canonical_forms() {
    // Whitespace, reordered keys, uppercase hex and needless \u escapes are
    // all outside the canonical form this decoder answers for.
    let cases: Vec<&[u8]> = vec![
        b"{\"credentials\": []}",
        b"{ \"credentials\":[]}",
        b"{\"credentials\":[{\"url\":\"\",\"name\":\"\",\"username\":\"\",\"password\":\"\"}]}",
        b"{\"credentials\":[{\"name\":\"\\u0041\",\"url\":\"\",\"username\":\"\",\"password\":\"\"}]}",
        b"{\"credentials\":[{\"name\":\"\\u001F\",\"url\":\"\",\"username\":\"\",\"password\":\"\"}]}",
        b"{\"credentials\":[{\"name\":\"\\u000a\",\"url\":\"\",\"username\":\"\",\"password\":\"\"}]}",
    ];
    for case in cases {
        assert!(decode_vault(&case.to_vec()).is_none());
    }
}

#[test]
fn decode_rejects_invalid_utf8_content() {
    let mut bytes = b"{\"credentials\":[{\"name\":\"".to_vec();
    bytes.push(0xFF);
    bytes.extend_from_slice(b"\",\"url\":\"\",\"username\":\"\",\"password\":\"\"}]}");
    assert!(decode_vault(&bytes).is_none());
}

#[test]
fn decode_rejects_bare_control_byte() {
    let mut bytes = b"{\"credentials\":[{\"name\":\"".to_vec();
    bytes.push(0x01);
    bytes.extend_from_slice(b"\",\"url\":\"\",\"username\":\"\",\"password\":\"\"}]}");
    assert!(decode_vault(&bytes).is_none());
}

#[test]
fn serde_json_reads_the_encoding() {
    let v = vault(vec![cred("site", "http://x", "a\"b\n", "p\u{e4}ss")]);
    let bytes = encode_vault(&v);
    let value: serde_json::Value = serde_json::from_slice(&bytes).unwrap();
    let entry = &value["credentials"][0];
    assert_eq!(entry["name"], serde_json::Value::String("site".to_string()));
    assert_eq!(entry["url"], serde_json::Value::String("http://x".to_string()));
    assert_eq!(entry["username"], serde_json::Value::String("a\"b\n".to_string()));
    assert_eq!(entry["password"], serde_json::Value::String("p\u{e4}ss".to_string()));
    assert_eq!(value["credentials"].as_array().unwrap().len(), 1);
}
