use login_ng_broker::handshake::{SessionPrelude, TOKEN_LEN};

fn sample() -> SessionPrelude {
    SessionPrelude { public_key: "-----BEGIN RSA PUBLIC KEY-----\r\nAB\r\n".to_string(), token: (0u8..40).collect() }
}

#[test]
fn wire_text_is_hex_token_then_key() {
    let text = sample().to_wire();
    assert_eq!(
        text,
        "000102030405060708090a0b0c0d0e0f101112131415161718191a1b1c1d1e1f2021222324252627\n-----BEGIN RSA PUBLIC KEY-----\r\nAB\r\n"
    );
}

#[test]
fn wire_text_reads_back() {
    let p = SessionPrelude { public_key: "key".to_string(), token: vec![0xff; TOKEN_LEN] };
    let q = SessionPrelude::from_wire(&p.to_wire()).unwrap();
    assert_eq!(q.token, p.token);
    assert_eq!(q.public_key, "key");
    let r = SessionPrelude::from_wire(&sample().to_wire()).unwrap();
    assert_eq!(r.token, sample().token);
    assert_eq!(r.public_key, sample().public_key);
}

#[test]
fn malformed_wire_text_is_refused() {
    assert!(SessionPrelude::from_wire("").is_none());
    assert!(SessionPrelude::from_wire("00\nkey").is_none());
    let upper = format!("{}\nkey", "AB".repeat(40));
    assert!(SessionPrelude::from_wire(&upper).is_none());
    let no_newline = format!("{} key", "ab".repeat(40));
    assert!(SessionPrelude::from_wire(&no_newline).is_none());
    let empty_key = format!("{}\n", "ab".repeat(40));
    let p = SessionPrelude::from_wire(&empty_key).unwrap();
    assert_eq!(p.token, vec![0xab; 40]);
    assert_eq!(p.public_key, "");
}
