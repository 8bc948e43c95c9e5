use rend::auth::{
    address_from_pubkey, bump_nonce, check_headers, check_nonce, check_signer, message_hash, org_path, parse_sig,
    path_org, recover_address, Eoa, HeaderText, NonceResult,
};

#[test]
fn round_trip_sign_recover() {
    let wallet = Eoa::new();
    let body = br#"{"hello":"world"}"#;
    let sig = wallet.sign("POST", "/v1/orgs/0xabc/tx", 7, body);
    let recovered = recover_address("POST", "/v1/orgs/0xabc/tx", 7, body, &sig).unwrap();
    assert_eq!(recovered, wallet.address());
}

#[test]
fn tampered_body_breaks_recovery() {
    let wallet = Eoa::new();
    let sig = wallet.sign("POST", "/p", 1, b"original");
    let recovered = recover_address("POST", "/p", 1, b"tampered", &sig);
    assert!(recovered.map_or(true, |a| a != wallet.address()));
}

#[test]
fn changed_nonce_breaks_recovery() {
    let wallet = Eoa::new();
    let sig = wallet.sign("POST", "/p", 1, b"x");
    let recovered = recover_address("POST", "/p", 2, b"x", &sig);
    assert!(recovered.map_or(true, |a| a != wallet.address()));
}

#[test]
fn from_secret_is_deterministic() {
    let secret = [42u8; 32];
    let a = Eoa::from_secret(secret);
    let b = Eoa::from_secret(secret);
    assert_eq!(a.address(), b.address());
}

#[test]
fn path_org_parses_v1_segments() {
    assert_eq!(path_org("/v1/orgs/0xabc/tx"), Some("0xabc".to_string()));
    assert_eq!(path_org("/v1/orgs/0xdeadbeef/artifacts/abcd"), Some("0xdeadbeef".to_string()));
    assert_eq!(path_org("/v1/orgs"), None);
    assert_eq!(path_org("/healthz"), None);
    assert_eq!(path_org("/v2/orgs/0x/tx"), None);
}

#[test]
fn path_org_edges() {
    assert_eq!(path_org("///v1/orgs/a"), Some("a".to_string()));
    assert_eq!(path_org("v1/orgs/"), Some(String::new()));
    assert_eq!(path_org("/v1//orgs/a"), None);
    assert_eq!(path_org(""), None);
    assert_eq!(path_org(&org_path("0xAb", "tx")), Some("0xAb".to_string()));
}

#[test]
fn address_of_secret_one() {
    let mut secret = [0u8; 32];
    secret[31] = 1;
    let w = Eoa::from_secret(secret);
    assert_eq!(w.address_hex(), "0x7e5f4552091a69125d5dfcb7b8c2659029395bdf");
}

#[test]
fn address_of_a_public_key() {
    let mut key = [0u8; 65];
    key[0] = 4;
    assert_eq!(hex::encode(address_from_pubkey(&key)), "3f17f1962b36e491b30a40b2405849e597ba5fb5");
}

#[test]
fn bad_secrets_are_refused() {
    assert!(Eoa::try_from_secret([0u8; 32]).is_none());
    assert!(Eoa::try_from_secret([0xff; 32]).is_none());
    assert!(Eoa::try_from_secret([1u8; 32]).is_some());
}

#[test]
fn hashes_depend_on_every_part() {
    let h = message_hash("POST", "/p", 1, b"x");
    assert_ne!(h, message_hash("GET", "/p", 1, b"x"));
    assert_ne!(h, message_hash("POST", "/q", 1, b"x"));
    assert_ne!(h, message_hash("POST", "/p", 2, b"x"));
    assert_ne!(h, message_hash("POST", "/p", 1, b"y"));
    assert_eq!(h, message_hash("POST", "/p", 1, b"x"));
}

#[test]
fn signature_headers() {
    let e = |h: HeaderText| parse_sig(&h).unwrap_err();
    assert_eq!(e(HeaderText::Missing), "missing X-Rend-Sig");
    assert_eq!(e(HeaderText::Opaque), "X-Rend-Sig must be ASCII");
    assert_eq!(e(HeaderText::Text("0xzz".to_string())), "X-Rend-Sig is not valid hex");
    assert_eq!(e(HeaderText::Text("0xabc".to_string())), "X-Rend-Sig is not valid hex");
    assert_eq!(e(HeaderText::Text("0xabcd".to_string())), "X-Rend-Sig must be 65 bytes, got 2");
    let sig = Eoa::new().sign("GET", "/", 1, b"");
    let text = HeaderText::Text(hex::encode_upper(sig));
    assert_eq!(parse_sig(&text).unwrap(), sig);
}

#[test]
fn nonce_headers() {
    let sig = Eoa::new().sign("GET", "/", 1, b"");
    let s = HeaderText::Text(format!("0x{}", hex::encode(sig)));
    let good = |t: &str| check_headers(&s, &HeaderText::Text(t.to_string()));
    assert_eq!(good("17").unwrap(), (sig, 17));
    assert_eq!(good("+5").unwrap().1, 5);
    assert_eq!(good("18446744073709551615").unwrap().1, u64::MAX);
    for t in ["", "+", "-1", "18446744073709551616", "1a", " 1"] {
        let r = good(t).unwrap_err();
        assert_eq!(r.status, 401);
        assert_eq!(r.msg, "missing or malformed X-Rend-Nonce");
    }
    let r = check_headers(&HeaderText::Missing, &HeaderText::Missing).unwrap_err();
    assert_eq!(r.msg, "missing X-Rend-Sig");
}

#[test]
fn own_organisation_is_admitted() {
    let w = Eoa::new();
    let path = org_path(&w.address_hex(), "tx");
    let sig = w.sign("POST", &path, 3, b"{}");
    assert_eq!(check_signer("POST", &path, 3, b"{}", &sig).unwrap(), w.address());
}

#[test]
fn organisation_is_written_in_lower_case() {
    let w = Eoa::from_secret([42u8; 32]);
    let org = w.address_hex().to_uppercase().replace("0X", "0x");
    assert_ne!(org, w.address_hex());
    let path = org_path(&org, "tx");
    let sig = w.sign("POST", &path, 3, b"{}");
    let r = check_signer("POST", &path, 3, b"{}", &sig).unwrap_err();
    assert_eq!(r.status, 401);
    assert_eq!(r.msg, format!("signature recovers to {}, not org {org}", w.address_hex()));
}

#[test]
fn other_organisations_are_refused() {
    let w = Eoa::new();
    let sig = w.sign("POST", "/v1/orgs/0xabc/tx", 3, b"{}");
    let r = check_signer("POST", "/v1/orgs/0xabc/tx", 3, b"{}", &sig).unwrap_err();
    assert_eq!(r.status, 401);
    assert_eq!(r.msg, format!("signature recovers to {}, not org 0xabc", w.address_hex()));
    let sig = w.sign("GET", "/healthz", 3, b"");
    let r = check_signer("GET", "/healthz", 3, b"", &sig).unwrap_err();
    assert_eq!(r.msg, "no org segment in path");
    let mut broken = sig;
    broken[64] = 9;
    let r = check_signer("GET", "/healthz", 3, b"", &broken).unwrap_err();
    assert_eq!(r.msg, "signature recovery failed");
}

#[test]
fn nonces_only_grow() {
    let mut stored: Option<u64> = None;
    assert_eq!(bump_nonce(&mut stored, 5), NonceResult::Bumped);
    assert_eq!(bump_nonce(&mut stored, 5), NonceResult::TooLow { stored: 5 });
    assert_eq!(bump_nonce(&mut stored, 4), NonceResult::TooLow { stored: 5 });
    assert_eq!(bump_nonce(&mut stored, 9), NonceResult::Bumped);
    assert_eq!(stored, Some(9));
}

#[test]
fn nonce_answers() {
    assert!(check_nonce(Some(NonceResult::Bumped), 1).is_ok());
    let r = check_nonce(Some(NonceResult::TooLow { stored: 8 }), 7).unwrap_err();
    assert_eq!((r.status, r.msg.as_str()), (401, "nonce too low: submitted 7, stored 8"));
    let r = check_nonce(None, 7).unwrap_err();
    assert_eq!((r.status, r.msg.as_str()), (500, "nonce store error"));
}

#[test]
fn a_request_is_admitted_once() {
    let w = Eoa::new();
    let path = org_path(&w.address_hex(), "tx");
    let sig = HeaderText::Text(format!("0x{}", hex::encode(w.sign("POST", &path, 3, b"{}"))));
    let nonce = HeaderText::Text("3".to_string());
    let mut stored: Option<u64> = None;
    let mut meet = || {
        let (s, n) = check_headers(&sig, &nonce)?;
        check_signer("POST", &path, n, b"{}", &s)?;
        check_nonce(Some(bump_nonce(&mut stored, n)), n)
    };
    assert!(meet().is_ok());
    assert_eq!(meet().unwrap_err().status, 401);
}
