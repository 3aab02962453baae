use ofscp_transport::signing::{
    construct_signature_base, generate_keypair, normalize_actor_id, sign_request_at,
    sign_ws_request_at, verify_signature, KeyPair, OFSCPSignature, WsAuthParams, HEADER_ACTOR,
    HEADER_SIGNATURE, HEADER_TIMESTAMP,
};

const EMPTY_SHA256_HEX: &str = "e3b0c44298fc1c149afbf4c8996fb92427ae41e4649b934ca495991b7852b855";

fn acknowledged_keys() -> KeyPair {
    let mut keys = generate_keypair();
    keys.key_id = Some("key-1".to_string());
    keys
}

#[test]
fn canonical_string_layout() {
    let base = construct_signature_base("GET", "/api/ws", "2024-01-01T00:00:00+00:00", &[]);
    assert_eq!(
        base,
        format!("GET\n/api/ws\n2024-01-01T00:00:00+00:00\n{}", EMPTY_SHA256_HEX)
    );
}

#[test]
fn canonical_string_hashes_body() {
    // sha256("abc") is a fixed, well-known digest
    let base = construct_signature_base("POST", "/api/messages", "t", b"abc");
    assert_eq!(
        base,
        "POST\n/api/messages\nt\nba7816bf8f01cfea414140de5dae2223b00361a396177a9cb410ff61f20015ad"
    );
}

#[test]
fn signing_is_deterministic_in_its_inputs() {
    let keys = acknowledged_keys();
    let h1 = sign_request_at("POST", "/api/x", b"body", &keys, "alice", "example.com", "ts-0")
        .expect("signing with an acknowledged key id must produce headers");
    let h2 = sign_request_at("POST", "/api/x", b"body", &keys, "alice", "example.com", "ts-0")
        .expect("second signing must also succeed");
    assert_eq!(h1, h2);
    assert_eq!(h1.actor, "@alice@example.com");
    assert_eq!(h1.key_id, "key-1");
    assert_eq!(h1.timestamp, "ts-0");
}

#[test]
fn fresh_signature_verifies_under_matching_public_key() {
    let keys = acknowledged_keys();
    let ts = "2024-05-06T07:08:09+00:00";
    let h = sign_request_at("PUT", "/api/me/presence", b"{}", &keys, "bob", "example.org", ts)
        .expect("signing must succeed");
    let canonical = construct_signature_base("PUT", "/api/me/presence", ts, b"{}");
    assert_eq!(
        verify_signature(&keys.public_key, &h.signature, canonical.as_bytes()),
        Ok(())
    );
}

#[test]
fn tampered_message_fails_verification() {
    let keys = acknowledged_keys();
    let ts = "2024-05-06T07:08:09+00:00";
    let h = sign_request_at("PUT", "/api/me/presence", b"{}", &keys, "bob", "example.org", ts)
        .expect("signing must succeed");
    let tampered = construct_signature_base("PUT", "/api/me/presence", ts, b"{ }");
    assert!(verify_signature(&keys.public_key, &h.signature, tampered.as_bytes()).is_err());
}

#[test]
fn missing_key_id_produces_no_headers() {
    let keys = generate_keypair();
    assert!(keys.key_id.is_none());
    let r = sign_request_at("GET", "/api/x", &[], &keys, "alice", "example.com", "ts");
    assert!(r.is_none());
}

#[test]
fn invalid_base64_signature_is_rejected() {
    let keys = acknowledged_keys();
    assert_eq!(
        verify_signature(&keys.public_key, "!!not-base64!!", b"m"),
        Err("Invalid base64 signature".to_string())
    );
}

#[test]
fn wrong_length_key_is_rejected() {
    assert_eq!(
        verify_signature("aGk=", "AAAA", b"m"),
        Err("Invalid signature length".to_string())
    );
}

#[test]
fn ws_auth_params_percent_encode_the_actor() {
    let p = WsAuthParams {
        actor: "@alice@example.com".to_string(),
        key_id: "key/1".to_string(),
        timestamp: "2024-01-01T00:00:00+00:00".to_string(),
        signature: "c2ln".to_string(),
    };
    assert_eq!(
        p.to_query_string(),
        "actor=%40alice%40example.com&timestamp=2024-01-01T00%3A00%3A00%2B00%3A00&keyId=key%2F1&signature=c2ln"
    );
}

#[test]
fn ws_handshake_signature_matches_http_get_of_empty_body() {
    let keys = acknowledged_keys();
    let ts = "2024-02-02T00:00:00+00:00";
    let ws = sign_ws_request_at("/api/ws", &keys, "alice", "example.com", ts)
        .expect("handshake signing must succeed");
    let http = sign_request_at("GET", "/api/ws", &[], &keys, "alice", "example.com", ts)
        .expect("request signing must succeed");
    assert_eq!(ws.signature, http.signature);
    assert_eq!(ws.actor, "@alice@example.com");
}

#[test]
fn header_names_are_fixed() {
    assert_eq!(HEADER_SIGNATURE, "X-OFSCP-Signature");
    assert_eq!(HEADER_ACTOR, "X-OFSCP-Actor");
    assert_eq!(HEADER_TIMESTAMP, "X-OFSCP-Timestamp");
}

#[test]
fn signature_header_round_trips() {
    let sig = OFSCPSignature {
        key_id: "key-1".to_string(),
        signature: "QUJD".to_string(),
    };
    let value = sig.to_header_value();
    assert_eq!(value, "keyId=\"key-1\", signature=\"QUJD\"");
    let parsed = OFSCPSignature::parse(&value).expect("canonical header must parse");
    assert_eq!(parsed, sig);
}

#[test]
fn signature_header_missing_fields() {
    assert_eq!(
        OFSCPSignature::parse("signature=\"QUJD\""),
        Err("Missing keyId in signature header".to_string())
    );
    assert_eq!(
        OFSCPSignature::parse("keyId=\"key-1\""),
        Err("Missing signature in signature header".to_string())
    );
}

#[test]
fn actor_id_reduces_to_handle() {
    assert_eq!(normalize_actor_id("@alice@example.com"), "alice");
    assert_eq!(normalize_actor_id("plain"), "plain");
}

#[test]
fn generated_keypairs_differ() {
    let a = generate_keypair();
    let b = generate_keypair();
    assert_ne!(a.private_key, b.private_key);
}
