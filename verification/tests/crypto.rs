use chola_controller::crypto::{
    generate_key, generate_registration_token, sha256_hex, verify_github_signature,
};

#[test]
fn sha256_of_abc() {
    assert_eq!(
        sha256_hex("abc"),
        "ba7816bf8f01cfea414140de5dae2223b00361a396177a9cb410ff61f20015ad"
    );
}

#[test]
fn sha256_of_empty() {
    assert_eq!(
        sha256_hex(""),
        "e3b0c44298fc1c149afbf4c8996fb92427ae41e4649b934ca495991b7852b855"
    );
}

#[test]
fn api_key_shape() {
    let k = generate_key().expect("random source");
    assert!(k.starts_with("chola_"));
    assert_eq!(k.len(), 6 + 40);
    assert!(k[6..].chars().all(|c| c.is_ascii_hexdigit() && !c.is_ascii_uppercase()));
    assert_ne!(generate_key().expect("random source"), k);
}

#[test]
fn registration_token_shape() {
    let k = generate_registration_token().expect("random source");
    assert!(k.starts_with("chola_reg_"));
    assert_eq!(k.len(), 10 + 64);
}

// HMAC-SHA256 test vector of RFC 4231 with the key "Jefe".
const SIG: &str = "5bdcc146bf60754e6a042426089575c75a003f089d2739839dec58b964ec3843";

#[test]
fn github_signature_accepted() {
    let body = b"what do ya want for nothing?";
    assert!(verify_github_signature("Jefe", body, &format!("sha256={SIG}")));
    assert!(verify_github_signature("Jefe", body, SIG));
}

#[test]
fn github_signature_rejected() {
    let body = b"what do ya want for nothing?";
    assert!(!verify_github_signature("jefe", body, &format!("sha256={SIG}")));
    assert!(!verify_github_signature("Jefe", b"other", &format!("sha256={SIG}")));
    assert!(!verify_github_signature("Jefe", body, "sha256=zz"));
}

#[test]
fn worker_token_and_its_hash() {
    let (token, hash) = chola_controller::crypto::generate_worker_token().expect("random source");
    assert!(token.starts_with("chola_wkr_"));
    assert_eq!(token.len(), 10 + 64);
    assert_eq!(hash, sha256_hex(&token));
    assert_eq!(hash.len(), 64);
}

#[test]
fn keys_from_given_bytes() {
    let b: Vec<u8> = (0u8..20).collect();
    assert_eq!(
        chola_controller::crypto::api_key_from_bytes(&b),
        "chola_000102030405060708090a0b0c0d0e0f10111213"
    );
    let b32 = vec![0xabu8; 32];
    let t = chola_controller::crypto::registration_token_from_bytes(&b32);
    assert_eq!(t, format!("chola_reg_{}", "ab".repeat(32)));
    let (w, h) = chola_controller::crypto::worker_token_from_bytes(&b32);
    assert_eq!(w, format!("chola_wkr_{}", "ab".repeat(32)));
    assert_eq!(h, sha256_hex(&w));
}
