//! Nonces and the policy built from them.

use base64::{engine::general_purpose::STANDARD, Engine as _};
use forma::csp::{build_csp_header, generate_csp_nonce};

#[test]
fn nonce_is_unique() {
    let a = generate_csp_nonce().unwrap();
    let b = generate_csp_nonce().unwrap();
    assert_ne!(a, b);
}

#[test]
fn nonce_is_base64() {
    let nonce = generate_csp_nonce().unwrap();
    assert_eq!(nonce.len(), 44); // 32 bytes -> 44 base64 chars
    assert!(STANDARD.decode(&nonce).is_ok());
}

#[test]
fn csp_contains_nonce() {
    let nonce = generate_csp_nonce().unwrap();
    let csp = build_csp_header(&nonce);
    assert!(csp.contains(&format!("'nonce-{nonce}'")));
}

#[test]
fn csp_is_strict() {
    let csp = build_csp_header("test");
    assert!(csp.contains("default-src 'none'"));
    assert!(!csp.contains("unsafe-inline"));
    assert!(!csp.contains("unsafe-eval"));
}
