use edr_agent::policy::{
    canonical_policy_bytes, load_and_verify_policy, parse_signed_policy, signed_policy_bytes,
    PolicyError, RawPolicy, SignedPolicy,
};
use ed25519_dalek::Signer;

fn sample_policy() -> RawPolicy {
    RawPolicy {
        collection_interval: 5,
        endpoint_role: "server".to_string(),
        mode: "forensic".to_string(),
    }
}

fn signed_doc_for(policy: RawPolicy) -> (Vec<u8>, String, String) {
    let sk = ed25519_dalek::SigningKey::from_bytes(&[7u8; 32]);
    let msg = canonical_policy_bytes(&policy);
    let sig = sk.sign(&msg);
    let sig_hex = hex::encode(sig.to_bytes());
    let pk_hex = hex::encode(sk.verifying_key().to_bytes());
    let sp = SignedPolicy {
        policy,
        signature: sig_hex.clone(),
        pubkey: pk_hex.clone(),
    };
    (signed_policy_bytes(&sp), sig_hex, pk_hex)
}

#[test]
fn canonical_bytes_are_exact() {
    let bytes = canonical_policy_bytes(&sample_policy());
    assert_eq!(
        bytes,
        b"{\"collection_interval\":5,\"endpoint_role\":\"server\",\"mode\":\"forensic\"}".to_vec()
    );
}

#[test]
fn canonical_bytes_are_deterministic() {
    let a = canonical_policy_bytes(&sample_policy());
    let b = canonical_policy_bytes(&sample_policy());
    assert_eq!(a, b);
}

#[test]
fn valid_signature_is_accepted() {
    let (doc, _, _) = signed_doc_for(sample_policy());
    match load_and_verify_policy(&doc) {
        Ok(p) => {
            assert_eq!(p.collection_interval, 5);
            assert_eq!(p.endpoint_role, "server");
            assert_eq!(p.mode, "forensic");
        }
        Err(_) => panic!("valid policy rejected"),
    }
}

#[test]
fn reserialized_policy_reverifies() {
    let (doc, sig_hex, pk_hex) = signed_doc_for(sample_policy());
    let p = match load_and_verify_policy(&doc) {
        Ok(p) => p,
        Err(_) => panic!("valid policy rejected"),
    };
    let rebuilt = signed_policy_bytes(&SignedPolicy {
        policy: p,
        signature: sig_hex,
        pubkey: pk_hex,
    });
    assert_eq!(rebuilt, doc);
    assert!(load_and_verify_policy(&rebuilt).is_ok());
}

#[test]
fn mutated_policy_bytes_are_rejected() {
    let (mut doc, _, _) = signed_doc_for(sample_policy());
    // flip the interval digit 5 -> 6 inside the signed region
    let pos = doc.iter().position(|&b| b == b'5').unwrap();
    doc[pos] = b'6';
    match load_and_verify_policy(&doc) {
        Err(PolicyError::SignatureInvalid) => {}
        _ => panic!("mutated policy not rejected as SignatureInvalid"),
    }
}

#[test]
fn mutated_signature_is_rejected() {
    let (doc, sig_hex, pk_hex) = signed_doc_for(sample_policy());
    let mut sig2 = sig_hex.clone().into_bytes();
    sig2[0] = if sig2[0] == b'0' { b'1' } else { b'0' };
    let sp = SignedPolicy {
        policy: sample_policy(),
        signature: String::from_utf8(sig2).unwrap(),
        pubkey: pk_hex,
    };
    let doc2 = signed_policy_bytes(&sp);
    assert_ne!(doc2, doc);
    match load_and_verify_policy(&doc2) {
        Err(PolicyError::SignatureInvalid) => {}
        _ => panic!("mutated signature not rejected"),
    }
}

#[test]
fn wrong_public_key_is_rejected() {
    let (_, sig_hex, _) = signed_doc_for(sample_policy());
    let other = ed25519_dalek::SigningKey::from_bytes(&[9u8; 32]);
    let sp = SignedPolicy {
        policy: sample_policy(),
        signature: sig_hex,
        pubkey: hex::encode(other.verifying_key().to_bytes()),
    };
    match load_and_verify_policy(&signed_policy_bytes(&sp)) {
        Err(PolicyError::SignatureInvalid) => {}
        _ => panic!("wrong key not rejected"),
    }
}

#[test]
fn truncated_hex_is_rejected() {
    let (_, sig_hex, pk_hex) = signed_doc_for(sample_policy());
    let mut short = sig_hex.clone();
    short.pop();
    let sp = SignedPolicy {
        policy: sample_policy(),
        signature: short,
        pubkey: pk_hex,
    };
    match load_and_verify_policy(&signed_policy_bytes(&sp)) {
        Err(PolicyError::SignatureInvalid) => {}
        _ => panic!("truncated hex not rejected"),
    }
}

#[test]
fn malformed_document_is_parse_error() {
    match load_and_verify_policy(b"{\"policy\": not json") {
        Err(PolicyError::Parse) => {}
        _ => panic!("malformed document not a parse error"),
    }
    match load_and_verify_policy(b"") {
        Err(PolicyError::Parse) => {}
        _ => panic!("empty document not a parse error"),
    }
    // whitespace breaks the canonical form
    let (doc, _, _) = signed_doc_for(sample_policy());
    let mut spaced = Vec::new();
    spaced.extend_from_slice(&doc[..1]);
    spaced.push(b' ');
    spaced.extend_from_slice(&doc[1..]);
    match load_and_verify_policy(&spaced) {
        Err(PolicyError::Parse) => {}
        _ => panic!("non-canonical document not a parse error"),
    }
}

#[test]
fn parse_round_trip_returns_fields() {
    let (doc, sig_hex, pk_hex) = signed_doc_for(sample_policy());
    let sp = parse_signed_policy(&doc).expect("canonical document must parse");
    assert_eq!(sp.policy.collection_interval, 5);
    assert_eq!(sp.policy.endpoint_role, "server");
    assert_eq!(sp.policy.mode, "forensic");
    assert_eq!(sp.signature, sig_hex);
    assert_eq!(sp.pubkey, pk_hex);
}
