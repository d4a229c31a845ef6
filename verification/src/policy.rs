use vstd::prelude::*;
use vstd::utf8::encode_utf8;
use crate::json::{
    spec_dec, spec_json_string, spec_plain_seq, lemma_plain_escape_id,
    push_dec, push_json_string, push_lit, parse_dec, parse_plain_string, eat,
};
use crate::keys::{
    spec_policy_open, push_policy_open, spec_interval_open, push_interval_open,
    spec_role_key, push_role_key, spec_mode_key, push_mode_key,
    spec_signature_key, push_signature_key, spec_pubkey_key, push_pubkey_key,
};
use crate::hexcode::{spec_is_hex, spec_hex_decode, hex_decode};

verus! {

/// The operator-issued configuration that gates the agent.
pub struct RawPolicy {
    pub collection_interval: u64,
    pub endpoint_role: String,
    pub mode: String,
}

/// The on-disk form: a policy together with its hex-encoded Ed25519
/// signature and public key.
pub struct SignedPolicy {
    pub policy: RawPolicy,
    pub signature: String,
    pub pubkey: String,
}

/// Why a policy failed to load. Only these errors may stop the agent.
#[derive(Debug, PartialEq, Eq, Structural)]
pub enum PolicyError {
    Io,
    Parse,
    SignatureInvalid,
}

/// Canonical serialization of a policy: fixed key order, no whitespace.
pub open spec fn spec_policy_json(iv: nat, role: Seq<u8>, mode: Seq<u8>) -> Seq<u8> {
    spec_interval_open() + spec_dec(iv) + spec_role_key() + spec_json_string(role)
        + spec_mode_key() + spec_json_string(mode) + seq![0x7du8]
}

/// Canonical bytes of a policy value, over the UTF-8 bytes of its fields.
pub open spec fn spec_policy_bytes(p: RawPolicy) -> Seq<u8> {
    spec_policy_json(
        p.collection_interval as nat,
        encode_utf8(p.endpoint_role@),
        encode_utf8(p.mode@),
    )
}

/// Canonical serialization of a whole signed-policy document.
pub open spec fn spec_signed_doc(iv: nat, role: Seq<u8>, mode: Seq<u8>, sig: Seq<u8>, pk: Seq<u8>) -> Seq<u8> {
    spec_policy_open() + spec_policy_json(iv, role, mode) + spec_signature_key()
        + spec_json_string(sig) + spec_pubkey_key() + spec_json_string(pk) + seq![0x7du8]
}

/// The document a parsed value came from.
pub open spec fn spec_doc_of(sp: SignedPolicy) -> Seq<u8> {
    spec_signed_doc(
        sp.policy.collection_interval as nat,
        encode_utf8(sp.policy.endpoint_role@),
        encode_utf8(sp.policy.mode@),
        encode_utf8(sp.signature@),
        encode_utf8(sp.pubkey@),
    )
}

/// A candidate reading of `blob`: plain-ASCII fields whose canonical
/// document is exactly `blob`.
#[verifier::opaque]
pub open spec fn spec_cand(blob: Seq<u8>, iv: u64, role: Seq<u8>, mode: Seq<u8>, sig: Seq<u8>, pk: Seq<u8>) -> bool {
    &&& spec_plain_seq(role)
    &&& spec_plain_seq(mode)
    &&& spec_plain_seq(sig)
    &&& spec_plain_seq(pk)
    &&& blob == spec_signed_doc(iv as nat, role, mode, sig, pk)
}

/// `s` is the canonical document of some policy with plain-ASCII fields.
pub open spec fn spec_is_canonical_doc(s: Seq<u8>) -> bool {
    exists|iv: u64, role: Seq<u8>, mode: Seq<u8>, sig: Seq<u8>, pk: Seq<u8>|
        #[trigger] spec_cand(s, iv, role, mode, sig, pk)
}

/// Writes the canonical serialization of `p`, the exact bytes that are
/// signed and verified. The output depends on the policy value alone, so
/// serialization is deterministic.
pub fn canonical_policy_bytes(p: &RawPolicy) -> (r: Vec<u8>)
    ensures
        r@ == spec_policy_bytes(*p),
{
    let mut out: Vec<u8> = Vec::new();
    push_interval_open(&mut out);
    push_dec(&mut out, p.collection_interval);
    push_role_key(&mut out);
    push_json_string(&mut out, p.endpoint_role.as_str().as_bytes());
    push_mode_key(&mut out);
    push_json_string(&mut out, p.mode.as_str().as_bytes());
    out.push(0x7d);
    proof {
        assert(out@ =~= spec_policy_bytes(*p));
    }
    out
}

/// Writes the canonical signed-policy document for `p` under the given
/// hex signature and public key, as a signing tool would emit it.
pub fn signed_policy_bytes(sp: &SignedPolicy) -> (r: Vec<u8>)
    ensures
        r@ == spec_doc_of(*sp),
{
    let mut out: Vec<u8> = Vec::new();
    push_policy_open(&mut out);
    let body = canonical_policy_bytes(&sp.policy);
    push_lit(&mut out, body.as_slice());
    push_signature_key(&mut out);
    push_json_string(&mut out, sp.signature.as_str().as_bytes());
    push_pubkey_key(&mut out);
    push_json_string(&mut out, sp.pubkey.as_str().as_bytes());
    out.push(0x7d);
    proof {
        assert(out@ =~= spec_doc_of(*sp));
    }
    out
}

#[verifier::rlimit(100)]
#[verifier::spinoff_prover]
proof fn lemma_doc_segments(s: Seq<u8>, iv: u64, role: Seq<u8>, mode: Seq<u8>, sig: Seq<u8>, pk: Seq<u8>)
    requires
        spec_cand(s, iv, role, mode, sig, pk),
    ensures
        ({
            let d = spec_dec(iv as nat).len() as int;
            let r = role.len() as int;
            let m = mode.len() as int;
            let g = sig.len() as int;
            let k = pk.len() as int;
            &&& s.len() == 91 + d + r + m + g + k
            &&& s.subrange(0, 10) == spec_policy_open()
            &&& s.subrange(10, 33) == spec_interval_open()
            &&& s.subrange(33, 33 + d) == spec_dec(iv as nat)
            &&& s.subrange(33 + d, 50 + d) == spec_role_key()
            &&& s.subrange(50 + d, 52 + d + r) == spec_json_string(role)
            &&& s.subrange(52 + d + r, 60 + d + r) == spec_mode_key()
            &&& s.subrange(60 + d + r, 62 + d + r + m) == spec_json_string(mode)
            &&& s.subrange(62 + d + r + m, 63 + d + r + m) == seq![0x7du8]
            &&& s.subrange(63 + d + r + m, 76 + d + r + m) == spec_signature_key()
            &&& s.subrange(76 + d + r + m, 78 + d + r + m + g) == spec_json_string(sig)
            &&& s.subrange(78 + d + r + m + g, 88 + d + r + m + g) == spec_pubkey_key()
            &&& s.subrange(88 + d + r + m + g, 90 + d + r + m + g + k) == spec_json_string(pk)
            &&& s.subrange(90 + d + r + m + g + k, 91 + d + r + m + g + k) == seq![0x7du8]
            &&& s[33 + d] == 0x2c
            &&& spec_plain_seq(role)
            &&& spec_plain_seq(mode)
            &&& spec_plain_seq(sig)
            &&& spec_plain_seq(pk)
        }),
{
    reveal(spec_cand);
    lemma_plain_escape_id(role);
    lemma_plain_escape_id(mode);
    lemma_plain_escape_id(sig);
    lemma_plain_escape_id(pk);
    let d = spec_dec(iv as nat).len() as int;
    let r = role.len() as int;
    let m = mode.len() as int;
    let g = sig.len() as int;
    let k = pk.len() as int;
    assert(spec_json_string(role).len() == 2 + r);
    assert(spec_json_string(mode).len() == 2 + m);
    assert(spec_json_string(sig).len() == 2 + g);
    assert(spec_json_string(pk).len() == 2 + k);
    assert(s.subrange(0, 10) =~= spec_policy_open());
    assert(s.subrange(10, 33) =~= spec_interval_open());
    assert(s.subrange(33, 33 + d) =~= spec_dec(iv as nat));
    assert(s.subrange(33 + d, 50 + d) =~= spec_role_key());
    assert(s.subrange(50 + d, 52 + d + r) =~= spec_json_string(role));
    assert(s.subrange(52 + d + r, 60 + d + r) =~= spec_mode_key());
    assert(s.subrange(60 + d + r, 62 + d + r + m) =~= spec_json_string(mode));
    assert(s.subrange(62 + d + r + m, 63 + d + r + m) =~= seq![0x7du8]);
    assert(s.subrange(63 + d + r + m, 76 + d + r + m) =~= spec_signature_key());
    assert(s.subrange(76 + d + r + m, 78 + d + r + m + g) =~= spec_json_string(sig));
    assert(s.subrange(78 + d + r + m + g, 88 + d + r + m + g) =~= spec_pubkey_key());
    assert(s.subrange(88 + d + r + m + g, 90 + d + r + m + g + k) =~= spec_json_string(pk));
    assert(s.subrange(90 + d + r + m + g + k, 91 + d + r + m + g + k) =~= seq![0x7du8]);
    assert(s[33 + d] == spec_role_key()[0]);
}

#[verifier::rlimit(100)]
#[verifier::spinoff_prover]
proof fn lemma_head_assemble(
    s: Seq<u8>, iv: u64, role: Seq<u8>, mode: Seq<u8>,
    p1: int, p2: int, p3: int, p4: int, p5: int, p6: int, p7: int, p8: int,
)
    requires
        0 <= p1 <= p2 <= p3 <= p4 <= p5 <= p6 <= p7 <= p8 <= s.len(),
        s.subrange(0, p1) == spec_policy_open(),
        s.subrange(p1, p2) == spec_interval_open(),
        s.subrange(p2, p3) == spec_dec(iv as nat),
        s.subrange(p3, p4) == spec_role_key(),
        s.subrange(p4, p5) == spec_json_string(role),
        s.subrange(p5, p6) == spec_mode_key(),
        s.subrange(p6, p7) == spec_json_string(mode),
        s.subrange(p7, p8) == seq![0x7du8],
    ensures
        s.subrange(0, p8) == spec_policy_open() + spec_policy_json(iv as nat, role, mode),
{
    let head = spec_policy_open() + spec_policy_json(iv as nat, role, mode);
    assert(spec_json_string(role).len() == p5 - p4);
    assert(spec_json_string(mode).len() == p7 - p6);
    assert(spec_dec(iv as nat).len() == p3 - p2);
    assert(head.len() == p8);
    assert forall|j: int| 0 <= j < p8 implies s[j] == head[j] by {
        if j < p1 {
            assert(s.subrange(0, p1)[j] == s[j]);
            assert(head[j] == spec_policy_open()[j]);
        } else if j < p2 {
            assert(s.subrange(p1, p2)[j - p1] == s[j]);
            assert(head[j] == spec_interval_open()[j - p1]);
        } else if j < p3 {
            assert(s.subrange(p2, p3)[j - p2] == s[j]);
            assert(head[j] == spec_dec(iv as nat)[j - p2]);
        } else if j < p4 {
            assert(s.subrange(p3, p4)[j - p3] == s[j]);
            assert(head[j] == spec_role_key()[j - p3]);
        } else if j < p5 {
            assert(s.subrange(p4, p5)[j - p4] == s[j]);
            assert(head[j] == spec_json_string(role)[j - p4]);
        } else if j < p6 {
            assert(s.subrange(p5, p6)[j - p5] == s[j]);
            assert(head[j] == spec_mode_key()[j - p5]);
        } else if j < p7 {
            assert(s.subrange(p6, p7)[j - p6] == s[j]);
            assert(head[j] == spec_json_string(mode)[j - p6]);
        } else {
            assert(s.subrange(p7, p8)[j - p7] == s[j]);
            assert(head[j] == 0x7d);
        }
    }
    assert(s.subrange(0, p8) =~= head);
}

#[verifier::rlimit(100)]
#[verifier::spinoff_prover]
proof fn lemma_full_assemble(
    s: Seq<u8>, iv: u64, role: Seq<u8>, mode: Seq<u8>, sig: Seq<u8>, pk: Seq<u8>,
    pa: int, p8: int, p9: int, p10: int, p11: int, p12: int,
)
    requires
        0 <= pa <= p8 <= p9 <= p10 <= p11 <= p12,
        p12 == s.len(),
        s.subrange(0, pa) == spec_policy_open() + spec_policy_json(iv as nat, role, mode),
        s.subrange(pa, p8) == spec_signature_key(),
        s.subrange(p8, p9) == spec_json_string(sig),
        s.subrange(p9, p10) == spec_pubkey_key(),
        s.subrange(p10, p11) == spec_json_string(pk),
        s.subrange(p11, p12) == seq![0x7du8],
    ensures
        s == spec_signed_doc(iv as nat, role, mode, sig, pk),
{
    let doc = spec_signed_doc(iv as nat, role, mode, sig, pk);
    let head = spec_policy_open() + spec_policy_json(iv as nat, role, mode);
    assert(head.len() == pa);
    assert(spec_json_string(sig).len() == p9 - p8);
    assert(spec_json_string(pk).len() == p11 - p10);
    assert(doc.len() == p12);
    assert forall|j: int| 0 <= j < s.len() implies s[j] == doc[j] by {
        if j < pa {
            assert(s.subrange(0, pa)[j] == s[j]);
            if j < 10 {
                assert(head[j] == spec_policy_open()[j]);
                assert(doc[j] == spec_policy_open()[j]);
            } else {
                assert(head[j] == spec_policy_json(iv as nat, role, mode)[j - 10]);
                assert(doc[j] == spec_policy_json(iv as nat, role, mode)[j - 10]);
            }
        } else if j < p8 {
            assert(s.subrange(pa, p8)[j - pa] == s[j]);
            assert(doc[j] == spec_signature_key()[j - pa]);
        } else if j < p9 {
            assert(s.subrange(p8, p9)[j - p8] == s[j]);
            assert(doc[j] == spec_json_string(sig)[j - p8]);
        } else if j < p10 {
            assert(s.subrange(p9, p10)[j - p9] == s[j]);
            assert(doc[j] == spec_pubkey_key()[j - p9]);
        } else if j < p11 {
            assert(s.subrange(p10, p11)[j - p10] == s[j]);
            assert(doc[j] == spec_json_string(pk)[j - p10]);
        } else {
            assert(s.subrange(p11, p12)[j - p11] == s[j]);
            assert(doc[j] == 0x7d);
        }
    }
    assert(s =~= doc);
}

/// Reads the policy object at the head of a canonical signed-policy
/// document, through its closing brace.
#[verifier::rlimit(100)]
#[verifier::spinoff_prover]
fn parse_policy_head(blob: &[u8]) -> (r: Option<(RawPolicy, usize)>)
    ensures
        r matches Some(t) ==> {
            &&& t.1 <= blob@.len()
            &&& blob@.subrange(0, t.1 as int) == spec_policy_open() + spec_policy_bytes(t.0)
            &&& spec_plain_seq(encode_utf8(t.0.endpoint_role@))
            &&& spec_plain_seq(encode_utf8(t.0.mode@))
        },
        forall|iv: u64, role: Seq<u8>, mode: Seq<u8>, sig: Seq<u8>, pk: Seq<u8>|
            #[trigger] spec_cand(blob@, iv, role, mode, sig, pk)
            ==> (r matches Some(t) && t.0.collection_interval == iv
                && encode_utf8(t.0.endpoint_role@) == role
                && encode_utf8(t.0.mode@) == mode
                && t.1 == 63 + spec_dec(iv as nat).len() + role.len() + mode.len()),
{
    let mut lit_po: Vec<u8> = Vec::new();
    push_policy_open(&mut lit_po);
    let mut lit_io: Vec<u8> = Vec::new();
    push_interval_open(&mut lit_io);
    let mut lit_role: Vec<u8> = Vec::new();
    push_role_key(&mut lit_role);
    let mut lit_mode: Vec<u8> = Vec::new();
    push_mode_key(&mut lit_mode);
    let mut lit_rb: Vec<u8> = Vec::new();
    lit_rb.push(0x7d);
    proof {
        assert(lit_rb@ =~= seq![0x7du8]);
    }
    let p1 = match eat(blob, 0, &lit_po) {
        Some(p) => p,
        None => {
            proof {
                assert forall|iv: u64, role: Seq<u8>, mode: Seq<u8>, sig: Seq<u8>, pk: Seq<u8>|
                    #[trigger] spec_cand(blob@, iv, role, mode, sig, pk) implies false by {
                    lemma_doc_segments(blob@, iv, role, mode, sig, pk);
                }
            }
            return None;
        },
    };
    let p2 = match eat(blob, p1, &lit_io) {
        Some(p) => p,
        None => {
            proof {
                assert forall|iv: u64, role: Seq<u8>, mode: Seq<u8>, sig: Seq<u8>, pk: Seq<u8>|
                    #[trigger] spec_cand(blob@, iv, role, mode, sig, pk) implies false by {
                    lemma_doc_segments(blob@, iv, role, mode, sig, pk);
                }
            }
            return None;
        },
    };
    let (iv, p3) = match parse_dec(blob, p2) {
        Some(t) => t,
        None => {
            proof {
                assert forall|iv2: u64, role: Seq<u8>, mode: Seq<u8>, sig: Seq<u8>, pk: Seq<u8>|
                    #[trigger] spec_cand(blob@, iv2, role, mode, sig, pk) implies false by {
                    lemma_doc_segments(blob@, iv2, role, mode, sig, pk);
                }
            }
            return None;
        },
    };
    let p4 = match eat(blob, p3, &lit_role) {
        Some(p) => p,
        None => {
            proof {
                assert forall|iv2: u64, role: Seq<u8>, mode: Seq<u8>, sig: Seq<u8>, pk: Seq<u8>|
                    #[trigger] spec_cand(blob@, iv2, role, mode, sig, pk) implies false by {
                    lemma_doc_segments(blob@, iv2, role, mode, sig, pk);
                }
            }
            return None;
        },
    };
    let (role_s, p5) = match parse_plain_string(blob, p4) {
        Some(t) => t,
        None => {
            proof {
                assert forall|iv2: u64, role: Seq<u8>, mode: Seq<u8>, sig: Seq<u8>, pk: Seq<u8>|
                    #[trigger] spec_cand(blob@, iv2, role, mode, sig, pk) implies false by {
                    lemma_doc_segments(blob@, iv2, role, mode, sig, pk);
                }
            }
            return None;
        },
    };
    let p6 = match eat(blob, p5, &lit_mode) {
        Some(p) => p,
        None => {
            proof {
                assert forall|iv2: u64, role: Seq<u8>, mode: Seq<u8>, sig: Seq<u8>, pk: Seq<u8>|
                    #[trigger] spec_cand(blob@, iv2, role, mode, sig, pk) implies false by {
                    lemma_doc_segments(blob@, iv2, role, mode, sig, pk);
                }
            }
            return None;
        },
    };
    let (mode_s, p7) = match parse_plain_string(blob, p6) {
        Some(t) => t,
        None => {
            proof {
                assert forall|iv2: u64, role: Seq<u8>, mode: Seq<u8>, sig: Seq<u8>, pk: Seq<u8>|
                    #[trigger] spec_cand(blob@, iv2, role, mode, sig, pk) implies false by {
                    lemma_doc_segments(blob@, iv2, role, mode, sig, pk);
                }
            }
            return None;
        },
    };
    let p8 = match eat(blob, p7, &lit_rb) {
        Some(p) => p,
        None => {
            proof {
                assert forall|iv2: u64, role: Seq<u8>, mode: Seq<u8>, sig: Seq<u8>, pk: Seq<u8>|
                    #[trigger] spec_cand(blob@, iv2, role, mode, sig, pk) implies false by {
                    lemma_doc_segments(blob@, iv2, role, mode, sig, pk);
                }
            }
            return None;
        },
    };
    let p = RawPolicy {
        collection_interval: iv,
        endpoint_role: role_s,
        mode: mode_s,
    };
    proof {
        lemma_head_assemble(
            blob@, iv, encode_utf8(p.endpoint_role@), encode_utf8(p.mode@),
            p1 as int, p2 as int, p3 as int, p4 as int, p5 as int, p6 as int, p7 as int, p8 as int,
        );
        assert forall|iv2: u64, role: Seq<u8>, mode: Seq<u8>, sig: Seq<u8>, pk: Seq<u8>|
            #[trigger] spec_cand(blob@, iv2, role, mode, sig, pk)
            implies iv2 == iv && role == encode_utf8(p.endpoint_role@)
                && mode == encode_utf8(p.mode@)
                && p8 == 63 + spec_dec(iv2 as nat).len() + role.len() + mode.len() by {
            lemma_doc_segments(blob@, iv2, role, mode, sig, pk);
        }
    }
    Some((p, p8))
}

/// Reads the canonical signed-policy document. Succeeds exactly on the
/// canonical serialization of a signed policy whose strings are plain
/// ASCII, and then returns exactly that policy, signature and key.
#[verifier::rlimit(100)]
#[verifier::spinoff_prover]
pub fn parse_signed_policy(blob: &[u8]) -> (r: Option<SignedPolicy>)
    ensures
        r matches Some(sp) ==> {
            &&& blob@ == spec_doc_of(sp)
            &&& spec_cand(blob@, sp.policy.collection_interval,
                    encode_utf8(sp.policy.endpoint_role@), encode_utf8(sp.policy.mode@),
                    encode_utf8(sp.signature@), encode_utf8(sp.pubkey@))
        },
        forall|iv: u64, role: Seq<u8>, mode: Seq<u8>, sig: Seq<u8>, pk: Seq<u8>|
            #[trigger] spec_cand(blob@, iv, role, mode, sig, pk)
            ==> (r matches Some(sp) && sp.policy.collection_interval == iv
                && encode_utf8(sp.policy.endpoint_role@) == role
                && encode_utf8(sp.policy.mode@) == mode
                && encode_utf8(sp.signature@) == sig
                && encode_utf8(sp.pubkey@) == pk),
{
    let mut lit_sig: Vec<u8> = Vec::new();
    push_signature_key(&mut lit_sig);
    let mut lit_pk: Vec<u8> = Vec::new();
    push_pubkey_key(&mut lit_pk);
    let mut lit_rb: Vec<u8> = Vec::new();
    lit_rb.push(0x7d);
    proof {
        assert(lit_rb@ =~= seq![0x7du8]);
    }
    let (pol, pa) = match parse_policy_head(blob) {
        Some(t) => t,
        None => {
            return None;
        },
    };
    let p8 = match eat(blob, pa, &lit_sig) {
        Some(p) => p,
        None => {
            proof {
                assert forall|iv2: u64, role: Seq<u8>, mode: Seq<u8>, sig: Seq<u8>, pk: Seq<u8>|
                    #[trigger] spec_cand(blob@, iv2, role, mode, sig, pk) implies false by {
                    lemma_doc_segments(blob@, iv2, role, mode, sig, pk);
                }
            }
            return None;
        },
    };
    let (sig_s, p9) = match parse_plain_string(blob, p8) {
        Some(t) => t,
        None => {
            proof {
                assert forall|iv2: u64, role: Seq<u8>, mode: Seq<u8>, sig: Seq<u8>, pk: Seq<u8>|
                    #[trigger] spec_cand(blob@, iv2, role, mode, sig, pk) implies false by {
                    lemma_doc_segments(blob@, iv2, role, mode, sig, pk);
                }
            }
            return None;
        },
    };
    let p10 = match eat(blob, p9, &lit_pk) {
        Some(p) => p,
        None => {
            proof {
                assert forall|iv2: u64, role: Seq<u8>, mode: Seq<u8>, sig: Seq<u8>, pk: Seq<u8>|
                    #[trigger] spec_cand(blob@, iv2, role, mode, sig, pk) implies false by {
                    lemma_doc_segments(blob@, iv2, role, mode, sig, pk);
                }
            }
            return None;
        },
    };
    let (pk_s, p11) = match parse_plain_string(blob, p10) {
        Some(t) => t,
        None => {
            proof {
                assert forall|iv2: u64, role: Seq<u8>, mode: Seq<u8>, sig: Seq<u8>, pk: Seq<u8>|
                    #[trigger] spec_cand(blob@, iv2, role, mode, sig, pk) implies false by {
                    lemma_doc_segments(blob@, iv2, role, mode, sig, pk);
                }
            }
            return None;
        },
    };
    let p12 = match eat(blob, p11, &lit_rb) {
        Some(p) => p,
        None => {
            proof {
                assert forall|iv2: u64, role: Seq<u8>, mode: Seq<u8>, sig: Seq<u8>, pk: Seq<u8>|
                    #[trigger] spec_cand(blob@, iv2, role, mode, sig, pk) implies false by {
                    lemma_doc_segments(blob@, iv2, role, mode, sig, pk);
                }
            }
            return None;
        },
    };
    if p12 != blob.len() {
        proof {
            assert forall|iv2: u64, role: Seq<u8>, mode: Seq<u8>, sig: Seq<u8>, pk: Seq<u8>|
                #[trigger] spec_cand(blob@, iv2, role, mode, sig, pk) implies false by {
                lemma_doc_segments(blob@, iv2, role, mode, sig, pk);
            }
        }
        return None;
    }
    let sp = SignedPolicy {
        policy: pol,
        signature: sig_s,
        pubkey: pk_s,
    };
    proof {
        lemma_full_assemble(
            blob@, sp.policy.collection_interval,
            encode_utf8(sp.policy.endpoint_role@), encode_utf8(sp.policy.mode@),
            encode_utf8(sp.signature@), encode_utf8(sp.pubkey@),
            pa as int, p8 as int, p9 as int, p10 as int, p11 as int, p12 as int,
        );
        reveal(spec_cand);
        assert forall|iv2: u64, role: Seq<u8>, mode: Seq<u8>, sig: Seq<u8>, pk: Seq<u8>|
            #[trigger] spec_cand(blob@, iv2, role, mode, sig, pk)
            implies iv2 == sp.policy.collection_interval
                && role == encode_utf8(sp.policy.endpoint_role@)
                && mode == encode_utf8(sp.policy.mode@)
                && sig == encode_utf8(sp.signature@)
                && pk == encode_utf8(sp.pubkey@) by {
            lemma_doc_segments(blob@, iv2, role, mode, sig, pk);
        }
    }
    Some(sp)
}


/// Whether the Ed25519 verification of a policy document's parts goes
/// through: both hex fields decode, to a 32-byte key and a 64-byte
/// signature, and the signature verifies over the canonical policy bytes.
pub open spec fn spec_sig_ok(iv: u64, role: Seq<u8>, mode: Seq<u8>, sig_hex: Seq<u8>, pk_hex: Seq<u8>) -> bool {
    &&& spec_is_hex(pk_hex)
    &&& spec_hex_decode(pk_hex).len() == 32
    &&& spec_is_hex(sig_hex)
    &&& spec_hex_decode(sig_hex).len() == 64
    &&& spec_ed25519_valid(
        spec_hex_decode(pk_hex),
        spec_policy_json(iv as nat, role, mode),
        spec_hex_decode(sig_hex),
    )
}

/// The returned policy `p` is witnessed in `blob`: some plain signature
/// and key fields complete it to exactly `blob`, and they verify.
pub open spec fn spec_ok_witness(blob: Seq<u8>, p: RawPolicy) -> bool {
    exists|sig: Seq<u8>, pk: Seq<u8>|
        #[trigger] spec_cand(blob, p.collection_interval,
            encode_utf8(p.endpoint_role@), encode_utf8(p.mode@), sig, pk)
        && spec_sig_ok(p.collection_interval,
            encode_utf8(p.endpoint_role@), encode_utf8(p.mode@), sig, pk)
}

/// `s` is a canonical document whose embedded signature verifies.
pub open spec fn spec_accepted_doc(s: Seq<u8>) -> bool {
    exists|iv: u64, role: Seq<u8>, mode: Seq<u8>, sig: Seq<u8>, pk: Seq<u8>|
        #[trigger] spec_cand(s, iv, role, mode, sig, pk) && spec_sig_ok(iv, role, mode, sig, pk)
}

/// What the Ed25519 verification of given key, message and signature
/// bytes returns; a fixed function of those bytes alone.
pub uninterp spec fn spec_ed25519_valid(pk: Seq<u8>, msg: Seq<u8>, sig: Seq<u8>) -> bool;

/// Relies on ed25519_dalek::VerifyingKey::verify: deterministic in the
/// key, message and signature bytes; a key that does not decode to a
/// curve point verifies nothing.
#[verifier::external_body]
fn ed25519_verify(pk: &Vec<u8>, msg: &Vec<u8>, sig: &Vec<u8>) -> (r: bool)
    requires
        pk@.len() == 32,
        sig@.len() == 64,
    ensures
        r == spec_ed25519_valid(pk@, msg@, sig@),
{
    let mut pa = [0u8; 32];
    pa.copy_from_slice(pk);
    let mut sa = [0u8; 64];
    sa.copy_from_slice(sig);
    match ed25519_dalek::VerifyingKey::from_bytes(&pa) {
        Ok(k) => ed25519_dalek::Verifier::verify(&k, msg.as_slice(), &ed25519_dalek::Signature::from_bytes(&sa)).is_ok(),
        Err(_) => false,
    }
}

/// Checks the hex-encoded signature and public key of `p` over its
/// canonical serialization.
pub fn policy_signature_valid(p: &RawPolicy, signature: &str, pubkey: &str) -> (r: bool)
    ensures
        r == spec_sig_ok(
            p.collection_interval,
            encode_utf8(p.endpoint_role@),
            encode_utf8(p.mode@),
            encode_utf8(signature@),
            encode_utf8(pubkey@),
        ),
{
    let pk_bytes = match hex_decode(pubkey.as_bytes()) {
        Some(v) => v,
        None => {
            return false;
        },
    };
    if pk_bytes.len() != 32 {
        return false;
    }
    let sig_bytes = match hex_decode(signature.as_bytes()) {
        Some(v) => v,
        None => {
            return false;
        },
    };
    if sig_bytes.len() != 64 {
        return false;
    }
    let msg = canonical_policy_bytes(p);
    ed25519_verify(&pk_bytes, &msg, &sig_bytes)
}

/// The fail-closed policy gate: accepts exactly the canonical signed
/// documents whose embedded Ed25519 signature verifies over the policy's
/// canonical bytes, and says for each error exactly when it comes.
pub fn load_and_verify_policy(blob: &[u8]) -> (r: Result<RawPolicy, PolicyError>)
    ensures
        r is Ok <==> spec_accepted_doc(blob@),
        r matches Ok(p) ==> spec_ok_witness(blob@, p),
        r == Err::<RawPolicy, PolicyError>(PolicyError::Parse) <==> !spec_is_canonical_doc(blob@),
        r == Err::<RawPolicy, PolicyError>(PolicyError::SignatureInvalid)
            <==> spec_is_canonical_doc(blob@) && !spec_accepted_doc(blob@),
{
    let sp = match parse_signed_policy(blob) {
        Some(sp) => sp,
        None => {
            proof {
                if spec_is_canonical_doc(blob@) {
                    let (iv, role, mode, sig, pk) = choose|iv: u64, role: Seq<u8>, mode: Seq<u8>, sig: Seq<u8>, pk: Seq<u8>|
                        #[trigger] spec_cand(blob@, iv, role, mode, sig, pk);
                    assert(false);
                }
            }
            return Err(PolicyError::Parse);
        },
    };
    let ok = policy_signature_valid(&sp.policy, sp.signature.as_str(), sp.pubkey.as_str());
    if ok {
        proof {
            assert(spec_cand(blob@, sp.policy.collection_interval,
                encode_utf8(sp.policy.endpoint_role@), encode_utf8(sp.policy.mode@),
                encode_utf8(sp.signature@), encode_utf8(sp.pubkey@))
                && spec_sig_ok(sp.policy.collection_interval,
                    encode_utf8(sp.policy.endpoint_role@), encode_utf8(sp.policy.mode@),
                    encode_utf8(sp.signature@), encode_utf8(sp.pubkey@)));
            assert(spec_ok_witness(blob@, sp.policy));
        }
        Ok(sp.policy)
    } else {
        proof {
            assert(spec_is_canonical_doc(blob@));
            if spec_accepted_doc(blob@) {
                let (iv, role, mode, sig, pk) = choose|iv: u64, role: Seq<u8>, mode: Seq<u8>, sig: Seq<u8>, pk: Seq<u8>|
                    #[trigger] spec_cand(blob@, iv, role, mode, sig, pk) && spec_sig_ok(iv, role, mode, sig, pk);
                assert(false);
            }
        }
        Err(PolicyError::SignatureInvalid)
    }
}

/// Law: canonical serialization is deterministic, so a policy taken from
/// an accepted document re-serializes to the very bytes that were
/// verified, and the rebuilt document is accepted again under the same
/// signature and public key.
pub proof fn lemma_reserialize_reverify(p: RawPolicy, sig_hex: Seq<u8>, pk_hex: Seq<u8>)
    requires
        spec_plain_seq(encode_utf8(p.endpoint_role@)),
        spec_plain_seq(encode_utf8(p.mode@)),
        spec_plain_seq(sig_hex),
        spec_plain_seq(pk_hex),
        spec_sig_ok(p.collection_interval, encode_utf8(p.endpoint_role@), encode_utf8(p.mode@), sig_hex, pk_hex),
    ensures
        spec_accepted_doc(spec_signed_doc(
            p.collection_interval as nat,
            encode_utf8(p.endpoint_role@),
            encode_utf8(p.mode@),
            sig_hex,
            pk_hex,
        )),
{
    reveal(spec_cand);
    let doc = spec_signed_doc(
        p.collection_interval as nat,
        encode_utf8(p.endpoint_role@),
        encode_utf8(p.mode@),
        sig_hex,
        pk_hex,
    );
    assert(spec_cand(doc, p.collection_interval, encode_utf8(p.endpoint_role@), encode_utf8(p.mode@), sig_hex, pk_hex));
}

} // verus!
