use mpc_node::curve::G1Point;
use mpc_node::field::Fr;
use mpc_node::frost::FrostSigner;
use mpc_node::signing::{SigningMessage, SigningNode};
use mpc_node::types::{KeyShare, SerializableScalar};

fn fr(v: u64) -> Fr {
    let mut bytes = [0u8; 32];
    bytes[..8].copy_from_slice(&v.to_le_bytes());
    Fr::from_bytes(bytes).unwrap()
}

#[test]
fn frost_signer_uses_nonces_in_order() {
    let secret = fr(77);
    let mut signer = FrostSigner::new("s".to_string(), secret, G1Point::identity());
    assert!(signer.sign(b"msg", &[]).is_none());
    signer.generate_nonces(2);
    let commitments = signer.get_commitments();
    assert_eq!(commitments.len(), 2);
    assert_eq!(signer.sign(b"msg", &[]), Some(secret));
    assert_eq!(signer.get_commitments().len(), 1);
    assert!(signer.get_commitments()[0].D.0.equals(&commitments[1].D.0));
    assert_eq!(signer.sign(b"msg", &["a".to_string()]), Some(secret));
    assert!(signer.sign(b"msg", &[]).is_none());
}

fn node(threshold: usize) -> SigningNode {
    let share = KeyShare { index: 1, value: SerializableScalar(fr(5)) };
    SigningNode::new("me".to_string(), threshold, share, G1Point::identity())
}

#[test]
fn start_signing_commits_to_a_fresh_nonce() {
    let mut n = node(1);
    match n.start_signing(b"hello") {
        SigningMessage::CommitmentShare { from, commitments } => {
            assert_eq!(from, "me");
            assert_eq!(commitments.len(), 1);
        }
        _ => panic!("expected commitments"),
    }
    match n.start_signing(b"hello") {
        SigningMessage::CommitmentShare { commitments, .. } => assert_eq!(commitments.len(), 2),
        _ => panic!("expected commitments"),
    }
}

#[test]
fn enough_commitments_trigger_a_signature_share() {
    let mut n = node(2);
    let first = SigningMessage::CommitmentShare { from: "a".to_string(), commitments: vec![] };
    assert!(n.handle_message(first).is_none());
    let again = SigningMessage::CommitmentShare { from: "a".to_string(), commitments: vec![] };
    assert!(n.handle_message(again).is_none());
    let second = SigningMessage::CommitmentShare { from: "b".to_string(), commitments: vec![] };
    match n.handle_message(second) {
        Some(SigningMessage::SignatureShare { from, share }) => {
            assert_eq!(from, "me");
            assert_eq!(share.0, fr(0));
        }
        _ => panic!("expected a signature share"),
    }
    let sig = SigningMessage::SignatureShare {
        from: "a".to_string(),
        share: SerializableScalar(fr(4)),
    };
    assert!(n.handle_message(sig).is_none());
}
