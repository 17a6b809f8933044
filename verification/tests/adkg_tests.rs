use mpc_node::adkg::{ADKGMessage, ADKGNode};
use mpc_node::curve::G1Point;
use mpc_node::field::Fr;

fn fr(v: u64) -> Fr {
    let mut bytes = [0u8; 32];
    bytes[..8].copy_from_slice(&v.to_le_bytes());
    Fr::from_bytes(bytes).unwrap()
}

fn share_from(node: &ADKGNode, dealer: &str) -> Option<Fr> {
    node.share_from(&dealer.to_string())
}

#[test]
fn test_polynomial_generation() {
    let mut node = ADKGNode::new("test".to_string(), 3, 1, 1);
    let (coeffs, secret) = node.generate_polynomial(2);

    assert_eq!(coeffs.len(), 3);
    assert_eq!(secret, coeffs[0]);
}

#[test]
fn test_commitment_verification() {
    let mut node = ADKGNode::new("test".to_string(), 3, 1, 1);
    let (coeffs, _) = node.generate_polynomial(2);
    let commitments = ADKGNode::generate_commitments(&coeffs);
    let shares: Vec<Fr> = (1..=3).map(|i| ADKGNode::evaluate_polynomial(&coeffs, i)).collect();

    assert!(node.verify_commitments("test", &shares, &commitments));
}

#[test]
fn test_secret_reconstruction() {
    let mut node = ADKGNode::new("test".to_string(), 3, 1, 1);
    let (coeffs, secret) = node.generate_polynomial(2);

    let shares: Vec<(u64, Fr)> =
        (1..=3).map(|i| (i, ADKGNode::evaluate_polynomial(&coeffs, i))).collect();

    let reconstructed = ADKGNode::reconstruct_secret(shares);
    assert_eq!(reconstructed, secret);
}

#[test]
fn test_share_proposal_handling() {
    let mut node = ADKGNode::new("receiver".to_string(), 3, 1, 1);
    let mut sender = ADKGNode::new("sender".to_string(), 3, 1, 2);

    let (coeffs, _) = sender.generate_polynomial(2);
    let commitments = ADKGNode::generate_commitments(&coeffs);
    let shares: Vec<Fr> = (1..=3).map(|i| ADKGNode::evaluate_polynomial(&coeffs, i)).collect();

    let msg = ADKGMessage::ShareProposal { sender_id: "sender".to_string(), shares, commitments };

    let result = node.handle_message(msg);
    assert!(result.is_some());

    assert!(share_from(&node, "sender").is_some());
}

#[test]
fn evaluate_polynomial_exact_value() {
    // 3 + 2x + 5x^2 at x = 4 is 3 + 8 + 80 = 91.
    let coeffs = vec![fr(3), fr(2), fr(5)];
    assert_eq!(ADKGNode::evaluate_polynomial(&coeffs, 4), fr(91));
    assert_eq!(ADKGNode::evaluate_polynomial(&coeffs, 0), fr(3));
    assert_eq!(ADKGNode::evaluate_polynomial(&[], 7), fr(0));
}

#[test]
fn reconstruction_of_known_polynomial() {
    // 7 + 3x through the points x = 2, 5, 9 (more points than coefficients).
    let coeffs = vec![fr(7), fr(3)];
    let shares: Vec<(u64, Fr)> =
        [2u64, 5, 9].iter().map(|&i| (i, ADKGNode::evaluate_polynomial(&coeffs, i))).collect();
    assert_eq!(ADKGNode::reconstruct_secret(shares), fr(7));
    // Out of order, and a point at zero.
    let shares: Vec<(u64, Fr)> =
        [9u64, 0, 2].iter().map(|&i| (i, ADKGNode::evaluate_polynomial(&coeffs, i))).collect();
    assert_eq!(ADKGNode::reconstruct_secret(shares), fr(7));
}

#[test]
fn reconstruction_of_empty_and_single_share() {
    assert_eq!(ADKGNode::reconstruct_secret(vec![]), fr(0));
    assert_eq!(ADKGNode::reconstruct_secret(vec![(4, fr(11))]), fr(11));
}

#[test]
fn reconstruction_with_too_few_shares_misses_secret() {
    // 1 + x + x^2 from two points gives the line through them, not the secret.
    let coeffs = vec![fr(1), fr(1), fr(1)];
    let shares: Vec<(u64, Fr)> =
        [1u64, 2].iter().map(|&i| (i, ADKGNode::evaluate_polynomial(&coeffs, i))).collect();
    // p(1) = 3, p(2) = 7: the line is 4x - 1, whose value at zero is -1.
    let minus_one: [u8; 32] = [
        0x00, 0x00, 0x00, 0x00, 0xff, 0xff, 0xff, 0xff, 0xfe, 0x5b, 0xfe, 0xff, 0x02, 0xa4, 0xbd,
        0x53, 0x05, 0xd8, 0xa1, 0x09, 0x08, 0xd8, 0x39, 0x33, 0x48, 0x7d, 0x9d, 0x29, 0x53, 0xa7,
        0xed, 0x73,
    ];
    assert_eq!(ADKGNode::reconstruct_secret(shares).to_bytes(), minus_one);
}

#[test]
fn tampered_share_fails_verification() {
    let node = ADKGNode::new("n".to_string(), 3, 1, 2);
    let coeffs = vec![fr(4), fr(9)];
    let commitments = ADKGNode::generate_commitments(&coeffs);
    let mut shares: Vec<Fr> = (1..=3).map(|i| ADKGNode::evaluate_polynomial(&coeffs, i)).collect();
    assert_eq!(shares[1], fr(22));
    assert!(node.verify_commitments("x", &shares, &commitments));
    shares[1] = fr(23);
    assert!(!node.verify_commitments("x", &shares, &commitments));
}

#[test]
fn verification_rejects_index_out_of_range() {
    let coeffs = vec![fr(5)];
    let commitments = ADKGNode::generate_commitments(&coeffs);
    let shares = vec![fr(5)];
    let node0 = ADKGNode::new("a".to_string(), 1, 1, 0);
    assert!(!node0.verify_commitments("x", &shares, &commitments));
    let node2 = ADKGNode::new("a".to_string(), 1, 1, 2);
    assert!(!node2.verify_commitments("x", &shares, &commitments));
    let node1 = ADKGNode::new("a".to_string(), 1, 1, 1);
    assert!(node1.verify_commitments("x", &shares, &commitments));
}

#[test]
fn start_adkg_proposal_is_consistent() {
    let mut node = ADKGNode::new("dealer".to_string(), 4, 2, 1);
    match node.start_adkg() {
        ADKGMessage::ShareProposal { sender_id, shares, commitments } => {
            assert_eq!(sender_id, "dealer");
            assert_eq!(shares.len(), 4);
            assert_eq!(commitments.len(), 3);
            for idx in 1..=4u64 {
                let receiver = ADKGNode::new("r".to_string(), 4, 2, idx);
                assert!(receiver.verify_commitments("dealer", &shares, &commitments));
            }
        }
        _ => panic!("expected a proposal"),
    }
}

#[test]
fn invalid_proposal_is_ignored() {
    let mut node = ADKGNode::new("receiver".to_string(), 3, 1, 1);
    let coeffs = vec![fr(2), fr(3)];
    let commitments = ADKGNode::generate_commitments(&coeffs);
    let shares = vec![fr(6), fr(8)];
    let msg = ADKGMessage::ShareProposal { sender_id: "bad".to_string(), shares, commitments };
    assert!(node.handle_message(msg).is_none());
    assert!(share_from(&node, "bad").is_none());
}

#[test]
fn acknowledgements_complete_key_generation() {
    // Node 1 receives proposals from two dealers, then enough valid acknowledgements.
    let mut node = ADKGNode::new("me".to_string(), 3, 2, 1);
    let f = vec![fr(10), fr(1)];
    let g = vec![fr(20), fr(2)];
    for (name, coeffs) in [("d1", &f), ("d2", &g)] {
        let shares: Vec<Fr> = (1..=3).map(|i| ADKGNode::evaluate_polynomial(coeffs, i)).collect();
        let msg = ADKGMessage::ShareProposal {
            sender_id: name.to_string(),
            shares,
            commitments: ADKGNode::generate_commitments(coeffs),
        };
        match node.handle_message(msg) {
            Some(ADKGMessage::ShareAck { sender_id, receiver_id, valid }) => {
                assert_eq!(sender_id, "me");
                assert_eq!(receiver_id, name);
                assert!(valid);
            }
            _ => panic!("expected an acknowledgement"),
        }
    }
    // An acknowledgement for someone else is ignored.
    let other = ADKGMessage::ShareAck {
        sender_id: "x".to_string(),
        receiver_id: "other".to_string(),
        valid: true,
    };
    assert!(node.handle_message(other).is_none());
    let ack = |from: &str, valid: bool| ADKGMessage::ShareAck {
        sender_id: from.to_string(),
        receiver_id: "me".to_string(),
        valid,
    };
    node.handle_message(ack("a", true));
    node.handle_message(ack("b", false));
    assert!(node.secret_key_share().is_none());
    node.handle_message(ack("b", true));
    // Shares at 1: f(1) = 11, g(1) = 22; constant terms 10 and 20.
    assert_eq!(node.secret_key_share(), Some(fr(33)));
    let expected = G1Point::generator_mul(&fr(30));
    assert!(node.public_key().unwrap().equals(&expected));
}

#[test]
fn own_commitments_are_recorded() {
    let mut node = ADKGNode::new("me".to_string(), 2, 1, 1);
    let commitments = ADKGNode::generate_commitments(&[fr(4), fr(6)]);
    node.store_own_commitments(commitments);
    assert_eq!(node.id(), "me");
}

#[test]
fn completion_with_an_empty_commitment_list_is_flagged() {
    let mut node = ADKGNode::new("me".to_string(), 3, 2, 1);
    let ack = |to: &str, valid: bool| ADKGMessage::ShareAck {
        sender_id: "a".to_string(),
        receiver_id: to.to_string(),
        valid,
    };
    // No commitments kept yet: nothing to flag.
    assert!(!node.completes_without_commitments(&ack("me", true)));
    node.store_own_commitments(Vec::new());
    // One valid acknowledgement is still below the threshold of two.
    assert!(!node.completes_without_commitments(&ack("me", true)));
    node.handle_message(ack("me", true));
    // The second valid one would complete, with an empty list kept.
    assert!(node.completes_without_commitments(&ack("me", true)));
    // An invalid one, or one addressed to another node, would not complete.
    assert!(!node.completes_without_commitments(&ack("me", false)));
    assert!(!node.completes_without_commitments(&ack("other", true)));
    let proposal = ADKGMessage::ShareProposal {
        sender_id: "d".to_string(),
        shares: Vec::new(),
        commitments: Vec::new(),
    };
    assert!(!node.completes_without_commitments(&proposal));
}

#[test]
fn combined_key_shares_reconstruct_group_secret() {
    // Dealers deal 10 + x and 20 + 2x; nodes 1 and 2 complete with both proposals.
    let dealers = [("d1", vec![fr(10), fr(1)]), ("d2", vec![fr(20), fr(2)])];
    let mut key_shares: Vec<(u64, Fr)> = Vec::new();
    for idx in 1..=2u64 {
        let mut node = ADKGNode::new(format!("n{}", idx), 2, 1, idx);
        for (name, coeffs) in dealers.iter() {
            let shares: Vec<Fr> = (1..=2).map(|i| ADKGNode::evaluate_polynomial(coeffs, i)).collect();
            let msg = ADKGMessage::ShareProposal {
                sender_id: name.to_string(),
                shares,
                commitments: ADKGNode::generate_commitments(coeffs),
            };
            assert!(node.handle_message(msg).is_some());
        }
        let ack = ADKGMessage::ShareAck {
            sender_id: "a".to_string(),
            receiver_id: format!("n{}", idx),
            valid: true,
        };
        node.handle_message(ack);
        key_shares.push((idx, node.secret_key_share().unwrap()));
        assert!(node.public_key().unwrap().equals(&G1Point::generator_mul(&fr(30))));
    }
    assert_eq!(key_shares[0].1, fr(33));
    assert_eq!(key_shares[1].1, fr(36));
    assert_eq!(ADKGNode::reconstruct_secret(key_shares), fr(30));
}
