use mpc_node::adkg::ADKGNode;
use mpc_node::curve::G1Point;
use mpc_node::dkg::{DKGMessage, DKGNode, DKGStatus};
use mpc_node::field::Fr;
use mpc_node::types::{KeyShare, SerializableG1Affine, SerializableScalar};

fn fr(v: u64) -> Fr {
    let mut bytes = [0u8; 32];
    bytes[..8].copy_from_slice(&v.to_le_bytes());
    Fr::from_bytes(bytes).unwrap()
}

fn key_share(index: usize, v: u64) -> KeyShare {
    KeyShare { index, value: SerializableScalar(fr(v)) }
}

#[test]
fn new_node_status_is_new() {
    let node = DKGNode::new("1".to_string(), 2, 3);
    assert_eq!(node.get_status(), DKGStatus::New);
}

#[test]
fn start_dkg_deals_consistent_shares() {
    let mut node = DKGNode::new("1".to_string(), 2, 4);
    let msg = node.start_dkg();
    assert_eq!(node.get_status(), DKGStatus::Started);
    match msg {
        DKGMessage::ShareDistribution { from, shares, commitments } => {
            assert_eq!(from, "1");
            assert_eq!(shares.len(), 4);
            assert_eq!(commitments.len(), 3);
            let points: Vec<G1Point> = commitments.iter().map(|c| c.0).collect();
            let values: Vec<_> = shares.iter().map(|s| s.value.0).collect();
            for (k, s) in shares.iter().enumerate() {
                assert_eq!(s.index, k + 1);
                let checker = ADKGNode::new("c".to_string(), 4, 2, (k + 1) as u64);
                assert!(checker.verify_commitments("1", &values, &points));
            }
        }
        _ => panic!("expected a distribution"),
    }
}

#[test]
fn distribution_keeps_own_share_and_reports() {
    let mut node = DKGNode::new("2".to_string(), 1, 3);
    let shares = vec![key_share(1, 10), key_share(2, 20), key_share(2, 99), key_share(3, 30)];
    let commitments = vec![SerializableG1Affine(G1Point::generator_mul(&fr(1)))];
    let msg = DKGMessage::ShareDistribution { from: "dealer".to_string(), shares, commitments };
    match node.handle_message(msg) {
        Some(DKGMessage::ShareValidation { from, to, is_valid }) => {
            assert_eq!(from, "2");
            assert_eq!(to, "dealer");
            assert!(is_valid);
        }
        _ => panic!("expected a validation report"),
    }
}

#[test]
fn distribution_without_own_share_is_ignored() {
    // An identifier that is not a number stands for index usize::MAX.
    let mut node = DKGNode::new("peer-x".to_string(), 1, 3);
    let msg = DKGMessage::ShareDistribution {
        from: "dealer".to_string(),
        shares: vec![key_share(1, 10), key_share(2, 20)],
        commitments: vec![],
    };
    assert!(node.handle_message(msg).is_none());
    let mut node = DKGNode::new("+2".to_string(), 1, 3);
    let msg = DKGMessage::ShareDistribution {
        from: "dealer".to_string(),
        shares: vec![key_share(2, 20)],
        commitments: vec![],
    };
    assert!(node.handle_message(msg).is_some());
    let mut node = DKGNode::new("7".to_string(), 1, 3);
    let msg = DKGMessage::ShareDistribution {
        from: "dealer".to_string(),
        shares: vec![key_share(1, 10), key_share(2, 20)],
        commitments: vec![],
    };
    assert!(node.handle_message(msg).is_none());
}

#[test]
fn share_checks_accept_everything() {
    let node = DKGNode::new("1".to_string(), 1, 2);
    assert!(node.verify_share(&SerializableScalar(fr(3)), &[]));
    assert!(node.verify_shares(&[key_share(1, 2)], &[]));
}

#[test]
fn dealt_distribution_reaches_every_node_in_range() {
    for i in 1..=5usize {
        let mut dealer = DKGNode::new("1".to_string(), 2, 4);
        let msg = dealer.start_dkg();
        let mut receiver = DKGNode::new(i.to_string(), 2, 4);
        let reply = receiver.handle_message(msg);
        if i <= 4 {
            assert!(matches!(reply, Some(DKGMessage::ShareValidation { is_valid: true, .. })));
        } else {
            assert!(reply.is_none());
        }
    }
}

#[test]
fn identifiers_are_read_as_decimal_indices() {
    let reply_for = |id: &str| {
        let mut node = DKGNode::new(id.to_string(), 1, 3);
        let shares = vec![key_share(2, 20), key_share(usize::MAX, 7)];
        let msg = DKGMessage::ShareDistribution { from: "d".to_string(), shares, commitments: vec![] };
        node.handle_message(msg)
    };
    assert!(reply_for("2").is_some());
    assert!(reply_for("+2").is_some());
    assert!(reply_for("002").is_some());
    // Not a number, or too large: the node's index is usize::MAX.
    assert!(reply_for("++2").is_some());
    assert!(reply_for("18446744073709551616").is_some());
    assert!(reply_for("18446744073709551615").is_some());
    assert!(reply_for("3").is_none());
    assert!(reply_for("").is_some());
}

#[test]
fn status_is_new_until_started_then_started() {
    let mut node = DKGNode::new("2".to_string(), 1, 3);
    assert_eq!(node.get_status(), DKGStatus::New);
    let msg = DKGMessage::ShareDistribution { from: "d".to_string(), shares: vec![key_share(2, 5)], commitments: vec![] };
    node.handle_message(msg);
    assert_eq!(node.get_status(), DKGStatus::New);
    node.start_dkg();
    assert_eq!(node.get_status(), DKGStatus::Started);
    let msg = DKGMessage::ShareDistribution { from: "e".to_string(), shares: vec![], commitments: vec![] };
    node.handle_message(msg);
    assert_eq!(node.get_status(), DKGStatus::Started);
    node.start_dkg();
    assert_eq!(node.get_status(), DKGStatus::Started);
    assert_eq!(node.threshold(), 1);
}
