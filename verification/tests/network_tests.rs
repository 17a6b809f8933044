use mpc_node::dkg::{DKGMessage, DKGNode, DKGStatus};
use mpc_node::network::{ChannelAction, ChannelError, GossipAction, NetworkLayer, PeerList};
use mpc_node::commands::{Command, CommandProcessor};
use mpc_node::types::{
    ChannelMessage, DecodeError, GossipsubMessage, MPCProtocol, RPCRequest, RPCResponse,
    SerializableG1Affine, SerializablePeerId, SerializableScalar, MSG_TOPIC_DKG,
};
use mpc_node::field::Fr;

fn fr(v: u64) -> Fr {
    let mut bytes = [0u8; 32];
    bytes[..8].copy_from_slice(&v.to_le_bytes());
    Fr::from_bytes(bytes).unwrap()
}

fn layer() -> NetworkLayer {
    NetworkLayer::new(vec![1, 2, 3])
}

#[test]
fn plain_requests() {
    let mut net = layer();
    assert!(matches!(net.handle_request(vec![9], RPCRequest::Ping), (RPCResponse::Pong, None)));
    match net.handle_request(vec![9], RPCRequest::GetPeerInfo) {
        (RPCResponse::PeerInfo(info), None) => {
            assert!(info.addresses.is_empty());
            assert!(info.connected);
        }
        _ => panic!("expected peer info"),
    }
    match net.handle_request(vec![9], RPCRequest::Custom { id: "x".to_string(), data: vec![5] }) {
        (RPCResponse::Custom { id, data }, None) => {
            assert_eq!(id, "x");
            assert_eq!(data, vec![5]);
        }
        _ => panic!("expected an echo"),
    }
    assert!(matches!(net.handle_request(vec![9], RPCRequest::StartDKG), (RPCResponse::Ack, None)));
}

#[test]
fn key_generation_requests_without_a_part() {
    let mut net = layer();
    match net.handle_request(vec![9], RPCRequest::StartADKG) {
        (RPCResponse::DKGError(e), None) => assert_eq!(e, "dkg is not initialized."),
        _ => panic!("expected an error"),
    }
    match net.handle_request(vec![9], RPCRequest::GetDKGStatus) {
        (RPCResponse::DKGStatus { status }, None) => assert_eq!(status, DKGStatus::New),
        _ => panic!("expected a status"),
    }
    let share = RPCRequest::SendAVSSShare {
        dealer_id: SerializablePeerId(vec![]),
        receiver_id: SerializablePeerId(vec![]),
        share: SerializableScalar(fr(1)),
        commitments: vec![],
    };
    match net.handle_request(vec![9], share) {
        (RPCResponse::Error(e), None) => assert_eq!(e, "DKG not initialized"),
        _ => panic!("expected an error"),
    }
}

#[test]
fn key_generation_requests_with_a_part() {
    let mut net = layer();
    net.set_dkg_node(DKGNode::new("1".to_string(), 1, 3));
    match net.handle_request(vec![7, 7], RPCRequest::StartADKG) {
        (RPCResponse::DKGStarted { peer_id }, Some(DKGMessage::ShareDistribution { shares, .. })) => {
            assert_eq!(peer_id.0, vec![7, 7]);
            assert_eq!(shares.len(), 3);
        }
        _ => panic!("expected key generation to start"),
    }
    match net.handle_request(vec![9], RPCRequest::GetDKGStatus) {
        (RPCResponse::DKGStatus { status }, None) => assert_eq!(status, DKGStatus::Started),
        _ => panic!("expected a status"),
    }
    let share = RPCRequest::SendAVSSShare {
        dealer_id: SerializablePeerId(vec![]),
        receiver_id: SerializablePeerId(vec![]),
        share: SerializableScalar(fr(1)),
        commitments: vec![],
    };
    assert!(matches!(net.handle_request(vec![9], share), (RPCResponse::ShareAccepted, None)));
}

#[test]
fn peers_are_tracked() {
    let mut net = layer();
    net.peer_discovered(vec![1], vec![10]);
    net.peer_discovered(vec![2], vec![20]);
    net.peer_discovered(vec![1], vec![11]);
    assert_eq!(net.connected_peer_count(), 2);
    net.peer_expired(&vec![1]);
    assert_eq!(net.connected_peer_count(), 1);
    net.peer_expired(&vec![3]);
    assert_eq!(net.connected_peer_count(), 1);
    net.peer_discovered(vec![1], vec![12]);
    assert_eq!(net.connected_peer_count(), 2);
}

#[test]
fn peer_list_keeps_each_peer_once() {
    let mut list = PeerList::new();
    list.discovered(vec![1]);
    list.discovered(vec![2]);
    list.discovered(vec![1]);
    assert_eq!(list.len(), 2);
    list.expired(&vec![2]);
    assert_eq!(list.len(), 1);
    list.expired(&vec![5]);
    assert_eq!(list.len(), 1);
}

#[test]
fn topics() {
    let topics = NetworkLayer::default_topics();
    assert_eq!(topics, vec![MSG_TOPIC_DKG.to_string(), "signing".to_string(), "consensus".to_string(), "commands".to_string()]);
    let mut net = layer();
    net.record_topic("signing".to_string());
    net.record_topic("signing".to_string());
    assert_eq!(net.get_local_peer_id(), &vec![1, 2, 3]);
    assert_eq!(MPCProtocol.protocol_name(), "/mpc/1.0.0");
}

#[test]
fn channel_messages() {
    let net = layer();
    match net.handle_channel_message(ChannelMessage::Broadcast { topic: "t".to_string(), data: vec![1] }) {
        ChannelAction::Publish { topic, data } => {
            assert_eq!(topic, "t");
            assert_eq!(data, vec![1]);
        }
        _ => panic!("expected a publication"),
    }
    let odd = ChannelMessage::Unicast { peer_id: "abc".to_string(), data: vec![] };
    assert!(matches!(net.handle_channel_message(odd), ChannelAction::Fail(ChannelError::InvalidHex)));
    let bad = ChannelMessage::Unicast { peer_id: "zz".to_string(), data: vec![] };
    assert!(matches!(net.handle_channel_message(bad), ChannelAction::Fail(ChannelError::InvalidHex)));
    let not_peer = ChannelMessage::Unicast { peer_id: "0011".to_string(), data: vec![] };
    assert!(matches!(net.handle_channel_message(not_peer), ChannelAction::Fail(ChannelError::InvalidPeerId)));
    let peer = libp2p::PeerId::random();
    let hex_id = hex::encode(peer.to_bytes()).to_uppercase();
    match net.handle_channel_message(ChannelMessage::Unicast { peer_id: hex_id, data: vec![4] }) {
        ChannelAction::SendRequest { peer: bytes, request: RPCRequest::Custom { id, data } } => {
            assert_eq!(bytes, peer.to_bytes());
            assert_eq!(id, "custom");
            assert_eq!(data, vec![4]);
        }
        _ => panic!("expected a request"),
    }
}

#[test]
fn gossip_is_routed() {
    let mut net = layer();
    let cmd = GossipsubMessage::Command(Command::SignMessage { message: vec![1] });
    assert!(matches!(net.handle_gossip(cmd), GossipAction::Done));
    let mut processor = CommandProcessor::new();
    processor.register_handler("sign_message".to_string());
    net.set_command_processor(processor);
    let cmd = GossipsubMessage::Command(Command::SignMessage { message: vec![1] });
    match net.handle_gossip(cmd) {
        GossipAction::RunHandler { name, command } => {
            assert_eq!(name, "sign_message");
            assert_eq!(command, Command::SignMessage { message: vec![1] });
        }
        _ => panic!("expected a handler to run"),
    }
    // Without a key generation part, its messages are dropped.
    let validation = GossipsubMessage::DKG(DKGMessage::ShareValidation {
        from: "a".to_string(),
        to: "b".to_string(),
        is_valid: true,
    });
    assert!(matches!(net.handle_gossip(validation), GossipAction::Done));
}

#[test]
fn wire_decoding() {
    assert_eq!(SerializableScalar::from_slice(&[0u8; 31]), Err(DecodeError::ScalarLength));
    assert_eq!(SerializableScalar::from_slice(&[0xff; 32]), Err(DecodeError::ScalarValue));
    let s = SerializableScalar::from_slice(&[0u8; 32]).unwrap();
    assert_eq!(s.to_bytes(), [0u8; 32]);
    assert_eq!(SerializableG1Affine::from_slice(&[0u8; 47]), Err(DecodeError::G1Length));
    assert_eq!(SerializableG1Affine::from_slice(&[0u8; 48]), Err(DecodeError::G1Point));
    let mut id = [0u8; 48];
    id[0] = 0xc0;
    let p = SerializableG1Affine::from_slice(&id).unwrap();
    assert_eq!(p.to_bytes(), id);
    let real = libp2p::PeerId::random().to_bytes();
    assert_eq!(SerializablePeerId::from_slice(&real), Err(DecodeError::PeerIdLength));
    assert_eq!(SerializablePeerId::from_slice(&[0u8; 48]), Err(DecodeError::PeerId));
}

#[test]
fn requests_are_served_with_any_threshold() {
    let mut net = layer();
    net.set_dkg_node(DKGNode::new("1".to_string(), usize::MAX, 3));
    assert!(matches!(net.handle_request(vec![9], RPCRequest::Ping), (RPCResponse::Pong, None)));
    assert!(matches!(
        net.handle_request(vec![9], RPCRequest::GetDKGStatus),
        (RPCResponse::DKGStatus { status: DKGStatus::New }, None)
    ));
}

#[test]
fn key_generation_threshold_is_reported() {
    let mut net = layer();
    assert_eq!(net.dkg_threshold(), None);
    net.set_dkg_node(DKGNode::new("1".to_string(), 4, 7));
    assert_eq!(net.dkg_threshold(), Some(4));
}

#[test]
fn peer_list_counts_peers_last_discovered() {
    let mut list = PeerList::new();
    for p in [1u8, 2, 1, 3, 1] {
        list.discovered(vec![p]);
    }
    list.expired(&vec![2]);
    list.discovered(vec![2]);
    list.expired(&vec![3]);
    list.expired(&vec![3]);
    assert_eq!(list.len(), 2);
}
