use mpc_node::commands::{Command, CommandProcessor};
use mpc_node::consensus::{ConsensusMessage, ConsensusNode};

#[test]
fn state_reads_back_what_was_written() {
    let mut node = ConsensusNode::new();
    assert!(node.get_state("k").is_none());
    node.update_state("k".to_string(), vec![1, 2, 3]);
    node.update_state("j".to_string(), vec![9]);
    assert_eq!(node.get_state("k"), Some(&vec![1, 2, 3]));
    node.update_state("k".to_string(), vec![4]);
    assert_eq!(node.get_state("k"), Some(&vec![4]));
    assert_eq!(node.get_state("j"), Some(&vec![9]));
}

#[test]
fn generated_output_verifies_for_its_input_only() {
    let node = ConsensusNode::new();
    let out = node.generate_vrf_proof(b"round-1");
    assert_eq!(out.proof.len(), 32);
    assert_eq!(&out.hash, blake3::hash(b"round-1").as_bytes());
    assert!(node.verify_vrf_proof(b"round-1", &out));
    assert!(!node.verify_vrf_proof(b"round-2", &out));
    let other = ConsensusNode::new();
    assert!(other.verify_vrf_proof(b"round-1", &out));
    node.handle_message(ConsensusMessage::Proposal { round: 1, value: b"round-1".to_vec(), vrf_proof: out });
    node.handle_message(ConsensusMessage::Vote { round: 1, proposal_hash: [0u8; 32], voter: "v".to_string() });
}

#[test]
fn commands_route_to_registered_handlers() {
    let cmds = [
        (Command::ShareGeneration { threshold: 2 }, "share_generation"),
        (Command::SignMessage { message: vec![1] }, "sign_message"),
        (Command::UpdateState { key: "k".to_string(), value: vec![] }, "update_state"),
        (Command::ConsensusProposal { round: 3, value: vec![] }, "consensus_proposal"),
    ];
    let mut processor = CommandProcessor::new();
    for (cmd, name) in cmds.iter() {
        assert_eq!(cmd.handler_name(), *name);
        assert_eq!(processor.handle_message(cmd), None);
    }
    processor.register_handler("sign_message".to_string());
    processor.register_handler("sign_message".to_string());
    assert_eq!(processor.handle_message(&cmds[1].0), Some("sign_message"));
    assert_eq!(processor.handle_message(&cmds[0].0), None);
}
