//! Shared data types: key shares, peers, messages between the node's parts, the
//! request/response protocol, and the checked decoding of wire values.

use vstd::prelude::*;
use crate::field::{le_value, modulus, Fr};
use crate::curve::{encodes, g1_generator_times, G1Point};
use crate::dkg::{DKGMessage, DKGStatus};
use crate::signing::SigningMessage;
use crate::commands::Command;
use crate::consensus::ConsensusMessage;

verus! {

/// The gossip topic of the key generation protocol.
pub const MSG_TOPIC_DKG: &'static str = "topic-dkg";

/// A field element as it travels on the wire (32 little-endian bytes).
#[derive(Clone, Copy, Debug, PartialEq, Eq)]
pub struct SerializableScalar(pub Fr);

/// A point of G1 as it travels on the wire (48 compressed bytes).
#[derive(Clone, Copy, Debug, PartialEq, Eq)]
pub struct SerializableG1Affine(pub G1Point);

/// A peer identity as it travels on the wire (its multihash bytes).
#[derive(Clone, Debug, PartialEq, Eq)]
pub struct SerializablePeerId(pub Vec<u8>);

/// Why bytes received from the wire were rejected.
#[derive(Clone, Copy, Debug, PartialEq, Eq)]
pub enum DecodeError {
    /// A point must be 48 bytes long.
    G1Length,
    /// The bytes are not the compressed encoding of a point of G1.
    G1Point,
    /// A scalar must be 32 bytes long.
    ScalarLength,
    /// The bytes denote a number not below the field order.
    ScalarValue,
    /// A peer identity must be 48 bytes long.
    PeerIdLength,
    /// The bytes are not a valid peer identity.
    PeerId,
}

/// Whether bytes are a valid peer identity, as `PeerId::from_bytes` decides.
pub uninterp spec fn peer_id_valid(bytes: Seq<u8>) -> bool;

/// `PeerId::from_bytes(..).is_ok()`: whether the bytes parse as a peer identity (a
/// multihash with a code that peer identities may use).
#[verifier::external_body]
fn peer_id_parses(bytes: &[u8]) -> (res: bool)
    ensures
        res == peer_id_valid(bytes@),
{
    libp2p::PeerId::from_bytes(bytes).is_ok()
}

/// Whether bytes are a valid peer identity.
pub fn is_peer_id(bytes: &Vec<u8>) -> (res: bool)
    ensures
        res == peer_id_valid(bytes@),
{
    peer_id_parses(bytes.as_slice())
}

fn copy_to_array_48(v: &[u8]) -> (res: [u8; 48])
    requires
        v@.len() == 48,
    ensures
        res@ == v@,
{
    let mut res = [0u8; 48];
    for i in 0..48
        invariant
            v@.len() == 48,
            forall|k: int| 0 <= k < i ==> res@[k] == v@[k],
    {
        res[i] = v[i];
    }
    proof {
        assert(res@ =~= v@);
    }
    res
}

fn copy_to_array_32(v: &[u8]) -> (res: [u8; 32])
    requires
        v@.len() == 32,
    ensures
        res@ == v@,
{
    let mut res = [0u8; 32];
    for i in 0..32
        invariant
            v@.len() == 32,
            forall|k: int| 0 <= k < i ==> res@[k] == v@[k],
    {
        res[i] = v[i];
    }
    proof {
        assert(res@ =~= v@);
    }
    res
}

impl SerializableScalar {
    /// Decodes a scalar: exactly 32 little-endian bytes denoting a number below the
    /// field order.
    pub fn from_slice(v: &[u8]) -> (res: Result<SerializableScalar, DecodeError>)
        ensures
            v@.len() != 32 ==> res == Err::<SerializableScalar, DecodeError>(
                DecodeError::ScalarLength,
            ),
            v@.len() == 32 && le_value(v@) >= modulus() ==> res == Err::<
                SerializableScalar,
                DecodeError,
            >(DecodeError::ScalarValue),
            v@.len() == 32 && le_value(v@) < modulus() ==> (res matches Ok(s) && s.0@
                == le_value(v@)),
    {
        if v.len() != 32 {
            return Err(DecodeError::ScalarLength);
        }
        let bytes = copy_to_array_32(v);
        match Fr::from_bytes(bytes) {
            Some(x) => Ok(SerializableScalar(x)),
            None => Err(DecodeError::ScalarValue),
        }
    }

    /// The 32-byte little-endian encoding.
    pub fn to_bytes(&self) -> (res: [u8; 32])
        ensures
            le_value(res@) == self.0@,
    {
        self.0.to_bytes()
    }
}

impl SerializableG1Affine {
    /// Decodes a point: exactly 48 bytes that are the compressed encoding of a point of G1.
    pub fn from_slice(v: &[u8]) -> (res: Result<SerializableG1Affine, DecodeError>)
        ensures
            v@.len() != 48 ==> res == Err::<SerializableG1Affine, DecodeError>(
                DecodeError::G1Length,
            ),
            v@.len() == 48 && !(exists|k: nat| #[trigger] encodes(v@, k)) ==> res == Err::<
                SerializableG1Affine,
                DecodeError,
            >(DecodeError::G1Point),
            v@.len() == 48 && (exists|k: nat| #[trigger] encodes(v@, k)) ==> (res matches Ok(p)
                && g1_generator_times(p.0@) == v@),
    {
        if v.len() != 48 {
            return Err(DecodeError::G1Length);
        }
        let bytes = copy_to_array_48(v);
        match G1Point::from_compressed(bytes) {
            Some(p) => Ok(SerializableG1Affine(p)),
            None => Err(DecodeError::G1Point),
        }
    }

    /// The 48-byte compressed encoding.
    pub fn to_bytes(&self) -> (res: [u8; 48])
        ensures
            res@ == g1_generator_times(self.0@),
    {
        self.0.to_compressed()
    }
}

impl SerializablePeerId {
    /// Decodes a peer identity: exactly 48 bytes that parse as a peer identity.
    pub fn from_slice(v: &[u8]) -> (res: Result<SerializablePeerId, DecodeError>)
        ensures
            v@.len() != 48 ==> res == Err::<SerializablePeerId, DecodeError>(
                DecodeError::PeerIdLength,
            ),
            v@.len() == 48 && !peer_id_valid(v@) ==> res == Err::<SerializablePeerId, DecodeError>(
                DecodeError::PeerId,
            ),
            v@.len() == 48 && peer_id_valid(v@) ==> (res matches Ok(p) && p.0@ == v@),
    {
        if v.len() != 48 {
            return Err(DecodeError::PeerIdLength);
        }
        if peer_id_parses(v) {
            let mut bytes: Vec<u8> = Vec::new();
            for i in 0..v.len()
                invariant
                    bytes@ == v@.take(i as int),
            {
                bytes.push(v[i]);
                proof {
                    assert(v@.take((i + 1) as int) =~= v@.take(i as int).push(v@[i as int]));
                }
            }
            proof {
                assert(v@.take(v@.len() as int) =~= v@);
            }
            Ok(SerializablePeerId(bytes))
        } else {
            Err(DecodeError::PeerId)
        }
    }
}

/// A participant's share of the group secret.
#[derive(Clone, Copy, Debug, PartialEq, Eq)]
pub struct KeyShare {
    pub index: usize,
    pub value: SerializableScalar,
}

/// What is known of a peer: its addresses (as multiaddress bytes) and whether it is
/// currently reachable.
#[derive(Clone, Debug, PartialEq, Eq)]
pub struct PeerInfo {
    pub addresses: Vec<Vec<u8>>,
    pub connected: bool,
}

/// A message between the node's parts and its network layer.
#[derive(Clone, Debug, PartialEq, Eq)]
pub enum NetworkMessage {
    Broadcast { topic: String, data: Vec<u8> },
    DirectMessage { peer_id: String, data: Vec<u8> },
}

/// What a protocol part hands the network layer to send: a gossip broadcast on a
/// topic, or a direct message to a peer named by its hex-encoded identity.
#[derive(Clone, Debug, PartialEq, Eq)]
pub enum ChannelMessage {
    Broadcast { topic: String, data: Vec<u8> },
    Unicast { peer_id: String, data: Vec<u8> },
}

/// A gossip message, routed to the part of the node it is for.
pub enum GossipsubMessage {
    DKG(DKGMessage),
    Signing(SigningMessage),
    Command(Command),
    Consensus(ConsensusMessage),
}

/// The request/response protocol's identifier.
#[derive(Clone, Copy, Debug, PartialEq, Eq)]
pub struct MPCProtocol;

impl MPCProtocol {
    /// The protocol name, `/mpc/1.0.0`.
    pub fn protocol_name(&self) -> (res: &'static str)
        ensures
            res@ == "/mpc/1.0.0"@,
    {
        "/mpc/1.0.0"
    }
}

/// A request of the request/response protocol.
pub enum RPCRequest {
    Custom { id: String, data: Vec<u8> },
    GetDKGStatus,
    GetPeerInfo,
    Ping,
    StartDKG,
    StartADKG,
    SendAVSSShare {
        dealer_id: SerializablePeerId,
        receiver_id: SerializablePeerId,
        share: SerializableScalar,
        commitments: Vec<SerializableG1Affine>,
    },
    BroadcastCommitments { dealer_id: SerializablePeerId, commitments: Vec<SerializableG1Affine> },
    SubmitComplaint { dealer_id: SerializablePeerId, from: SerializablePeerId, reason: String },
    DeclareADKGComplete { from: SerializablePeerId, share: SerializableScalar },
}

/// A response of the request/response protocol.
pub enum RPCResponse {
    Custom { id: String, data: Vec<u8> },
    DKGStarted { peer_id: SerializablePeerId },
    DKGError(String),
    DKGStatus { status: DKGStatus },
    Error(String),
    PeerInfo(PeerInfo),
    Pong,
    NoResponse,
    Ack,
    Verified,
    ShareAccepted,
    ComplaintAccepted,
    FinishedADKG { group_public_key: SerializableG1Affine },
    GotAVSSShare {
        dealer_id: SerializablePeerId,
        receiver_id: SerializablePeerId,
        share: SerializableScalar,
        commitments: Vec<SerializableG1Affine>,
    },
}

} // verus!
