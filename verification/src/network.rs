//! The decisions of the network layer: which response a request gets, what the peer
//! table records, where a gossip message goes, and what a message from the node's parts
//! turns into on the wire. Sending and receiving are left to the caller.

use vstd::prelude::*;
use crate::strmap::{distinct_keys, has_key, insert_entry, key_pos, lookup};
use crate::types::{
    is_peer_id, peer_id_valid, ChannelMessage, GossipsubMessage, PeerInfo, RPCRequest, RPCResponse, SerializablePeerId,
    MSG_TOPIC_DKG,
};
use crate::dkg::{first_with_index, index_of_id, DKGMessage, DKGNode, DKGStatus};
use crate::signing::{SigningMessage, SigningNode};
use crate::consensus::ConsensusNode;
use crate::commands::{
    handler_name_of, lemma_registration_keeps_names_distinct, Command, CommandProcessor,
};

verus! {

/// Whether two byte strings are equal.
pub fn bytes_eq(a: &Vec<u8>, b: &Vec<u8>) -> (res: bool)
    ensures
        res == (a@ == b@),
{
    if a.len() != b.len() {
        return false;
    }
    let mut i: usize = 0;
    while i < a.len()
        invariant
            a@.len() == b@.len(),
            0 <= i <= a@.len(),
            forall|k: int| 0 <= k < i ==> a@[k] == b@[k],
        decreases a@.len() - i,
    {
        if a[i] != b[i] {
            return false;
        }
        i = i + 1;
    }
    proof {
        assert(a@ =~= b@);
    }
    true
}

/// The number of peers marked connected.
pub open spec fn count_connected(e: Seq<(Seq<u8>, PeerInfo)>) -> nat
    decreases e.len(),
{
    if e.len() == 0 {
        0
    } else {
        count_connected(e.drop_last()) + if e.last().1.connected {
            1nat
        } else {
            0nat
        }
    }
}

/// What is known of each peer, keyed by the peer's identity bytes.
pub struct PeerTable {
    entries: Vec<(Vec<u8>, PeerInfo)>,
}

impl PeerTable {
    /// The entries, keys given by their bytes.
    pub closed spec fn entries(&self) -> Seq<(Seq<u8>, PeerInfo)> {
        self.entries@.map_values(|e: (Vec<u8>, PeerInfo)| (e.0@, e.1))
    }

    /// No two entries share a key.
    pub open spec fn wf(&self) -> bool {
        distinct_keys(self.entries())
    }

    /// An empty table.
    pub fn new() -> (res: PeerTable)
        ensures
            res.wf(),
            res.entries().len() == 0,
    {
        PeerTable { entries: Vec::new() }
    }

    fn find(&self, k: &Vec<u8>) -> (res: Option<usize>)
        requires
            self.wf(),
        ensures
            res is Some <==> has_key(self.entries(), k@),
            res matches Some(i) ==> i < self.entries().len() && i == key_pos(self.entries(), k@),
    {
        let mut i: usize = 0;
        while i < self.entries.len()
            invariant
                0 <= i <= self.entries@.len(),
                distinct_keys(self.entries()),
                forall|j: int| 0 <= j < i ==> #[trigger] self.entries()[j].0 != k@,
            decreases self.entries@.len() - i,
        {
            if bytes_eq(&self.entries[i].0, k) {
                proof {
                    assert(self.entries()[i as int].0 == k@);
                    let p = key_pos(self.entries(), k@);
                    assert(0 <= p < self.entries().len() && self.entries()[p].0 == k@);
                }
                return Some(i);
            }
            proof {
                assert(self.entries()[i as int].0 != k@);
            }
            i = i + 1;
        }
        None
    }

    /// Records `info` for `peer`, replacing what was known of it.
    pub fn insert(&mut self, peer: Vec<u8>, info: PeerInfo)
        requires
            old(self).wf(),
        ensures
            final(self).wf(),
            final(self).entries() == insert_entry(old(self).entries(), peer@, info),
    {
        let ghost e = self.entries();
        match self.find(&peer) {
            Some(i) => {
                let _ = self.entries.remove(i);
                let ghost kv = peer@;
                self.entries.insert(i, (peer, info));
                proof {
                    assert(self.entries() =~= e.update(i as int, (kv, info)));
                }
            },
            None => {
                let ghost kv = peer@;
                self.entries.push((peer, info));
                proof {
                    assert(self.entries() =~= e.push((kv, info)));
                }
            },
        }
    }

    /// Marks `peer` as no longer connected, keeping its addresses; an unknown peer is
    /// ignored.
    pub fn mark_disconnected(&mut self, peer: &Vec<u8>)
        requires
            old(self).wf(),
        ensures
            final(self).wf(),
            has_key(old(self).entries(), peer@) ==> {
                let p = key_pos(old(self).entries(), peer@);
                final(self).entries() == old(self).entries().update(
                    p,
                    (
                        peer@,
                        PeerInfo {
                            addresses: old(self).entries()[p].1.addresses,
                            connected: false,
                        },
                    ),
                )
            },
            !has_key(old(self).entries(), peer@) ==> final(self).entries() == old(self).entries(),
    {
        let ghost e = self.entries();
        if let Some(i) = self.find(peer) {
            let (key, info) = self.entries.remove(i);
            let updated = PeerInfo { addresses: info.addresses, connected: false };
            let ghost kv = key@;
            let ghost u = updated;
            self.entries.insert(i, (key, updated));
            proof {
                assert(self.entries() =~= e.update(i as int, (kv, u)));
                assert forall|a: int, b: int|
                    0 <= a < self.entries().len() && 0 <= b < self.entries().len() && a
                        != b implies self.entries()[a].0 != self.entries()[b].0 by {
                    assert(self.entries()[a].0 == e[a].0);
                    assert(self.entries()[b].0 == e[b].0);
                }
            }
        }
    }

    /// The number of peers marked connected.
    pub fn connected_count(&self) -> (res: usize)
        ensures
            res == count_connected(self.entries()),
    {
        let ghost e = self.entries();
        let mut count: usize = 0;
        let mut i: usize = 0;
        while i < self.entries.len()
            invariant
                e == self.entries(),
                0 <= i <= e.len(),
                count == count_connected(e.take(i as int)),
                count <= i,
            decreases e.len() - i,
        {
            proof {
                assert(e.take((i + 1) as int).drop_last() =~= e.take(i as int));
            }
            if self.entries[i].1.connected {
                count = count + 1;
            }
            i = i + 1;
        }
        proof {
            assert(e.take(e.len() as int) =~= e);
        }
        count
    }
}

proof fn lemma_count_connected_push(e: Seq<(Seq<u8>, PeerInfo)>, x: (Seq<u8>, PeerInfo))
    ensures
        count_connected(e.push(x)) == count_connected(e) + if x.1.connected {
            1nat
        } else {
            0nat
        },
{
    assert(e.push(x).drop_last() =~= e);
}

proof fn lemma_count_connected_update(e: Seq<(Seq<u8>, PeerInfo)>, p: int, x: (Seq<u8>, PeerInfo))
    requires
        0 <= p < e.len(),
    ensures
        count_connected(e.update(p, x)) + (if e[p].1.connected {
            1nat
        } else {
            0nat
        }) == count_connected(e) + if x.1.connected {
            1nat
        } else {
            0nat
        },
    decreases e.len(),
{
    if p == e.len() - 1 {
        assert(e.update(p, x).drop_last() =~= e.drop_last());
    } else {
        lemma_count_connected_update(e.drop_last(), p, x);
        assert(e.update(p, x).drop_last() =~= e.drop_last().update(p, x));
    }
}

/// Recording a peer as connected raises the connected count by one, unless the peer was
/// already known as connected, in which case the count stays.
pub proof fn lemma_connected_count_after_discovery(
    e: Seq<(Seq<u8>, PeerInfo)>,
    peer: Seq<u8>,
    info: PeerInfo,
)
    requires
        distinct_keys(e),
        info.connected,
    ensures
        count_connected(insert_entry(e, peer, info)) == count_connected(e) + if lookup(
            e,
            peer,
        ) matches Some(i) && i.connected {
            0nat
        } else {
            1nat
        },
{
    if has_key(e, peer) {
        let p = key_pos(e, peer);
        lemma_count_connected_update(e, p, (peer, info));
    } else {
        lemma_count_connected_push(e, (peer, info));
    }
}

/// Marking a known peer as no longer connected lowers the connected count by one if it
/// was connected, and leaves it otherwise.
pub proof fn lemma_connected_count_after_expiry(e: Seq<(Seq<u8>, PeerInfo)>, peer: Seq<u8>)
    requires
        distinct_keys(e),
        has_key(e, peer),
    ensures
        ({
            let p = key_pos(e, peer);
            count_connected(
                e.update(p, (peer, PeerInfo { addresses: e[p].1.addresses, connected: false })),
            ) + (if e[p].1.connected {
                1nat
            } else {
                0nat
            }) == count_connected(e)
        }),
{
    let p = key_pos(e, peer);
    lemma_count_connected_update(
        e,
        p,
        (peer, PeerInfo { addresses: e[p].1.addresses, connected: false }),
    );
}

/// `s` without any occurrence of `x`, order kept.
pub open spec fn without(s: Seq<Seq<u8>>, x: Seq<u8>) -> Seq<Seq<u8>>
    decreases s.len(),
{
    if s.len() == 0 {
        Seq::empty()
    } else if s.last() == x {
        without(s.drop_last(), x)
    } else {
        without(s.drop_last(), x).push(s.last())
    }
}

proof fn lemma_without_contains(s: Seq<Seq<u8>>, x: Seq<u8>, y: Seq<u8>)
    ensures
        without(s, x).contains(y) <==> (s.contains(y) && y != x),
    decreases s.len(),
{
    if s.len() > 0 {
        let t = s.drop_last();
        lemma_without_contains(t, x, y);
        assert(s =~= t.push(s.last()));
        if s.contains(y) && y != x && !t.contains(y) {
            let i = choose|i: int| 0 <= i < s.len() && s[i] == y;
            if i < t.len() {
                assert(t[i] == y);
            }
        }
        if s.last() != x {
            let w = without(t, x);
            assert(w.push(s.last())[w.len() as int] == s.last());
            if w.push(s.last()).contains(y) && !w.contains(y) {
                let i = choose|i: int| 0 <= i < w.push(s.last()).len() && w.push(s.last())[i] == y;
                if i < w.len() {
                    assert(w[i] == y);
                }
            }
            if w.contains(y) {
                let i = choose|i: int| 0 <= i < w.len() && w[i] == y;
                assert(w.push(s.last())[i] == y);
            }
        }
        if t.contains(y) {
            let i = choose|i: int| 0 <= i < t.len() && t[i] == y;
            assert(s[i] == y);
        }
    }
}

proof fn lemma_without_no_duplicates(s: Seq<Seq<u8>>, x: Seq<u8>)
    requires
        s.no_duplicates(),
    ensures
        without(s, x).no_duplicates(),
    decreases s.len(),
{
    if s.len() > 0 {
        let t = s.drop_last();
        assert(t.no_duplicates()) by {
            assert forall|i: int, j: int|
                0 <= i < t.len() && 0 <= j < t.len() && i != j implies t[i] != t[j] by {
                assert(t[i] == s[i] && t[j] == s[j]);
            }
        }
        lemma_without_no_duplicates(t, x);
        if s.last() != x {
            let w = without(t, x);
            lemma_without_contains(t, x, s.last());
            assert(!t.contains(s.last())) by {
                if t.contains(s.last()) {
                    let i = choose|i: int| 0 <= i < t.len() && t[i] == s.last();
                    assert(s[i] == s[s.len() - 1]);
                }
            }
            assert forall|i: int, j: int|
                0 <= i < w.push(s.last()).len() && 0 <= j < w.push(s.last()).len() && i
                    != j implies w.push(s.last())[i] != w.push(s.last())[j] by {
                if i == w.len() {
                    assert(w[j] != s.last());
                } else if j == w.len() {
                    assert(w[i] != s.last());
                }
            }
        }
    }
}

/// A peer list lists no peer twice, and each update keeps it so: after a discovery the
/// peer is listed exactly once, at the end; after an expiry it is not listed; every
/// other peer stays listed or unlisted as before.
pub proof fn lemma_peer_list_lists_once(ids: Seq<Seq<u8>>, peer: Seq<u8>, other: Seq<u8>)
    requires
        ids.no_duplicates(),
    ensures
        without(ids, peer).no_duplicates(),
        without(ids, peer).push(peer).no_duplicates(),
        !without(ids, peer).contains(peer),
        without(ids, peer).push(peer).last() == peer,
        other != peer ==> (without(ids, peer).contains(other) <==> ids.contains(other)),
{
    lemma_without_no_duplicates(ids, peer);
    lemma_without_contains(ids, peer, peer);
    lemma_without_contains(ids, peer, other);
    let w = without(ids, peer);
    assert forall|i: int, j: int|
        0 <= i < w.push(peer).len() && 0 <= j < w.push(peer).len() && i != j implies w.push(
        peer,
    )[i] != w.push(peer)[j] by {
        if i == w.len() {
            assert(w[j] != peer);
        } else if j == w.len() {
            assert(w[i] != peer);
        }
    }
}

/// The peers listed after a run of events on an empty list, each event a discovery
/// (`true`) or an expiry (`false`) of a peer.
pub open spec fn peers_after(events: Seq<(bool, Seq<u8>)>) -> Seq<Seq<u8>>
    decreases events.len(),
{
    if events.len() == 0 {
        Seq::empty()
    } else {
        let prev = peers_after(events.drop_last());
        let e = events.last();
        if e.0 {
            without(prev, e.1).push(e.1)
        } else {
            without(prev, e.1)
        }
    }
}

/// The last event about `peer` in the run is a discovery.
pub open spec fn last_discovered(events: Seq<(bool, Seq<u8>)>, peer: Seq<u8>) -> bool {
    exists|i: int|
        0 <= i < events.len() && #[trigger] events[i] == (true, peer) && forall|j: int|
            i < j < events.len() ==> (#[trigger] events[j]).1 != peer
}

proof fn lemma_peers_after_contains(events: Seq<(bool, Seq<u8>)>, peer: Seq<u8>)
    ensures
        peers_after(events).no_duplicates(),
        peers_after(events).contains(peer) <==> last_discovered(events, peer),
    decreases events.len(),
{
    if events.len() > 0 {
        let pre = events.drop_last();
        let n = events.len() - 1;
        let e = events.last();
        lemma_peers_after_contains(pre, peer);
        let prev = peers_after(pre);
        lemma_peer_list_lists_once(prev, e.1, peer);
        assert(events[n] == e);
        if peer == e.1 {
            if e.0 {
                let l = without(prev, e.1).push(e.1);
                assert(l[l.len() - 1] == peer);
                assert(last_discovered(events, peer));
            } else {
                if last_discovered(events, peer) {
                    let i = choose|i: int|
                        0 <= i < events.len() && #[trigger] events[i] == (true, peer) && forall|
                            j: int,
                        | i < j < events.len() ==> (#[trigger] events[j]).1 != peer;
                    assert(i != n);
                    assert(events[n].1 == peer);
                }
            }
        } else {
            if e.0 {
                let w = without(prev, e.1);
                let l = w.push(e.1);
                if w.contains(peer) {
                    let i = choose|i: int| 0 <= i < w.len() && w[i] == peer;
                    assert(l[i] == peer);
                }
                if l.contains(peer) {
                    let i = choose|i: int| 0 <= i < l.len() && l[i] == peer;
                    assert(i < w.len());
                    assert(w[i] == peer);
                }
            }
            if last_discovered(pre, peer) {
                let i = choose|i: int|
                    0 <= i < pre.len() && #[trigger] pre[i] == (true, peer) && forall|j: int|
                        i < j < pre.len() ==> (#[trigger] pre[j]).1 != peer;
                assert(events[i] == (true, peer));
                assert forall|j: int| i < j < events.len() implies (#[trigger] events[j]).1
                    != peer by {
                    if j < n {
                        assert(events[j] == pre[j]);
                    }
                }
            }
            if last_discovered(events, peer) {
                let i = choose|i: int|
                    0 <= i < events.len() && #[trigger] events[i] == (true, peer) && forall|
                        j: int,
                    | i < j < events.len() ==> (#[trigger] events[j]).1 != peer;
                assert(i != n);
                assert(pre[i] == (true, peer));
                assert forall|j: int| i < j < pre.len() implies (#[trigger] pre[j]).1 != peer by {
                    assert(events[j] == pre[j]);
                }
            }
        }
    }
}

/// Over any run of discoveries and expiries from an empty list, the list holds exactly
/// the peers whose last event was a discovery, each once, however often a peer was
/// rediscovered; so its length is the number of such peers.
pub proof fn lemma_peer_list_after_events(events: Seq<(bool, Seq<u8>)>)
    ensures
        peers_after(events).no_duplicates(),
        forall|peer: Seq<u8>|
            #[trigger] peers_after(events).contains(peer) <==> last_discovered(events, peer),
        peers_after(events).len() == Set::new(|p: Seq<u8>| last_discovered(events, p)).len(),
{
    lemma_peers_after_contains(events, Seq::empty());
    assert forall|peer: Seq<u8>| #[trigger] peers_after(events).contains(peer) <==> last_discovered(
        events,
        peer,
    ) by {
        lemma_peers_after_contains(events, peer);
    }
    let l = peers_after(events);
    assert(l.to_set() =~= Set::new(|p: Seq<u8>| last_discovered(events, p)));
    l.unique_seq_to_set();
}

/// The peers found on the local network, in order of discovery, each listed once.
pub struct PeerList {
    peers: Vec<Vec<u8>>,
}

impl PeerList {
    /// The listed peers' identity bytes.
    pub closed spec fn ids(&self) -> Seq<Seq<u8>> {
        self.peers@.map_values(|p: Vec<u8>| p@)
    }

    /// An empty list.
    pub fn new() -> (res: PeerList)
        ensures
            res.ids().len() == 0,
            res.ids().no_duplicates(),
    {
        let res = PeerList { peers: Vec::new() };
        proof {
            assert(res.ids() =~= Seq::<Seq<u8>>::empty());
        }
        res
    }

    fn remove_peer(&mut self, peer: &Vec<u8>)
        ensures
            final(self).ids() == without(old(self).ids(), peer@),
    {
        let ghost before = self.ids();
        let mut kept: Vec<Vec<u8>> = Vec::new();
        let mut i: usize = 0;
        while i < self.peers.len()
            invariant
                before == self.ids(),
                0 <= i <= before.len(),
                kept@.map_values(|p: Vec<u8>| p@) == without(before.take(i as int), peer@),
            decreases before.len() - i,
        {
            proof {
                assert(before.take((i + 1) as int).drop_last() =~= before.take(i as int));
                assert(before.take((i + 1) as int).last() == self.peers@[i as int]@);
            }
            if !bytes_eq(&self.peers[i], peer) {
                let ghost k0 = kept@.map_values(|p: Vec<u8>| p@);
                let p = self.peers[i].clone();
                kept.push(p);
                proof {
                    assert(kept@.map_values(|p: Vec<u8>| p@) =~= k0.push(self.peers@[i as int]@));
                }
            }
            i = i + 1;
        }
        proof {
            assert(before.take(before.len() as int) =~= before);
        }
        self.peers = kept;
    }

    /// Records a discovered peer: it moves to the end of the list, listed once.
    pub fn discovered(&mut self, peer: Vec<u8>)
        ensures
            final(self).ids() == without(old(self).ids(), peer@).push(peer@),
            old(self).ids().no_duplicates() ==> final(self).ids().no_duplicates(),
    {
        self.remove_peer(&peer);
        let ghost k0 = self.ids();
        let ghost kv = peer@;
        self.peers.push(peer);
        proof {
            assert(self.ids() =~= k0.push(kv));
            if old(self).ids().no_duplicates() {
                lemma_peer_list_lists_once(old(self).ids(), kv, kv);
            }
        }
    }

    /// Records that a peer has expired: it leaves the list.
    pub fn expired(&mut self, peer: &Vec<u8>)
        ensures
            final(self).ids() == without(old(self).ids(), peer@),
            old(self).ids().no_duplicates() ==> final(self).ids().no_duplicates(),
    {
        self.remove_peer(peer);
        proof {
            if old(self).ids().no_duplicates() {
                lemma_peer_list_lists_once(old(self).ids(), peer@, peer@);
            }
        }
    }

    /// The number of listed peers.
    pub fn len(&self) -> (res: usize)
        ensures
            res == self.ids().len(),
    {
        self.peers.len()
    }
}

/// A hexadecimal digit's value.
pub open spec fn hex_digit(c: char) -> Option<int> {
    if '0' <= c <= '9' {
        Some((c as int) - ('0' as int))
    } else if 'a' <= c <= 'f' {
        Some((c as int) - ('a' as int) + 10)
    } else if 'A' <= c <= 'F' {
        Some((c as int) - ('A' as int) + 10)
    } else {
        None
    }
}

/// What a hexadecimal string decodes to: an even number of hex digits, two per byte,
/// the high nibble first; anything else does not decode.
pub open spec fn hex_decoded(s: Seq<char>) -> Option<Seq<u8>> {
    if s.len() % 2 == 0 && (forall|i: int| 0 <= i < s.len() ==> #[trigger] hex_digit(s[i]) is Some) {
        Some(
            Seq::new(
                s.len() / 2,
                |k: int| (hex_digit(s[2 * k])->0 * 16 + hex_digit(s[2 * k + 1])->0) as u8,
            ),
        )
    } else {
        None
    }
}

/// `hex::decode`: an even number of hex digits (either case), two per byte, high nibble
/// first; an odd length or any other character fails.
#[verifier::external_body]
fn hex_decode(s: &str) -> (res: Option<Vec<u8>>)
    ensures
        res is None <==> hex_decoded(s@) is None,
        res matches Some(v) ==> hex_decoded(s@) == Some(v@),
{
    hex::decode(s).ok()
}

/// Why a message from the node's parts could not be sent.
#[derive(Clone, Copy, Debug, PartialEq, Eq)]
pub enum ChannelError {
    /// The peer identity is not a hexadecimal string.
    InvalidHex,
    /// The decoded bytes are not a valid peer identity.
    InvalidPeerId,
}

/// What to do on the wire for a message from the node's parts.
pub enum ChannelAction {
    /// Publish `data` on the gossip topic `topic`.
    Publish { topic: String, data: Vec<u8> },
    /// Send `request` directly to the peer with identity bytes `peer`.
    SendRequest { peer: Vec<u8>, request: RPCRequest },
    /// The message cannot be sent.
    Fail(ChannelError),
}

/// The action that a message from the node's parts calls for (see
/// `NetworkLayer::handle_channel_message`).
pub open spec fn channel_action_for(message: ChannelMessage, res: ChannelAction) -> bool {
    match message {
        ChannelMessage::Broadcast { topic, data } => res == (ChannelAction::Publish { topic, data }),
        ChannelMessage::Unicast { peer_id, data } => match hex_decoded(peer_id@) {
            None => res == ChannelAction::Fail(ChannelError::InvalidHex),
            Some(bytes) => if peer_id_valid(bytes) {
                &&& res matches ChannelAction::SendRequest { peer, request }
                &&& res->peer@ == bytes
                &&& res->request matches RPCRequest::Custom { id, data: d }
                &&& res->request->id@ == "custom"@
                &&& res->request->Custom_data == data
            } else {
                res == ChannelAction::Fail(ChannelError::InvalidPeerId)
            },
        },
    }
}

/// The response, and key generation message, that a request calls for, given the key
/// generation part before and after (see `NetworkLayer::handle_request`).
pub open spec fn response_for(
    d: Option<DKGNode>,
    d2: Option<DKGNode>,
    peer: Vec<u8>,
    request: RPCRequest,
    res: (RPCResponse, Option<DKGMessage>),
) -> bool {
    match request {
        RPCRequest::Ping => res.0 == RPCResponse::Pong,
        RPCRequest::GetPeerInfo => {
            &&& res.0 matches RPCResponse::PeerInfo(info)
            &&& res.0->PeerInfo_0.addresses@.len() == 0
            &&& res.0->PeerInfo_0.connected
        },
        RPCRequest::Custom { id, data } => res.0 == (RPCResponse::Custom { id, data }),
        RPCRequest::StartADKG => match d {
            Some(dn) => {
                &&& d2 is Some
                &&& res.1 is Some
                &&& dn.started(d2->0, res.1->0)
                &&& res.0 == (RPCResponse::DKGStarted { peer_id: SerializablePeerId(peer) })
            },
            None => {
                &&& d2 is None
                &&& res.1 is None
                &&& res.0 matches RPCResponse::DKGError(e)
                &&& res.0->DKGError_0@ == "dkg is not initialized."@
            },
        },
        RPCRequest::GetDKGStatus => match d {
            Some(dn) => res.0 == (RPCResponse::DKGStatus { status: dn.spec_status() }),
            None => res.0 == (RPCResponse::DKGStatus { status: DKGStatus::New }),
        },
        RPCRequest::SendAVSSShare { .. } => match d {
            Some(dn) => res.0 == RPCResponse::ShareAccepted,
            None => {
                &&& res.0 matches RPCResponse::Error(e)
                &&& res.0->Error_0@ == "DKG not initialized"@
            },
        },
        _ => res.0 == RPCResponse::Ack,
    }
}

/// What to do after a gossip message has been handed to the part it is for.
pub enum GossipAction {
    /// Broadcast this message on the key generation topic.
    BroadcastDkg(DKGMessage),
    /// Broadcast this message on the signing topic.
    BroadcastSigning(SigningMessage),
    /// Run the handler registered under `name` on `command`.
    RunHandler { name: &'static str, command: Command },
    /// Nothing further.
    Done,
}

/// The node's network state: its identity, its peers, its subscriptions and the
/// protocol parts that messages are routed to.
pub struct NetworkLayer {
    local_peer_id: Vec<u8>,
    peers: PeerTable,
    topics: Vec<String>,
    dkg_node: Option<DKGNode>,
    signing_node: Option<SigningNode>,
    consensus_node: Option<ConsensusNode>,
    command_processor: Option<CommandProcessor>,
}

impl NetworkLayer {
    /// The node's own peer identity bytes.
    pub closed spec fn spec_local_peer_id(&self) -> Seq<u8> {
        self.local_peer_id@
    }

    /// The peer table.
    pub closed spec fn peer_entries(&self) -> Seq<(Seq<u8>, PeerInfo)> {
        self.peers.entries()
    }

    /// The subscribed topics.
    pub closed spec fn spec_topics(&self) -> Seq<Seq<char>> {
        self.topics@.map_values(|t: String| t@)
    }

    /// The key generation part, if set.
    pub closed spec fn spec_dkg_node(&self) -> Option<DKGNode> {
        self.dkg_node
    }

    /// The signing part, if set.
    pub closed spec fn spec_signing_node(&self) -> Option<SigningNode> {
        self.signing_node
    }

    /// The consensus part, if set.
    pub closed spec fn spec_consensus_node(&self) -> Option<ConsensusNode> {
        self.consensus_node
    }

    /// The command registry, if set.
    pub closed spec fn spec_command_processor(&self) -> Option<CommandProcessor> {
        self.command_processor
    }

    /// What handing a gossip message to the node's parts does (see `handle_gossip`).
    pub open spec fn gossip_handled(
        self,
        new: NetworkLayer,
        msg: GossipsubMessage,
        res: GossipAction,
    ) -> bool {
        match msg {
            GossipsubMessage::DKG(m) => match self.spec_dkg_node() {
                Some(d) => {
                    &&& new.spec_dkg_node() is Some
                    &&& exists|r: Option<DKGMessage>|
                        #[trigger] d.handled(new.spec_dkg_node()->0, m, r) && match r {
                            Some(v) => res == GossipAction::BroadcastDkg(v),
                            None => res is Done,
                        }
                },
                None => new.spec_dkg_node() is None && res is Done,
            },
            GossipsubMessage::Signing(m) => match self.spec_signing_node() {
                Some(n) => {
                    &&& new.spec_signing_node() is Some
                    &&& exists|r: Option<SigningMessage>|
                        #[trigger] n.handled(new.spec_signing_node()->0, m, r) && match r {
                            Some(v) => res == GossipAction::BroadcastSigning(v),
                            None => res is Done,
                        }
                },
                None => new.spec_signing_node() is None && res is Done,
            },
            GossipsubMessage::Command(c) => match self.spec_command_processor() {
                Some(p) => if p.handler_names().contains(handler_name_of(c)) {
                    &&& res matches GossipAction::RunHandler { name, command }
                    &&& res->name@ == handler_name_of(c)
                    &&& res->command == c
                } else {
                    res is Done
                },
                None => res is Done,
            },
            GossipsubMessage::Consensus(_) => res is Done,
        }
    }

    /// The peer table and the parts are well formed.
    pub closed spec fn wf(&self) -> bool {
        &&& self.peers.wf()
        &&& self.dkg_node matches Some(d) ==> d.wf()
        &&& self.signing_node matches Some(n) ==> n.wf()
        &&& self.consensus_node matches Some(n) ==> n.wf()
    }

    /// In a well-formed layer no peer is listed twice, and the parts that are set are
    /// well formed.
    pub proof fn lemma_wf_parts(&self)
        requires
            self.wf(),
        ensures
            distinct_keys(self.peer_entries()),
            self.spec_dkg_node() matches Some(d) ==> d.wf(),
            self.spec_signing_node() matches Some(n) ==> n.wf(),
            self.spec_consensus_node() matches Some(n) ==> n.wf(),
    {
    }

    /// A layer for the peer with identity bytes `local_peer_id`, with no peers, topics
    /// or parts.
    pub fn new(local_peer_id: Vec<u8>) -> (res: NetworkLayer)
        ensures
            res.wf(),
            res.spec_local_peer_id() == local_peer_id@,
            res.peer_entries().len() == 0,
            res.spec_topics().len() == 0,
            res.spec_topics().no_duplicates(),
            res.spec_dkg_node() is None,
            res.spec_signing_node() is None,
            res.spec_consensus_node() is None,
            res.spec_command_processor() is None,
    {
        let res = NetworkLayer {
            local_peer_id,
            peers: PeerTable::new(),
            topics: Vec::new(),
            dkg_node: None,
            signing_node: None,
            consensus_node: None,
            command_processor: None,
        };
        proof {
            assert(res.spec_topics() =~= Seq::<Seq<char>>::empty());
        }
        res
    }
    /// Sets the key generation part.
    pub fn set_dkg_node(&mut self, dkg_node: DKGNode)
        requires
            old(self).wf(),
            dkg_node.wf(),
        ensures
            final(self).wf(),
            final(self).spec_dkg_node() == Some(dkg_node),
            final(self).spec_signing_node() == old(self).spec_signing_node(),
            final(self).spec_consensus_node() == old(self).spec_consensus_node(),
            final(self).spec_command_processor() == old(self).spec_command_processor(),
            final(self).peer_entries() == old(self).peer_entries(),
            final(self).spec_topics() == old(self).spec_topics(),
            final(self).spec_local_peer_id() == old(self).spec_local_peer_id(),
    {
        self.dkg_node = Some(dkg_node);
    }

    /// Sets the signing part.
    pub fn set_signing_node(&mut self, signing_node: SigningNode)
        requires
            old(self).wf(),
            signing_node.wf(),
        ensures
            final(self).wf(),
            final(self).spec_signing_node() == Some(signing_node),
            final(self).spec_dkg_node() == old(self).spec_dkg_node(),
            final(self).spec_consensus_node() == old(self).spec_consensus_node(),
            final(self).spec_command_processor() == old(self).spec_command_processor(),
            final(self).peer_entries() == old(self).peer_entries(),
            final(self).spec_topics() == old(self).spec_topics(),
            final(self).spec_local_peer_id() == old(self).spec_local_peer_id(),
    {
        self.signing_node = Some(signing_node);
    }

    /// Sets the consensus part.
    pub fn set_consensus_node(&mut self, node: ConsensusNode)
        requires
            old(self).wf(),
            node.wf(),
        ensures
            final(self).wf(),
            final(self).spec_consensus_node() == Some(node),
            final(self).spec_dkg_node() == old(self).spec_dkg_node(),
            final(self).spec_signing_node() == old(self).spec_signing_node(),
            final(self).spec_command_processor() == old(self).spec_command_processor(),
            final(self).peer_entries() == old(self).peer_entries(),
            final(self).spec_topics() == old(self).spec_topics(),
            final(self).spec_local_peer_id() == old(self).spec_local_peer_id(),
    {
        self.consensus_node = Some(node);
    }

    /// Sets the command registry.
    pub fn set_command_processor(&mut self, processor: CommandProcessor)
        requires
            old(self).wf(),
        ensures
            final(self).wf(),
            final(self).spec_command_processor() == Some(processor),
            final(self).spec_dkg_node() == old(self).spec_dkg_node(),
            final(self).spec_signing_node() == old(self).spec_signing_node(),
            final(self).spec_consensus_node() == old(self).spec_consensus_node(),
            final(self).peer_entries() == old(self).peer_entries(),
            final(self).spec_topics() == old(self).spec_topics(),
            final(self).spec_local_peer_id() == old(self).spec_local_peer_id(),
    {
        self.command_processor = Some(processor);
    }

    /// The key generation part's threshold, when a part is set. Starting key generation
    /// through `handle_request` needs it below `usize::MAX`.
    pub fn dkg_threshold(&self) -> (res: Option<usize>)
        ensures
            match self.spec_dkg_node() {
                Some(d) => res == Some(d.spec_threshold()),
                None => res is None,
            },
    {
        match &self.dkg_node {
            Some(d) => Some(d.threshold()),
            None => None,
        }
    }

    /// The node's own peer identity bytes.
    pub fn get_local_peer_id(&self) -> (res: &Vec<u8>)
        ensures
            res@ == self.spec_local_peer_id(),
    {
        &self.local_peer_id
    }

    /// The topics every node subscribes to: key generation, signing, consensus and
    /// commands.
    pub fn default_topics() -> (res: Vec<String>)
        ensures
            res@.len() == 4,
            res@[0]@ == MSG_TOPIC_DKG@,
            res@[1]@ == "signing"@,
            res@[2]@ == "consensus"@,
            res@[3]@ == "commands"@,
    {
        let mut topics: Vec<String> = Vec::new();
        topics.push(MSG_TOPIC_DKG.to_owned());
        topics.push("signing".to_owned());
        topics.push("consensus".to_owned());
        topics.push("commands".to_owned());
        topics
    }

    /// Records a subscription to `topic`; a topic already recorded is not added twice.
    pub fn record_topic(&mut self, topic: String)
        ensures
            old(self).spec_topics().contains(topic@) ==> final(self).spec_topics()
                == old(self).spec_topics(),
            !old(self).spec_topics().contains(topic@) ==> final(self).spec_topics()
                == old(self).spec_topics().push(topic@),
            old(self).spec_topics().no_duplicates() ==> final(self).spec_topics().no_duplicates(),
            final(self).wf() == old(self).wf(),
            final(self).spec_dkg_node() == old(self).spec_dkg_node(),
            final(self).spec_signing_node() == old(self).spec_signing_node(),
            final(self).spec_consensus_node() == old(self).spec_consensus_node(),
            final(self).spec_command_processor() == old(self).spec_command_processor(),
            final(self).peer_entries() == old(self).peer_entries(),
            final(self).spec_local_peer_id() == old(self).spec_local_peer_id(),
    {
        let ghost names = self.topics@.map_values(|t: String| t@);
        let mut i: usize = 0;
        while i < self.topics.len()
            invariant
                0 <= i <= self.topics@.len(),
                names == self.topics@.map_values(|t: String| t@),
                forall|j: int| 0 <= j < i ==> names[j] != topic@,
            decreases self.topics@.len() - i,
        {
            if self.topics[i] == topic {
                proof {
                    assert(names[i as int] == topic@);
                }
                return;
            }
            i = i + 1;
        }
        let ghost kv = topic@;
        self.topics.push(topic);
        proof {
            assert(self.topics@.map_values(|t: String| t@) =~= names.push(kv));
            if names.no_duplicates() {
                assert(!names.contains(kv));
                lemma_registration_keeps_names_distinct(names, kv);
            }
        }
    }

    /// Records that `peer` was discovered at `address`: it becomes connected with that
    /// single address.
    pub fn peer_discovered(&mut self, peer: Vec<u8>, address: Vec<u8>)
        requires
            old(self).wf(),
        ensures
            final(self).wf(),
            exists|info: PeerInfo|
                info.addresses@.len() == 1 && info.addresses@[0] == address && info.connected
                    && final(self).peer_entries() == insert_entry(
                    old(self).peer_entries(),
                    peer@,
                    info,
                ),
            final(self).spec_dkg_node() == old(self).spec_dkg_node(),
            final(self).spec_signing_node() == old(self).spec_signing_node(),
            final(self).spec_consensus_node() == old(self).spec_consensus_node(),
            final(self).spec_command_processor() == old(self).spec_command_processor(),
            final(self).spec_topics() == old(self).spec_topics(),
            final(self).spec_local_peer_id() == old(self).spec_local_peer_id(),
    {
        let mut addresses: Vec<Vec<u8>> = Vec::new();
        addresses.push(address);
        let info = PeerInfo { addresses, connected: true };
        let ghost g = info;
        self.peers.insert(peer, info);
        proof {
            assert(g.addresses@.len() == 1 && g.addresses@[0] == address && g.connected
                && self.peer_entries() == insert_entry(old(self).peer_entries(), peer@, g));
        }
    }

    /// Records that `peer` is no longer reachable; an unknown peer is ignored.
    pub fn peer_expired(&mut self, peer: &Vec<u8>)
        requires
            old(self).wf(),
        ensures
            final(self).wf(),
            has_key(old(self).peer_entries(), peer@) ==> {
                let p = key_pos(old(self).peer_entries(), peer@);
                final(self).peer_entries() == old(self).peer_entries().update(
                    p,
                    (
                        peer@,
                        PeerInfo {
                            addresses: old(self).peer_entries()[p].1.addresses,
                            connected: false,
                        },
                    ),
                )
            },
            !has_key(old(self).peer_entries(), peer@) ==> final(self).peer_entries() == old(
                self,
            ).peer_entries(),
            final(self).spec_dkg_node() == old(self).spec_dkg_node(),
            final(self).spec_signing_node() == old(self).spec_signing_node(),
            final(self).spec_consensus_node() == old(self).spec_consensus_node(),
            final(self).spec_command_processor() == old(self).spec_command_processor(),
            final(self).spec_topics() == old(self).spec_topics(),
            final(self).spec_local_peer_id() == old(self).spec_local_peer_id(),
    {
        self.peers.mark_disconnected(peer);
    }

    /// The number of peers currently marked connected.
    pub fn connected_peer_count(&self) -> (res: usize)
        ensures
            res == count_connected(self.peer_entries()),
    {
        self.peers.connected_count()
    }
    /// The response to a request from `peer`, and the key generation message to
    /// broadcast if the request started key generation.
    ///
    /// `Ping` gets `Pong`; `GetPeerInfo` an empty connected record; `Custom` is echoed;
    /// `StartADKG` starts key generation when a key generation part is set
    /// (`DKGStarted` naming the requester) and is refused otherwise; `GetDKGStatus`
    /// reports the part's status (`New` without a part); `SendAVSSShare` is accepted when
    /// a key generation part is set and its share check passes; anything else is
    /// acknowledged.
    pub fn handle_request(&mut self, peer: Vec<u8>, request: RPCRequest) -> (res: (
        RPCResponse,
        Option<DKGMessage>,
    ))
        requires
            old(self).wf(),
            request is StartADKG && old(self).spec_dkg_node() is Some ==> old(
                self,
            ).spec_dkg_node()->0.spec_threshold() < usize::MAX,
        ensures
            final(self).wf(),
            final(self).spec_signing_node() == old(self).spec_signing_node(),
            final(self).spec_consensus_node() == old(self).spec_consensus_node(),
            final(self).spec_command_processor() == old(self).spec_command_processor(),
            final(self).peer_entries() == old(self).peer_entries(),
            final(self).spec_topics() == old(self).spec_topics(),
            final(self).spec_local_peer_id() == old(self).spec_local_peer_id(),
            !(request is StartADKG) ==> final(self).spec_dkg_node() == old(self).spec_dkg_node(),
            !(request is StartADKG) ==> res.1 is None,
            response_for(old(self).spec_dkg_node(), final(self).spec_dkg_node(), peer, request, res),
    {
        match request {
            RPCRequest::Ping => (RPCResponse::Pong, None),
            RPCRequest::GetPeerInfo => (
                RPCResponse::PeerInfo(PeerInfo { addresses: Vec::new(), connected: true }),
                None,
            ),
            RPCRequest::Custom { id, data } => (RPCResponse::Custom { id, data }, None),
            RPCRequest::StartADKG => {
                match self.dkg_node.take() {
                    Some(mut dkg) => {
                        let msg = dkg.start_dkg();
                        self.dkg_node = Some(dkg);
                        (RPCResponse::DKGStarted { peer_id: SerializablePeerId(peer) }, Some(msg))
                    },
                    None => (RPCResponse::DKGError("dkg is not initialized.".to_owned()), None),
                }
            },
            RPCRequest::GetDKGStatus => {
                let status = match &self.dkg_node {
                    Some(dkg) => dkg.get_status(),
                    None => DKGStatus::New,
                };
                (RPCResponse::DKGStatus { status }, None)
            },
            RPCRequest::SendAVSSShare { dealer_id, receiver_id, share, commitments } => {
                match &self.dkg_node {
                    None => (RPCResponse::Error("DKG not initialized".to_owned()), None),
                    Some(dkg) => {
                        if dkg.verify_share(&share, commitments.as_slice()) {
                            (RPCResponse::ShareAccepted, None)
                        } else {
                            (RPCResponse::Error("Invalid share".to_owned()), None)
                        }
                    },
                }
            },
            _ => (RPCResponse::Ack, None),
        }
    }

    /// Hands a gossip message to the part it is for, when that part is set, and says
    /// what to do next: broadcast the part's reply, or run the command handler
    /// registered for the command. Messages for parts that are not set are dropped. A
    /// key generation validation report is not taken while a key generation part is set
    /// (see `DKGNode::handle_message`).
    pub fn handle_gossip(&mut self, msg: GossipsubMessage) -> (res: GossipAction)
        requires
            old(self).wf(),
            old(self).spec_dkg_node() is Some ==> !(msg matches GossipsubMessage::DKG(m) && m is ShareValidation),
        ensures
            final(self).wf(),
            final(self).spec_consensus_node() == old(self).spec_consensus_node(),
            final(self).spec_command_processor() == old(self).spec_command_processor(),
            final(self).peer_entries() == old(self).peer_entries(),
            final(self).spec_topics() == old(self).spec_topics(),
            final(self).spec_local_peer_id() == old(self).spec_local_peer_id(),
            !(msg is DKG) ==> final(self).spec_dkg_node() == old(self).spec_dkg_node(),
            !(msg is Signing) ==> final(self).spec_signing_node() == old(self).spec_signing_node(),
            old(self).gossip_handled(*final(self), msg, res),
    {
        match msg {
            GossipsubMessage::DKG(dkg_msg) => {
                match self.dkg_node.take() {
                    Some(mut dkg_node) => {
                        let ghost before = dkg_node;
                        let ghost m = dkg_msg;
                        let reply = dkg_node.handle_message(dkg_msg);
                        proof {
                            assert(before.handled(dkg_node, m, reply));
                        }
                        self.dkg_node = Some(dkg_node);
                        let action = match reply {
                            Some(v) => GossipAction::BroadcastDkg(v),
                            None => GossipAction::Done,
                        };
                        proof {
                            assert(self.spec_dkg_node()->0 == dkg_node);
                            assert(before.handled(self.spec_dkg_node()->0, m, reply) && match reply {
                                Some(v) => action == GossipAction::BroadcastDkg(v),
                                None => action is Done,
                            });
                        }
                        action
                    },
                    None => GossipAction::Done,
                }
            },
            GossipsubMessage::Signing(signing_msg) => {
                match self.signing_node.take() {
                    Some(mut signing_node) => {
                        let ghost before = signing_node;
                        let ghost m = signing_msg;
                        let reply = signing_node.handle_message(signing_msg);
                        proof {
                            assert(before.handled(signing_node, m, reply));
                        }
                        self.signing_node = Some(signing_node);
                        let action = match reply {
                            Some(v) => GossipAction::BroadcastSigning(v),
                            None => GossipAction::Done,
                        };
                        proof {
                            assert(self.spec_signing_node()->0 == signing_node);
                            assert(before.handled(self.spec_signing_node()->0, m, reply) && match reply {
                                Some(v) => action == GossipAction::BroadcastSigning(v),
                                None => action is Done,
                            });
                        }
                        action
                    },
                    None => GossipAction::Done,
                }
            },
            GossipsubMessage::Command(cmd) => {
                match &self.command_processor {
                    Some(processor) => {
                        match processor.handle_message(&cmd) {
                            Some(name) => GossipAction::RunHandler { name, command: cmd },
                            None => GossipAction::Done,
                        }
                    },
                    None => GossipAction::Done,
                }
            },
            GossipsubMessage::Consensus(consensus_msg) => {
                if let Some(consensus_node) = &self.consensus_node {
                    consensus_node.handle_message(consensus_msg);
                }
                GossipAction::Done
            },
        }
    }

    /// What a message from the node's parts turns into on the wire: a broadcast is
    /// published on its topic; a direct message goes as a `Custom` request with id
    /// `custom` to the peer whose identity the hex string encodes, and fails when the
    /// string is not hex or the bytes are not a peer identity.
    pub fn handle_channel_message(&self, message: ChannelMessage) -> (res: ChannelAction)
        ensures
            channel_action_for(message, res),
    {
        match message {
            ChannelMessage::Broadcast { topic, data } => ChannelAction::Publish { topic, data },
            ChannelMessage::Unicast { peer_id, data } => {
                match hex_decode(peer_id.as_str()) {
                    None => ChannelAction::Fail(ChannelError::InvalidHex),
                    Some(bytes) => {
                        if is_peer_id(&bytes) {
                            let request = RPCRequest::Custom { id: "custom".to_owned(), data };
                            ChannelAction::SendRequest { peer: bytes, request }
                        } else {
                            ChannelAction::Fail(ChannelError::InvalidPeerId)
                        }
                    },
                }
            },
        }
    }
}


/// The upper-case form of an ASCII letter; any other character is kept.
pub open spec fn ascii_upper(c: char) -> char {
    if 'a' <= c <= 'z' {
        ((c as u32) - 32) as char
    } else {
        c
    }
}

/// Hex digits are read the same in either case: a string decodes to the same bytes as
/// its upper-case form.
pub proof fn lemma_hex_decoding_ignores_case(s: Seq<char>)
    ensures
        hex_decoded(s.map_values(|c: char| ascii_upper(c))) == hex_decoded(s),
{
    let u = s.map_values(|c: char| ascii_upper(c));
    assert forall|i: int| 0 <= i < s.len() implies #[trigger] hex_digit(u[i]) == hex_digit(s[i]) by {
        let c = s[i];
        assert(u[i] == ascii_upper(c));
        if 'a' <= c <= 'z' {
            assert('A' <= ascii_upper(c) <= 'Z');
            assert((ascii_upper(c) as int) == (c as int) - 32);
        }
    }
    if hex_decoded(s) is Some {
        assert(forall|i: int| 0 <= i < u.len() ==> #[trigger] hex_digit(u[i]) is Some) by {
            assert forall|i: int| 0 <= i < u.len() implies #[trigger] hex_digit(u[i]) is Some by {
                assert(hex_digit(u[i]) == hex_digit(s[i]));
            }
        }
        assert(hex_decoded(u)->0 =~= hex_decoded(s)->0) by {
            assert forall|k: int| 0 <= k < s.len() / 2 implies hex_decoded(u)->0[k]
                == hex_decoded(s)->0[k] by {
                assert(hex_digit(u[2 * k]) == hex_digit(s[2 * k]));
                assert(hex_digit(u[2 * k + 1]) == hex_digit(s[2 * k + 1]));
            }
        }
    } else if hex_decoded(u) is Some {
        assert forall|i: int| 0 <= i < s.len() implies #[trigger] hex_digit(s[i]) is Some by {
            assert(hex_digit(u[i]) == hex_digit(s[i]));
            assert(hex_digit(u[i]) is Some);
        }
    }
}

/// A direct message's action depends on its peer string only through the bytes that
/// string decodes to: two strings that decode alike (say the same digits in lower and
/// in upper case) get the same kind of action, the same failure, and a request to the
/// same peer carrying the same data.
pub proof fn lemma_unicast_action_by_decoded_bytes(
    s1: String,
    s2: String,
    data: Vec<u8>,
    r1: ChannelAction,
    r2: ChannelAction,
)
    requires
        channel_action_for(ChannelMessage::Unicast { peer_id: s1, data }, r1),
        channel_action_for(ChannelMessage::Unicast { peer_id: s2, data }, r2),
        hex_decoded(s1@) == hex_decoded(s2@),
    ensures
        r1 is Fail <==> r2 is Fail,
        r1 is Fail ==> r1 == r2,
        r1 is SendRequest <==> r2 is SendRequest,
        r1 is SendRequest ==> {
            &&& r1->peer@ == r2->peer@
            &&& r1->request matches RPCRequest::Custom { id, data: d1 }
            &&& r2->request matches RPCRequest::Custom { id, data: d2 }
            &&& r1->request->Custom_data == r2->request->Custom_data
        },
        !(r1 is Publish) && !(r2 is Publish),
{
}

/// A direct message whose peer string decodes to a valid peer identity is always sent:
/// as a `Custom` request with id `custom` carrying the message's data, to exactly the
/// decoded bytes. A string that does not decode fails as not hex, and bytes that are
/// not a peer identity fail as such.
pub proof fn lemma_unicast_sent_to_decoded_peer(
    s: String,
    data: Vec<u8>,
    r: ChannelAction,
)
    requires
        channel_action_for(ChannelMessage::Unicast { peer_id: s, data }, r),
    ensures
        forall|bytes: Seq<u8>|
            hex_decoded(s@) == Some(bytes) && peer_id_valid(bytes) ==> (r matches ChannelAction::SendRequest {
                peer,
                request: RPCRequest::Custom { id, data: d },
            } && peer@ == bytes && id@ == "custom"@ && d == data),
        hex_decoded(s@) is None <==> r == ChannelAction::Fail(ChannelError::InvalidHex),
        r == ChannelAction::Fail(ChannelError::InvalidPeerId) <==> (hex_decoded(s@) matches Some(
            b,
        ) && !peer_id_valid(b)),
{
}

/// Every request is answered by its kind: `Ping` with `Pong`; `Custom` with itself;
/// `GetPeerInfo` with an empty connected record; `GetDKGStatus` with the key generation
/// part's status, `New` without a part; `StartADKG` with `DKGStarted` naming the
/// requester exactly when a part is set; `SendAVSSShare` accepted exactly when a part is
/// set; and `StartDKG`, `BroadcastCommitments`, `SubmitComplaint` and
/// `DeclareADKGComplete` with `Ack`.
pub proof fn lemma_request_responses(
    d: Option<DKGNode>,
    d2: Option<DKGNode>,
    peer: Vec<u8>,
    request: RPCRequest,
    res: (RPCResponse, Option<DKGMessage>),
)
    requires
        response_for(d, d2, peer, request, res),
    ensures
        request is Ping ==> res.0 == RPCResponse::Pong,
        request matches RPCRequest::Custom { id, data } ==> res.0 == (RPCResponse::Custom { id, data }),
        request is GetPeerInfo ==> (res.0 matches RPCResponse::PeerInfo(info)
            && info.addresses@.len() == 0 && info.connected),
        request is GetDKGStatus ==> res.0 == (RPCResponse::DKGStatus {
            status: match d {
                Some(dn) => dn.spec_status(),
                None => DKGStatus::New,
            },
        }),
        request is StartADKG ==> (d is Some <==> res.0 == (RPCResponse::DKGStarted {
            peer_id: SerializablePeerId(peer),
        })),
        request is StartADKG ==> (d is None <==> res.0 is DKGError),
        request is SendAVSSShare ==> (d is Some <==> res.0 == RPCResponse::ShareAccepted),
        request is SendAVSSShare ==> (d is None <==> res.0 is Error),
        request is StartDKG ==> res.0 == RPCResponse::Ack,
        request is BroadcastCommitments ==> res.0 == RPCResponse::Ack,
        request is SubmitComplaint ==> res.0 == RPCResponse::Ack,
        request is DeclareADKGComplete ==> res.0 == RPCResponse::Ack,
{
}

/// A key generation message is answered on the wire by what the key generation part
/// replies: a distribution holding a share for the node's index (its identifier read as
/// a decimal number) is answered by broadcasting the node's validation report on that
/// dealer, marked valid; a distribution without such a share gets nothing. Without a
/// part, nothing is sent.
pub proof fn lemma_gossip_dkg_reply_is_broadcast(
    layer: NetworkLayer,
    new: NetworkLayer,
    m: DKGMessage,
    res: GossipAction,
)
    requires
        layer.gossip_handled(new, GossipsubMessage::DKG(m), res),
    ensures
        layer.spec_dkg_node() is None ==> res is Done,
        layer.spec_dkg_node() matches Some(d) ==> (m matches DKGMessage::ShareDistribution {
            from,
            shares,
            ..
        } ==> match first_with_index(shares@, index_of_id(d.spec_id())) {
            Some(_) => res matches GossipAction::BroadcastDkg(
                DKGMessage::ShareValidation { from: f, to, is_valid },
            ) && f@ == d.spec_id() && to@ == from@ && is_valid,
            None => res is Done,
        }),
{
}

/// A signing message is answered on the wire by what the signing part replies: once the
/// part holds commitments from at least `threshold` senders after recording one, its
/// signature share (zero, from the node itself) is broadcast; below that, or for a
/// signature share, nothing is sent. Without a part, nothing is sent.
pub proof fn lemma_gossip_signing_reply_is_broadcast(
    layer: NetworkLayer,
    new: NetworkLayer,
    m: SigningMessage,
    res: GossipAction,
)
    requires
        layer.gossip_handled(new, GossipsubMessage::Signing(m), res),
    ensures
        layer.spec_signing_node() is None ==> res is Done,
        layer.spec_signing_node() matches Some(n) ==> (m is CommitmentShare ==> {
            &&& new.spec_signing_node() matches Some(n2)
            &&& n2.commitment_entries().len() >= n.spec_threshold() ==> (res matches GossipAction::BroadcastSigning(
                SigningMessage::SignatureShare { from: f, share },
            ) && f@ == n.spec_id() && share.0@ == 0)
            &&& n2.commitment_entries().len() < n.spec_threshold() ==> res is Done
        }),
        layer.spec_signing_node() is Some ==> (m is SignatureShare ==> res is Done),
{
}

/// A command is handed to the handler registered for its kind, unchanged, when one is
/// registered; otherwise, and for consensus messages, nothing is done.
pub proof fn lemma_gossip_command_runs_its_handler(
    layer: NetworkLayer,
    new: NetworkLayer,
    c: Command,
    res: GossipAction,
)
    requires
        layer.gossip_handled(new, GossipsubMessage::Command(c), res),
    ensures
        (layer.spec_command_processor() matches Some(p) && p.handler_names().contains(
            handler_name_of(c),
        )) <==> res is RunHandler,
        res matches GossipAction::RunHandler { name, command } ==> name@ == handler_name_of(c)
            && command == c,
{
}

} // verus!
