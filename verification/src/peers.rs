//! The addresses of the nodes that are known by name.
use crate::order::lemma_keys_are_ordered;
use crate::types::NodeId;
use crate::u256::{decimal, law_decimal_stands_for_its_number, written};
use std::collections::BTreeMap;
use vstd::prelude::*;
use vstd::string::StringExecFns;

verus! {

/// A node of the bootstrap configuration.
pub struct Peer {
    pub pubkey: NodeId,
    pub ip: String,
    pub tcp_port: u16,
}

/// The addresses by node.
pub type PeerAddresses = BTreeMap<NodeId, String>;

/// The address of a peer: its IP address and its TCP port with a colon between them.
pub open spec fn address_text(peer: Peer) -> Seq<char> {
    peer.ip@ + seq![':'] + decimal(peer.tcp_port as nat)
}

/// The addresses of the peers. Of the peers with one and the same key, the last one counts.
pub open spec fn addresses_of(peers: Seq<Peer>) -> Map<NodeId, Seq<char>>
    decreases peers.len(),
{
    if peers.len() == 0 {
        Map::empty()
    } else {
        addresses_of(peers.drop_last()).insert(peers.last().pubkey, address_text(peers.last()))
    }
}

/// The addresses as text.
pub open spec fn texts(addresses: Map<NodeId, String>) -> Map<NodeId, Seq<char>> {
    addresses.map_values(|s: String| s@)
}

/// The address of a node, empty if it is not known.
pub open spec fn author_address(addresses: Map<NodeId, String>, node_id: NodeId) -> Seq<char> {
    if addresses.contains_key(node_id) {
        addresses[node_id]@
    } else {
        Seq::empty()
    }
}

/// Calls `to_string` on a `u16`, which writes the number in decimal.
#[verifier::external_body]
fn port_text(port: u16) -> (text: String)
    ensures
        text@ == decimal(port as nat),
{
    port.to_string()
}

/// The address of a peer as text.
pub fn peer_address(peer: &Peer) -> (address: String)
    ensures
        address@ == address_text(*peer),
{
    proof {
        reveal_strlit(":");
    }
    let address = peer.ip.clone().concat(":").concat(port_text(peer.tcp_port).as_str());
    proof {
        assert(":"@ =~= seq![':']);
    }
    address
}

/// The addresses of the peers in a configuration; none if there is no configuration.
pub fn peer_addresses(config: Option<Vec<Peer>>) -> (addresses: PeerAddresses)
    ensures
        match config {
            Some(peers) => texts(addresses@) == addresses_of(peers@),
            None => addresses@ == Map::<NodeId, String>::empty(),
        },
{
    broadcast use vstd::std_specs::btree::group_btree_axioms;

    let mut addresses: PeerAddresses = BTreeMap::new();
    if let Some(peers) = &config {
        proof {
            assert(texts(addresses@) =~= addresses_of(peers@.take(0)));
        }
        for i in 0..peers.len()
            invariant
                texts(addresses@) == addresses_of(peers@.take(i as int)),
        {
            proof {
                lemma_keys_are_ordered();
            }
            let ghost before = addresses@;
            let address = peer_address(&peers[i]);
            let ghost text = address@;
            addresses.insert(peers[i].pubkey, address);
            proof {
                assert(peers@.take(i + 1).drop_last() =~= peers@.take(i as int));
                assert(texts(addresses@) =~= texts(before).insert(peers[i as int].pubkey, text));
            }
        }
        proof {
            assert(peers@.take(peers@.len() as int) =~= peers@);
        }
    }
    addresses
}

/// The address of the node `pubkey`, or an empty text.
pub fn get_author_address(addresses: &PeerAddresses, pubkey: &NodeId) -> (address: String)
    ensures
        address@ == author_address(addresses@, *pubkey),
{
    broadcast use vstd::std_specs::btree::group_btree_axioms;

    proof {
        lemma_keys_are_ordered();
    }
    match addresses.get(pubkey) {
        Some(address) => address.clone(),
        None => String::new(),
    }
}

/// An address is the IP address, a colon, and the port in decimal.
pub proof fn law_parts_of_an_address(peer: &Peer, address: String)
    requires
        call_ensures(peer_address, (peer,), address),
    ensures
        ({
            let n = peer.ip@.len() as int;
            &&& address@.len() > n
            &&& address@.take(n) == peer.ip@
            &&& address@[n] == ':'
            &&& address@.skip(n + 1) == decimal(peer.tcp_port as nat)
            &&& written(address@.skip(n + 1)) == peer.tcp_port
        }),
{
    let n = peer.ip@.len() as int;
    law_decimal_stands_for_its_number(peer.tcp_port as nat);
    assert(address@.take(n) =~= peer.ip@);
    assert(address@.skip(n + 1) =~= decimal(peer.tcp_port as nat));
}

proof fn lemma_listed(peers: Seq<Peer>, node: NodeId) -> (i: int)
    requires
        addresses_of(peers).contains_key(node),
    ensures
        0 <= i < peers.len(),
        peers[i].pubkey == node,
    decreases peers.len(),
{
    if peers.last().pubkey == node {
        peers.len() - 1
    } else {
        lemma_listed(peers.drop_last(), node)
    }
}

proof fn lemma_last_counts(peers: Seq<Peer>, i: int)
    requires
        0 <= i < peers.len(),
        forall|j: int| i < j < peers.len() ==> (#[trigger] peers[j]).pubkey != peers[i].pubkey,
    ensures
        addresses_of(peers).contains_key(peers[i].pubkey),
        addresses_of(peers)[peers[i].pubkey] == address_text(peers[i]),
    decreases peers.len(),
{
    if i < peers.len() - 1 {
        let fewer = peers.drop_last();
        assert(peers[peers.len() - 1].pubkey != peers[i].pubkey);
        assert forall|j: int| i < j < fewer.len() implies (#[trigger] fewer[j]).pubkey
            != fewer[i].pubkey by {
            assert(peers[j].pubkey != peers[i].pubkey);
        }
        lemma_last_counts(fewer, i);
    }
}

/// Every peer of a configuration has the address that its last entry gives, and no other node
/// has one. Without a configuration none has.
pub proof fn law_last_address_counts(
    config: Option<Vec<Peer>>,
    addresses: PeerAddresses,
    i: int,
    node: NodeId,
)
    requires
        call_ensures(peer_addresses, (config,), addresses),
    ensures
        config is None ==> !addresses@.contains_key(node),
        config matches Some(peers) ==> {
            &&& addresses@.contains_key(node) ==> exists|k: int|
                0 <= k < peers@.len() && (#[trigger] peers@[k]).pubkey == node
            &&& 0 <= i < peers@.len() && (forall|j: int|
                i < j < peers@.len() ==> (#[trigger] peers@[j]).pubkey != peers@[i].pubkey) ==> {
                let peer = peers@[i];
                &&& addresses@.contains_key(peer.pubkey)
                &&& addresses@[peer.pubkey]@ == peer.ip@ + seq![':'] + decimal(
                    peer.tcp_port as nat,
                )
            }
        },
{
    if let Some(peers) = config {
        assert(texts(addresses@).contains_key(node) == addresses@.contains_key(node));
        if addresses@.contains_key(node) {
            let k = lemma_listed(peers@, node);
            assert(peers@[k].pubkey == node);
        }
        if 0 <= i < peers@.len() && (forall|j: int|
            i < j < peers@.len() ==> (#[trigger] peers@[j]).pubkey != peers@[i].pubkey) {
            lemma_last_counts(peers@, i);
            let key = peers@[i].pubkey;
            assert(texts(addresses@).contains_key(key) == addresses@.contains_key(key));
        }
    }
}

/// The address of a node is the one that is known of it, and empty if none is.
pub proof fn law_address_of_an_author(
    addresses: &PeerAddresses,
    pubkey: &NodeId,
    address: String,
)
    requires
        call_ensures(get_author_address, (addresses, pubkey), address),
    ensures
        addresses@.contains_key(*pubkey) ==> address@ == addresses@[*pubkey]@,
        !addresses@.contains_key(*pubkey) ==> address@.len() == 0,
{
}

} // verus!
