use monad_monitor::peers::{get_author_address, peer_address, peer_addresses, Peer};

fn peer(key: u128, ip: &str, tcp_port: u16) -> Peer {
    Peer { pubkey: (2, 0, key), ip: ip.to_string(), tcp_port }
}

#[test]
fn address_is_ip_colon_port() {
    assert_eq!(peer_address(&peer(1, "10.0.0.1", 8000)), "10.0.0.1:8000");
    assert_eq!(peer_address(&peer(1, "::1", 0)), "::1:0");
    assert_eq!(peer_address(&peer(1, "", 65535)), ":65535");
}

#[test]
fn last_address_of_a_node_counts() {
    let addresses = peer_addresses(Some(vec![
        peer(1, "10.0.0.1", 1),
        peer(2, "10.0.0.2", 2),
        peer(1, "10.0.0.3", 3),
    ]));
    assert_eq!(get_author_address(&addresses, &(2, 0, 1)), "10.0.0.3:3");
    assert_eq!(get_author_address(&addresses, &(2, 0, 2)), "10.0.0.2:2");
}

#[test]
fn unknown_address_is_empty() {
    let addresses = peer_addresses(Some(vec![peer(1, "10.0.0.1", 1)]));
    assert_eq!(get_author_address(&addresses, &(3, 0, 1)), "");
    assert!(peer_addresses(None).is_empty());
}
