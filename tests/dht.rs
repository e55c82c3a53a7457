use rustydht_lib::common::id::Id;
use rustydht_lib::common::ipv4_addr_src::{is_routable, IPV4Consensus};
use rustydht_lib::common::peer_id::{
    generate_peer_id, peer_id_from_random, try_decode_peer_id, AzureusStyleKind, PeerId,
};
use rustydht_lib::dht::operations::{
    add_to_shortlist, announce_outcome, check_announce_allowed, merge_compact_peers,
    parse_compact_nodes, pick_unqueried,
    OperationError,
};
use rustydht_lib::dht::transactions::TransactionTable;
use rustydht_lib::shutdown::ShutdownSignal;
use rustydht_lib::peer_binary_protocol::extended::handshake::{Dictionary, ExtendedHandshake};
use rustydht_lib::peer_binary_protocol::{Handshake, MessageDeserializeError};
use rustydht_lib::storage::node_bucket_storage::{
    bucket_index, Node, NodeBucketStorage, NodeStatus, NodeStorage,
};

fn id_with(first: u8, last: u8) -> Id {
    let mut bytes = [0u8; 20];
    bytes[0] = first;
    bytes[19] = last;
    Id { bytes }
}

fn node(first: u8, last_seen: u64) -> Node {
    Node { id: id_with(first, 0), ip: 0x01020304, port: 6881, last_seen, failures: 0 }
}

#[test]
fn distance_to_self_is_zero() {
    let a = id_with(0xab, 0x12);
    assert_eq!(a.distance(&a).bytes, [0u8; 20]);
}

#[test]
fn distance_is_symmetric_and_composes_by_xor() {
    let a = id_with(0xf0, 0x01);
    let b = id_with(0x0f, 0x10);
    let c = id_with(0x33, 0xff);
    assert_eq!(a.distance(&b), b.distance(&a));
    assert_eq!(a.distance(&b).bytes[0], 0xff);
    assert_eq!(a.distance(&c), a.distance(&b).distance(&b.distance(&c)));
}

#[test]
fn is_closer_compares_distances_numerically() {
    let t = id_with(0, 0);
    assert!(t.is_closer(&id_with(0x01, 0xff), &id_with(0x02, 0x00)));
    assert!(!t.is_closer(&id_with(0x02, 0x00), &id_with(0x01, 0xff)));
    assert!(!t.is_closer(&id_with(0x02, 0x00), &id_with(0x02, 0x00)));
}

#[test]
fn id_from_bytes_needs_twenty_bytes() {
    assert!(Id::from_bytes(&[1u8; 19]).is_none());
    assert!(Id::from_bytes(&[1u8; 21]).is_none());
    assert_eq!(Id::from_bytes(&[7u8; 20]).unwrap().bytes, [7u8; 20]);
}

#[test]
fn decodes_azureus_style_peer_ids() {
    let mut b = *b"-DE1234-abcdefghijkl";
    match try_decode_peer_id(Id { bytes: b }) {
        Some(PeerId::AzureusStyle(s)) => {
            assert!(matches!(s.kind, AzureusStyleKind::Deluge));
            assert_eq!(s.version, ['1', '2', '3', '4']);
        }
        None => panic!("expected a peer id"),
    }
    b[1] = b'l';
    b[2] = b't';
    let Some(PeerId::AzureusStyle(s)) = try_decode_peer_id(Id { bytes: b }) else { panic!() };
    assert!(matches!(s.kind, AzureusStyleKind::LibTorrent));
    b[1] = b'T';
    b[2] = b'R';
    let Some(PeerId::AzureusStyle(s)) = try_decode_peer_id(Id { bytes: b }) else { panic!() };
    assert!(matches!(s.kind, AzureusStyleKind::Transmission));
    b[1] = b'q';
    b[2] = b'B';
    let Some(PeerId::AzureusStyle(s)) = try_decode_peer_id(Id { bytes: b }) else { panic!() };
    assert!(matches!(s.kind, AzureusStyleKind::Other(['q', 'B'])));
    b[7] = b'x';
    assert!(try_decode_peer_id(Id { bytes: b }).is_none());
}

#[test]
fn generated_peer_ids_carry_the_prefix() {
    let id = generate_peer_id();
    assert_eq!(&id.bytes[..8], b"-rQ0001-");
    assert_eq!(id.bytes[10] & 0xf0, 0x40);
    assert_eq!(id.bytes[12] & 0xc0, 0x80);
    let u: [u8; 16] = [1, 2, 3, 4, 5, 6, 7, 8, 9, 10, 11, 12, 13, 14, 15, 16];
    let fixed = peer_id_from_random(u);
    assert_eq!(&fixed.bytes[..8], b"-rQ0001-");
    assert_eq!(&fixed.bytes[8..], &u[4..]);
}

#[test]
fn handshake_announces_extended_messaging() {
    let h = Handshake::new(id_with(1, 2), id_with(3, 4));
    assert_eq!(h.pstr, b"BitTorrent protocol".to_vec());
    assert_eq!(h.reserved, [0, 0, 0, 0, 0, 0x10, 0, 0]);
    assert!(h.supports_extended());
    assert_eq!(h.info_hash, id_with(1, 2).bytes);
    assert_eq!(h.peer_id, id_with(3, 4).bytes);
}

#[test]
fn handshake_round_trips_through_bytes() {
    let h = Handshake::new(id_with(9, 8), id_with(7, 6));
    let mut buf = vec![0xaa];
    h.serialize(&mut buf);
    assert_eq!(buf.len(), 1 + 68);
    assert_eq!(buf[1], 19);
    assert_eq!(&buf[2..21], b"BitTorrent protocol");
    buf.extend_from_slice(&[1, 2, 3]);
    let (back, n) = Handshake::deserialize(&buf[1..]).unwrap();
    assert_eq!(n, 68);
    assert_eq!(back.pstr, h.pstr);
    assert_eq!(back.reserved, h.reserved);
    assert_eq!(back.info_hash, h.info_hash);
    assert_eq!(back.peer_id, h.peer_id);
}

#[test]
fn handshake_errors() {
    assert_eq!(Handshake::deserialize(&[]).unwrap_err(), MessageDeserializeError::NotEnoughData(1));
    let short = [19u8; 30];
    assert_eq!(
        Handshake::deserialize(&short).unwrap_err(),
        MessageDeserializeError::NotEnoughData(68)
    );
    // A shortfall is reported before the length byte is judged.
    assert_eq!(
        Handshake::deserialize(&[251, 0]).unwrap_err(),
        MessageDeserializeError::NotEnoughData(300)
    );
    let bad = [251u8; 400];
    assert_eq!(
        Handshake::deserialize(&bad).unwrap_err(),
        MessageDeserializeError::InvalidStringLength(251)
    );
    let mut not_utf8 = vec![1u8, 0xff];
    not_utf8.extend_from_slice(&[0u8; 48]);
    assert_eq!(Handshake::deserialize(&not_utf8).unwrap_err(), MessageDeserializeError::InvalidUtf8);
    let mut empty_pstr = vec![0u8];
    empty_pstr.extend_from_slice(&[0u8; 48]);
    let (h, n) = Handshake::deserialize(&empty_pstr).unwrap();
    assert_eq!((h.pstr.len(), n), (0, 49));
}

#[test]
fn handshake_checked_takes_the_utf8_verdict() {
    let mut b = vec![1u8, b'x'];
    b.extend_from_slice(&[0u8; 48]);
    assert_eq!(Handshake::deserialize_checked(&b, false).unwrap_err(), MessageDeserializeError::InvalidUtf8);
    let (h, n) = Handshake::deserialize_checked(&b, true).unwrap();
    assert_eq!((h.pstr, n), (vec![b'x'], 50));
    assert_eq!(Handshake::deserialize_checked(&b[..49], true).unwrap_err(), MessageDeserializeError::NotEnoughData(50));
}

#[test]
fn extended_handshake_offers_ut_metadata() {
    let h = ExtendedHandshake::new();
    assert_eq!(h.m.ut_metadata, Some(3));
    assert!(h.p.is_none() && h.v.is_none() && h.metadata_size.is_none());
    let d = ExtendedHandshake::default();
    assert_eq!(d.m.ut_metadata, None);
}

#[test]
fn consensus_with_quorum_two() {
    let addr = 0x5db8d822; // 93.184.216.34
    let mut c = IPV4Consensus::new(2, 10);
    c.add_vote(0x01010101, addr);
    assert_eq!(c.get_best_ipv4(), None);
    c.add_vote(0x02020202, addr);
    assert_eq!(c.get_best_ipv4(), Some(addr));

    let mut d = IPV4Consensus::new(2, 10);
    d.add_vote(0x01010101, addr);
    d.add_vote(0x02020202, 0x08080808);
    assert_eq!(d.get_best_ipv4(), None);
}

#[test]
fn consensus_counts_each_reporter_once() {
    let addr = 0x5db8d822;
    let mut c = IPV4Consensus::new(2, 10);
    c.add_vote(0x01010101, addr);
    c.add_vote(0x01010101, addr);
    c.add_vote(0x01010101, addr);
    assert_eq!(c.get_best_ipv4(), None);
    c.add_vote(0x03030303, addr);
    assert_eq!(c.get_best_ipv4(), Some(addr));
}

#[test]
fn consensus_tracks_at_most_the_capacity() {
    let mut c = IPV4Consensus::new(1, 1);
    c.add_vote(0x01010101, 0x08080808);
    c.add_vote(0x01010101, 0x09090909);
    assert_eq!(c.get_best_ipv4(), Some(0x08080808));
    let mut e = IPV4Consensus::new(1, 0);
    e.add_vote(0x01010101, 0x08080808);
    assert_eq!(e.get_best_ipv4(), None);
}

#[test]
fn consensus_rejects_local_addresses() {
    let mut c = IPV4Consensus::new(2, 10);
    for a in [0x7f000001u32, 0x0a000001, 0xc0a80101, 0xac100001, 0xe0000001] {
        assert!(!is_routable(a));
        c.add_vote(0x01010101, a);
        c.add_vote(0x02020202, a);
    }
    assert_eq!(c.get_best_ipv4(), None);
    assert!(is_routable(0x08080808));
}

#[test]
fn bucket_index_counts_shared_prefix_bits() {
    let own = id_with(0, 0);
    assert_eq!(bucket_index(&own, &id_with(0x80, 0)), 0);
    assert_eq!(bucket_index(&own, &id_with(0x01, 0)), 7);
    assert_eq!(bucket_index(&own, &id_with(0, 1)), 159);
    assert_eq!(bucket_index(&own, &own), 160);
}

#[test]
fn full_bucket_never_evicts_good_nodes() {
    let mut t = NodeBucketStorage::new(id_with(0, 0), 2);
    t.add_or_update(node(0x80, 100), 100);
    t.add_or_update(node(0x81, 100), 100);
    t.add_or_update(node(0x82, 100), 100);
    assert_eq!(t.count(), 2);
    let ids: Vec<u8> = t.all_nodes().iter().map(|n| n.id.bytes[0]).collect();
    assert_eq!(ids, vec![0x80, 0x81]);
}

#[test]
fn timeouts_make_a_node_questionable_then_bad() {
    let mut t = NodeBucketStorage::new(id_with(0, 0), 2);
    t.add_or_update(node(0x80, 100), 100);
    t.add_or_update(node(0x81, 100), 100);
    let target = id_with(0x81, 0);
    t.mark_interaction(&target, false, 100);
    let n = t.all_nodes()[1];
    assert_eq!(n.status(100), NodeStatus::Questionable);
    t.mark_interaction(&target, false, 100);
    t.mark_interaction(&target, false, 100);
    let n = t.all_nodes()[1];
    assert_eq!(n.status(100), NodeStatus::Bad);
    // A newcomer takes the bad node's place.
    t.add_or_update(node(0x83, 100), 100);
    let ids: Vec<u8> = t.all_nodes().iter().map(|n| n.id.bytes[0]).collect();
    assert_eq!(ids, vec![0x80, 0x83]);
    // A response makes a node good again.
    t.mark_interaction(&id_with(0x80, 0), true, 200);
    assert_eq!(t.all_nodes()[0].status(200), NodeStatus::Good);
}

#[test]
fn find_closest_orders_by_distance() {
    let mut t = NodeBucketStorage::new(id_with(0, 0), 8);
    for f in [0x90u8, 0x10, 0x40, 0x11, 0xff] {
        t.add_or_update(node(f, 5), 5);
    }
    let target = id_with(0x10, 0);
    let r: Vec<u8> = t.find_closest(&target, 3).iter().map(|n| n.id.bytes[0]).collect();
    assert_eq!(r, vec![0x10, 0x11, 0x40]);
    let all = t.find_closest(&target, 10);
    assert_eq!(all.len(), 5);
    assert_eq!(all[4].id.bytes[0], 0xff);
    assert!(NodeBucketStorage::new(id_with(0, 0), 8).find_closest(&target, 3).is_empty());
}

#[test]
fn transaction_completes_at_most_once() {
    let mut t = TransactionTable::new();
    let a = t.register(id_with(1, 1), 10).unwrap();
    let b = t.register(id_with(2, 2), 20).unwrap();
    assert_ne!(a, b);
    assert!(t.contains(a));
    assert!(t.complete(a));
    assert!(!t.complete(a));
    assert!(!t.contains(a));
    assert_eq!(t.len(), 1);
    assert!(t.complete(b));
}

#[test]
fn sweep_fires_each_timeout_once() {
    let mut t = TransactionTable::new();
    let a = t.register(id_with(1, 1), 10).unwrap();
    let b = t.register(id_with(2, 2), 30).unwrap();
    let c = t.register(id_with(3, 3), 5).unwrap();
    let fired = t.sweep(10);
    assert_eq!(fired, vec![a, c]);
    assert_eq!(t.len(), 1);
    assert!(t.sweep(10).is_empty());
    assert!(!t.complete(a));
    assert!(t.contains(b));
    assert_eq!(t.sweep(100), vec![b]);
    assert_eq!(t.len(), 0);
}

#[test]
fn announce_in_read_only_mode_is_refused() {
    assert_eq!(check_announce_allowed(true), Err(OperationError::ReadOnly));
    assert_eq!(check_announce_allowed(false), Ok(()));
}

#[test]
fn announce_with_no_acknowledgement_fails() {
    assert_eq!(announce_outcome::<u8>(vec![]), Err(OperationError::NoResponse));
    assert_eq!(announce_outcome(vec![4u8]), Ok(vec![4u8]));
}

#[test]
fn compact_peers_are_deduplicated() {
    let compact = [1, 2, 3, 4, 0x1a, 0xe1, 5, 6, 7, 8, 0x00, 0x50];
    let mut peers = Vec::new();
    merge_compact_peers(&mut peers, &compact);
    assert_eq!(peers, vec![(0x01020304, 6881), (0x05060708, 80)]);
    let mut twice = compact.to_vec();
    twice.extend_from_slice(&compact);
    twice.push(9);
    let mut again = Vec::new();
    merge_compact_peers(&mut again, &twice);
    assert_eq!(again, vec![(0x01020304, 6881), (0x05060708, 80)]);
}

#[test]
fn test_serialize_handshake_only_ut_metadata() {
    let mut h = ExtendedHandshake::default();
    h.m = Dictionary { ut_metadata: Some(1) };
    assert_eq!("d1:md11:ut_metadatai1eee", String::from_utf8(h.to_bencode()).unwrap())
}

#[test]
fn extended_handshake_bencodes_all_entries_in_key_order() {
    let mut h = ExtendedHandshake::new();
    h.p = Some(6881);
    h.v = Some(b"rQ 0.1".to_vec());
    h.complete_ago = Some(-15);
    h.metadata_size = Some(0);
    h.ipv4 = Some(vec![1, 2, 3, 4]);
    assert_eq!(
        String::from_utf8(h.to_bencode()).unwrap(),
        "d12:complete_agoi-15e4:ipv44:\u{1}\u{2}\u{3}\u{4}1:md11:ut_metadatai3ee13:metadata_sizei0e1:pi6881e1:v6:rQ 0.1e"
    );
    assert_eq!(String::from_utf8(ExtendedHandshake::default().to_bencode()).unwrap(), "d1:mdee");
}

#[test]
fn shortlist_stays_sorted_unique_and_capped() {
    let target = id_with(0x10, 0);
    let mut s = Vec::new();
    for f in [0x40u8, 0x11, 0xff, 0x10, 0x11, 0x90] {
        add_to_shortlist(&mut s, node(f, 1), &target, 3);
    }
    let ids: Vec<u8> = s.iter().map(|n| n.id.bytes[0]).collect();
    assert_eq!(ids, vec![0x10, 0x11, 0x40]);
}

#[test]
fn shutdown_is_sent_once() {
    let mut sig = ShutdownSignal::new();
    assert!(!sig.is_shutdown());
    assert!(sig.shutdown());
    assert!(sig.is_shutdown());
    assert!(!sig.shutdown());
    assert!(sig.is_shutdown());
}

#[test]
fn compact_nodes_decode_id_address_and_port() {
    let mut b = Vec::new();
    b.extend_from_slice(&[0xaa; 20]);
    b.extend_from_slice(&[10, 0, 0, 1, 0x1a, 0xe1]);
    b.extend_from_slice(&[0x01; 20]);
    b.extend_from_slice(&[8, 8, 4, 4, 0x00, 0x35]);
    b.extend_from_slice(&[1, 2, 3]);
    let r = parse_compact_nodes(&b);
    assert_eq!(r.len(), 2);
    assert_eq!(r[0].0.bytes, [0xaa; 20]);
    assert_eq!((r[0].1, r[0].2), (0x0a000001, 6881));
    assert_eq!(r[1].0.bytes, [0x01; 20]);
    assert_eq!((r[1].1, r[1].2), (0x08080404, 53));
    assert!(parse_compact_nodes(&[0u8; 25]).is_empty());
}

#[test]
fn next_round_skips_queried_nodes() {
    let s: Vec<Node> = [0x10u8, 0x11, 0x40, 0x90, 0xff].iter().map(|f| node(*f, 1)).collect();
    let queried = vec![id_with(0x11, 0), id_with(0x90, 0)];
    let r: Vec<u8> = pick_unqueried(&s, &queried, 2).iter().map(|n| n.id.bytes[0]).collect();
    assert_eq!(r, vec![0x10, 0x40]);
    let all: Vec<u8> = pick_unqueried(&s, &queried, 3).iter().map(|n| n.id.bytes[0]).collect();
    assert_eq!(all, vec![0x10, 0x40, 0xff]);
    assert!(pick_unqueried(&s, &queried, 0).is_empty());
}

fn fill_and_query<S: NodeStorage>(s: &mut S, target: &Id) -> Vec<u8> {
    for f in [0x40u8, 0x10, 0x11] {
        s.add_or_update(node(f, 1), 1);
    }
    s.mark_interaction(&id_with(0x10, 0), false, 1);
    assert_eq!(NodeStorage::count(s), 3);
    NodeStorage::find_closest(s, target, 2).iter().map(|n| n.id.bytes[0]).collect()
}

#[test]
fn bucket_table_serves_through_the_storage_interface() {
    let mut t = NodeBucketStorage::new(id_with(0, 0), 8);
    assert_eq!(fill_and_query(&mut t, &id_with(0x40, 0)), vec![0x40, 0x10]);
}
