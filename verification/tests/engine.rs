use blues::blocks::{vote, Ping, Span, Standing, StoreError, REPLICAS};
use blues::checksum;
use blues::echo::decode;
use blues::scanner::Destination;
use blues::{IPStore, Ipv4, PingStore};

fn catalog(count: u8) -> IPStore {
    let mut store = IPStore::new();
    for i in 0..count {
        store.dsts.push(Destination {
            round_trip: 12_000_000,
            small: false,
            ip: Ipv4::new(1, 2, 3, i),
        });
    }
    store
}

/// What an endpoint that echoes faithfully sends back for `packet`.
fn echo_of(packet: &[u8]) -> [u8; 92] {
    let mut reply = [0u8; 92];
    reply[0] = 0x45;
    reply[9] = 1;
    reply[20..].copy_from_slice(packet);
    reply[20] = 0;
    reply[22] = 0;
    reply[23] = 0;
    let sum = checksum(&reply[20..]);
    reply[22] = sum[0];
    reply[23] = sum[1];
    reply
}

fn block(byte: u8) -> [u8; 64] {
    [byte; 64]
}

#[test]
fn voting() {
    let (a, b) = (block(0xaa), block(0xbb));
    let outcome = vote(&vec![a, a, b, a, b, a, a]).unwrap();
    assert_eq!(outcome.good, a);
    assert_eq!(outcome.suspects, vec![2, 4]);
    assert_eq!(outcome.standing, Standing::Majority);
}

#[test]
fn voting_tie_break() {
    let (a, b) = (block(0xaa), block(0xbb));
    let outcome = vote(&vec![a, b, b, b, b, b, b]).unwrap();
    assert_eq!(outcome.good, a);
    assert_eq!(outcome.suspects, vec![1, 2, 3, 4, 5, 6]);
    assert_eq!(outcome.standing, Standing::FirstOnly);
}

#[test]
fn voting_minority() {
    let (a, b, c) = (block(0xaa), block(0xbb), block(0xcc));
    let outcome = vote(&vec![a, b, a, b, c, b, a]).unwrap();
    assert_eq!(outcome.good, a);
    assert_eq!(outcome.suspects, vec![1, 3, 4, 5]);
    assert_eq!(outcome.standing, Standing::Minority);
}

#[test]
fn voting_unanimous() {
    let a = block(7);
    let outcome = vote(&vec![a; 7]).unwrap();
    assert_eq!(outcome.good, a);
    assert!(outcome.suspects.is_empty());
    assert_eq!(outcome.standing, Standing::Majority);
    assert_eq!(vote(&vec![a]).unwrap().standing, Standing::Majority);
    assert_eq!(vote(&vec![a, block(8)]).unwrap().standing, Standing::FirstOnly);
}

#[test]
fn voting_needs_a_payload() {
    assert!(vote(&Vec::new()).is_none());
}

#[test]
fn ping_group_collects_endpoints() {
    let mut group = Ping::new();
    assert_eq!(group.copies(), 0);
    group.add(Ipv4::new(1, 1, 1, 1));
    group.add(Ipv4::new(9, 9, 9, 9));
    assert_eq!(group.copies(), 2);
    assert_eq!(group.ip(0), Some(Ipv4::new(1, 1, 1, 1)));
    assert_eq!(group.ip(1), Some(Ipv4::new(9, 9, 9, 9)));
    assert_eq!(group.ip(2), None);
}

#[test]
fn empty_store() {
    let store = PingStore::new();
    assert_eq!(store.size(), 0);
    assert_eq!(store.len(), 0);
    assert!(store.group(0).is_none());
    assert!(store.flush().is_ok());
}

#[test]
fn size_is_one_block_per_group() {
    for (endpoints, groups) in [(0u8, 0usize), (6, 0), (7, 1), (13, 1), (14, 2), (15, 2), (70, 10)] {
        let store = PingStore::load_clients(&catalog(endpoints));
        assert_eq!(store.len(), groups);
        assert_eq!(store.size(), 64 * groups as u64);
    }
}

#[test]
fn groups_follow_catalog_order() {
    let store = PingStore::load_clients(&catalog(15));
    for g in 0..2 {
        let group = store.group(g).unwrap();
        assert_eq!(group.copies(), REPLICAS);
        for j in 0..7 {
            assert_eq!(group.ip(j), Some(Ipv4::new(1, 2, 3, (g * 7 + j) as u8)));
        }
    }
    assert!(store.group(2).is_none());
}

#[test]
fn shortening_endpoints_join_no_group() {
    let mut store = catalog(15);
    store.dsts[0].small = true;
    store.dsts[8].small = true;
    let engine = PingStore::load_clients(&store);
    assert_eq!(engine.len(), 1);
    let group = engine.group(0).unwrap();
    let expected = [1u8, 2, 3, 4, 5, 6, 7];
    for j in 0..7 {
        assert_eq!(group.ip(j), Some(Ipv4::new(1, 2, 3, expected[j])));
    }
}

#[test]
fn short_catalog_gives_no_device() {
    let store = PingStore::load_clients(&catalog(6));
    assert_eq!(store.size(), 0);
    let mut buf = [0u8; 64];
    let mut none: [u8; 0] = [];
    for off in [0u64, 1, 64, u64::MAX] {
        assert_eq!(store.span(64, off), Err(StoreError::OutOfRange));
        assert_eq!(store.span(0, off), Err(StoreError::OutOfRange));
        assert_eq!(store.read_at(&mut buf, off, &Vec::new()), Err(StoreError::OutOfRange));
        assert_eq!(store.read_at(&mut none, off, &Vec::new()), Err(StoreError::OutOfRange));
        assert_eq!(store.write_at(&buf, off).err(), Some(StoreError::OutOfRange));
        assert_eq!(store.write_at(&none, off).err(), Some(StoreError::OutOfRange));
    }
    assert_eq!(store.read(0, &vec![[0u8; 92]; 7]).err(), Some(StoreError::OutOfRange));
    assert_eq!(store.ping(0, &[0u8; 64]).err(), Some(StoreError::OutOfRange));
}

#[test]
fn spans() {
    let store = PingStore::load_clients(&catalog(28));
    assert_eq!(store.size(), 256);
    assert_eq!(store.span(64, 0), Ok(Span { first: 0, count: 1, lead: 0 }));
    assert_eq!(store.span(65, 0), Ok(Span { first: 0, count: 2, lead: 0 }));
    assert_eq!(store.span(1, 63), Ok(Span { first: 0, count: 1, lead: 63 }));
    assert_eq!(store.span(2, 63), Ok(Span { first: 0, count: 2, lead: 63 }));
    assert_eq!(store.span(100, 100), Ok(Span { first: 1, count: 3, lead: 36 }));
    assert_eq!(store.span(256, 0), Ok(Span { first: 0, count: 4, lead: 0 }));
    assert_eq!(store.span(0, 5), Ok(Span { first: 0, count: 0, lead: 5 }));
    assert_eq!(store.span(1, 255), Ok(Span { first: 3, count: 1, lead: 63 }));
    assert_eq!(store.span(257, 0), Err(StoreError::OutOfRange));
    assert_eq!(store.span(2, 255), Err(StoreError::OutOfRange));
    assert_eq!(store.span(0, 256), Err(StoreError::OutOfRange));
    assert_eq!(store.span(usize::MAX, 1), Err(StoreError::OutOfRange));
    assert_eq!(store.span(1, u64::MAX), Err(StoreError::OutOfRange));
}

#[test]
fn bytes_held() {
    let store = PingStore::load_clients(&catalog(14));
    assert_eq!(store.within(10, 0), 10);
    assert_eq!(store.within(128, 0), 128);
    assert_eq!(store.within(129, 0), 128);
    assert_eq!(store.within(10, 120), 8);
    assert_eq!(store.within(10, 128), 0);
    assert_eq!(store.within(usize::MAX, 1), 127);
    assert_eq!(store.within(1, u64::MAX), 0);
    assert_eq!(PingStore::new().within(1, 0), 0);
}

#[test]
fn store_packet() {
    let store = PingStore::load_clients(&catalog(7));
    let data = block(0x42);
    let packet = store.ping(0, &data).unwrap();
    assert_eq!(packet.len(), 72);
    assert_eq!(&packet[..2], &[8, 0]);
    assert_eq!(&packet[4..8], &[0xde, 0xad, 0, 1]);
    assert_eq!(&packet[8..], &data[..]);
    assert_eq!(checksum(&packet), [0, 0]);
    assert_eq!(store.ping(1, &data).err(), Some(StoreError::OutOfRange));
}

#[test]
fn write_then_read() {
    let store = PingStore::load_clients(&catalog(7));
    let mut payload = [0x66u8; 64];
    payload[..13].copy_from_slice(b"Hello, blues!");

    let packets = store.write_at(&payload, 0).unwrap();
    assert_eq!(packets.len(), 1);
    let replies: Vec<[u8; 92]> = (0..7).map(|_| echo_of(&packets[0])).collect();
    let outcome = store.read(0, &replies).unwrap();
    assert!(outcome.suspects.is_empty());

    let mut out = [0u8; 64];
    assert_eq!(store.read_at(&mut out, 0, &vec![outcome.good]), Ok(()));
    assert_eq!(out, payload);
}

#[test]
fn write_then_read_across_blocks() {
    let store = PingStore::load_clients(&catalog(28));
    let data: Vec<u8> = (0..150u32).map(|i| (i * 7 + 1) as u8).collect();
    for off in [0u64, 1, 36, 63, 64, 100, 106] {
        let span = store.span(data.len(), off).unwrap();
        let packets = store.write_at(&data, off).unwrap();
        assert_eq!(packets.len(), span.count);
        let mut blocks = Vec::new();
        for (k, packet) in packets.iter().enumerate() {
            assert!(decode(packet).is_some());
            let replies: Vec<[u8; 92]> = (0..7).map(|_| echo_of(packet)).collect();
            blocks.push(store.read(span.first + k, &replies).unwrap().good);
        }
        let mut out = vec![0xeeu8; data.len()];
        assert_eq!(store.read_at(&mut out, off, &blocks), Ok(()));
        assert_eq!(out, data);
    }
}

#[test]
fn write_pads_what_it_does_not_cover() {
    let store = PingStore::load_clients(&catalog(14));
    let packets = store.write_at(&[1, 2, 3], 62).unwrap();
    assert_eq!(packets.len(), 2);
    let first = decode(&packets[0]).unwrap();
    let second = decode(&packets[1]).unwrap();
    let mut expected = [0u8; 64];
    expected[62] = 1;
    expected[63] = 2;
    assert_eq!(first.payload, expected);
    let mut expected = [0u8; 64];
    expected[0] = 3;
    assert_eq!(second.payload, expected);
    assert_eq!(first.sequence, 1);
    assert_eq!(second.identifier, 0xdead);
}

#[test]
fn empty_write_sends_nothing() {
    let store = PingStore::load_clients(&catalog(7));
    assert_eq!(store.write_at(&[], 10).unwrap().len(), 0);
    let mut none: [u8; 0] = [];
    assert_eq!(store.read_at(&mut none, 10, &Vec::new()), Ok(()));
}

#[test]
fn read_drops_leading_residue() {
    let store = PingStore::load_clients(&catalog(14));
    let mut first = [0u8; 64];
    let mut second = [0u8; 64];
    for i in 0..64 {
        first[i] = i as u8;
        second[i] = 64 + i as u8;
    }
    let mut out = [0u8; 10];
    assert_eq!(store.read_at(&mut out, 60, &vec![first, second]), Ok(()));
    assert_eq!(out, [60, 61, 62, 63, 64, 65, 66, 67, 68, 69]);
}

#[test]
fn read_takes_first_reply_and_names_the_rest() {
    let store = PingStore::load_clients(&catalog(7));
    let good = echo_of(&store.ping(0, &block(1)).unwrap());
    let bad = echo_of(&store.ping(0, &block(2)).unwrap());
    let outcome = store.read(0, &vec![good, good, bad, good, bad, good, good]).unwrap();
    assert_eq!(outcome.good, block(1));
    assert_eq!(outcome.suspects, vec![2, 4]);
    let outcome = store.read(0, &vec![bad, good, good, good, good, good, good]).unwrap();
    assert_eq!(outcome.good, block(2));
    assert_eq!(outcome.suspects, vec![1, 2, 3, 4, 5, 6]);
}

#[test]
fn incomplete_requests() {
    let store = PingStore::load_clients(&catalog(14));
    assert_eq!(store.read(0, &vec![[0u8; 92]; 6]).err(), Some(StoreError::Incomplete));
    assert_eq!(store.read(1, &vec![[0u8; 92]; 8]).err(), Some(StoreError::Incomplete));
    assert_eq!(store.read(2, &vec![[0u8; 92]; 6]).err(), Some(StoreError::OutOfRange));
    let mut out = [9u8; 100];
    assert_eq!(store.read_at(&mut out, 0, &vec![[0u8; 64]; 1]), Err(StoreError::Incomplete));
    assert_eq!(out, [9u8; 100]);
    assert_eq!(store.read_at(&mut out, 64, &vec![[0u8; 64]; 2]), Err(StoreError::OutOfRange));
    assert_eq!(out, [9u8; 100]);
}
