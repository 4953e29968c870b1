use blues::checksum;
use blues::echo::{decode, encode, extract_payload, response_payload, ICMP_PACKET};
use blues::pinger::{Exchange, Pinger};
use blues::Ipv4;

#[test]
fn checksum_of_probe_packet() {
    let mut packet = ICMP_PACKET.to_vec();
    packet.extend_from_slice(&[0x66u8; 64]);
    let sum = checksum(&packet);
    assert_eq!(sum, [0x4c, 0x84]);
    packet[2] = sum[0];
    packet[3] = sum[1];
    assert_eq!(checksum(&packet), [0, 0]);
}

#[test]
fn checksum_of_odd_length() {
    // 0x0102 + 0x0300 = 0x0402, complemented
    assert_eq!(checksum(&[1, 2, 3]), [0xfb, 0xfd]);
    assert_eq!(checksum(&[]), [0xff, 0xff]);
}

#[test]
fn checksum_folds_carries() {
    // 0xffff + 0x0001 wraps around to 0x0001
    assert_eq!(checksum(&[0xff, 0xff, 0x00, 0x01]), [0xff, 0xfe]);
}

#[test]
fn checksum_of_long_input_with_pending_carry() {
    let mut bytes = vec![0xffu8; 16];
    bytes.push(1);
    bytes.extend_from_slice(&[0u8; 15]);
    bytes.extend_from_slice(&[0xffu8; 16]);
    bytes.extend_from_slice(&[0u8; 16]);
    // sixteen words of 0xffff and one of 0x0100
    assert_eq!(checksum(&bytes), [0xfe, 0xff]);
}

/// The checksum computed the slow way: words added up, carries folded back in.
fn checksum_by_hand(bytes: &[u8]) -> [u8; 2] {
    let mut total: u64 = 0;
    for pair in bytes.chunks(2) {
        let low = if pair.len() == 2 { pair[1] } else { 0 };
        total += u64::from(pair[0]) * 256 + u64::from(low);
    }
    while total > 0xffff {
        total = (total & 0xffff) + (total >> 16);
    }
    let sum = !(total as u16);
    [(sum >> 8) as u8, sum as u8]
}

#[test]
fn checksum_of_long_input() {
    for len in [65_535usize, 65_536, 65_537, 200_000, 200_001] {
        let bytes: Vec<u8> = (0..len).map(|i| (i * 31 + i / 7) as u8).collect();
        assert_eq!(checksum(&bytes), checksum_by_hand(&bytes), "{} bytes", len);
    }
    assert_eq!(checksum(&vec![0u8; 150_000]), [0xff, 0xff]);
    assert_eq!(checksum(&vec![0xffu8; 150_000]), [0, 0]);
}

#[test]
fn checksum_agrees_with_one_pass() {
    for len in [0usize, 1, 2, 59, 60, 61, 62, 63, 64, 72, 119, 120, 121, 1_000, 1_501] {
        let bytes: Vec<u8> = (0..len).map(|i| (i * 29 + 3) as u8).collect();
        assert_eq!(checksum(&bytes), internet_checksum::checksum(&bytes), "{} bytes", len);
    }
}

#[test]
fn checksum_of_every_short_length() {
    for len in 0..200usize {
        let bytes: Vec<u8> = (0..len).map(|i| (i * 13 + 5) as u8).collect();
        assert_eq!(checksum(&bytes), checksum_by_hand(&bytes), "{} bytes", len);
    }
}

#[test]
fn encode_then_decode() {
    let mut payload = [0x66u8; 64];
    payload[..13].copy_from_slice(b"Hello, blues!");
    let wire = encode(0xdead, 0x0102, &payload);
    assert_eq!(wire.len(), 72);
    assert_eq!(&wire[..2], &[8, 0]);
    assert_eq!(&wire[4..8], &[0xde, 0xad, 0x01, 0x02]);
    assert_eq!(checksum(&wire), [0, 0]);
    let packet = decode(&wire).unwrap();
    assert_eq!(packet.kind, 8);
    assert_eq!(packet.identifier, 0xdead);
    assert_eq!(packet.sequence, 0x0102);
    assert_eq!(extract_payload(&packet), payload);
}

#[test]
fn decode_rejects_damage() {
    let wire = encode(0xdead, 1, &[0x66u8; 64]);
    assert!(decode(&wire[..71]).is_none());
    let mut flipped = wire.clone();
    flipped[20] ^= 1;
    assert!(decode(&flipped).is_none());
    let mut coded = wire.clone();
    coded[1] = 1;
    assert!(decode(&coded).is_none());
    let mut kind = wire.clone();
    kind[0] = 3;
    assert!(decode(&kind).is_none());
}

#[test]
fn response_payload_skips_headers() {
    let mut response = [0u8; 92];
    for i in 0..92 {
        response[i] = i as u8;
    }
    let payload = response_payload(&response);
    assert_eq!(payload[0], 28);
    assert_eq!(payload[63], 91);
}

#[test]
fn sequence_wraps_to_one() {
    let mut pinger = Pinger::new();
    assert_eq!(pinger.seq, [1, 0]);
    pinger.seq = [0xff, 0xff];
    pinger.inc_seq();
    assert_eq!(pinger.seq, [1, 0]);
}

#[test]
fn sequence_carries_into_high_byte() {
    let mut pinger = Pinger::new();
    pinger.seq = [0xff, 0x00];
    pinger.inc_seq();
    assert_eq!(pinger.seq, [0x00, 0x01]);
    pinger.inc_seq();
    assert_eq!(pinger.seq, [0x01, 0x01]);
}

#[test]
fn pinger_packet_carries_sequence_high_byte_first() {
    let mut pinger = Pinger::new().data([0x66; 64]);
    pinger.seq = [0x34, 0x12];
    let packet = pinger.packet();
    assert_eq!(&packet[4..8], &[0xde, 0xad, 0x12, 0x34]);
    assert_eq!(&packet[8..], &[0x66u8; 64][..]);
    assert_eq!(checksum(&packet), [0, 0]);
}

fn reply_with(payload: &[u8; 64]) -> [u8; 92] {
    let mut response = [0u8; 92];
    response[28..].copy_from_slice(payload);
    response
}

#[test]
fn ping_classifies_replies() {
    let data = [0x66u8; 64];
    let mut pinger = Pinger::new().data(data);

    let clean = pinger
        .ping(Exchange::Replied { size: 92, response: reply_with(&data), round_trip: 12 })
        .unwrap();
    assert!(!clean.corrupt && !clean.small);
    assert_eq!(clean.round_trip, 12);
    assert_eq!(pinger.seq, [2, 0]);

    let mut shortened = data;
    for byte in shortened[16..].iter_mut() {
        *byte = 0;
    }
    let small = pinger
        .ping(Exchange::Replied { size: 92, response: reply_with(&shortened), round_trip: 1 })
        .unwrap();
    assert!(small.small && !small.corrupt);

    let mut damaged = data;
    damaged[15] = 0;
    let corrupt = pinger
        .ping(Exchange::Replied { size: 92, response: reply_with(&damaged), round_trip: 1 })
        .unwrap();
    assert!(corrupt.corrupt && !corrupt.small);

    let short = pinger
        .ping(Exchange::Replied { size: 60, response: reply_with(&data), round_trip: 1 })
        .unwrap();
    assert!(short.corrupt && !short.small);
    assert_eq!(pinger.seq, [5, 0]);
}

#[test]
fn ping_passes_errors_on() {
    let mut pinger = Pinger::new();
    let failed = pinger.ping(Exchange::SendFailed(std::io::ErrorKind::PermissionDenied));
    assert_eq!(failed.err(), Some(std::io::ErrorKind::PermissionDenied));
    assert_eq!(pinger.seq, [1, 0]);
    let timed_out = pinger.ping(Exchange::ReceiveFailed(std::io::ErrorKind::TimedOut));
    assert_eq!(timed_out.err(), Some(std::io::ErrorKind::TimedOut));
    assert_eq!(pinger.seq, [2, 0]);
}

#[test]
fn global_addresses() {
    assert!(Ipv4::new(8, 8, 8, 8).is_global());
    assert!(Ipv4::new(1, 2, 3, 4).is_global());
    assert!(Ipv4::new(192, 0, 0, 9).is_global());
    assert!(Ipv4::new(192, 0, 0, 10).is_global());
    assert!(Ipv4::new(172, 32, 0, 1).is_global());
    assert!(Ipv4::new(100, 128, 0, 1).is_global());
    assert!(Ipv4::new(198, 20, 0, 1).is_global());
    assert!(Ipv4::new(223, 255, 255, 255).is_global());
    for local in [
        [0, 1, 2, 3],
        [10, 0, 0, 1],
        [100, 64, 0, 1],
        [100, 127, 255, 255],
        [127, 0, 0, 1],
        [169, 254, 1, 1],
        [172, 16, 0, 1],
        [172, 31, 255, 255],
        [192, 0, 0, 1],
        [192, 0, 2, 1],
        [192, 168, 88, 1],
        [198, 18, 0, 1],
        [198, 19, 255, 255],
        [198, 51, 100, 7],
        [203, 0, 113, 7],
        [224, 0, 0, 1],
        [239, 255, 255, 255],
        [240, 0, 0, 1],
        [255, 255, 255, 255],
    ] {
        assert!(!Ipv4::new(local[0], local[1], local[2], local[3]).is_global(), "{:?}", local);
    }
}

#[test]
fn candidates_kept_or_dropped() {
    let routed = Ipv4::new(93, 184, 216, 34);
    assert_eq!(blues::addr::keep_global(routed), Some(routed));
    assert_eq!(blues::addr::keep_global(Ipv4::new(10, 0, 0, 1)), None);
    assert_eq!(blues::addr::keep_global(Ipv4::new(224, 0, 0, 1)), None);
}

#[test]
fn octets_round_trip() {
    let ip = Ipv4::new(1, 2, 3, 4);
    assert_eq!(ip.bits, 0x01020304);
    assert_eq!(ip.octets(), [1, 2, 3, 4]);
}

#[test]
fn rand_ip_is_global() {
    let mut found = 0;
    for _ in 0..10_000 {
        if let Some(ip) = blues::rand_ip(1_000) {
            assert!(ip.is_global());
            let o = ip.octets();
            assert!(o[0] != 0 && o[0] != 10 && o[0] != 127 && o[0] < 224);
            found += 1;
        }
    }
    assert_eq!(found, 10_000);
    assert!(blues::rand_ip(0).is_none());
}

#[test]
fn rand_ip4_varies() {
    let first = blues::rand_ip4();
    let mut differs = false;
    for _ in 0..64 {
        if blues::rand_ip4() != first {
            differs = true;
        }
    }
    assert!(differs);
}
