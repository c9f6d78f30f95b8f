use rustudps::listener::receive_datagram;
use rustudps::magic::{make_magic_packet, parse_magic, MagicError, MAX_DATAGRAM};

#[test]
fn frame_layout() {
    let packet = make_magic_packet("ab", b"123456789").unwrap();
    let mut expected: Vec<u8> = b"RustUDPs".to_vec();
    expected.extend_from_slice(b"ab");
    expected.push(0);
    expected.extend_from_slice(&[0, 1]);
    expected.extend_from_slice(&[0, 9]);
    expected.extend_from_slice(&[0x76, 0x5e, 0x76, 0x80]);
    expected.extend_from_slice(b"123456789");
    assert_eq!(packet, expected);
}

#[test]
fn frame_round_trip() {
    for name in ["", "calm-brave-otter", "näme"] {
        for payload in [vec![], vec![0u8], vec![1, 2, 3, 0, 255], vec![7u8; 1000]] {
            let packet = make_magic_packet(name, &payload).unwrap();
            let (n, p) = parse_magic(&packet).unwrap();
            assert_eq!(n, name);
            assert_eq!(p, payload);
        }
    }
}

#[test]
fn frame_refuses_zero_in_name_and_oversize() {
    assert!(make_magic_packet("a\0b", b"x").is_none());
    let name = "n";
    let fits = vec![0u8; MAX_DATAGRAM - 17 - name.len()];
    assert!(make_magic_packet(name, &fits).is_some());
    let too_long = vec![0u8; MAX_DATAGRAM - 17 - name.len() + 1];
    assert!(make_magic_packet(name, &too_long).is_none());
}

#[test]
fn short_datagrams_are_refused() {
    let mut seed: u32 = 12345;
    for len in 0..16usize {
        for _ in 0..50 {
            let mut b = Vec::new();
            for _ in 0..len {
                seed = seed.wrapping_mul(1103515245).wrapping_add(12345);
                b.push((seed >> 16) as u8);
            }
            assert!(parse_magic(&b).is_err());
        }
        let mut tagged = b"RustUDPs".to_vec();
        tagged.extend(std::iter::repeat(0u8).take(len.saturating_sub(8)));
        tagged.truncate(len);
        assert!(parse_magic(&tagged).is_err());
    }
}

#[test]
fn wrong_tag_is_invalid_magic() {
    let mut packet = make_magic_packet("srv", b"hello").unwrap();
    packet[0] = b'X';
    assert_eq!(parse_magic(&packet), Err(MagicError::InvalidMagic));
    let no_terminator = b"RustUDPsname".to_vec();
    assert_eq!(parse_magic(&no_terminator), Err(MagicError::InvalidMagic));
}

#[test]
fn version_two_is_rejected_then_next_is_delivered() {
    let me = "client".to_string();
    let mut bad = make_magic_packet("srv", b"first").unwrap();
    bad[8 + 3 + 1] = 0;
    bad[8 + 3 + 2] = 2;
    assert_eq!(parse_magic(&bad), Err(MagicError::InvalidVersion(2)));
    assert!(matches!(receive_datagram(&bad, &me), Err(Some(MagicError::InvalidVersion(2)))));
    let good = make_magic_packet("srv", b"second").unwrap();
    let (n, p) = receive_datagram(&good, &me).unwrap();
    assert_eq!(n, "srv");
    assert_eq!(p, b"second".to_vec());
}

#[test]
fn length_and_hash_mismatch() {
    let packet = make_magic_packet("srv", b"hello").unwrap();
    let mut cut = packet.clone();
    cut.pop();
    assert_eq!(parse_magic(&cut), Err(MagicError::LengthMismatch(5, 4)));
    let mut corrupt = packet.clone();
    let last = corrupt.len() - 1;
    corrupt[last] ^= 1;
    assert_eq!(parse_magic(&corrupt), Err(MagicError::HashMismatch));
}

#[test]
fn own_datagrams_are_dropped() {
    let me = "calm-brave-otter".to_string();
    let own = make_magic_packet("calm-brave-otter", b"x").unwrap();
    assert!(matches!(receive_datagram(&own, &me), Err(None)));
    let other = make_magic_packet("other", b"x").unwrap();
    assert!(receive_datagram(&other, &me).is_ok());
}

#[test]
fn foreign_datagram_between_valid_ones_changes_nothing() {
    let me = "me".to_string();
    let a = make_magic_packet("srv", b"one").unwrap();
    let b = make_magic_packet("srv", b"two").unwrap();
    let foreign = b"GET / HTTP/1.1\r\n\r\n".to_vec();
    let with: Vec<_> = [&a, &foreign, &b].iter().filter_map(|d| receive_datagram(d, &me).ok()).collect();
    let without: Vec<_> = [&a, &b].iter().filter_map(|d| receive_datagram(d, &me).ok()).collect();
    assert_eq!(with, without);
    assert_eq!(with.len(), 2);
}

#[test]
fn invalid_utf8_name_is_decoded_lossily() {
    let mut packet = make_magic_packet("a", b"p").unwrap();
    packet[8] = 0xff;
    // the CRC covers only the payload, so the name may change freely
    let (n, _) = parse_magic(&packet).unwrap();
    assert_eq!(n, "\u{fffd}");
}
