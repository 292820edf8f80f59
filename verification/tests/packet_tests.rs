use debug_agent::hex::{decode_hex, encode_hex, hex_digit, hex_pair, hex_value, parse_hex, push_hex_number};
use debug_agent::packet::{
    checksum, decode_packet, encode_packet, is_valid_payload, verify_checksum, ProtocolError,
};

#[test]
fn hex_digits_are_upper_case() {
    assert_eq!(hex_digit(0), b'0');
    assert_eq!(hex_digit(9), b'9');
    assert_eq!(hex_digit(10), b'A');
    assert_eq!(hex_digit(15), b'F');
    assert_eq!(hex_digit(0x1f), b'F');
}

#[test]
fn hex_values_of_both_cases() {
    assert_eq!(hex_value(b'0'), Some(0));
    assert_eq!(hex_value(b'9'), Some(9));
    assert_eq!(hex_value(b'a'), Some(10));
    assert_eq!(hex_value(b'F'), Some(15));
    assert_eq!(hex_value(b'g'), None);
    assert_eq!(hex_value(b'/'), None);
    assert_eq!(hex_value(b':'), None);
    assert_eq!(hex_value(b'@'), None);
    assert_eq!(hex_value(b'G'), None);
    assert_eq!(hex_value(b'`'), None);
    assert_eq!(hex_pair(b'6', b'7'), Some(0x67));
    assert_eq!(hex_pair(b'f', b'F'), Some(0xff));
    assert_eq!(hex_pair(b'f', b'x'), None);
}

#[test]
fn encode_hex_exact() {
    assert_eq!(encode_hex(&[]), b"".to_vec());
    assert_eq!(encode_hex(&[0x00, 0x1a, 0xff, 0x7e]), b"001AFF7E".to_vec());
}

#[test]
fn decode_hex_exact() {
    assert_eq!(decode_hex(b"001aFF7e"), Some(vec![0x00, 0x1a, 0xff, 0x7e]));
    assert_eq!(decode_hex(b""), Some(vec![]));
    assert_eq!(decode_hex(b"abc"), None);
    assert_eq!(decode_hex(b"zz"), None);
    assert_eq!(decode_hex(b"0g"), None);
}

#[test]
fn hex_round_trip_on_every_byte() {
    let all: Vec<u8> = (0..=255u8).collect();
    assert_eq!(decode_hex(&encode_hex(&all)), Some(all));
}

#[test]
fn parse_hex_exact() {
    assert_eq!(parse_hex(b"0"), Some(0));
    assert_eq!(parse_hex(b"1000"), Some(0x1000));
    assert_eq!(parse_hex(b"dEaDbEeF"), Some(0xdead_beef));
    assert_eq!(parse_hex(b"ffffffffffffffff"), Some(u64::MAX));
    assert_eq!(parse_hex(b"0000000000000001"), Some(1));
}

#[test]
fn parse_hex_rejects() {
    assert_eq!(parse_hex(b""), None);
    assert_eq!(parse_hex(b"10000000000000000"), None);
    assert_eq!(parse_hex(b"12g4"), None);
    assert_eq!(parse_hex(b"0x10"), None);
}

#[test]
fn hex_numbers_have_no_leading_zeros() {
    let mut out = b"n=".to_vec();
    push_hex_number(&mut out, 0x1000);
    assert_eq!(out, b"n=1000".to_vec());
    let mut zero = Vec::new();
    push_hex_number(&mut zero, 0);
    assert_eq!(zero, b"0".to_vec());
    let mut max = Vec::new();
    push_hex_number(&mut max, u64::MAX);
    assert_eq!(max, b"FFFFFFFFFFFFFFFF".to_vec());
    assert_eq!(parse_hex(&max), Some(u64::MAX));
}

#[test]
fn checksum_is_sum_modulo_256() {
    assert_eq!(checksum(b""), 0);
    assert_eq!(checksum(b"g"), 0x67);
    assert_eq!(checksum(b"OK"), 0x9a);
    assert_eq!(checksum(&[0xff, 0x01]), 0x00);
    assert_eq!(checksum(&[0xff, 0xff, 0xff]), 0xfd);
}

#[test]
fn encode_packet_exact() {
    assert_eq!(encode_packet(b"g"), b"$g#67".to_vec());
    assert_eq!(encode_packet(b"OK"), b"$OK#9A".to_vec());
    assert_eq!(encode_packet(b""), b"$#00".to_vec());
}

#[test]
fn decode_packet_accepts_either_case_of_checksum() {
    assert_eq!(decode_packet(b"$OK#9A"), Ok(b"OK".to_vec()));
    assert_eq!(decode_packet(b"$OK#9a"), Ok(b"OK".to_vec()));
    assert_eq!(decode_packet(b"$#00"), Ok(vec![]));
}

#[test]
fn decode_packet_reports_mismatch() {
    assert_eq!(decode_packet(b"$g#68"), Err(ProtocolError::ChecksumMismatch));
    assert_eq!(decode_packet(b"$h#67"), Err(ProtocolError::ChecksumMismatch));
    assert_eq!(decode_packet(b"$g#6x"), Err(ProtocolError::ChecksumMismatch));
}

#[test]
fn decode_packet_reports_malformed() {
    assert_eq!(decode_packet(b""), Err(ProtocolError::Malformed));
    assert_eq!(decode_packet(b"$#0"), Err(ProtocolError::Malformed));
    assert_eq!(decode_packet(b"g#67"), Err(ProtocolError::Malformed));
    assert_eq!(decode_packet(b"#g#67"), Err(ProtocolError::Malformed));
    assert_eq!(decode_packet(b"$g067"), Err(ProtocolError::Malformed));
    assert_eq!(decode_packet(b"$g#67 "), Err(ProtocolError::Malformed));
    assert_eq!(decode_packet(b"$a#b#c4"), Err(ProtocolError::Malformed));
    assert_eq!(decode_packet(b"$a\x03b#c6"), Err(ProtocolError::Malformed));
}

#[test]
fn only_oversized_and_malformed_are_fatal() {
    assert!(!ProtocolError::ChecksumMismatch.is_fatal());
    assert!(ProtocolError::Oversized.is_fatal());
    assert!(ProtocolError::Malformed.is_fatal());
}

#[test]
fn payload_validity() {
    assert!(is_valid_payload(b"m1000,4"));
    assert!(is_valid_payload(b"$"));
    assert!(!is_valid_payload(b"a#b"));
    assert!(!is_valid_payload(b"a\x03"));
    assert!(verify_checksum(b"g", b'6', b'7'));
    assert!(!verify_checksum(b"g", b'7', b'6'));
}

#[test]
fn round_trip_of_valid_payloads() {
    let mut payloads: Vec<Vec<u8>> = vec![vec![], b"g".to_vec(), b"m1000,40".to_vec()];
    payloads.push((0..=255u8).filter(|b| *b != b'#' && *b != 0x03).collect());
    payloads.push(vec![0xff; 1000]);
    for payload in payloads {
        assert_eq!(decode_packet(&encode_packet(&payload)), Ok(payload));
    }
}

#[test]
fn every_single_byte_mutation_is_detected() {
    let payload = b"M1f00,2:ABCD".to_vec();
    let frame = encode_packet(&payload);
    let digits_at = frame.len() - 2;
    for i in 0..frame.len() {
        for byte in 0..=255u8 {
            if byte == frame[i] {
                continue;
            }
            if i >= digits_at && hex_value(byte) == hex_value(frame[i]) {
                continue;
            }
            let mut damaged = frame.clone();
            damaged[i] = byte;
            let verdict = decode_packet(&damaged);
            assert!(verdict.is_err());
            let in_payload = 1 <= i && i <= payload.len();
            if i >= digits_at || (in_payload && byte != b'#' && byte != 0x03) {
                assert_eq!(verdict, Err(ProtocolError::ChecksumMismatch));
            }
        }
    }
}

#[test]
fn checksum_digit_in_the_other_case_still_matches() {
    let frame = encode_packet(b"J");
    assert_eq!(frame, b"$J#4A".to_vec());
    assert_eq!(decode_packet(b"$J#4a"), Ok(b"J".to_vec()));
}
