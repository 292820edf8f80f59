use debug_agent::codec::{CodecEvent, FramePhase, PacketCodec};
use debug_agent::packet::{encode_packet, ProtocolError};

fn feed_all(codec: &mut PacketCodec, bytes: &[u8]) -> Vec<CodecEvent> {
    bytes.iter().map(|b| codec.feed(*b)).collect()
}

#[test]
fn a_frame_is_reported_at_its_last_byte() {
    let mut codec = PacketCodec::new(4096);
    let events = feed_all(&mut codec, b"$g#67");
    assert_eq!(
        events,
        vec![
            CodecEvent::Pending,
            CodecEvent::Pending,
            CodecEvent::Pending,
            CodecEvent::Pending,
            CodecEvent::Packet(b"g".to_vec()),
        ]
    );
    assert_eq!(codec.phase(), FramePhase::Ready);
}

#[test]
fn phases_follow_the_frame() {
    let mut codec = PacketCodec::new(64);
    assert_eq!(codec.phase(), FramePhase::Ready);
    assert_eq!(codec.max_packet_size(), 64);
    codec.feed(b'$');
    assert_eq!(codec.phase(), FramePhase::Body);
    codec.feed(b'g');
    assert_eq!(codec.phase(), FramePhase::Body);
    codec.feed(b'#');
    assert_eq!(codec.phase(), FramePhase::ChecksumHigh);
    codec.feed(b'6');
    assert_eq!(codec.phase(), FramePhase::ChecksumLow(b'6'));
    assert_eq!(codec.feed(b'7'), CodecEvent::Packet(b"g".to_vec()));
    assert_eq!(codec.phase(), FramePhase::Ready);
}

#[test]
fn bytes_between_packets_are_skipped() {
    let mut codec = PacketCodec::new(4096);
    let events = feed_all(&mut codec, b"+-xyz#12");
    assert!(events.iter().all(|e| *e == CodecEvent::Pending));
    assert_eq!(codec.phase(), FramePhase::Ready);
    let events = feed_all(&mut codec, b"$?#3f");
    assert_eq!(events.last(), Some(&CodecEvent::Packet(b"?".to_vec())));
}

#[test]
fn a_wrong_checksum_is_rejected_and_the_next_frame_is_taken() {
    let mut codec = PacketCodec::new(4096);
    let events = feed_all(&mut codec, b"$g#68");
    assert_eq!(events.last(), Some(&CodecEvent::Rejected));
    let events = feed_all(&mut codec, b"$g#zz");
    assert_eq!(events.last(), Some(&CodecEvent::Rejected));
    let events = feed_all(&mut codec, b"$g#67");
    assert_eq!(events.last(), Some(&CodecEvent::Packet(b"g".to_vec())));
}

#[test]
fn the_interrupt_byte_is_seen_anywhere_and_leaves_the_frame_alone() {
    let mut codec = PacketCodec::new(4096);
    assert_eq!(codec.feed(0x03), CodecEvent::Interrupt);
    assert_eq!(codec.phase(), FramePhase::Ready);
    let events = feed_all(&mut codec, b"$m10\x03,4#\x032\x03e");
    assert_eq!(
        events.iter().filter(|e| **e == CodecEvent::Interrupt).count(),
        3
    );
    assert_eq!(events.last(), Some(&CodecEvent::Packet(b"m10,4".to_vec())));
}

#[test]
fn a_frame_of_exactly_the_limit_is_accepted() {
    let payload = vec![b'a'; 12];
    let frame = encode_packet(&payload);
    assert_eq!(frame.len(), 16);
    let mut codec = PacketCodec::new(16);
    let events = feed_all(&mut codec, &frame);
    assert_eq!(events.last(), Some(&CodecEvent::Packet(payload)));
}

#[test]
fn a_frame_over_the_limit_is_fatal() {
    let payload = vec![b'a'; 13];
    let frame = encode_packet(&payload);
    let mut codec = PacketCodec::new(16);
    let events = feed_all(&mut codec, &frame[..14]);
    assert_eq!(
        events.last(),
        Some(&CodecEvent::Fatal(ProtocolError::Oversized))
    );
    assert!(events[..13].iter().all(|e| *e == CodecEvent::Pending));
    assert_eq!(codec.phase(), FramePhase::Ready);
}

#[test]
fn a_limit_below_the_framing_bytes_accepts_nothing() {
    let mut codec = PacketCodec::new(3);
    assert_eq!(codec.feed(b'x'), CodecEvent::Pending);
    assert_eq!(codec.feed(b'$'), CodecEvent::Fatal(ProtocolError::Oversized));
    let mut exact = PacketCodec::new(4);
    let events = feed_all(&mut exact, b"$#00");
    assert_eq!(events.last(), Some(&CodecEvent::Packet(vec![])));
}

#[test]
fn round_trip_through_the_receiver() {
    let payloads: Vec<Vec<u8>> = vec![
        vec![],
        b"qSupported:multiprocess+".to_vec(),
        (0..=255u8).filter(|b| *b != b'#' && *b != 0x03).collect(),
    ];
    for payload in payloads {
        let mut codec = PacketCodec::new(4096);
        let events = feed_all(&mut codec, &encode_packet(&payload));
        let (last, before) = events.split_last().unwrap();
        assert!(before.iter().all(|e| *e == CodecEvent::Pending));
        assert_eq!(*last, CodecEvent::Packet(payload));
    }
}
