use hsl_telepresence_robot::broadcast::{fragment, parse, HEADER_LEN, MAX_CHUNK_PAYLOAD, VERSION};

fn reassemble(chunks: &[Vec<u8>]) -> Vec<u8> {
    let mut out = Vec::new();
    for chunk in chunks {
        let (_, payload) = parse(chunk).expect("chunk should parse");
        out.extend_from_slice(payload);
    }
    out
}

#[test]
fn a_small_frame_is_one_chunk_and_survives_the_round_trip() {
    let frame = vec![7u8; 1024];
    let chunks = fragment(42, false, &frame);
    assert_eq!(chunks.len(), 1);

    let (header, payload) = parse(&chunks[0]).unwrap();
    assert_eq!(header.seq, 42);
    assert_eq!(header.index, 0);
    assert_eq!(header.count, 1);
    assert!(!header.keyframe);
    assert_eq!(payload, &frame[..]);
}

#[test]
fn a_keyframe_too_big_for_one_message_is_split_and_rejoins_identically() {
    let frame: Vec<u8> = (0..150_000u32).map(|i| (i % 251) as u8).collect();
    let chunks = fragment(7, true, &frame);

    assert_eq!(chunks.len(), 3);
    for chunk in &chunks {
        assert!(
            chunk.len() <= HEADER_LEN + MAX_CHUNK_PAYLOAD,
            "chunk exceeds the relay's message ceiling"
        );
        assert!(parse(chunk).unwrap().0.keyframe);
    }

    let (first, _) = parse(&chunks[0]).unwrap();
    let (last, _) = parse(&chunks[2]).unwrap();
    assert_eq!((first.index, first.count), (0, 3));
    assert_eq!((last.index, last.count), (2, 3));
    assert_eq!(reassemble(&chunks), frame);
}

#[test]
fn a_frame_landing_exactly_on_the_chunk_size_is_not_padded_with_an_empty_one() {
    let frame = vec![1u8; MAX_CHUNK_PAYLOAD];
    let chunks = fragment(1, false, &frame);
    assert_eq!(chunks.len(), 1);
    assert_eq!(reassemble(&chunks), frame);
}

#[test]
fn an_empty_access_unit_produces_nothing_to_send() {
    assert!(fragment(1, true, &[]).is_empty());
}

#[test]
fn garbage_is_rejected_rather_than_decoded() {
    assert!(parse(&[]).is_none());
    assert!(parse(&[VERSION; HEADER_LEN - 1]).is_none());

    let mut wrong_version = fragment(1, false, &[9u8; 32])[0].clone();
    wrong_version[0] = VERSION + 1;
    assert!(parse(&wrong_version).is_none());

    let mut impossible = fragment(1, false, &[9u8; 32])[0].clone();
    impossible[6] = 5;
    assert!(parse(&impossible).is_none());

    let mut zero_count = fragment(1, false, &[9u8; 32])[0].clone();
    zero_count[8] = 0;
    zero_count[9] = 0;
    assert!(parse(&zero_count).is_none());
}

#[test]
fn the_sequence_number_survives_the_full_u32_range() {
    for seq in [0, 1, u32::MAX / 2, u32::MAX - 1, u32::MAX] {
        let chunks = fragment(seq, false, &[3u8; 16]);
        assert_eq!(parse(&chunks[0]).unwrap().0.seq, seq);
    }
}

#[test]
fn a_chunk_header_is_laid_out_little_endian() {
    let chunks = fragment(0x0403_0201, true, &[0xaa, 0xbb]);
    assert_eq!(chunks.len(), 1);
    assert_eq!(
        chunks[0],
        vec![VERSION, 1, 0x01, 0x02, 0x03, 0x04, 0, 0, 1, 0, 0xaa, 0xbb]
    );
}

#[test]
fn a_frame_one_byte_over_the_chunk_size_needs_a_second_chunk() {
    let frame: Vec<u8> = (0..MAX_CHUNK_PAYLOAD + 1).map(|i| (i % 7) as u8).collect();
    let chunks = fragment(9, false, &frame);
    assert_eq!(chunks.len(), 2);
    let (second, payload) = parse(&chunks[1]).unwrap();
    assert_eq!((second.index, second.count), (1, 2));
    assert_eq!(payload, &frame[MAX_CHUNK_PAYLOAD..]);
    assert_eq!(reassemble(&chunks), frame);
}
