use kiro_rs::anthropic::signature_sim::{message_id_from, padding_len, signature_frame_bytes, signature_head_bytes};
use base64::engine::general_purpose::STANDARD as BASE64;
use base64::Engine;
use kiro_rs::anthropic::signature_sim::{
    build_signature_bytes, generate_message_id, generate_thinking_signature, read_varint,
    write_len_delimited, write_tag, write_varint, BEDROCK_ID_LEN, WIRE_LEN, WIRE_VARINT,
};

#[test]
fn message_id_format() {
    for _ in 0..20 {
        let id = generate_message_id();
        assert!(id.starts_with("msg_bdrk_"));
        let suffix = &id["msg_bdrk_".len()..];
        assert_eq!(suffix.len(), BEDROCK_ID_LEN);
        assert!(
            suffix.chars().all(|c| c.is_ascii_lowercase() || c.is_ascii_digit()),
            "id suffix must be lower-case letters and digits: {suffix}"
        );
    }
}

#[test]
fn message_id_is_random_each_call() {
    let a = generate_message_id();
    let b = generate_message_id();
    assert_ne!(a, b);
}

#[test]
fn signature_is_valid_base64_and_reasonable_length() {
    for _ in 0..20 {
        let sig = generate_thinking_signature("opus-4-8");
        let raw = BASE64.decode(&sig).expect("must be valid base64");
        // Same order of magnitude as the two real samples (376 / 490 bytes).
        assert!(
            raw.len() >= 300 && raw.len() <= 600,
            "decoded length {} out of range",
            raw.len()
        );
    }
}

#[test]
fn signature_is_random_each_call() {
    let a = generate_thinking_signature("opus-4-8");
    let b = generate_thinking_signature("opus-4-8");
    assert_ne!(a, b);
}

#[test]
fn signature_ends_with_field3_eq_1() {
    let sig = generate_thinking_signature("opus-4-8");
    let raw = BASE64.decode(&sig).unwrap();
    // The last two bytes are field 3 (varint) = 1: tag 0x18, value 0x01.
    assert_eq!(&raw[raw.len() - 2..], &[0x18, 0x01]);
}

#[test]
fn signature_embeds_model_and_thinking_marker() {
    let sig = generate_thinking_signature("opus-4-8");
    let raw = BASE64.decode(&sig).unwrap();

    // Parse by hand: field 2 (outer), then look for field 6 (model) and
    // field 8 ("thinking") inside it.
    let (_tag, consumed) = read_varint(&raw).unwrap();
    let mut pos = consumed;
    let (inner_len, consumed) = read_varint(&raw[pos..]).unwrap();
    pos += consumed;
    let inner = &raw[pos..pos + inner_len as usize];

    let model_needle = b"opus-4-8";
    assert!(
        inner.windows(model_needle.len()).any(|w| w == model_needle),
        "the model name must appear in clear"
    );
    assert!(
        inner.windows(b"thinking".len()).any(|w| w == b"thinking"),
        "the \"thinking\" marker must appear in clear"
    );
}

#[test]
fn varint_encoding_known_values() {
    let mut buf = Vec::new();
    write_varint(&mut buf, 0);
    write_varint(&mut buf, 1);
    write_varint(&mut buf, 127);
    write_varint(&mut buf, 128);
    write_varint(&mut buf, 300);
    assert_eq!(buf, vec![0x00, 0x01, 0x7f, 0x80, 0x01, 0xac, 0x02]);
    let mut max = Vec::new();
    write_varint(&mut max, u64::MAX);
    assert_eq!(max.len(), 10);
    assert_eq!(max[9], 0x01);
}

#[test]
fn varint_round_trips() {
    for v in [0u64, 1, 127, 128, 300, 16_383, 16_384, 1 << 35, u64::MAX - 1, u64::MAX] {
        let mut buf = Vec::new();
        write_varint(&mut buf, v);
        let n = buf.len();
        buf.extend_from_slice(&[0xff, 0x00]);
        assert_eq!(read_varint(&buf), Some((v, n)));
    }
}

#[test]
fn read_varint_rejects_truncated_and_overlong() {
    assert_eq!(read_varint(&[]), None);
    assert_eq!(read_varint(&[0x80, 0x80]), None);
    assert_eq!(read_varint(&[0xff; 11]), None);
}

#[test]
fn tags_and_length_delimited_fields() {
    let mut buf = Vec::new();
    write_tag(&mut buf, 3, WIRE_VARINT);
    write_tag(&mut buf, 2, WIRE_LEN);
    write_len_delimited(&mut buf, 8, b"thinking");
    assert_eq!(
        buf,
        vec![0x18, 0x12, 0x42, 0x08, b't', b'h', b'i', b'n', b'k', b'i', b'n', b'g']
    );
}

#[test]
fn signature_bytes_carry_a_uuid_and_the_outer_frame() {
    let raw = build_signature_bytes("m");
    assert_eq!(raw[0], 0x12);
    assert!(raw.len() >= 300 && raw.len() <= 481);
    let text = String::from_utf8_lossy(&raw).to_string();
    // A hyphenated lower-case v4 UUID appears somewhere.
    let bytes = raw.as_slice();
    let found = bytes.windows(36).any(|w| {
        w.iter().enumerate().all(|(i, &b)| match i {
            8 | 13 | 18 | 23 => b == b'-',
            14 => b == b'4',
            _ => b.is_ascii_digit() || (b'a'..=b'f').contains(&b),
        })
    });
    assert!(found, "no uuid in {text:?}");
}

#[test]
fn message_id_from_given_draws() {
    let mut draws = vec![0usize; BEDROCK_ID_LEN];
    draws[0] = 25;
    draws[1] = 26;
    draws[2] = 35;
    let id = message_id_from(&draws);
    assert_eq!(&id[..12], "msg_bdrk_z09");
    assert!(id[12..].chars().all(|c| c == 'a'));
    assert_eq!(id.len(), 9 + BEDROCK_ID_LEN);
}

#[test]
fn padding_fills_to_the_target_but_keeps_sixty() {
    assert_eq!(padding_len(200, 400), 192);
    assert_eq!(padding_len(300, 320), 60);
    assert_eq!(padding_len(500, 320), 60);
    assert_eq!(padding_len(252, 321), 61);
}

#[test]
fn signature_from_given_parts() {
    let head = signature_head_bytes(b"m", b"L", b"I", b"N");
    assert_eq!(
        head,
        vec![
            0x0a, 0x01, b'L', 0x32, 0x01, b'm', 0x38, 0x00, 0x42, 0x08, b't', b'h', b'i', b'n',
            b'k', b'i', b'n', b'g', 0x5a, 0x01, b'I', 0x12, 0x01, b'N'
        ]
    );
    let sig = signature_frame_bytes(&head, b"T");
    let mut expected = vec![0x12, (head.len() + 3) as u8];
    expected.extend_from_slice(&head);
    expected.extend_from_slice(&[0x4a, 0x01, b'T', 0x18, 0x01]);
    assert_eq!(sig, expected);
}
