use robustmq::codec::{
    decode_remaining_length, encode_frame, encode_remaining_length, split_frame, FrameSplit, RemainingLength,
    MAX_REMAINING_LENGTH,
};

#[test]
fn remaining_length_encodings() {
    assert_eq!(encode_remaining_length(0), vec![0x00]);
    assert_eq!(encode_remaining_length(127), vec![0x7f]);
    assert_eq!(encode_remaining_length(128), vec![0x80, 0x01]);
    assert_eq!(encode_remaining_length(16_383), vec![0xff, 0x7f]);
    assert_eq!(encode_remaining_length(16_384), vec![0x80, 0x80, 0x01]);
    assert_eq!(encode_remaining_length(2_097_151), vec![0xff, 0xff, 0x7f]);
    assert_eq!(encode_remaining_length(2_097_152), vec![0x80, 0x80, 0x80, 0x01]);
    assert_eq!(encode_remaining_length(MAX_REMAINING_LENGTH), vec![0xff, 0xff, 0xff, 0x7f]);
}

#[test]
fn remaining_length_round_trips() {
    for len in [0u32, 1, 127, 128, 300, 16_383, 16_384, 2_097_151, 2_097_152, MAX_REMAINING_LENGTH] {
        let mut b = vec![0x30];
        let enc = encode_remaining_length(len);
        b.extend_from_slice(&enc);
        b.push(0xaa);
        assert_eq!(decode_remaining_length(&b, 1), RemainingLength::Value(len, enc.len()));
    }
}

#[test]
fn remaining_length_incomplete_and_malformed() {
    assert_eq!(decode_remaining_length(&vec![], 0), RemainingLength::Incomplete);
    assert_eq!(decode_remaining_length(&vec![0x80], 0), RemainingLength::Incomplete);
    assert_eq!(decode_remaining_length(&vec![0x80, 0x80, 0x80], 0), RemainingLength::Incomplete);
    assert_eq!(decode_remaining_length(&vec![0xff, 0xff, 0xff, 0xff, 0x01], 0), RemainingLength::Malformed);
}

#[test]
fn frames_split_back_into_header_and_body() {
    let body: Vec<u8> = (0..200u32).map(|i| i as u8).collect();
    let mut buf = encode_frame(0x32, &body);
    assert_eq!(buf.len(), 1 + 2 + 200);
    buf.extend_from_slice(&[0xc0, 0x00]);
    match split_frame(&buf) {
        FrameSplit::Frame { header, body_start, total } => {
            assert_eq!(header, 0x32);
            assert_eq!(&buf[body_start..total], &body[..]);
            assert_eq!(split_frame(&buf[total..].to_vec()), FrameSplit::Frame { header: 0xc0, body_start: 2, total: 2 });
        }
        other => panic!("{:?}", other),
    }
    assert_eq!(split_frame(&buf[..100].to_vec()), FrameSplit::Incomplete);
    assert_eq!(split_frame(&vec![]), FrameSplit::Incomplete);
    assert_eq!(split_frame(&vec![0x30, 0xff, 0xff, 0xff, 0xff]), FrameSplit::Malformed);
}
