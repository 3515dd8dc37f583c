use grayarea::message::{decode, encode, split_frame, DecodeError, EncodeError, Message, MAX_DATA_LEN, MAX_FRAME_DATA_LEN};

fn msg(topic: &str, data: &[u8]) -> Message {
    Message { topic: topic.to_string(), data: data.to_vec() }
}

#[test]
fn frame_layout_is_exact() {
    let f = encode(&msg("ab", &[1, 2]), MAX_DATA_LEN).unwrap();
    assert_eq!(f, vec![2, b'a', b'b', 0, 0, 0, 2, 1, 2]);
}

#[test]
fn frame_length_is_big_endian() {
    let data = vec![7u8; 258];
    let f = encode(&msg("t", &data), MAX_DATA_LEN).unwrap();
    assert_eq!(&f[..6], &[1, b't', 0, 0, 1, 2]);
    assert_eq!(f.len(), 6 + 258);
}

#[test]
fn round_trip_keeps_topic_and_data() {
    let m = msg("t1", b"hello");
    let f = encode(&m, MAX_DATA_LEN).unwrap();
    let back = decode(&f, MAX_DATA_LEN).unwrap();
    assert_eq!(back.topic, "t1");
    assert_eq!(back.data, b"hello".to_vec());
}

#[test]
fn round_trip_with_unicode_topic_and_empty_data() {
    let m = msg("тема", b"");
    let f = encode(&m, MAX_DATA_LEN).unwrap();
    let back = decode(&f, MAX_DATA_LEN).unwrap();
    assert_eq!(back.topic, "тема");
    assert!(back.data.is_empty());
}

#[test]
fn round_trip_longest_topic() {
    let topic = "x".repeat(255);
    let f = encode(&msg(&topic, b"d"), MAX_DATA_LEN).unwrap();
    let back = decode(&f, MAX_DATA_LEN).unwrap();
    assert_eq!(back.topic, topic);
    assert_eq!(back.data, b"d".to_vec());
}

#[test]
fn encode_refuses_bad_topics_and_oversize() {
    assert_eq!(encode(&msg("", b"x"), MAX_DATA_LEN).unwrap_err(), EncodeError::EmptyTopic);
    let long = "x".repeat(256);
    assert_eq!(encode(&msg(&long, b"x"), MAX_DATA_LEN).unwrap_err(), EncodeError::TopicTooLong);
    assert_eq!(encode(&msg("t", b"abc"), 2).unwrap_err(), EncodeError::Oversize);
}

#[test]
fn encode_carries_more_than_a_guest_buffer() {
    let data = vec![0u8; MAX_DATA_LEN + 1];
    let f = encode(&msg("t1", &data), MAX_FRAME_DATA_LEN).unwrap();
    let back = decode(&f, MAX_FRAME_DATA_LEN).unwrap();
    assert_eq!(back.data.len(), 1048577);
}

#[test]
fn decode_errors() {
    assert_eq!(decode(&[], MAX_DATA_LEN).unwrap_err(), DecodeError::Malformed);
    assert_eq!(decode(&[0, 0, 0, 0, 0], MAX_DATA_LEN).unwrap_err(), DecodeError::Malformed);
    assert_eq!(decode(&[1, b'a', 0, 0, 0, 2, 9], MAX_DATA_LEN).unwrap_err(), DecodeError::Malformed);
    assert_eq!(decode(&[1, 0xff, 0, 0, 0, 0], MAX_DATA_LEN).unwrap_err(), DecodeError::TopicNotUtf8);
    assert_eq!(decode(&[1, b'a', 0, 0, 0, 2, 9, 9], 1).unwrap_err(), DecodeError::Oversize);
}

#[test]
fn split_frame_gives_parts() {
    let (t, d) = split_frame(&[2, b'a', b'b', 0, 0, 0, 1, 5]).unwrap();
    assert_eq!(t, b"ab".to_vec());
    assert_eq!(d, vec![5]);
    assert!(split_frame(&[2, b'a']).is_none());
}
