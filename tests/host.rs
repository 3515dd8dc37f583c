use grayarea::host::{on_stream_frame, plan_delivery, topic_message, HostError, StreamAction, StreamFrame, U8WasmPtr, BUFFER_LEN};

#[test]
fn oversize_payload_is_refused() {
    let buf = U8WasmPtr { offset: 1024 };
    assert_eq!(plan_delivery(buf, 1048577, 1 << 24), Err(HostError::Oversize(1048577)));
    assert_eq!(plan_delivery(buf, BUFFER_LEN, 1 << 24), Ok((1024, 1024 + BUFFER_LEN)));
}

#[test]
fn delivery_past_memory_is_refused() {
    let buf = U8WasmPtr { offset: 60000 };
    assert_eq!(plan_delivery(buf, 5536, 65536), Ok((60000, 65536)));
    assert_eq!(plan_delivery(buf, 5537, 65536), Err(HostError::OutOfBounds));
}

#[test]
fn guest_ranges_are_checked() {
    let memory: Vec<u8> = (0u8..16).collect();
    let p = U8WasmPtr { offset: 4 };
    assert_eq!(p.to_vec(&memory, 3), Some(vec![4, 5, 6]));
    assert_eq!(p.to_vec(&memory, 12), Some((4u8..16).collect::<Vec<u8>>()));
    assert_eq!(p.to_vec(&memory, 13), None);
    assert_eq!(U8WasmPtr { offset: u32::MAX }.get_range(usize::MAX, 1), Some((u32::MAX as usize, u32::MAX as usize + 1)));
    assert_eq!(U8WasmPtr { offset: 10 }.get_range(10, 1), None);
}

#[test]
fn guest_send_builds_topic_message() {
    let memory = b"..hello..".to_vec();
    let topics = vec!["t1".to_string(), "t2".to_string()];
    let m = topic_message(&topics, 1, &memory, U8WasmPtr { offset: 2 }, 5).unwrap();
    assert_eq!(m.topic, "t2");
    assert_eq!(m.data, b"hello".to_vec());
    assert!(matches!(topic_message(&topics, 2, &memory, U8WasmPtr { offset: 2 }, 5), Err(HostError::TopicIndex(2, 2))));
    assert!(matches!(topic_message(&topics, 0, &memory, U8WasmPtr { offset: 2 }, 8), Err(HostError::OutOfBounds)));
}

#[test]
fn stream_frames() {
    assert!(matches!(on_stream_frame(StreamFrame::Text("hi".to_string())), StreamAction::Deliver(d) if d == b"hi".to_vec()));
    assert!(matches!(on_stream_frame(StreamFrame::Binary(vec![1, 2])), StreamAction::Deliver(d) if d == vec![1, 2]));
    assert!(matches!(on_stream_frame(StreamFrame::Ping(vec![7])), StreamAction::Pong(d) if d == vec![7]));
    assert!(matches!(on_stream_frame(StreamFrame::Pong(vec![7])), StreamAction::Ignore));
    assert!(matches!(on_stream_frame(StreamFrame::Close), StreamAction::Closed));
}
