use grayarea::host::{topic_message, U8WasmPtr};
use grayarea::message::decode;
use grayarea::message::{encode, Message, MAX_DATA_LEN};
use grayarea::routing::{RouteError, RouteTable, Router};
use grayarea::message::DecodeError;

fn frame(topic: &str, data: &[u8]) -> Vec<u8> {
    encode(&Message { topic: topic.to_string(), data: data.to_vec() }, MAX_DATA_LEN).unwrap()
}

#[test]
fn add_route_is_idempotent_and_keeps_order() {
    let mut t = RouteTable::new();
    assert!(t.is_empty());
    t.add_route("t1", 2);
    t.add_route("t1", 0);
    t.add_route("t1", 2);
    assert!(!t.is_empty());
    assert_eq!(t.subscribers(&"t1".to_string()).unwrap(), &vec![2, 0]);
    assert!(t.subscribers(&"t2".to_string()).is_none());
}

#[test]
fn fan_out_reaches_every_subscriber_once() {
    let mut t = RouteTable::new();
    t.add_route("t1", 1);
    t.add_route("t1", 2);
    let r = Router::new(t, MAX_DATA_LEN);
    for payload in [b"01", b"02", b"03"] {
        assert_eq!(r.route_frame(&frame("t1", payload)).unwrap(), vec![1, 2]);
    }
}

#[test]
fn two_topics_go_to_their_own_sinks() {
    let mut t = RouteTable::new();
    t.add_route("ta", 1);
    t.add_route("tb", 2);
    let r = Router::new(t, MAX_DATA_LEN);
    assert_eq!(r.route_frame(&frame("ta", b"A1")).unwrap(), vec![1]);
    assert_eq!(r.route_frame(&frame("tb", b"B1")).unwrap(), vec![2]);
    assert_eq!(r.route_frame(&frame("ta", b"A2")).unwrap(), vec![1]);
}

#[test]
fn unknown_topic_and_bad_frame_are_errors() {
    let mut t = RouteTable::new();
    t.add_route("t1", 0);
    let r = Router::new(t, MAX_DATA_LEN);
    assert_eq!(r.route_frame(&frame("t9", b"x")).unwrap_err(), RouteError::UnknownTopic("t9".to_string()));
    assert_eq!(r.route_frame(&[3, 1]).unwrap_err(), RouteError::Frame(DecodeError::Malformed));
}

#[test]
fn router_refuses_frames_over_its_cap() {
    let mut t = RouteTable::new();
    t.add_route("t1", 0);
    let r = Router::new(t, 2);
    assert_eq!(r.route_frame(&frame("t1", b"abc")).unwrap_err(), RouteError::Frame(DecodeError::Oversize));
}

#[test]
fn straight_pipe_delivers_exact_bytes() {
    let guest_memory = b"xxhello".to_vec();
    let topics = vec!["t1".to_string()];
    let sent = topic_message(&topics, 0, &guest_memory, U8WasmPtr { offset: 2 }, 5).unwrap();
    let f = encode(&sent, MAX_DATA_LEN).unwrap();
    let mut t = RouteTable::new();
    t.add_route("t1", 1);
    let r = Router::new(t, MAX_DATA_LEN);
    assert_eq!(r.route_frame(&f).unwrap(), vec![1]);
    let received = decode(&f, MAX_DATA_LEN).unwrap();
    assert_eq!(received.data, b"hello".to_vec());
}

#[test]
fn dispatch_hands_one_copy_to_each_subscriber() {
    let mut t = RouteTable::new();
    t.add_route("t1", 2);
    t.add_route("t1", 0);
    let r = Router::new(t, MAX_DATA_LEN);
    let f = frame("t1", b"payload");
    let copies = r.dispatch(&f).unwrap();
    assert_eq!(copies, vec![(2, f.clone()), (0, f.clone())]);
    assert_eq!(r.dispatch(&frame("zz", b"x")).unwrap_err(), RouteError::UnknownTopic("zz".to_string()));
}
