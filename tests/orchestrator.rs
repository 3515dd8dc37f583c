use grayarea::orchestrator::RendezvousEvent;
use grayarea::config::{empty_args, wire, Input, Module, ModuleConfig, ModuleKind, Output};
use grayarea::channel::{Channel, ChannelError};
use grayarea::orchestrator::{orchestrator, should_not_complete, ConnectedOrchestrator, Orchestrator, OrchestratorError, Task};

fn connected(names: &[&str]) -> ConnectedOrchestrator {
    let mut s = Orchestrator::new().ipc(true);
    for n in names {
        s.start(n).unwrap();
    }
    let mut c = s.connect();
    for i in 0..names.len() {
        c.deliver(i, Channel::simplex().unwrap()).unwrap();
    }
    assert!(c.is_complete());
    c.finish().unwrap()
}

#[test]
fn builder_flags() {
    let s = Orchestrator::new();
    assert!(!s.has_ipc());
    assert!(!s.has_rust_backtrace());
    let s = s.ipc(true).rust_backtrace(true);
    assert!(s.has_ipc());
    assert!(s.has_rust_backtrace());
}

#[test]
fn a_name_starts_once() {
    let mut s = Orchestrator::new();
    assert!(s.start("src").is_ok());
    assert!(matches!(s.start("src"), Err(OrchestratorError::AlreadyStarted(n)) if n == "src"));
    assert!(s.start("dst").is_ok());
}

#[test]
fn connect_records_one_bridge_per_stage() {
    let c = connected(&["src", "dst"]);
    assert_eq!(c.len(), 2);
    assert_eq!(c.name(0), "src");
    assert_eq!(c.name(1), "dst");
}

#[test]
fn missing_rendezvous_names_the_stage() {
    let mut s = Orchestrator::new();
    s.start("src").unwrap();
    s.start("dst").unwrap();
    let mut c = s.connect();
    c.deliver(0, Channel::simplex().unwrap()).unwrap();
    assert!(!c.is_complete());
    assert!(matches!(c.finish(), Err(OrchestratorError::RendezvousFailure(n)) if n == "dst"));
}

#[test]
fn second_bridge_and_exit_errors() {
    let mut s = Orchestrator::new();
    s.start("dst").unwrap();
    let mut c = s.connect();
    c.deliver(0, Channel::simplex().unwrap()).unwrap();
    assert!(matches!(c.deliver(0, Channel::simplex().unwrap()), Err(OrchestratorError::DuplicateBridge(n)) if n == "dst"));
    assert!(matches!(c.exited(0, Some(101)), OrchestratorError::PrematureExit(n, Some(101)) if n == "dst"));
    assert!(matches!(c.disconnected(0), OrchestratorError::RendezvousFailure(n) if n == "dst"));
}

#[test]
fn routes_need_known_stages_and_freeze() {
    let mut c = connected(&["src", "a", "b"]);
    assert!(matches!(c.pipe_routes(1024), Err(OrchestratorError::NotConfigured)));
    assert!(matches!(c.route_topic_to_bridge("t1", "zzz"), Err(OrchestratorError::UnknownStage(n)) if n == "zzz"));
    c.route_topic_to_bridge("t1", "a").unwrap();
    c.route_topic_to_bridge("t1", "b").unwrap();
    c.route_topic_to_bridge("t1", "a").unwrap();
    let (router, rxs, txs) = c.pipe_routes(1024).unwrap();
    assert_eq!(rxs.len(), 3);
    assert_eq!(txs.len(), 3);
    assert!(txs[0].is_none() && txs[1].is_some() && txs[2].is_some());
    let f = grayarea::message::encode(
        &grayarea::message::Message { topic: "t1".to_string(), data: vec![1] },
        1024,
    )
    .unwrap();
    assert_eq!(router.route_frame(&f).unwrap(), vec![1, 2]);
    assert!(matches!(c.route_topic_to_bridge("t2", "a"), Err(OrchestratorError::RoutesFrozen)));
    assert!(matches!(c.pipe_routes(1024), Err(OrchestratorError::RoutesFrozen)));
}

#[test]
fn a_bridge_half_is_taken_once() {
    let mut c = connected(&["src", "dst"]);
    assert!(c.pipe_bridges("src", "dst").is_ok());
    assert!(matches!(c.pipe_bridges("src", "dst"), Err(OrchestratorError::HalfTaken(n)) if n == "src"));
    assert!(matches!(c.pipe_bridges("nope", "dst"), Err(OrchestratorError::UnknownStage(_))));
}

#[test]
fn channel_halves_are_taken_once() {
    let mut ch = Channel::simplex().unwrap();
    assert!(ch.tx_take().is_some());
    assert!(ch.tx_take().is_none());
    assert!(ch.rx_take().is_some());
    assert!(ch.rx_take().is_none());
    let mut ch = Channel::simplex().unwrap();
    ch.tx_take();
    assert!(matches!(ch.split(), Err(ChannelError::NoSender)));
    let mut ch = Channel::simplex().unwrap();
    ch.rx_take();
    assert!(matches!(ch.split(), Err(ChannelError::NoReceiver)));
}

#[test]
fn duplex_ends_face_each_other() {
    let (a, b) = Channel::duplex().unwrap();
    let (atx, arx) = a.split().unwrap();
    let (btx, brx) = b.split().unwrap();
    atx.send(vec![1, 2, 3]).unwrap();
    assert_eq!(brx.recv().unwrap(), vec![1, 2, 3]);
    btx.send(vec![9]).unwrap();
    assert_eq!(arx.recv().unwrap(), vec![9]);
}

#[test]
fn default_orchestrator_has_no_stage() {
    let o = orchestrator();
    assert!(!o.has_ipc());
    assert!(!o.has_rust_backtrace());
    let c = o.connect();
    assert_eq!(c.len(), 0);
    assert!(c.is_complete());
    assert_eq!(c.finish().unwrap().len(), 0);
}

#[test]
fn forwarded_halves_are_handed_out_once() {
    let mut c = connected(&["src", "dst"]);
    assert!(c.forward_bridge_rx("src").is_ok());
    assert!(matches!(c.forward_bridge_rx("src"), Err(OrchestratorError::HalfTaken(n)) if n == "src"));
    assert!(c.forward_bridge_tx("dst").is_ok());
    assert!(matches!(c.forward_bridge_tx("dst"), Err(OrchestratorError::HalfTaken(n)) if n == "dst"));
    assert!(matches!(c.forward_bridge_tx("nope"), Err(OrchestratorError::UnknownStage(n)) if n == "nope"));
    assert!(matches!(c.route_topic_to_bridge("t1", "dst"), Err(OrchestratorError::HalfTaken(n)) if n == "dst"));
    c.route_topic_to_bridge("t1", "src").unwrap();
    assert!(matches!(c.pipe_routes(1024), Err(OrchestratorError::HalfTaken(n)) if n == "src"));
}

#[test]
fn routing_takes_the_sending_half_once() {
    let mut c = connected(&["src", "a"]);
    c.route_topic_to_bridge("t1", "a").unwrap();
    assert!(matches!(c.forward_bridge_tx("a"), Err(OrchestratorError::HalfTaken(n)) if n == "a"));
    c.route_topic_to_bridge("t2", "a").unwrap();
    assert!(c.forward_bridge_tx("src").is_ok());
    let (_router, rxs, txs) = c.pipe_routes(1024).unwrap();
    assert_eq!(rxs.len(), 2);
    assert!(txs[0].is_none());
    assert!(txs[1].is_some());
}

#[test]
fn launch_settings_follow_the_flags() {
    let s = Orchestrator::new().launch_settings("ep");
    assert!(s.args.is_empty());
    assert!(s.env.is_empty());
    let s = Orchestrator::new().ipc(true).rust_backtrace(true).launch_settings("ep");
    assert_eq!(s.args, vec!["--orchestrator-ch=ep".to_string()]);
    assert_eq!(s.env, vec![("RUST_BACKTRACE".to_string(), "1".to_string())]);
}

#[test]
fn failed_spawn_forgets_the_stage() {
    let mut o = Orchestrator::new();
    o.start("a").unwrap();
    let e = o.spawn_failed("a", "no such file".to_string());
    assert!(matches!(e, OrchestratorError::Spawn(n, m) if n == "a" && m == "no such file"));
    assert!(o.start("a").is_ok());
}

#[test]
fn duplex_ends_are_crossed() {
    let (t1, r1) = Channel::simplex().unwrap().split().unwrap();
    let (t2, r2) = Channel::simplex().unwrap().split().unwrap();
    let (a, b) = Channel::cross((t1, r1), (t2, r2));
    let (atx, arx) = a.split().unwrap();
    let (btx, brx) = b.split().unwrap();
    atx.send(vec![4]).unwrap();
    assert_eq!(brx.recv().unwrap(), vec![4]);
    btx.send(vec![5]).unwrap();
    assert_eq!(arx.recv().unwrap(), vec![5]);
}

#[test]
fn lifetime_tasks_never_end_well() {
    assert!(matches!(should_not_complete(Task::Logs, Ok(())), OrchestratorError::Completed(Task::Logs)));
    assert!(matches!(
        should_not_complete(Task::Channels, Err("closed".to_string())),
        OrchestratorError::Failed(Task::Channels, m) if m == "closed"
    ));
    let c = connected(&["src", "dst"]);
    assert!(matches!(c.exited(1, Some(0)), OrchestratorError::PrematureExit(n, Some(0)) if n == "dst"));
}

#[test]
fn wiring_routes_each_receiving_stage() {
    let stage = |name: &str, input: Option<&str>, output: Option<&str>| ModuleConfig {
        name: name.to_string(),
        args: empty_args(),
        kind: ModuleKind::Processor,
        module: Module::Path("m.wasm".to_string()),
        stream: None,
        input: input.map(|t| Input { topic: t.to_string(), queue: None }),
        output: output.map(|t| Output { topics: vec![t.to_string()] }),
    };
    let ms = vec![stage("src", None, Some("t1")), stage("a", Some("t1"), None), stage("b", Some("t1"), None)];
    let mut c = connected(&["src", "a", "b"]);
    wire(&mut c, &ms).unwrap();
    let (router, _rxs, _txs) = c.pipe_routes(1024).unwrap();
    let f = grayarea::message::encode(
        &grayarea::message::Message { topic: "t1".to_string(), data: b"01".to_vec() },
        1024,
    )
    .unwrap();
    assert_eq!(router.route_frame(&f).unwrap(), vec![1, 2]);
    let lost = vec![stage("ghost", Some("t1"), None)];
    let mut c = connected(&["src"]);
    assert!(matches!(wire(&mut c, &lost), Err(OrchestratorError::UnknownStage(n)) if n == "ghost"));
}

#[test]
fn connect_all_records_each_delivered_bridge() {
    let mut o = Orchestrator::new().ipc(true);
    o.start("src").unwrap();
    o.start("dst").unwrap();
    let chans = vec![Channel::simplex().unwrap(), Channel::simplex().unwrap()];
    let mut c = o.connect_all(chans);
    assert_eq!(c.len(), 2);
    assert_eq!(c.name(0), "src");
    assert_eq!(c.name(1), "dst");
    assert!(c.forward_bridge_rx("dst").is_ok());
}

#[test]
fn rendezvous_events_step_the_wait() {
    let mut o = Orchestrator::new();
    o.start("src").unwrap();
    o.start("dst").unwrap();
    let mut c = o.connect();
    assert!(c.on_event(RendezvousEvent::Delivered(0, Channel::simplex().unwrap())).is_ok());
    assert!(matches!(
        c.on_event(RendezvousEvent::Delivered(0, Channel::simplex().unwrap())),
        Err(OrchestratorError::DuplicateBridge(n)) if n == "src"
    ));
    assert!(matches!(c.on_event(RendezvousEvent::Exited(1, Some(3))), Err(OrchestratorError::PrematureExit(n, Some(3))) if n == "dst"));
    assert!(matches!(c.on_event(RendezvousEvent::LogClosed(1)), Err(OrchestratorError::LogClosed(n)) if n == "dst"));
    assert!(matches!(c.on_event(RendezvousEvent::Disconnected(1)), Err(OrchestratorError::RendezvousFailure(n)) if n == "dst"));
    assert!(!c.is_complete());
}
