use grayarea::config::{
    empty_args, stage_shape, validate_pipeline, ConfigError, Input, Module, ModuleConfig, ModuleKind, Output,
    PipelineModule, StageShape, StreamOneOf, WebSocketConfig,
};

fn stage(name: &str, kind: ModuleKind, input: Option<&str>, output: &[&str], stream: bool) -> ModuleConfig {
    ModuleConfig {
        name: name.to_string(),
        args: empty_args(),
        kind,
        module: Module::Path(format!("{}.wasm", name)),
        stream: if stream {
            Some(StreamOneOf::WebSocket(WebSocketConfig { url: "ws://localhost:1".to_string() }))
        } else {
            None
        },
        input: input.map(|t| Input { topic: t.to_string(), queue: None }),
        output: if output.is_empty() {
            None
        } else {
            Some(Output { topics: output.iter().map(|t| t.to_string()).collect() })
        },
    }
}

#[test]
fn straight_pipe_is_valid() {
    let ms = vec![
        stage("src", ModuleKind::Input, None, &["t1"], true),
        stage("dst", ModuleKind::Processor, Some("t1"), &[], false),
    ];
    assert!(validate_pipeline(&ms).is_ok());
}

#[test]
fn fan_out_and_two_topics_are_valid() {
    let ms = vec![
        stage("src", ModuleKind::Processor, None, &["ta", "tb"], false),
        stage("ra", ModuleKind::Processor, Some("ta"), &[], false),
        stage("rb", ModuleKind::Processor, Some("tb"), &[], false),
        stage("rb2", ModuleKind::Processor, Some("tb"), &[], false),
    ];
    assert!(validate_pipeline(&ms).is_ok());
}

#[test]
fn topic_nobody_receives_is_rejected() {
    let ms = vec![
        stage("src", ModuleKind::Processor, None, &["t1", "t2"], false),
        stage("dst", ModuleKind::Processor, Some("t1"), &[], false),
    ];
    assert!(matches!(validate_pipeline(&ms), Err(ConfigError::NoConsumer(t)) if t == "t2"));
}

#[test]
fn topic_nobody_publishes_is_rejected() {
    let ms = vec![
        stage("src", ModuleKind::Processor, None, &["t1"], false),
        stage("dst", ModuleKind::Processor, Some("t1"), &[], false),
        stage("lost", ModuleKind::Processor, Some("t9"), &[], false),
    ];
    assert!(matches!(validate_pipeline(&ms), Err(ConfigError::NoProducer(t)) if t == "t9"));
}

#[test]
fn duplicate_names_are_rejected() {
    let ms = vec![
        stage("src", ModuleKind::Processor, None, &["t1"], false),
        stage("src", ModuleKind::Processor, Some("t1"), &[], false),
    ];
    assert!(matches!(validate_pipeline(&ms), Err(ConfigError::DuplicateName(n)) if n == "src"));
}

#[test]
fn stream_without_rendezvous_is_refused() {
    let s = stage("src", ModuleKind::Input, None, &["t1"], true);
    assert!(matches!(stage_shape(&s, false), Err(ConfigError::MissingRendezvous)));
    assert_eq!(stage_shape(&s, true).unwrap(), StageShape::Input);
}

#[test]
fn shapes_by_kind_and_output() {
    let no_stream = stage("src", ModuleKind::Input, None, &["t1"], false);
    assert!(matches!(stage_shape(&no_stream, true), Err(ConfigError::MissingStream)));
    let p = stage("p", ModuleKind::Processor, Some("t1"), &["t2"], false);
    assert_eq!(stage_shape(&p, false).unwrap(), StageShape::ProcessorWithOutput);
    let q = stage("q", ModuleKind::Processor, Some("t1"), &[], false);
    assert_eq!(stage_shape(&q, false).unwrap(), StageShape::ProcessorNoOutput);
}

#[test]
fn topics_and_args() {
    let mut p = stage("p", ModuleKind::Processor, None, &["a", "b"], false);
    assert_eq!(p.topics().unwrap(), vec!["a".to_string(), "b".to_string()]);
    p.args = vec!["-v".to_string(), "é".to_string()];
    assert_eq!(p.args_as_bytes(), vec![b"-v".to_vec(), vec![0xc3, 0xa9]]);
    let q = stage("q", ModuleKind::Processor, Some("a"), &[], false);
    assert!(matches!(q.topics(), Err(ConfigError::MissingOutput)));
    assert!(empty_args().is_empty());
}

#[test]
fn stage_name_must_match_pipeline() {
    let entry = PipelineModule { name: "send".to_string(), config: "send.yml".to_string() };
    let ok = stage("send", ModuleKind::Processor, None, &["t"], false);
    let bad = stage("other", ModuleKind::Processor, None, &["t"], false);
    assert!(entry.check_name(&ok).is_ok());
    assert!(matches!(entry.check_name(&bad), Err(ConfigError::NameMismatch(n, p, e)) if n == "other" && p == "send.yml" && e == "send"));
}
