//! Pipeline and stage configuration, and the rules a pipeline must follow
//! before any stage is wired.
use vstd::prelude::*;
use vstd::utf8::encode_utf8;
use crate::channel::ChannelView;
use crate::orchestrator::{first_index, has_name, ConnectedOrchestrator, OrchestratorError};
use crate::routing::{add_route_spec, lemma_add_route_idempotent, lemma_add_route_keeps, table_wf};

verus! {

/// Capacity of the queues between a guest's thread and the rest of its
/// stage.
pub const CHANNEL_SIZE: usize = 1000;

/// One stage of a pipeline: its name and the path of its configuration.
pub struct PipelineModule {
    pub name: String,
    pub config: String,
}

/// A pipeline: the stages to start, in order.
pub struct PipelineConfig {
    pub functions: Vec<PipelineModule>,
}

/// What a stage does.
#[derive(Clone, Copy, Debug, PartialEq, Eq, Structural)]
pub enum ModuleKind {
    /// Reads an outside stream and feeds it to its guest.
    Input,
    /// Processes messages of a topic.
    Processor,
}

/// The outside stream an input stage reads.
pub enum StreamOneOf {
    WebSocket(WebSocketConfig),
}

/// The topics a stage publishes on; the guest names them by index.
pub struct Output {
    pub topics: Vec<String>,
}

/// The topic a stage receives.
pub struct Input {
    pub topic: String,
    pub queue: Option<String>,
}

/// Where a WebSocket stream is.
pub struct WebSocketConfig {
    pub url: String,
}

/// Where a stage's Wasm module is.
pub enum Module {
    Path(String),
}

/// The configuration of one stage.
pub struct ModuleConfig {
    pub name: String,
    pub args: Vec<String>,
    pub kind: ModuleKind,
    pub module: Module,
    pub stream: Option<StreamOneOf>,
    pub input: Option<Input>,
    pub output: Option<Output>,
}

/// Why a configuration is refused.
#[derive(Clone, Debug)]
pub enum ConfigError {
    /// The stage's own name differs from the name the pipeline gives it:
    /// the stage's name, its configuration's path, the pipeline's name.
    NameMismatch(String, String, String),
    /// Two stages have the same name.
    DuplicateName(String),
    /// A stage receives a topic that no stage publishes.
    NoProducer(String),
    /// A stage publishes a topic that no stage receives.
    NoConsumer(String),
    /// The stage has no output topics.
    MissingOutput,
    /// An input stage has no stream to read.
    MissingStream,
    /// The stage reads a stream but was given no rendezvous endpoint.
    MissingRendezvous,
}

/// The arguments a stage has when its configuration lists none.
pub fn empty_args() -> (r: Vec<String>)
    ensures
        r@.len() == 0,
{
    Vec::new()
}

/// The topic a stage receives, if any.
pub open spec fn input_topic(m: ModuleConfig) -> Option<Seq<char>> {
    match m.input {
        Some(i) => Some(i.topic@),
        None => None,
    }
}

/// The topics a stage publishes.
pub open spec fn output_topics(m: ModuleConfig) -> Seq<Seq<char>> {
    match m.output {
        Some(o) => o.topics@.map_values(|t: String| t@),
        None => Seq::empty(),
    }
}

/// Some stage publishes `t`.
pub open spec fn produced(ms: Seq<ModuleConfig>, t: Seq<char>) -> bool {
    exists|i: int| 0 <= i < ms.len() && #[trigger] output_topics(ms[i]).contains(t)
}

/// Some stage receives `t`.
pub open spec fn consumed(ms: Seq<ModuleConfig>, t: Seq<char>) -> bool {
    exists|i: int| 0 <= i < ms.len() && #[trigger] input_topic(ms[i]) == Some(t)
}

/// No two stages share a name.
pub open spec fn names_unique(ms: Seq<ModuleConfig>) -> bool {
    forall|i: int, j: int| 0 <= i < j < ms.len() ==> ms[i].name@ != ms[j].name@
}

/// The wiring rules: names are unique, every topic received is published by
/// some stage, and every topic published is received by some stage.
pub open spec fn wiring_ok(ms: Seq<ModuleConfig>) -> bool {
    &&& names_unique(ms)
    &&& forall|i: int| #![trigger input_topic(ms[i])]
        0 <= i < ms.len() && input_topic(ms[i]) is Some ==> produced(ms, input_topic(ms[i])->0)
    &&& forall|i: int, k: int| #![trigger output_topics(ms[i])[k]]
        0 <= i < ms.len() && 0 <= k < output_topics(ms[i]).len() ==> consumed(
            ms,
            output_topics(ms[i])[k],
        )
}

impl ModuleConfig {
    /// The arguments as bytes, for the guest's WASI argument list.
    pub fn args_as_bytes(&self) -> (r: Vec<Vec<u8>>)
        ensures
            r@.len() == self.args@.len(),
            forall|i: int| 0 <= i < r@.len() ==> #[trigger] r@[i]@ == encode_utf8(self.args@[i]@),
    {
        let mut out: Vec<Vec<u8>> = Vec::with_capacity(self.args.len());
        let mut i: usize = 0;
        while i < self.args.len()
            invariant
                i <= self.args@.len(),
                out@.len() == i,
                forall|j: int| 0 <= j < i ==> #[trigger] out@[j]@ == encode_utf8(self.args@[j]@),
            decreases self.args.len() - i,
        {
            let b = self.args[i].as_str().as_bytes();
            let mut v: Vec<u8> = Vec::with_capacity(b.len());
            let mut k: usize = 0;
            while k < b.len()
                invariant
                    k <= b@.len(),
                    v@ == b@.subrange(0, k as int),
                decreases b.len() - k,
            {
                v.push(b[k]);
                k += 1;
                assert(v@ =~= b@.subrange(0, k as int));
            }
            assert(b@.subrange(0, b@.len() as int) =~= b@);
            out.push(v);
            i += 1;
        }
        out
    }

    /// The output topics, in order; an error when the stage has none.
    pub fn topics(&self) -> (r: Result<Vec<String>, ConfigError>)
        ensures
            r.is_err() <==> self.output is None,
            r matches Err(e) ==> e matches ConfigError::MissingOutput,
            r matches Ok(v) ==> v@.map_values(|t: String| t@) == output_topics(*self),
    {
        match &self.output {
            None => Err(ConfigError::MissingOutput),
            Some(o) => {
                let mut v: Vec<String> = Vec::with_capacity(o.topics.len());
                let mut i: usize = 0;
                while i < o.topics.len()
                    invariant
                        i <= o.topics@.len(),
                        v@.len() == i,
                        forall|j: int| 0 <= j < i ==> #[trigger] v@[j]@ == o.topics@[j]@,
                    decreases o.topics.len() - i,
                {
                    v.push(o.topics[i].clone());
                    i += 1;
                }
                assert(v@.map_values(|t: String| t@) =~= o.topics@.map_values(|t: String| t@));
                Ok(v)
            },
        }
    }
}

impl PipelineModule {
    /// Accepts a stage configuration only under the name the pipeline gives
    /// the stage.
    pub fn check_name(&self, config: &ModuleConfig) -> (r: Result<(), ConfigError>)
        ensures
            r.is_ok() <==> config.name@ == self.name@,
            r matches Err(e) ==> e matches ConfigError::NameMismatch(n, path, expected) && n@
                == config.name@ && path@ == self.config@ && expected@ == self.name@,
    {
        if config.name == self.name {
            Ok(())
        } else {
            Err(ConfigError::NameMismatch(config.name.clone(), self.config.clone(), self.name.clone()))
        }
    }
}

/// How a stage runs, by its kind and outputs.
#[derive(Clone, Copy, Debug, PartialEq, Eq, Structural)]
pub enum StageShape {
    /// Feeds an outside stream to its guest and the guest's frames back out.
    Input,
    /// Feeds its bridge to its guest and the guest's messages to its bridge.
    ProcessorWithOutput,
    /// Feeds its bridge to its guest; the guest cannot send.
    ProcessorNoOutput,
}

/// The shape a stage runs in, or why its configuration cannot run:
/// a stream needs a rendezvous endpoint, and an input stage needs a stream.
pub open spec fn stage_shape_spec(kind: ModuleKind, has_stream: bool, has_output: bool, has_ipc: bool) -> Result<
    StageShape,
    ConfigError,
> {
    if has_stream && !has_ipc {
        Err(ConfigError::MissingRendezvous)
    } else {
        match kind {
            ModuleKind::Input => if has_stream {
                Ok(StageShape::Input)
            } else {
                Err(ConfigError::MissingStream)
            },
            ModuleKind::Processor => if has_output {
                Ok(StageShape::ProcessorWithOutput)
            } else {
                Ok(StageShape::ProcessorNoOutput)
            },
        }
    }
}

/// Decides how the stage runs; `has_ipc` tells whether a rendezvous endpoint
/// was given.
pub fn stage_shape(config: &ModuleConfig, has_ipc: bool) -> (r: Result<StageShape, ConfigError>)
    ensures
        r matches Ok(s) ==> stage_shape_spec(
            config.kind,
            config.stream is Some,
            config.output is Some,
            has_ipc,
        ) == Ok::<StageShape, ConfigError>(s),
        r.is_err() <==> stage_shape_spec(
            config.kind,
            config.stream is Some,
            config.output is Some,
            has_ipc,
        ).is_err(),
        r matches Err(e) ==> (if config.stream is Some && !has_ipc {
            e matches ConfigError::MissingRendezvous
        } else {
            e matches ConfigError::MissingStream
        }),
{
    let has_stream = config.stream.is_some();
    if has_stream && !has_ipc {
        return Err(ConfigError::MissingRendezvous);
    }
    match config.kind {
        ModuleKind::Input => if has_stream {
            Ok(StageShape::Input)
        } else {
            Err(ConfigError::MissingStream)
        },
        ModuleKind::Processor => if config.output.is_some() {
            Ok(StageShape::ProcessorWithOutput)
        } else {
            Ok(StageShape::ProcessorNoOutput)
        },
    }
}

fn is_produced(ms: &Vec<ModuleConfig>, t: &String) -> (r: bool)
    ensures
        r == produced(ms@, t@),
{
    let mut i: usize = 0;
    while i < ms.len()
        invariant
            i <= ms@.len(),
            forall|j: int| 0 <= j < i ==> !(#[trigger] output_topics(ms@[j])).contains(t@),
        decreases ms.len() - i,
    {
        match &ms[i].output {
            None => {
                assert(output_topics(ms@[i as int]) =~= Seq::<Seq<char>>::empty());
            },
            Some(o) => {
                let ghost ot = output_topics(ms@[i as int]);
                assert(ot == o.topics@.map_values(|s: String| s@));
                let mut k: usize = 0;
                while k < o.topics.len()
                    invariant
                        k <= o.topics@.len(),
                        i < ms@.len(),
                        ot == o.topics@.map_values(|s: String| s@),
                        ot == output_topics(ms@[i as int]),
                        forall|j: int| 0 <= j < k ==> ot[j] != t@,
                    decreases o.topics.len() - k,
                {
                    if o.topics[k] == *t {
                        assert(ot[k as int] == t@);
                        assert(output_topics(ms@[i as int]).contains(t@));
                        return true;
                    }
                    k += 1;
                }
            },
        }
        i += 1;
    }
    false
}

fn is_consumed(ms: &Vec<ModuleConfig>, t: &String) -> (r: bool)
    ensures
        r == consumed(ms@, t@),
{
    let mut i: usize = 0;
    while i < ms.len()
        invariant
            i <= ms@.len(),
            forall|j: int| 0 <= j < i ==> #[trigger] input_topic(ms@[j]) != Some(t@),
        decreases ms.len() - i,
    {
        match &ms[i].input {
            None => {},
            Some(inp) => {
                if inp.topic == *t {
                    assert(input_topic(ms@[i as int]) == Some(t@));
                    return true;
                }
            },
        }
        i += 1;
    }
    false
}

/// Checks the wiring rules of a pipeline: first that names are unique, then
/// that each received topic is published, then that each published topic is
/// received.
pub fn validate_pipeline(ms: &Vec<ModuleConfig>) -> (r: Result<(), ConfigError>)
    ensures
        r.is_ok() <==> wiring_ok(ms@),
        r matches Err(e) ==> (if !names_unique(ms@) {
            e matches ConfigError::DuplicateName(_)
        } else if exists|i: int|
            0 <= i < ms@.len() && #[trigger] input_topic(ms@[i]) is Some && !produced(
                ms@,
                input_topic(ms@[i])->0,
            ) {
            e matches ConfigError::NoProducer(_)
        } else {
            e matches ConfigError::NoConsumer(_)
        }),
{
    let n = ms.len();
    let mut i: usize = 0;
    while i < n
        invariant
            n == ms@.len(),
            i <= n,
            forall|a: int, b: int| 0 <= a < b < n && a < i ==> ms@[a].name@ != ms@[b].name@,
        decreases n - i,
    {
        let mut j: usize = i + 1;
        while j < n
            invariant
                n == ms@.len(),
                i < n,
                i + 1 <= j <= n,
                forall|a: int, b: int| 0 <= a < b < n && a < i ==> ms@[a].name@ != ms@[b].name@,
                forall|b: int| i < b < j ==> ms@[i as int].name@ != ms@[b].name@,
            decreases n - j,
        {
            if ms[i].name == ms[j].name {
                return Err(ConfigError::DuplicateName(ms[j].name.clone()));
            }
            j += 1;
        }
        i += 1;
    }
    assert(names_unique(ms@));
    let mut i: usize = 0;
    while i < n
        invariant
            n == ms@.len(),
            i <= n,
            names_unique(ms@),
            forall|j: int| #![trigger input_topic(ms@[j])]
                0 <= j < i && input_topic(ms@[j]) is Some ==> produced(ms@, input_topic(ms@[j])->0),
        decreases n - i,
    {
        match &ms[i].input {
            None => {},
            Some(inp) => {
                if !is_produced(ms, &inp.topic) {
                    assert(input_topic(ms@[i as int]) is Some);
                    return Err(ConfigError::NoProducer(inp.topic.clone()));
                }
            },
        }
        i += 1;
    }
    let mut i: usize = 0;
    while i < n
        invariant
            n == ms@.len(),
            i <= n,
            names_unique(ms@),
            forall|j: int| #![trigger input_topic(ms@[j])]
                0 <= j < n && input_topic(ms@[j]) is Some ==> produced(ms@, input_topic(ms@[j])->0),
            forall|j: int, k: int| #![trigger output_topics(ms@[j])[k]]
                0 <= j < i && 0 <= k < output_topics(ms@[j]).len() ==> consumed(
                    ms@,
                    output_topics(ms@[j])[k],
                ),
        decreases n - i,
    {
        match &ms[i].output {
            None => {
                assert(output_topics(ms@[i as int]) =~= Seq::<Seq<char>>::empty());
            },
            Some(o) => {
                let ghost ot = output_topics(ms@[i as int]);
                assert(ot == o.topics@.map_values(|s: String| s@));
                let mut k: usize = 0;
                while k < o.topics.len()
                    invariant
                        n == ms@.len(),
                        i < n,
                        names_unique(ms@),
                        forall|j: int| #![trigger input_topic(ms@[j])]
                            0 <= j < n && input_topic(ms@[j]) is Some ==> produced(
                                ms@,
                                input_topic(ms@[j])->0,
                            ),
                        k <= o.topics@.len(),
                        ot == o.topics@.map_values(|s: String| s@),
                        ot == output_topics(ms@[i as int]),
                        forall|j: int, k2: int| #![trigger output_topics(ms@[j])[k2]]
                            0 <= j < i && 0 <= k2 < output_topics(ms@[j]).len() ==> consumed(
                                ms@,
                                output_topics(ms@[j])[k2],
                            ),
                        forall|k2: int| 0 <= k2 < k ==> consumed(ms@, #[trigger] ot[k2]),
                    decreases o.topics.len() - k,
                {
                    if !is_consumed(ms, &o.topics[k]) {
                        assert(ot[k as int] == o.topics@[k as int]@);
                        assert(!consumed(ms@, output_topics(ms@[i as int])[k as int]));
                        return Err(ConfigError::NoConsumer(o.topics[k].clone()));
                    }
                    k += 1;
                }
            },
        }
        i += 1;
    }
    Ok(())
}

/// In a pipeline that follows the wiring rules, once every stage that
/// receives a topic is routed that topic, no published topic is left without
/// a stage to go to.
pub proof fn lemma_no_empty_fan_out(ms: Seq<ModuleConfig>, routes: Map<Seq<char>, Seq<usize>>)
    requires
        wiring_ok(ms),
        table_wf(routes),
        forall|i: int| #![trigger input_topic(ms[i])]
            0 <= i < ms.len() && input_topic(ms[i]) is Some ==> routes.contains_key(
                input_topic(ms[i])->0,
            ),
    ensures
        forall|i: int, k: int| #![trigger output_topics(ms[i])[k]]
            0 <= i < ms.len() && 0 <= k < output_topics(ms[i]).len() ==> routes.contains_key(
                output_topics(ms[i])[k],
            ) && routes[output_topics(ms[i])[k]].len() > 0,
{
    assert forall|i: int, k: int| #![trigger output_topics(ms[i])[k]]
        0 <= i < ms.len() && 0 <= k < output_topics(ms[i]).len() implies routes.contains_key(
            output_topics(ms[i])[k],
        ) && routes[output_topics(ms[i])[k]].len() > 0 by {
        let t = output_topics(ms[i])[k];
        assert(consumed(ms, t));
        let j = choose|j: int| 0 <= j < ms.len() && #[trigger] input_topic(ms[j]) == Some(t);
        assert(input_topic(ms[j]) is Some);
        assert(routes.contains_key(t));
    }
}

/// Topic `t` is routed to the first stage named `name`.
pub open spec fn routed_to(
    routes: Map<Seq<char>, Seq<usize>>,
    names: Seq<Seq<char>>,
    t: Seq<char>,
    name: Seq<char>,
) -> bool {
    exists|s: int|
        first_index(names, name, s) && routes.contains_key(t) && #[trigger] routes[t].contains(
            s as usize,
        )
}

/// The routes a pipeline calls for: each stage that receives a topic is
/// routed that topic. Fails when a stage has no bridge, or the routes are
/// frozen.
pub fn wire(sup: &mut ConnectedOrchestrator, ms: &Vec<ModuleConfig>) -> (r: Result<(), OrchestratorError>)
    requires
        old(sup).wf(),
    ensures
        final(sup).wf(),
        final(sup).names() == old(sup).names(),
        final(sup).halves().len() == old(sup).halves().len(),
        forall|j: int| 0 <= j < old(sup).halves().len() ==> #[trigger] final(sup).halves()[j].rx
            == old(sup).halves()[j].rx,
        r.is_ok() ==> forall|i: int| #![trigger input_topic(ms@[i])]
            0 <= i < ms@.len() && input_topic(ms@[i]) is Some ==> routed_to(
                final(sup).routes(),
                final(sup).names(),
                input_topic(ms@[i])->0,
                ms@[i].name@,
            ),
        r.is_ok() ==> forall|t: Seq<char>, x: usize|
            #![trigger old(sup).routes()[t].contains(x)]
            old(sup).routes().contains_key(t) && old(sup).routes()[t].contains(x)
                ==> final(sup).routes().contains_key(t) && final(sup).routes()[t].contains(x),
        (!old(sup).started() && forall|i: int| #![trigger input_topic(ms@[i])]
            0 <= i < ms@.len() && input_topic(ms@[i]) is Some ==> exists|s: int|
                first_index(old(sup).names(), ms@[i].name@, s) && (old(sup).senders()[s] is Some
                    || old(sup).halves()[s].tx)) ==> r.is_ok(),
{
    let mut i: usize = 0;
    while i < ms.len()
        invariant
            i <= ms@.len(),
            sup.wf(),
            sup.names() == old(sup).names(),
            sup.halves().len() == old(sup).halves().len(),
            forall|j: int| 0 <= j < old(sup).halves().len() ==> #[trigger] sup.halves()[j].rx
                == old(sup).halves()[j].rx,
            forall|s: int|
                0 <= s < old(sup).halves().len() && (#[trigger] old(sup).senders()[s] is Some
                    || old(sup).halves()[s].tx) ==> sup.senders()[s] is Some || sup.halves()[s].tx,
            sup.started() == old(sup).started(),
            forall|j: int| #![trigger input_topic(ms@[j])]
                0 <= j < i && input_topic(ms@[j]) is Some ==> routed_to(
                    sup.routes(),
                    sup.names(),
                    input_topic(ms@[j])->0,
                    ms@[j].name@,
                ),
            forall|t: Seq<char>, x: usize|
                #![trigger old(sup).routes()[t].contains(x)]
                old(sup).routes().contains_key(t) && old(sup).routes()[t].contains(x) ==> sup.routes().contains_key(t)
                    && sup.routes()[t].contains(x),
        decreases ms.len() - i,
    {
        match &ms[i].input {
            None => {},
            Some(inp) => {
                let ghost before = sup.routes();
                let ghost before_senders = sup.senders();
                let ghost before_halves = sup.halves();
                let ghost before_channels = sup.channels();
                assert(input_topic(ms@[i as int]) is Some);
                proof {
                    sup.lemma_routes_wf();
                    sup.lemma_lens();
                }
                match sup.route_topic_to_bridge(inp.topic.as_str(), ms[i].name.as_str()) {
                    Ok(()) => {},
                    Err(e) => return Err(e),
                }
                proof {
                    sup.lemma_lens();
                    let i2 = choose|i2: int|
                        {
                            &&& first_index(old(sup).names(), ms@[i as int].name@, i2)
                            &&& sup.senders() == before_senders.update(
                                i2,
                                if before_senders[i2] is Some {
                                    before_senders[i2]
                                } else {
                                    before_channels[i2].tx
                                },
                            )
                            &&& sup.senders()[i2] is Some
                            &&& sup.halves() == before_halves.update(
                                i2,
                                ChannelView { tx: false, rx: before_halves[i2].rx },
                            )
                        };
                    assert(sup.halves().len() == before_halves.len());
                    let after = sup.routes();
                    let t = inp.topic@;
                    let s0 = choose|s: int| first_index(old(sup).names(), ms@[i as int].name@, s)
                        && after == add_route_spec(before, t, s as usize);
                    assert forall|k: Seq<char>, x: usize|
                        before.contains_key(k) && #[trigger] before[k].contains(x) implies after.contains_key(k)
                        && after[k].contains(x) by {
                        lemma_add_route_keeps(before, t, s0 as usize, k, x);
                    }
                    lemma_add_route_idempotent(before, t, s0 as usize);
                    assert(routed_to(after, sup.names(), t, ms@[i as int].name@));
                    assert forall|j: int| #![trigger input_topic(ms@[j])]
                        0 <= j < i + 1 && input_topic(ms@[j]) is Some implies routed_to(
                            after,
                            sup.names(),
                            input_topic(ms@[j])->0,
                            ms@[j].name@,
                        ) by {
                        if j < i {
                            let tj = input_topic(ms@[j])->0;
                            let sj = choose|s: int| first_index(sup.names(), ms@[j].name@, s)
                                && before.contains_key(tj) && #[trigger] before[tj].contains(s as usize);
                            assert(before[tj].contains(sj as usize));
                        }
                    }
                }
            },
        }
        i += 1;
    }
    Ok(())
}

} // verus!
