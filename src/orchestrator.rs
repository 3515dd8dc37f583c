//! The supervisor's bookkeeping: which stages were started, which of them
//! delivered their bridge, and how topics are wired to stages.
use vstd::prelude::*;
use vstd::string::StringExecFns;
use crate::channel::{Channel, ChannelView, Receiver, Sender};
use crate::routing::{add_route_spec, lemma_add_route_members, table_wf, RouteTable, Router};

verus! {

/// The bridge of one stage: its name and the supervisor's end of its duplex
/// channel.
pub struct Bridge {
    pub channel: Channel,
    pub name: String,
}

/// Why the supervisor cannot go on.
#[derive(Clone, Debug)]
pub enum OrchestratorError {
    /// A stage of that name was already started.
    AlreadyStarted(String),
    /// The stage's process could not be started, for this reason.
    Spawn(String, String),
    /// The stage went away without delivering its bridge.
    RendezvousFailure(String),
    /// The stage's output ended: it died without exiting through its
    /// process handle first.
    LogClosed(String),
    /// The stage's process ended; its status code, where it had one.
    PrematureExit(String, Option<i32>),
    /// The stage delivered a second bridge.
    DuplicateBridge(String),
    /// No stage has that name.
    UnknownStage(String),
    /// The stage's bridge half was already taken.
    HalfTaken(String),
    /// The routes were frozen when the router started.
    RoutesFrozen,
    /// The router was asked to start with no route at all.
    NotConfigured,
    /// A task meant to run as long as the pipeline ended without error.
    Completed(Task),
    /// A task meant to run as long as the pipeline failed, for this reason.
    Failed(Task, String),
}

/// The tasks that run as long as the pipeline does.
#[derive(Clone, Copy, Debug, PartialEq, Eq, Structural)]
pub enum Task {
    /// The router and the pipes between bridges.
    Channels,
    /// The stages' processes.
    Processes,
    /// The readers of the stages' output.
    Logs,
}

/// The end of a task that should run as long as the pipeline: an error
/// whether the task failed or completed.
pub fn should_not_complete(task: Task, res: Result<(), String>) -> (r: OrchestratorError)
    ensures
        res is Ok ==> (r matches OrchestratorError::Completed(t) && t == task),
        res matches Err(m) ==> r matches OrchestratorError::Failed(t, e) && t == task && e@ == m@,
{
    match res {
        Ok(()) => OrchestratorError::Completed(task),
        Err(m) => OrchestratorError::Failed(task, m),
    }
}

/// The names of a list of strings, as character sequences.
pub open spec fn names_view(v: Seq<String>) -> Seq<Seq<char>> {
    v.map_values(|s: String| s@)
}

/// Whether `name` is among `names`.
pub open spec fn has_name(names: Seq<Seq<char>>, name: Seq<char>) -> bool {
    exists|i: int| 0 <= i < names.len() && names[i] == name
}

/// The first position of `name` in `names`.
pub open spec fn first_index(names: Seq<Seq<char>>, name: Seq<char>, i: int) -> bool {
    0 <= i < names.len() && names[i] == name && forall|j: int| 0 <= j < i ==> names[j] != name
}

fn position_of(names: &Vec<String>, name: &String) -> (r: Option<usize>)
    ensures
        r is None <==> !has_name(names_view(names@), name@),
        r matches Some(i) ==> first_index(names_view(names@), name@, i as int),
{
    let ghost nv = names_view(names@);
    let mut i: usize = 0;
    while i < names.len()
        invariant
            i <= names@.len(),
            nv == names_view(names@),
            forall|j: int| 0 <= j < i ==> nv[j] != name@,
        decreases names.len() - i,
    {
        if names[i] == *name {
            assert(nv[i as int] == names@[i as int]@);
            return Some(i);
        }
        i += 1;
    }
    assert(!has_name(nv, name@));
    None
}

/// The default orchestrator: no stage yet, no rendezvous endpoint, no
/// backtraces.
pub fn orchestrator() -> (r: Orchestrator)
    ensures
        r.names() == Seq::<Seq<char>>::empty(),
        !r.ipc_view(),
        !r.rust_backtrace_view(),
{
    Orchestrator::new()
}

/// What a stage's process is started with besides its own arguments.
pub struct LaunchSettings {
    /// Arguments appended to the command line.
    pub args: Vec<String>,
    /// Environment variables, as name and value.
    pub env: Vec<(String, String)>,
}

/// A supervisor that is starting its stages.
pub struct Orchestrator {
    names: Vec<String>,
    ipc: bool,
    rust_backtrace: bool,
}

impl Orchestrator {
    /// The names of the stages started so far, in order.
    pub closed spec fn names(&self) -> Seq<Seq<char>> {
        names_view(self.names@)
    }

    pub closed spec fn ipc_view(&self) -> bool {
        self.ipc
    }

    pub closed spec fn rust_backtrace_view(&self) -> bool {
        self.rust_backtrace
    }

    /// A supervisor with no stage, no rendezvous endpoint and no backtraces.
    pub fn new() -> (r: Orchestrator)
        ensures
            r.names() == Seq::<Seq<char>>::empty(),
            !r.ipc_view(),
            !r.rust_backtrace_view(),
    {
        let r = Orchestrator { names: Vec::new(), ipc: false, rust_backtrace: false };
        assert(r.names() =~= Seq::<Seq<char>>::empty());
        r
    }

    /// Whether each stage is handed a rendezvous endpoint to deliver its
    /// bridge to.
    pub fn ipc(self, ipc: bool) -> (r: Orchestrator)
        ensures
            r.names() == self.names(),
            r.ipc_view() == ipc,
            r.rust_backtrace_view() == self.rust_backtrace_view(),
    {
        Orchestrator { ipc, ..self }
    }

    /// Whether each stage runs with backtraces on.
    pub fn rust_backtrace(self, backtrace: bool) -> (r: Orchestrator)
        ensures
            r.names() == self.names(),
            r.ipc_view() == self.ipc_view(),
            r.rust_backtrace_view() == backtrace,
    {
        Orchestrator { rust_backtrace: backtrace, ..self }
    }

    pub fn has_ipc(&self) -> (r: bool)
        ensures
            r == self.ipc_view(),
    {
        self.ipc
    }

    pub fn has_rust_backtrace(&self) -> (r: bool)
        ensures
            r == self.rust_backtrace_view(),
    {
        self.rust_backtrace
    }

    /// Records a stage about to be started; a name may be used once.
    pub fn start(&mut self, name: &str) -> (r: Result<(), OrchestratorError>)
        ensures
            r.is_err() <==> has_name(old(self).names(), name@),
            r matches Err(e) ==> e matches OrchestratorError::AlreadyStarted(n) && n@ == name@,
            r.is_ok() ==> final(self).names() == old(self).names().push(name@),
            r.is_err() ==> final(self).names() == old(self).names(),
            final(self).ipc_view() == old(self).ipc_view(),
            final(self).rust_backtrace_view() == old(self).rust_backtrace_view(),
    {
        let n = name.to_owned();
        match position_of(&self.names, &n) {
            Some(_) => Err(OrchestratorError::AlreadyStarted(n)),
            None => {
                self.names.push(n);
                assert(names_view(self.names@) =~= names_view(old(self).names@).push(name@));
                Ok(())
            },
        }
    }

    /// The extra arguments and environment of a stage's process: the flag
    /// that hands it `endpoint` when rendezvous is on, and `RUST_BACKTRACE=1`
    /// when backtraces are.
    pub fn launch_settings(&self, endpoint: &str) -> (r: LaunchSettings)
        ensures
            self.ipc_view() ==> r.args@.len() == 1 && r.args@[0]@ == "--orchestrator-ch="@
                + endpoint@,
            !self.ipc_view() ==> r.args@.len() == 0,
            self.rust_backtrace_view() ==> r.env@.len() == 1 && r.env@[0].0@ == "RUST_BACKTRACE"@
                && r.env@[0].1@ == "1"@,
            !self.rust_backtrace_view() ==> r.env@.len() == 0,
    {
        let mut args: Vec<String> = Vec::new();
        if self.ipc {
            args.push("--orchestrator-ch=".to_owned().concat(endpoint));
        }
        let mut env: Vec<(String, String)> = Vec::new();
        if self.rust_backtrace {
            env.push(("RUST_BACKTRACE".to_owned(), "1".to_owned()));
        }
        LaunchSettings { args, env }
    }

    /// Forgets the stage named `name`, last started, whose process could not
    /// be started, and gives the error for it.
    pub fn spawn_failed(&mut self, name: &str, reason: String) -> (r: OrchestratorError)
        ensures
            r matches OrchestratorError::Spawn(n, m) && n@ == name@ && m@ == reason@,
            old(self).names().len() > 0 && old(self).names().last() == name@ ==> final(self).names()
                == old(self).names().drop_last(),
            !(old(self).names().len() > 0 && old(self).names().last() == name@) ==> final(
                self).names() == old(self).names(),
            final(self).ipc_view() == old(self).ipc_view(),
            final(self).rust_backtrace_view() == old(self).rust_backtrace_view(),
    {
        let n = name.to_owned();
        let len = self.names.len();
        if len > 0 && self.names[len - 1] == n {
            assert(names_view(self.names@).last() == self.names@[len - 1]@);
            self.names.pop();
            assert(names_view(self.names@) =~= names_view(old(self).names@).drop_last());
        }
        OrchestratorError::Spawn(n, reason)
    }

    /// Connects every started stage, given the one bridge each delivered,
    /// in the order the stages were started: the result has exactly one
    /// bridge per stage, under its name, and no route yet.
    pub fn connect_all(self, channels: Vec<Channel>) -> (r: ConnectedOrchestrator)
        requires
            channels@.len() == self.names().len(),
        ensures
            r.wf(),
            r.names() == self.names(),
            r.channels() == channels@,
            !r.started(),
            r.routes() == Map::<Seq<char>, Seq<usize>>::empty(),
    {
        let ghost chs = channels@;
        let ghost names0 = self.names();
        let mut channels = channels;
        let mut c = self.connect();
        let ghost n = chs.len();
        while channels.len() > 0
            invariant
                c.wf(),
                c.names() == names0,
                n == c.names().len(),
                chs.len() == n,
                channels@ == chs.subrange(0, channels@.len() as int),
                channels@.len() <= n,
                forall|j: int| 0 <= j < channels@.len() ==> c.slots()[j] is None,
                forall|j: int| channels@.len() <= j < n ==> c.slots()[j] == Some(#[trigger] chs[j]),
                c.slots().len() == n,
                c.delivered().len() == n,
                forall|j: int| 0 <= j < n ==> #[trigger] c.delivered()[j] == (c.slots()[j] is Some),
            decreases channels@.len(),
        {
            let k = channels.len() - 1;
            let ghost pre = channels@;
            assert(pre[k as int] == chs[k as int]);
            let ch = channels.pop().unwrap();
            assert(ch == pre[k as int]);
            assert(channels@ =~= pre.drop_last());
            let res = c.deliver(k, ch);
            assert(res.is_ok());
            assert(channels@ =~= chs.subrange(0, channels@.len() as int));
        }
        assert forall|j: int| 0 <= j < n implies #[trigger] c.delivered()[j] by {
            assert(c.slots()[j] == Some(chs[j]));
        }
        let done = c.finish().unwrap();
        assert forall|j: int| 0 <= j < n implies #[trigger] done.channels()[j] == chs[j] by {
            assert(Some(done.channels()[j]) == c.slots()[j]);
        }
        assert(done.channels() =~= chs);
        done
    }

    /// Starts waiting for every stage's bridge.
    pub fn connect(self) -> (r: Connecting)
        ensures
            r.wf(),
            r.names() == self.names(),
            r.delivered() == Seq::new(self.names().len(), |i: int| false),
            r.slots() == Seq::new(self.names().len(), |i: int| None::<Channel>),
    {
        let n = self.names.len();
        let mut channels: Vec<Option<Channel>> = Vec::with_capacity(n);
        let mut i: usize = 0;
        while i < n
            invariant
                i <= n,
                n == self.names@.len(),
                channels@.len() == i,
                forall|j: int| 0 <= j < i ==> channels@[j] is None,
            decreases n - i,
        {
            channels.push(None);
            i += 1;
        }
        let r = Connecting { names: self.names, channels };
        assert(r.delivered() =~= Seq::new(r.names().len(), |i: int| false));
        assert(r.slots() =~= Seq::new(r.names().len(), |i: int| None::<Channel>));
        r
    }
}

/// What can happen to a stage while the supervisor waits for bridges.
pub enum RendezvousEvent {
    /// Stage `i` delivered this bridge end.
    Delivered(usize, Channel),
    /// Stage `i` went away without delivering.
    Disconnected(usize),
    /// Stage `i`'s process ended, with this status code where it had one.
    Exited(usize, Option<i32>),
    /// Stage `i`'s output ended.
    LogClosed(usize),
}

/// The stage an event is about.
pub open spec fn event_stage(ev: RendezvousEvent) -> usize {
    match ev {
        RendezvousEvent::Delivered(i, _) => i,
        RendezvousEvent::Disconnected(i) => i,
        RendezvousEvent::Exited(i, _) => i,
        RendezvousEvent::LogClosed(i) => i,
    }
}

/// The supervisor while it waits for each stage to deliver its bridge.
pub struct Connecting {
    names: Vec<String>,
    channels: Vec<Option<Channel>>,
}

impl Connecting {
    pub closed spec fn names(&self) -> Seq<Seq<char>> {
        names_view(self.names@)
    }

    /// Which stages have delivered their bridge.
    pub closed spec fn delivered(&self) -> Seq<bool> {
        self.channels@.map_values(|c: Option<Channel>| c is Some)
    }

    /// The bridge each stage delivered, if it did.
    pub closed spec fn slots(&self) -> Seq<Option<Channel>> {
        self.channels@
    }

    pub closed spec fn wf(&self) -> bool {
        self.names@.len() == self.channels@.len()
    }

    pub fn len(&self) -> (r: usize)
        ensures
            r == self.names().len(),
    {
        self.names.len()
    }

    /// The name of stage `i`.
    pub fn name(&self, i: usize) -> (r: &String)
        requires
            i < self.names().len(),
        ensures
            r@ == self.names()[i as int],
    {
        &self.names[i]
    }

    /// Records the bridge that stage `i` delivered; a stage delivers one.
    pub fn deliver(&mut self, i: usize, channel: Channel) -> (r: Result<(), OrchestratorError>)
        requires
            old(self).wf(),
            i < old(self).names().len(),
        ensures
            final(self).wf(),
            final(self).names() == old(self).names(),
            r.is_err() <==> old(self).delivered()[i as int],
            r matches Err(e) ==> e matches OrchestratorError::DuplicateBridge(n) && n@ == old(self).names()[i as int],
            r.is_ok() ==> final(self).delivered() == old(self).delivered().update(i as int, true),
            r.is_ok() ==> final(self).slots() == old(self).slots().update(i as int, Some(channel)),
            r.is_err() ==> final(self).slots() == old(self).slots(),
            r.is_err() ==> final(self).delivered() == old(self).delivered(),
    {
        if self.channels[i].is_some() {
            return Err(OrchestratorError::DuplicateBridge(self.names[i].clone()));
        }
        self.channels.set(i, Some(channel));
        assert(self.delivered() =~= old(self).delivered().update(i as int, true));
        Ok(())
    }

    /// The error for stage `i` going away before it delivered its bridge.
    pub fn disconnected(&self, i: usize) -> (r: OrchestratorError)
        requires
            i < self.names().len(),
        ensures
            r matches OrchestratorError::RendezvousFailure(n) && n@ == self.names()[i as int],
    {
        OrchestratorError::RendezvousFailure(self.names[i].clone())
    }

    /// The error for stage `i` exiting with `status`.
    pub fn exited(&self, i: usize, status: Option<i32>) -> (r: OrchestratorError)
        requires
            i < self.names().len(),
        ensures
            r matches OrchestratorError::PrematureExit(n, s) && n@ == self.names()[i as int] && s
                == status,
    {
        OrchestratorError::PrematureExit(self.names[i].clone(), status)
    }

    /// Takes in one event: a first bridge is recorded; a second bridge, a
    /// stage that went away, exited or closed its output is the error that
    /// ends the wait.
    pub fn on_event(&mut self, ev: RendezvousEvent) -> (r: Result<(), OrchestratorError>)
        requires
            old(self).wf(),
            event_stage(ev) < old(self).names().len(),
        ensures
            final(self).wf(),
            final(self).names() == old(self).names(),
            r.is_err() ==> final(self).slots() == old(self).slots(),
            r.is_err() ==> final(self).delivered() == old(self).delivered(),
            ev matches RendezvousEvent::Delivered(i, ch) ==> (if old(self).delivered()[i as int] {
                r matches Err(OrchestratorError::DuplicateBridge(n)) && n@ == old(self).names()[i as int]
            } else {
                r is Ok && final(self).slots() == old(self).slots().update(i as int, Some(ch))
                    && final(self).delivered() == old(self).delivered().update(i as int, true)
            }),
            ev matches RendezvousEvent::Disconnected(i) ==> r matches Err(
                OrchestratorError::RendezvousFailure(n),
            ) && n@ == old(self).names()[i as int],
            ev matches RendezvousEvent::Exited(i, st) ==> r matches Err(
                OrchestratorError::PrematureExit(n, s),
            ) && n@ == old(self).names()[i as int] && s == st,
            ev matches RendezvousEvent::LogClosed(i) ==> r matches Err(
                OrchestratorError::LogClosed(n),
            ) && n@ == old(self).names()[i as int],
    {
        match ev {
            RendezvousEvent::Delivered(i, ch) => self.deliver(i, ch),
            RendezvousEvent::Disconnected(i) => Err(self.disconnected(i)),
            RendezvousEvent::Exited(i, st) => Err(self.exited(i, st)),
            RendezvousEvent::LogClosed(i) => Err(OrchestratorError::LogClosed(self.names[i].clone())),
        }
    }

    /// Every stage has delivered its bridge.
    pub fn is_complete(&self) -> (r: bool)
        requires
            self.wf(),
        ensures
            r == forall|j: int| 0 <= j < self.delivered().len() ==> self.delivered()[j],
    {
        let mut i: usize = 0;
        while i < self.channels.len()
            invariant
                i <= self.channels@.len(),
                forall|j: int| 0 <= j < i ==> self.delivered()[j],
            decreases self.channels.len() - i,
        {
            if self.channels[i].is_none() {
                assert(!self.delivered()[i as int]);
                return false;
            }
            i += 1;
        }
        true
    }

    /// One bridge per stage, in the order the stages were started, once all
    /// of them delivered; else the first stage that did not.
    #[verifier::loop_isolation(false)]
    pub fn finish(self) -> (r: Result<ConnectedOrchestrator, OrchestratorError>)
        requires
            self.wf(),
        ensures
            r.is_ok() <==> forall|j: int| 0 <= j < self.delivered().len() ==> self.delivered()[j],
            r matches Ok(c) ==> c.wf() && c.names() == self.names() && !c.started() && c.routes()
                == Map::<Seq<char>, Seq<usize>>::empty(),
            r matches Ok(c) ==> c.channels().len() == self.slots().len() && forall|j: int|
                0 <= j < self.slots().len() ==> Some(#[trigger] c.channels()[j]) == self.slots()[j]
                    && c.halves()[j] == c.channels()[j]@,
            r matches Err(e) ==> e matches OrchestratorError::RendezvousFailure(n) && exists|j: int|
                0 <= j < self.delivered().len() && !self.delivered()[j] && n@ == self.names()[j],
    {
        let ghost delivered0 = self.delivered();
        let ghost nm0 = self.names();
        let Connecting { mut names, mut channels } = self;
        let ghost names0 = names@;
        let ghost ch0 = channels@;
        assert(forall|j: int| 0 <= j < ch0.len() ==> delivered0[j] == (#[trigger] ch0[j] is Some));
        let n = names.len();
        let mut bridges: Vec<Bridge> = Vec::with_capacity(n);
        let mut i: usize = 0;
        while i < n
            invariant
                n == names0.len(),
                nm0 == names_view(names0),
                delivered0.len() == nm0.len(),
                i <= n,
                names@.len() == n - i,
                channels@.len() == n - i,
                names@ == names0.subrange(i as int, n as int),
                ch0.len() == n,
                channels@ == ch0.subrange(i as int, n as int),
                delivered0.len() == n,
                forall|j: int| 0 <= j < n ==> delivered0[j] == (#[trigger] ch0[j] is Some),
                bridges@.len() == i,
                forall|j: int| 0 <= j < i ==> #[trigger] bridges@[j].name@ == names0[j]@,
                forall|j: int| 0 <= j < i ==> Some(#[trigger] bridges@[j].channel) == ch0[j],
                forall|j: int| 0 <= j < i ==> delivered0[j],
            decreases n - i,
        {
            let name = names.remove(0);
            let ch = channels.remove(0);
            assert(names@ =~= names0.subrange(i + 1, n as int));
            assert(channels@ =~= ch0.subrange(i + 1, n as int));
            assert(ch == ch0[i as int]);
            match ch {
                None => {
                    assert(name == names0[i as int]);
                    assert(nm0[i as int] == name@);
                    assert(!delivered0[i as int]);
                    return Err(OrchestratorError::RendezvousFailure(name));
                },
                Some(channel) => {
                    assert(name == names0[i as int]);
                    let ghost before = bridges@;
                    bridges.push(Bridge { channel, name });
                    assert forall|j: int| 0 <= j < i + 1 implies #[trigger] bridges@[j].name@
                        == names0[j]@ by {
                        if j < i {
                            assert(bridges@[j] == before[j]);
                        }
                    }
                },
            }
            i += 1;
        }
        let table = RouteTable::new();
        let mut senders: Vec<Option<Sender>> = Vec::with_capacity(n);
        let mut k: usize = 0;
        while k < n
            invariant
                k <= n,
                senders@.len() == k,
                forall|j: int| 0 <= j < k ==> senders@[j] is None,
            decreases n - k,
        {
            senders.push(None);
            k += 1;
        }
        let c = ConnectedOrchestrator { bridges, wiring: Some(Wiring { table, senders }) };
        assert(c.names() =~= names_view(names0));
        assert(c.channels().len() == ch0.len());
        Ok(c)
    }
}

/// The names of a list of bridges.
pub open spec fn bridge_names(bs: Seq<Bridge>) -> Seq<Seq<char>> {
    bs.map_values(|b: Bridge| b.name@)
}

/// What is left in each bridge.
pub open spec fn bridge_halves(bs: Seq<Bridge>) -> Seq<ChannelView> {
    bs.map_values(|b: Bridge| b.channel@)
}

/// The routes configured so far, and the sending half that each routed
/// stage gave up to them, by stage index.
struct Wiring {
    table: RouteTable,
    senders: Vec<Option<Sender>>,
}

/// A supervisor whose stages all delivered their bridge.
pub struct ConnectedOrchestrator {
    bridges: Vec<Bridge>,
    wiring: Option<Wiring>,
}

impl ConnectedOrchestrator {
    pub closed spec fn wf(&self) -> bool {
        match self.wiring {
            Some(w) => {
                &&& w.table.wf()
                &&& w.senders@.len() == self.bridges@.len()
                &&& forall|j: int|
                    0 <= j < w.senders@.len() && #[trigger] w.senders@[j] is Some
                        ==> self.bridges@[j].channel.tx is None
                &&& forall|t: Seq<char>, k: int|
                    #![trigger w.table@[t][k]]
                    w.table@.contains_key(t) && 0 <= k < w.table@[t].len() ==> w.table@[t][k]
                        < w.senders@.len() && w.senders@[w.table@[t][k] as int] is Some
            },
            None => true,
        }
    }

    /// The sending half each stage gave up to the routes, by stage index;
    /// empty once the router started.
    pub closed spec fn senders(&self) -> Seq<Option<Sender>> {
        match self.wiring {
            Some(w) => w.senders@,
            None => Seq::empty(),
        }
    }

    /// The stages' names, by index.
    pub closed spec fn names(&self) -> Seq<Seq<char>> {
        bridge_names(self.bridges@)
    }

    /// Each stage's end of its bridge.
    pub closed spec fn channels(&self) -> Seq<Channel> {
        self.bridges@.map_values(|b: Bridge| b.channel)
    }

    /// What is left of each stage's bridge.
    pub closed spec fn halves(&self) -> Seq<ChannelView> {
        bridge_halves(self.bridges@)
    }

    /// The routes configured so far, topic to stage indices.
    pub closed spec fn routes(&self) -> Map<Seq<char>, Seq<usize>> {
        match self.wiring {
            Some(w) => w.table@,
            None => Map::empty(),
        }
    }

    /// Whether the router was started, which freezes the routes.
    pub closed spec fn started(&self) -> bool {
        self.wiring is None
    }

    pub fn len(&self) -> (r: usize)
        ensures
            r == self.names().len(),
    {
        self.bridges.len()
    }

    /// The name of stage `i`.
    pub fn name(&self, i: usize) -> (r: &String)
        requires
            i < self.names().len(),
        ensures
            r@ == self.names()[i as int],
    {
        &self.bridges[i].name
    }

    /// Names, bridge halves and, until the router starts, given-up sending
    /// halves have one entry per stage.
    pub proof fn lemma_lens(&self)
        ensures
            self.names().len() == self.halves().len(),
            self.channels().len() == self.halves().len(),
            self.wf() && !self.started() ==> self.senders().len() == self.halves().len(),
    {
    }

    /// Each configured topic has at least one stage, none twice.
    pub proof fn lemma_routes_wf(&self)
        requires
            self.wf(),
        ensures
            table_wf(self.routes()),
    {
        match self.wiring {
            Some(w) => w.table.lemma_wf(),
            None => {},
        }
    }

    /// The error for stage `i` exiting, with whatever status: once running,
    /// a stage is not expected to end.
    pub fn exited(&self, i: usize, status: Option<i32>) -> (r: OrchestratorError)
        requires
            i < self.names().len(),
        ensures
            r matches OrchestratorError::PrematureExit(n, s) && n@ == self.names()[i as int] && s
                == status,
    {
        OrchestratorError::PrematureExit(self.bridges[i].name.clone(), status)
    }

    fn find(&self, name: &str) -> (r: Option<usize>)
        ensures
            r is None <==> !has_name(self.names(), name@),
            r matches Some(i) ==> first_index(self.names(), name@, i as int),
    {
        let ghost nv = self.names();
        let wanted = name.to_owned();
        let mut i: usize = 0;
        while i < self.bridges.len()
            invariant
                i <= self.bridges@.len(),
                nv == self.names(),
                wanted@ == name@,
                forall|j: int| 0 <= j < i ==> nv[j] != name@,
            decreases self.bridges.len() - i,
        {
            if self.bridges[i].name == wanted {
                assert(nv[i as int] == self.bridges@[i as int].name@);
                assert(nv[i as int] == name@);
                return Some(i);
            }
            i += 1;
        }
        None
    }

    fn take_rx_at(&mut self, i: usize) -> (r: Option<Receiver>)
        requires
            i < old(self).names().len(),
        ensures
            r is Some == old(self).halves()[i as int].rx,
            r == old(self).channels()[i as int].rx,
            final(self).channels()[i as int].tx == old(self).channels()[i as int].tx,
            forall|j: int|
                0 <= j < old(self).channels().len() && j != i ==> #[trigger] final(self).channels()[j]
                    == old(self).channels()[j],
            final(self).halves() == old(self).halves().update(
                i as int,
                ChannelView { tx: old(self).halves()[i as int].tx, rx: false },
            ),
            final(self).names() == old(self).names(),
            final(self).wiring == old(self).wiring,
            final(self).bridges@.len() == old(self).bridges@.len(),
            old(self).wf() ==> final(self).wf(),
    {
        let mut b = self.bridges.remove(i);
        let r = b.channel.rx_take();
        self.bridges.insert(i, b);
        assert(self.halves() =~= old(self).halves().update(
            i as int,
            ChannelView { tx: old(self).halves()[i as int].tx, rx: false },
        ));
        assert(self.names() =~= old(self).names());
        r
    }

    fn take_tx_at(&mut self, i: usize) -> (r: Option<Sender>)
        requires
            i < old(self).names().len(),
        ensures
            r is Some == old(self).halves()[i as int].tx,
            r == old(self).channels()[i as int].tx,
            final(self).channels()[i as int].rx == old(self).channels()[i as int].rx,
            forall|j: int|
                0 <= j < old(self).channels().len() && j != i ==> #[trigger] final(self).channels()[j]
                    == old(self).channels()[j],
            final(self).halves() == old(self).halves().update(
                i as int,
                ChannelView { tx: false, rx: old(self).halves()[i as int].rx },
            ),
            final(self).names() == old(self).names(),
            final(self).wiring == old(self).wiring,
            final(self).bridges@.len() == old(self).bridges@.len(),
            old(self).wf() ==> final(self).wf(),
    {
        let mut b = self.bridges.remove(i);
        let r = b.channel.tx_take();
        self.bridges.insert(i, b);
        assert(self.halves() =~= old(self).halves().update(
            i as int,
            ChannelView { tx: false, rx: old(self).halves()[i as int].rx },
        ));
        assert(self.names() =~= old(self).names());
        r
    }

    /// Routes `topic` to the stage named `stage` (the first of that name).
    /// The first route to a stage takes its sending half out of its bridge
    /// into the routes; routing the same pair again changes nothing.
    pub fn route_topic_to_bridge(&mut self, topic: &str, stage: &str) -> (r: Result<
        (),
        OrchestratorError,
    >)
        requires
            old(self).wf(),
        ensures
            final(self).wf(),
            final(self).names() == old(self).names(),
            final(self).started() == old(self).started(),
            r.is_ok() <==> !old(self).started() && exists|i: int|
                first_index(old(self).names(), stage@, i) && (old(self).senders()[i] is Some || old(self).halves()[i].tx),
            r matches Err(e) ==> (if old(self).started() {
                e matches OrchestratorError::RoutesFrozen
            } else if !has_name(old(self).names(), stage@) {
                e matches OrchestratorError::UnknownStage(n) && n@ == stage@
            } else {
                e matches OrchestratorError::HalfTaken(n) && n@ == stage@
            }),
            r.is_err() ==> final(self).routes() == old(self).routes() && final(self).halves() == old(self).halves() && final(self).senders() == old(self).senders() && final(self).channels()
                == old(self).channels(),
            r.is_ok() ==> exists|i: int|
                first_index(old(self).names(), stage@, i) && final(self).routes() == add_route_spec(
                    old(self).routes(),
                    topic@,
                    i as usize,
                ),
            r.is_ok() ==> exists|i: int|
                {
                    &&& first_index(old(self).names(), stage@, i)
                    &&& final(self).senders() == old(self).senders().update(
                        i,
                        if old(self).senders()[i] is Some {
                            old(self).senders()[i]
                        } else {
                            old(self).channels()[i].tx
                        },
                    )
                    &&& final(self).senders()[i] is Some
                    &&& final(self).halves() == old(self).halves().update(
                        i,
                        ChannelView { tx: false, rx: old(self).halves()[i].rx },
                    )
                },
    {
        if self.wiring.is_none() {
            return Err(OrchestratorError::RoutesFrozen);
        }
        let i = match self.find(stage) {
            None => return Err(OrchestratorError::UnknownStage(stage.to_owned())),
            Some(i) => i,
        };
        let has_sender = match &self.wiring {
            Some(w) => w.senders[i].is_some(),
            None => false,
        };
        let ghost old_routes = self.routes();
        proof {
            self.lemma_routes_wf();
        }
        if !has_sender {
            if self.bridges[i].channel.tx.is_none() {
                assert(!(self.halves()[i as int].tx));
                return Err(OrchestratorError::HalfTaken(stage.to_owned()));
            }
            let tx = self.take_tx_at(i).unwrap();
            assert(self.halves()[i as int] == self.bridges@[i as int].channel@);
            assert(self.bridges@[i as int].channel.tx is None);
            let mut w = self.wiring.take().unwrap();
            w.senders.set(i, Some(tx));
            w.table.add_route(topic, i);
            self.wiring = Some(w);
        } else {
            assert(self.halves()[i as int] == self.bridges@[i as int].channel@);
            let mut w = self.wiring.take().unwrap();
            w.table.add_route(topic, i);
            self.wiring = Some(w);
            assert(self.halves() =~= old(self).halves().update(
                i as int,
                ChannelView { tx: false, rx: old(self).halves()[i as int].rx },
            ));
            assert(self.senders() =~= old(self).senders());
        }
        proof {
            let w = self.wiring->Some_0;
            assert(w.senders@.len() == self.bridges@.len());
            assert forall|j: int|
                0 <= j < w.senders@.len() && #[trigger] w.senders@[j] is Some implies self.bridges@[j].channel.tx is None by {
                assert(self.halves()[j] == self.bridges@[j].channel@);
                assert(old(self).halves()[j] == old(self).bridges@[j].channel@);
            }
            assert forall|t: Seq<char>, k: int|
                #![trigger w.table@[t][k]]
                w.table@.contains_key(t) && 0 <= k < w.table@[t].len() implies w.table@[t][k]
                    < w.senders@.len() && w.senders@[w.table@[t][k] as int] is Some by {
                lemma_add_route_members(old_routes, topic@, i, t, k);
            }
        }
        Ok(())
    }

    /// Hands out the receiving half of the stage named `b_in`, for a handler
    /// that forwards what it sends; the half can be had once.
    pub fn forward_bridge_rx(&mut self, b_in: &str) -> (r: Result<Receiver, OrchestratorError>)
        ensures
            final(self).names() == old(self).names(),
            final(self).started() == old(self).started(),
            final(self).routes() == old(self).routes(),
            r.is_ok() <==> exists|i: int| first_index(old(self).names(), b_in@, i) && old(self).halves()[i].rx,
            r.is_ok() ==> exists|i: int|
                first_index(old(self).names(), b_in@, i) && final(self).halves() == old(self).halves().update(
                    i,
                    ChannelView { tx: old(self).halves()[i].tx, rx: false },
                ),
            r.is_err() ==> final(self).halves() == old(self).halves(),
            r matches Ok(rx) ==> exists|i: int|
                first_index(old(self).names(), b_in@, i) && Some(rx) == old(self).channels()[i].rx,
            r matches Err(e) ==> (if has_name(old(self).names(), b_in@) {
                e matches OrchestratorError::HalfTaken(n) && n@ == b_in@
            } else {
                e matches OrchestratorError::UnknownStage(n) && n@ == b_in@
            }),
    {
        match self.find(b_in) {
            None => Err(OrchestratorError::UnknownStage(b_in.to_owned())),
            Some(i) => match self.take_rx_at(i) {
                None => Err(OrchestratorError::HalfTaken(b_in.to_owned())),
                Some(rx) => Ok(rx),
            },
        }
    }

    /// Hands out the sending half of the stage named `b_out`, for a handler
    /// that feeds it; the half can be had once.
    pub fn forward_bridge_tx(&mut self, b_out: &str) -> (r: Result<Sender, OrchestratorError>)
        ensures
            final(self).names() == old(self).names(),
            final(self).started() == old(self).started(),
            final(self).routes() == old(self).routes(),
            r.is_ok() <==> exists|i: int| first_index(old(self).names(), b_out@, i) && old(self).halves()[i].tx,
            r.is_ok() ==> exists|i: int|
                first_index(old(self).names(), b_out@, i) && final(self).halves() == old(self).halves().update(
                    i,
                    ChannelView { tx: false, rx: old(self).halves()[i].rx },
                ),
            r.is_err() ==> final(self).halves() == old(self).halves(),
            r matches Ok(tx) ==> exists|i: int|
                first_index(old(self).names(), b_out@, i) && Some(tx) == old(self).channels()[i].tx,
            r matches Err(e) ==> (if has_name(old(self).names(), b_out@) {
                e matches OrchestratorError::HalfTaken(n) && n@ == b_out@
            } else {
                e matches OrchestratorError::UnknownStage(n) && n@ == b_out@
            }),
    {
        match self.find(b_out) {
            None => Err(OrchestratorError::UnknownStage(b_out.to_owned())),
            Some(i) => match self.take_tx_at(i) {
                None => Err(OrchestratorError::HalfTaken(b_out.to_owned())),
                Some(tx) => Ok(tx),
            },
        }
    }

    /// Hands out the receiving half of `b_in` and the sending half of `b_out`,
    /// for a pipe that forwards one stage's output straight to another.
    pub fn pipe_bridges(&mut self, b_in: &str, b_out: &str) -> (r: Result<
        (Receiver, Sender),
        OrchestratorError,
    >)
        ensures
            final(self).names() == old(self).names(),
            final(self).started() == old(self).started(),
            final(self).routes() == old(self).routes(),
            r.is_ok() <==> exists|i: int, o: int|
                first_index(old(self).names(), b_in@, i) && first_index(old(self).names(), b_out@, o)
                    && old(self).halves()[i].rx && old(self).halves()[o].tx,
            r.is_ok() ==> exists|i: int, o: int|
                first_index(old(self).names(), b_in@, i) && first_index(old(self).names(), b_out@, o)
                    && final(self).halves() == old(self).halves().update(
                    i,
                    ChannelView { tx: old(self).halves()[i].tx, rx: false },
                ).update(
                    o,
                    ChannelView {
                        tx: false,
                        rx: old(self).halves().update(
                            i,
                            ChannelView { tx: old(self).halves()[i].tx, rx: false },
                        )[o].rx,
                    },
                ),
            r.is_err() ==> final(self).halves() == old(self).halves(),
            r matches Ok((rx, tx)) ==> exists|i: int, o: int|
                first_index(old(self).names(), b_in@, i) && first_index(old(self).names(), b_out@, o)
                    && Some(rx) == old(self).channels()[i].rx && Some(tx) == old(self).channels()[o].tx,
            r matches Err(e) ==> (if !has_name(old(self).names(), b_in@) {
                e matches OrchestratorError::UnknownStage(n) && n@ == b_in@
            } else if !has_name(old(self).names(), b_out@) {
                e matches OrchestratorError::UnknownStage(n) && n@ == b_out@
            } else {
                e matches OrchestratorError::HalfTaken(n) && (n@ == b_in@ || n@ == b_out@)
            }),
    {
        let i = match self.find(b_in) {
            None => return Err(OrchestratorError::UnknownStage(b_in.to_owned())),
            Some(i) => i,
        };
        let o = match self.find(b_out) {
            None => return Err(OrchestratorError::UnknownStage(b_out.to_owned())),
            Some(o) => o,
        };
        if !self.bridges[i].channel.rx.is_some() {
            return Err(OrchestratorError::HalfTaken(b_in.to_owned()));
        }
        if !self.bridges[o].channel.tx.is_some() {
            return Err(OrchestratorError::HalfTaken(b_out.to_owned()));
        }
        let rx = self.take_rx_at(i).unwrap();
        let tx = self.take_tx_at(o).unwrap();
        Ok((rx, tx))
    }

    /// Freezes the routes and hands out every stage's receiving half, by
    /// stage index, with the sending halves the routes took and the router
    /// that decides where each frame goes.
    pub fn pipe_routes(&mut self, max_data: usize) -> (r: Result<
        (Router, Vec<Receiver>, Vec<Option<Sender>>),
        OrchestratorError,
    >)
        requires
            old(self).wf(),
        ensures
            final(self).wf(),
            final(self).names() == old(self).names(),
            r.is_ok() <==> !old(self).started() && old(self).routes() != Map::<
                Seq<char>,
                Seq<usize>,
            >::empty() && forall|j: int| 0 <= j < old(self).halves().len() ==> old(self).halves()[j].rx,
            r matches Err(e) ==> (if old(self).started() {
                e matches OrchestratorError::RoutesFrozen
            } else if old(self).routes() == Map::<Seq<char>, Seq<usize>>::empty() {
                e matches OrchestratorError::NotConfigured
            } else {
                e matches OrchestratorError::HalfTaken(n) && exists|j: int|
                    0 <= j < old(self).halves().len() && !old(self).halves()[j].rx && n@ == old(self).names()[j]
            }),
            r.is_err() ==> final(self).halves() == old(self).halves() && final(self).started()
                == old(self).started() && final(self).routes() == old(self).routes() && final(self).senders() == old(self).senders(),
            r matches Ok((router, rxs, txs)) ==> {
                &&& router.wf()
                &&& router.table_view() == old(self).routes()
                &&& router.max_data_view() == max_data
                &&& rxs@.len() == old(self).names().len()
                &&& forall|j: int|
                    0 <= j < rxs@.len() ==> Some(#[trigger] rxs@[j]) == old(self).channels()[j].rx
                &&& txs@ == old(self).senders()
                &&& forall|t: Seq<char>, k: int|
                    #![trigger old(self).routes()[t][k]]
                    old(self).routes().contains_key(t) && 0 <= k < old(self).routes()[t].len()
                        ==> old(self).routes()[t][k] < txs@.len() && txs@[old(self).routes()[t][k] as int] is Some
                &&& final(self).started()
                &&& final(self).halves() == Seq::new(
                    old(self).halves().len(),
                    |j: int| ChannelView { tx: old(self).halves()[j].tx, rx: false },
                )
            },
    {
        let empty = match &self.wiring {
            None => return Err(OrchestratorError::RoutesFrozen),
            Some(w) => w.table.is_empty(),
        };
        assert(empty == (self.routes() == Map::<Seq<char>, Seq<usize>>::empty()));
        if empty {
            return Err(OrchestratorError::NotConfigured);
        }
        let n = self.bridges.len();
        let mut k: usize = 0;
        while k < n
            invariant
                n == self.bridges@.len(),
                self.bridges@ == old(self).bridges@,
                self.wiring == old(self).wiring,
                self.wf(),
                old(self).routes() != Map::<Seq<char>, Seq<usize>>::empty(),
                !old(self).started(),
                k <= n,
                forall|j: int| 0 <= j < k ==> self.halves()[j].rx,
            decreases n - k,
        {
            if self.bridges[k].channel.rx.is_none() {
                assert(self.halves()[k as int] == self.bridges@[k as int].channel@);
                assert(!self.halves()[k as int].rx);
                assert(old(self).names()[k as int] == self.bridges@[k as int].name@);
                return Err(OrchestratorError::HalfTaken(self.bridges[k].name.clone()));
            }
            k += 1;
        }
        let mut rxs: Vec<Receiver> = Vec::with_capacity(n);
        let mut i: usize = 0;
        while i < n
            invariant
                n == self.bridges@.len(),
                n == old(self).halves().len(),
                i <= n,
                self.wf(),
                self.names() == old(self).names(),
                self.wiring == old(self).wiring,
                rxs@.len() == i,
                self.halves().len() == n,
                forall|j: int|
                    0 <= j < i ==> #[trigger] self.halves()[j] == (ChannelView {
                        tx: old(self).halves()[j].tx,
                        rx: false,
                    }),
                forall|j: int| i <= j < n ==> #[trigger] self.halves()[j] == old(self).halves()[j],
                forall|j: int| 0 <= j < n ==> old(self).halves()[j].rx,
                self.channels().len() == n,
                forall|j: int| i <= j < n ==> #[trigger] self.channels()[j] == old(self).channels()[j],
                forall|j: int| 0 <= j < i ==> Some(#[trigger] rxs@[j]) == old(self).channels()[j].rx,
            decreases n - i,
        {
            let rx = self.take_rx_at(i).unwrap();
            rxs.push(rx);
            i += 1;
        }
        assert(self.halves() =~= Seq::new(
            n as nat,
            |j: int| ChannelView { tx: old(self).halves()[j].tx, rx: false },
        ));
        proof {
            self.lemma_routes_wf();
        }
        let w = self.wiring.take().unwrap();
        let Wiring { table, senders } = w;
        let router = Router::new(table, max_data);
        Ok((router, rxs, senders))
    }
}

} // verus!
