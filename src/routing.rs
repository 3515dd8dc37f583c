//! The topic route table and the router's per-message decision.
use vstd::prelude::*;
use crate::message::{
    decode, decode_result, encode_result, lemma_frame_round_trip, valid_topic, DecodeError,
    MAX_FRAME_DATA_LEN,
};

verus! {

/// One entry of the route table: a topic and the stages (by index) that
/// receive it, in the order in which deliveries are attempted.
pub struct Route {
    pub topic: String,
    pub sinks: Vec<usize>,
}

/// The topics of a list of routes name at most one route each, and each
/// route has at least one stage, none of them twice.
pub open spec fn routes_wf(rs: Seq<Route>) -> bool {
    &&& forall|i: int, j: int|
        0 <= i < rs.len() && 0 <= j < rs.len() && i != j ==> #[trigger] rs[i].topic@
            != #[trigger] rs[j].topic@
    &&& forall|i: int| 0 <= i < rs.len() ==> #[trigger] rs[i].sinks@.len() > 0
    &&& forall|i: int| 0 <= i < rs.len() ==> (#[trigger] rs[i].sinks@).no_duplicates()
}

/// The map from topic to stages that a list of routes stands for.
pub open spec fn routes_map(rs: Seq<Route>) -> Map<Seq<char>, Seq<usize>> {
    Map::new(
        |t: Seq<char>| exists|i: int| 0 <= i < rs.len() && #[trigger] rs[i].topic@ == t,
        |t: Seq<char>| rs[choose|i: int| 0 <= i < rs.len() && #[trigger] rs[i].topic@ == t].sinks@,
    )
}

/// The table after `stage` is subscribed to `topic`: appended to the topic's
/// stages unless already among them, or a new entry with that stage alone.
pub open spec fn add_route_spec(m: Map<Seq<char>, Seq<usize>>, topic: Seq<char>, stage: usize) -> Map<
    Seq<char>,
    Seq<usize>,
> {
    if m.contains_key(topic) {
        if m[topic].contains(stage) {
            m
        } else {
            m.insert(topic, m[topic].push(stage))
        }
    } else {
        m.insert(topic, seq![stage])
    }
}

/// A table in which every topic has at least one stage, none of them twice.
pub open spec fn table_wf(m: Map<Seq<char>, Seq<usize>>) -> bool {
    forall|t: Seq<char>| #[trigger]
        m.contains_key(t) ==> m[t].len() > 0 && m[t].no_duplicates()
}

/// Subscribing a stage keeps every topic's list free of repeats and never
/// empty, and subscribing the same stage to the same topic again changes
/// nothing.
pub proof fn lemma_add_route_idempotent(m: Map<Seq<char>, Seq<usize>>, topic: Seq<char>, stage: usize)
    requires
        table_wf(m),
    ensures
        table_wf(add_route_spec(m, topic, stage)),
        add_route_spec(add_route_spec(m, topic, stage), topic, stage) == add_route_spec(
            m,
            topic,
            stage,
        ),
        add_route_spec(m, topic, stage)[topic].contains(stage),
{
    let m2 = add_route_spec(m, topic, stage);
    if m.contains_key(topic) {
        if !m[topic].contains(stage) {
            let s = m[topic].push(stage);
            assert(s[s.len() - 1] == stage);
            assert(s.no_duplicates()) by {
                assert forall|i: int, j: int| 0 <= i < s.len() && 0 <= j < s.len() && i != j implies s[i]
                    != s[j] by {
                    if i < s.len() - 1 && j < s.len() - 1 {
                        assert(s[i] == m[topic][i] && s[j] == m[topic][j]);
                    } else if i == s.len() - 1 {
                        assert(s[j] == m[topic][j]);
                    } else {
                        assert(s[i] == m[topic][i]);
                    }
                }
            }
        }
    } else {
        assert(seq![stage][0] == stage);
    }
    assert(m2[topic].contains(stage));
}

/// Subscribing a stage keeps every earlier subscription.
pub proof fn lemma_add_route_keeps(
    m: Map<Seq<char>, Seq<usize>>,
    topic: Seq<char>,
    stage: usize,
    t: Seq<char>,
    x: usize,
)
    requires
        m.contains_key(t),
        m[t].contains(x),
    ensures
        add_route_spec(m, topic, stage).contains_key(t),
        add_route_spec(m, topic, stage)[t].contains(x),
{
    if m.contains_key(topic) && !m[topic].contains(stage) && t == topic {
        let j = choose|j: int| 0 <= j < m[t].len() && m[t][j] == x;
        assert(m[t].push(stage)[j] == x);
    }
}

/// Each stage subscribed after adding `stage` to `topic` was subscribed
/// before, or is `stage`.
pub proof fn lemma_add_route_members(
    m: Map<Seq<char>, Seq<usize>>,
    topic: Seq<char>,
    stage: usize,
    t: Seq<char>,
    k: int,
)
    requires
        add_route_spec(m, topic, stage).contains_key(t),
        0 <= k < add_route_spec(m, topic, stage)[t].len(),
    ensures
        (m.contains_key(t) && 0 <= k < m[t].len() && add_route_spec(m, topic, stage)[t][k]
            == m[t][k]) || add_route_spec(m, topic, stage)[t][k] == stage,
{
}

proof fn lemma_lookup(rs: Seq<Route>, i: int)
    requires
        routes_wf(rs),
        0 <= i < rs.len(),
    ensures
        routes_map(rs).contains_key(rs[i].topic@),
        routes_map(rs)[rs[i].topic@] == rs[i].sinks@,
{
    let t = rs[i].topic@;
    assert(exists|k: int| 0 <= k < rs.len() && #[trigger] rs[k].topic@ == t);
    let j = choose|k: int| 0 <= k < rs.len() && #[trigger] rs[k].topic@ == t;
    assert(j == i);
}

proof fn lemma_map_wf(rs: Seq<Route>)
    requires
        routes_wf(rs),
    ensures
        table_wf(routes_map(rs)),
{
    assert forall|t: Seq<char>| #[trigger] routes_map(rs).contains_key(t) implies routes_map(rs)[t].len()
        > 0 && routes_map(rs)[t].no_duplicates() by {
        let i = choose|k: int| 0 <= k < rs.len() && #[trigger] rs[k].topic@ == t;
        lemma_lookup(rs, i);
    }
}

proof fn lemma_update(rs: Seq<Route>, i: int, r: Route)
    requires
        routes_wf(rs),
        0 <= i < rs.len(),
        r.topic@ == rs[i].topic@,
    ensures
        routes_map(rs.update(i, r)) == routes_map(rs).insert(r.topic@, r.sinks@),
{
    let rs2 = rs.update(i, r);
    let m1 = routes_map(rs);
    let m2 = routes_map(rs2);
    let m3 = m1.insert(r.topic@, r.sinks@);
    assert forall|t: Seq<char>| m2.contains_key(t) <==> #[trigger] m3.contains_key(t) by {
        if m2.contains_key(t) {
            let k = choose|k: int| 0 <= k < rs2.len() && #[trigger] rs2[k].topic@ == t;
            if k != i {
                assert(rs[k].topic@ == t);
            }
        }
        if m1.contains_key(t) {
            let k = choose|k: int| 0 <= k < rs.len() && #[trigger] rs[k].topic@ == t;
            if k != i {
                assert(rs2[k].topic@ == t);
            } else {
                assert(rs2[i].topic@ == t);
            }
        }
        if t == r.topic@ {
            assert(rs2[i].topic@ == t);
        }
    }
    assert forall|t: Seq<char>| #[trigger] m2.contains_key(t) implies m2[t] == m3[t] by {
        let k = choose|k: int| 0 <= k < rs2.len() && #[trigger] rs2[k].topic@ == t;
        if k == i {
            assert(m2[t] == rs2[k].sinks@);
        } else {
            assert(rs[k].topic@ == t);
            assert(rs2[k] == rs[k]);
            assert(rs[k].topic@ != r.topic@);
            let j = choose|j: int| 0 <= j < rs.len() && #[trigger] rs[j].topic@ == t;
            assert(j == k);
        }
    }
    assert(m2 =~= m3);
}

/// The route table: topic to the stages that receive it.
pub struct RouteTable {
    routes: Vec<Route>,
}

impl View for RouteTable {
    type V = Map<Seq<char>, Seq<usize>>;

    closed spec fn view(&self) -> Map<Seq<char>, Seq<usize>> {
        routes_map(self.routes@)
    }
}

impl RouteTable {
    /// Its entries are well formed.
    pub closed spec fn wf(&self) -> bool {
        routes_wf(self.routes@)
    }

    /// A well-formed table has at least one stage per topic, none twice.
    pub proof fn lemma_wf(&self)
        requires
            self.wf(),
        ensures
            table_wf(self@),
    {
        lemma_map_wf(self.routes@);
    }

    /// An empty table.
    pub fn new() -> (r: RouteTable)
        ensures
            r.wf(),
            r@ == Map::<Seq<char>, Seq<usize>>::empty(),
    {
        let r = RouteTable { routes: Vec::new() };
        assert(r@ =~= Map::<Seq<char>, Seq<usize>>::empty());
        r
    }

    /// No topic has a route.
    pub fn is_empty(&self) -> (r: bool)
        requires
            self.wf(),
        ensures
            r == (self@ == Map::<Seq<char>, Seq<usize>>::empty()),
    {
        if self.routes.len() == 0 {
            assert(self@ =~= Map::<Seq<char>, Seq<usize>>::empty());
            true
        } else {
            proof {
                lemma_lookup(self.routes@, 0);
            }
            assert(self@.contains_key(self.routes@[0].topic@));
            false
        }
    }

    fn position(&self, topic: &String) -> (r: Option<usize>)
        requires
            self.wf(),
        ensures
            r is None <==> !self@.contains_key(topic@),
            r matches Some(i) ==> i < self.routes@.len() && self.routes@[i as int].topic@ == topic@,
    {
        let mut i: usize = 0;
        while i < self.routes.len()
            invariant
                i <= self.routes@.len(),
                forall|j: int| 0 <= j < i ==> #[trigger] self.routes@[j].topic@ != topic@,
            decreases self.routes.len() - i,
        {
            if self.routes[i].topic == *topic {
                return Some(i);
            }
            i += 1;
        }
        None
    }

    /// The stages that receive `topic`, in delivery order.
    pub fn subscribers(&self, topic: &String) -> (r: Option<&Vec<usize>>)
        requires
            self.wf(),
        ensures
            r is None <==> !self@.contains_key(topic@),
            r matches Some(v) ==> v@ == self@[topic@],
    {
        match self.position(topic) {
            None => None,
            Some(i) => {
                proof {
                    lemma_lookup(self.routes@, i as int);
                }
                Some(&self.routes[i].sinks)
            },
        }
    }

    /// Subscribes `stage` to `topic`; doing so twice changes nothing.
    pub fn add_route(&mut self, topic: &str, stage: usize)
        requires
            old(self).wf(),
        ensures
            final(self).wf(),
            final(self)@ == add_route_spec(old(self)@, topic@, stage),
    {
        let t = topic.to_owned();
        match self.position(&t) {
            None => {
                let ghost rs = self.routes@;
                let mut sinks: Vec<usize> = Vec::new();
                sinks.push(stage);
                let r = Route { topic: t, sinks };
                self.routes.push(r);
                let ghost rs2 = self.routes@;
                assert(rs2 == rs.push(r));
                assert(r.sinks@ =~= seq![stage]);
                assert(seq![stage].no_duplicates());
                assert(routes_wf(rs2)) by {
                    assert forall|i: int, j: int|
                        0 <= i < rs2.len() && 0 <= j < rs2.len() && i != j implies #[trigger] rs2[i].topic@
                        != #[trigger] rs2[j].topic@ by {
                        if i < rs.len() && j < rs.len() {
                            assert(rs2[i] == rs[i] && rs2[j] == rs[j]);
                        } else if i == rs.len() {
                            assert(rs2[j] == rs[j]);
                            if rs[j].topic@ == topic@ {
                                assert(routes_map(rs).contains_key(topic@));
                            }
                        } else {
                            assert(rs2[i] == rs[i]);
                            if rs[i].topic@ == topic@ {
                                assert(routes_map(rs).contains_key(topic@));
                            }
                        }
                    }
                    assert forall|i: int| 0 <= i < rs2.len() implies #[trigger] rs2[i].sinks@.len() > 0 by {
                        if i < rs.len() {
                            assert(rs2[i] == rs[i]);
                        }
                    }
                    assert forall|i: int| 0 <= i < rs2.len() implies (#[trigger] rs2[i].sinks@).no_duplicates() by {
                        if i < rs.len() {
                            assert(rs2[i] == rs[i]);
                        }
                    }
                }
                let ghost m1 = routes_map(rs);
                let ghost m2 = routes_map(rs2);
                let ghost m3 = m1.insert(topic@, seq![stage]);
                assert(m2 =~= m3) by {
                    assert forall|k: Seq<char>| m2.contains_key(k) <==> #[trigger] m3.contains_key(k) by {
                        if m2.contains_key(k) {
                            let j = choose|j: int| 0 <= j < rs2.len() && #[trigger] rs2[j].topic@ == k;
                            if j < rs.len() {
                                assert(rs2[j] == rs[j]);
                            }
                        }
                        if m1.contains_key(k) {
                            let j = choose|j: int| 0 <= j < rs.len() && #[trigger] rs[j].topic@ == k;
                            assert(rs2[j] == rs[j]);
                        }
                        if k == topic@ {
                            assert(rs2[rs.len() as int].topic@ == k);
                        }
                    }
                    assert forall|k: Seq<char>| #[trigger] m2.contains_key(k) implies m2[k] == m3[k] by {
                        let j = choose|j: int| 0 <= j < rs2.len() && #[trigger] rs2[j].topic@ == k;
                        lemma_lookup(rs2, j);
                        if j < rs.len() {
                            assert(rs2[j] == rs[j]);
                            lemma_lookup(rs, j);
                        }
                    }
                }
            },
            Some(i) => {
                let ghost rs = self.routes@;
                proof {
                    lemma_lookup(rs, i as int);
                }
                let mut r = self.routes.remove(i);
                assert(r == rs[i as int]);
                let mut present = false;
                let mut k: usize = 0;
                while k < r.sinks.len()
                    invariant
                        k <= r.sinks@.len(),
                        present <==> exists|j: int| 0 <= j < k && r.sinks@[j] == stage,
                    decreases r.sinks.len() - k,
                {
                    if r.sinks[k] == stage {
                        present = true;
                    }
                    k += 1;
                }
                let ghost old_sinks = r.sinks@;
                if !present {
                    r.sinks.push(stage);
                    proof {
                        lemma_add_route_idempotent(routes_map(rs), topic@, stage);
                    }
                }
                let ghost r2 = r;
                assert(r2.topic@ == topic@);
                self.routes.insert(i, r);
                assert(self.routes@ =~= rs.update(i as int, r2));
                proof {
                    lemma_update(rs, i as int, r2);
                    lemma_map_wf(rs);
                }
                assert(routes_wf(self.routes@)) by {
                    let rs2 = self.routes@;
                    assert forall|a: int, b: int|
                        0 <= a < rs2.len() && 0 <= b < rs2.len() && a != b implies #[trigger] rs2[a].topic@
                        != #[trigger] rs2[b].topic@ by {
                        assert(rs2[a].topic@ == rs[a].topic@);
                        assert(rs2[b].topic@ == rs[b].topic@);
                    }
                    assert forall|a: int| 0 <= a < rs2.len() implies #[trigger] rs2[a].sinks@.len() > 0 by {
                        if a != i {
                            assert(rs2[a] == rs[a]);
                        }
                    }
                    assert forall|a: int| 0 <= a < rs2.len() implies (#[trigger] rs2[a].sinks@).no_duplicates() by {
                        if a != i {
                            assert(rs2[a] == rs[a]);
                        } else {
                            assert(table_wf(add_route_spec(routes_map(rs), topic@, stage)));
                            assert(add_route_spec(routes_map(rs), topic@, stage).contains_key(topic@));
                            if present {
                                assert(old_sinks.contains(stage));
                            }
                        }
                    }
                }
                if present {
                    assert(old_sinks.contains(stage));
                    assert(routes_map(rs).insert(topic@, old_sinks) =~= routes_map(rs));
                }
            },
        }
    }
}

/// Why the router cannot forward a frame.
#[derive(Clone, Debug, PartialEq, Eq)]
pub enum RouteError {
    /// The bytes are not the frame of a message.
    Frame(DecodeError),
    /// No stage receives the message's topic, which this names.
    UnknownTopic(String),
}

/// The router's decision on a frame: the stages to hand a copy to, in order,
/// or none when the frame is bad or its topic has no route.
pub open spec fn route_spec(table: Map<Seq<char>, Seq<usize>>, b: Seq<u8>, max_data: usize) -> Option<
    Seq<usize>,
> {
    match decode_result(b, max_data) {
        Err(_) => None,
        Ok((t, _d)) => if table.contains_key(t) {
            Some(table[t])
        } else {
            None
        },
    }
}

/// The error the router gives on a frame it cannot forward: the frame's own
/// error, or the unknown topic, by name.
pub open spec fn route_error_spec(
    e: RouteError,
    table: Map<Seq<char>, Seq<usize>>,
    b: Seq<u8>,
    max_data: usize,
) -> bool {
    match decode_result(b, max_data) {
        Err(d) => e == RouteError::Frame(d),
        Ok((t, _d)) => !table.contains_key(t) && (e matches RouteError::UnknownTopic(n) && n@ == t),
    }
}

/// A message on a routed topic reaches each stage subscribed to that topic
/// exactly once, in the order of subscription: the router's decision on its
/// frame is the topic's list of stages, which holds no stage twice.
pub proof fn lemma_each_subscriber_once(
    table: Map<Seq<char>, Seq<usize>>,
    topic: Seq<char>,
    data: Seq<u8>,
    max_data: usize,
)
    requires
        table_wf(table),
        table.contains_key(topic),
        valid_topic(topic),
        max_data <= MAX_FRAME_DATA_LEN,
        data.len() <= max_data,
    ensures
        route_spec(table, encode_result(topic, data, max_data)->Ok_0, max_data) == Some(table[topic]),
        forall|i: int, j: int|
            0 <= i < table[topic].len() && 0 <= j < table[topic].len() && i != j ==> table[topic][i]
                != table[topic][j],
{
    lemma_frame_round_trip(topic, data, max_data);
}

/// A pipe of one stage publishing on `topic` and one stage subscribed to it:
/// the frame of what the first publishes goes to the second alone, and it
/// decodes to the exact payload that was published.
pub proof fn lemma_straight_pipe(topic: Seq<char>, data: Seq<u8>, sink: usize, max_data: usize)
    requires
        valid_topic(topic),
        max_data <= MAX_FRAME_DATA_LEN,
        data.len() <= max_data,
    ensures
        route_spec(
            Map::<Seq<char>, Seq<usize>>::empty().insert(topic, seq![sink]),
            encode_result(topic, data, max_data)->Ok_0,
            max_data,
        ) == Some(seq![sink]),
        decode_result(encode_result(topic, data, max_data)->Ok_0, max_data) == Ok::<
            (Seq<char>, Seq<u8>),
            DecodeError,
        >((topic, data)),
{
    lemma_frame_round_trip(topic, data, max_data);
    let m = Map::<Seq<char>, Seq<usize>>::empty().insert(topic, seq![sink]);
    assert(m.contains_key(topic));
}

/// A frozen route table, which decides where each inbound frame goes.
pub struct Router {
    table: RouteTable,
    max_data: usize,
}

impl Router {
    pub closed spec fn table_view(&self) -> Map<Seq<char>, Seq<usize>> {
        self.table@
    }

    pub closed spec fn max_data_view(&self) -> usize {
        self.max_data
    }

    pub closed spec fn wf(&self) -> bool {
        self.table.wf()
    }

    /// Freezes `table`; frames with a payload over `max_data` bytes are
    /// refused.
    pub fn new(table: RouteTable, max_data: usize) -> (r: Router)
        requires
            table.wf(),
        ensures
            r.wf(),
            r.table_view() == table@,
            r.max_data_view() == max_data,
    {
        Router { table, max_data }
    }

    /// The stages that receive a copy of `frame`, each once, in the order in
    /// which they were subscribed; an unknown topic or a bad frame is an
    /// error.
    pub fn route_frame(&self, frame: &[u8]) -> (r: Result<Vec<usize>, RouteError>)
        requires
            self.wf(),
        ensures
            r.is_ok() <==> route_spec(self.table_view(), frame@, self.max_data_view()) is Some,
            r matches Ok(v) ==> v@ == route_spec(self.table_view(), frame@, self.max_data_view())->Some_0
                && v@.len() > 0 && v@.no_duplicates(),
            r matches Err(e) ==> route_error_spec(e, self.table_view(), frame@, self.max_data_view()),
    {
        match decode(frame, self.max_data) {
            Err(e) => Err(RouteError::Frame(e)),
            Ok(msg) => {
                match self.table.subscribers(&msg.topic) {
                    None => Err(RouteError::UnknownTopic(msg.topic)),
                    Some(v) => {
                        proof {
                            lemma_map_wf(self.table.routes@);
                        }
                        Ok(v.clone())
                    },
                }
            },
        }
    }

    /// The copies of `frame` to hand out, one per stage that receives its
    /// topic, paired with that stage, in delivery order.
    pub fn dispatch(&self, frame: &[u8]) -> (r: Result<Vec<(usize, Vec<u8>)>, RouteError>)
        requires
            self.wf(),
        ensures
            r.is_ok() <==> route_spec(self.table_view(), frame@, self.max_data_view()) is Some,
            r matches Err(e) ==> route_error_spec(e, self.table_view(), frame@, self.max_data_view()),
            r matches Ok(v) ==> {
                let sinks = route_spec(self.table_view(), frame@, self.max_data_view())->Some_0;
                &&& v@.len() == sinks.len()
                &&& forall|i: int| 0 <= i < v@.len() ==> (#[trigger] v@[i]).0 == sinks[i] && v@[i].1@ == frame@
            },
    {
        let sinks = match self.route_frame(frame) {
            Err(e) => return Err(e),
            Ok(s) => s,
        };
        let mut out: Vec<(usize, Vec<u8>)> = Vec::with_capacity(sinks.len());
        let mut i: usize = 0;
        while i < sinks.len()
            invariant
                i <= sinks@.len(),
                out@.len() == i,
                forall|j: int| 0 <= j < i ==> (#[trigger] out@[j]).0 == sinks@[j] && out@[j].1@ == frame@,
            decreases sinks.len() - i,
        {
            let mut copy: Vec<u8> = Vec::with_capacity(frame.len());
            let mut k: usize = 0;
            while k < frame.len()
                invariant
                    k <= frame@.len(),
                    copy@ == frame@.subrange(0, k as int),
                decreases frame.len() - k,
            {
                copy.push(frame[k]);
                k += 1;
                assert(copy@ =~= frame@.subrange(0, k as int));
            }
            assert(frame@.subrange(0, frame@.len() as int) =~= frame@);
            out.push((sinks[i], copy));
            i += 1;
        }
        Ok(out)
    }
}

} // verus!
