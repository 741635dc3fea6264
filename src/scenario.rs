//! Scenario harness: a world of named client and server connections, a
//! builder that lists the actors, and a runner that performs the handshake
//! between them and hands the final world to an oracle.

use vstd::prelude::*;
use crate::connection::{Connection, ConnectionAction, ConnectionConfig, ConnectionState, ConnectionView};
use crate::frame::{Frame, FrameHeader, Opcode};
use crate::session::lemma_hello_reply_id;
use crate::time::Instant;

verus! {

/// Network conditions recorded during a scenario.
#[derive(Debug, Clone, PartialEq, Eq)]
pub enum NetworkEvent {
    /// Traffic between two actors is cut.
    Partition { from: String, to: String },
    /// A partition between two actors is healed.
    PartitionHealed { from: String, to: String },
    /// Packets are dropped at this rate, in parts per million.
    PacketLoss { rate_ppm: u32 },
    /// Packets are delayed by a time in this range.
    Latency { min_ms: u64, max_ms: u64 },
}

/// The session id that the first server of a scenario hands out.
pub const FIRST_SESSION_ID: u64 = 0x1000_0000_0000_0000;

/// Position of the first entry named `name` at or after `i`.
pub open spec fn find_name<T>(entries: Seq<(Seq<char>, T)>, name: Seq<char>, i: int) -> Option<int>
    decreases entries.len() - i,
{
    if i < 0 || i >= entries.len() {
        None
    } else if entries[i].0 == name {
        Some(i)
    } else {
        find_name(entries, name, i + 1)
    }
}

/// The value of the first entry named `name`.
pub open spec fn lookup<T>(entries: Seq<(Seq<char>, T)>, name: Seq<char>) -> Option<T> {
    match find_name(entries, name, 0) {
        Some(i) => Some(entries[i].1),
        None => None,
    }
}

/// `entries` with the value of `name` set to `v`: the first entry of that
/// name is replaced, or a new entry is appended.
pub open spec fn upsert<T>(entries: Seq<(Seq<char>, T)>, name: Seq<char>, v: T) -> Seq<
    (Seq<char>, T),
> {
    match find_name(entries, name, 0) {
        Some(i) => entries.update(i, (name, v)),
        None => entries.push((name, v)),
    }
}

/// A counter's value, zero where there is none.
pub open spec fn count_of(entries: Seq<(Seq<char>, usize)>, name: Seq<char>) -> usize {
    match lookup(entries, name) {
        Some(n) => n,
        None => 0,
    }
}

/// A counter's value after one more event (it stops at the largest value).
pub open spec fn bumped(n: usize) -> usize {
    if n < usize::MAX {
        (n + 1) as usize
    } else {
        n
    }
}

proof fn lemma_find_name_range<T>(entries: Seq<(Seq<char>, T)>, name: Seq<char>, i: int)
    ensures
        find_name(entries, name, i) matches Some(k) ==> i <= k < entries.len() && entries[k].0 == name,
    decreases entries.len() - i,
{
    if 0 <= i < entries.len() && entries[i].0 != name {
        lemma_find_name_range(entries, name, i + 1);
    }
}

proof fn lemma_first_entries<T>(c: Seq<char>, s: Seq<char>, a: T, b: T)
    requires
        c != s,
    ensures
        upsert(Seq::<(Seq<char>, T)>::empty(), c, a) == seq![(c, a)],
        upsert(seq![(c, a)], s, b) == seq![(c, a), (s, b)],
{
    assert(find_name(Seq::<(Seq<char>, T)>::empty(), c, 0) is None);
    assert(seq![(c, a)][0].0 == c);
    assert(find_name(seq![(c, a)], s, 1) is None);
    assert(find_name(seq![(c, a)], s, 0) is None);
    assert(Seq::<(Seq<char>, T)>::empty().push((c, a)) =~= seq![(c, a)]);
    assert(seq![(c, a)].push((s, b)) =~= seq![(c, a), (s, b)]);
}

proof fn lemma_upsert_empty<T>(name: Seq<char>, v: T)
    ensures
        upsert(Seq::<(Seq<char>, T)>::empty(), name, v) == seq![(name, v)],
{
    assert(find_name(Seq::<(Seq<char>, T)>::empty(), name, 0) is None);
    assert(Seq::<(Seq<char>, T)>::empty().push((name, v)) =~= seq![(name, v)]);
}

proof fn lemma_pair_entries<T>(c: Seq<char>, s: Seq<char>, x: T, y: T, v: T)
    requires
        c != s,
    ensures
        lookup(seq![(c, x), (s, y)], c) == Some(x),
        lookup(seq![(c, x), (s, y)], s) == Some(y),
        upsert(seq![(c, x), (s, y)], c, v) == seq![(c, v), (s, y)],
        upsert(seq![(c, x), (s, y)], s, v) == seq![(c, x), (s, v)],
{
    let p = seq![(c, x), (s, y)];
    assert(p[0].0 == c && p[1].0 == s);
    assert(find_name(p, c, 0) == Some(0int));
    assert(find_name(p, s, 1) == Some(1int));
    assert(find_name(p, s, 0) == Some(1int));
    assert(p.update(0, (c, v)) =~= seq![(c, v), (s, y)]);
    assert(p.update(1, (s, v)) =~= seq![(c, x), (s, v)]);
}

struct Actor {
    name: String,
    connection: Connection,
}

struct Counter {
    name: String,
    count: usize,
}

spec fn actors_view(s: Seq<Actor>) -> Seq<(Seq<char>, ConnectionView)> {
    s.map_values(|a: Actor| (a.name@, a.connection@))
}

spec fn counters_view(s: Seq<Counter>) -> Seq<(Seq<char>, usize)> {
    s.map_values(|c: Counter| (c.name@, c.count))
}

/// All actors and metrics of a running scenario.
pub struct World {
    clients: Vec<Actor>,
    servers: Vec<Actor>,
    frames_sent: Vec<Counter>,
    frames_received: Vec<Counter>,
    network_events: Vec<NetworkEvent>,
}

/// A world as contracts see it.
pub struct WorldView {
    pub clients: Seq<(Seq<char>, ConnectionView)>,
    pub servers: Seq<(Seq<char>, ConnectionView)>,
    pub sent: Seq<(Seq<char>, usize)>,
    pub received: Seq<(Seq<char>, usize)>,
    pub events: Seq<NetworkEvent>,
}

impl View for World {
    type V = WorldView;

    closed spec fn view(&self) -> WorldView {
        WorldView {
            clients: actors_view(self.clients@),
            servers: actors_view(self.servers@),
            sent: counters_view(self.frames_sent@),
            received: counters_view(self.frames_received@),
            events: self.network_events@,
        }
    }
}

/// Whether `a` and `b` hold the same text.
fn same_text(a: &str, b: &str) -> (r: bool)
    ensures
        r == (a@ == b@),
{
    let n = a.unicode_len();
    if n != b.unicode_len() {
        return false;
    }
    let mut i: usize = 0;
    while i < n
        invariant
            i <= n,
            n == a@.len(),
            n == b@.len(),
            forall|k: int| 0 <= k < i ==> a@[k] == b@[k],
        decreases n - i,
    {
        if a.get_char(i) != b.get_char(i) {
            return false;
        }
        i = i + 1;
    }
    assert(a@ =~= b@);
    true
}

fn actor_position(list: &Vec<Actor>, name: &str) -> (r: Option<usize>)
    ensures
        match r {
            Some(i) => find_name(actors_view(list@), name@, 0) == Some(i as int) && i < list@.len(),
            None => find_name(actors_view(list@), name@, 0) is None,
        },
{
    let mut i: usize = 0;
    while i < list.len()
        invariant
            i <= list@.len(),
            find_name(actors_view(list@), name@, i as int) == find_name(actors_view(list@), name@, 0),
        decreases list@.len() - i,
    {
        if same_text(list[i].name.as_str(), name) {
            return Some(i);
        }
        i = i + 1;
    }
    None
}

fn counter_position(list: &Vec<Counter>, name: &str) -> (r: Option<usize>)
    ensures
        match r {
            Some(i) => find_name(counters_view(list@), name@, 0) == Some(i as int) && i < list@.len(),
            None => find_name(counters_view(list@), name@, 0) is None,
        },
{
    let mut i: usize = 0;
    while i < list.len()
        invariant
            i <= list@.len(),
            find_name(counters_view(list@), name@, i as int) == find_name(counters_view(list@), name@, 0),
        decreases list@.len() - i,
    {
        if same_text(list[i].name.as_str(), name) {
            return Some(i);
        }
        i = i + 1;
    }
    None
}

fn upsert_actor(list: &mut Vec<Actor>, name: String, connection: Connection)
    ensures
        actors_view(final(list)@) == upsert(actors_view(old(list)@), name@, connection@),
{
    let ghost old_list = list@;
    proof {
        lemma_find_name_range(actors_view(old_list), name@, 0);
    }
    match actor_position(list, name.as_str()) {
        Some(i) => {
            list.set(i, Actor { name, connection });
        },
        None => {
            list.push(Actor { name, connection });
        },
    }
    assert(actors_view(list@) =~= upsert(actors_view(old_list), name@, connection@));
}

fn set_counter(list: &mut Vec<Counter>, name: &str, count: usize)
    ensures
        counters_view(final(list)@) == upsert(counters_view(old(list)@), name@, count),
{
    let ghost old_list = list@;
    proof {
        lemma_find_name_range(counters_view(old_list), name@, 0);
    }
    match counter_position(list, name) {
        Some(i) => {
            list.set(i, Counter { name: String::from_str(name), count });
        },
        None => {
            list.push(Counter { name: String::from_str(name), count });
        },
    }
    assert(counters_view(list@) =~= upsert(counters_view(old_list), name@, count));
}

fn counter_value(list: &Vec<Counter>, name: &str) -> (r: usize)
    ensures
        r == count_of(counters_view(list@), name@),
{
    proof {
        lemma_find_name_range(counters_view(list@), name@, 0);
    }
    match counter_position(list, name) {
        Some(i) => list[i].count,
        None => 0,
    }
}

/// The connections of all actors: clients first, then servers.
pub open spec fn all_connections(v: WorldView) -> Seq<ConnectionView> {
    v.clients.map_values(|e: (Seq<char>, ConnectionView)| e.1) + v.servers.map_values(
        |e: (Seq<char>, ConnectionView)| e.1,
    )
}

/// Whether at least one actor holds a session id and all that hold one
/// hold the same.
pub open spec fn session_ids_agree(all: Seq<ConnectionView>) -> bool {
    &&& exists|i: int| 0 <= i < all.len() && (#[trigger] all[i]).session_id is Some
    &&& forall|i: int, j: int|
        0 <= i < all.len() && 0 <= j < all.len() && (#[trigger] all[i]).session_id is Some && (
        #[trigger] all[j]).session_id is Some ==> all[i].session_id == all[j].session_id
}

impl Default for World {
    fn default() -> (r: World)
        ensures
            r@.clients.len() == 0,
            r@.servers.len() == 0,
            r@.sent.len() == 0,
            r@.received.len() == 0,
            r@.events.len() == 0,
    {
        World::new()
    }
}

impl World {
    /// A world with no actors.
    pub fn new() -> (r: World)
        ensures
            r@.clients.len() == 0,
            r@.servers.len() == 0,
            r@.sent.len() == 0,
            r@.received.len() == 0,
            r@.events.len() == 0,
    {
        World {
            clients: Vec::new(),
            servers: Vec::new(),
            frames_sent: Vec::new(),
            frames_received: Vec::new(),
            network_events: Vec::new(),
        }
    }

    /// Adds (or replaces) the client `name`, with its counters at zero.
    pub fn add_client(&mut self, name: String, connection: Connection)
        ensures
            final(self)@ == (WorldView {
                clients: upsert(old(self)@.clients, name@, connection@),
                sent: upsert(old(self)@.sent, name@, 0),
                received: upsert(old(self)@.received, name@, 0),
                ..old(self)@
            }),
    {
        set_counter(&mut self.frames_sent, name.as_str(), 0);
        set_counter(&mut self.frames_received, name.as_str(), 0);
        upsert_actor(&mut self.clients, name, connection);
    }

    /// Adds (or replaces) the server `name`, with its counters at zero.
    pub fn add_server(&mut self, name: String, connection: Connection)
        ensures
            final(self)@ == (WorldView {
                servers: upsert(old(self)@.servers, name@, connection@),
                sent: upsert(old(self)@.sent, name@, 0),
                received: upsert(old(self)@.received, name@, 0),
                ..old(self)@
            }),
    {
        set_counter(&mut self.frames_sent, name.as_str(), 0);
        set_counter(&mut self.frames_received, name.as_str(), 0);
        upsert_actor(&mut self.servers, name, connection);
    }

    /// The client named `name`.
    pub fn client(&self, name: &str) -> (r: Option<&Connection>)
        ensures
            match lookup(self@.clients, name@) {
                Some(c) => r matches Some(x) && x@ == c,
                None => r is None,
            },
    {
        proof {
            lemma_find_name_range(self@.clients, name@, 0);
        }
        match actor_position(&self.clients, name) {
            Some(i) => Some(&self.clients[i].connection),
            None => None,
        }
    }

    /// The server named `name`.
    pub fn server(&self, name: &str) -> (r: Option<&Connection>)
        ensures
            match lookup(self@.servers, name@) {
                Some(c) => r matches Some(x) && x@ == c,
                None => r is None,
            },
    {
        proof {
            lemma_find_name_range(self@.servers, name@, 0);
        }
        match actor_position(&self.servers, name) {
            Some(i) => Some(&self.servers[i].connection),
            None => None,
        }
    }

    /// Counts one frame sent by `actor`.
    pub fn record_frame_sent(&mut self, actor: &str)
        ensures
            final(self)@ == (WorldView {
                sent: upsert(old(self)@.sent, actor@, bumped(count_of(old(self)@.sent, actor@))),
                ..old(self)@
            }),
    {
        let n = counter_value(&self.frames_sent, actor);
        let next = if n < usize::MAX {
            n + 1
        } else {
            n
        };
        set_counter(&mut self.frames_sent, actor, next);
    }

    /// Counts one frame received by `actor`.
    pub fn record_frame_received(&mut self, actor: &str)
        ensures
            final(self)@ == (WorldView {
                received: upsert(
                    old(self)@.received,
                    actor@,
                    bumped(count_of(old(self)@.received, actor@)),
                ),
                ..old(self)@
            }),
    {
        let n = counter_value(&self.frames_received, actor);
        let next = if n < usize::MAX {
            n + 1
        } else {
            n
        };
        set_counter(&mut self.frames_received, actor, next);
    }

    /// Records a network event.
    pub fn record_network_event(&mut self, event: NetworkEvent)
        ensures
            final(self)@ == (WorldView { events: old(self)@.events.push(event), ..old(self)@ }),
    {
        self.network_events.push(event);
    }

    /// Number of frames sent by `actor`.
    pub fn frames_sent(&self, actor: &str) -> (r: usize)
        ensures
            r == count_of(self@.sent, actor@),
    {
        counter_value(&self.frames_sent, actor)
    }

    /// Number of frames received by `actor`.
    pub fn frames_received(&self, actor: &str) -> (r: usize)
        ensures
            r == count_of(self@.received, actor@),
    {
        counter_value(&self.frames_received, actor)
    }

    /// The network events, in the order they were recorded.
    pub fn network_events(&self) -> (r: &[NetworkEvent])
        ensures
            r@ == self@.events,
    {
        self.network_events.as_slice()
    }

    /// Whether every actor is authenticated.
    pub fn all_authenticated(&self) -> (r: bool)
        ensures
            r == (forall|i: int|
                0 <= i < all_connections(self@).len() ==> (#[trigger] all_connections(self@)[i]).state
                    == ConnectionState::Authenticated),
    {
        let ghost all = all_connections(self@);
        let ghost nc = self.clients@.len();
        assert(all.len() == self.clients@.len() + self.servers@.len());
        let mut i: usize = 0;
        while i < self.clients.len()
            invariant
                i <= nc,
                nc == self.clients@.len(),
                all == all_connections(self@),
                all.len() == self.clients@.len() + self.servers@.len(),
                forall|k: int| 0 <= k < i ==> (#[trigger] all[k]).state == ConnectionState::Authenticated,
            decreases nc - i,
        {
            assert(all[i as int] == self.clients@[i as int].connection@);
            if self.clients[i].connection.state() != ConnectionState::Authenticated {
                return false;
            }
            i = i + 1;
        }
        let mut j: usize = 0;
        while j < self.servers.len()
            invariant
                j <= self.servers@.len(),
                nc == self.clients@.len(),
                all == all_connections(self@),
                all.len() == self.clients@.len() + self.servers@.len(),
                forall|k: int| 0 <= k < nc + j ==> (#[trigger] all[k]).state == ConnectionState::Authenticated,
            decreases self.servers@.len() - j,
        {
            assert(all[nc + j] == self.servers@[j as int].connection@);
            if self.servers[j].connection.state() != ConnectionState::Authenticated {
                return false;
            }
            j = j + 1;
        }
        true
    }

    fn session_ids(&self) -> (r: Vec<Option<u64>>)
        ensures
            r@.len() == all_connections(self@).len(),
            forall|k: int| 0 <= k < r@.len() ==> r@[k] == (#[trigger] all_connections(self@)[k]).session_id,
    {
        let ghost all = all_connections(self@);
        let mut out: Vec<Option<u64>> = Vec::new();
        let mut i: usize = 0;
        while i < self.clients.len()
            invariant
                i <= self.clients@.len(),
                all == all_connections(self@),
                all.len() == self.clients@.len() + self.servers@.len(),
                out@.len() == i,
                forall|k: int| 0 <= k < i ==> out@[k] == (#[trigger] all[k]).session_id,
            decreases self.clients@.len() - i,
        {
            assert(all[i as int] == self.clients@[i as int].connection@);
            out.push(self.clients[i].connection.session_id());
            i = i + 1;
        }
        let nc = self.clients.len();
        let mut j: usize = 0;
        while j < self.servers.len()
            invariant
                j <= self.servers@.len(),
                nc == self.clients@.len(),
                all == all_connections(self@),
                all.len() == self.clients@.len() + self.servers@.len(),
                out@.len() == nc + j,
                forall|k: int| 0 <= k < nc + j ==> out@[k] == (#[trigger] all[k]).session_id,
            decreases self.servers@.len() - j,
        {
            assert(all[nc + j] == self.servers@[j as int].connection@);
            out.push(self.servers[j].connection.session_id());
            j = j + 1;
        }
        out
    }

    /// Whether some actor holds a session id and all that hold one agree.
    pub fn session_ids_match(&self) -> (r: bool)
        ensures
            r == session_ids_agree(all_connections(self@)),
    {
        let ghost all = all_connections(self@);
        let ids = self.session_ids();
        let mut first: Option<u64> = None;
        let mut ok = true;
        let mut i: usize = 0;
        while i < ids.len()
            invariant
                i <= ids@.len(),
                ids@.len() == all.len(),
                forall|k: int| 0 <= k < ids@.len() ==> ids@[k] == (#[trigger] all[k]).session_id,
                first is None <==> forall|k: int| 0 <= k < i ==> ids@[k] is None,
                first matches Some(x) ==> exists|k: int| 0 <= k < i && ids@[k] == Some(x),
                ok <==> forall|k: int| 0 <= k < i && ids@[k] is Some ==> ids@[k] == first,
            decreases ids@.len() - i,
        {
            match ids[i] {
                Some(id) => {
                    match first {
                        None => {
                            first = Some(id);
                        },
                        Some(x) => {
                            if x != id {
                                ok = false;
                            }
                        },
                    }
                },
                None => {},
            }
            i = i + 1;
        }
        proof {
            if first is Some && ok {
                let k0 = choose|k: int| 0 <= k < i && ids@[k] == first;
                assert(all[k0].session_id is Some);
            }
            if session_ids_agree(all) {
                let w = choose|w: int| 0 <= w < all.len() && (#[trigger] all[w]).session_id is Some;
                assert(ids@[w] is Some);
                if !ok {
                    let x = first->Some_0;
                    let k0 = choose|k: int| 0 <= k < i && ids@[k] == Some(x);
                    let k1 = choose|k: int| 0 <= k < i && ids@[k] is Some && ids@[k] != first;
                    assert(all[k0].session_id is Some && all[k1].session_id is Some);
                }
            }
        }
        first.is_some() && ok
    }

    /// The names of all actors: clients first, then servers.
    pub fn actor_names(&self) -> (r: Vec<String>)
        ensures
            r@.len() == self@.clients.len() + self@.servers.len(),
            forall|k: int| 0 <= k < self@.clients.len() ==> (#[trigger] r@[k])@ == self@.clients[k].0,
            forall|k: int|
                0 <= k < self@.servers.len() ==> (#[trigger] r@[self@.clients.len() + k])@
                    == self@.servers[k].0,
    {
        let mut out: Vec<String> = Vec::new();
        let mut i: usize = 0;
        while i < self.clients.len()
            invariant
                i <= self.clients@.len(),
                out@.len() == i,
                forall|k: int| 0 <= k < i ==> (#[trigger] out@[k])@ == self@.clients[k].0,
            decreases self.clients@.len() - i,
        {
            out.push(self.clients[i].name.clone());
            i = i + 1;
        }
        let nc = self.clients.len();
        let mut j: usize = 0;
        while j < self.servers.len()
            invariant
                j <= self.servers@.len(),
                nc == self.clients@.len(),
                out@.len() == nc + j,
                forall|k: int| 0 <= k < nc ==> (#[trigger] out@[k])@ == self@.clients[k].0,
                forall|k: int| 0 <= k < j ==> (#[trigger] out@[nc + k])@ == self@.servers[k].0,
            decreases self.servers@.len() - j,
        {
            out.push(self.servers[j].name.clone());
            j = j + 1;
        }
        out
    }
}

struct ActorSpec {
    name: String,
    config: ConnectionConfig,
}

spec fn specs_view(s: Seq<ActorSpec>) -> Seq<(Seq<char>, ConnectionConfig)> {
    s.map_values(|a: ActorSpec| (a.name@, a.config))
}

/// A scenario under construction: its name and its actors.
pub struct Scenario {
    name: String,
    clients: Vec<ActorSpec>,
    servers: Vec<ActorSpec>,
}

/// A scenario as contracts see it.
pub struct ScenarioView {
    pub name: Seq<char>,
    pub clients: Seq<(Seq<char>, ConnectionConfig)>,
    pub servers: Seq<(Seq<char>, ConnectionConfig)>,
}

impl View for Scenario {
    type V = ScenarioView;

    closed spec fn view(&self) -> ScenarioView {
        ScenarioView {
            name: self.name@,
            clients: specs_view(self.clients@),
            servers: specs_view(self.servers@),
        }
    }
}

impl Scenario {
    /// A scenario named `name` with no actors.
    pub fn new(name: &str) -> (r: Scenario)
        ensures
            r@ == (ScenarioView { name: name@, clients: seq![], servers: seq![] }),
    {
        let r = Scenario { name: String::from_str(name), clients: Vec::new(), servers: Vec::new() };
        assert(r@.clients =~= seq![]);
        assert(r@.servers =~= seq![]);
        r
    }

    /// Adds a client with the default configuration.
    pub fn client(self, name: &str) -> (r: Scenario)
        ensures
            r@ == (ScenarioView {
                clients: self@.clients.push((name@, ConnectionConfig::spec_default())),
                ..self@
            }),
    {
        self.client_with_config(name, ConnectionConfig::default())
    }

    /// Adds a client with the given configuration.
    pub fn client_with_config(self, name: &str, config: ConnectionConfig) -> (r: Scenario)
        ensures
            r@ == (ScenarioView { clients: self@.clients.push((name@, config)), ..self@ }),
    {
        let mut s = self;
        let ghost old_clients = s.clients@;
        s.clients.push(ActorSpec { name: String::from_str(name), config });
        assert(specs_view(s.clients@) =~= specs_view(old_clients).push((name@, config)));
        s
    }

    /// Adds a server with the default configuration.
    pub fn server(self, name: &str) -> (r: Scenario)
        ensures
            r@ == (ScenarioView {
                servers: self@.servers.push((name@, ConnectionConfig::spec_default())),
                ..self@
            }),
    {
        self.server_with_config(name, ConnectionConfig::default())
    }

    /// Adds a server with the given configuration.
    pub fn server_with_config(self, name: &str, config: ConnectionConfig) -> (r: Scenario)
        ensures
            r@ == (ScenarioView { servers: self@.servers.push((name@, config)), ..self@ }),
    {
        let mut s = self;
        let ghost old_servers = s.servers@;
        s.servers.push(ActorSpec { name: String::from_str(name), config });
        assert(specs_view(s.servers@) =~= specs_view(old_servers).push((name@, config)));
        s
    }

    /// Attaches the oracle that judges the final world; only a scenario
    /// with an oracle can run.
    pub fn oracle<F: Fn(&World) -> Result<(), String>>(self, oracle: F) -> (r: RunnableScenario<F>)
        ensures
            r.scenario_view() == self@,
            r.oracle_fn() == oracle,
    {
        RunnableScenario { scenario: self, oracle }
    }
}

/// A scenario with its oracle, ready to run.
pub struct RunnableScenario<F> {
    scenario: Scenario,
    oracle: F,
}

/// Whether world `v` holds just client `c` and server `s`, and they
/// completed the handshake: both authenticated with the first session id
/// (so all session ids agree), and (for distinct names) each sent and
/// received exactly one frame.
pub open spec fn handshake_complete(v: WorldView, c: Seq<char>, s: Seq<char>) -> bool {
    &&& v.clients.len() == 1 && v.servers.len() == 1
    &&& session_ids_agree(all_connections(v))
    &&& forall|i: int|
        0 <= i < all_connections(v).len() ==> (#[trigger] all_connections(v)[i]).state
            == ConnectionState::Authenticated
    &&& lookup(v.clients, c) matches Some(cv) && cv.state == ConnectionState::Authenticated
        && cv.session_id == Some(FIRST_SESSION_ID)
    &&& lookup(v.servers, s) matches Some(sv) && sv.state == ConnectionState::Authenticated
        && sv.session_id == Some(FIRST_SESSION_ID)
    &&& c != s ==> count_of(v.sent, c) == 1 && count_of(v.received, c) == 1 && count_of(v.sent, s)
        == 1 && count_of(v.received, s) == 1
}

/// The text of decimal digit `d`.
pub open spec fn digit_text(d: nat) -> Seq<char> {
    if d == 0 {
        "0"@
    } else if d == 1 {
        "1"@
    } else if d == 2 {
        "2"@
    } else if d == 3 {
        "3"@
    } else if d == 4 {
        "4"@
    } else if d == 5 {
        "5"@
    } else if d == 6 {
        "6"@
    } else if d == 7 {
        "7"@
    } else if d == 8 {
        "8"@
    } else {
        "9"@
    }
}

/// The decimal text of `n`.
pub open spec fn decimal_text(n: nat) -> Seq<char>
    decreases n,
{
    if n < 10 {
        digit_text(n)
    } else {
        decimal_text(n / 10) + digit_text(n % 10)
    }
}

fn digit_str(d: usize) -> (r: &'static str)
    requires
        d < 10,
    ensures
        r@ == digit_text(d as nat),
{
    if d == 0 {
        "0"
    } else if d == 1 {
        "1"
    } else if d == 2 {
        "2"
    } else if d == 3 {
        "3"
    } else if d == 4 {
        "4"
    } else if d == 5 {
        "5"
    } else if d == 6 {
        "6"
    } else if d == 7 {
        "7"
    } else if d == 8 {
        "8"
    } else {
        "9"
    }
}

/// The decimal text of `n`.
pub fn decimal_string(n: usize) -> (r: String)
    ensures
        r@ == decimal_text(n as nat),
    decreases n,
{
    if n < 10 {
        String::from_str(digit_str(n))
    } else {
        decimal_string(n / 10).concat(digit_str(n % 10))
    }
}

/// The error of a scenario named `name` with `c` clients and `s` servers
/// when that is not one of each.
pub open spec fn actor_count_error(name: Seq<char>, c: nat, s: nat) -> Seq<char> {
    "Scenario '"@ + name + "': only 1 client and 1 server are supported (got "@ + decimal_text(c)
        + " clients, "@ + decimal_text(s) + " servers)"@
}

impl<F: Fn(&World) -> Result<(), String>> RunnableScenario<F> {
    /// The scenario to run.
    pub closed spec fn scenario_view(&self) -> ScenarioView {
        self.scenario@
    }

    /// The oracle.
    pub closed spec fn oracle_fn(&self) -> F {
        self.oracle
    }

    /// Runs the scenario from time zero: the client sends Hello, the server
    /// answers with a HelloReply carrying its session id, and the client
    /// takes that id; then the oracle judges the world. Only one client and
    /// one server are supported; other scenarios fail.
    pub fn run(self) -> (r: Result<(), String>)
        requires
            forall|w: World| call_requires(self.oracle_fn(), (&w,)),
        ensures
            !(self.scenario_view().clients.len() == 1 && self.scenario_view().servers.len() == 1)
                ==> (r matches Err(m) && m@ == actor_count_error(
                self.scenario_view().name,
                self.scenario_view().clients.len(),
                self.scenario_view().servers.len(),
            )),
            self.scenario_view().clients.len() == 1 && self.scenario_view().servers.len() == 1
                ==> exists|w: World|
                handshake_complete(
                    w@,
                    self.scenario_view().clients[0].0,
                    self.scenario_view().servers[0].0,
                ) && call_ensures(self.oracle_fn(), (&w,), r),
    {
        let ghost oracle_fn = self.oracle_fn();
        let ghost view = self.scenario_view();
        let RunnableScenario { scenario, oracle } = self;
        assert(oracle == oracle_fn);
        assert(scenario@ == view);
        if scenario.clients.len() != 1 || scenario.servers.len() != 1 {
            let msg = String::from_str("Scenario '").concat(scenario.name.as_str()).concat(
                "': only 1 client and 1 server are supported (got ",
            ).concat(decimal_string(scenario.clients.len()).as_str()).concat(" clients, ").concat(
                decimal_string(scenario.servers.len()).as_str(),
            ).concat(" servers)");
            return Err(msg);
        }
        let t0 = Instant::from_nanos(0);
        let client_name = scenario.clients[0].name.clone();
        let server_name = scenario.servers[0].name.clone();
        let mut client = Connection::new(t0, scenario.clients[0].config);
        let mut server = Connection::new(t0, scenario.servers[0].config);
        server.set_session_id(FIRST_SESSION_ID);

        if client.send_hello(t0).is_err() {
            return Err(String::from_str("client could not send Hello"));
        }
        let hello = Frame::new(FrameHeader::new(Opcode::Hello), Vec::new());
        let mut replies = match server.handle_frame(&hello, t0) {
            Ok(actions) => actions,
            Err(_) => {
                return Err(String::from_str("server rejected Hello"));
            },
        };
        let reply = match replies.pop() {
            Some(ConnectionAction::SendFrame(f)) => f,
            _ => {
                return Err(String::from_str("server did not answer Hello"));
            },
        };
        proof {
            lemma_hello_reply_id(FIRST_SESSION_ID);
        }
        match client.handle_frame(&reply, t0) {
            Ok(actions) => {
                if actions.len() != 0 {
                    return Err(String::from_str("client answered HelloReply"));
                }
            },
            Err(_) => {
                return Err(String::from_str("client rejected HelloReply"));
            },
        }

        let ghost c = client_name@;
        let ghost sn = server_name@;
        let ghost z = Seq::<(Seq<char>, usize)>::empty();
        let mut world = World::new();
        assert(world@.sent =~= z && world@.received =~= z);
        assert(world@.clients =~= Seq::<(Seq<char>, ConnectionView)>::empty());
        assert(world@.servers =~= Seq::<(Seq<char>, ConnectionView)>::empty());
        proof {
            lemma_upsert_empty(c, client@);
            lemma_upsert_empty(sn, server@);
        }
        proof {
            if c != sn {
                lemma_first_entries(c, sn, 0usize, 0usize);
                lemma_pair_entries(c, sn, 0usize, 0usize, 1usize);
                lemma_pair_entries(c, sn, 1usize, 0usize, 1usize);
                lemma_pair_entries(c, sn, 0usize, 1usize, 1usize);
            }
        }
        world.add_client(client_name.clone(), client);
        assert(c != sn ==> world@.sent == seq![(c, 0usize)] && world@.received == seq![(c, 0usize)]);
        world.add_server(server_name.clone(), server);
        assert(c != sn ==> world@.sent == seq![(c, 0usize), (sn, 0usize)] && world@.received == seq![(c, 0usize), (sn, 0usize)]);
        world.record_frame_sent(client_name.as_str());
        assert(c != sn ==> world@.sent == seq![(c, 1usize), (sn, 0usize)]);
        world.record_frame_received(server_name.as_str());
        assert(c != sn ==> world@.received == seq![(c, 0usize), (sn, 1usize)]);
        world.record_frame_sent(server_name.as_str());
        assert(c != sn ==> world@.sent == seq![(c, 1usize), (sn, 1usize)]);
        world.record_frame_received(client_name.as_str());
        assert(c != sn ==> world@.received == seq![(c, 1usize), (sn, 1usize)]);
        proof {
            let v = world@;
            lemma_find_name_range(v.clients, client_name@, 0);
            lemma_find_name_range(v.servers, server_name@, 0);
            if c != sn {
                lemma_pair_entries(c, sn, 1usize, 1usize, 1usize);
            }
            assert(client@.state == ConnectionState::Authenticated);
            assert(client@.session_id == Some(FIRST_SESSION_ID));
            assert(server@.state == ConnectionState::Authenticated);
            assert(lookup(v.clients, client_name@) == Some(client@));
            assert(lookup(v.servers, server_name@) == Some(server@));
            assert(v.clients == seq![(c, client@)]);
            assert(v.servers == seq![(sn, server@)]);
            let all = all_connections(v);
            assert(all =~= seq![client@, server@]);
            assert(all[0].session_id is Some);
            assert(session_ids_agree(all));
            assert(handshake_complete(v, client_name@, server_name@));
            assert(client_name@ == view.clients[0].0);
            assert(call_requires(oracle_fn, (&world,)));
        }
        let r = oracle(&world);
        r
    }
}

} // verus!
