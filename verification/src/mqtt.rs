//! The MQTT client of the services: its connection to the broker, the
//! registry of handlers per topic, and what its event loop does with each
//! event.
use rumqttc::{AsyncClient, EventLoop, MqttOptions};
use vstd::prelude::*;

verus! {

#[verifier::external_type_specification]
#[verifier::external_body]
pub struct ExMqttOptions(rumqttc::MqttOptions);

#[verifier::external_type_specification]
#[verifier::external_body]
pub struct ExAsyncClient(rumqttc::AsyncClient);

#[verifier::external_type_specification]
#[verifier::external_body]
pub struct ExEventLoop(rumqttc::EventLoop);

/// The connection settings that MQTT options carry: the client id, the
/// broker's host and port, and the keep-alive in whole seconds.
pub struct MqttSettings {
    pub client_id: Seq<char>,
    pub host: Seq<char>,
    pub port: u16,
    pub keep_alive_secs: nat,
}

/// The settings that `rumqttc::MqttOptions` holds (what its `client_id`,
/// `broker_address` and `keep_alive` give back).
pub uninterp spec fn options_settings(o: MqttOptions) -> MqttSettings;

/// The settings of the options that a `rumqttc::EventLoop` connects with (its
/// public `mqtt_options` field).
pub uninterp spec fn event_loop_settings(e: EventLoop) -> MqttSettings;

/// The capacity of the request channel that a `rumqttc::EventLoop` was made
/// with.
pub uninterp spec fn event_loop_capacity(e: EventLoop) -> nat;

/// The client handle sends its requests into the request channel that this
/// event loop reads (`AsyncClient::new` builds the handle from a clone of the
/// event loop's request sender).
pub uninterp spec fn client_feeds(c: AsyncClient, e: EventLoop) -> bool;

/// `rumqttc::MqttOptions::new`: options to connect to `host:port` as client
/// `id`, with the crate's default keep-alive of 60 seconds. The other options
/// it sets are left unsaid.
#[verifier::external_body]
fn mqtt_options(id: String, host: String, port: u16) -> (r: MqttOptions)
    ensures
        options_settings(r) == (MqttSettings { client_id: id@, host: host@, port, keep_alive_secs: 60 }),
{
    MqttOptions::new(id, host, port)
}

/// `rumqttc::MqttOptions::set_keep_alive`, given whole seconds: sets the
/// keep-alive and nothing else of the settings. It panics on a keep-alive
/// below one second other than zero, which whole seconds never are.
#[verifier::external_body]
fn mqtt_options_set_keep_alive(options: &mut MqttOptions, secs: u64)
    ensures
        options_settings(*final(options)) == (MqttSettings {
            keep_alive_secs: secs as nat,
            ..options_settings(*old(options))
        }),
{
    options.set_keep_alive(std::time::Duration::from_secs(secs));
}

/// `rumqttc::AsyncClient::new`: a client handle and the event loop that
/// serves it, linked by a request channel of capacity `cap`; the event loop
/// keeps the options it is given.
#[verifier::external_body]
fn async_client(options: MqttOptions, cap: usize) -> (r: (AsyncClient, EventLoop))
    ensures
        client_feeds(r.0, r.1),
        event_loop_settings(r.1) == options_settings(options),
        event_loop_capacity(r.1) == cap,
{
    AsyncClient::new(options, cap)
}

/// Seconds between keep-alive pings.
pub const KEEP_ALIVE_SECS: u64 = 5;

/// Capacity of the channel of requests from the client to its event loop.
pub const REQUEST_CAPACITY: usize = 10;

/// The handler lists of the registry as a map from topic to handler ids, in
/// the order they were registered; of topics listed twice, the last listing
/// counts.
pub open spec fn entries_map(s: Seq<(Seq<char>, Seq<usize>)>) -> Map<Seq<char>, Seq<usize>>
    decreases s.len(),
{
    if s.len() == 0 {
        Map::empty()
    } else {
        entries_map(s.drop_last()).insert(s.last().0, s.last().1)
    }
}

/// No topic is listed twice.
pub open spec fn unique_topics(s: Seq<(Seq<char>, Seq<usize>)>) -> bool {
    forall|i: int, j: int| 0 <= i < j < s.len() ==> s[i].0 != s[j].0
}

proof fn lemma_entries_map(s: Seq<(Seq<char>, Seq<usize>)>)
    requires
        unique_topics(s),
    ensures
        forall|i: int|
            0 <= i < s.len() ==> #[trigger] entries_map(s).contains_key(s[i].0) && entries_map(s)[s[i].0] == s[i].1,
        forall|t: Seq<char>| #[trigger]
            entries_map(s).contains_key(t) ==> exists|i: int| 0 <= i < s.len() && s[i].0 == t,
    decreases s.len(),
{
    if s.len() > 0 {
        let init = s.drop_last();
        assert(unique_topics(init)) by {
            assert forall|i: int, j: int| 0 <= i < j < init.len() implies init[i].0 != init[j].0 by {
                assert(init[i] == s[i] && init[j] == s[j]);
            }
        }
        lemma_entries_map(init);
        assert forall|i: int| 0 <= i < s.len() implies #[trigger] entries_map(s).contains_key(s[i].0) && entries_map(
            s,
        )[s[i].0] == s[i].1 by {
            if i < s.len() - 1 {
                assert(init[i] == s[i]);
                assert(entries_map(init).contains_key(init[i].0));
                assert(s[i].0 != s.last().0);
            }
        }
        assert forall|t: Seq<char>| #[trigger] entries_map(s).contains_key(t) implies exists|i: int|
            0 <= i < s.len() && s[i].0 == t by {
            if t != s.last().0 {
                assert(entries_map(init).contains_key(t));
                let i = choose|i: int| 0 <= i < init.len() && init[i].0 == t;
                assert(s[i] == init[i]);
            } else {
                assert(s[s.len() - 1].0 == t);
            }
        }
    }
}

/// Entries with their topics and ids as plain values.
pub open spec fn view_of(entries: Seq<(String, Vec<usize>)>) -> Seq<(Seq<char>, Seq<usize>)> {
    entries.map_values(|e: (String, Vec<usize>)| (e.0@, e.1@))
}

/// The handler ids registered for each topic, in the order they were
/// registered.
pub struct HandlerRegistry {
    entries: Vec<(String, Vec<usize>)>,
}

impl HandlerRegistry {
    /// The registry's entries, topics and ids as plain values.
    pub closed spec fn entries_view(&self) -> Seq<(Seq<char>, Seq<usize>)> {
        view_of(self.entries@)
    }

    #[verifier::type_invariant]
    closed spec fn inv(&self) -> bool {
        unique_topics(self.entries_view())
    }

    /// Topic to handler ids.
    pub closed spec fn handlers(&self) -> Map<Seq<char>, Seq<usize>> {
        entries_map(self.entries_view())
    }

    /// A registry with no handler.
    pub fn new() -> (r: HandlerRegistry)
        ensures
            r.handlers() == Map::<Seq<char>, Seq<usize>>::empty(),
    {
        let r = HandlerRegistry { entries: Vec::new() };
        assert(r.entries_view() =~= Seq::<(Seq<char>, Seq<usize>)>::empty());
        r
    }

    fn find(&self, topic: &String) -> (r: Option<usize>)
        ensures
            match r {
                Some(i) => i < self.entries_view().len() && self.entries_view()[i as int].0 == topic@,
                None => forall|i: int| 0 <= i < self.entries_view().len() ==> self.entries_view()[i].0 != topic@,
            },
    {
        let mut i: usize = 0;
        while i < self.entries.len()
            invariant
                i <= self.entries.len(),
                self.entries_view().len() == self.entries.len(),
                forall|j: int| 0 <= j < i ==> self.entries_view()[j].0 != topic@,
            decreases self.entries.len() - i,
        {
            if self.entries[i].0 == *topic {
                return Some(i);
            }
            i = i + 1;
        }
        None
    }

    /// The handler ids of `topic`, if any handler was registered for it.
    pub fn get(&self, topic: &String) -> (r: Option<&Vec<usize>>)
        ensures
            match r {
                Some(ids) => self.handlers().contains_key(topic@) && ids@ == self.handlers()[topic@],
                None => !self.handlers().contains_key(topic@),
            },
    {
        proof {
            use_type_invariant(self);
            lemma_entries_map(self.entries_view());
        }
        match self.find(topic) {
            Some(i) => {
                assert(self.entries_view()[i as int] == (self.entries@[i as int].0@, self.entries@[i as int].1@));
                assert(entries_map(self.entries_view()).contains_key(self.entries_view()[i as int].0));
                Some(&self.entries[i].1)
            },
            None => None,
        }
    }

    /// Adds handler `id` at the end of the list of `topic`.
    pub fn register(&mut self, topic: String, id: usize)
        ensures
            final(self).handlers() == old(self).handlers().insert(
                topic@,
                if old(self).handlers().contains_key(topic@) {
                    old(self).handlers()[topic@].push(id)
                } else {
                    seq![id]
                },
            ),
    {
        proof {
            use_type_invariant(&*self);
            lemma_entries_map(self.entries_view());
        }
        let ghost old_view = self.entries_view();
        match self.find(&topic) {
            Some(i) => {
                let mut ids = self.entries[i].1.clone();
                assert(ids@ =~= old_view[i as int].1);
                ids.push(id);
                let ghost new_view = old_view.update(i as int, (topic@, ids@));
                assert(unique_topics(new_view));
                let mut entries: Vec<(String, Vec<usize>)> = Vec::new();
                std::mem::swap(&mut entries, &mut self.entries);
                entries.set(i, (topic, ids));
                assert(view_of(entries@) =~= new_view);
                self.entries = entries;
                proof {
                    lemma_entries_map(new_view);
                    assert(entries_map(new_view) =~= entries_map(old_view).insert(topic@, old_view[i as int].1.push(id))) by {
                        assert forall|t: Seq<char>| #[trigger] entries_map(new_view).contains_key(t) <==> entries_map(
                            old_view,
                        ).insert(topic@, old_view[i as int].1.push(id)).contains_key(t) by {
                            if entries_map(new_view).contains_key(t) {
                                let k = choose|k: int| 0 <= k < new_view.len() && new_view[k].0 == t;
                                assert(old_view[k].0 == t);
                            }
                            if entries_map(old_view).contains_key(t) {
                                let k = choose|k: int| 0 <= k < old_view.len() && old_view[k].0 == t;
                                assert(new_view[k].0 == t);
                            }
                        }
                        assert forall|t: Seq<char>| #[trigger] entries_map(new_view).contains_key(t) implies entries_map(
                            new_view,
                        )[t] == entries_map(old_view).insert(topic@, old_view[i as int].1.push(id))[t] by {
                            let k = choose|k: int| 0 <= k < new_view.len() && new_view[k].0 == t;
                            assert(entries_map(new_view)[new_view[k].0] == new_view[k].1);
                            if k != i {
                                assert(entries_map(old_view)[old_view[k].0] == old_view[k].1);
                            }
                        }
                    }
                }
            },
            None => {
                let ghost new_view = old_view.push((topic@, seq![id]));
                let mut ids: Vec<usize> = Vec::new();
                ids.push(id);
                assert(unique_topics(new_view));
                let mut entries: Vec<(String, Vec<usize>)> = Vec::new();
                std::mem::swap(&mut entries, &mut self.entries);
                entries.push((topic, ids));
                assert(view_of(entries@) =~= new_view);
                self.entries = entries;
                assert(new_view.drop_last() =~= old_view);
                assert(!entries_map(old_view).contains_key(topic@));
            },
        }
    }
}

/// The ids, in increasing order, of the handlers among `topics` (the topic of
/// each handler, in the order they were added) that were added for `t`.
pub open spec fn ids_for(topics: Seq<Seq<char>>, t: Seq<char>) -> Seq<usize>
    decreases topics.len(),
{
    if topics.len() == 0 {
        Seq::empty()
    } else if topics.last() == t {
        ids_for(topics.drop_last(), t).push((topics.len() - 1) as usize)
    } else {
        ids_for(topics.drop_last(), t)
    }
}

/// The handler lists after adding one handler per topic of `topics`, in that
/// order, to a client without any: each step as `add_handler` states it.
pub open spec fn handlers_after(topics: Seq<Seq<char>>) -> Map<Seq<char>, Seq<usize>>
    decreases topics.len(),
{
    if topics.len() == 0 {
        Map::empty()
    } else {
        let m = handlers_after(topics.drop_last());
        let t = topics.last();
        let id = (topics.len() - 1) as usize;
        m.insert(t, if m.contains_key(t) { m[t].push(id) } else { seq![id] })
    }
}

/// After handlers are added for a series of topics, a topic has handlers
/// exactly when one was added for it, and they are the ones added for it, in
/// the order they were added.
pub proof fn lemma_handlers_are_those_added_for_topic(topics: Seq<Seq<char>>, t: Seq<char>)
    ensures
        handlers_after(topics).contains_key(t) <==> topics.contains(t),
        handlers_after(topics).contains_key(t) ==> handlers_after(topics)[t] == ids_for(topics, t),
    decreases topics.len(),
{
    if topics.len() > 0 {
        let init = topics.drop_last();
        lemma_handlers_are_those_added_for_topic(init, t);
        lemma_handlers_are_those_added_for_topic(init, topics.last());
        if topics.contains(t) && topics.last() != t {
            let i = choose|i: int| 0 <= i < topics.len() && topics[i] == t;
            assert(init[i] == t);
        }
        if init.contains(t) {
            let i = choose|i: int| 0 <= i < init.len() && init[i] == t;
            assert(topics[i] == t);
        }
        if topics.last() == t && !init.contains(t) {
            assert(ids_for(init, t) =~= Seq::<usize>::empty()) by {
                lemma_ids_for_absent(init, t);
            }
        }
    }
}

proof fn lemma_ids_for_absent(topics: Seq<Seq<char>>, t: Seq<char>)
    requires
        !topics.contains(t),
    ensures
        ids_for(topics, t) == Seq::<usize>::empty(),
    decreases topics.len(),
{
    if topics.len() > 0 {
        let init = topics.drop_last();
        if init.contains(t) {
            let i = choose|i: int| 0 <= i < init.len() && init[i] == t;
            assert(topics[i] == t);
        }
        lemma_ids_for_absent(init, t);
        assert(topics[topics.len() - 1] != t);
    }
}

/// What the event loop received, as far as the client's decisions go.
pub enum MqttEvent {
    /// A message published on `topic`.
    Publish(String),
    /// The connection to the broker was acknowledged for client `id`.
    Connect(String),
    /// The broker closed the connection.
    Disconnect,
    /// Anything else.
    Other,
}

/// What the event loop does next.
#[derive(Debug, PartialEq, Eq)]
pub enum ClientAction {
    /// Run these handlers, in this order, on the message's payload; then go on.
    Dispatch(Vec<usize>),
    /// Go on with the next event.
    Continue,
    /// Stop the loop without an error.
    Finish,
}

/// The handlers registered for each topic, numbered in the order they were
/// added.
pub struct Handlers {
    registry: HandlerRegistry,
    count: usize,
}

impl Handlers {
    #[verifier::type_invariant]
    closed spec fn inv(&self) -> bool {
        forall|t: Seq<char>, k: int|
            #![trigger self.registry.handlers()[t][k]]
            self.registry.handlers().contains_key(t) && 0 <= k < self.registry.handlers()[t].len()
                ==> self.registry.handlers()[t][k] < self.count
    }

    /// Topic to the ids of its handlers, in the order they were added.
    pub closed spec fn by_topic(&self) -> Map<Seq<char>, Seq<usize>> {
        self.registry.handlers()
    }

    /// The number of handlers added so far; ids run from 0 below it.
    pub closed spec fn spec_count(&self) -> nat {
        self.count as nat
    }

    /// No handler at all.
    pub fn new() -> (r: Handlers)
        ensures
            r.by_topic() == Map::<Seq<char>, Seq<usize>>::empty(),
            r.spec_count() == 0,
    {
        Handlers { registry: HandlerRegistry::new(), count: 0 }
    }

    /// The number of handlers added so far.
    pub fn count(&self) -> (r: usize)
        ensures
            r == self.spec_count(),
    {
        self.count
    }

    /// Adds a handler for `topic` and returns its id, the number of handlers
    /// added before it; it runs after those already added for the topic.
    pub fn add(&mut self, topic: String) -> (r: usize)
        requires
            old(self).spec_count() < usize::MAX,
        ensures
            r == old(self).spec_count(),
            final(self).spec_count() == old(self).spec_count() + 1,
            final(self).by_topic() == old(self).by_topic().insert(
                topic@,
                if old(self).by_topic().contains_key(topic@) {
                    old(self).by_topic()[topic@].push(r)
                } else {
                    seq![r]
                },
            ),
    {
        proof {
            use_type_invariant(&*self);
        }
        let id = self.count;
        let mut registry = HandlerRegistry::new();
        std::mem::swap(&mut registry, &mut self.registry);
        registry.register(topic, id);
        *self = Handlers { registry, count: id + 1 };
        id
    }

    /// The ids of the handlers of `topic`, in the order they were added; none
    /// where none were.
    pub fn for_topic(&self, topic: &String) -> (r: Vec<usize>)
        ensures
            r@ == if self.by_topic().contains_key(topic@) {
                self.by_topic()[topic@]
            } else {
                Seq::empty()
            },
            forall|k: int| 0 <= k < r@.len() ==> r@[k] < self.spec_count(),
    {
        proof {
            use_type_invariant(self);
        }
        match self.registry.get(topic) {
            Some(ids) => {
                let out = ids.clone();
                assert(out@ =~= ids@);
                out
            },
            None => Vec::new(),
        }
    }
}

/// An MQTT client: the connection to the broker and the handlers registered
/// for each topic.
pub struct MqttClient {
    client: AsyncClient,
    event_loop: EventLoop,
    handlers: Handlers,
}

impl MqttClient {
    /// Topic to the ids of its handlers, in the order they were added.
    pub closed spec fn handlers(&self) -> Map<Seq<char>, Seq<usize>> {
        self.handlers.by_topic()
    }

    /// The number of handlers added so far; ids run from 0 below it.
    pub closed spec fn spec_handler_count(&self) -> nat {
        self.handlers.spec_count()
    }

    /// The handle through which requests reach the event loop.
    pub closed spec fn spec_client(&self) -> AsyncClient {
        self.client
    }

    /// The event loop that connects to the broker and yields the events.
    pub closed spec fn spec_event_loop(&self) -> EventLoop {
        self.event_loop
    }

    /// A client that connects as `service_id` to the broker at
    /// `hostname:port`, with a keep-alive of `KEEP_ALIVE_SECS` seconds and a
    /// request channel of `REQUEST_CAPACITY`, whose handle feeds its own event
    /// loop; it has no handler yet.
    pub fn new(service_id: String, hostname: String, port: u16) -> (r: MqttClient)
        ensures
            event_loop_settings(r.spec_event_loop()) == (MqttSettings {
                client_id: service_id@,
                host: hostname@,
                port,
                keep_alive_secs: KEEP_ALIVE_SECS as nat,
            }),
            event_loop_capacity(r.spec_event_loop()) == REQUEST_CAPACITY,
            client_feeds(r.spec_client(), r.spec_event_loop()),
            r.handlers() == Map::<Seq<char>, Seq<usize>>::empty(),
            r.spec_handler_count() == 0,
    {
        let mut options = mqtt_options(service_id, hostname, port);
        mqtt_options_set_keep_alive(&mut options, KEEP_ALIVE_SECS);
        let (client, event_loop) = async_client(options, REQUEST_CAPACITY);
        MqttClient { client, event_loop, handlers: Handlers::new() }
    }

    /// The handle through which subscriptions and publications are requested.
    pub fn client(&self) -> (r: &AsyncClient)
        ensures
            *r == self.spec_client(),
    {
        &self.client
    }

    /// The event loop, to be polled for the next event. Whatever polling does
    /// to it stays in this client; the rest of the client is left as it was.
    pub fn event_loop(&mut self) -> (r: &mut EventLoop)
        ensures
            *r == old(self).spec_event_loop(),
            final(self).spec_event_loop() == *final(r),
            final(self).spec_client() == old(self).spec_client(),
            final(self).handlers() == old(self).handlers(),
            final(self).spec_handler_count() == old(self).spec_handler_count(),
    {
        &mut self.event_loop
    }

    /// The number of handlers added so far.
    pub fn handler_count(&self) -> (r: usize)
        ensures
            r == self.spec_handler_count(),
    {
        self.handlers.count()
    }

    /// Adds a handler for `topic` and returns its id, the number of handlers
    /// added before it; it runs after those already added for the topic.
    pub fn add_handler(&mut self, topic: String) -> (r: usize)
        requires
            old(self).spec_handler_count() < usize::MAX,
        ensures
            r == old(self).spec_handler_count(),
            final(self).spec_handler_count() == old(self).spec_handler_count() + 1,
            final(self).handlers() == old(self).handlers().insert(
                topic@,
                if old(self).handlers().contains_key(topic@) {
                    old(self).handlers()[topic@].push(r)
                } else {
                    seq![r]
                },
            ),
    {
        self.handlers.add(topic)
    }

    /// What the event loop does with one event: a publication runs the
    /// handlers of its topic, in the order they were added (none where there
    /// are none); a disconnection ends the loop; anything else is passed over.
    pub fn on_event(&self, event: &MqttEvent) -> (r: ClientAction)
        ensures
            match event {
                MqttEvent::Publish(t) => r matches ClientAction::Dispatch(ids) && ids@ == if self.handlers().contains_key(t@) {
                    self.handlers()[t@]
                } else {
                    Seq::empty()
                },
                MqttEvent::Disconnect => r is Finish,
                _ => r is Continue,
            },
            r matches ClientAction::Dispatch(ids) ==> forall|k: int|
                0 <= k < ids@.len() ==> ids@[k] < self.spec_handler_count(),
    {
        match event {
            MqttEvent::Publish(topic) => ClientAction::Dispatch(self.handlers.for_topic(topic)),
            MqttEvent::Connect(_) => ClientAction::Continue,
            MqttEvent::Disconnect => ClientAction::Finish,
            MqttEvent::Other => ClientAction::Continue,
        }
    }
}

} // verus!
