//! Producer options and producer construction.

use vstd::prelude::*;

use crate::resolver::{outcome, HttpResolver, NsResolver, PassthroughResolver, ResolveError};
use crate::selector::{next_count, RoundRobinQueueSelector};

verus! {

/// Why a producer could not be configured or built.
#[derive(Debug, Clone, Copy, PartialEq, Eq, Structural)]
pub enum Error {
    /// The initial resolve failed.
    Resolve(ResolveError),
    /// An option was given a value it cannot take.
    Configuration,
}

/// The outcome of a pull.
#[derive(Debug, Clone, Copy, PartialEq, Eq, Structural)]
pub enum PullStatus {
    Found,
    NoNewMsg,
    NoMsgMatched,
    OffsetIllegal,
    BrokerTimeout,
}

impl PullStatus {
    /// The number that stands for the status on the wire.
    pub fn code(&self) -> (r: i32)
        ensures
            r == match *self {
                PullStatus::Found => 0i32,
                PullStatus::NoNewMsg => 1i32,
                PullStatus::NoMsgMatched => 2i32,
                PullStatus::OffsetIllegal => 3i32,
                PullStatus::BrokerTimeout => 4i32,
            },
    {
        match self {
            PullStatus::Found => 0,
            PullStatus::NoNewMsg => 1,
            PullStatus::NoMsgMatched => 2,
            PullStatus::OffsetIllegal => 3,
            PullStatus::BrokerTimeout => 4,
        }
    }

    /// The consume cursor must be reset before pulling again.
    pub fn requires_offset_reset(&self) -> (r: bool)
        ensures
            r == (*self == PullStatus::OffsetIllegal),
    {
        matches!(self, PullStatus::OffsetIllegal)
    }

    /// The same pull may be tried again.
    pub fn is_retryable(&self) -> (r: bool)
        ensures
            r == (*self == PullStatus::BrokerTimeout),
    {
        matches!(self, PullStatus::BrokerTimeout)
    }

    /// A normal poll that brought no message.
    pub fn is_empty_poll(&self) -> (r: bool)
        ensures
            r == (*self == PullStatus::NoNewMsg || *self == PullStatus::NoMsgMatched),
    {
        matches!(self, PullStatus::NoNewMsg | PullStatus::NoMsgMatched)
    }
}

/// What a pull brought back.
#[derive(Debug, Clone)]
pub struct PullResult {
    pub next_begin_offset: i64,
    pub min_offset: i64,
    pub max_offset: i64,
    pub status: PullStatus,
    pub suggest_which_broker_id: i64,
    /// The decoded messages, each as its bytes.
    pub message_exts: Vec<Vec<u8>>,
    /// What is left of the response body.
    pub body: Vec<u8>,
}

/// Send timeout, in milliseconds, where none is set.
pub const DEFAULT_SEND_MSG_TIMEOUT_MS: u64 = 3000;

/// Queue count of topics created on first send, where none is set.
pub const DEFAULT_TOPIC_QUEUE_NUMS: usize = 4;

/// How a producer is set up. Every field has a default and can be set on
/// its own.
#[derive(Debug)]
pub struct ProducerOptions {
    pub selector: RoundRobinQueueSelector,
    /// Send timeout in milliseconds.
    pub send_msg_timeout: u64,
    pub default_topic_queue_nums: usize,
    pub create_topic_key: String,
    pub resolver: NsResolver,
}

impl ProducerOptions {
    /// The options of a freshly built value.
    pub open spec fn is_default(&self) -> bool {
        &&& self.selector.wf()
        &&& self.selector@ == Map::<Seq<char>, u64>::empty()
        &&& self.send_msg_timeout == DEFAULT_SEND_MSG_TIMEOUT_MS
        &&& self.default_topic_queue_nums == DEFAULT_TOPIC_QUEUE_NUMS
        &&& self.create_topic_key@ == "TBW102"@
        &&& self.resolver matches NsResolver::Http(h) && h.cluster@ == "DEFAULT"@ && h.domain@
            == "DEFAULT"@
    }

    /// Whether the options can serve a producer.
    pub open spec fn wf(&self) -> bool {
        self.selector.wf() && self.default_topic_queue_nums > 0
    }

    pub fn new() -> (r: Self)
        ensures
            r.is_default(),
            r.wf(),
    {
        ProducerOptions {
            selector: RoundRobinQueueSelector::new(),
            send_msg_timeout: DEFAULT_SEND_MSG_TIMEOUT_MS,
            default_topic_queue_nums: DEFAULT_TOPIC_QUEUE_NUMS,
            create_topic_key: String::from_str("TBW102"),
            resolver: NsResolver::Http(HttpResolver::new(String::from_str("DEFAULT"))),
        }
    }

    pub fn set_send_msg_timeout(&mut self, timeout: u64)
        ensures
            *final(self) == (ProducerOptions { send_msg_timeout: timeout, ..*old(self) }),
    {
        self.send_msg_timeout = timeout;
    }

    /// Sets the queue count of topics created on first send; zero is
    /// refused with `Configuration` and leaves the options as they were.
    pub fn set_default_topic_queue_nums(&mut self, queue_nums: usize) -> (r: Result<(), Error>)
        ensures
            queue_nums == 0 ==> r == Err::<(), Error>(Error::Configuration) && *final(self)
                == *old(self),
            queue_nums > 0 ==> r is Ok && *final(self) == (ProducerOptions {
                default_topic_queue_nums: queue_nums,
                ..*old(self)
            }),
    {
        if queue_nums == 0 {
            return Err(Error::Configuration);
        }
        self.default_topic_queue_nums = queue_nums;
        Ok(())
    }

    pub fn set_create_topic_key(&mut self, key: &str)
        ensures
            final(self).create_topic_key@ == key@,
            *final(self) == (ProducerOptions {
                create_topic_key: final(self).create_topic_key,
                ..*old(self)
            }),
    {
        self.create_topic_key = String::from_str(key);
    }

    pub fn set_resolver(&mut self, resolver: NsResolver)
        ensures
            *final(self) == (ProducerOptions { resolver, ..*old(self) }),
    {
        self.resolver = resolver;
    }

    /// Resolves through the fixed list `addrs`, with the default discovery
    /// endpoint behind it for when the list is empty.
    pub fn set_name_server(&mut self, addrs: Vec<String>)
        ensures
            final(self).resolver matches NsResolver::Passthrough(p) && p.addrs == addrs
                && p.fallback.cluster@ == "DEFAULT"@ && p.fallback.domain@ == "DEFAULT"@,
            *final(self) == (ProducerOptions { resolver: final(self).resolver, ..*old(self) }),
    {
        self.resolver =
        NsResolver::Passthrough(
            PassthroughResolver::new(addrs, HttpResolver::new(String::from_str("DEFAULT"))),
        );
    }

    /// Resolves by asking the discovery endpoint at `url` about the default
    /// cluster.
    pub fn set_name_server_domain(&mut self, url: &str)
        ensures
            final(self).resolver matches NsResolver::Http(h) && h.cluster@ == "DEFAULT"@
                && h.domain@ == url@,
            *final(self) == (ProducerOptions { resolver: final(self).resolver, ..*old(self) }),
    {
        self.resolver =
        NsResolver::Http(
            HttpResolver::with_domain(String::from_str("DEFAULT"), String::from_str(url)),
        );
    }
}

impl Default for ProducerOptions {
    fn default() -> (r: Self)
        ensures
            r.is_default(),
            r.wf(),
    {
        ProducerOptions::new()
    }
}

/// Sends messages to topics, routed through its options' resolver and
/// selector.
#[derive(Debug)]
pub struct Producer {
    group: String,
    options: ProducerOptions,
    /// The broker addresses of the initial resolve.
    name_servers: Vec<String>,
    /// Topics published to, each with the queue count of its routing info;
    /// zero where that info is stale.
    routes: Vec<(String, usize)>,
}

impl Producer {
    /// A producer of `group` with default options; `discovered` is what the
    /// default discovery endpoint answered.
    pub fn new(group: &str, discovered: Result<Vec<String>, ResolveError>) -> (r: Result<
        Self,
        Error,
    >)
        ensures
            match (r, discovered) {
                (Ok(p), Ok(addrs)) => p.spec_group() == group@ && p.spec_options().is_default()
                    && p.spec_name_servers() == addrs@ && p.topics() == Seq::<Seq<char>>::empty()
                    && p.wf(),
                (Err(e), Err(d)) => e == Error::Resolve(d),
                _ => false,
            },
    {
        Self::with_options(group, ProducerOptions::new(), discovered)
    }

    /// A producer of `group` with `options`. The initial resolve happens
    /// here: `discovered` is what the options' discovery target answered
    /// (ignored where the resolver has a fixed list). A zero queue count is
    /// refused with `Configuration`; where the resolve fails, so does the
    /// construction.
    pub fn with_options(
        group: &str,
        options: ProducerOptions,
        discovered: Result<Vec<String>, ResolveError>,
    ) -> (r: Result<Self, Error>)
        requires
            options.selector.wf(),
        ensures
            options.default_topic_queue_nums == 0 ==> r == Err::<Self, Error>(
                Error::Configuration,
            ),
            options.default_topic_queue_nums > 0 ==> match (
                r,
                options.resolver.resolved(outcome(discovered)),
            ) {
                (Ok(p), Ok(addrs)) => p.spec_group() == group@ && p.spec_options() == options
                    && p.spec_name_servers() == addrs && p.wf() && p.topics() == Seq::<Seq<char>>::empty(),
                (Err(e), Err(d)) => e == Error::Resolve(d),
                _ => false,
            },
    {
        if options.default_topic_queue_nums == 0 {
            return Err(Error::Configuration);
        }
        match options.resolver.resolve_with(discovered) {
            Err(e) => Err(Error::Resolve(e)),
            Ok(addrs) => {
                let p = Producer {
                    group: String::from_str(group),
                    options,
                    name_servers: addrs,
                    routes: Vec::new(),
                };
                assert(p.topics() =~= Seq::<Seq<char>>::empty());
                Ok(p)
            },
        }
    }

    /// Its options can serve it and each topic has one route.
    pub closed spec fn wf(&self) -> bool {
        self.options.wf() && self.routes_wf()
    }

    /// The producer group.
    pub closed spec fn spec_group(&self) -> Seq<char> {
        self.group@
    }

    /// The options it was built with, with the selector's counters as they
    /// are now.
    pub closed spec fn spec_options(&self) -> ProducerOptions {
        self.options
    }

    /// The broker addresses of the initial resolve.
    pub closed spec fn spec_name_servers(&self) -> Seq<String> {
        self.name_servers@
    }

    pub fn group(&self) -> (r: &String)
        ensures
            r@ == self.spec_group(),
    {
        &self.group
    }

    pub fn options(&self) -> (r: &ProducerOptions)
        ensures
            *r == self.spec_options(),
    {
        &self.options
    }

    pub fn name_servers(&self) -> (r: &Vec<String>)
        ensures
            r@ == self.spec_name_servers(),
    {
        &self.name_servers
    }

    /// Each topic has one entry.
    pub closed spec fn routes_wf(&self) -> bool {
        forall|i: int, j: int|
            0 <= i < j < self.routes@.len() ==> self.routes@[i].0@ != self.routes@[j].0@
    }

    /// The topics published to, in the order they were first seen.
    pub closed spec fn topics(&self) -> Seq<Seq<char>> {
        self.routes@.map_values(|e: (String, usize)| e.0@)
    }

    /// The queue count known for `topic`; zero where none is known or it is
    /// stale.
    pub closed spec fn queue_count_of(&self, topic: Seq<char>) -> usize {
        if exists|i: int| 0 <= i < self.routes@.len() && self.routes@[i].0@ == topic {
            self.routes@[choose|i: int| 0 <= i < self.routes@.len() && self.routes@[i].0@ == topic].1
        } else {
            0
        }
    }

    /// The topics this producer publishes to.
    pub fn publish_topic_list(&self) -> (r: Vec<String>)
        ensures
            r@.map_values(|s: String| s@) == self.topics(),
    {
        let mut out: Vec<String> = Vec::new();
        let mut i: usize = 0;
        while i < self.routes.len()
            invariant
                i <= self.routes@.len(),
                out@.map_values(|s: String| s@) == self.topics().subrange(0, i as int),
            decreases self.routes@.len() - i,
        {
            let ghost prev = out@;
            out.push(self.routes[i].0.clone());
            proof {
                assert(out@.map_values(|s: String| s@) =~= prev.map_values(|s: String| s@).push(
                    self.routes@[i as int].0@,
                ));
                assert(self.topics().subrange(0, i + 1) =~= self.topics().subrange(
                    0,
                    i as int,
                ).push(self.routes@[i as int].0@));
            }
            i = i + 1;
        }
        assert(self.topics().subrange(0, self.routes@.len() as int) =~= self.topics());
        out
    }

    /// Whether the routing info of `topic` must be fetched before a send:
    /// where none is known, or it is stale.
    pub fn is_publish_topic_need_update(&self, topic: &str) -> (r: bool)
        requires
            self.wf(),
        ensures
            r == (self.queue_count_of(topic@) == 0),
    {
        match self.find_route(topic) {
            None => true,
            Some(i) => self.routes[i].1 == 0,
        }
    }

    /// Where `topic` stands in the routes, if anywhere.
    fn find_route(&self, topic: &str) -> (r: Option<usize>)
        requires
            self.routes_wf(),
        ensures
            match r {
                None => forall|i: int|
                    0 <= i < self.routes@.len() ==> self.routes@[i].0@ != topic@,
                Some(i) => i < self.routes@.len() && self.routes@[i as int].0@ == topic@
                    && self.queue_count_of(topic@) == self.routes@[i as int].1,
            },
    {
        let t = String::from_str(topic);
        let mut i: usize = 0;
        while i < self.routes.len()
            invariant
                i <= self.routes@.len(),
                forall|k: int| 0 <= k < i ==> self.routes@[k].0@ != topic@,
                t@ == topic@,
                self.routes_wf(),
            decreases self.routes@.len() - i,
        {
            if self.routes[i].0 == t {
                proof {
                    self.lemma_count_at(i as int);
                }
                return Some(i);
            }
            i = i + 1;
        }
        None
    }

    /// Records fresh routing info for `topic`: `queue_count` queues. Zero
    /// marks it stale. The topic joins the publish list if it was not on it.
    pub fn update_topic_publish_info(&mut self, topic: &str, queue_count: usize)
        requires
            old(self).wf(),
        ensures
            final(self).wf(),
            final(self).queue_count_of(topic@) == queue_count,
            forall|t: Seq<char>|
                t != topic@ ==> #[trigger] final(self).queue_count_of(t) == old(self).queue_count_of(t),
            old(self).topics().contains(topic@) ==> final(self).topics() == old(self).topics(),
            !old(self).topics().contains(topic@) ==> final(self).topics() == old(self).topics().push(topic@),
            final(self).spec_group() == old(self).spec_group(),
            final(self).spec_options() == old(self).spec_options(),
            final(self).spec_name_servers() == old(self).spec_name_servers(),
    {
        let ghost before = *self;
        match self.find_route(topic) {
            Some(i) => {
                let t = String::from_str(topic);
                self.routes.set(i, (t, queue_count));
                proof {
                    assert(before.topics()[i as int] == topic@);
                    assert(self.topics() =~= before.topics());
                    assert(self.routes_wf()) by {
                        assert forall|a: int, b: int|
                            0 <= a < b < self.routes@.len() implies self.routes@[a].0@
                            != self.routes@[b].0@ by {
                            assert(before.routes@[a].0@ != before.routes@[b].0@);
                        }
                    }
                    self.lemma_count_at(i as int);
                    assert forall|t: Seq<char>| t != topic@ implies #[trigger] self.queue_count_of(t)
                        == before.queue_count_of(t) by {
                        self.lemma_count_frame(before, t, i as int);
                    }
                }
            },
            None => {
                let t = String::from_str(topic);
                self.routes.push((t, queue_count));
                proof {
                    assert(self.topics() =~= before.topics().push(topic@));
                    assert(!before.topics().contains(topic@)) by {
                        if before.topics().contains(topic@) {
                            let k = choose|k: int|
                                0 <= k < before.topics().len() && before.topics()[k] == topic@;
                            assert(before.routes@[k].0@ == topic@);
                        }
                    }
                    assert(self.routes_wf()) by {
                        assert forall|a: int, b: int|
                            0 <= a < b < self.routes@.len() implies self.routes@[a].0@
                            != self.routes@[b].0@ by {
                            if b < before.routes@.len() {
                                assert(before.routes@[a].0@ != before.routes@[b].0@);
                            }
                        }
                    }
                    self.lemma_count_at(before.routes@.len() as int);
                    assert forall|t: Seq<char>| t != topic@ implies #[trigger] self.queue_count_of(t)
                        == before.queue_count_of(t) by {
                        self.lemma_count_frame(before, t, before.routes@.len() as int);
                    }
                }
            },
        }
    }

    proof fn lemma_count_at(&self, i: int)
        requires
            self.routes_wf(),
            0 <= i < self.routes@.len(),
        ensures
            self.queue_count_of(self.routes@[i].0@) == self.routes@[i].1,
    {
        let t = self.routes@[i].0@;
        assert(0 <= i < self.routes@.len() && self.routes@[i].0@ == t);
        let j = choose|j: int| 0 <= j < self.routes@.len() && self.routes@[j].0@ == t;
        assert(i == j);
    }

    /// Changing or adding entry `i` leaves the counts of other topics alone.
    proof fn lemma_count_frame(&self, before: Self, t: Seq<char>, i: int)
        requires
            self.routes_wf(),
            before.routes_wf(),
            0 <= i < self.routes@.len(),
            self.routes@[i].0@ != t,
            self.routes@.len() == before.routes@.len() || self.routes@.len() == before.routes@.len()
                + 1,
            self.routes@.len() == before.routes@.len() + 1 ==> i == before.routes@.len(),
            forall|k: int| 0 <= k < before.routes@.len() && k != i ==> self.routes@[k] == before.routes@[k],
            i < before.routes@.len() ==> before.routes@[i].0@ == self.routes@[i].0@,
        ensures
            self.queue_count_of(t) == before.queue_count_of(t),
    {
        if exists|k: int| 0 <= k < before.routes@.len() && before.routes@[k].0@ == t {
            let k = choose|k: int| 0 <= k < before.routes@.len() && before.routes@[k].0@ == t;
            before.lemma_count_at(k);
            self.lemma_count_at(k);
        } else if exists|k: int| 0 <= k < self.routes@.len() && self.routes@[k].0@ == t {
            let k = choose|k: int| 0 <= k < self.routes@.len() && self.routes@[k].0@ == t;
            assert(before.routes@[k].0@ == t);
        }
    }

    /// The queue of `topic` to send to next, out of `queue_count`, by the
    /// options' selector.
    pub fn select_queue(&mut self, topic: &str, queue_count: usize) -> (r: usize)
        requires
            old(self).wf(),
            queue_count > 0,
        ensures
            final(self).wf(),
            r == old(self).spec_options().selector.count_of(topic@) % (queue_count as u64),
            final(self).spec_options().selector@ == old(self).spec_options().selector@.insert(
                topic@,
                next_count(old(self).spec_options().selector.count_of(topic@)),
            ),
            final(self).spec_options() == (ProducerOptions {
                selector: final(self).spec_options().selector,
                ..old(self).spec_options()
            }),
            final(self).spec_group() == old(self).spec_group(),
            final(self).spec_name_servers() == old(self).spec_name_servers(),
            final(self).topics() == old(self).topics(),
            forall|t: Seq<char>| #[trigger]
                final(self).queue_count_of(t) == old(self).queue_count_of(t),
    {
        let r = self.options.selector.select(topic, queue_count);
        r
    }
}

} // verus!
