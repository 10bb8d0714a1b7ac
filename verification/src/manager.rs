//! The pool of shards: it makes them, gathers what they receive into one
//! stream for the consumer, and routes what the consumer sends to the shard
//! that is addressed.

use crate::codec::EncodeError;
use crate::gatewaymessage::{ReceivedGatewayMessage, SendGatewayMessage};
use crate::shard::{
    add_query_params, address_spec, drained, enqueued, established, fresh, handled, refused,
    ClosureOutcome, Frame, HandshakeError, MessageError, Reaction, WebSocketShard,
};
use std::collections::HashMap;
use vstd::prelude::*;
use vstd::string::StringExecFns;

verus! {

/// What became of a message that was to be sent.
#[derive(Debug, Clone, Copy, PartialEq, Eq)]
pub enum WSSendResult {
    /// The message is in the queue of its shard.
    Sent,
    /// No shard has the number that the message names.
    ShardMissing,
}

/// Why the pool could not be set up from what the gateway told.
#[derive(Debug, Clone, Copy, PartialEq, Eq)]
pub enum ClientConnectError {
    /// The answer holds no URL.
    MissingUrl,
    /// The answer holds no count of shards.
    MissingShards,
    /// The URL gives no address for a shard.
    Handshake(HandshakeError),
}

/// What became of a frame that a socket handed in.
#[derive(Debug, PartialEq, Eq)]
pub enum Delivery {
    /// Nothing to do: read on.
    Waiting,
    /// A message was added to the stream for the consumer.
    Published,
    /// One message is lost; note the error and read on.
    Discarded(MessageError),
    /// The connection is given up; note the error and stop.
    Aborted(MessageError),
    /// The remote side has closed the connection: stop.
    Terminated,
    /// No shard has that number.
    ShardMissing,
}

/// The pool of shards, each under its number. The numbers in use are those
/// below the count of shards.
pub struct WebsocketManager {
    gateway: String,
    shards: HashMap<u64, WebSocketShard>,
    inbound: Vec<ReceivedGatewayMessage>,
}

/// Whether two pools of shards have the same numbers in use and differ at
/// most in the shard with number `at`.
pub open spec fn same_but(
    a: Map<u64, WebSocketShard>,
    b: Map<u64, WebSocketShard>,
    at: u64,
) -> bool {
    &&& a.dom() == b.dom()
    &&& forall|id: u64| a.contains_key(id) && id != at ==> #[trigger] a[id] == b[id]
}

impl WebsocketManager {
    /// The URL of the gateway, as far as it is known.
    pub closed spec fn gateway(&self) -> Seq<char> {
        self.gateway@
    }

    /// The shards, by number.
    pub closed spec fn shards(&self) -> Map<u64, WebSocketShard> {
        self.shards@
    }

    /// The messages that were received and not yet fetched, oldest first.
    pub closed spec fn inbox(&self) -> Seq<ReceivedGatewayMessage> {
        self.inbound@
    }

    /// The numbers in use are those below the count of shards, and every
    /// shard is sound and knows the number that it stands under.
    pub open spec fn well_formed(&self) -> bool {
        &&& self.shards().dom().finite()
        &&& forall|id: u64| #[trigger] self.shards().contains_key(id) <==> id < self.shards().len()
        &&& forall|id: u64| #[trigger]
            self.shards().contains_key(id) ==> self.shards()[id].well_formed()
                && self.shards()[id].id() == id
    }

    /// A pool without shards.
    pub fn new() -> (r: WebsocketManager)
        ensures
            r.well_formed(),
            r.gateway() == Seq::<char>::empty(),
            r.shards() == Map::<u64, WebSocketShard>::empty(),
            r.inbox() == Seq::<ReceivedGatewayMessage>::empty(),
    {
        broadcast use vstd::std_specs::hash::group_hash_axioms;

        WebsocketManager { gateway: String::new(), shards: HashMap::new(), inbound: Vec::new() }
    }

    /// How many shards there are.
    pub fn shard_count(&self) -> (r: usize)
        ensures
            r == self.shards().len(),
    {
        broadcast use vstd::std_specs::hash::group_hash_axioms;

        self.shards.len()
    }

    /// The address that a shard connects to.
    pub fn shard_address(&self, shard_id: u64) -> (r: Option<&str>)
        ensures
            match r {
                Some(a) => self.shards().contains_key(shard_id) && a@ == self.shards()[shard_id]
                    .address(),
                None => !self.shards().contains_key(shard_id),
            },
    {
        broadcast use vstd::std_specs::hash::group_hash_axioms;

        match self.shards.get(&shard_id) {
            Some(shard) => Some(shard.get_address()),
            None => None,
        }
    }

    /// Adds a shard for the gateway at `url`. The new shard gets the next
    /// number, which is the count of shards so far.
    pub fn add_shard(&mut self, url: &str) -> (r: Result<u64, HandshakeError>)
        requires
            old(self).well_formed(),
        ensures
            final(self).well_formed(),
            final(self).gateway() == old(self).gateway(),
            final(self).inbox() == old(self).inbox(),
            match r {
                Ok(id) => {
                    &&& id == old(self).shards().len()
                    &&& address_spec(url@) matches Ok(address)
                    &&& final(self).shards().len() == old(self).shards().len() + 1
                    &&& final(self).shards() == old(self).shards().insert(
                        id,
                        final(self).shards()[id],
                    )
                    &&& fresh(final(self).shards()[id], id, address)
                },
                Err(e) => {
                    &&& address_spec(url@) == Err::<Seq<char>, HandshakeError>(e)
                    &&& final(self).shards() == old(self).shards()
                },
            },
    {
        broadcast use vstd::std_specs::hash::group_hash_axioms;

        let address = match add_query_params(url) {
            Ok(a) => a,
            Err(e) => {
                return Err(e);
            },
        };
        let id: u64 = self.shards.len() as u64;
        let shard = WebSocketShard::new(id, address);
        self.shards.insert(id, shard);
        assert(!old(self).shards().contains_key(id));
        assert(self.shards().dom() =~= old(self).shards().dom().insert(id));
        assert(self.shards().len() == old(self).shards().len() + 1);
        Ok(id)
    }

    /// Sets the pool up from what the gateway told: its URL and how many
    /// shards it recommends. The URL is kept even where the count is missing.
    /// A count below one adds no shard.
    pub fn connect(&mut self, url: Option<&str>, shards: Option<i64>) -> (r: Result<
        u64,
        ClientConnectError,
    >)
        requires
            old(self).well_formed(),
        ensures
            set_up(
                *old(self),
                match url {
                    Some(u) => Some(u@),
                    None => None,
                },
                shards,
                *final(self),
                r,
            ),
    {
        let base = match url {
            Some(u) => u,
            None => {
                return Err(ClientConnectError::MissingUrl);
            },
        };
        self.gateway = String::from_str(base);
        assert(self.shards() == old(self).shards());
        assert(self.well_formed());
        let wanted = match shards {
            Some(n) => n,
            None => {
                return Err(ClientConnectError::MissingShards);
            },
        };
        let ghost before = self.shards@;
        let mut added: i64 = 0;
        while added < wanted
            invariant
                self.well_formed(),
                self.gateway@ == base@,
                self.inbound@ == old(self).inbound@,
                before == old(self).shards@,
                0 <= added,
                url == Some(base),
                shards == Some(wanted),
                wanted > 0 ==> added <= wanted,
                wanted <= 0 ==> added == 0,
                added == 0 ==> self.shards@ == before,
                self.shards@.len() == before.len() + added,
                forall|id: u64| #[trigger]
                    before.contains_key(id) ==> self.shards@.contains_key(id)
                        && self.shards@[id] == before[id],
                added > 0 ==> address_spec(base@) is Ok,
                forall|id: u64|
                    before.len() <= id < self.shards@.len() ==> fresh(
                        #[trigger] self.shards@[id],
                        id,
                        address_spec(base@)->Ok_0,
                    ),
            decreases wanted - added,
        {
            let ghost so_far = self.shards@;
            match self.add_shard(base) {
                Ok(id) => {
                    assert forall|k: u64| #[trigger] before.contains_key(k) implies self.shards@
                        .contains_key(k) && self.shards@[k] == before[k] by {
                        assert(so_far.contains_key(k));
                        assert(k != id);
                    }
                    assert forall|k: u64| before.len() <= k < self.shards@.len() implies fresh(
                        #[trigger] self.shards@[k],
                        k,
                        address_spec(base@)->Ok_0,
                    ) by {
                        if k != id {
                            assert(so_far.contains_key(k));
                            assert(self.shards@[k] == so_far[k]);
                        }
                    }
                },
                Err(e) => {
                    return Err(ClientConnectError::Handshake(e));
                },
            }
            added = added + 1;
        }
        if wanted <= 0 {
            Ok(0)
        } else {
            Ok(wanted as u64)
        }
    }

    /// Notes that the handshake of a shard has succeeded.
    pub fn established(&mut self, shard_id: u64) -> (known: bool)
        requires
            old(self).well_formed(),
        ensures
            final(self).well_formed(),
            final(self).gateway() == old(self).gateway(),
            final(self).inbox() == old(self).inbox(),
            known == old(self).shards().contains_key(shard_id),
            !known ==> final(self).shards() == old(self).shards(),
            known ==> same_but(final(self).shards(), old(self).shards(), shard_id) && established(
                old(self).shards()[shard_id],
                final(self).shards()[shard_id],
            ),
    {
        broadcast use vstd::std_specs::hash::group_hash_axioms;

        match self.shards.remove(&shard_id) {
            None => {
                assert(self.shards@ =~= old(self).shards@);
                false
            },
            Some(shard) => {
                let mut shard = shard;
                shard.connect();
                self.shards.insert(shard_id, shard);
                proof {
                    self.lemma_put_back(*old(self), shard_id);
                }
                true
            },
        }
    }

    /// Notes that the handshake of a shard has failed, and hands the failure
    /// out. Nothing is handed out for a shard that is not there or that was
    /// not connecting.
    pub fn failed(&mut self, shard_id: u64) -> (r: Option<HandshakeError>)
        requires
            old(self).well_formed(),
        ensures
            final(self).well_formed(),
            final(self).gateway() == old(self).gateway(),
            final(self).inbox() == old(self).inbox(),
            !old(self).shards().contains_key(shard_id) ==> r is None && final(self).shards()
                == old(self).shards(),
            old(self).shards().contains_key(shard_id) ==> same_but(
                final(self).shards(),
                old(self).shards(),
                shard_id,
            ) && refused(old(self).shards()[shard_id], final(self).shards()[shard_id], r),
    {
        broadcast use vstd::std_specs::hash::group_hash_axioms;

        match self.shards.remove(&shard_id) {
            None => {
                assert(self.shards@ =~= old(self).shards@);
                None
            },
            Some(shard) => {
                let mut shard = shard;
                let r = shard.failed();
                self.shards.insert(shard_id, shard);
                proof {
                    self.lemma_put_back(*old(self), shard_id);
                }
                r
            },
        }
    }

    /// Fetches everything that was received since the last time. Nothing is
    /// waited for, and what was fetched is not given again.
    pub fn get_messages(&mut self) -> (r: Vec<ReceivedGatewayMessage>)
        ensures
            fetched(*old(self), *final(self), r@),
    {
        let mut messages: Vec<ReceivedGatewayMessage> = Vec::new();
        messages.append(&mut self.inbound);
        assert(messages@ =~= old(self).inbound@);
        messages
    }

    /// Puts a message into the queue of the shard that it names. Where no
    /// shard has that number, nothing changes.
    pub fn send(&mut self, message: SendGatewayMessage) -> (r: WSSendResult)
        requires
            old(self).well_formed(),
        ensures
            final(self).well_formed(),
            final(self).gateway() == old(self).gateway(),
            final(self).inbox() == old(self).inbox(),
            !old(self).shards().contains_key(message.shard_id) ==> r == WSSendResult::ShardMissing
                && final(self).shards() == old(self).shards(),
            old(self).shards().contains_key(message.shard_id) ==> {
                &&& r == WSSendResult::Sent
                &&& same_but(final(self).shards(), old(self).shards(), message.shard_id)
                &&& enqueued(
                    old(self).shards()[message.shard_id],
                    message,
                    final(self).shards()[message.shard_id],
                )
            },
    {
        broadcast use vstd::std_specs::hash::group_hash_axioms;

        let shard_id: u64 = message.shard_id;
        match self.shards.remove(&shard_id) {
            None => {
                assert(self.shards@ =~= old(self).shards@);
                WSSendResult::ShardMissing
            },
            Some(shard) => {
                let mut shard = shard;
                shard.send(message);
                self.shards.insert(shard_id, shard);
                proof {
                    self.lemma_put_back(*old(self), shard_id);
                }
                WSSendResult::Sent
            },
        }
    }

    /// Empties the queue of a shard and gives what is to be written on its
    /// socket, message by message.
    pub fn outgoing(&mut self, shard_id: u64) -> (r: Option<Vec<Result<Vec<u8>, EncodeError>>>)
        requires
            old(self).well_formed(),
        ensures
            final(self).well_formed(),
            final(self).gateway() == old(self).gateway(),
            final(self).inbox() == old(self).inbox(),
            match r {
                None => !old(self).shards().contains_key(shard_id) && final(self).shards() == old(
                    self,
                ).shards(),
                Some(frames) => {
                    &&& old(self).shards().contains_key(shard_id)
                    &&& same_but(final(self).shards(), old(self).shards(), shard_id)
                    &&& drained(
                        old(self).shards()[shard_id],
                        final(self).shards()[shard_id],
                        frames@,
                    )
                },
            },
    {
        broadcast use vstd::std_specs::hash::group_hash_axioms;

        match self.shards.remove(&shard_id) {
            None => {
                assert(self.shards@ =~= old(self).shards@);
                None
            },
            Some(shard) => {
                let mut shard = shard;
                let frames = shard.drain_outbound();
                self.shards.insert(shard_id, shard);
                proof {
                    self.lemma_put_back(*old(self), shard_id);
                }
                Some(frames)
            },
        }
    }

    /// Takes a frame that the socket of a shard has read. A message that it
    /// completes is added to the stream for the consumer.
    pub fn deliver(&mut self, shard_id: u64, frame: Frame) -> (r: Delivery)
        requires
            old(self).well_formed(),
        ensures
            final(self).well_formed(),
            final(self).gateway() == old(self).gateway(),
            !old(self).shards().contains_key(shard_id) ==> r is ShardMissing && final(self).shards()
                == old(self).shards() && final(self).inbox() == old(self).inbox(),
            old(self).shards().contains_key(shard_id) ==> {
                &&& same_but(final(self).shards(), old(self).shards(), shard_id)
                &&& handled(
                    old(self).shards()[shard_id],
                    frame,
                    final(self).shards()[shard_id],
                    reaction_of(r, final(self).inbox()),
                )
                &&& !(r is ShardMissing)
                &&& final(self).inbox() == if r is Published {
                    old(self).inbox().push(final(self).inbox().last())
                } else {
                    old(self).inbox()
                }
            },
    {
        broadcast use vstd::std_specs::hash::group_hash_axioms;

        let reaction = match self.shards.remove(&shard_id) {
            None => {
                assert(self.shards@ =~= old(self).shards@);
                return Delivery::ShardMissing;
            },
            Some(shard) => {
                let mut shard = shard;
                let reaction = shard.handle_frame(frame);
                self.shards.insert(shard_id, shard);
                proof {
                    self.lemma_put_back(*old(self), shard_id);
                }
                reaction
            },
        };
        match reaction {
            Reaction::Wait => Delivery::Waiting,
            Reaction::Publish(message) => {
                self.inbound.push(message);
                Delivery::Published
            },
            Reaction::Discard(e) => Delivery::Discarded(e),
            Reaction::Abort(e) => Delivery::Aborted(e),
            Reaction::Terminate => Delivery::Terminated,
        }
    }

    /// A pool in which one shard was taken out and put back under its
    /// number, sound and knowing its number, is a sound pool with the same
    /// numbers in use.
    proof fn lemma_put_back(&self, before: WebsocketManager, at: u64)
        requires
            before.well_formed(),
            before.shards().contains_key(at),
            self.shards() == before.shards().remove(at).insert(at, self.shards()[at]),
            self.shards()[at].well_formed(),
            self.shards()[at].id() == at,
        ensures
            self.well_formed(),
            same_but(self.shards(), before.shards(), at),
    {
        assert(self.shards().dom() =~= before.shards().dom());
    }

    /// Whether every shard's connection is over.
    pub fn is_finished(&self) -> (r: bool)
        ensures
            r == forall|id: u64|
                self.shards().contains_key(id) ==> (#[trigger] self.shards()[id]).finished(),
    {
        broadcast use vstd::std_specs::hash::group_hash_axioms;

        let ghost all = self.shards@;
        let ghost mut seen: Seq<WebSocketShard> = Seq::empty();
        let mut over = true;
        for shard in it: self.shards.values()
            invariant
                all == self.shards@,
                it.seq().unref().to_set() == all.values(),
                seen =~= it.seq().unref().take(it.index()),
                it.index() == it.seq().len() ==> seen =~= it.seq().unref(),
                over == forall|i: int| 0 <= i < seen.len() ==> (#[trigger] seen[i]).finished(),
        {
            let ghost was = over;
            let ghost earlier = seen;
            if !shard.is_finished() {
                over = false;
            }
            proof {
                seen = earlier.push(*shard);
                if over {
                    assert forall|i: int| 0 <= i < seen.len() implies (#[trigger] seen[i])
                        .finished() by {
                        if i < earlier.len() {
                            assert(seen[i] == earlier[i]);
                        }
                    }
                } else if !was {
                    let w = choose|i: int|
                        0 <= i < earlier.len() && !(#[trigger] earlier[i]).finished();
                    assert(seen[w] == earlier[w]);
                    assert(!seen[w].finished());
                } else {
                    assert(!seen[earlier.len() as int].finished());
                }
            }
        }
        proof {
            assert(seen.to_set() == all.values());
            if over {
                assert forall|id: u64| self.shards().contains_key(id) implies (
                #[trigger] self.shards()[id]).finished() by {
                    assert(all.values().contains(all[id]));
                    assert(seen.contains(all[id]));
                }
            } else {
                let w = choose|i: int| 0 <= i < seen.len() && !(#[trigger] seen[i]).finished();
                assert(seen.to_set().contains(seen[w]));
                assert(all.values().contains(seen[w]));
                let id = choose|id: u64| all.contains_key(id) && all[id] == seen[w];
                assert(!self.shards()[id].finished());
            }
        }
        over
    }

    /// Gives up all shards and hands out, by number, how the connection of
    /// each ended.
    pub fn wait(&mut self) -> (r: Vec<ClosureOutcome>)
        requires
            old(self).well_formed(),
        ensures
            final(self).shards() == Map::<u64, WebSocketShard>::empty(),
            final(self).gateway() == old(self).gateway(),
            final(self).inbox() == old(self).inbox(),
            final(self).well_formed(),
            r@.len() == old(self).shards().len(),
            forall|i: int|
                0 <= i < r@.len() ==> #[trigger] r@[i] == old(self).shards()[i as u64].outcome(),
    {
        broadcast use vstd::std_specs::hash::group_hash_axioms;

        let mut results: Vec<ClosureOutcome> = Vec::new();
        let count: u64 = self.shards.len() as u64;
        let mut next: u64 = 0;
        while next < count
            invariant
                next <= count,
                count == old(self).shards@.len(),
                old(self).well_formed(),
                self.gateway@ == old(self).gateway@,
                self.inbound@ == old(self).inbound@,
                results@.len() == next,
                forall|id: u64| #[trigger] self.shards@.contains_key(id) <==> next <= id < count,
                forall|id: u64|
                    next <= id < count ==> #[trigger] self.shards@[id] == old(self).shards@[id],
                forall|i: int|
                    0 <= i < results@.len() ==> #[trigger] results@[i] == old(
                        self,
                    ).shards@[i as u64].outcome(),
            decreases count - next,
        {
            assert(self.shards@.contains_key(next));
            match self.shards.remove(&next) {
                Some(shard) => {
                    results.push(shard.wait());
                },
                None => {},
            }
            next = next + 1;
        }
        assert(self.shards@ =~= Map::<u64, WebSocketShard>::empty());
        results
    }
}

/// Whether `after` and `r` are what the gateway's answer makes of the pool
/// `before`.
///
/// Without a URL nothing changes. With one, the URL is kept; then the count
/// of shards must be there. A count below one adds no shard. Otherwise the
/// URL must give an address, and as many shards as were counted are added
/// under the numbers after those in use, each new and with that address.
pub open spec fn set_up(
    before: WebsocketManager,
    url: Option<Seq<char>>,
    shards: Option<i64>,
    after: WebsocketManager,
    r: Result<u64, ClientConnectError>,
) -> bool {
    &&& after.well_formed()
    &&& after.inbox() == before.inbox()
    &&& match url {
        None => r == Err::<u64, ClientConnectError>(ClientConnectError::MissingUrl)
            && after.gateway() == before.gateway() && after.shards() == before.shards(),
        Some(u) => after.gateway() == u && match shards {
            None => r == Err::<u64, ClientConnectError>(ClientConnectError::MissingShards)
                && after.shards() == before.shards(),
            Some(n) => if n <= 0 {
                r == Ok::<u64, ClientConnectError>(0) && after.shards() == before.shards()
            } else {
                match address_spec(u) {
                    Err(e) => r == Err::<u64, ClientConnectError>(ClientConnectError::Handshake(e))
                        && after.shards() == before.shards(),
                    Ok(address) => {
                        &&& r == Ok::<u64, ClientConnectError>(n as u64)
                        &&& after.shards().len() == before.shards().len() + n
                        &&& forall|id: u64| #[trigger]
                            before.shards().contains_key(id) ==> after.shards().contains_key(id)
                                && after.shards()[id] == before.shards()[id]
                        &&& forall|id: u64|
                            before.shards().len() <= id < after.shards().len() ==> fresh(
                                #[trigger] after.shards()[id],
                                id,
                                address,
                            )
                    },
                }
            },
        },
    }
}

/// Whether `after` and `messages` are what fetching makes of the pool
/// `before`: everything that was received and not yet fetched is handed out,
/// oldest first, and nothing else changes.
pub open spec fn fetched(
    before: WebsocketManager,
    after: WebsocketManager,
    messages: Seq<ReceivedGatewayMessage>,
) -> bool {
    &&& messages == before.inbox()
    &&& after.inbox() == Seq::<ReceivedGatewayMessage>::empty()
    &&& after.gateway() == before.gateway()
    &&& after.shards() == before.shards()
}

/// What was fetched is not given again: where nothing arrives between two
/// fetches, the second hands out nothing.
pub proof fn lemma_fetch_drains(
    a: WebsocketManager,
    first: Seq<ReceivedGatewayMessage>,
    b: WebsocketManager,
    second: Seq<ReceivedGatewayMessage>,
    c: WebsocketManager,
)
    requires
        fetched(a, b, first),
        fetched(b, c, second),
    ensures
        second == Seq::<ReceivedGatewayMessage>::empty(),
        c.shards() == a.shards(),
{
}

/// The reaction of a shard that a delivery stands for; the message of a
/// publication is the last one in the stream for the consumer.
pub open spec fn reaction_of(r: Delivery, inbox: Seq<ReceivedGatewayMessage>) -> Reaction {
    match r {
        Delivery::Waiting => Reaction::Wait,
        Delivery::Published => Reaction::Publish(inbox.last()),
        Delivery::Discarded(e) => Reaction::Discard(e),
        Delivery::Aborted(e) => Reaction::Abort(e),
        Delivery::Terminated => Reaction::Terminate,
        Delivery::ShardMissing => Reaction::Wait,
    }
}

} // verus!
