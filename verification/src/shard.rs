//! One shard's connection: its address, its queue of messages to send, and
//! what it does with each frame that the socket hands it.
//!
//! The socket itself is not here. Whoever owns it asks the shard what to
//! write, hands it every frame that was read, and does what the shard says.

use crate::codec::{decode_spec, encode_spec, EncodeError};
use crate::frame::DecodeError;
use crate::gatewaymessage::{
    message_term, parse_spec, ParseError, ReceivedGatewayMessage, ReceivedView,
    SendGatewayMessage,
};
use crate::term::TermView;
use crate::zlib::{ends_unit, Inflate, InflateError, OptionalResult};
use url::Url;
use vstd::prelude::*;
use vstd::utf8::encode_utf8;

verus! {

/// A URL of the `url` crate, opaque to the verifier.
#[verifier::external_type_specification]
#[verifier::external_body]
pub struct ExUrl(Url);

/// The text of a URL, as `Url::as_str` gives it.
pub uninterp spec fn serialized(u: Url) -> Seq<char>;

/// The text of the URL that `Url::parse` makes of a string, `None` where it
/// refuses the string.
pub uninterp spec fn url_parsed(text: Seq<char>) -> Option<Seq<char>>;

/// The text of a URL after a pair was appended to its query.
pub uninterp spec fn pair_appended(url: Seq<char>, key: Seq<char>, value: Seq<char>) -> Seq<char>;

/// The longest text, in bytes, that a URL can be: the `url` crate keeps its
/// offsets into the text in 32 bits.
pub const MAX_TEXT: u64 = 0xffff_ffff;

/// How long, in bytes, the text of a URL can get when a pair is appended to
/// its query: each byte of the key and of the value may be written as three,
/// a `?` or `&` is set before the pair and a `=` inside it.
pub open spec fn grown(url: Seq<char>, key: Seq<char>, value: Seq<char>) -> nat {
    encode_utf8(url).len() + 3 * (encode_utf8(key).len() + encode_utf8(value).len()) + 2
}

/// Why a shard gets no address.
#[derive(Debug, Clone, Copy, PartialEq, Eq)]
pub enum HandshakeError {
    /// The gateway's URL is not a URL.
    InvalidUrl,
    /// The address would grow beyond `MAX_TEXT`.
    AddressTooLong,
    /// The remote side did not take the connection.
    Refused,
}

/// Parses a URL with `Url::parse`. Its error is dropped.
#[verifier::external_body]
fn url_parse(text: &str) -> (r: Option<Url>)
    ensures
        match r {
            Some(u) => url_parsed(text@) == Some(serialized(u)),
            None => url_parsed(text@) is None,
        },
{
    Url::parse(text).ok()
}

/// Appends a pair to the query of a URL with `append_pair` on the URL's
/// `query_pairs_mut`. The text must have room to grow, because the crate
/// keeps its offsets into the text in 32 bits.
#[verifier::external_body]
fn url_append_pair(url: &mut Url, key: &str, value: &str)
    requires
        grown(serialized(*old(url)), key@, value@) <= MAX_TEXT,
    ensures
        serialized(*final(url)) == pair_appended(serialized(*old(url)), key@, value@),
{
    url.query_pairs_mut().append_pair(key, value);
}

/// Copies the text of a URL, which `Url::as_str` gives.
#[verifier::external_body]
fn url_text(url: &Url) -> (r: String)
    ensures
        r@ == serialized(*url),
{
    url.as_str().to_string()
}

/// The address with one more pair, unless it has no room to grow.
pub open spec fn with_pair(url: Seq<char>, key: Seq<char>, value: Seq<char>) -> Option<Seq<char>> {
    if grown(url, key, value) <= MAX_TEXT {
        Some(pair_appended(url, key, value))
    } else {
        None
    }
}

/// The address of a shard's connection: the gateway's URL with the
/// parameters `q=9`, `encoding=etf` and `compress=zlib-stream` appended to its
/// query, in this order.
pub open spec fn address_spec(gateway: Seq<char>) -> Result<Seq<char>, HandshakeError> {
    match url_parsed(gateway) {
        None => Err(HandshakeError::InvalidUrl),
        Some(base) => match with_pair(base, "q"@, "9"@) {
            None => Err(HandshakeError::AddressTooLong),
            Some(first) => match with_pair(first, "encoding"@, "etf"@) {
                None => Err(HandshakeError::AddressTooLong),
                Some(second) => match with_pair(second, "compress"@, "zlib-stream"@) {
                    None => Err(HandshakeError::AddressTooLong),
                    Some(third) => Ok(third),
                },
            },
        },
    }
}

/// Appends a pair to the query of a URL if the text has room to grow.
fn append_checked(url: &mut Url, key: &str, value: &str) -> (done: bool)
    ensures
        match with_pair(serialized(*old(url)), key@, value@) {
            Some(text) => done && serialized(*final(url)) == text,
            None => !done && serialized(*final(url)) == serialized(*old(url)),
        },
{
    let text = url_text(url);
    let parts: u128 = key.as_bytes().len() as u128 + value.as_bytes().len() as u128;
    let room: u128 = text.as_str().as_bytes().len() as u128 + 3 * parts + 2;
    if room <= MAX_TEXT as u128 {
        url_append_pair(url, key, value);
        true
    } else {
        false
    }
}

/// Builds the address of a shard's connection from the gateway's URL.
pub fn add_query_params(url: &str) -> (r: Result<String, HandshakeError>)
    ensures
        match r {
            Ok(address) => address_spec(url@) == Ok::<Seq<char>, HandshakeError>(address@),
            Err(e) => address_spec(url@) == Err::<Seq<char>, HandshakeError>(e),
        },
{
    let mut parsed = match url_parse(url) {
        Some(u) => u,
        None => {
            return Err(HandshakeError::InvalidUrl);
        },
    };
    if !append_checked(&mut parsed, "q", "9") {
        return Err(HandshakeError::AddressTooLong);
    }
    if !append_checked(&mut parsed, "encoding", "etf") {
        return Err(HandshakeError::AddressTooLong);
    }
    if !append_checked(&mut parsed, "compress", "zlib-stream") {
        return Err(HandshakeError::AddressTooLong);
    }
    Ok(url_text(&parsed))
}

/// Where a shard stands.
#[derive(Debug, Clone, Copy, PartialEq, Eq)]
pub enum WebsocketStatus {
    Ready,
    Connecting,
    Reconnecting,
    Idle,
    Nearly,
    Disconnected,
    WaitingForGuilds,
    Identifying,
    Resuming,
}

/// What the remote side said when it closed the connection.
#[derive(Debug, PartialEq, Eq)]
pub struct CloseData {
    pub status_code: u16,
    pub reason: String,
}

/// How the connection of a shard ended.
#[derive(Debug, PartialEq, Eq)]
pub enum ClosureOutcome {
    /// It has not ended.
    Open,
    /// The remote side closed it, with this payload if it sent one.
    Closed(Option<CloseData>),
    /// It was given up, because the compressed stream was out of step.
    GivenUp,
    /// It never stood: the handshake failed.
    Failed(HandshakeError),
}

/// A frame that was read from the socket.
#[derive(Debug, PartialEq, Eq)]
pub enum Frame {
    Binary(Vec<u8>),
    Close(Option<CloseData>),
    /// Any other kind of frame; it means nothing here.
    Other,
}

/// Why a unit of the stream gave no message.
#[derive(Debug, PartialEq, Eq)]
pub enum MessageError {
    Inflate(InflateError),
    Parse(ParseError),
}

/// What is to be done after a frame.
#[derive(Debug, PartialEq, Eq)]
pub enum Reaction {
    /// Nothing: read on.
    Wait,
    /// Hand the message to the consumer.
    Publish(ReceivedGatewayMessage),
    /// Note the error and read on: one message is lost.
    Discard(MessageError),
    /// Note the error and give the connection up: the stream is out of step.
    Abort(MessageError),
    /// The remote side has closed the connection: stop.
    Terminate,
}

/// One shard's connection.
pub struct WebSocketShard {
    id: u64,
    address: String,
    status: WebsocketStatus,
    inflate: Inflate,
    outbound: Vec<SendGatewayMessage>,
    outcome: ClosureOutcome,
}

impl WebSocketShard {
    pub closed spec fn id(&self) -> u64 {
        self.id
    }

    /// The address to connect to.
    pub closed spec fn address(&self) -> Seq<char> {
        self.address@
    }

    pub closed spec fn status(&self) -> WebsocketStatus {
        self.status
    }

    /// The decompressor of the connection.
    pub closed spec fn inflate(&self) -> Inflate {
        self.inflate
    }

    /// The messages that wait to be sent, oldest first.
    pub closed spec fn queue(&self) -> Seq<SendGatewayMessage> {
        self.outbound@
    }

    /// How the connection ended, if it has.
    pub closed spec fn outcome(&self) -> ClosureOutcome {
        self.outcome
    }

    /// Whether the connection is over.
    pub open spec fn finished(&self) -> bool {
        !(self.outcome() is Open)
    }

    /// The decompressor is sound, and a shard is finished exactly when it is
    /// disconnected.
    pub closed spec fn well_formed(&self) -> bool {
        &&& self.inflate.well_formed()
        &&& !(self.outcome is Open) <==> self.status == WebsocketStatus::Disconnected
    }

    /// A shard that is not connected yet.
    pub fn new(shard_id: u64, address: String) -> (r: WebSocketShard)
        ensures
            fresh(r, shard_id, address@),
    {
        WebSocketShard {
            id: shard_id,
            address,
            status: WebsocketStatus::Connecting,
            inflate: Inflate::new(),
            outbound: Vec::new(),
            outcome: ClosureOutcome::Open,
        }
    }

    pub fn shard_id(&self) -> (r: u64)
        ensures
            r == self.id(),
    {
        self.id
    }

    /// The address to connect to.
    pub fn get_address(&self) -> (r: &str)
        ensures
            r@ == self.address(),
    {
        self.address.as_str()
    }

    pub fn get_status(&self) -> (r: WebsocketStatus)
        ensures
            r == self.status(),
    {
        self.status
    }

    /// Notes that the handshake has succeeded. Only a shard that is
    /// connecting becomes ready.
    pub fn connect(&mut self)
        requires
            old(self).well_formed(),
        ensures
            established(*old(self), *final(self)),
    {
        match self.status {
            WebsocketStatus::Connecting => {
                self.status = WebsocketStatus::Ready;
            },
            _ => {},
        }
    }

    /// Notes that the handshake has failed. A shard that is connecting is
    /// over, and the failure is its outcome; any other shard stays as it is.
    pub fn failed(&mut self) -> (r: Option<HandshakeError>)
        requires
            old(self).well_formed(),
        ensures
            refused(*old(self), *final(self), r),
    {
        match self.status {
            WebsocketStatus::Connecting => {
                self.status = WebsocketStatus::Disconnected;
                self.outcome = ClosureOutcome::Failed(HandshakeError::Refused);
                Some(HandshakeError::Refused)
            },
            _ => None,
        }
    }

    /// Whether the connection is over.
    pub fn is_finished(&self) -> (r: bool)
        ensures
            r == self.finished(),
    {
        match &self.outcome {
            ClosureOutcome::Open => false,
            _ => true,
        }
    }

    /// How many messages wait to be sent.
    pub fn queued(&self) -> (r: usize)
        ensures
            r == self.queue().len(),
    {
        self.outbound.len()
    }

    /// Puts a message at the end of the queue.
    pub fn send(&mut self, message: SendGatewayMessage)
        ensures
            enqueued(*old(self), message, *final(self)),
    {
        self.outbound.push(message);
    }

    /// Empties the queue and gives, for each message in the order they were
    /// queued, the bytes to write or the reason why it cannot be sent.
    pub fn drain_outbound(&mut self) -> (r: Vec<Result<Vec<u8>, EncodeError>>)
        ensures
            drained(*old(self), *final(self), r@),
    {
        let mut out: Vec<Result<Vec<u8>, EncodeError>> = Vec::new();
        let mut i: usize = 0;
        while i < self.outbound.len()
            invariant
                *self == *old(self),
                i <= self.outbound@.len(),
                out@.len() == i,
                forall|j: int| 0 <= j < i ==> written(self.outbound@[j], #[trigger] out@[j]),
            decreases self.outbound@.len() - i,
        {
            let encoded = self.outbound[i].to_buffer();
            out.push(encoded);
            i = i + 1;
        }
        self.outbound.clear();
        out
    }

    /// Takes a frame that was read from the socket and says what is to be done.
    ///
    /// A close frame ends the connection and its payload is kept. A binary
    /// frame goes to the decompressor; a unit that it completes is decoded and
    /// read as a message of this shard. A unit that fails loses one message,
    /// except that the second unit in a row which the decompressor rejects
    /// ends the connection. Other frames, and all frames after the end, are
    /// passed over.
    pub fn handle_frame(&mut self, frame: Frame) -> (r: Reaction)
        requires
            old(self).well_formed(),
        ensures
            handled(*old(self), frame, *final(self), r),
    {
        if self.is_finished() {
            return Reaction::Wait;
        }
        match frame {
            Frame::Other => Reaction::Wait,
            Frame::Close(data) => {
                self.outcome = ClosureOutcome::Closed(data);
                self.status = WebsocketStatus::Disconnected;
                Reaction::Terminate
            },
            Frame::Binary(bytes) => {
                match self.inflate.to_term(bytes.as_slice()) {
                    OptionalResult::Incomplete => Reaction::Wait,
                    OptionalResult::Error(e) => {
                        if self.inflate.is_desynchronized() {
                            match e {
                                InflateError::DecommpressError(_) => {
                                    self.outcome = ClosureOutcome::GivenUp;
                                    self.status = WebsocketStatus::Disconnected;
                                    Reaction::Abort(MessageError::Inflate(e))
                                },
                                InflateError::DecodeError(_) => Reaction::Discard(
                                    MessageError::Inflate(e),
                                ),
                            }
                        } else {
                            Reaction::Discard(MessageError::Inflate(e))
                        }
                    },
                    OptionalResult::Completed(term) => {
                        match ReceivedGatewayMessage::from_term(self.id, &term) {
                            Ok(message) => Reaction::Publish(message),
                            Err(e) => Reaction::Discard(MessageError::Parse(e)),
                        }
                    },
                }
            },
        }
    }

    /// Gives up the shard and hands out how its connection ended.
    pub fn wait(self) -> (r: ClosureOutcome)
        ensures
            r == self.outcome(),
    {
        self.outcome
    }
}

/// Whether `shard` is as a new shard with the given number and address is:
/// connecting, with nothing queued and nothing received.
pub open spec fn fresh(shard: WebSocketShard, id: u64, address: Seq<char>) -> bool {
    &&& shard.well_formed()
    &&& shard.id() == id
    &&& shard.address() == address
    &&& shard.status() == WebsocketStatus::Connecting
    &&& shard.queue() == Seq::<SendGatewayMessage>::empty()
    &&& shard.outcome() is Open
    &&& shard.inflate().pending() == Seq::<u8>::empty()
    &&& shard.inflate().history() == Seq::<u8>::empty()
    &&& shard.inflate().output() == Seq::<u8>::empty()
    &&& shard.inflate().failures() == 0
}

/// Whether `after` is `before` once the handshake has succeeded: a shard
/// that was connecting is ready, and nothing else has changed.
pub open spec fn established(before: WebSocketShard, after: WebSocketShard) -> bool {
    &&& after.well_formed()
    &&& after.status() == if before.status() == WebsocketStatus::Connecting {
        WebsocketStatus::Ready
    } else {
        before.status()
    }
    &&& after.id() == before.id()
    &&& after.address() == before.address()
    &&& after.queue() == before.queue()
    &&& after.inflate() == before.inflate()
    &&& after.outcome() == before.outcome()
}

/// Whether `after` and `r` are what a failed handshake makes of `before`: a
/// shard that was connecting is over, with the failure as its outcome, and
/// the failure is handed out; any other shard stays as it is.
pub open spec fn refused(
    before: WebSocketShard,
    after: WebSocketShard,
    r: Option<HandshakeError>,
) -> bool {
    &&& after.well_formed()
    &&& after.id() == before.id()
    &&& after.address() == before.address()
    &&& after.queue() == before.queue()
    &&& after.inflate() == before.inflate()
    &&& if before.status() == WebsocketStatus::Connecting {
        &&& r == Some(HandshakeError::Refused)
        &&& after.status() == WebsocketStatus::Disconnected
        &&& after.outcome() == ClosureOutcome::Failed(HandshakeError::Refused)
    } else {
        &&& r is None
        &&& after.status() == before.status()
        &&& after.outcome() == before.outcome()
    }
}

/// Whether `after` is `before` with `message` added at the end of its queue.
pub open spec fn enqueued(
    before: WebSocketShard,
    message: SendGatewayMessage,
    after: WebSocketShard,
) -> bool {
    &&& after.queue() == before.queue().push(message)
    &&& after.id() == before.id()
    &&& after.address() == before.address()
    &&& after.status() == before.status()
    &&& after.inflate() == before.inflate()
    &&& after.outcome() == before.outcome()
    &&& before.well_formed() ==> after.well_formed()
}

/// What is written for one queued message: its bytes, or why it has none.
pub open spec fn written(message: SendGatewayMessage, frame: Result<Vec<u8>, EncodeError>) -> bool {
    match frame {
        Ok(bytes) => encode_spec(message_term(message.op.spec_code(), message.data@)) == Ok::<
            Seq<u8>,
            EncodeError,
        >(bytes@),
        Err(e) => encode_spec(message_term(message.op.spec_code(), message.data@)) == Err::<
            Seq<u8>,
            EncodeError,
        >(e),
    }
}

/// Whether `after` is `before` with its queue emptied, and `frames` is what
/// is written for the messages that were queued, in their order.
pub open spec fn drained(
    before: WebSocketShard,
    after: WebSocketShard,
    frames: Seq<Result<Vec<u8>, EncodeError>>,
) -> bool {
    &&& after.queue() == Seq::<SendGatewayMessage>::empty()
    &&& frames.len() == before.queue().len()
    &&& forall|i: int| 0 <= i < frames.len() ==> written(before.queue()[i], #[trigger] frames[i])
    &&& after.id() == before.id()
    &&& after.address() == before.address()
    &&& after.status() == before.status()
    &&& after.inflate() == before.inflate()
    &&& after.outcome() == before.outcome()
    &&& before.well_formed() ==> after.well_formed()
}

/// Whether `after` and `r` are what `frame` makes of the shard `before`.
///
/// A finished shard passes every frame over, and every shard passes over the
/// frames that are neither binary nor a close. A close frame ends the
/// connection and its payload is kept. A binary frame goes to the
/// decompressor, and the reaction is that of `unit_reaction`; the shard is
/// finished by it exactly when the reaction is to abort.
pub open spec fn handled(
    before: WebSocketShard,
    frame: Frame,
    after: WebSocketShard,
    r: Reaction,
) -> bool {
    &&& after.well_formed()
    &&& after.id() == before.id()
    &&& after.address() == before.address()
    &&& after.queue() == before.queue()
    &&& before.finished() || frame is Other ==> r is Wait && after == before
    &&& !before.finished() ==> match frame {
        Frame::Other => true,
        Frame::Close(data) => {
            &&& r is Terminate
            &&& after.outcome() == ClosureOutcome::Closed(data)
            &&& after.status() == WebsocketStatus::Disconnected
            &&& after.inflate() == before.inflate()
        },
        Frame::Binary(bytes) => {
            &&& after.outcome() == if r is Abort {
                ClosureOutcome::GivenUp
            } else {
                ClosureOutcome::Open
            }
            &&& !(r is Abort) ==> after.status() == before.status()
            &&& unit_reaction(before.id(), before.inflate(), bytes@, after.inflate(), r)
        },
    }
}

/// Whether `r` is the reaction of shard `id` to a binary frame `raw` that
/// found the decompressor as `before` and left it as `after`.
///
/// Bytes that complete no unit are waited on. Where the decompressor accepts
/// a completed unit, its payload is decoded and read as a message: the
/// message is published, or the error is noted. Where it rejects the unit,
/// that is noted too, and the second such unit in a row ends the connection.
pub open spec fn unit_reaction(
    id: u64,
    before: Inflate,
    raw: Seq<u8>,
    after: Inflate,
    r: Reaction,
) -> bool {
    if !ends_unit(before.pending() + raw) {
        r is Wait && before.kept(raw, after)
    } else {
        match before.unit(raw) {
            None => {
                &&& before.rejected(after)
                &&& if after.failures() >= 2 {
                    r matches Reaction::Abort(
                        MessageError::Inflate(InflateError::DecommpressError(_)),
                    )
                } else {
                    r matches Reaction::Discard(
                        MessageError::Inflate(InflateError::DecommpressError(_)),
                    )
                }
            },
            Some((context, payload)) => {
                &&& after.context() == context
                &&& before.completed(raw, after, payload)
                &&& payload_reaction(id, payload, r)
            },
        }
    }
}

/// Whether `r` is the reaction of shard `id` to the payload of a unit: the
/// message that the payload holds is published, and where it holds none the
/// error is noted.
pub open spec fn payload_reaction(id: u64, payload: Seq<u8>, r: Reaction) -> bool {
    match decode_spec(payload) {
        Err(e) => r == Reaction::Discard(MessageError::Inflate(InflateError::DecodeError(e))),
        Ok(v) => match parse_spec(id, v) {
            Err(e) => r == Reaction::Discard(MessageError::Parse(e)),
            Ok(m) => r matches Reaction::Publish(message) && message@ == m
                && message.well_formed(),
        },
    }
}

} // verus!
