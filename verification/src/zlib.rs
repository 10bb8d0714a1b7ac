//! The decompressor of one connection.
//!
//! All frames of a connection belong to one continuous compressed stream. The
//! bytes of the socket's frames are gathered until they end with the marker
//! that closes a compressed unit; then all of them go through the connection's
//! one decompression context, whose window lives on from unit to unit.

use crate::codec::decode_spec;
use crate::frame::DecodeError;
use crate::term::{Term, TermView};
use inflate::InflateStream;
use vstd::prelude::*;
use vstd::slice::slice_subrange;
use vstd::string::StringExecFns;

verus! {

/// A decompression context of the `inflate` crate, opaque to the verifier.
#[verifier::external_type_specification]
#[verifier::external_body]
pub struct ExInflateStream(InflateStream);

/// The compressed bytes that a context has taken in since it was made.
pub uninterp spec fn consumed(s: InflateStream) -> Seq<u8>;

/// The bytes that a context has given out since it was made.
pub uninterp spec fn produced(s: InflateStream) -> Seq<u8>;

/// What `InflateStream::update` makes of a context and bytes: the context
/// after the call, how many of the bytes it took, and what it gave out;
/// `None` where it rejects the bytes.
pub uninterp spec fn updated(s: InflateStream, data: Seq<u8>) -> Option<
    (InflateStream, nat, Seq<u8>),
>;

/// The four bytes that close a compressed unit.
pub open spec fn trailer() -> Seq<u8> {
    seq![0x00u8, 0x00u8, 0xffu8, 0xffu8]
}

/// Whether the gathered bytes end with the trailer.
pub open spec fn ends_unit(gathered: Seq<u8>) -> bool {
    gathered.len() >= 4 && gathered.subrange(gathered.len() - 4, gathered.len() as int)
        == trailer()
}

/// Why a frame gave no term.
#[derive(Debug, PartialEq, Eq)]
pub enum InflateError {
    /// The compressed bytes were rejected; the message says why.
    DecommpressError(String),
    /// The decompressed bytes are not a term.
    DecodeError(DecodeError),
}

/// What a frame brought: a result, or nothing yet.
#[derive(Debug, PartialEq, Eq)]
pub enum OptionalResult<T, U> {
    /// A unit is complete, and this came out of it.
    Completed(T),
    /// A unit is complete, and this went wrong with it.
    Error(U),
    /// No unit is complete yet.
    Incomplete,
}

/// The decompressor of one connection: the bytes gathered since the last
/// unit, and the context that all units go through.
pub struct Inflate {
    stream: Option<InflateStream>,
    cache: Vec<u8>,
    failures: u8,
}

/// Makes a context for a zlib stream with `InflateStream::from_zlib`: it has
/// taken nothing and given nothing.
#[verifier::external_body]
fn stream_new() -> (s: InflateStream)
    ensures
        consumed(s) == Seq::<u8>::empty(),
        produced(s) == Seq::<u8>::empty(),
{
    InflateStream::from_zlib()
}

/// Calls `InflateStream::update` and copies what it gives out.
///
/// The result is the one that `updated` names. On success the context has
/// taken the first `n` bytes of `data` and given out `out`; it gives nothing
/// out only when it has taken all of `data`. A context that has failed cannot
/// be used again, so it is dropped.
#[verifier::external_body]
fn stream_update(stream: InflateStream, data: &[u8]) -> (r: Result<
    (InflateStream, usize, Vec<u8>),
    String,
>)
    ensures
        match r {
            Ok((next, n, out)) => {
                &&& updated(stream, data@) == Some((next, n as nat, out@))
                &&& n <= data@.len()
                &&& consumed(next) == consumed(stream) + data@.take(n as int)
                &&& produced(next) == produced(stream) + out@
                &&& out@.len() == 0 ==> n == data@.len()
            },
            Err(_) => updated(stream, data@) is None,
        },
{
    let mut stream = stream;
    match stream.update(data) {
        Ok((n, out)) => {
            let out = out.to_vec();
            Ok((stream, n, out))
        },
        Err(e) => Err(e),
    }
}

/// What a context makes of the bytes of a unit, call after call, each call
/// on the bytes that the calls before it left, until a call gives nothing
/// out: the context after the last call, and all that was given out, in
/// order. `None` where a call rejects the bytes, or where more would be given
/// out than `room` bytes.
pub open spec fn drain(s: InflateStream, data: Seq<u8>, room: nat) -> Option<
    (InflateStream, Seq<u8>),
>
    decreases room,
{
    match updated(s, data) {
        None => None,
        Some((next, n, out)) => if out.len() == 0 {
            Some((next, Seq::empty()))
        } else if out.len() > room {
            None
        } else {
            after(out, drain(next, data.skip(n as int), (room - out.len()) as nat))
        },
    }
}

/// The result of `drain` with `before` given out ahead of it.
pub open spec fn after(before: Seq<u8>, rest: Option<(InflateStream, Seq<u8>)>) -> Option<
    (InflateStream, Seq<u8>),
> {
    match rest {
        None => None,
        Some((last, more)) => Some((last, before + more)),
    }
}

/// Whether a buffer ends with the trailer.
pub fn has_trailer(gathered: &[u8]) -> (r: bool)
    ensures
        r == ends_unit(gathered@),
{
    let len: usize = gathered.len();
    if len < 4 {
        return false;
    }
    let r = gathered[len - 4] == 0x00 && gathered[len - 3] == 0x00 && gathered[len - 2] == 0xff
        && gathered[len - 1] == 0xff;
    proof {
        let tail = gathered@.subrange(len - 4, len as int);
        assert(tail[0] == gathered@[len - 4]);
        assert(tail[1] == gathered@[len - 3]);
        assert(tail[2] == gathered@[len - 2]);
        assert(tail[3] == gathered@[len - 1]);
        if r {
            assert(tail =~= trailer());
        }
    }
    r
}

impl Inflate {
    /// The bytes gathered since the last unit.
    pub closed spec fn pending(&self) -> Seq<u8> {
        self.cache@
    }

    /// The compressed bytes that the context has taken in.
    pub closed spec fn history(&self) -> Seq<u8> {
        consumed(self.stream->Some_0)
    }

    /// The bytes that the context has given out.
    pub closed spec fn output(&self) -> Seq<u8> {
        produced(self.stream->Some_0)
    }

    /// The decompression context of the connection.
    pub closed spec fn context(&self) -> InflateStream {
        self.stream->Some_0
    }

    /// What the context makes of the gathered bytes and `raw` together: the
    /// context afterwards and the payload, or `None` where it rejects them.
    /// A payload is no longer than a buffer can be.
    pub open spec fn unit(&self, raw: Seq<u8>) -> Option<(InflateStream, Seq<u8>)> {
        drain(self.context(), self.pending() + raw, usize::MAX as nat)
    }

    /// How many units in a row were rejected, counted up to two.
    pub closed spec fn failures(&self) -> nat {
        self.failures as nat
    }

    /// The context is there, and the count of failures is within its bound.
    pub closed spec fn well_formed(&self) -> bool {
        &&& self.stream is Some
        &&& self.failures <= 2
    }

    /// Whether `next` is this decompressor after bytes `raw` that complete no
    /// unit: they are kept, and nothing else has changed.
    pub open spec fn kept(&self, raw: Seq<u8>, next: Inflate) -> bool {
        &&& next.well_formed()
        &&& next.pending() == self.pending() + raw
        &&& next.context() == self.context()
        &&& next.history() == self.history()
        &&& next.output() == self.output()
        &&& next.failures() == self.failures()
    }

    /// Whether `next` is this decompressor after bytes `raw` that complete a
    /// unit which gave `payload`: the context has taken the gathered bytes
    /// and `raw`, all of them and nothing else, and `payload` is what it gave
    /// out for them. The gathered bytes are dropped.
    pub open spec fn completed(&self, raw: Seq<u8>, next: Inflate, payload: Seq<u8>) -> bool {
        &&& next.well_formed()
        &&& next.pending() == Seq::<u8>::empty()
        &&& next.history() == self.history() + self.pending() + raw
        &&& next.output() == self.output() + payload
        &&& next.failures() == 0
    }

    /// Whether `next` is this decompressor after a unit that the context
    /// rejected: the gathered bytes are dropped, a new context stands in the
    /// place of the old, and one more failure is counted, up to two.
    pub open spec fn rejected(&self, next: Inflate) -> bool {
        &&& next.well_formed()
        &&& next.pending() == Seq::<u8>::empty()
        &&& next.history() == Seq::<u8>::empty()
        &&& next.output() == Seq::<u8>::empty()
        &&& next.failures() == if self.failures() < 2 {
            self.failures() + 1
        } else {
            2
        }
    }

    /// What the context has given out since it was as in `before`.
    pub open spec fn gained(&self, before: Inflate) -> Seq<u8> {
        self.output().skip(before.output().len() as int)
    }

    /// A decompressor for a connection that has received nothing.
    pub fn new() -> (r: Inflate)
        ensures
            r.well_formed(),
            r.pending() == Seq::<u8>::empty(),
            r.history() == Seq::<u8>::empty(),
            r.output() == Seq::<u8>::empty(),
            r.failures() == 0,
    {
        Inflate { stream: Some(stream_new()), cache: Vec::new(), failures: 0 }
    }

    /// Whether two units in a row were rejected: the stream is out of step
    /// and the connection is of no more use.
    pub fn is_desynchronized(&self) -> (r: bool)
        ensures
            r == (self.failures() >= 2),
    {
        self.failures >= 2
    }

    /// Takes the bytes of one frame.
    ///
    /// Until the gathered bytes end with the trailer, nothing comes out and
    /// the bytes are kept. When they do, all of them go through the context,
    /// call after call until it gives nothing more: what it gave out is the
    /// payload. If the context rejects them, a new context takes its place.
    /// Either way the gathered bytes are dropped.
    pub fn feed(&mut self, raw: &[u8]) -> (r: OptionalResult<Vec<u8>, InflateError>)
        requires
            old(self).well_formed(),
        ensures
            fed(*old(self), raw@, *final(self), r),
    {
        let ghost before = self.cache@;
        let ghost first = self.stream->Some_0;
        let ghost h0 = consumed(first);
        let ghost p0 = produced(first);
        let mut more = vstd::slice::slice_to_vec(raw);
        self.cache.append(&mut more);
        assert(self.cache@ == before + raw@);
        if !has_trailer(self.cache.as_slice()) {
            return OptionalResult::Incomplete;
        }
        let mut stream = match self.stream.take() {
            Some(s) => s,
            None => stream_new(),
        };
        let ghost whole = drain(first, self.cache@, usize::MAX as nat);
        let len: usize = self.cache.len();
        let mut n: usize = 0;
        let mut payload: Vec<u8> = Vec::new();
        assert(self.cache@.take(0) =~= Seq::<u8>::empty());
        assert(self.cache@.skip(0) =~= self.cache@);
        assert(h0 + self.cache@.take(0) =~= h0);
        assert(p0 + payload@ =~= p0);
        assert(whole == after(payload@, whole)) by {
            if whole is Some {
                assert(payload@ + whole->Some_0.1 =~= whole->Some_0.1);
            }
        }
        loop
            invariant_except_break
                n <= len,
                consumed(stream) == h0 + self.cache@.take(n as int),
                produced(stream) == p0 + payload@,
                whole == after(
                    payload@,
                    drain(stream, self.cache@.skip(n as int), (usize::MAX - payload@.len()) as nat),
                ),
            invariant
                len == self.cache@.len(),
                self.cache@ == before + raw@,
                before == old(self).pending(),
                first == old(self).context(),
                whole == old(self).unit(raw@),
                h0 == old(self).history(),
                p0 == old(self).output(),
                ends_unit(self.cache@),
                self.stream is None,
                self.failures == old(self).failures,
                self.failures <= 2,
            ensures
                consumed(stream) == h0 + self.cache@,
                produced(stream) == p0 + payload@,
                whole == Some((stream, payload@)),
            decreases usize::MAX - payload@.len(),
        {
            let rest = slice_subrange(self.cache.as_slice(), n, len);
            let ghost taken = consumed(stream);
            let ghost given = produced(stream);
            let ghost so_far = payload@;
            assert(self.cache@.take(n as int) + rest@ =~= self.cache@);
            assert(rest@ =~= self.cache@.skip(n as int));
            match stream_update(stream, rest) {
                Err(message) => {
                    return self.reject(message);
                },
                Ok((next, used, out)) => {
                    assert(self.cache@.take(n as int) + rest@.take(used as int)
                        =~= self.cache@.take(n + used));
                    assert(taken + rest@.take(used as int) =~= h0 + self.cache@.take(n + used));
                    assert(rest@.skip(used as int) =~= self.cache@.skip(n + used));
                    let ghost later = drain(
                        next,
                        rest@.skip(used as int),
                        (usize::MAX - so_far.len() - out@.len()) as nat,
                    );
                    stream = next;
                    n = n + used;
                    if out.len() == 0 {
                        assert(self.cache@.take(n as int) =~= self.cache@);
                        assert(given + out@ =~= p0 + payload@);
                        assert(so_far + Seq::<u8>::empty() =~= so_far);
                        break ;
                    }
                    if out.len() > usize::MAX - payload.len() {
                        return self.reject(String::from_str("the payload is too long"));
                    }
                    let mut out = out;
                    let ghost piece = out@;
                    payload.append(&mut out);
                    assert(payload@ == so_far + piece);
                    assert(given + piece =~= p0 + payload@);
                    assert(whole == after(payload@, later)) by {
                        if later is Some {
                            assert(so_far + (piece + later->Some_0.1) =~= (so_far + piece)
                                + later->Some_0.1);
                        }
                    }
                },
            }
        }
        assert(h0 + self.cache@ =~= h0 + before + raw@);
        self.stream = Some(stream);
        self.cache.clear();
        self.failures = 0;
        OptionalResult::Completed(payload)
    }

    /// Drops the gathered bytes, puts a new context in the place of the old
    /// and counts one more failure.
    fn reject(&mut self, message: String) -> (r: OptionalResult<Vec<u8>, InflateError>)
        requires
            old(self).failures <= 2,
        ensures
            final(self).well_formed(),
            final(self).pending() == Seq::<u8>::empty(),
            final(self).history() == Seq::<u8>::empty(),
            final(self).output() == Seq::<u8>::empty(),
            final(self).failures() == if old(self).failures() < 2 {
                old(self).failures() + 1
            } else {
                2
            },
            r matches OptionalResult::Error(InflateError::DecommpressError(_)),
    {
        self.stream = Some(stream_new());
        self.cache.clear();
        if self.failures < 2 {
            self.failures = self.failures + 1;
        }
        OptionalResult::Error(InflateError::DecommpressError(message))
    }

    /// Takes the bytes of one frame and decodes the payload of a finished
    /// unit into a term.
    pub fn to_term(&mut self, raw: &[u8]) -> (r: OptionalResult<Term, InflateError>)
        requires
            old(self).well_formed(),
        ensures
            read(*old(self), raw@, *final(self), r),
    {
        match self.feed(raw) {
            OptionalResult::Incomplete => OptionalResult::Incomplete,
            OptionalResult::Error(e) => OptionalResult::Error(e),
            OptionalResult::Completed(payload) => {
                match Term::decode(payload.as_slice()) {
                    Ok(term) => OptionalResult::Completed(term),
                    Err(e) => OptionalResult::Error(InflateError::DecodeError(e)),
                }
            },
        }
    }
}

/// Whether `after` and `r` are what the bytes `raw` of one frame make of the
/// decompressor `before`.
///
/// Bytes that complete no unit are kept and nothing comes out. Bytes that
/// complete a unit give its payload exactly when the context accepts all the
/// gathered bytes, and an error exactly when it rejects them.
pub open spec fn fed(
    before: Inflate,
    raw: Seq<u8>,
    after: Inflate,
    r: OptionalResult<Vec<u8>, InflateError>,
) -> bool {
    if !ends_unit(before.pending() + raw) {
        r is Incomplete && before.kept(raw, after)
    } else {
        match before.unit(raw) {
            Some((context, payload)) => {
                &&& r matches OptionalResult::Completed(bytes)
                &&& bytes@ == payload
                &&& after.context() == context
                &&& before.completed(raw, after, payload)
            },
            None => {
                &&& r matches OptionalResult::Error(InflateError::DecommpressError(_))
                &&& before.rejected(after)
            },
        }
    }
}

/// Whether `after` and `r` are what the bytes `raw` of one frame make of the
/// decompressor `before`, where the payload of a completed unit is decoded:
/// the term that the payload holds, or why it holds none.
pub open spec fn read(
    before: Inflate,
    raw: Seq<u8>,
    after: Inflate,
    r: OptionalResult<Term, InflateError>,
) -> bool {
    if !ends_unit(before.pending() + raw) {
        r is Incomplete && before.kept(raw, after)
    } else {
        match before.unit(raw) {
            Some((context, payload)) => {
                &&& after.context() == context
                &&& before.completed(raw, after, payload)
                &&& match decode_spec(payload) {
                    Ok(v) => r matches OptionalResult::Completed(term) && term@ == v
                        && term.is_normal(),
                    Err(e) => r == OptionalResult::<Term, InflateError>::Error(
                        InflateError::DecodeError(e),
                    ),
                }
            },
            None => {
                &&& r matches OptionalResult::Error(InflateError::DecommpressError(_))
                &&& before.rejected(after)
            },
        }
    }
}

/// Bytes that arrive in several frames are gathered as if they had arrived
/// in one: where the first frame completes no unit and the second none
/// either, the decompressor is as the two together would have left it.
pub proof fn lemma_parts_gather(a: Inflate, first: Seq<u8>, b: Inflate, second: Seq<u8>, c: Inflate)
    requires
        a.kept(first, b),
        b.kept(second, c),
    ensures
        a.kept(first + second, c),
{
    assert(a.pending() + first + second =~= a.pending() + (first + second));
}

/// A unit that arrives in several frames is decompressed as a whole: where
/// the first frame completes no unit and the second completes one, the
/// context has taken the bytes of both, in their order, and the payload is
/// the one that the two together would have given.
pub proof fn lemma_parts_complete(
    a: Inflate,
    first: Seq<u8>,
    b: Inflate,
    second: Seq<u8>,
    c: Inflate,
    payload: Seq<u8>,
)
    requires
        a.kept(first, b),
        b.completed(second, c, payload),
    ensures
        a.completed(first + second, c, payload),
{
    assert(a.history() + (a.pending() + first) + second =~= a.history() + a.pending() + (first
        + second));
}

/// The units of a connection go through one context: after two units in a
/// row the context has taken the bytes of both, in their order, and has given
/// out the first payload and then the second.
pub proof fn lemma_units_share_context(
    a: Inflate,
    first: Seq<u8>,
    b: Inflate,
    one: Seq<u8>,
    second: Seq<u8>,
    c: Inflate,
    two: Seq<u8>,
)
    requires
        a.completed(first, b, one),
        b.completed(second, c, two),
    ensures
        c.history() == a.history() + a.pending() + first + second,
        c.output() == a.output() + one + two,
        c.gained(a) == one + two,
{
    assert(b.history() + b.pending() + second =~= a.history() + a.pending() + first + second);
    assert((a.output() + one + two).skip(a.output().len() as int) =~= one + two);
}

/// Bytes that arrive in two frames are decompressed as if they had arrived
/// in one: where the first frame completes no unit, the second is tested for
/// the trailer, and taken by the context, together with the first.
pub proof fn lemma_parts_as_whole(a: Inflate, first: Seq<u8>, b: Inflate, second: Seq<u8>)
    requires
        a.kept(first, b),
    ensures
        b.pending() + second == a.pending() + (first + second),
        b.unit(second) == a.unit(first + second),
{
    assert(a.pending() + first + second =~= a.pending() + (first + second));
}

/// The context lives on from unit to unit: the unit after a completed one is
/// taken by the context that the completed one left, not by a new one.
pub proof fn lemma_context_persists(
    a: Inflate,
    first: Seq<u8>,
    b: Inflate,
    r: OptionalResult<Vec<u8>, InflateError>,
    second: Seq<u8>,
)
    requires
        fed(a, first, b, r),
        r is Completed,
    ensures
        a.unit(first) matches Some((context, _)) && b.unit(second) == drain(
            context,
            second,
            usize::MAX as nat,
        ),
{
    assert(b.pending() + second =~= second);
}

} // verus!
