//! Encoding and decoding of terms.
//!
//! The byte format itself is the work of the `eetf` crate. This module checks
//! the outline of a frame before it is decoded, and carries values between
//! the crate's terms and this library's own, one layer of a term at a time.

use crate::frame::{check_frame, frame_end, DecodeError};
use crate::term::{signed_value, Term, TermView};
use eetf::Term as OutsideTerm;
use num_bigint::{BigInt, Sign};
use vstd::prelude::*;

verus! {

/// A term of the `eetf` crate, opaque to the verifier.
#[verifier::external_type_specification]
#[verifier::external_body]
pub struct ExOutsideTerm(OutsideTerm);

/// What a term of the `eetf` crate holds, as a value of this library's model:
/// the kind of the term and its fields, and so on for the terms inside it. An
/// improper list is `TermView::Improper` with its elements and its tail; the
/// other kinds of term that the model lacks are `TermView::Unsupported`.
pub uninterp spec fn shape(t: OutsideTerm) -> TermView;

/// What `eetf::Term::decode` gives for a buffer, as a value of the model;
/// `None` where it refuses the buffer.
pub uninterp spec fn etf_decoded(bytes: Seq<u8>) -> Option<TermView>;

/// What `eetf::Term::encode` writes for a term, `None` where it refuses the term.
pub uninterp spec fn etf_encoded(v: TermView) -> Option<Seq<u8>>;

/// Why a term is not encoded.
#[derive(Debug, Clone, Copy, PartialEq, Eq)]
pub enum EncodeError {
    /// The encoder refused the term: an atom's name or an integer is too long
    /// for the format.
    Rejected,
}

/// A term without terms inside it.
enum Leaf {
    Atom(String),
    FixInteger(i32),
    BigInteger(bool, Vec<u8>),
    Float(u64),
    Binary(Vec<u8>),
}

/// The outermost layer of a term that holds other terms.
enum Nested {
    List(Vec<OutsideTerm>),
    Tuple(Vec<OutsideTerm>),
    Dict(Vec<(OutsideTerm, OutsideTerm)>),
    /// A list with a tail: the elements, and the tail.
    Improper(Vec<OutsideTerm>, OutsideTerm),
}

spec fn leaf_view(leaf: Leaf) -> TermView {
    match leaf {
        Leaf::Atom(name) => TermView::Atom(name@),
        Leaf::FixInteger(value) => TermView::FixInteger(value),
        Leaf::BigInteger(negative, magnitude) => TermView::BigInteger(
            signed_value(negative, magnitude@),
        ),
        Leaf::Float(bits) => TermView::Float(bits),
        Leaf::Binary(bytes) => TermView::Binary(bytes@),
    }
}

spec fn shapes(terms: Seq<OutsideTerm>) -> Seq<TermView> {
    Seq::new(terms.len(), |i: int| shape(terms[i]))
}

spec fn pair_shapes(entries: Seq<(OutsideTerm, OutsideTerm)>) -> Seq<(TermView, TermView)> {
    Seq::new(entries.len(), |i: int| (shape(entries[i].0), shape(entries[i].1)))
}

spec fn nested_view(nested: Nested) -> TermView {
    match nested {
        Nested::List(elements) => TermView::List(shapes(elements@)),
        Nested::Tuple(elements) => TermView::Tuple(shapes(elements@)),
        Nested::Dict(entries) => TermView::Dict(pair_shapes(entries@)),
        Nested::Improper(elements, last) => TermView::Improper(
            shapes(elements@),
            Box::new(shape(last)),
        ),
    }
}

spec fn is_leaf(v: TermView) -> bool {
    v is Atom || v is FixInteger || v is BigInteger || v is Float || v is Binary
}

spec fn is_nested(v: TermView) -> bool {
    v is List || v is Tuple || v is Dict
}

/// Whether a value is made of the kinds of term that this library models.
pub open spec fn supported(v: TermView) -> bool
    decreases v,
{
    match v {
        TermView::List(s) => forall|i: int| 0 <= i < s.len() ==> supported(#[trigger] s[i]),
        TermView::Tuple(s) => forall|i: int| 0 <= i < s.len() ==> supported(#[trigger] s[i]),
        TermView::Dict(s) => forall|i: int|
            0 <= i < s.len() ==> supported((#[trigger] s[i]).0) && supported(s[i].1),
        TermView::Improper(_, _) => false,
        TermView::Unsupported => false,
        _ => true,
    }
}

/// Whether a value is one that is handed to the encoder: it is made of the
/// kinds of term that this library models and of lists with a tail.
pub open spec fn encodable(v: TermView) -> bool
    decreases v,
{
    match v {
        TermView::List(s) => forall|i: int| 0 <= i < s.len() ==> encodable(#[trigger] s[i]),
        TermView::Tuple(s) => forall|i: int| 0 <= i < s.len() ==> encodable(#[trigger] s[i]),
        TermView::Dict(s) => forall|i: int|
            0 <= i < s.len() ==> encodable((#[trigger] s[i]).0) && encodable(s[i].1),
        TermView::Improper(s, tail) => encodable(*tail) && forall|i: int|
            0 <= i < s.len() ==> encodable(#[trigger] s[i]),
        TermView::Unsupported => false,
        _ => true,
    }
}

/// Reads a term of `eetf` that holds no other term: an atom's name, an
/// integer's value (a big one as the sign and the little-endian magnitude that
/// `BigInt::to_bytes_le` gives), a float's bits, a binary's bytes. `None` for
/// every other kind of term.
#[verifier::external_body]
fn open_leaf(t: &OutsideTerm) -> (r: Option<Leaf>)
    ensures
        match r {
            Some(leaf) => shape(*t) == leaf_view(leaf),
            None => !is_leaf(shape(*t)),
        },
{
    Some(match t {
        OutsideTerm::Atom(x) => Leaf::Atom(x.name.clone()),
        OutsideTerm::FixInteger(x) => Leaf::FixInteger(x.value),
        OutsideTerm::BigInteger(x) => Leaf::BigInteger(x.value.sign() == Sign::Minus, x.value.to_bytes_le().1),
        OutsideTerm::Float(x) => Leaf::Float(x.value.to_bits()),
        OutsideTerm::Binary(x) => Leaf::Binary(x.bytes.clone()),
        _ => return None,
    })
}

/// Reads the terms inside a list, a tuple or a map of `eetf`, in their order.
/// `None` for every other kind of term, an improper list among them.
#[verifier::external_body]
fn open_nested(t: &OutsideTerm) -> (r: Option<Nested>)
    ensures
        match r {
            Some(nested) => shape(*t) == nested_view(nested),
            None => !is_nested(shape(*t)),
        },
{
    Some(match t {
        OutsideTerm::List(x) => Nested::List(x.elements.clone()),
        OutsideTerm::Tuple(x) => Nested::Tuple(x.elements.clone()),
        OutsideTerm::Map(x) => Nested::Dict(x.entries.clone()),
        _ => return None,
    })
}

/// Makes the term of `eetf` that holds the given value: the struct of that
/// kind with its one field set. A big integer goes through
/// `BigInt::from_bytes_le`, a float's bits through `FromBytes::from_be_bytes`.
#[verifier::external_body]
fn close_leaf(leaf: Leaf) -> (t: OutsideTerm)
    ensures
        shape(t) == leaf_view(leaf),
{
    match leaf {
        Leaf::Atom(name) => OutsideTerm::Atom(eetf::Atom { name }),
        Leaf::FixInteger(value) => OutsideTerm::FixInteger(eetf::FixInteger { value }),
        Leaf::BigInteger(negative, magnitude) => OutsideTerm::BigInteger(eetf::BigInteger {
            value: BigInt::from_bytes_le(if negative { Sign::Minus } else { Sign::Plus }, &magnitude),
        }),
        Leaf::Float(bits) => OutsideTerm::Float(eetf::Float {
            value: num_traits::FromBytes::from_be_bytes(&bits.to_be_bytes()),
        }),
        Leaf::Binary(bytes) => OutsideTerm::Binary(eetf::Binary { bytes }),
    }
}

/// Makes the list, tuple, map or improper list of `eetf` that holds the
/// given terms in order, an improper list with the given tail.
#[verifier::external_body]
fn close_nested(nested: Nested) -> (t: OutsideTerm)
    ensures
        shape(t) == nested_view(nested),
{
    match nested {
        Nested::List(elements) => OutsideTerm::List(eetf::List { elements }),
        Nested::Tuple(elements) => OutsideTerm::Tuple(eetf::Tuple { elements }),
        Nested::Dict(entries) => OutsideTerm::Map(eetf::Map { entries }),
        Nested::Improper(elements, last) => OutsideTerm::ImproperList(
            eetf::ImproperList { elements, last: Box::new(last) },
        ),
    }
}

/// Calls `eetf::Term::decode` on a buffer. The frame's outline has been
/// checked: the decoder stops on tags that it has not implemented, and sizes
/// its buffers by the counts it reads. Its error is dropped.
#[verifier::external_body]
fn decode_outside(bytes: &[u8]) -> (r: Option<OutsideTerm>)
    requires
        frame_end(bytes@) is Ok,
    ensures
        match r {
            Some(t) => etf_decoded(bytes@) == Some(shape(t)),
            None => etf_decoded(bytes@) is None,
        },
{
    OutsideTerm::decode(bytes).ok()
}

/// Calls `eetf::Term::encode` on a term made of the kinds that the model
/// has and of improper lists, into a fresh buffer. Its error is dropped.
#[verifier::external_body]
fn encode_outside(t: &OutsideTerm) -> (r: Option<Vec<u8>>)
    requires
        encodable(shape(*t)),
    ensures
        match r {
            Some(bytes) => etf_encoded(shape(*t)) == Some(bytes@),
            None => etf_encoded(shape(*t)) is None,
        },
{
    let mut buffer = Vec::new();
    match t.encode(&mut buffer) {
        Ok(()) => Some(buffer),
        Err(_) => None,
    }
}

/// The term for a value without terms inside it; a big integer is put into
/// normal form.
fn term_of_leaf(leaf: Leaf) -> (t: Term)
    ensures
        t@ == leaf_view(leaf),
        t.is_normal(),
{
    match leaf {
        Leaf::Atom(name) => Term::Atom(name),
        Leaf::FixInteger(value) => Term::FixInteger(value),
        Leaf::BigInteger(negative, magnitude) => Term::big(negative, magnitude),
        Leaf::Float(bits) => Term::Float(bits),
        Leaf::Binary(bytes) => Term::Binary(bytes),
    }
}

/// Converts the terms of a sequence, all or none.
fn from_outside_all(terms: &Vec<OutsideTerm>) -> (r: Option<Vec<Term>>)
    ensures
        match r {
            Some(out) => out@.len() == terms@.len() && forall|i: int|
                0 <= i < out@.len() ==> (#[trigger] out@[i])@ == shape(terms@[i])
                    && out@[i].is_normal(),
            None => exists|i: int| 0 <= i < terms@.len() && !supported(shape(#[trigger] terms@[i])),
        },
    decreases shapes(terms@),
{
    let mut out: Vec<Term> = Vec::new();
    let mut i: usize = 0;
    while i < terms.len()
        invariant
            i <= terms@.len(),
            out@.len() == i,
            forall|j: int|
                0 <= j < i ==> (#[trigger] out@[j])@ == shape(terms@[j]) && out@[j].is_normal(),
        decreases terms@.len() - i,
    {
        assert(shapes(terms@)[i as int] == shape(terms@[i as int]));
        match from_outside(&terms[i]) {
            Some(term) => {
                out.push(term);
            },
            None => {
                return None;
            },
        }
        i = i + 1;
    }
    Some(out)
}

/// Converts the entries of a map, all or none.
fn from_outside_pairs(entries: &Vec<(OutsideTerm, OutsideTerm)>) -> (r: Option<Vec<(Term, Term)>>)
    ensures
        match r {
            Some(out) => out@.len() == entries@.len() && forall|i: int|
                0 <= i < out@.len() ==> (#[trigger] out@[i]).0@ == shape(entries@[i].0)
                    && out@[i].1@ == shape(entries@[i].1) && out@[i].0.is_normal()
                    && out@[i].1.is_normal(),
            None => exists|i: int|
                0 <= i < entries@.len() && !(supported(shape((#[trigger] entries@[i]).0))
                    && supported(shape(entries@[i].1))),
        },
    decreases pair_shapes(entries@),
{
    let mut out: Vec<(Term, Term)> = Vec::new();
    let mut i: usize = 0;
    while i < entries.len()
        invariant
            i <= entries@.len(),
            out@.len() == i,
            forall|j: int|
                0 <= j < i ==> (#[trigger] out@[j]).0@ == shape(entries@[j].0) && out@[j].1@
                    == shape(entries@[j].1) && out@[j].0.is_normal() && out@[j].1.is_normal(),
        decreases entries@.len() - i,
    {
        assert(pair_shapes(entries@)[i as int].0 == shape(entries@[i as int].0));
        assert(pair_shapes(entries@)[i as int].1 == shape(entries@[i as int].1));
        let key = match from_outside(&entries[i].0) {
            Some(term) => term,
            None => {
                return None;
            },
        };
        let value = match from_outside(&entries[i].1) {
            Some(term) => term,
            None => {
                return None;
            },
        };
        out.push((key, value));
        i = i + 1;
    }
    Some(out)
}

/// Converts a term of `eetf` into a term of this library, if it is made of
/// the kinds that this library models. Big integers come out in normal form.
pub fn from_outside(t: &OutsideTerm) -> (r: Option<Term>)
    ensures
        match r {
            Some(term) => term@ == shape(*t) && term.is_normal(),
            None => !supported(shape(*t)),
        },
    decreases shape(*t),
{
    match open_leaf(t) {
        Some(leaf) => {
            let term = term_of_leaf(leaf);
            assert(term@ == shape(*t));
            Some(term)
        },
        None => match open_nested(t) {
            None => None,
            Some(Nested::Improper(_, _)) => None,
            Some(Nested::List(elements)) => {
                assert(shape(*t)->List_0 == shapes(elements@));
                match from_outside_all(&elements) {
                Some(out) => {
                    let term = Term::List(out);
                    assert(term@->List_0 =~= shapes(elements@));
                    assert(term@ == shape(*t));
                    Some(term)
                },
                None => {
                    proof {
                        let i = choose|i: int|
                            0 <= i < elements@.len() && !supported(shape(#[trigger] elements@[i]));
                        assert(shapes(elements@)[i] == shape(elements@[i]));
                    }
                    None
                },
            }},
            Some(Nested::Tuple(elements)) => {
                assert(shape(*t)->Tuple_0 == shapes(elements@));
                match from_outside_all(&elements) {
                Some(out) => {
                    let term = Term::Tuple(out);
                    assert(term@->Tuple_0 =~= shapes(elements@));
                    assert(term@ == shape(*t));
                    Some(term)
                },
                None => {
                    proof {
                        let i = choose|i: int|
                            0 <= i < elements@.len() && !supported(shape(#[trigger] elements@[i]));
                        assert(shapes(elements@)[i] == shape(elements@[i]));
                    }
                    None
                },
            }},
            Some(Nested::Dict(entries)) => {
                assert(shape(*t)->Dict_0 == pair_shapes(entries@));
                match from_outside_pairs(&entries) {
                Some(out) => {
                    let term = Term::Dict(out);
                    assert(term@->Dict_0 =~= pair_shapes(entries@));
                    assert(term@ == shape(*t));
                    Some(term)
                },
                None => {
                    proof {
                        let i = choose|i: int|
                            0 <= i < entries@.len() && !(supported(
                                shape((#[trigger] entries@[i]).0),
                            ) && supported(shape(entries@[i].1)));
                        assert(pair_shapes(entries@)[i] == (
                            shape(entries@[i].0),
                            shape(entries@[i].1),
                        ));
                    }
                    None
                },
            }},
        },
    }
}

/// What decoding a buffer gives: the error of the frame's outline if it has
/// one; else what the decoder makes of the buffer, as far as this library
/// models it.
pub open spec fn decode_spec(bytes: Seq<u8>) -> Result<TermView, DecodeError> {
    match frame_end(bytes) {
        Err(e) => Err(e),
        Ok(_) => match etf_decoded(bytes) {
            None => Err(DecodeError::Malformed),
            Some(v) => if supported(v) {
                Ok(v)
            } else {
                Err(DecodeError::UnsupportedTerm)
            },
        },
    }
}

/// Whether a value is an integer of fixed width below 256.
pub open spec fn byte_like(v: TermView) -> bool {
    v matches TermView::FixInteger(x) && x < 256
}

/// Whether a value is an integer of fixed width below zero.
pub open spec fn below_zero(v: TermView) -> bool {
    v matches TermView::FixInteger(x) && x < 0
}

/// Whether a list is one that the format carries as a string of bytes
/// although it holds a negative integer: it is not empty, has at most 65535
/// elements, each an integer of fixed width below 256, and one below zero.
pub open spec fn misread_list(items: Seq<TermView>) -> bool {
    &&& 0 < items.len() <= 0xffff
    &&& forall|i: int| 0 <= i < items.len() ==> byte_like(#[trigger] items[i])
    &&& exists|i: int| 0 <= i < items.len() && below_zero(#[trigger] items[i])
}

/// The values of the terms of a sequence.
pub open spec fn views_of(terms: Seq<Term>) -> Seq<TermView> {
    Seq::new(terms.len(), |i: int| terms[i]@)
}

/// Whether a list is misread.
fn is_misread(elements: &Vec<Term>) -> (r: bool)
    ensures
        r == misread_list(views_of(elements@)),
{
    let ghost s = views_of(elements@);
    let n: usize = elements.len();
    if n == 0 || n > 0xffff {
        return false;
    }
    let mut negative = false;
    let mut i: usize = 0;
    while i < n
        invariant
            i <= n,
            n == elements@.len(),
            s == views_of(elements@),
            forall|j: int| 0 <= j < i ==> byte_like(#[trigger] s[j]),
            negative == exists|j: int| 0 <= j < i && below_zero(#[trigger] s[j]),
        decreases n - i,
    {
        assert(s[i as int] == elements@[i as int]@);
        match &elements[i] {
            Term::FixInteger(value) => {
                if *value >= 256 {
                    assert(!byte_like(s[i as int]));
                    return false;
                }
                if *value < 0 {
                    assert(below_zero(s[i as int]));
                    negative = true;
                }
            },
            _ => {
                assert(!byte_like(s[i as int]));
                return false;
            },
        }
        i = i + 1;
    }
    negative
}

/// A value as it is handed to the encoder: a list that would be misread goes
/// as a list with the empty list for its tail, which the format carries
/// element by element and the decoder reads as the list proper. Everything
/// else goes as it is.
pub open spec fn outgoing(v: TermView) -> TermView
    decreases v,
{
    match v {
        TermView::List(s) => {
            let items = Seq::new(
                s.len(),
                |i: int|
                    if 0 <= i < s.len() {
                        outgoing(s[i])
                    } else {
                        TermView::Unsupported
                    },
            );
            if misread_list(s) {
                TermView::Improper(items, Box::new(TermView::List(Seq::empty())))
            } else {
                TermView::List(items)
            }
        },
        TermView::Tuple(s) => TermView::Tuple(
            Seq::new(
                s.len(),
                |i: int|
                    if 0 <= i < s.len() {
                        outgoing(s[i])
                    } else {
                        TermView::Unsupported
                    },
            ),
        ),
        TermView::Dict(s) => TermView::Dict(
            Seq::new(
                s.len(),
                |i: int|
                    if 0 <= i < s.len() {
                        (outgoing(s[i].0), outgoing(s[i].1))
                    } else {
                        (TermView::Unsupported, TermView::Unsupported)
                    },
            ),
        ),
        _ => v,
    }
}

/// Makes the terms of `eetf` for the terms of a sequence, as they are handed
/// to the encoder.
fn to_wire_all(terms: &Vec<Term>) -> (out: Vec<OutsideTerm>)
    ensures
        out@.len() == terms@.len(),
        forall|i: int|
            0 <= i < out@.len() ==> shape(#[trigger] out@[i]) == outgoing(terms@[i]@)
                && encodable(shape(out@[i])),
    decreases terms,
{
    let mut out: Vec<OutsideTerm> = Vec::new();
    let mut i: usize = 0;
    while i < terms.len()
        invariant
            i <= terms@.len(),
            out@.len() == i,
            forall|j: int|
                0 <= j < i ==> shape(#[trigger] out@[j]) == outgoing(terms@[j]@) && encodable(
                    shape(out@[j]),
                ),
        decreases terms@.len() - i,
    {
        let converted = to_wire(&terms[i]);
        out.push(converted);
        i = i + 1;
    }
    out
}

/// Makes the entries of `eetf` for the entries of a map, as they are handed
/// to the encoder.
fn to_wire_pairs(entries: &Vec<(Term, Term)>) -> (out: Vec<(OutsideTerm, OutsideTerm)>)
    ensures
        out@.len() == entries@.len(),
        forall|i: int|
            0 <= i < out@.len() ==> {
                &&& shape((#[trigger] out@[i]).0) == outgoing(entries@[i].0@)
                &&& shape(out@[i].1) == outgoing(entries@[i].1@)
                &&& encodable(shape(out@[i].0))
                &&& encodable(shape(out@[i].1))
            },
    decreases entries,
{
    let mut out: Vec<(OutsideTerm, OutsideTerm)> = Vec::new();
    let mut i: usize = 0;
    while i < entries.len()
        invariant
            i <= entries@.len(),
            out@.len() == i,
            forall|j: int|
                0 <= j < i ==> {
                    &&& shape((#[trigger] out@[j]).0) == outgoing(entries@[j].0@)
                    &&& shape(out@[j].1) == outgoing(entries@[j].1@)
                    &&& encodable(shape(out@[j].0))
                    &&& encodable(shape(out@[j].1))
                },
        decreases entries@.len() - i,
    {
        let key = to_wire(&entries[i].0);
        let value = to_wire(&entries[i].1);
        out.push((key, value));
        i = i + 1;
    }
    out
}

/// Makes the term of `eetf` that is handed to the encoder for a term of this
/// library.
pub fn to_wire(term: &Term) -> (t: OutsideTerm)
    ensures
        shape(t) == outgoing(term@),
        encodable(shape(t)),
    decreases term,
{
    match term {
        Term::Atom(name) => close_leaf(Leaf::Atom(name.clone())),
        Term::FixInteger(value) => close_leaf(Leaf::FixInteger(*value)),
        Term::BigInteger(negative, magnitude) => close_leaf(
            Leaf::BigInteger(*negative, magnitude.clone()),
        ),
        Term::Float(bits) => close_leaf(Leaf::Float(*bits)),
        Term::Binary(bytes) => close_leaf(Leaf::Binary(bytes.clone())),
        Term::List(elements) => {
            assert(term@->List_0 =~= views_of(elements@));
            let out = to_wire_all(elements);
            proof {
                let given = shapes(out@);
                assert forall|i: int| 0 <= i < given.len() implies encodable(
                    #[trigger] given[i],
                ) by {
                    assert(given[i] == shape(out@[i]));
                }
            }
            if is_misread(elements) {
                let tail = close_nested(Nested::List(Vec::new()));
                assert(shape(tail)->List_0 =~= Seq::<TermView>::empty());
                assert(encodable(shape(tail)));
                let t = close_nested(Nested::Improper(out, tail));
                assert(shape(t)->Improper_0 =~= outgoing(term@)->Improper_0);
                assert(encodable(shape(t)));
                t
            } else {
                let t = close_nested(Nested::List(out));
                assert(shape(t)->List_0 =~= outgoing(term@)->List_0);
                assert(encodable(shape(t)));
                t
            }
        },
        Term::Tuple(elements) => {
            let out = to_wire_all(elements);
            proof {
                let given = shapes(out@);
                assert forall|i: int| 0 <= i < given.len() implies encodable(
                    #[trigger] given[i],
                ) by {
                    assert(given[i] == shape(out@[i]));
                }
            }
            let t = close_nested(Nested::Tuple(out));
            assert(shape(t)->Tuple_0 =~= outgoing(term@)->Tuple_0);
            assert(encodable(shape(t)));
            t
        },
        Term::Dict(entries) => {
            let out = to_wire_pairs(entries);
            proof {
                let given = pair_shapes(out@);
                assert forall|i: int| 0 <= i < given.len() implies encodable(
                    (#[trigger] given[i]).0,
                ) && encodable(given[i].1) by {
                    assert(given[i] == (shape(out@[i].0), shape(out@[i].1)));
                }
            }
            let t = close_nested(Nested::Dict(out));
            assert(shape(t)->Dict_0 =~= outgoing(term@)->Dict_0);
            assert(encodable(shape(t)));
            t
        },
    }
}

/// What encoding a value gives: what the encoder writes for the value as it
/// is handed to it.
pub open spec fn encode_spec(v: TermView) -> Result<Seq<u8>, EncodeError> {
    match etf_encoded(outgoing(v)) {
        Some(bytes) => Ok(bytes),
        None => Err(EncodeError::Rejected),
    }
}

impl Term {
    /// Decodes the term that a buffer holds. Bytes after the term are
    /// ignored. Big integers come out in normal form.
    pub fn decode(bytes: &[u8]) -> (r: Result<Term, DecodeError>)
        ensures
            match r {
                Ok(term) => decode_spec(bytes@) == Ok::<TermView, DecodeError>(term@)
                    && term.is_normal(),
                Err(e) => decode_spec(bytes@) == Err::<TermView, DecodeError>(e),
            },
    {
        match check_frame(bytes) {
            Err(e) => Err(e),
            Ok(_) => match decode_outside(bytes) {
                None => Err(DecodeError::Malformed),
                Some(t) => match from_outside(&t) {
                    Some(term) => {
                        proof {
                            lemma_view_supported(&term);
                        }
                        Ok(term)
                    },
                    None => Err(DecodeError::UnsupportedTerm),
                },
            },
        }
    }

    /// Encodes the term into a fresh buffer. It fails only where the encoder
    /// refuses the term.
    pub fn encode(&self) -> (r: Result<Vec<u8>, EncodeError>)
        ensures
            match r {
                Ok(bytes) => encode_spec(self@) == Ok::<Seq<u8>, EncodeError>(bytes@),
                Err(e) => encode_spec(self@) == Err::<Seq<u8>, EncodeError>(e),
            },
    {
        let t = to_wire(self);
        match encode_outside(&t) {
            Some(bytes) => Ok(bytes),
            None => Err(EncodeError::Rejected),
        }
    }
}

/// The value of a term of this library is made of supported kinds only.
pub proof fn lemma_view_supported(term: &Term)
    ensures
        supported(term@),
    decreases term,
{
    match term {
        Term::List(elements) => {
            assert forall|i: int| 0 <= i < term@->List_0.len() implies supported(
                #[trigger] term@->List_0[i],
            ) by {
                lemma_view_supported(&elements@[i]);
            }
        },
        Term::Tuple(elements) => {
            assert forall|i: int| 0 <= i < term@->Tuple_0.len() implies supported(
                #[trigger] term@->Tuple_0[i],
            ) by {
                lemma_view_supported(&elements@[i]);
            }
        },
        Term::Dict(entries) => {
            assert forall|i: int| 0 <= i < term@->Dict_0.len() implies supported(
                (#[trigger] term@->Dict_0[i]).0,
            ) && supported(term@->Dict_0[i].1) by {
                lemma_view_supported(&entries@[i].0);
                lemma_view_supported(&entries@[i].1);
            }
        },
        _ => {},
    }
}

} // verus!
