//! Terms of the self-describing binary format carried on the wire.

use vstd::prelude::*;
use vstd::string::StrSliceExecFns;
use vstd::string::StringExecFns;
use vstd::utf8::encode_utf8;

verus! {

/// A term: the value space of the wire format.
#[derive(Debug, PartialEq, Eq)]
pub enum Term {
    /// A name: a well-known marker such as `nil` or `true`, or a key.
    Atom(String),
    /// An integer of fixed width.
    FixInteger(i32),
    /// An integer of any size: whether it is negative, and its magnitude in
    /// base 256 with the least significant digit first. The terms that this
    /// library makes hold it in normal form, see `normal_form`.
    BigInteger(bool, Vec<u8>),
    /// A double, as its IEEE-754 bits.
    Float(u64),
    /// A byte string; text is carried as its UTF-8 bytes.
    Binary(Vec<u8>),
    List(Vec<Term>),
    Tuple(Vec<Term>),
    /// A map: keys with their values, in the order they were given.
    Dict(Vec<(Term, Term)>),
}

/// The mathematical value of a term.
pub enum TermView {
    Atom(Seq<char>),
    FixInteger(i32),
    BigInteger(int),
    Float(u64),
    Binary(Seq<u8>),
    List(Seq<TermView>),
    Tuple(Seq<TermView>),
    Dict(Seq<(TermView, TermView)>),
    /// A list with a tail of its own in the place of the empty list that
    /// ends a list proper: the elements, and the tail. No `Term` has this
    /// value; a list goes to the encoder in this form where the form of a
    /// list proper would be misread.
    Improper(Seq<TermView>, Box<TermView>),
    /// A term of a kind that this library does not model. No `Term` has this value.
    Unsupported,
}

/// The number that digits in base 256 stand for, least significant first.
pub open spec fn le_value(digits: Seq<u8>) -> nat
    decreases digits.len(),
{
    if digits.len() == 0 {
        0
    } else {
        digits[0] as nat + 256 * le_value(digits.skip(1))
    }
}

/// The integer with the given sign and magnitude.
pub open spec fn signed_value(negative: bool, magnitude: Seq<u8>) -> int {
    if negative {
        -(le_value(magnitude) as int)
    } else {
        le_value(magnitude) as int
    }
}

/// Whether a magnitude has no needless digit: it is empty, or its most
/// significant digit is not zero.
pub open spec fn trimmed(magnitude: Seq<u8>) -> bool {
    magnitude.len() == 0 || magnitude.last() != 0
}

/// Whether a sign and a magnitude are in normal form: the magnitude has no
/// needless digit, and zero, which is the empty magnitude, is not negative.
pub open spec fn normal_form(negative: bool, magnitude: Seq<u8>) -> bool {
    trimmed(magnitude) && (magnitude.len() == 0 ==> !negative)
}

/// A zero digit on top of a magnitude does not change its value.
pub proof fn lemma_zero_on_top(magnitude: Seq<u8>)
    ensures
        le_value(magnitude.push(0)) == le_value(magnitude),
    decreases magnitude.len(),
{
    let longer = magnitude.push(0);
    if magnitude.len() == 0 {
        assert(longer.skip(1) =~= Seq::<u8>::empty());
        assert(le_value(longer.skip(1)) == 0);
    } else {
        assert(longer.skip(1) =~= magnitude.skip(1).push(0));
        lemma_zero_on_top(magnitude.skip(1));
    }
}

/// A magnitude without needless digits that is not empty is not zero.
pub proof fn lemma_trimmed_positive(magnitude: Seq<u8>)
    requires
        trimmed(magnitude),
        magnitude.len() > 0,
    ensures
        le_value(magnitude) > 0,
    decreases magnitude.len(),
{
    if magnitude.len() > 1 {
        assert(magnitude.skip(1).last() == magnitude.last());
        lemma_trimmed_positive(magnitude.skip(1));
    } else {
        assert(magnitude[0] == magnitude.last());
    }
}

/// A number has one magnitude without needless digits: two such magnitudes
/// of one value are the same.
pub proof fn lemma_normal_unique(a: Seq<u8>, b: Seq<u8>)
    requires
        trimmed(a),
        trimmed(b),
        le_value(a) == le_value(b),
    ensures
        a == b,
    decreases a.len(),
{
    if a.len() == 0 {
        if b.len() > 0 {
            lemma_trimmed_positive(b);
        }
        assert(a =~= b);
    } else if b.len() == 0 {
        lemma_trimmed_positive(a);
    } else {
        let x = le_value(a.skip(1));
        let y = le_value(b.skip(1));
        assert(a[0] as int + 256 * x == b[0] as int + 256 * y);
        assert(x == y && a[0] == b[0]);
        if a.len() > 1 {
            assert(a.skip(1).last() == a.last());
        }
        if b.len() > 1 {
            assert(b.skip(1).last() == b.last());
        }
        lemma_normal_unique(a.skip(1), b.skip(1));
        assert(a =~= seq![a[0]] + a.skip(1));
        assert(b =~= seq![b[0]] + b.skip(1));
    }
}

/// The sign and magnitude in normal form that stand for the same integer.
pub fn normalized(negative: bool, magnitude: Vec<u8>) -> (r: (bool, Vec<u8>))
    ensures
        normal_form(r.0, r.1@),
        signed_value(r.0, r.1@) == signed_value(negative, magnitude@),
{
    let mut digits = magnitude;
    while digits.len() > 0 && digits[digits.len() - 1] == 0
        invariant
            le_value(digits@) == le_value(magnitude@),
        decreases digits@.len(),
    {
        proof {
            lemma_zero_on_top(digits@.drop_last());
            assert(digits@.drop_last().push(0) =~= digits@);
        }
        digits.pop();
    }
    let negative = negative && digits.len() > 0;
    (negative, digits)
}

impl Term {
    pub open spec fn view(&self) -> TermView
        decreases self,
    {
        match self {
            Term::Atom(name) => TermView::Atom(name@),
            Term::FixInteger(value) => TermView::FixInteger(*value),
            Term::BigInteger(negative, magnitude) => TermView::BigInteger(
                signed_value(*negative, magnitude@),
            ),
            Term::Float(bits) => TermView::Float(*bits),
            Term::Binary(bytes) => TermView::Binary(bytes@),
            Term::List(elements) => TermView::List(
                Seq::new(
                    elements@.len(),
                    |i: int|
                        if 0 <= i < elements@.len() {
                            elements@[i].view()
                        } else {
                            TermView::Unsupported
                        },
                ),
            ),
            Term::Tuple(elements) => TermView::Tuple(
                Seq::new(
                    elements@.len(),
                    |i: int|
                        if 0 <= i < elements@.len() {
                            elements@[i].view()
                        } else {
                            TermView::Unsupported
                        },
                ),
            ),
            Term::Dict(entries) => TermView::Dict(
                Seq::new(
                    entries@.len(),
                    |i: int|
                        if 0 <= i < entries@.len() {
                            (entries@[i].0.view(), entries@[i].1.view())
                        } else {
                            (TermView::Unsupported, TermView::Unsupported)
                        },
                ),
            ),
        }
    }

    /// Whether every big integer in the term is in normal form. Of two terms
    /// in normal form that stand for one value, the integers are written
    /// alike.
    pub open spec fn is_normal(&self) -> bool
        decreases self,
    {
        match self {
            Term::BigInteger(negative, magnitude) => normal_form(*negative, magnitude@),
            Term::List(elements) => forall|i: int|
                0 <= i < elements@.len() ==> (#[trigger] elements@[i]).is_normal(),
            Term::Tuple(elements) => forall|i: int|
                0 <= i < elements@.len() ==> (#[trigger] elements@[i]).is_normal(),
            Term::Dict(entries) => forall|i: int|
                0 <= i < entries@.len() ==> (#[trigger] entries@[i]).0.is_normal()
                    && entries@[i].1.is_normal(),
            _ => true,
        }
    }

    /// The big integer with the given sign and magnitude, in normal form.
    pub fn big(negative: bool, magnitude: Vec<u8>) -> (t: Term)
        ensures
            t@ == TermView::BigInteger(signed_value(negative, magnitude@)),
            t.is_normal(),
    {
        let (negative, magnitude) = normalized(negative, magnitude);
        Term::BigInteger(negative, magnitude)
    }

    /// The atom `nil`, which stands for the absence of a value.
    pub fn nil() -> (t: Term)
        ensures
            t@ == TermView::Atom("nil"@),
    {
        Term::Atom(String::from_str("nil"))
    }

    /// The atom with the given name.
    pub fn atom(name: &str) -> (t: Term)
        ensures
            t@ == TermView::Atom(name@),
    {
        Term::Atom(String::from_str(name))
    }
}

/// Copies the terms of a sequence.
fn clone_all(terms: &Vec<Term>) -> (out: Vec<Term>)
    ensures
        out@.len() == terms@.len(),
        forall|i: int| 0 <= i < out@.len() ==> (#[trigger] out@[i])@ == terms@[i]@,
    decreases terms,
{
    let mut out: Vec<Term> = Vec::new();
    let mut i: usize = 0;
    while i < terms.len()
        invariant
            i <= terms@.len(),
            out@.len() == i,
            forall|j: int| 0 <= j < i ==> (#[trigger] out@[j])@ == terms@[j]@,
        decreases terms@.len() - i,
    {
        let copy = terms[i].clone();
        out.push(copy);
        i = i + 1;
    }
    out
}

/// Copies the entries of a map.
fn clone_pairs(entries: &Vec<(Term, Term)>) -> (out: Vec<(Term, Term)>)
    ensures
        out@.len() == entries@.len(),
        forall|i: int|
            0 <= i < out@.len() ==> (#[trigger] out@[i]).0@ == entries@[i].0@ && out@[i].1@
                == entries@[i].1@,
    decreases entries,
{
    let mut out: Vec<(Term, Term)> = Vec::new();
    let mut i: usize = 0;
    while i < entries.len()
        invariant
            i <= entries@.len(),
            out@.len() == i,
            forall|j: int|
                0 <= j < i ==> (#[trigger] out@[j]).0@ == entries@[j].0@ && out@[j].1@
                    == entries@[j].1@,
        decreases entries@.len() - i,
    {
        let key = entries[i].0.clone();
        let value = entries[i].1.clone();
        out.push((key, value));
        i = i + 1;
    }
    out
}

impl Clone for Term {
    fn clone(&self) -> (r: Self)
        ensures
            r@ == self@,
        decreases self,
    {
        match self {
            Term::Atom(name) => Term::Atom(name.clone()),
            Term::FixInteger(value) => Term::FixInteger(*value),
            Term::BigInteger(negative, magnitude) => Term::BigInteger(
                *negative,
                magnitude.clone(),
            ),
            Term::Float(bits) => Term::Float(*bits),
            Term::Binary(bytes) => Term::Binary(bytes.clone()),
            Term::List(elements) => {
                let r = Term::List(clone_all(elements));
                assert(r@->List_0 =~= self@->List_0);
                r
            },
            Term::Tuple(elements) => {
                let r = Term::Tuple(clone_all(elements));
                assert(r@->Tuple_0 =~= self@->Tuple_0);
                r
            },
            Term::Dict(entries) => {
                let r = Term::Dict(clone_pairs(entries));
                assert(r@->Dict_0 =~= self@->Dict_0);
                r
            },
        }
    }
}

/// Copies the terms of a sequence, each in normal form.
fn normal_all(terms: &Vec<Term>) -> (out: Vec<Term>)
    ensures
        out@.len() == terms@.len(),
        forall|i: int|
            0 <= i < out@.len() ==> (#[trigger] out@[i])@ == terms@[i]@ && out@[i].is_normal(),
    decreases terms,
{
    let mut out: Vec<Term> = Vec::new();
    let mut i: usize = 0;
    while i < terms.len()
        invariant
            i <= terms@.len(),
            out@.len() == i,
            forall|j: int|
                0 <= j < i ==> (#[trigger] out@[j])@ == terms@[j]@ && out@[j].is_normal(),
        decreases terms@.len() - i,
    {
        let copy = terms[i].normal_copy();
        out.push(copy);
        i = i + 1;
    }
    out
}

/// Copies the entries of a map, each key and value in normal form.
fn normal_pairs(entries: &Vec<(Term, Term)>) -> (out: Vec<(Term, Term)>)
    ensures
        out@.len() == entries@.len(),
        forall|i: int|
            0 <= i < out@.len() ==> {
                &&& (#[trigger] out@[i]).0@ == entries@[i].0@
                &&& out@[i].1@ == entries@[i].1@
                &&& out@[i].0.is_normal()
                &&& out@[i].1.is_normal()
            },
    decreases entries,
{
    let mut out: Vec<(Term, Term)> = Vec::new();
    let mut i: usize = 0;
    while i < entries.len()
        invariant
            i <= entries@.len(),
            out@.len() == i,
            forall|j: int|
                0 <= j < i ==> {
                    &&& (#[trigger] out@[j]).0@ == entries@[j].0@
                    &&& out@[j].1@ == entries@[j].1@
                    &&& out@[j].0.is_normal()
                    &&& out@[j].1.is_normal()
                },
        decreases entries@.len() - i,
    {
        let key = entries[i].0.normal_copy();
        let value = entries[i].1.normal_copy();
        out.push((key, value));
        i = i + 1;
    }
    out
}

impl Term {
    /// A copy of the term with every big integer in normal form.
    pub fn normal_copy(&self) -> (r: Term)
        ensures
            r@ == self@,
            r.is_normal(),
        decreases self,
    {
        match self {
            Term::Atom(name) => Term::Atom(name.clone()),
            Term::FixInteger(value) => Term::FixInteger(*value),
            Term::BigInteger(negative, magnitude) => Term::big(*negative, magnitude.clone()),
            Term::Float(bits) => Term::Float(*bits),
            Term::Binary(bytes) => Term::Binary(bytes.clone()),
            Term::List(elements) => {
                let r = Term::List(normal_all(elements));
                assert(r@->List_0 =~= self@->List_0);
                r
            },
            Term::Tuple(elements) => {
                let r = Term::Tuple(normal_all(elements));
                assert(r@->Tuple_0 =~= self@->Tuple_0);
                r
            },
            Term::Dict(entries) => {
                let r = Term::Dict(normal_pairs(entries));
                assert(r@->Dict_0 =~= self@->Dict_0);
                r
            },
        }
    }
}

/// The digits in base 256 of a number, least significant first, none for
/// zero and none that is needless.
pub fn magnitude_of(n: u64) -> (digits: Vec<u8>)
    ensures
        le_value(digits@) == n,
        trimmed(digits@),
        digits@.len() == 0 <==> n == 0,
    decreases n,
{
    if n == 0 {
        Vec::new()
    } else {
        let mut digits = magnitude_of(n / 256);
        let ghost rest = digits@;
        digits.insert(0, (n % 256) as u8);
        assert(digits@.skip(1) =~= rest);
        assert(digits@.last() == if rest.len() == 0 {
            (n % 256) as u8
        } else {
            rest.last()
        });
        digits
    }
}

/// The value of a big integer as an integer of fixed width, if it fits.
pub fn small_value(negative: bool, magnitude: &[u8]) -> (r: Option<i32>)
    ensures
        match r {
            Some(v) => v as int == signed_value(negative, magnitude@),
            None => !(i32::MIN <= signed_value(negative, magnitude@) <= i32::MAX),
        },
{
    let mut i: usize = magnitude.len();
    let mut acc: u64 = 0;
    let mut over: bool = false;
    assert(magnitude@.skip(i as int) =~= Seq::<u8>::empty());
    while i > 0
        invariant
            i <= magnitude@.len(),
            over ==> le_value(magnitude@.skip(i as int)) > 0x8000_0000,
            !over ==> acc == le_value(magnitude@.skip(i as int)) && acc <= 0x8000_0000,
        decreases i,
    {
        i = i - 1;
        let ghost tail = magnitude@.skip(i as int);
        assert(tail.len() > 0 && tail[0] == magnitude@[i as int]);
        assert(tail.skip(1) =~= magnitude@.skip(i + 1));
        if !over {
            acc = acc * 256 + magnitude[i] as u64;
            if acc > 0x8000_0000 {
                over = true;
            }
        }
    }
    assert(magnitude@.skip(0) =~= magnitude@);
    if over {
        None
    } else if negative {
        if acc == 0x8000_0000 {
            Some(i32::MIN)
        } else {
            Some(-(acc as i32))
        }
    } else if acc <= 0x7fff_ffff {
        Some(acc as i32)
    } else {
        None
    }
}

/// A value that can be given as a term.
pub trait TermConvertable {
    /// The value of the term that stands for this.
    spec fn as_term(&self) -> TermView;

    /// The term that stands for this, with every big integer in normal form.
    fn to_term(&self) -> (t: Term)
        ensures
            t@ == self.as_term(),
            t.is_normal(),
    ;
}

/// The term that stands for a value.
pub fn to_term<T: TermConvertable>(v: &T) -> (t: Term)
    ensures
        t@ == v.as_term(),
        t.is_normal(),
{
    v.to_term()
}

impl TermConvertable for Term {
    open spec fn as_term(&self) -> TermView {
        self@
    }

    fn to_term(&self) -> (t: Term) {
        self.normal_copy()
    }
}

/// Text is carried as a byte string, not as an atom.
impl<'a> TermConvertable for &'a str {
    open spec fn as_term(&self) -> TermView {
        TermView::Binary(encode_utf8(self@))
    }

    fn to_term(&self) -> (t: Term) {
        Term::Binary(self.as_bytes_vec())
    }
}

impl TermConvertable for String {
    open spec fn as_term(&self) -> TermView {
        TermView::Binary(encode_utf8(self@))
    }

    fn to_term(&self) -> (t: Term) {
        Term::Binary(self.as_str().as_bytes_vec())
    }
}

impl<'a> TermConvertable for &'a [u8] {
    open spec fn as_term(&self) -> TermView {
        TermView::Binary(self@)
    }

    fn to_term(&self) -> (t: Term) {
        Term::Binary(vstd::slice::slice_to_vec(*self))
    }
}

impl TermConvertable for Vec<u8> {
    open spec fn as_term(&self) -> TermView {
        TermView::Binary(self@)
    }

    fn to_term(&self) -> (t: Term) {
        Term::Binary(self.clone())
    }
}

/// A native boolean is the atom `true` or `false`.
impl TermConvertable for bool {
    open spec fn as_term(&self) -> TermView {
        if *self {
            TermView::Atom("true"@)
        } else {
            TermView::Atom("false"@)
        }
    }

    fn to_term(&self) -> (t: Term) {
        if *self {
            Term::Atom(String::from_str("true"))
        } else {
            Term::Atom(String::from_str("false"))
        }
    }
}

impl TermConvertable for u8 {
    open spec fn as_term(&self) -> TermView {
        TermView::FixInteger(*self as i32)
    }

    fn to_term(&self) -> (t: Term) {
        Term::FixInteger(*self as i32)
    }
}

impl TermConvertable for i32 {
    open spec fn as_term(&self) -> TermView {
        TermView::FixInteger(*self)
    }

    fn to_term(&self) -> (t: Term) {
        Term::FixInteger(*self)
    }
}

/// An integer given in 64 bits is a big integer, whatever its size.
impl TermConvertable for u64 {
    open spec fn as_term(&self) -> TermView {
        TermView::BigInteger(*self as int)
    }

    fn to_term(&self) -> (t: Term) {
        Term::BigInteger(false, magnitude_of(*self))
    }
}

impl TermConvertable for i64 {
    open spec fn as_term(&self) -> TermView {
        TermView::BigInteger(*self as int)
    }

    fn to_term(&self) -> (t: Term) {
        let v: i64 = *self;
        if v < 0 {
            let magnitude: u64 = if v == i64::MIN {
                9223372036854775808u64
            } else {
                (-v) as u64
            };
            Term::BigInteger(true, magnitude_of(magnitude))
        } else {
            Term::BigInteger(false, magnitude_of(v as u64))
        }
    }
}

impl TermConvertable for usize {
    open spec fn as_term(&self) -> TermView {
        TermView::BigInteger(*self as int)
    }

    fn to_term(&self) -> (t: Term) {
        Term::BigInteger(false, magnitude_of(*self as u64))
    }
}

impl TermConvertable for isize {
    open spec fn as_term(&self) -> TermView {
        TermView::BigInteger(*self as int)
    }

    fn to_term(&self) -> (t: Term) {
        (*self as i64).to_term()
    }
}

} // verus!
