//! A generic value in the shape of JSON, and how a term is read as one.

use crate::term::{small_value, Term, TermView};
use crate::text::{big_decimal, decimal, same_text, text_of, utf8_text};
use vstd::prelude::*;
use vstd::string::StringExecFns;

verus! {

/// A number: an integer of fixed width, or a double given by its IEEE-754 bits.
#[derive(Debug, Clone, Copy, PartialEq, Eq)]
pub enum Numeric {
    Integer(i32),
    Float(u64),
}

/// A value in the shape of JSON. The keys of an object are distinct.
#[derive(Debug, PartialEq, Eq)]
pub enum JSONValue {
    Object(Vec<(String, JSONValue)>),
    Array(Vec<JSONValue>),
    Str(String),
    Number(Numeric),
    Bool(bool),
    Null,
}

/// The mathematical value of a `JSONValue`.
pub enum JsonView {
    Object(Seq<(Seq<char>, JsonView)>),
    Array(Seq<JsonView>),
    Str(Seq<char>),
    Number(Numeric),
    Bool(bool),
    Null,
}

/// Where the entry with the given key stands, if there is one.
pub open spec fn key_index(entries: Seq<(Seq<char>, JsonView)>, key: Seq<char>) -> Option<int> {
    if exists|i: int| 0 <= i < entries.len() && (#[trigger] entries[i]).0 == key {
        Some(
            choose|i: int|
                0 <= i < entries.len() && (#[trigger] entries[i]).0 == key && forall|j: int|
                    0 <= j < i ==> (#[trigger] entries[j]).0 != key,
        )
    } else {
        None
    }
}

/// The entries with `value` under `key`: in place of the value that was
/// there, or at the end.
pub open spec fn upsert(entries: Seq<(Seq<char>, JsonView)>, key: Seq<char>, value: JsonView) -> Seq<
    (Seq<char>, JsonView),
> {
    match key_index(entries, key) {
        Some(i) => entries.update(i, (key, value)),
        None => entries.push((key, value)),
    }
}

/// The key that a term gives in an object: an atom's name, the text of a
/// binary, and a fixed marker for anything else.
pub open spec fn object_key(k: TermView) -> Seq<char> {
    match k {
        TermView::Atom(name) => name,
        TermView::Binary(bytes) => match text_of(bytes) {
            Some(text) => text,
            None => "INVALID_KEY"@,
        },
        _ => "INVALID_KEY"@,
    }
}

/// A term read as a generic value.
///
/// The atoms `nil`, `true` and `false` are null and the booleans, any other
/// atom is its name. An integer is a number where it fits the fixed width,
/// whichever kind of term carried it; a larger one is its decimal numeral,
/// as text, so that no digit is lost. A binary is its text, or null where it is not UTF-8. Lists
/// and tuples are arrays. A map is an object; where a key comes twice, the
/// later value stands in the place of the earlier.
pub open spec fn json_of(t: TermView) -> JsonView
    decreases t, 0nat,
{
    match t {
        TermView::Atom(name) => if name == "nil"@ {
            JsonView::Null
        } else if name == "true"@ {
            JsonView::Bool(true)
        } else if name == "false"@ {
            JsonView::Bool(false)
        } else {
            JsonView::Str(name)
        },
        TermView::FixInteger(value) => JsonView::Number(Numeric::Integer(value)),
        TermView::BigInteger(value) => if i32::MIN <= value <= i32::MAX {
            JsonView::Number(Numeric::Integer(value as i32))
        } else {
            JsonView::Str(decimal(value))
        },
        TermView::Float(bits) => JsonView::Number(Numeric::Float(bits)),
        TermView::Binary(bytes) => match text_of(bytes) {
            Some(text) => JsonView::Str(text),
            None => JsonView::Null,
        },
        TermView::List(elements) => JsonView::Array(
            Seq::new(
                elements.len(),
                |i: int|
                    if 0 <= i < elements.len() {
                        json_of(elements[i])
                    } else {
                        JsonView::Null
                    },
            ),
        ),
        TermView::Tuple(elements) => JsonView::Array(
            Seq::new(
                elements.len(),
                |i: int|
                    if 0 <= i < elements.len() {
                        json_of(elements[i])
                    } else {
                        JsonView::Null
                    },
            ),
        ),
        TermView::Dict(entries) => JsonView::Object(object_of(entries, entries.len())),
        TermView::Improper(_, _) => JsonView::Null,
        TermView::Unsupported => JsonView::Null,
    }
}

/// The object that the first `n` entries of a map give.
pub open spec fn object_of(entries: Seq<(TermView, TermView)>, n: nat) -> Seq<
    (Seq<char>, JsonView),
>
    decreases entries, n,
{
    if n == 0 || n > entries.len() {
        Seq::empty()
    } else {
        upsert(
            object_of(entries, (n - 1) as nat),
            object_key(entries[n - 1].0),
            json_of(entries[n - 1].1),
        )
    }
}

/// Whether no key stands twice.
pub open spec fn distinct_keys(entries: Seq<(Seq<char>, JsonView)>) -> bool {
    forall|i: int, j: int|
        0 <= i < j < entries.len() ==> (#[trigger] entries[i]).0 != (#[trigger] entries[j]).0
}

/// The value under a key, if the key is there.
pub open spec fn lookup(entries: Seq<(Seq<char>, JsonView)>, key: Seq<char>) -> Option<JsonView> {
    match key_index(entries, key) {
        Some(i) => Some(entries[i].1),
        None => None,
    }
}

/// Putting a value under a key keeps the keys distinct, leaves the value
/// under the key, and leaves every other key with the value it had.
pub proof fn lemma_upsert(entries: Seq<(Seq<char>, JsonView)>, key: Seq<char>, value: JsonView)
    requires
        distinct_keys(entries),
    ensures
        distinct_keys(upsert(entries, key, value)),
        lookup(upsert(entries, key, value), key) == Some(value),
        forall|other: Seq<char>|
            other != key ==> lookup(upsert(entries, key, value), other) == lookup(entries, other),
{
    let after = upsert(entries, key, value);
    lemma_key_index(entries, key);
    lemma_key_index(after, key);
    match key_index(entries, key) {
        Some(at) => {
            assert(after[at] == (key, value));
            assert forall|i: int, j: int| 0 <= i < j < after.len() implies (#[trigger] after[i]).0
                != (#[trigger] after[j]).0 by {
                assert(after[i].0 == entries[i].0);
                assert(after[j].0 == entries[j].0);
            }
            match key_index(after, key) {
                Some(found) => {
                    if found < at {
                        assert(after[found].0 != after[at].0);
                    }
                    if at < found {
                        assert(after[at].0 != key);
                    }
                },
                None => {
                    assert(after[at].0 != key);
                },
            }
            assert forall|other: Seq<char>| other != key implies lookup(after, other) == lookup(
                entries,
                other,
            ) by {
                assert forall|i: int| 0 <= i < entries.len() implies (#[trigger] entries[i]).0
                    == after[i].0 by {}
                lemma_same_keys_same_index(entries, after, other);
                lemma_key_index(entries, other);
                if key_index(entries, other) is Some {
                    let i = key_index(entries, other)->Some_0;
                    assert(i != at);
                    assert(after[i] == entries[i]);
                }
            }
        },
        None => {
            let last = entries.len() as int;
            assert(after[last] == (key, value));
            assert forall|i: int, j: int| 0 <= i < j < after.len() implies (#[trigger] after[i]).0
                != (#[trigger] after[j]).0 by {
                assert(after[i] == entries[i]);
                if j < last {
                    assert(after[j] == entries[j]);
                } else {
                    assert(entries[i].0 != key);
                }
            }
            match key_index(after, key) {
                Some(found) => {
                    if found < last {
                        assert(after[found] == entries[found]);
                        assert(entries[found].0 != key);
                    }
                },
                None => {
                    assert(after[last].0 != key);
                },
            }
            assert forall|other: Seq<char>| other != key implies lookup(after, other) == lookup(
                entries,
                other,
            ) by {
                lemma_key_index(entries, other);
                lemma_key_index(after, other);
                match key_index(entries, other) {
                    Some(i) => {
                        assert(after[i] == entries[i]);
                        match key_index(after, other) {
                            Some(k) => {
                                if k < i {
                                    assert(after[k] == entries[k]);
                                    assert(entries[k].0 != other);
                                }
                                if i < k {
                                    assert(after[i].0 != other);
                                }
                            },
                            None => {
                                assert(after[i].0 != other);
                            },
                        }
                    },
                    None => {
                        match key_index(after, other) {
                            Some(k) => {
                                if k < last {
                                    assert(after[k] == entries[k]);
                                    assert(entries[k].0 != other);
                                }
                            },
                            None => {},
                        }
                    },
                }
            }
        },
    }
}

/// Whether `at` is the first place where `key` stands.
pub open spec fn first_at(entries: Seq<(Seq<char>, JsonView)>, key: Seq<char>, at: int) -> bool {
    &&& 0 <= at < entries.len()
    &&& entries[at].0 == key
    &&& forall|j: int| 0 <= j < at ==> (#[trigger] entries[j]).0 != key
}

/// `key_index` finds the first place of a key, and finds nothing only where
/// the key stands nowhere.
pub proof fn lemma_key_index(entries: Seq<(Seq<char>, JsonView)>, key: Seq<char>)
    ensures
        match key_index(entries, key) {
            Some(at) => first_at(entries, key, at),
            None => forall|i: int| 0 <= i < entries.len() ==> (#[trigger] entries[i]).0 != key,
        },
{
    if exists|i: int| 0 <= i < entries.len() && (#[trigger] entries[i]).0 == key {
        let w = choose|i: int| 0 <= i < entries.len() && (#[trigger] entries[i]).0 == key;
        lemma_first_exists(entries, key, w);
    }
}

/// Where a key stands at all, it has a first place.
proof fn lemma_first_exists(entries: Seq<(Seq<char>, JsonView)>, key: Seq<char>, w: int)
    requires
        0 <= w < entries.len(),
        entries[w].0 == key,
    ensures
        exists|i: int|
            0 <= i < entries.len() && (#[trigger] entries[i]).0 == key && forall|j: int|
                0 <= j < i ==> (#[trigger] entries[j]).0 != key,
    decreases w,
{
    if forall|j: int| 0 <= j < w ==> (#[trigger] entries[j]).0 != key {
    } else {
        let j = choose|j: int| 0 <= j < w && (#[trigger] entries[j]).0 == key;
        lemma_first_exists(entries, key, j);
    }
}

/// Two sequences with the same keys at the same places find a key at the
/// same place.
proof fn lemma_same_keys_same_index(
    a: Seq<(Seq<char>, JsonView)>,
    b: Seq<(Seq<char>, JsonView)>,
    key: Seq<char>,
)
    requires
        a.len() == b.len(),
        forall|i: int| 0 <= i < a.len() ==> (#[trigger] a[i]).0 == b[i].0,
    ensures
        key_index(a, key) == key_index(b, key),
{
    lemma_key_index(a, key);
    lemma_key_index(b, key);
    match key_index(a, key) {
        Some(i) => {
            assert(a[i].0 == b[i].0);
            match key_index(b, key) {
                Some(j) => {
                    assert(a[j].0 == b[j].0);
                    if i < j {
                        assert(b[i].0 != key);
                    }
                    if j < i {
                        assert(a[j].0 != key);
                    }
                },
                None => {
                    assert(b[i].0 != key);
                },
            }
        },
        None => {
            match key_index(b, key) {
                Some(j) => {
                    assert(a[j].0 == b[j].0);
                    assert(a[j].0 != key);
                },
                None => {},
            }
        },
    }
}

/// The keys of the object that a map gives are distinct.
pub proof fn lemma_object_keys_distinct(entries: Seq<(TermView, TermView)>, n: nat)
    ensures
        distinct_keys(object_of(entries, n)),
    decreases n,
{
    if n == 0 || n > entries.len() {
    } else {
        lemma_object_keys_distinct(entries, (n - 1) as nat);
        lemma_upsert(
            object_of(entries, (n - 1) as nat),
            object_key(entries[n - 1].0),
            json_of(entries[n - 1].1),
        );
    }
}

/// In the object that a map gives, the value under a key is that of the last
/// entry of the map with this key.
pub proof fn lemma_last_entry_wins(entries: Seq<(TermView, TermView)>, n: nat, at: int)
    requires
        0 <= at < n <= entries.len(),
        forall|j: int| at < j < n ==> object_key(#[trigger] entries[j].0) != object_key(
            entries[at].0,
        ),
    ensures
        lookup(object_of(entries, n), object_key(entries[at].0)) == Some(json_of(entries[at].1)),
    decreases n,
{
    lemma_object_keys_distinct(entries, (n - 1) as nat);
    lemma_upsert(
        object_of(entries, (n - 1) as nat),
        object_key(entries[n - 1].0),
        json_of(entries[n - 1].1),
    );
    if at == n - 1 {
    } else {
        lemma_last_entry_wins(entries, (n - 1) as nat, at);
        assert(object_key(entries[n - 1].0) != object_key(entries[at].0));
    }
}

impl JSONValue {
    pub open spec fn view(&self) -> JsonView
        decreases self,
    {
        match self {
            JSONValue::Object(entries) => JsonView::Object(
                Seq::new(
                    entries@.len(),
                    |i: int|
                        if 0 <= i < entries@.len() {
                            (entries@[i].0@, entries@[i].1.view())
                        } else {
                            (Seq::empty(), JsonView::Null)
                        },
                ),
            ),
            JSONValue::Array(elements) => JsonView::Array(
                Seq::new(
                    elements@.len(),
                    |i: int|
                        if 0 <= i < elements@.len() {
                            elements@[i].view()
                        } else {
                            JsonView::Null
                        },
                ),
            ),
            JSONValue::Str(text) => JsonView::Str(text@),
            JSONValue::Number(n) => JsonView::Number(*n),
            JSONValue::Bool(b) => JsonView::Bool(*b),
            JSONValue::Null => JsonView::Null,
        }
    }

    /// Reads a term as a generic value.
    pub fn from_term(d: &Term) -> (r: JSONValue)
        ensures
            r@ == json_of(d@),
        decreases d, 1nat,
    {
        match d {
            Term::Atom(name) => {
                if same_text(name.as_str(), "nil") {
                    JSONValue::Null
                } else if same_text(name.as_str(), "true") {
                    JSONValue::Bool(true)
                } else if same_text(name.as_str(), "false") {
                    JSONValue::Bool(false)
                } else {
                    JSONValue::Str(name.clone())
                }
            },
            Term::FixInteger(value) => JSONValue::Number(Numeric::Integer(*value)),
            Term::BigInteger(negative, magnitude) => match small_value(
                *negative,
                magnitude.as_slice(),
            ) {
                Some(value) => JSONValue::Number(Numeric::Integer(value)),
                None => JSONValue::Str(big_decimal(*negative, magnitude.as_slice())),
            },
            Term::Float(bits) => JSONValue::Number(Numeric::Float(*bits)),
            Term::Binary(bytes) => match utf8_text(bytes.as_slice()) {
                Some(text) => JSONValue::Str(String::from_str(text)),
                None => JSONValue::Null,
            },
            Term::List(elements) => {
                let r = JSONValue::Array(array_of(elements));
                assert(r@->Array_0 =~= json_of(d@)->Array_0);
                r
            },
            Term::Tuple(elements) => {
                let r = JSONValue::Array(array_of(elements));
                assert(r@->Array_0 =~= json_of(d@)->Array_0);
                r
            },
            Term::Dict(entries) => {
                let out = entries_of(entries);
                assert(d@->Dict_0 =~= pair_views(entries@));
                let r = JSONValue::Object(out);
                assert(r@->Object_0 =~= entry_views(r->Object_0@));
                r
            },
        }
    }
}

/// Reads the terms of a sequence as generic values.
fn array_of(elements: &Vec<Term>) -> (out: Vec<JSONValue>)
    ensures
        out@.len() == elements@.len(),
        forall|i: int| 0 <= i < out@.len() ==> (#[trigger] out@[i])@ == json_of(elements@[i]@),
    decreases elements, 0nat,
{
    let mut out: Vec<JSONValue> = Vec::new();
    let mut i: usize = 0;
    while i < elements.len()
        invariant
            i <= elements@.len(),
            out@.len() == i,
            forall|j: int| 0 <= j < i ==> (#[trigger] out@[j])@ == json_of(elements@[j]@),
        decreases elements@.len() - i,
    {
        let value = JSONValue::from_term(&elements[i]);
        out.push(value);
        i = i + 1;
    }
    out
}

/// The views of the entries of an object.
pub open spec fn entry_views(entries: Seq<(String, JSONValue)>) -> Seq<(Seq<char>, JsonView)> {
    Seq::new(entries.len(), |i: int| (entries[i].0@, entries[i].1@))
}

/// The views of the entries of a map.
pub open spec fn pair_views(entries: Seq<(Term, Term)>) -> Seq<(TermView, TermView)> {
    Seq::new(entries.len(), |i: int| (entries[i].0@, entries[i].1@))
}

/// The key that a term gives in an object.
fn key_of(k: &Term) -> (key: String)
    ensures
        key@ == object_key(k@),
{
    match k {
        Term::Atom(name) => name.clone(),
        Term::Binary(bytes) => match utf8_text(bytes.as_slice()) {
            Some(text) => String::from_str(text),
            None => String::from_str("INVALID_KEY"),
        },
        _ => String::from_str("INVALID_KEY"),
    }
}

/// Finds the entry with the given key.
fn find_key(entries: &Vec<(String, JSONValue)>, key: &String) -> (r: Option<usize>)
    ensures
        match r {
            Some(i) => i < entries@.len() && key_index(entry_views(entries@), key@) == Some(
                i as int,
            ),
            None => key_index(entry_views(entries@), key@) is None,
        },
{
    let ghost views = entry_views(entries@);
    let mut i: usize = 0;
    while i < entries.len()
        invariant
            i <= entries@.len(),
            views == entry_views(entries@),
            forall|j: int| 0 <= j < i ==> (#[trigger] views[j]).0 != key@,
        decreases entries@.len() - i,
    {
        assert(views[i as int].0 == entries@[i as int].0@);
        if same_text(entries[i].0.as_str(), key.as_str()) {
            return Some(i);
        }
        i = i + 1;
    }
    None
}

/// Reads the entries of a map as the entries of an object.
fn entries_of(entries: &Vec<(Term, Term)>) -> (out: Vec<(String, JSONValue)>)
    ensures
        entry_views(out@) == object_of(pair_views(entries@), entries@.len() as nat),
    decreases entries, 0nat,
{
    let ghost pairs = pair_views(entries@);
    let mut out: Vec<(String, JSONValue)> = Vec::new();
    let mut i: usize = 0;
    assert(entry_views(out@) =~= object_of(pairs, 0));
    while i < entries.len()
        invariant
            i <= entries@.len(),
            pairs == pair_views(entries@),
            entry_views(out@) == object_of(pairs, i as nat),
        decreases entries@.len() - i,
    {
        let ghost before = entry_views(out@);
        assert(pairs[i as int] == (entries@[i as int].0@, entries@[i as int].1@));
        let key = key_of(&entries[i].0);
        let value = JSONValue::from_term(&entries[i].1);
        match find_key(&out, &key) {
            Some(at) => {
                out.set(at, (key, value));
                assert(entry_views(out@) =~= before.update(at as int, (key@, value@)));
            },
            None => {
                out.push((key, value));
                assert(entry_views(out@) =~= before.push((key@, value@)));
            },
        }
        i = i + 1;
    }
    out
}

} // verus!
