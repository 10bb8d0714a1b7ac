//! How terms, generic values and messages are written out for a reader.

use crate::gatewaymessage::{ReceivedGatewayMessage, ReceivedView, SendGatewayMessage};
use crate::jsvalue::{JSONValue, JsonView, Numeric};
use crate::term::{Term, TermView};
use crate::text::{
    big_decimal, decimal, decimal_text, digits, digits_text, float_numeral, float_text, text_of,
    utf8_text,
};
use vstd::prelude::*;
use vstd::string::StringExecFns;

verus! {

/// A run of `n` spaces.
pub open spec fn spaces(n: nat) -> Seq<char>
    decreases n,
{
    if n == 0 {
        Seq::empty()
    } else {
        spaces((n - 1) as nat) + " "@
    }
}

/// The indentation one level further in; it stops growing at the largest
/// number of 32 bits.
pub open spec fn nested(indent: nat, space: nat) -> nat {
    if indent + space > u32::MAX {
        u32::MAX as nat
    } else {
        indent + space
    }
}

/// The hexadecimal digit for a number below sixteen.
pub open spec fn hex_unit(d: int) -> Seq<char> {
    if d == 0 {
        "0"@
    } else if d == 1 {
        "1"@
    } else if d == 2 {
        "2"@
    } else if d == 3 {
        "3"@
    } else if d == 4 {
        "4"@
    } else if d == 5 {
        "5"@
    } else if d == 6 {
        "6"@
    } else if d == 7 {
        "7"@
    } else if d == 8 {
        "8"@
    } else if d == 9 {
        "9"@
    } else if d == 10 {
        "a"@
    } else if d == 11 {
        "b"@
    } else if d == 12 {
        "c"@
    } else if d == 13 {
        "d"@
    } else if d == 14 {
        "e"@
    } else {
        "f"@
    }
}

/// The first `n` bytes, each as a space and two hexadecimal digits.
pub open spec fn hex_bytes(bytes: Seq<u8>, n: nat) -> Seq<char>
    decreases n,
{
    if n == 0 || n > bytes.len() {
        Seq::empty()
    } else {
        hex_bytes(bytes, (n - 1) as nat) + " "@ + hex_unit(bytes[n - 1] as int / 16) + hex_unit(
            bytes[n - 1] as int % 16,
        )
    }
}

/// A term written out.
///
/// Atoms and binaries that are text stand in quotes, other binaries as their
/// bytes in hexadecimal. Lists and tuples stand on one line. A map has a line
/// for each entry, indented by `space` more than the map itself.
pub open spec fn term_text(t: TermView, indent: nat, space: nat) -> Seq<char>
    decreases t, 0nat,
{
    match t {
        TermView::Atom(name) => "\""@ + name + "\""@,
        TermView::FixInteger(value) => decimal(value as int),
        TermView::BigInteger(value) => decimal(value),
        TermView::Float(bits) => float_numeral(bits),
        TermView::Binary(bytes) => match text_of(bytes) {
            Some(text) => "\""@ + text + "\""@,
            None => "<Binary"@ + hex_bytes(bytes, bytes.len()) + ">"@,
        },
        TermView::List(items) => "[ "@ + terms_text(items, items.len(), indent, space) + " ]"@,
        TermView::Tuple(items) => "Tuple( "@ + terms_text(items, items.len(), indent, space)
            + " )"@,
        TermView::Dict(entries) => "{\n"@ + entries_text(
            entries,
            entries.len(),
            nested(indent, space),
            space,
        ) + "\n"@ + spaces(indent) + "}"@,
        TermView::Improper(_, _) => Seq::empty(),
        TermView::Unsupported => Seq::empty(),
    }
}

/// The first `n` terms written out, with a comma and a space between them.
pub open spec fn terms_text(items: Seq<TermView>, n: nat, indent: nat, space: nat) -> Seq<char>
    decreases items, n,
{
    if n == 0 || n > items.len() {
        Seq::empty()
    } else {
        terms_text(items, (n - 1) as nat, indent, space) + (if n == 1 {
            Seq::empty()
        } else {
            ", "@
        }) + term_text(items[n - 1], indent, space)
    }
}

/// The first `n` entries of a map written out, one on a line.
pub open spec fn entries_text(
    entries: Seq<(TermView, TermView)>,
    n: nat,
    indent: nat,
    space: nat,
) -> Seq<char>
    decreases entries, n,
{
    if n == 0 || n > entries.len() {
        Seq::empty()
    } else {
        entries_text(entries, (n - 1) as nat, indent, space) + (if n == 1 {
            Seq::empty()
        } else {
            ",\n"@
        }) + spaces(indent) + term_text(entries[n - 1].0, indent, space) + ": "@ + term_text(
            entries[n - 1].1,
            indent,
            space,
        )
    }
}

/// A number written out.
pub open spec fn numeric_text(n: Numeric) -> Seq<char> {
    match n {
        Numeric::Integer(value) => decimal(value as int),
        Numeric::Float(bits) => float_numeral(bits),
    }
}

/// A generic value written out, in the manner of `term_text`; the keys of an
/// object stand without quotes.
pub open spec fn json_text(v: JsonView, indent: nat, space: nat) -> Seq<char>
    decreases v, 0nat,
{
    match v {
        JsonView::Object(entries) => "{\n"@ + members_text(
            entries,
            entries.len(),
            nested(indent, space),
            space,
        ) + "\n"@ + spaces(indent) + "}"@,
        JsonView::Array(items) => "[ "@ + values_text(items, items.len(), indent, space) + " ]"@,
        JsonView::Str(text) => "\""@ + text + "\""@,
        JsonView::Number(n) => numeric_text(n),
        JsonView::Bool(b) => if b {
            "true"@
        } else {
            "false"@
        },
        JsonView::Null => "null"@,
    }
}

/// The first `n` values written out, with a comma and a space between them.
pub open spec fn values_text(items: Seq<JsonView>, n: nat, indent: nat, space: nat) -> Seq<char>
    decreases items, n,
{
    if n == 0 || n > items.len() {
        Seq::empty()
    } else {
        values_text(items, (n - 1) as nat, indent, space) + (if n == 1 {
            Seq::empty()
        } else {
            ", "@
        }) + json_text(items[n - 1], indent, space)
    }
}

/// The first `n` entries of an object written out, one on a line.
pub open spec fn members_text(
    entries: Seq<(Seq<char>, JsonView)>,
    n: nat,
    indent: nat,
    space: nat,
) -> Seq<char>
    decreases entries, n,
{
    if n == 0 || n > entries.len() {
        Seq::empty()
    } else {
        members_text(entries, (n - 1) as nat, indent, space) + (if n == 1 {
            Seq::empty()
        } else {
            ",\n"@
        }) + spaces(indent) + entries[n - 1].0 + ": "@ + json_text(entries[n - 1].1, indent, space)
    }
}

/// A run of spaces.
pub fn spaces_text(n: u32) -> (r: String)
    ensures
        r@ == spaces(n as nat),
{
    let mut r = String::new();
    let mut i: u32 = 0;
    while i < n
        invariant
            i <= n,
            r@ == spaces(i as nat),
        decreases n - i,
    {
        r.append(" ");
        i = i + 1;
    }
    r
}

/// The indentation one level further in.
pub fn nested_indent(indent: u32, space: u32) -> (r: u32)
    ensures
        r == nested(indent as nat, space as nat),
{
    if indent > u32::MAX - space {
        u32::MAX
    } else {
        indent + space
    }
}

/// The hexadecimal digit for a number below sixteen.
pub fn hex_text(d: u8) -> (r: &'static str)
    requires
        d < 16,
    ensures
        r@ == hex_unit(d as int),
{
    if d == 0 {
        "0"
    } else if d == 1 {
        "1"
    } else if d == 2 {
        "2"
    } else if d == 3 {
        "3"
    } else if d == 4 {
        "4"
    } else if d == 5 {
        "5"
    } else if d == 6 {
        "6"
    } else if d == 7 {
        "7"
    } else if d == 8 {
        "8"
    } else if d == 9 {
        "9"
    } else if d == 10 {
        "a"
    } else if d == 11 {
        "b"
    } else if d == 12 {
        "c"
    } else if d == 13 {
        "d"
    } else if d == 14 {
        "e"
    } else {
        "f"
    }
}

/// Text in quotes.
fn quoted(text: &str) -> (r: String)
    ensures
        r@ == "\""@ + text@ + "\""@,
{
    let mut r = String::from_str("\"");
    r.append(text);
    r.append("\"");
    r
}

/// Bytes in hexadecimal between `<Binary` and `>`.
fn binary_text(bytes: &Vec<u8>) -> (r: String)
    ensures
        r@ == "<Binary"@ + hex_bytes(bytes@, bytes@.len()) + ">"@,
{
    let mut r = String::from_str("<Binary");
    let mut i: usize = 0;
    assert(r@ =~= "<Binary"@ + hex_bytes(bytes@, 0));
    while i < bytes.len()
        invariant
            i <= bytes@.len(),
            r@ == "<Binary"@ + hex_bytes(bytes@, i as nat),
        decreases bytes@.len() - i,
    {
        let b: u8 = bytes[i];
        let ghost before = r@;
        r.append(" ");
        r.append(hex_text(b / 16));
        r.append(hex_text(b % 16));
        assert(r@ =~= "<Binary"@ + hex_bytes(bytes@, (i + 1) as nat)) by {
            assert(r@ == before + " "@ + hex_unit(b as int / 16) + hex_unit(b as int % 16));
        }
        i = i + 1;
    }
    r.append(">");
    r
}

/// Writes a term out.
pub fn term_to_string(d: &Term, initial_indent: u32, space: u32) -> (r: String)
    ensures
        r@ == term_text(d@, initial_indent as nat, space as nat),
    decreases d,
{
    match d {
        Term::Atom(name) => quoted(name.as_str()),
        Term::FixInteger(value) => decimal_text(*value as i64),
        Term::BigInteger(negative, magnitude) => big_decimal(*negative, magnitude.as_slice()),
        Term::Float(bits) => float_text(*bits),
        Term::Binary(bytes) => match utf8_text(bytes.as_slice()) {
            Some(text) => quoted(text),
            None => binary_text(bytes),
        },
        Term::List(items) => {
            let mut out = String::from_str("[ ");
            let ghost views = d@->List_0;
            let ghost indent = initial_indent as nat;
            let ghost step = space as nat;
            let mut i: usize = 0;
            assert(out@ =~= "[ "@ + terms_text(views, 0, indent, step));
            while i < items.len()
                invariant
                    i <= items@.len(),
                    views == d@->List_0,
                    d == Term::List(*items),
                    indent == initial_indent as nat,
                    step == space as nat,
                    out@ == "[ "@ + terms_text(views, i as nat, indent, step),
                decreases items@.len() - i,
            {
                let ghost before = out@;
                if i != 0 {
                    out.append(", ");
                }
                let item = term_to_string(&items[i], initial_indent, space);
                out.append(item.as_str());
                assert(views[i as int] == items@[i as int]@);
                assert(out@ =~= "[ "@ + terms_text(views, (i + 1) as nat, indent, step));
                i = i + 1;
            }
            out.append(" ]");
            out
        },
        Term::Tuple(items) => {
            let mut out = String::from_str("Tuple( ");
            let ghost views = d@->Tuple_0;
            let ghost indent = initial_indent as nat;
            let ghost step = space as nat;
            let mut i: usize = 0;
            assert(out@ =~= "Tuple( "@ + terms_text(views, 0, indent, step));
            while i < items.len()
                invariant
                    i <= items@.len(),
                    views == d@->Tuple_0,
                    d == Term::Tuple(*items),
                    indent == initial_indent as nat,
                    step == space as nat,
                    out@ == "Tuple( "@ + terms_text(views, i as nat, indent, step),
                decreases items@.len() - i,
            {
                if i != 0 {
                    out.append(", ");
                }
                let item = term_to_string(&items[i], initial_indent, space);
                out.append(item.as_str());
                assert(views[i as int] == items@[i as int]@);
                assert(out@ =~= "Tuple( "@ + terms_text(views, (i + 1) as nat, indent, step));
                i = i + 1;
            }
            out.append(" )");
            out
        },
        Term::Dict(entries) => {
            let mut out = String::from_str("{\n");
            let inner: u32 = nested_indent(initial_indent, space);
            let ghost views = d@->Dict_0;
            let ghost indent = inner as nat;
            let ghost step = space as nat;
            let mut i: usize = 0;
            assert(out@ =~= "{\n"@ + entries_text(views, 0, indent, step));
            while i < entries.len()
                invariant
                    i <= entries@.len(),
                    views == d@->Dict_0,
                    d == Term::Dict(*entries),
                    indent == inner as nat,
                    step == space as nat,
                    out@ == "{\n"@ + entries_text(views, i as nat, indent, step),
                decreases entries@.len() - i,
            {
                if i != 0 {
                    out.append(",\n");
                }
                let margin = spaces_text(inner);
                out.append(margin.as_str());
                let key = term_to_string(&entries[i].0, inner, space);
                out.append(key.as_str());
                out.append(": ");
                let value = term_to_string(&entries[i].1, inner, space);
                out.append(value.as_str());
                assert(views[i as int] == (entries@[i as int].0@, entries@[i as int].1@));
                assert(out@ =~= "{\n"@ + entries_text(views, (i + 1) as nat, indent, step));
                i = i + 1;
            }
            out.append("\n");
            let margin = spaces_text(initial_indent);
            out.append(margin.as_str());
            out.append("}");
            out
        },
    }
}

impl JSONValue {
    /// Writes the value out.
    pub fn to_string(&self, initial_indent: u32, space: u32) -> (r: String)
        ensures
            r@ == json_text(self@, initial_indent as nat, space as nat),
        decreases self,
    {
        match self {
            JSONValue::Object(entries) => {
                let mut out = String::from_str("{\n");
                let inner: u32 = nested_indent(initial_indent, space);
                let ghost views = self@->Object_0;
                let ghost indent = inner as nat;
                let ghost step = space as nat;
                let mut i: usize = 0;
                assert(out@ =~= "{\n"@ + members_text(views, 0, indent, step));
                while i < entries.len()
                    invariant
                        i <= entries@.len(),
                        views == self@->Object_0,
                        self == JSONValue::Object(*entries),
                        indent == inner as nat,
                        step == space as nat,
                        out@ == "{\n"@ + members_text(views, i as nat, indent, step),
                    decreases entries@.len() - i,
                {
                    if i != 0 {
                        out.append(",\n");
                    }
                    let margin = spaces_text(inner);
                    out.append(margin.as_str());
                    out.append(entries[i].0.as_str());
                    out.append(": ");
                    let value = entries[i].1.to_string(inner, space);
                    out.append(value.as_str());
                    assert(views[i as int] == (entries@[i as int].0@, entries@[i as int].1@));
                    assert(out@ =~= "{\n"@ + members_text(views, (i + 1) as nat, indent, step));
                    i = i + 1;
                }
                out.append("\n");
                let margin = spaces_text(initial_indent);
                out.append(margin.as_str());
                out.append("}");
                out
            },
            JSONValue::Array(items) => {
                let mut out = String::from_str("[ ");
                let ghost views = self@->Array_0;
                let ghost indent = initial_indent as nat;
                let ghost step = space as nat;
                let mut i: usize = 0;
                assert(out@ =~= "[ "@ + values_text(views, 0, indent, step));
                while i < items.len()
                    invariant
                        i <= items@.len(),
                        views == self@->Array_0,
                        self == JSONValue::Array(*items),
                        indent == initial_indent as nat,
                        step == space as nat,
                        out@ == "[ "@ + values_text(views, i as nat, indent, step),
                    decreases items@.len() - i,
                {
                    if i != 0 {
                        out.append(", ");
                    }
                    let item = items[i].to_string(initial_indent, space);
                    out.append(item.as_str());
                    assert(views[i as int] == items@[i as int]@);
                    assert(out@ =~= "[ "@ + values_text(views, (i + 1) as nat, indent, step));
                    i = i + 1;
                }
                out.append(" ]");
                out
            },
            JSONValue::Str(text) => quoted(text.as_str()),
            JSONValue::Number(n) => match n {
                Numeric::Integer(value) => decimal_text(*value as i64),
                Numeric::Float(bits) => float_text(*bits),
            },
            JSONValue::Bool(b) => if *b {
                String::from_str("true")
            } else {
                String::from_str("false")
            },
            JSONValue::Null => String::from_str("null"),
        }
    }
}

/// What stands for an absent number.
pub open spec fn number_or_null(n: Option<i32>) -> Seq<char> {
    match n {
        Some(value) => decimal(value as int),
        None => "null"@,
    }
}

/// What stands for an absent text.
pub open spec fn text_or_null(t: Option<Seq<char>>) -> Seq<char> {
    match t {
        Some(text) => text,
        None => "null"@,
    }
}

/// A received message written out: its shard, then the opcode, the payload,
/// the sequence number and the event name, each on a line.
pub open spec fn received_text(m: ReceivedView) -> Seq<char> {
    "GatewayMessage (shard_id: "@ + digits(m.shard_id as nat) + ") {\n  op: "@ + digits(
        m.op as nat,
    ) + ",\n  d: "@ + json_text(m.data, 2, 2) + ",\n  s: "@ + number_or_null(m.sequence)
        + ",\n  t: "@ + text_or_null(m.event_name) + "\n}"@
}

/// A message to send written out: its shard, then the opcode and the payload.
pub open spec fn send_text(shard_id: u64, code: u8, data: TermView) -> Seq<char> {
    "GatewayMessage (shard_id: "@ + digits(shard_id as nat) + ") {\n  op: "@ + digits(
        code as nat,
    ) + ",\n  d: "@ + term_text(data, 2, 2) + "\n}"@
}

impl ReceivedGatewayMessage {
    /// Writes the message out.
    pub fn to_string(&self) -> (r: String)
        ensures
            r@ == received_text(self@),
    {
        let mut out = String::from_str("GatewayMessage (shard_id: ");
        out.append(digits_text(self.shard_id).as_str());
        out.append(") {\n  op: ");
        out.append(digits_text(self.op as u64).as_str());
        out.append(",\n  d: ");
        out.append(self.data.to_string(2, 2).as_str());
        out.append(",\n  s: ");
        match self.sequence {
            Some(value) => {
                out.append(decimal_text(value as i64).as_str());
            },
            None => {
                out.append("null");
            },
        }
        out.append(",\n  t: ");
        match &self.event_name {
            Some(name) => {
                out.append(name.as_str());
            },
            None => {
                out.append("null");
            },
        }
        out.append("\n}");
        out
    }
}

impl SendGatewayMessage {
    /// Writes the message out.
    pub fn to_string(&self) -> (r: String)
        ensures
            r@ == send_text(self.shard_id, self.op.spec_code(), self.data@),
    {
        let mut out = String::from_str("GatewayMessage (shard_id: ");
        out.append(digits_text(self.shard_id).as_str());
        out.append(") {\n  op: ");
        out.append(digits_text(self.op.code() as u64).as_str());
        out.append(",\n  d: ");
        out.append(term_to_string(&self.data, 2, 2).as_str());
        out.append("\n}");
        out
    }
}

} // verus!
