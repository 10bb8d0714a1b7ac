//! Gateway messages: what arrives from a shard's connection and what is sent on it.

use crate::codec::{encode_spec, EncodeError};
use crate::jsvalue::{json_of, pair_views, JSONValue, JsonView};
use crate::term::{Term, TermView};
use crate::text::{bytes_spell, same_text, text_of, utf8_text};
use vstd::prelude::*;
use vstd::string::StringExecFns;

verus! {

/// Why a term is not a gateway message.
#[derive(Debug, Clone, Copy, PartialEq, Eq)]
pub enum ParseError {
    /// The term is not a map.
    NotAMap,
    /// An `op` entry holds something other than an integer of fixed width.
    OpNotInteger,
    /// No entry is named `op`.
    OpMissing,
}

impl ParseError {
    /// The error in words.
    pub fn message(&self) -> (r: &'static str)
        ensures
            r@ == match *self {
                ParseError::NotAMap => "Invalid format: Expected map"@,
                ParseError::OpNotInteger => "The opcode must be an integer"@,
                ParseError::OpMissing => "The opcode missing"@,
            },
    {
        match self {
            ParseError::NotAMap => "Invalid format: Expected map",
            ParseError::OpNotInteger => "The opcode must be an integer",
            ParseError::OpMissing => "The opcode missing",
        }
    }
}

/// A message that arrived on a shard's connection.
///
/// Only a dispatch, opcode 0, carries a sequence number and an event name.
#[derive(Debug, PartialEq, Eq)]
pub struct ReceivedGatewayMessage {
    pub shard_id: u64,
    pub op: u8,
    pub data: JSONValue,
    pub sequence: Option<i32>,
    pub event_name: Option<String>,
}

/// The mathematical value of a received message.
pub struct ReceivedView {
    pub shard_id: u64,
    pub op: u8,
    pub data: JsonView,
    pub sequence: Option<i32>,
    pub event_name: Option<Seq<char>>,
}

/// The opcodes that a client sends.
#[derive(Debug, Clone, Copy, PartialEq, Eq)]
pub enum SendOP {
    Heartbeat,
    Identify,
    PresenceUpdate,
    VoiceStateUpdate,
    Resume,
    RequestGuildMembers,
}

/// A message to send on a shard's connection.
#[derive(Debug, PartialEq, Eq)]
pub struct SendGatewayMessage {
    pub shard_id: u64,
    pub op: SendOP,
    pub data: Term,
}

/// The name that a key spells: an atom's name or the text of a binary.
pub open spec fn key_text(k: TermView) -> Option<Seq<char>> {
    match k {
        TermView::Atom(name) => Some(name),
        TermView::Binary(bytes) => text_of(bytes),
        _ => None,
    }
}

/// The value of the last entry that is named `name` and whose value is
/// `usable`, if there is one.
pub open spec fn last_value(
    entries: Seq<(TermView, TermView)>,
    name: Seq<char>,
    usable: spec_fn(TermView) -> bool,
) -> Option<TermView>
    decreases entries.len(),
{
    if entries.len() == 0 {
        None
    } else if key_text(entries.last().0) == Some(name) && usable(entries.last().1) {
        Some(entries.last().1)
    } else {
        last_value(entries.drop_last(), name, usable)
    }
}

pub open spec fn any_value() -> spec_fn(TermView) -> bool {
    |v: TermView| true
}

pub open spec fn is_fix_integer() -> spec_fn(TermView) -> bool {
    |v: TermView| v is FixInteger
}

/// Whether a value can name an event: an atom, or a binary that is text.
pub open spec fn is_name() -> spec_fn(TermView) -> bool {
    |v: TermView| key_text(v) is Some
}

/// Whether some entry named `op` holds something other than an integer of fixed width.
pub open spec fn has_bad_op(entries: Seq<(TermView, TermView)>) -> bool {
    exists|i: int|
        0 <= i < entries.len() && key_text((#[trigger] entries[i]).0) == Some("op"@)
            && !(entries[i].1 is FixInteger)
}

/// The low eight bits of an integer.
pub open spec fn low_byte(v: i32) -> u8 {
    (v as int % 256) as u8
}

/// The message that a term holds, or why it holds none.
///
/// The term must be a map. Its entries are told apart by the names of their
/// keys, and of entries with one name the last usable one counts. `op` is
/// required and must be an integer of fixed width wherever it occurs; `d` is
/// the payload, null when absent; `s` and `t` are the sequence number and the
/// event name, kept for a dispatch only.
pub open spec fn parse_spec(shard_id: u64, t: TermView) -> Result<ReceivedView, ParseError> {
    match t {
        TermView::Dict(entries) => {
            if has_bad_op(entries) {
                Err(ParseError::OpNotInteger)
            } else {
                match last_value(entries, "op"@, any_value()) {
                    None => Err(ParseError::OpMissing),
                    Some(code) => {
                        let op = low_byte(code->FixInteger_0);
                        Ok(
                            ReceivedView {
                                shard_id,
                                op,
                                data: match last_value(entries, "d"@, any_value()) {
                                    Some(d) => json_of(d),
                                    None => JsonView::Null,
                                },
                                sequence: if op == 0 {
                                    match last_value(entries, "s"@, is_fix_integer()) {
                                        Some(s) => Some(s->FixInteger_0),
                                        None => None,
                                    }
                                } else {
                                    None
                                },
                                event_name: if op == 0 {
                                    match last_value(entries, "t"@, is_name()) {
                                        Some(name) => key_text(name),
                                        None => None,
                                    }
                                } else {
                                    None
                                },
                            },
                        )
                    },
                }
            }
        },
        _ => Err(ParseError::NotAMap),
    }
}

/// A message whose opcode is not that of a dispatch carries neither a
/// sequence number nor an event name, whatever the term held.
pub proof fn lemma_only_dispatch_carries(shard_id: u64, t: TermView)
    ensures
        parse_spec(shard_id, t) matches Ok(m) ==> (m.op != 0 ==> m.sequence is None
            && m.event_name is None),
{
}

/// The low eight bits of an integer.
pub fn low_byte_of(v: i32) -> (r: u8)
    ensures
        r == low_byte(v),
{
    if v >= 0 {
        (v % 256) as u8
    } else {
        let below: i32 = -(v + 1);
        (255 - below % 256) as u8
    }
}

/// Whether a key spells the given name.
fn key_is(k: &Term, name: &str) -> (r: bool)
    ensures
        r == (key_text(k@) == Some(name@)),
{
    match k {
        Term::Atom(n) => same_text(n.as_str(), name),
        Term::Binary(bytes) => bytes_spell(bytes.as_slice(), name),
        _ => false,
    }
}

/// The name that a term spells.
fn name_of(v: &Term) -> (r: Option<String>)
    ensures
        match r {
            Some(s) => key_text(v@) == Some(s@),
            None => key_text(v@) is None,
        },
{
    match v {
        Term::Atom(name) => Some(name.clone()),
        Term::Binary(bytes) => match utf8_text(bytes.as_slice()) {
            Some(text) => Some(String::from_str(text)),
            None => None,
        },
        _ => None,
    }
}

impl ReceivedGatewayMessage {
    pub open spec fn view(&self) -> ReceivedView {
        ReceivedView {
            shard_id: self.shard_id,
            op: self.op,
            data: self.data@,
            sequence: self.sequence,
            event_name: match self.event_name {
                Some(name) => Some(name@),
                None => None,
            },
        }
    }

    /// Whether the message keeps to the rule that only a dispatch carries a
    /// sequence number and an event name.
    pub open spec fn well_formed(&self) -> bool {
        self.op != 0 ==> self.sequence is None && self.event_name is None
    }

    /// Reads the message that a term holds.
    pub fn from_term(shard_id: u64, term: &Term) -> (r: Result<ReceivedGatewayMessage, ParseError>)
        ensures
            match r {
                Ok(m) => parse_spec(shard_id, term@) == Ok::<ReceivedView, ParseError>(m@)
                    && m.well_formed(),
                Err(e) => parse_spec(shard_id, term@) == Err::<ReceivedView, ParseError>(e),
            },
    {
        let entries = match term {
            Term::Dict(entries) => entries,
            _ => {
                return Err(ParseError::NotAMap);
            },
        };
        let ghost all = term@->Dict_0;
        assert(term@ == TermView::Dict(all));
        assert(all =~= pair_views(entries@));
        let mut op: Option<u8> = None;
        let mut data_at: Option<usize> = None;
        let mut sequence: Option<i32> = None;
        let mut event_name: Option<String> = None;
        let mut i: usize = 0;
        assert(all.take(0) =~= Seq::empty());
        while i < entries.len()
            invariant
                i <= entries@.len(),
                term@ == TermView::Dict(all),
                all == pair_views(entries@),
                !has_bad_op(all.take(i as int)),
                match op {
                    Some(code) => last_value(all.take(i as int), "op"@, any_value()) is Some
                        && code == low_byte(
                        last_value(all.take(i as int), "op"@, any_value())->Some_0->FixInteger_0,
                    ),
                    None => last_value(all.take(i as int), "op"@, any_value()) is None,
                },
                match data_at {
                    Some(at) => at < i && last_value(all.take(i as int), "d"@, any_value())
                        == Some(all[at as int].1),
                    None => last_value(all.take(i as int), "d"@, any_value()) is None,
                },
                match sequence {
                    Some(s) => last_value(all.take(i as int), "s"@, is_fix_integer()) == Some(
                        TermView::FixInteger(s),
                    ),
                    None => last_value(all.take(i as int), "s"@, is_fix_integer()) is None,
                },
                match event_name {
                    Some(name) => last_value(all.take(i as int), "t"@, is_name()) is Some
                        && key_text(last_value(all.take(i as int), "t"@, is_name())->Some_0)
                        == Some(name@),
                    None => last_value(all.take(i as int), "t"@, is_name()) is None,
                },
            decreases entries@.len() - i,
        {
            let ghost before = all.take(i as int);
            let ghost after = all.take(i + 1);
            assert(after.drop_last() =~= before);
            assert(after.last() == all[i as int]);
            assert(all[i as int] == (entries@[i as int].0@, entries@[i as int].1@));
            let key = &entries[i].0;
            let value = &entries[i].1;
            if key_is(key, "op") {
                match value {
                    Term::FixInteger(code) => {
                        op = Some(low_byte_of(*code));
                    },
                    _ => {
                        assert(has_bad_op(all)) by {
                            assert(key_text(all[i as int].0) == Some("op"@));
                        }
                        return Err(ParseError::OpNotInteger);
                    },
                }
            } else if key_is(key, "d") {
                data_at = Some(i);
            } else if key_is(key, "s") {
                match value {
                    Term::FixInteger(s) => {
                        sequence = Some(*s);
                    },
                    _ => {},
                }
            } else if key_is(key, "t") {
                match name_of(value) {
                    Some(name) => {
                        event_name = Some(name);
                    },
                    None => {},
                }
            }
            proof {
                lemma_names_differ();
                assert(!has_bad_op(after)) by {
                    if has_bad_op(after) {
                        let j = choose|j: int|
                            0 <= j < after.len() && key_text((#[trigger] after[j]).0) == Some(
                                "op"@,
                            ) && !(after[j].1 is FixInteger);
                        if j < i {
                            assert(before[j] == after[j]);
                        }
                    }
                }
            }
            i = i + 1;
        }
        assert(all.take(i as int) =~= all);
        let code = match op {
            Some(code) => code,
            None => {
                return Err(ParseError::OpMissing);
            },
        };
        let data = match data_at {
            Some(at) => {
                assert(all[at as int].1 == entries@[at as int].1@);
                JSONValue::from_term(&entries[at].1)
            },
            None => JSONValue::Null,
        };
        if code == 0 {
            Ok(ReceivedGatewayMessage { shard_id, op: code, data, sequence, event_name })
        } else {
            Ok(ReceivedGatewayMessage { shard_id, op: code, data, sequence: None, event_name: None })
        }
    }
}

/// The four names that tell the entries of a message apart are different.
pub proof fn lemma_names_differ()
    ensures
        "op"@ != "d"@,
        "op"@ != "s"@,
        "op"@ != "t"@,
        "d"@ != "s"@,
        "d"@ != "t"@,
        "s"@ != "t"@,
{
    reveal_strlit("op");
    reveal_strlit("d");
    reveal_strlit("s");
    reveal_strlit("t");
    assert("op"@.len() == 2);
    assert("d"@[0] == 'd');
    assert("s"@[0] == 's');
    assert("t"@[0] == 't');
}

impl SendOP {
    /// The number of the opcode on the wire.
    pub open spec fn spec_code(self) -> u8 {
        match self {
            SendOP::Heartbeat => 1,
            SendOP::Identify => 2,
            SendOP::PresenceUpdate => 3,
            SendOP::VoiceStateUpdate => 4,
            SendOP::Resume => 6,
            SendOP::RequestGuildMembers => 8,
        }
    }

    /// The number of the opcode on the wire.
    #[verifier::when_used_as_spec(spec_code)]
    pub fn code(self) -> (r: u8)
        ensures
            r == self.spec_code(),
    {
        match self {
            SendOP::Heartbeat => 1,
            SendOP::Identify => 2,
            SendOP::PresenceUpdate => 3,
            SendOP::VoiceStateUpdate => 4,
            SendOP::Resume => 6,
            SendOP::RequestGuildMembers => 8,
        }
    }
}

/// The term that carries a message to send: a map with the opcode under the
/// binary `op` and the payload under the binary `d`, in this order.
pub open spec fn message_term(code: u8, data: TermView) -> TermView {
    TermView::Dict(
        seq![
            (TermView::Binary(seq![0x6fu8, 0x70u8]), TermView::FixInteger(code as i32)),
            (TermView::Binary(seq![0x64u8]), data),
        ],
    )
}

impl SendGatewayMessage {
    /// A message for the given shard.
    pub fn new(shard_id: u64, op: SendOP, data: Term) -> (r: SendGatewayMessage)
        ensures
            r.shard_id == shard_id,
            r.op == op,
            r.data == data,
    {
        SendGatewayMessage { shard_id, op, data }
    }

    /// The term that carries this message.
    pub fn to_term(&self) -> (t: Term)
        ensures
            t@ == message_term(self.op.spec_code(), self.data@),
    {
        let mut op_name: Vec<u8> = Vec::new();
        op_name.push(0x6f);
        op_name.push(0x70);
        let mut data_name: Vec<u8> = Vec::new();
        data_name.push(0x64);
        assert(op_name@ =~= seq![0x6fu8, 0x70u8]);
        assert(data_name@ =~= seq![0x64u8]);
        let op_key = Term::Binary(op_name);
        let op_value = Term::FixInteger(self.op.code() as i32);
        let data_key = Term::Binary(data_name);
        let data_value = self.data.clone();
        let ghost wanted = message_term(self.op.spec_code(), self.data@)->Dict_0;
        assert((op_key@, op_value@) == wanted[0]);
        assert((data_key@, data_value@) == wanted[1]);
        let mut entries: Vec<(Term, Term)> = Vec::new();
        entries.push((op_key, op_value));
        entries.push((data_key, data_value));
        let t = Term::Dict(entries);
        assert(t@->Dict_0 =~= wanted);
        t
    }

    /// The bytes to write on the connection for this message.
    pub fn to_buffer(&self) -> (r: Result<Vec<u8>, EncodeError>)
        ensures
            match r {
                Ok(bytes) => encode_spec(message_term(self.op.spec_code(), self.data@)) == Ok::<
                    Seq<u8>,
                    EncodeError,
                >(bytes@),
                Err(e) => encode_spec(message_term(self.op.spec_code(), self.data@)) == Err::<
                    Seq<u8>,
                    EncodeError,
                >(e),
            },
    {
        self.to_term().encode()
    }
}

} // verus!
