use discors::display::{hex_text, nested_indent, spaces_text, term_to_string};
use discors::gatewaymessage::{ReceivedGatewayMessage, SendGatewayMessage, SendOP};
use discors::jsvalue::{JSONValue, Numeric};
use discors::term::Term;

#[test]
fn scalars_are_written_plainly() {
    assert_eq!(term_to_string(&Term::Atom("ok".to_string()), 0, 2), "\"ok\"");
    assert_eq!(term_to_string(&Term::FixInteger(-12), 0, 2), "-12");
    assert_eq!(term_to_string(&Term::BigInteger(false, vec![0, 0, 0, 0, 1]), 0, 2), "4294967296");
    assert_eq!(term_to_string(&Term::BigInteger(true, vec![10]), 0, 2), "-10");
    assert_eq!(term_to_string(&Term::Float(1.5f64.to_bits()), 0, 2), "1.5");
    assert_eq!(term_to_string(&Term::Float(2.0f64.to_bits()), 0, 2), "2");
    assert_eq!(term_to_string(&Term::Float((-0.25f64).to_bits()), 0, 2), "-0.25");
}

#[test]
fn binaries_are_text_or_hexadecimal() {
    assert_eq!(term_to_string(&Term::Binary(b"hi".to_vec()), 0, 2), "\"hi\"");
    assert_eq!(term_to_string(&Term::Binary(vec![0xff, 0x01, 0xa0]), 0, 2), "<Binary ff 01 a0>");
    assert_eq!(term_to_string(&Term::Binary(vec![]), 0, 2), "\"\"");
}

#[test]
fn lists_and_tuples_stand_on_one_line() {
    let items = vec![Term::FixInteger(1), Term::Atom("x".to_string())];
    assert_eq!(term_to_string(&Term::List(items.clone()), 0, 2), "[ 1, \"x\" ]");
    assert_eq!(term_to_string(&Term::Tuple(items), 0, 2), "Tuple( 1, \"x\" )");
    assert_eq!(term_to_string(&Term::List(vec![]), 0, 2), "[  ]");
    assert_eq!(term_to_string(&Term::Tuple(vec![]), 0, 2), "Tuple(  )");
}

#[test]
fn maps_have_a_line_for_each_entry() {
    let term = Term::Dict(vec![
        (Term::Atom("a".to_string()), Term::FixInteger(1)),
        (
            Term::Binary(b"b".to_vec()),
            Term::Dict(vec![(Term::FixInteger(2), Term::List(vec![Term::FixInteger(3)]))]),
        ),
    ]);
    assert_eq!(
        term_to_string(&term, 2, 2),
        "{\n    \"a\": 1,\n    \"b\": {\n      2: [ 3 ]\n    }\n  }"
    );
    assert_eq!(term_to_string(&Term::Dict(vec![]), 1, 3), "{\n\n }");
}

#[test]
fn generic_values_are_written_like_terms() {
    let value = JSONValue::Object(vec![
        ("name".to_string(), JSONValue::Str("x".to_string())),
        (
            "list".to_string(),
            JSONValue::Array(vec![
                JSONValue::Number(Numeric::Integer(1)),
                JSONValue::Number(Numeric::Float(0.5f64.to_bits())),
                JSONValue::Bool(true),
                JSONValue::Bool(false),
                JSONValue::Null,
            ]),
        ),
        ("inner".to_string(), JSONValue::Object(vec![])),
    ]);
    assert_eq!(
        value.to_string(0, 2),
        "{\n  name: \"x\",\n  list: [ 1, 0.5, true, false, null ],\n  inner: {\n\n  }\n}"
    );
    assert_eq!(JSONValue::Array(vec![]).to_string(4, 4), "[  ]");
}

#[test]
fn a_received_message_is_written_with_its_fields() {
    let message = ReceivedGatewayMessage {
        shard_id: 3,
        op: 10,
        data: JSONValue::Object(vec![(
            "heartbeat_interval".to_string(),
            JSONValue::Number(Numeric::Integer(41250)),
        )]),
        sequence: None,
        event_name: None,
    };
    assert_eq!(
        message.to_string(),
        "GatewayMessage (shard_id: 3) {\n  op: 10,\n  d: {\n    heartbeat_interval: 41250\n  },\n  s: null,\n  t: null\n}"
    );
    let dispatch = ReceivedGatewayMessage {
        shard_id: 0,
        op: 0,
        data: JSONValue::Null,
        sequence: Some(-7),
        event_name: Some("READY".to_string()),
    };
    assert_eq!(
        dispatch.to_string(),
        "GatewayMessage (shard_id: 0) {\n  op: 0,\n  d: null,\n  s: -7,\n  t: READY\n}"
    );
}

#[test]
fn a_message_to_send_is_written_with_its_fields() {
    let message = SendGatewayMessage {
        shard_id: 12,
        op: SendOP::RequestGuildMembers,
        data: Term::List(vec![Term::nil()]),
    };
    assert_eq!(
        message.to_string(),
        "GatewayMessage (shard_id: 12) {\n  op: 8,\n  d: [ \"nil\" ]\n}"
    );
}

#[test]
fn indentation_stops_at_the_largest_number() {
    assert_eq!(nested_indent(2, 2), 4);
    assert_eq!(nested_indent(u32::MAX, 1), u32::MAX);
    assert_eq!(nested_indent(u32::MAX - 1, 1), u32::MAX);
    assert_eq!(nested_indent(7, u32::MAX), u32::MAX);
    assert_eq!(spaces_text(0), "");
    assert_eq!(spaces_text(3), "   ");
    assert_eq!(hex_text(0), "0");
    assert_eq!(hex_text(10), "a");
    assert_eq!(hex_text(15), "f");
}
