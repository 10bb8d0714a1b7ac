use discors::frame::DecodeError;
use discors::term::Term;
use discors::zlib::{has_trailer, Inflate, InflateError, OptionalResult};

const HELLO: [u8; 48] = [
    131, 116, 0, 0, 0, 2, 100, 0, 2, 111, 112, 97, 10, 100, 0, 1, 100, 116, 0, 0, 0, 1, 100, 0,
    18, 104, 101, 97, 114, 116, 98, 101, 97, 116, 95, 105, 110, 116, 101, 114, 118, 97, 108, 98,
    0, 0, 161, 34,
];

const DISPATCH: [u8; 76] = [
    131, 116, 0, 0, 0, 4, 109, 0, 0, 0, 1, 116, 100, 0, 5, 82, 69, 65, 68, 89, 109, 0, 0, 0, 1,
    115, 97, 1, 109, 0, 0, 0, 2, 111, 112, 97, 0, 109, 0, 0, 0, 1, 100, 116, 0, 0, 0, 1, 109, 0,
    0, 0, 18, 104, 101, 97, 114, 116, 98, 101, 97, 116, 95, 105, 110, 116, 101, 114, 118, 97,
    108, 98, 0, 0, 161, 34,
];

/// The first unit of a zlib stream: `HELLO`, flushed.
const UNIT_ONE: [u8; 54] = [
    120, 156, 106, 46, 97, 96, 96, 96, 74, 97, 96, 202, 47, 72, 228, 74, 97, 96, 76, 1, 241, 25,
    83, 24, 132, 50, 82, 19, 139, 74, 146, 82, 19, 75, 226, 51, 243, 74, 82, 139, 202, 18, 115,
    146, 24, 24, 22, 42, 1, 0, 0, 0, 255, 255,
];

/// The second unit of the same stream: `DISPATCH`, flushed.
const UNIT_TWO: [u8; 40] = [
    106, 6, 201, 179, 228, 130, 20, 149, 164, 48, 176, 6, 185, 58, 186, 68, 130, 121, 197, 137,
    140, 32, 26, 100, 14, 3, 88, 0, 98, 18, 136, 137, 203, 44, 0, 0, 0, 0, 255, 255,
];

#[test]
fn the_trailer_is_four_bytes_at_the_end() {
    assert!(has_trailer(&[0, 0, 0xff, 0xff]));
    assert!(has_trailer(&[9, 0, 0, 0xff, 0xff]));
    assert!(!has_trailer(&[0, 0xff, 0xff]));
    assert!(!has_trailer(&[0, 0, 0xff, 0xff, 0]));
    assert!(!has_trailer(&[0, 1, 0xff, 0xff]));
    assert!(!has_trailer(&[]));
}

#[test]
fn bytes_without_the_trailer_complete_nothing() {
    let mut inflate = Inflate::new();
    assert_eq!(inflate.feed(&UNIT_ONE[..10]), OptionalResult::Incomplete);
    assert_eq!(inflate.feed(&UNIT_ONE[10..50]), OptionalResult::Incomplete);
    assert_eq!(inflate.feed(&[]), OptionalResult::Incomplete);
    assert!(!inflate.is_desynchronized());
}

#[test]
fn a_unit_fed_whole_gives_its_payload() {
    let mut inflate = Inflate::new();
    assert_eq!(inflate.feed(&UNIT_ONE), OptionalResult::Completed(HELLO.to_vec()));
}

#[test]
fn a_unit_fed_in_parts_gives_one_payload_at_the_trailer() {
    let mut inflate = Inflate::new();
    assert_eq!(inflate.feed(&UNIT_ONE[..1]), OptionalResult::Incomplete);
    assert_eq!(inflate.feed(&UNIT_ONE[1..20]), OptionalResult::Incomplete);
    assert_eq!(inflate.feed(&UNIT_ONE[20..52]), OptionalResult::Incomplete);
    assert_eq!(inflate.feed(&UNIT_ONE[52..]), OptionalResult::Completed(HELLO.to_vec()));
    assert_eq!(inflate.feed(&[]), OptionalResult::Incomplete);
}

#[test]
fn the_trailer_counts_over_the_gathered_bytes() {
    let mut inflate = Inflate::new();
    assert_eq!(inflate.feed(&UNIT_ONE[..53]), OptionalResult::Incomplete);
    assert_eq!(inflate.feed(&UNIT_ONE[53..]), OptionalResult::Completed(HELLO.to_vec()));
}

#[test]
fn the_second_unit_needs_the_state_left_by_the_first() {
    let mut inflate = Inflate::new();
    assert_eq!(inflate.feed(&UNIT_ONE), OptionalResult::Completed(HELLO.to_vec()));
    assert_eq!(inflate.feed(&UNIT_TWO), OptionalResult::Completed(DISPATCH.to_vec()));

    let mut alone = Inflate::new();
    assert!(matches!(
        alone.feed(&UNIT_TWO),
        OptionalResult::Error(InflateError::DecommpressError(_))
    ));
}

#[test]
fn a_rejected_unit_is_dropped_and_a_new_stream_can_begin() {
    let mut inflate = Inflate::new();
    assert!(matches!(
        inflate.feed(&[1, 2, 3, 0, 0, 0xff, 0xff]),
        OptionalResult::Error(InflateError::DecommpressError(_))
    ));
    assert!(!inflate.is_desynchronized());
    assert_eq!(inflate.feed(&UNIT_ONE), OptionalResult::Completed(HELLO.to_vec()));
    assert!(!inflate.is_desynchronized());
}

#[test]
fn two_rejected_units_in_a_row_are_out_of_step() {
    let mut inflate = Inflate::new();
    assert!(matches!(inflate.feed(&[1, 0, 0, 0xff, 0xff]), OptionalResult::Error(_)));
    assert!(!inflate.is_desynchronized());
    assert!(matches!(inflate.feed(&[2, 0, 0, 0xff, 0xff]), OptionalResult::Error(_)));
    assert!(inflate.is_desynchronized());
    assert!(matches!(inflate.feed(&[3, 0, 0, 0xff, 0xff]), OptionalResult::Error(_)));
    assert!(inflate.is_desynchronized());
    assert_eq!(inflate.feed(&UNIT_ONE), OptionalResult::Completed(HELLO.to_vec()));
    assert!(!inflate.is_desynchronized());
}

#[test]
fn to_term_decodes_the_payload() {
    let mut inflate = Inflate::new();
    assert_eq!(inflate.to_term(&UNIT_ONE[..30]), OptionalResult::Incomplete);
    let expected = Term::Dict(vec![
        (Term::Atom("op".to_string()), Term::FixInteger(10)),
        (
            Term::Atom("d".to_string()),
            Term::Dict(vec![(
                Term::Atom("heartbeat_interval".to_string()),
                Term::FixInteger(41250),
            )]),
        ),
    ]);
    assert_eq!(inflate.to_term(&UNIT_ONE[30..]), OptionalResult::Completed(expected));
}

#[test]
fn to_term_reports_a_payload_that_is_no_term() {
    // A stored block that holds the one byte 7, then the flush marker.
    let unit = [0x78, 0x01, 0x00, 0x01, 0x00, 0xfe, 0xff, 0x07, 0x00, 0x00, 0x00, 0xff, 0xff];
    let mut inflate = Inflate::new();
    assert_eq!(
        inflate.to_term(&unit),
        OptionalResult::Error(InflateError::DecodeError(DecodeError::UnsupportedVersion(7)))
    );
    assert!(!inflate.is_desynchronized());
}
