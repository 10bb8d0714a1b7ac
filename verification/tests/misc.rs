use discors::client::ClientData;
use discors::eventemitter::EventEmitter;
use discors::rest::{find_bytes, is_json, APIRouter, HTTPMethod};
use discors::text::{bytes_spell, decimal_text, digit_text, digits_text, same_bytes, same_text};
use std::cell::RefCell;
use std::rc::Rc;

type Handler = Box<dyn Fn(&i32)>;

fn recorder(log: &Rc<RefCell<Vec<(u8, i32)>>>, tag: u8) -> Handler {
    let log = log.clone();
    Box::new(move |value: &i32| log.borrow_mut().push((tag, *value)))
}

#[test]
fn handlers_get_growing_identifiers() {
    let log = Rc::new(RefCell::new(Vec::new()));
    let mut emitter: EventEmitter<i32, Handler> = EventEmitter::new();
    assert_eq!(emitter.on(recorder(&log, 1)), 0);
    assert_eq!(emitter.on(recorder(&log, 2)), 1);
    emitter.off(0);
    assert_eq!(emitter.on(recorder(&log, 3)), 2);
}

#[test]
fn every_handler_is_called_with_the_value() {
    let log = Rc::new(RefCell::new(Vec::new()));
    let mut emitter: EventEmitter<i32, Handler> = EventEmitter::new();
    emitter.emit(&1);
    emitter.on(recorder(&log, 1));
    emitter.on(recorder(&log, 2));
    emitter.emit(&10);
    log.borrow_mut().sort();
    assert_eq!(*log.borrow(), vec![(1, 10), (2, 10)]);
}

#[test]
fn a_handler_that_was_taken_off_is_not_called() {
    let log = Rc::new(RefCell::new(Vec::new()));
    let mut emitter: EventEmitter<i32, Handler> = EventEmitter::new();
    let first = emitter.on(recorder(&log, 1));
    let second = emitter.on(recorder(&log, 2));
    emitter.off(first);
    emitter.off(77);
    emitter.emit(&5);
    assert_eq!(*log.borrow(), vec![(2, 5)]);
    emitter.off(second);
    emitter.off(second);
    emitter.emit(&6);
    assert_eq!(*log.borrow(), vec![(2, 5)]);
}

#[test]
fn the_router_builds_routes_segment_by_segment() {
    let data = ClientData { token: Some("abc".to_string()) };
    let router = APIRouter::new(&data);
    assert_eq!(router._url(), "https://discord.com/api/v9");
    let router = router.index("gateway").index("bot");
    assert_eq!(router._url(), "https://discord.com/api/v9/gateway/bot");
    let request = router.post();
    assert_eq!(request.method, HTTPMethod::POST);
    assert_eq!(request.url, "https://discord.com/api/v9/gateway/bot");
    assert_eq!(request.authorization, Some("Bot abc".to_string()));
    assert_eq!(router.get().method, HTTPMethod::GET);
    assert_eq!(router.patch().method, HTTPMethod::PATCH);
    assert_eq!(router.delete().method, HTTPMethod::DELETE);
    assert_eq!(router.put().method, HTTPMethod::PUT);
    assert_eq!(router._build_request(HTTPMethod::PUT).url, router._url());
}

#[test]
fn a_router_without_token_sends_no_credentials() {
    let router = APIRouter::new(&ClientData { token: None });
    assert_eq!(router.get().authorization, None);
}

#[test]
fn a_body_is_json_by_its_content_type() {
    assert!(is_json(Some("application/json")));
    assert!(is_json(Some("application/json; charset=utf-8")));
    assert!(is_json(Some("text/plain, application/json")));
    assert!(!is_json(Some("application/jso")));
    assert!(!is_json(Some("text/html")));
    assert!(!is_json(Some("")));
    assert!(!is_json(None));
}

#[test]
fn bytes_are_found_where_they_stand() {
    assert!(find_bytes(b"abcd", b"bc"));
    assert!(find_bytes(b"abcd", b"abcd"));
    assert!(find_bytes(b"abcd", b"d"));
    assert!(find_bytes(b"abcd", b""));
    assert!(find_bytes(b"", b""));
    assert!(!find_bytes(b"abcd", b"bd"));
    assert!(!find_bytes(b"abc", b"abcd"));
}

#[test]
fn numbers_are_written_in_decimal() {
    assert_eq!(decimal_text(0), "0");
    assert_eq!(decimal_text(7), "7");
    assert_eq!(decimal_text(41250), "41250");
    assert_eq!(decimal_text(-1), "-1");
    assert_eq!(decimal_text(i64::MAX), "9223372036854775807");
    assert_eq!(decimal_text(i64::MIN), "-9223372036854775808");
    assert_eq!(digits_text(u64::MAX), "18446744073709551615");
    assert_eq!(digits_text(10), "10");
    assert_eq!(digit_text(0), "0");
    assert_eq!(digit_text(9), "9");
}

#[test]
fn texts_and_bytes_are_compared() {
    assert!(same_text("op", "op"));
    assert!(!same_text("op", "o"));
    assert!(!same_text("op", "oq"));
    assert!(same_text("", ""));
    assert!(same_bytes(&[1, 2], &[1, 2]));
    assert!(!same_bytes(&[1, 2], &[1, 3]));
    assert!(!same_bytes(&[1, 2], &[1]));
    assert!(bytes_spell(&[0xc3, 0xa9], "é"));
    assert!(!bytes_spell(&[0xc3], "é"));
    assert!(!bytes_spell(&[0xff], ""));
    assert!(bytes_spell(&[], ""));
}
