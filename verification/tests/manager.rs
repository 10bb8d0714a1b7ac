use discors::client::Client;
use discors::codec::EncodeError;
use discors::gatewaymessage::{ReceivedGatewayMessage, SendGatewayMessage, SendOP};
use discors::jsvalue::{JSONValue, Numeric};
use discors::manager::{ClientConnectError, Delivery, WSSendResult, WebsocketManager};
use discors::rest::HTTPMethod;
use discors::shard::{
    add_query_params, CloseData, ClosureOutcome, Frame, HandshakeError, MessageError, Reaction,
    WebSocketShard, WebsocketStatus,
};
use discors::term::Term;
use discors::zlib::InflateError;

const GATEWAY: &str = "wss://gateway.discord.gg";

const UNIT_ONE: [u8; 54] = [
    120, 156, 106, 46, 97, 96, 96, 96, 74, 97, 96, 202, 47, 72, 228, 74, 97, 96, 76, 1, 241, 25,
    83, 24, 132, 50, 82, 19, 139, 74, 146, 82, 19, 75, 226, 51, 243, 74, 82, 139, 202, 18, 115,
    146, 24, 24, 22, 42, 1, 0, 0, 0, 255, 255,
];

const UNIT_TWO: [u8; 40] = [
    106, 6, 201, 179, 228, 130, 20, 149, 164, 48, 176, 6, 185, 58, 186, 68, 130, 121, 197, 137,
    140, 32, 26, 100, 14, 3, 88, 0, 98, 18, 136, 137, 203, 44, 0, 0, 0, 0, 255, 255,
];

fn heartbeat(shard_id: u64) -> SendGatewayMessage {
    SendGatewayMessage { shard_id, op: SendOP::Heartbeat, data: Term::FixInteger(shard_id as i32) }
}

fn hello(shard_id: u64) -> ReceivedGatewayMessage {
    ReceivedGatewayMessage {
        shard_id,
        op: 10,
        data: JSONValue::Object(vec![(
            "heartbeat_interval".to_string(),
            JSONValue::Number(Numeric::Integer(41250)),
        )]),
        sequence: None,
        event_name: None,
    }
}

#[test]
fn the_address_carries_the_three_parameters() {
    assert_eq!(
        add_query_params(GATEWAY),
        Ok("wss://gateway.discord.gg/?q=9&encoding=etf&compress=zlib-stream".to_string())
    );
    assert_eq!(
        add_query_params("wss://example.org/path?v=1#top"),
        Ok("wss://example.org/path?v=1&q=9&encoding=etf&compress=zlib-stream#top".to_string())
    );
}

#[test]
fn what_is_no_url_gives_no_address() {
    assert_eq!(add_query_params("not a url"), Err(HandshakeError::InvalidUrl));
    assert_eq!(add_query_params(""), Err(HandshakeError::InvalidUrl));
}

#[test]
fn a_long_address_carries_the_parameters_too() {
    let long = format!("wss://example.org/{}", "a".repeat(70000));
    assert_eq!(
        add_query_params(&long),
        Ok(format!("{}?q=9&encoding=etf&compress=zlib-stream", long))
    );
}

#[test]
fn a_new_shard_is_connecting_and_becomes_ready() {
    let mut shard = WebSocketShard::new(4, "wss://x/".to_string());
    assert_eq!(shard.shard_id(), 4);
    assert_eq!(shard.get_address(), "wss://x/");
    assert_eq!(shard.get_status(), WebsocketStatus::Connecting);
    assert!(!shard.is_finished());
    assert_eq!(shard.queued(), 0);
    shard.connect();
    assert_eq!(shard.get_status(), WebsocketStatus::Ready);
    shard.connect();
    assert_eq!(shard.get_status(), WebsocketStatus::Ready);
}

#[test]
fn a_shard_writes_its_queue_in_the_order_of_sending() {
    let mut shard = WebSocketShard::new(0, String::new());
    shard.send(heartbeat(1));
    shard.send(heartbeat(2));
    let too_long: String = std::iter::repeat('x').take(66000).collect();
    shard.send(SendGatewayMessage { shard_id: 0, op: SendOP::Resume, data: Term::Atom(too_long) });
    shard.send(heartbeat(3));
    assert_eq!(shard.queued(), 4);
    let frames = shard.drain_outbound();
    assert_eq!(
        frames,
        vec![
            heartbeat(1).to_buffer(),
            heartbeat(2).to_buffer(),
            Err(EncodeError::Rejected),
            heartbeat(3).to_buffer(),
        ]
    );
    assert_eq!(shard.queued(), 0);
    assert_eq!(shard.drain_outbound(), vec![]);
}

#[test]
fn a_shard_publishes_what_a_unit_holds() {
    let mut shard = WebSocketShard::new(7, String::new());
    shard.connect();
    assert_eq!(shard.handle_frame(Frame::Binary(UNIT_ONE[..20].to_vec())), Reaction::Wait);
    assert_eq!(shard.handle_frame(Frame::Other), Reaction::Wait);
    assert_eq!(
        shard.handle_frame(Frame::Binary(UNIT_ONE[20..].to_vec())),
        Reaction::Publish(hello(7))
    );
    match shard.handle_frame(Frame::Binary(UNIT_TWO.to_vec())) {
        Reaction::Publish(message) => {
            assert_eq!(message.shard_id, 7);
            assert_eq!(message.op, 0);
            assert_eq!(message.sequence, Some(1));
            assert_eq!(message.event_name, Some("READY".to_string()));
        }
        other => panic!("unexpected reaction {:?}", other),
    }
    assert!(!shard.is_finished());
}

#[test]
fn a_shard_discards_what_cannot_be_read() {
    // A stored block that holds `131 97 1`, a term that is no map.
    let no_map = [0x78, 0x01, 0x00, 0x03, 0x00, 0xfc, 0xff, 131, 97, 1, 0x00, 0x00, 0x00, 0xff, 0xff];
    let mut shard = WebSocketShard::new(0, String::new());
    assert_eq!(
        shard.handle_frame(Frame::Binary(no_map.to_vec())),
        Reaction::Discard(MessageError::Parse(discors::gatewaymessage::ParseError::NotAMap))
    );
    // The same stream goes on with a stored block that holds the one byte 7.
    let no_term = [0x00, 0x01, 0x00, 0xfe, 0xff, 0x07, 0x00, 0x00, 0x00, 0xff, 0xff];
    assert_eq!(
        shard.handle_frame(Frame::Binary(no_term.to_vec())),
        Reaction::Discard(MessageError::Inflate(InflateError::DecodeError(
            discors::frame::DecodeError::UnsupportedVersion(7)
        )))
    );
    assert!(!shard.is_finished());
}

#[test]
fn a_shard_gives_up_after_two_rejected_units() {
    let mut shard = WebSocketShard::new(0, String::new());
    shard.connect();
    let first = shard.handle_frame(Frame::Binary(vec![1, 0, 0, 0xff, 0xff]));
    assert!(matches!(
        first,
        Reaction::Discard(MessageError::Inflate(InflateError::DecommpressError(_)))
    ));
    assert!(!shard.is_finished());
    let second = shard.handle_frame(Frame::Binary(vec![1, 0, 0, 0xff, 0xff]));
    assert!(matches!(
        second,
        Reaction::Abort(MessageError::Inflate(InflateError::DecommpressError(_)))
    ));
    assert!(shard.is_finished());
    assert_eq!(shard.get_status(), WebsocketStatus::Disconnected);
    assert_eq!(shard.handle_frame(Frame::Binary(UNIT_ONE.to_vec())), Reaction::Wait);
    assert_eq!(shard.wait(), ClosureOutcome::GivenUp);
}

#[test]
fn a_close_frame_ends_the_shard_and_its_payload_is_kept() {
    let mut shard = WebSocketShard::new(0, String::new());
    shard.connect();
    let data = CloseData { status_code: 4004, reason: "Authentication failed.".to_string() };
    assert_eq!(shard.handle_frame(Frame::Close(Some(data))), Reaction::Terminate);
    assert!(shard.is_finished());
    assert_eq!(shard.get_status(), WebsocketStatus::Disconnected);
    assert_eq!(shard.handle_frame(Frame::Close(None)), Reaction::Wait);
    assert_eq!(
        shard.wait(),
        ClosureOutcome::Closed(Some(CloseData {
            status_code: 4004,
            reason: "Authentication failed.".to_string()
        }))
    );
}

#[test]
fn a_shard_that_is_not_over_has_an_open_outcome() {
    let mut shard = WebSocketShard::new(0, String::new());
    shard.connect();
    assert_eq!(shard.handle_frame(Frame::Other), Reaction::Wait);
    assert_eq!(shard.wait(), ClosureOutcome::Open);
}

#[test]
fn a_failed_handshake_ends_a_connecting_shard() {
    let mut shard = WebSocketShard::new(3, String::new());
    assert_eq!(shard.failed(), Some(HandshakeError::Refused));
    assert!(shard.is_finished());
    assert_eq!(shard.get_status(), WebsocketStatus::Disconnected);
    assert_eq!(shard.failed(), None);
    assert_eq!(shard.handle_frame(Frame::Binary(UNIT_ONE.to_vec())), Reaction::Wait);
    assert_eq!(shard.wait(), ClosureOutcome::Failed(HandshakeError::Refused));
}

#[test]
fn a_failed_handshake_leaves_a_ready_shard_alone() {
    let mut shard = WebSocketShard::new(0, String::new());
    shard.connect();
    assert_eq!(shard.failed(), None);
    assert!(!shard.is_finished());
    assert_eq!(shard.get_status(), WebsocketStatus::Ready);
}

#[test]
fn the_pool_hands_a_failed_handshake_to_its_shard() {
    let mut manager = WebsocketManager::new();
    manager.add_shard(GATEWAY).unwrap();
    manager.add_shard(GATEWAY).unwrap();
    assert_eq!(manager.failed(2), None);
    assert_eq!(manager.failed(1), Some(HandshakeError::Refused));
    assert!(!manager.is_finished());
    assert_eq!(manager.deliver(0, Frame::Close(None)), Delivery::Terminated);
    assert!(manager.is_finished());
    assert_eq!(
        manager.wait(),
        vec![
            ClosureOutcome::Closed(None),
            ClosureOutcome::Failed(HandshakeError::Refused)
        ]
    );
}

#[test]
fn shards_are_numbered_from_zero_in_the_order_they_are_added() {
    let mut manager = WebsocketManager::new();
    assert_eq!(manager.shard_count(), 0);
    assert_eq!(manager.add_shard(GATEWAY), Ok(0));
    assert_eq!(manager.add_shard(GATEWAY), Ok(1));
    assert_eq!(manager.shard_count(), 2);
    assert_eq!(
        manager.shard_address(1),
        Some("wss://gateway.discord.gg/?q=9&encoding=etf&compress=zlib-stream")
    );
    assert_eq!(manager.shard_address(2), None);
    assert_eq!(manager.add_shard("nonsense"), Err(HandshakeError::InvalidUrl));
    assert_eq!(manager.shard_count(), 2);
}

#[test]
fn a_message_goes_to_the_shard_it_names_and_to_no_other() {
    let mut manager = WebsocketManager::new();
    manager.add_shard(GATEWAY).unwrap();
    manager.add_shard(GATEWAY).unwrap();
    assert_eq!(manager.send(heartbeat(1)), WSSendResult::Sent);
    assert_eq!(manager.outgoing(0), Some(vec![]));
    assert_eq!(manager.outgoing(1), Some(vec![heartbeat(1).to_buffer()]));
    assert_eq!(manager.outgoing(1), Some(vec![]));
}

#[test]
fn a_message_for_a_shard_that_is_not_there_changes_nothing() {
    let mut manager = WebsocketManager::new();
    assert_eq!(manager.send(heartbeat(0)), WSSendResult::ShardMissing);
    manager.add_shard(GATEWAY).unwrap();
    manager.add_shard(GATEWAY).unwrap();
    assert_eq!(manager.send(heartbeat(0)), WSSendResult::Sent);
    assert_eq!(manager.send(heartbeat(2)), WSSendResult::ShardMissing);
    assert_eq!(manager.send(heartbeat(u64::MAX)), WSSendResult::ShardMissing);
    assert_eq!(manager.shard_count(), 2);
    assert_eq!(manager.outgoing(0), Some(vec![heartbeat(0).to_buffer()]));
    assert_eq!(manager.outgoing(1), Some(vec![]));
    assert_eq!(manager.outgoing(2), None);
}

#[test]
fn messages_are_fetched_once() {
    let mut manager = WebsocketManager::new();
    manager.add_shard(GATEWAY).unwrap();
    manager.add_shard(GATEWAY).unwrap();
    assert_eq!(manager.get_messages(), vec![]);
    assert_eq!(manager.deliver(1, Frame::Binary(UNIT_ONE.to_vec())), Delivery::Published);
    assert_eq!(manager.deliver(0, Frame::Binary(UNIT_ONE[..9].to_vec())), Delivery::Waiting);
    assert_eq!(manager.deliver(0, Frame::Binary(UNIT_ONE[9..].to_vec())), Delivery::Published);
    assert_eq!(manager.get_messages(), vec![hello(1), hello(0)]);
    assert_eq!(manager.get_messages(), vec![]);
}

#[test]
fn frames_for_a_shard_that_is_not_there_are_refused() {
    let mut manager = WebsocketManager::new();
    assert_eq!(manager.deliver(0, Frame::Other), Delivery::ShardMissing);
    assert!(!manager.established(0));
    manager.add_shard(GATEWAY).unwrap();
    assert!(manager.established(0));
    assert_eq!(manager.deliver(0, Frame::Other), Delivery::Waiting);
}

#[test]
fn deliveries_tell_what_the_shard_decided() {
    let mut manager = WebsocketManager::new();
    manager.add_shard(GATEWAY).unwrap();
    manager.add_shard(GATEWAY).unwrap();
    assert!(matches!(
        manager.deliver(0, Frame::Binary(vec![9, 0, 0, 0xff, 0xff])),
        Delivery::Discarded(MessageError::Inflate(InflateError::DecommpressError(_)))
    ));
    assert!(matches!(
        manager.deliver(0, Frame::Binary(vec![9, 0, 0, 0xff, 0xff])),
        Delivery::Aborted(MessageError::Inflate(InflateError::DecommpressError(_)))
    ));
    assert_eq!(manager.deliver(1, Frame::Close(None)), Delivery::Terminated);
    assert_eq!(manager.get_messages(), vec![]);
}

#[test]
fn the_pool_is_finished_when_every_shard_is() {
    let mut manager = WebsocketManager::new();
    assert!(manager.is_finished());
    manager.add_shard(GATEWAY).unwrap();
    manager.add_shard(GATEWAY).unwrap();
    assert!(!manager.is_finished());
    let bye = CloseData { status_code: 1000, reason: "bye".to_string() };
    assert_eq!(manager.deliver(1, Frame::Close(Some(bye))), Delivery::Terminated);
    assert!(!manager.is_finished());
    assert_eq!(manager.deliver(0, Frame::Close(None)), Delivery::Terminated);
    assert!(manager.is_finished());
    assert_eq!(
        manager.wait(),
        vec![
            ClosureOutcome::Closed(None),
            ClosureOutcome::Closed(Some(CloseData { status_code: 1000, reason: "bye".to_string() }))
        ]
    );
    assert_eq!(manager.shard_count(), 0);
    assert_eq!(manager.wait(), vec![]);
}

#[test]
fn the_gateway_answer_sets_the_pool_up() {
    let mut manager = WebsocketManager::new();
    assert_eq!(manager.connect(None, Some(2)), Err(ClientConnectError::MissingUrl));
    assert_eq!(manager.connect(Some(GATEWAY), None), Err(ClientConnectError::MissingShards));
    assert_eq!(manager.connect(Some(GATEWAY), Some(0)), Ok(0));
    assert_eq!(manager.connect(Some(GATEWAY), Some(-3)), Ok(0));
    assert_eq!(manager.shard_count(), 0);
    assert_eq!(
        manager.connect(Some("nope"), Some(2)),
        Err(ClientConnectError::Handshake(HandshakeError::InvalidUrl))
    );
    assert_eq!(manager.shard_count(), 0);
    assert_eq!(manager.connect(Some(GATEWAY), Some(3)), Ok(3));
    assert_eq!(manager.shard_count(), 3);
    assert_eq!(manager.send(heartbeat(2)), WSSendResult::Sent);
}

#[test]
fn a_client_logs_in_and_connects() {
    let mut client = Client::new();
    assert_eq!(client.data.token, None);
    let request = client.login("TOKEN HERE");
    assert_eq!(client.data.token, Some("TOKEN HERE".to_string()));
    assert_eq!(request.method, HTTPMethod::GET);
    assert_eq!(request.url, "https://discord.com/api/v9/gateway/bot");
    assert_eq!(request.authorization, Some("Bot TOKEN HERE".to_string()));
    assert_eq!(client.connect(Some(GATEWAY), Some(2)), Ok(2));
    assert_eq!(client.shards.shard_count(), 2);
    assert_eq!(client.connect(None, None), Err(ClientConnectError::MissingUrl));
}
