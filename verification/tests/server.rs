use cardano_price_feed::server::{
    parse_count, parse_pair, response_status, route, upgrade_connection, ws_broadcast,
    HistoryRequest, Hub, Route,
};
use cardano_price_feed::setup::{bearer, oura_bootstrap, parse_start, BearerKind, SetupError};
use cardano_price_feed::text::{parse_signed, parse_unsigned};
use cardano_price_feed::types::{BroadcastMessage, ExchangeRate, SwapInfo};

#[test]
fn unsigned_numbers_are_digits_after_an_optional_plus() {
    assert_eq!(parse_unsigned(b"0"), Some(0));
    assert_eq!(parse_unsigned(b"007"), Some(7));
    assert_eq!(parse_unsigned(b"+15"), Some(15));
    assert_eq!(parse_unsigned(b"18446744073709551615"), Some(u64::MAX));
    assert_eq!(parse_unsigned(b"18446744073709551616"), None);
    assert_eq!(parse_unsigned(b"99999999999999999999999"), None);
    assert_eq!(parse_unsigned(b""), None);
    assert_eq!(parse_unsigned(b"+"), None);
    assert_eq!(parse_unsigned(b"-1"), None);
    assert_eq!(parse_unsigned(b"1a"), None);
    assert_eq!(parse_unsigned(b" 1"), None);
}

#[test]
fn signed_numbers_are_digits_after_an_optional_sign() {
    assert_eq!(parse_signed(b"7"), Some(7));
    assert_eq!(parse_signed(b"+7"), Some(7));
    assert_eq!(parse_signed(b"-7"), Some(-7));
    assert_eq!(parse_signed(b"-0"), Some(0));
    assert_eq!(parse_signed(b"9223372036854775807"), Some(i64::MAX));
    assert_eq!(parse_signed(b"9223372036854775808"), None);
    assert_eq!(parse_signed(b"-9223372036854775808"), Some(i64::MIN));
    assert_eq!(parse_signed(b"-9223372036854775809"), None);
    assert_eq!(parse_signed(b"-"), None);
    assert_eq!(parse_signed(b""), None);
    assert_eq!(parse_signed(b"--1"), None);
}

#[test]
fn count_defaults_to_ten() {
    assert_eq!(parse_count(None), Some(10));
    assert_eq!(parse_count(Some(b"count=3")), Some(3));
    assert_eq!(parse_count(Some(b"count=")), None);
    assert_eq!(parse_count(Some(b"count")), None);
    assert_eq!(parse_count(Some(b"number=3")), None);
    assert_eq!(parse_count(Some(b"count=3&x=1")), None);
}

#[test]
fn pair_is_two_numbers_and_a_slash() {
    assert_eq!(parse_pair(b"7/9"), Some((7, 9)));
    assert_eq!(parse_pair(b"-7/+9"), Some((-7, 9)));
    assert_eq!(parse_pair(b"7"), None);
    assert_eq!(parse_pair(b"7/"), None);
    assert_eq!(parse_pair(b"/9"), None);
    assert_eq!(parse_pair(b"7/9/"), None);
    assert_eq!(parse_pair(b"7/9/1"), None);
}

#[test]
fn routes_of_the_query_surface() {
    assert_eq!(route(true, b"/health", None), Route::Health);
    assert_eq!(route(true, b"/exchange_rates", None), Route::ExchangeRates);
    assert_eq!(route(true, b"/socket", None), Route::Socket);
    assert_eq!(route(true, b"/assets", None), Route::Assets);
    assert_eq!(
        route(true, b"/mean_history/7/9", Some(b"count=3")),
        Route::MeanHistory(HistoryRequest { asset1: 7, asset2: 9, count: 3 })
    );
    assert_eq!(
        route(true, b"/asset_swap/1/2", None),
        Route::AssetSwap(HistoryRequest { asset1: 1, asset2: 2, count: 10 })
    );
}

#[test]
fn routes_that_cannot_be_read_are_bad_requests() {
    assert_eq!(route(true, b"/mean_history/7", None), Route::BadRequest);
    assert_eq!(route(true, b"/mean_history/7/x", None), Route::BadRequest);
    assert_eq!(route(true, b"/mean_history/7/9", Some(b"count=x")), Route::BadRequest);
    assert_eq!(route(true, b"/asset_swap/", None), Route::BadRequest);
}

#[test]
fn other_routes_are_not_found() {
    assert_eq!(route(false, b"/health", None), Route::NotFound);
    assert_eq!(route(true, b"/", None), Route::NotFound);
    assert_eq!(route(true, b"/healthy", None), Route::NotFound);
    assert_eq!(route(true, b"/mean_history", None), Route::NotFound);
    assert_eq!(route(true, b"", None), Route::NotFound);
}

#[test]
fn statuses_of_answers() {
    assert_eq!(response_status(&Route::Health, false, true), 200);
    assert_eq!(response_status(&Route::Assets, false, false), 200);
    assert_eq!(response_status(&Route::Assets, false, true), 500);
    assert_eq!(response_status(&Route::ExchangeRates, false, true), 500);
    assert_eq!(response_status(&Route::BadRequest, false, false), 400);
    assert_eq!(response_status(&Route::NotFound, false, false), 404);
    assert_eq!(response_status(&Route::Socket, true, false), 101);
    assert_eq!(response_status(&Route::Socket, false, false), 400);
}

#[test]
fn upgrade_needs_all_four_headers() {
    assert!(upgrade_connection(Some(b"websocket"), Some(b"13"), true, true));
    assert!(upgrade_connection(Some(b"WebSocket"), Some(b"13"), true, true));
    assert!(!upgrade_connection(None, Some(b"13"), true, true));
    assert!(!upgrade_connection(Some(b"websocket"), None, true, true));
    assert!(!upgrade_connection(Some(b"websocket"), Some(b"12"), true, true));
    assert!(!upgrade_connection(Some(b"websockets"), Some(b"13"), true, true));
    assert!(!upgrade_connection(Some(b"websocket"), Some(b"13"), false, true));
    assert!(!upgrade_connection(Some(b"websocket"), Some(b"13"), true, false));
}

fn rate(n: i64) -> BroadcastMessage {
    BroadcastMessage::MeanValue(ExchangeRate {
        script_hash: "aa".to_string(),
        asset1: n,
        asset2: 2,
        amount1: 3,
        amount2: 997,
    })
}

fn swap() -> BroadcastMessage {
    BroadcastMessage::Swap(SwapInfo {
        asset1: 1,
        amount1: 1_000_000,
        asset2: 2,
        amount2: 1_100,
        direction: "Buy".to_string(),
    })
}

fn kind(message: &Option<BroadcastMessage>) -> String {
    match message {
        Some(BroadcastMessage::MeanValue(rate)) => format!("MeanValue {}", rate.asset1),
        Some(BroadcastMessage::Swap(info)) => format!("Swap {}", info.direction),
        None => "nothing".to_string(),
    }
}

#[test]
fn two_subscribers_receive_the_same_frames_in_order() {
    let mut hub = Hub::new();
    let first = hub.subscribe().unwrap();
    let second = hub.subscribe().unwrap();
    assert_ne!(first, second);
    ws_broadcast(&rate(1), &mut hub);
    ws_broadcast(&swap(), &mut hub);
    for id in [first, second] {
        assert_eq!(kind(&hub.receive(id)), "MeanValue 1");
        assert_eq!(kind(&hub.receive(id)), "Swap Buy");
        assert_eq!(kind(&hub.receive(id)), "nothing");
    }
}

#[test]
fn subscriber_receives_only_what_is_published_after_it_subscribed() {
    let mut hub = Hub::new();
    hub.publish(&rate(1));
    let late = hub.subscribe().unwrap();
    hub.publish(&rate(2));
    assert_eq!(kind(&hub.receive(late)), "MeanValue 2");
    assert_eq!(kind(&hub.receive(late)), "nothing");
}

#[test]
fn slow_subscriber_loses_the_oldest_frames() {
    let mut hub = Hub::new();
    let slow = hub.subscribe().unwrap();
    for n in 0..20 {
        hub.publish(&rate(n));
    }
    for n in 4..20 {
        assert_eq!(kind(&hub.receive(slow)), format!("MeanValue {}", n));
    }
    assert_eq!(kind(&hub.receive(slow)), "nothing");
}

#[test]
fn unsubscribed_receives_nothing() {
    let mut hub = Hub::new();
    let gone = hub.subscribe().unwrap();
    let stays = hub.subscribe().unwrap();
    hub.unsubscribe(gone);
    hub.unsubscribe(99);
    hub.publish(&swap());
    assert_eq!(kind(&hub.receive(gone)), "nothing");
    assert_eq!(kind(&hub.receive(stays)), "Swap Buy");
}

#[test]
fn socket_with_a_colon_is_reached_over_tcp() {
    assert_eq!(bearer(b"relay.example:3001"), BearerKind::Tcp);
    assert_eq!(bearer(b"/run/node.socket"), BearerKind::Unix);
    assert_eq!(bearer(b""), BearerKind::Unix);
}

#[test]
fn start_is_a_slot_and_a_hash() {
    let start = parse_start(b"4492799:f8084c61").unwrap();
    assert_eq!(start.slot, 4492799);
    assert_eq!(start.hash, b"f8084c61".to_vec());
    let start = parse_start(b"1:a:b").unwrap();
    assert_eq!(start.hash, b"a:b".to_vec());
    assert!(parse_start(b"4492799").is_none());
    assert!(parse_start(b":f8").is_none());
    assert!(parse_start(b"x:f8").is_none());
}

#[test]
fn bootstrap_plan() {
    let plan = oura_bootstrap(Some(b"10:ab"), b"host:1").unwrap();
    assert_eq!(plan.bearer, BearerKind::Tcp);
    assert_eq!(plan.intersect.unwrap().slot, 10);
    let plan = oura_bootstrap(None, b"node.socket").unwrap();
    assert_eq!(plan.bearer, BearerKind::Unix);
    assert!(plan.intersect.is_none());
    assert_eq!(oura_bootstrap(Some(b"nothing"), b"host:1").unwrap_err(), SetupError::InvalidStart);
}
