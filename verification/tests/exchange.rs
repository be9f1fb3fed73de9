use hyper::header::{HeaderMap, HeaderValue};
use rsintercept::exchange::{Exchange, ExchangeCommand, ExchangeEvent, ExchangeStep, Settings};
use rsintercept::headers::HostError;
use rsintercept::metrics::Tally;
use rsintercept::relay::{OpCode, RelayEvent};

fn settings(ignore_status: Option<u16>) -> Settings {
    Settings { http_host: None, trim_level: 0, ignore_status }
}

fn websocket_headers() -> HeaderMap {
    let mut headers = HeaderMap::new();
    headers.insert("connection", HeaderValue::from_static("Upgrade"));
    headers.insert("upgrade", HeaderValue::from_static("websocket"));
    headers
}

fn http(ignore_status: Option<u16>) -> Exchange {
    let exchange = Exchange::open(&mut HeaderMap::new(), "/a", &settings(ignore_status)).unwrap();
    assert_eq!(exchange.due(), ExchangeCommand::DialHttp);
    exchange
}

fn websocket() -> Exchange {
    let exchange = Exchange::open(&mut websocket_headers(), "/a", &settings(None)).unwrap();
    assert_eq!(exchange.due(), ExchangeCommand::DialWebsocket);
    exchange
}

fn assert_plain(step: ExchangeStep, command: ExchangeCommand) {
    assert!(step.tally.is_none());
    assert!(step.log.is_none());
    assert_eq!(step.command, command);
}

#[test]
fn an_answer_is_counted_and_passed_on() {
    let mut exchange = http(None);
    assert_plain(exchange.step(ExchangeEvent::Connected), ExchangeCommand::SendRequest);
    let step = exchange.step(ExchangeEvent::Answered { status: 200 });
    assert!(matches!(step.tally, Some(Tally::NonWebsocket(path)) if path == "/a"));
    assert!(step.log.is_none());
    assert_eq!(step.command, ExchangeCommand::ReplyUpstream);
    assert_eq!(exchange.due(), ExchangeCommand::ReplyUpstream);
}

#[test]
fn an_answer_of_the_ignored_status_is_not_counted() {
    let mut exchange = http(Some(404));
    exchange.step(ExchangeEvent::Connected);
    assert_plain(exchange.step(ExchangeEvent::Answered { status: 404 }), ExchangeCommand::ReplyUpstream);

    let mut exchange = http(Some(404));
    exchange.step(ExchangeEvent::Connected);
    let step = exchange.step(ExchangeEvent::Answered { status: 200 });
    assert!(matches!(step.tally, Some(Tally::NonWebsocket(_))));
}

#[test]
fn an_unreachable_upstream_is_answered_503() {
    let mut exchange = http(None);
    let step = exchange.step(ExchangeEvent::ConnectFailed { cause: "refused" });
    assert!(matches!(step.tally, Some(Tally::NonWebsocketFail)));
    assert_eq!(step.log.as_deref(), Some("refused"));
    assert_eq!(step.command, ExchangeCommand::Refuse(503));
}

#[test]
fn an_upstream_without_an_answer_is_answered_503() {
    let mut exchange = http(Some(503));
    exchange.step(ExchangeEvent::Connected);
    let step = exchange.step(ExchangeEvent::SendFailed { cause: "broken" });
    assert!(matches!(step.tally, Some(Tally::NonWebsocketFail)));
    assert_eq!(step.log.as_deref(), Some("broken"));
    assert_eq!(step.command, ExchangeCommand::Refuse(503));
}

#[test]
fn a_websocket_is_opened_and_counted() {
    let mut exchange = websocket();
    assert_plain(exchange.step(ExchangeEvent::Connected), ExchangeCommand::ReplyUpgrade);
    let step = exchange.step(ExchangeEvent::Upgraded);
    assert!(matches!(step.tally, Some(Tally::WebsocketSession(path)) if path == "/a"));
    assert!(step.log.is_none());
    assert_eq!(step.command, ExchangeCommand::StartRelays);
}

#[test]
fn a_websocket_that_upstream_refuses_is_answered_503() {
    let mut exchange = websocket();
    let step = exchange.step(ExchangeEvent::ConnectFailed { cause: "refused" });
    assert!(matches!(step.tally, Some(Tally::WebsocketFail)));
    assert_eq!(step.log.as_deref(), Some("refused"));
    assert_eq!(step.command, ExchangeCommand::Refuse(503));
}

#[test]
fn a_client_that_does_not_upgrade_is_logged() {
    let mut exchange = websocket();
    exchange.step(ExchangeEvent::Connected);
    let step = exchange.step(ExchangeEvent::UpgradeFailed { cause: "gone" });
    assert!(step.tally.is_none());
    assert_eq!(step.log.as_deref(), Some("error on ws: gone"));
    assert_eq!(step.command, ExchangeCommand::Stop);
}

#[test]
fn a_client_is_answered_once_and_counted_once() {
    let events = [
        ExchangeEvent::Upgraded,
        ExchangeEvent::Connected,
        ExchangeEvent::Connected,
        ExchangeEvent::Answered { status: 200 },
        ExchangeEvent::Answered { status: 200 },
        ExchangeEvent::SendFailed { cause: "late" },
        ExchangeEvent::ConnectFailed { cause: "late" },
    ];
    let mut exchange = http(None);
    let mut replies = 0;
    let mut tallies = 0;
    for event in events {
        let step = exchange.step(event);
        if matches!(
            step.command,
            ExchangeCommand::Refuse(_) | ExchangeCommand::ReplyUpstream | ExchangeCommand::ReplyUpgrade
        ) {
            replies += 1;
        }
        if step.tally.is_some() {
            tallies += 1;
        }
    }
    assert_eq!(replies, 1);
    assert_eq!(tallies, 1);
    assert_eq!(exchange.due(), ExchangeCommand::ReplyUpstream);
}

#[test]
fn a_report_that_was_not_asked_for_changes_nothing() {
    let mut exchange = http(None);
    assert_plain(exchange.step(ExchangeEvent::Answered { status: 200 }), ExchangeCommand::Ignore);
    assert_eq!(exchange.due(), ExchangeCommand::DialHttp);
}

#[test]
fn opening_puts_the_host_in_and_cuts_the_label() {
    let mut headers = HeaderMap::new();
    headers.insert("host", HeaderValue::from_static("one"));
    let settings = Settings {
        http_host: Some("two".to_string()),
        trim_level: 1,
        ignore_status: None,
    };
    let mut exchange = Exchange::open(&mut headers, "/a/b", &settings).unwrap();
    assert_eq!(headers.get("host").unwrap(), "two");
    exchange.step(ExchangeEvent::Connected);
    let step = exchange.step(ExchangeEvent::Answered { status: 204 });
    assert!(matches!(step.tally, Some(Tally::NonWebsocket(path)) if path == "/a"));
}

#[test]
fn opening_fails_on_a_host_that_cannot_be_sent() {
    let settings = Settings {
        http_host: Some("a\nb".to_string()),
        trim_level: 0,
        ignore_status: None,
    };
    let mut headers = HeaderMap::new();
    assert!(matches!(
        Exchange::open(&mut headers, "/", &settings),
        Err(HostError::NotSendable)
    ));
    assert!(headers.is_empty());
}

#[test]
fn relays_count_under_the_label_of_the_exchange() {
    let (mut up, mut down) = websocket().relays(true);
    let frame = RelayEvent::Frame { opcode: OpCode::Text, payload: b"hi" };
    let step = up.step(frame);
    assert!(matches!(step.tally, Some(Tally::WebsocketMessage(path)) if path == "/a"));
    assert_eq!(step.log.as_deref(), Some("↑ hi"));
    let step = down.step(frame);
    assert!(step.tally.is_none());
    assert_eq!(step.log.as_deref(), Some("↓ hi"));
}
