use hyper::header::{HeaderMap, HeaderName, HeaderValue};
use rsintercept::headers::{is_websocket, override_host, HostError};

fn headers(entries: &[(&str, &str)]) -> HeaderMap {
    let mut headers = HeaderMap::new();
    for (name, value) in entries {
        headers.append(
            HeaderName::from_bytes(name.as_bytes()).unwrap(),
            HeaderValue::from_str(value).unwrap(),
        );
    }
    headers
}

#[test]
fn an_upgrade_to_websocket_is_told() {
    assert!(is_websocket(&headers(&[("Connection", "Upgrade"), ("Upgrade", "websocket")])));
    assert!(is_websocket(&headers(&[("Connection", "keep-alive, uPgRaDe"), ("Upgrade", "WebSocket")])));
    assert!(is_websocket(&headers(&[
        ("Connection", "keep-alive"),
        ("Connection", "\t upgrade ,x"),
        ("Upgrade", "h2c,\twebsocket "),
    ])));
}

#[test]
fn other_requests_are_no_websockets() {
    assert!(!is_websocket(&headers(&[])));
    assert!(!is_websocket(&headers(&[("Connection", "Upgrade")])));
    assert!(!is_websocket(&headers(&[("Upgrade", "websocket")])));
    assert!(!is_websocket(&headers(&[("Connection", "keep-alive"), ("Upgrade", "websocket")])));
    assert!(!is_websocket(&headers(&[("Connection", "Upgrade"), ("Upgrade", "h2c")])));
    assert!(!is_websocket(&headers(&[("Connection", "Upgrade"), ("Upgrade", "web socket")])));
    assert!(!is_websocket(&headers(&[("Connection", "Upgrade"), ("Upgrade", "websockets")])));
    assert!(!is_websocket(&headers(&[("Connection", "upgrade;x"), ("Upgrade", "websocket")])));
}

#[test]
fn the_host_is_left_untouched_by_default() {
    let mut sent = headers(&[("Host", "one"), ("Accept", "*/*")]);
    assert_eq!(override_host(&mut sent, None), Ok(()));
    assert_eq!(sent, headers(&[("Host", "one"), ("Accept", "*/*")]));
}

#[test]
fn the_host_takes_the_place_of_all_hosts() {
    let mut sent = headers(&[("Host", "one"), ("Host", "two"), ("Accept", "*/*")]);
    assert_eq!(override_host(&mut sent, Some("ws.ifelse.io")), Ok(()));
    assert_eq!(sent, headers(&[("Host", "ws.ifelse.io"), ("Accept", "*/*")]));

    let mut sent = headers(&[("Accept", "*/*")]);
    assert_eq!(override_host(&mut sent, Some("ws.ifelse.io")), Ok(()));
    assert_eq!(sent, headers(&[("Host", "ws.ifelse.io"), ("Accept", "*/*")]));
}

#[test]
fn the_last_host_stays() {
    let mut sent = headers(&[]);
    assert_eq!(override_host(&mut sent, Some("one")), Ok(()));
    assert_eq!(override_host(&mut sent, Some("two")), Ok(()));
    assert_eq!(sent, headers(&[("Host", "two")]));
}

#[test]
fn a_host_with_control_characters_is_refused() {
    for host in ["a\nb", "a\rb", "\u{0}", "a\u{7f}"] {
        let mut sent = headers(&[("Host", "one")]);
        assert_eq!(override_host(&mut sent, Some(host)), Err(HostError::NotSendable));
        assert_eq!(sent, headers(&[("Host", "one")]));
    }
}

#[test]
fn a_host_may_hold_what_is_no_control_character() {
    for host in ["", "a\tb", " ~", "h\u{f4}te"] {
        let mut sent = headers(&[]);
        assert_eq!(override_host(&mut sent, Some(host)), Ok(()));
        assert_eq!(sent.get("host").unwrap().as_bytes(), host.as_bytes());
    }
}

#[test]
fn too_many_headers_leave_no_room_for_a_host() {
    let mut sent = HeaderMap::new();
    for number in 0..24576u32 {
        let name = HeaderName::from_bytes(format!("x-{}", number).as_bytes()).unwrap();
        if sent.try_insert(name, HeaderValue::from_static("v")).is_err() {
            break;
        }
    }
    let held = sent.len();
    assert!(held > 6553);
    assert_eq!(override_host(&mut sent, Some("one")), Err(HostError::TooManyHeaders));
    assert_eq!(sent.len(), held);
    assert!(!sent.contains_key("host"));
}

#[test]
fn the_host_makes_and_unmakes_no_websocket() {
    let mut sent = headers(&[("Connection", "Upgrade"), ("Upgrade", "websocket")]);
    assert_eq!(override_host(&mut sent, Some("upgrade")), Ok(()));
    assert!(is_websocket(&sent));
    let mut sent = headers(&[("Connection", "Upgrade")]);
    assert_eq!(override_host(&mut sent, Some("websocket")), Ok(()));
    assert!(!is_websocket(&sent));
}
