use prometheus::{Encoder, TextEncoder};
use rsintercept::metrics::{Metrics, MetricsError, Tally};

fn exported() -> String {
    let mut buffer = Vec::new();
    TextEncoder::new().encode(&prometheus::gather(), &mut buffer).unwrap();
    String::from_utf8(buffer).unwrap()
}

fn record(metrics: &mut Metrics, times: usize, tally: Tally) {
    for _ in 0..times {
        metrics.record(&tally);
    }
}

fn refused(name: &str) -> MetricsError {
    MetricsError { name: name.to_string() }
}

/// The counters live in a registry that the whole process shares, so one test takes them from
/// the start through all that is counted.
#[test]
fn counters_are_registered_once_and_exported() {
    let mut metrics = Metrics::new().unwrap();
    assert_eq!(
        exported(),
        "# HELP rs_intercept_non_websocket_fail total non websocket requests that upstream could not handle\n\
         # TYPE rs_intercept_non_websocket_fail counter\n\
         rs_intercept_non_websocket_fail 0\n\
         # HELP rs_intercept_websocket_fail total websocket requests that could not be upgraded\n\
         # TYPE rs_intercept_websocket_fail counter\n\
         rs_intercept_websocket_fail 0\n"
    );

    record(&mut metrics, 3, Tally::NonWebsocketFail);
    record(&mut metrics, 2, Tally::WebsocketFail);
    let text = exported();
    assert!(text.contains("\nrs_intercept_non_websocket_fail 3\n"));
    assert!(text.contains("\nrs_intercept_websocket_fail 2\n"));
    assert!(!text.contains("path="));

    record(&mut metrics, 2, Tally::NonWebsocket("/abc".to_string()));
    record(&mut metrics, 1, Tally::NonWebsocket("/def".to_string()));
    record(&mut metrics, 1, Tally::NonWebsocket("/hello".to_string()));
    record(&mut metrics, 1, Tally::NonWebsocket("/some-path".to_string()));
    record(&mut metrics, 14, Tally::WebsocketMessage("/".to_string()));
    record(&mut metrics, 8, Tally::WebsocketMessage("/abc".to_string()));
    record(&mut metrics, 15, Tally::WebsocketMessage("/abcdef".to_string()));
    record(&mut metrics, 19, Tally::WebsocketMessage("/some-path".to_string()));
    record(&mut metrics, 1, Tally::WebsocketSession("/".to_string()));
    record(&mut metrics, 1, Tally::WebsocketSession("/abc".to_string()));
    record(&mut metrics, 2, Tally::WebsocketSession("/abcdef".to_string()));
    record(&mut metrics, 1, Tally::WebsocketSession("/some-path".to_string()));
    let text = exported();
    let documented = [
        "# HELP rs_intercept_non_websocket_total Total HTTP requests forwarded that were not websocket",
        "# TYPE rs_intercept_non_websocket_total counter",
        "rs_intercept_non_websocket_total{path=\"/abc\"} 2",
        "rs_intercept_non_websocket_total{path=\"/def\"} 1",
        "rs_intercept_non_websocket_total{path=\"/hello\"} 1",
        "rs_intercept_non_websocket_total{path=\"/some-path\"} 1",
        "# HELP rs_intercept_websocket_messages_total Total WebSocket messages",
        "# TYPE rs_intercept_websocket_messages_total counter",
        "rs_intercept_websocket_messages_total{path=\"/\"} 14",
        "rs_intercept_websocket_messages_total{path=\"/abc\"} 8",
        "rs_intercept_websocket_messages_total{path=\"/abcdef\"} 15",
        "rs_intercept_websocket_messages_total{path=\"/some-path\"} 19",
        "# HELP rs_intercept_websocket_sessions_total Total WebSocket sessions",
        "# TYPE rs_intercept_websocket_sessions_total counter",
        "rs_intercept_websocket_sessions_total{path=\"/\"} 1",
        "rs_intercept_websocket_sessions_total{path=\"/abc\"} 1",
        "rs_intercept_websocket_sessions_total{path=\"/abcdef\"} 2",
        "rs_intercept_websocket_sessions_total{path=\"/some-path\"} 1",
    ];
    let lines: Vec<&str> = text.lines().filter(|line| !line.contains("_fail")).collect();
    assert_eq!(lines, documented);
    assert!(text.contains("\nrs_intercept_non_websocket_fail 3\n"));
    assert!(text.contains("\nrs_intercept_websocket_fail 2\n"));

    match Metrics::new() {
        Ok(_) => panic!("registered twice"),
        Err(error) => assert_eq!(error.name, "non_websocket_total"),
    }
    assert_eq!(exported(), text);

    // Two values of one slot, whose hash is 0x4eac0c95540867e4: the second is counted under the
    // first.
    record(&mut metrics, 1, Tally::NonWebsocket("8yn0iYCKYHlIj4-BwPqk".to_string()));
    record(&mut metrics, 1, Tally::NonWebsocket("GReLUrM4wMqfg9yzV3KQ".to_string()));
    // In another counter the second has the slot for itself.
    record(&mut metrics, 1, Tally::WebsocketMessage("GReLUrM4wMqfg9yzV3KQ".to_string()));
    // These differ in a single byte.
    record(&mut metrics, 1, Tally::WebsocketSession("8yn0iYCKYHlIj4-BwPqk".to_string()));
    record(&mut metrics, 1, Tally::WebsocketSession("8yn0iYCKYHlIj4-BwPql".to_string()));
    let text = exported();
    assert!(text.contains("rs_intercept_non_websocket_total{path=\"8yn0iYCKYHlIj4-BwPqk\"} 2\n"));
    assert!(!text.contains("rs_intercept_non_websocket_total{path=\"GReLUrM4wMqfg9yzV3KQ\"}"));
    assert!(text.contains("rs_intercept_websocket_messages_total{path=\"GReLUrM4wMqfg9yzV3KQ\"} 1\n"));
    assert!(text.contains("rs_intercept_websocket_sessions_total{path=\"8yn0iYCKYHlIj4-BwPqk\"} 1\n"));
    assert!(text.contains("rs_intercept_websocket_sessions_total{path=\"8yn0iYCKYHlIj4-BwPql\"} 1\n"));
}

#[test]
fn the_first_refused_counter_is_named() {
    let result = Metrics::assembled(
        Err(refused("a")),
        Err(refused("b")),
        Err(refused("c")),
        Err(refused("d")),
        Err(refused("e")),
    );
    match result {
        Ok(_) => panic!("assembled from nothing"),
        Err(error) => assert_eq!(error.name, "a"),
    }
}
