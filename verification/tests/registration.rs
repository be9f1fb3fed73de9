use prometheus::{Counter, Opts};
use rsintercept::metrics::Metrics;

/// The registry is one for the whole process, and this test fills it in its own way.
#[test]
fn nothing_is_registered_after_a_refusal() {
    let taken = Counter::with_opts(Opts::new("rs_intercept_websocket_fail", "taken")).unwrap();
    prometheus::register(Box::new(taken)).unwrap();
    match Metrics::new() {
        Ok(_) => panic!("registered under a name that was taken"),
        Err(error) => assert_eq!(error.name, "websocket_fail"),
    }
    let names: Vec<String> =
        prometheus::gather().iter().map(|family| family.name().to_string()).collect();
    assert_eq!(names, ["rs_intercept_websocket_fail"]);
    match Metrics::new() {
        Ok(_) => panic!("registered twice"),
        Err(error) => assert_eq!(error.name, "non_websocket_total"),
    }
}
