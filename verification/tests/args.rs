use rsintercept::args::{
    default_bind_address, default_prometheus_bind_address, Args, TlsMismatch, DEFAULT_TRIM_LEVEL,
    TLS_MISMATCH,
};

fn args(tls_cert: Option<&str>, tls_pkey: Option<&str>) -> Args {
    Args {
        upstream_address: "ws.ifelse.io:80".to_string(),
        bind_address: default_bind_address(),
        prometheus_bind_address: default_prometheus_bind_address(),
        trim_level: DEFAULT_TRIM_LEVEL,
        http_host: Some("ws.ifelse.io".to_string()),
        ignore_status: Some(404),
        tls_cert: tls_cert.map(String::from),
        tls_pkey: tls_pkey.map(String::from),
        verbose: false,
        print_ip: false,
    }
}

#[test]
fn defaults_are_local() {
    assert_eq!(default_bind_address(), "127.0.0.1:8080");
    assert_eq!(default_prometheus_bind_address(), "127.0.0.1:9100");
    assert_eq!(DEFAULT_TRIM_LEVEL, 0);
}

#[test]
fn tls_takes_both_files_or_none() {
    let files = args(Some("cert.pem"), Some("key.pem")).tls_files().unwrap().unwrap();
    assert_eq!(files.cert, "cert.pem");
    assert_eq!(files.pkey, "key.pem");
    assert!(args(None, None).tls_files().unwrap().is_none());
    assert!(matches!(args(Some("cert.pem"), None).tls_files(), Err(TlsMismatch)));
    assert!(matches!(args(None, Some("key.pem")).tls_files(), Err(TlsMismatch)));
    assert_eq!(
        TLS_MISMATCH,
        "tls cert and key should be either both provided or neither provided"
    );
}

#[test]
fn settings_are_taken_from_the_arguments() {
    let settings = args(None, None).settings();
    assert_eq!(settings.http_host.as_deref(), Some("ws.ifelse.io"));
    assert_eq!(settings.trim_level, 0);
    assert_eq!(settings.ignore_status, Some(404));
}
