use thanos::logs::Log;
use thanos::ThanosError;

#[test]
fn log_labels() {
    assert_eq!(Log::Success.label(), "OK");
    assert_eq!(Log::Error.label(), "Error");
    assert_eq!(Log::Info.label(), "Info");
    assert_eq!(Log::Warn.label(), "Warn");
}

#[test]
fn io_errors() {
    assert_eq!(ThanosError::from_io_kind(true, "connection refused".to_string()), ThanosError::ConnectionRefused);
    assert_eq!(
        ThanosError::from_io_kind(false, "timed out".to_string()),
        ThanosError::Other("timed out".to_string())
    );
}

#[test]
fn default_port() {
    assert_eq!(thanos::DEFAULT_PORT, 8080);
}

#[test]
fn error_text_is_pretty_debug() {
    for e in [
        ThanosError::ConnectionRefused,
        ThanosError::Other("timed out".to_string()),
        ThanosError::Other("say \"hi\"\n\tand\\ é \u{7}".to_string()),
        ThanosError::Other(String::new()),
    ] {
        assert_eq!(e.to_text(), format!("{:#?}", e));
    }
    assert_eq!(
        ThanosError::Other("x".to_string()).to_text(),
        "Other(\n    \"x\",\n)"
    );
}

#[test]
fn boxed_error_message() {
    let e: Box<dyn std::error::Error> = Box::from("boom");
    assert_eq!(ThanosError::from_message(e.to_string()), ThanosError::Other("boom".to_string()));
}
