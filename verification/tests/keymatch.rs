use thanos::config::keymatch::{match_key, match_method, match_strategy, match_word};
use thanos::config::{Key, Method, Strategy};

#[test]
fn key_words() {
    assert_eq!(match_key(Key::Port), Some("port".to_string()));
    assert_eq!(match_key(Key::Server), Some("server".to_string()));
    assert_eq!(match_key(Key::Method), Some("method".to_string()));
    assert_eq!(match_key(Key::Core), Some("core".to_string()));
    assert_eq!(match_key(Key::Strategy), None);
    assert_eq!(match_key(Key::Unknown), None);
}

#[test]
fn words_to_keys() {
    assert_eq!(match_word("port"), Key::Port);
    assert_eq!(match_word("server"), Key::Server);
    assert_eq!(match_word("servers"), Key::Server);
    assert_eq!(match_word("method"), Key::Method);
    assert_eq!(match_word("core"), Key::Core);
    assert_eq!(match_word("cores"), Key::Core);
    assert_eq!(match_word("strategy"), Key::Strategy);
    assert_eq!(match_word("Port"), Key::Unknown);
    assert_eq!(match_word(""), Key::Unknown);
    assert_eq!(match_word("ports"), Key::Unknown);
}

#[test]
fn key_word_round_trip() {
    for key in [Key::Port, Key::Server, Key::Method, Key::Core] {
        let word = match_key(key).unwrap();
        assert_eq!(match_word(&word), key);
    }
}

#[test]
fn methods_ignore_case() {
    assert_eq!(match_method("tproxy"), Some(Method::Tproxy));
    assert_eq!(match_method("TProxy"), Some(Method::Tproxy));
    assert_eq!(match_method("NORMAL"), Some(Method::Normal));
    assert_eq!(match_method("normal "), None);
    assert_eq!(match_method("transparent"), None);
    assert_eq!(match_method(""), None);
}

#[test]
fn strategies_ignore_case() {
    assert_eq!(match_strategy("roundrobin"), Some(Strategy::RoundRobin));
    assert_eq!(match_strategy("Round Robin"), Some(Strategy::RoundRobin));
    assert_eq!(match_strategy("leastconnection"), Some(Strategy::LeastConnections));
    assert_eq!(match_strategy("Least Connection"), Some(Strategy::LeastConnections));
    assert_eq!(match_strategy("least connections"), Some(Strategy::LeastConnections));
    assert_eq!(match_strategy("LEASTCONNECTIONS"), Some(Strategy::LeastConnections));
    assert_eq!(match_strategy("round-robin"), None);
    assert_eq!(match_strategy("random"), None);
}

#[test]
fn non_ascii_letters_do_not_match() {
    // U+212A KELVIN SIGN and U+0130 are not ASCII letters.
    assert_eq!(match_method("tproxy\u{212A}"), None);
    assert_eq!(match_strategy("round robİn"), None);
}
