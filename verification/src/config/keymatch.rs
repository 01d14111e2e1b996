//! The words of the configuration language: keys, proxy methods and
//! balancing strategies.
use vstd::prelude::*;

use crate::config::{Key, Method, Strategy};
use crate::text::{chars_eq_str, chars_of, lower, lower_chars};

verus! {

/// The word that names a key in a configuration file, for the keys that
/// have one.
pub open spec fn word_of_key(key: Key) -> Option<Seq<char>> {
    match key {
        Key::Port => Some("port"@),
        Key::Server => Some("server"@),
        Key::Method => Some("method"@),
        Key::Core => Some("core"@),
        _ => None,
    }
}

/// The key that a word of a configuration file names.
pub open spec fn key_of_word(word: Seq<char>) -> Key {
    if word == "port"@ {
        Key::Port
    } else if word == "server"@ || word == "servers"@ {
        Key::Server
    } else if word == "method"@ {
        Key::Method
    } else if word == "core"@ || word == "cores"@ {
        Key::Core
    } else if word == "strategy"@ {
        Key::Strategy
    } else {
        Key::Unknown
    }
}

/// The proxy method that a word names, ignoring ASCII case.
pub open spec fn method_of_word(word: Seq<char>) -> Option<Method> {
    let w = lower(word);
    if w == "tproxy"@ {
        Some(Method::Tproxy)
    } else if w == "normal"@ {
        Some(Method::Normal)
    } else {
        None
    }
}

/// The balancing strategy that a word names, ignoring ASCII case.
pub open spec fn strategy_of_word(word: Seq<char>) -> Option<Strategy> {
    let w = lower(word);
    if w == "roundrobin"@ || w == "round robin"@ {
        Some(Strategy::RoundRobin)
    } else if w == "leastconnection"@ || w == "least connection"@ || w == "least connections"@
        || w == "leastconnections"@ {
        Some(Strategy::LeastConnections)
    } else {
        None
    }
}

/// The word for `key` in a configuration file, if the key has one.
pub fn match_key(key: Key) -> (r: Option<String>)
    ensures
        match word_of_key(key) {
            Some(w) => r is Some && r->0@ == w,
            None => r is None,
        },
{
    let word = match key {
        Key::Port => "port",
        Key::Server => "server",
        Key::Method => "method",
        Key::Core => "core",
        _ => return None,
    };
    Some(word.to_owned())
}

/// The key that `word` names; `Key::Unknown` for any other word.
pub fn match_word(word: &str) -> (r: Key)
    ensures
        r == key_of_word(word@),
{
    let w = chars_of(word);
    if chars_eq_str(&w, "port") {
        Key::Port
    } else if chars_eq_str(&w, "server") || chars_eq_str(&w, "servers") {
        Key::Server
    } else if chars_eq_str(&w, "method") {
        Key::Method
    } else if chars_eq_str(&w, "core") || chars_eq_str(&w, "cores") {
        Key::Core
    } else if chars_eq_str(&w, "strategy") {
        Key::Strategy
    } else {
        Key::Unknown
    }
}

/// The proxy method that `method` names, in any ASCII case.
///
/// Comparing after ASCII lower-casing decides exactly as comparing after
/// `str::to_lowercase` does here: the only other characters whose lower case
/// holds an ASCII letter are U+0130, which lower-cases with a combining mark,
/// and U+212A, which lower-cases to `k`, a letter that none of the words has.
pub fn match_method(method: &str) -> (r: Option<Method>)
    ensures
        r == method_of_word(method@),
{
    let w = lower_chars(&chars_of(method));
    if chars_eq_str(&w, "tproxy") {
        Some(Method::Tproxy)
    } else if chars_eq_str(&w, "normal") {
        Some(Method::Normal)
    } else {
        None
    }
}

/// The balancing strategy that `strategy` names, in any ASCII case (see
/// `match_method` on case).
pub fn match_strategy(strategy: &str) -> (r: Option<Strategy>)
    ensures
        r == strategy_of_word(strategy@),
{
    let w = lower_chars(&chars_of(strategy));
    if chars_eq_str(&w, "roundrobin") || chars_eq_str(&w, "round robin") {
        Some(Strategy::RoundRobin)
    } else if chars_eq_str(&w, "leastconnection") || chars_eq_str(&w, "least connection")
        || chars_eq_str(&w, "least connections") || chars_eq_str(&w, "leastconnections") {
        Some(Strategy::LeastConnections)
    } else {
        None
    }
}

/// Proxy methods and strategies are matched without regard to ASCII case:
/// words equal up to case name the same method and the same strategy.
pub proof fn lemma_matching_ignores_case(a: Seq<char>, b: Seq<char>)
    requires
        lower(a) == lower(b),
    ensures
        method_of_word(a) == method_of_word(b),
        strategy_of_word(a) == strategy_of_word(b),
{
}

/// The word that `match_key` gives for a key is read back as that key by
/// `match_word`.
pub proof fn lemma_key_word_round_trip(key: Key)
    requires
        word_of_key(key) is Some,
    ensures
        key_of_word(word_of_key(key)->0) == key,
{
    reveal_strlit("port");
    reveal_strlit("server");
    reveal_strlit("servers");
    reveal_strlit("method");
    reveal_strlit("core");
    reveal_strlit("cores");
    reveal_strlit("strategy");
    assert("core"@[0] != "port"@[0]);
    assert("server"@[0] != "method"@[0]);
}

} // verus!
