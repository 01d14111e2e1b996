//! Laws of the configuration language: what a statement of each key does,
//! and that the last statement of a key decides its setting.
use vstd::prelude::*;

use crate::config::keymatch::{key_of_word, method_of_word, strategy_of_word};
use crate::config::{
    apply_statement,
    config_report,
    lemma_failure_is_final,
    read_statements,
    sides,
    CliConfig,
    FileState,
    Key,
    Method,
    Settings,
    Strategy,
    Note,
    ConfigError,
};
use crate::number::{lemma_parse_unsigned_bounded, parse_unsigned};
use crate::text::{
    is_unicode_whitespace,
    lemma_split_first_piece,
    lemma_trim_keeps_first,
    lemma_trim_shape,
    split,
    trim,
    trim_class,
    CharClass,
};

verus! {

/// `ins` is a statement `key = value` whose key names `k`.
pub open spec fn keyed(ins: Seq<char>, k: Key) -> bool {
    sides(trim(ins)).len() == 2 && key_of_word(sides(trim(ins))[0]) == k
}

/// The value of a statement `key = value`, trimmed.
pub open spec fn value_of(ins: Seq<char>) -> Seq<char> {
    sides(trim(ins))[1]
}

/// The method that a method statement with value `v` sets: the word without
/// surrounding double quotes, in any ASCII case; `Normal` for any other word.
pub open spec fn method_set_by(v: Seq<char>) -> Method {
    let w = trim_class(v, CharClass::Exactly('"'));
    if method_of_word(w) is Some {
        method_of_word(w)->0
    } else {
        Method::Normal
    }
}

/// The strategy that a strategy statement with value `v` sets; round robin
/// for a word that names none.
pub open spec fn strategy_set_by(v: Seq<char>) -> Strategy {
    let w = trim_class(v, CharClass::Exactly('"'));
    if strategy_of_word(w) is Some {
        strategy_of_word(w)->0
    } else {
        Strategy::RoundRobin
    }
}

/// The core count that a core statement with value `v` sets: the number it
/// gives, or the physical core count `cores` where it gives none.
pub open spec fn core_set_by(v: Seq<char>, cores: u64) -> u64 {
    match parse_unsigned(v, 0xffff_ffff_ffff_ffff) {
        Ok(c) => c as u64,
        Err(_) => cores,
    }
}

/// The settings `a` and `b` agree on what statements of key `k` set.
pub open spec fn agree_on(a: Settings, b: Settings, k: Key) -> bool {
    match k {
        Key::Port => a.self_port == b.self_port,
        Key::Method => a.method == b.method,
        Key::Strategy => a.strategy == b.strategy,
        Key::Core => a.core == b.core,
        Key::Server => a.servers == b.servers,
        Key::Unknown => true,
    }
}

/// A statement whose key is known is no comment: trimmed, it is not empty
/// and does not start with `#`.
pub proof fn lemma_keyed_not_comment(ins: Seq<char>, k: Key)
    requires
        keyed(ins, k),
        k != Key::Unknown,
    ensures
        trim(ins).len() > 0,
        trim(ins)[0] != '#',
{
    let t = trim(ins);
    if t.len() == 0 {
        assert(split(t, '=') == seq![Seq::<char>::empty()]);
    } else {
        lemma_trim_shape(ins, CharClass::Whitespace);
        if t[0] == '#' {
            lemma_split_first_piece(t, '=');
            let p = split(t, '=')[0];
            assert(!is_unicode_whitespace(p[0]));
            lemma_trim_keeps_first(p);
            let key = sides(t)[0];
            assert(key == trim(p));
            assert(key[0] == '#');
            reveal_strlit("port");
            reveal_strlit("server");
            reveal_strlit("servers");
            reveal_strlit("method");
            reveal_strlit("core");
            reveal_strlit("cores");
            reveal_strlit("strategy");
            assert(key_of_word(key) == Key::Unknown);
        }
    }
}

/// A method statement sets the method its value names (quotes optional,
/// any ASCII case, `Normal` for another word) and changes nothing else.
pub proof fn lemma_method_statement(st: FileState, ins: Seq<char>, cores: u64)
    requires
        keyed(ins, Key::Method),
    ensures
        apply_statement(st, ins, cores) == (FileState {
            settings: (Settings { method: method_set_by(value_of(ins)), ..st.settings }),
            ..st
        }),
{
    lemma_keyed_not_comment(ins, Key::Method);
}

/// A strategy statement sets the strategy its value names (quotes optional,
/// any ASCII case, round robin for another word) and changes nothing else.
pub proof fn lemma_strategy_statement(st: FileState, ins: Seq<char>, cores: u64)
    requires
        keyed(ins, Key::Strategy),
    ensures
        apply_statement(st, ins, cores) == (FileState {
            settings: (Settings { strategy: strategy_set_by(value_of(ins)), ..st.settings }),
            ..st
        }),
{
    lemma_keyed_not_comment(ins, Key::Strategy);
}

/// A port statement notes its value; where the value is a number that fits
/// in 16 bits it becomes the port, else the reading fails with the reason.
pub proof fn lemma_port_statement(st: FileState, ins: Seq<char>, cores: u64)
    requires
        keyed(ins, Key::Port),
    ensures
        ({
            let r = apply_statement(st, ins, cores);
            &&& r.notes == st.notes.push(Note::Port(value_of(ins)))
            &&& match parse_unsigned(value_of(ins), 0xffff) {
                Ok(p) => r.failure == st.failure && r.settings == (Settings {
                    self_port: p as u16,
                    ..st.settings
                }),
                Err(e) => r.failure == Some(ConfigError::<Seq<char>>::PortNotNumber(e))
                    && r.settings == st.settings,
            }
        }),
{
    lemma_keyed_not_comment(ins, Key::Port);
}

/// A core statement sets the number it gives; where it gives none it notes
/// that and sets the physical core count.
pub proof fn lemma_core_statement(st: FileState, ins: Seq<char>, cores: u64)
    requires
        keyed(ins, Key::Core),
    ensures
        ({
            let r = apply_statement(st, ins, cores);
            &&& r.failure == st.failure
            &&& r.settings == (Settings { core: core_set_by(value_of(ins), cores), ..st.settings })
            &&& r.notes == (if parse_unsigned(value_of(ins), 0xffff_ffff_ffff_ffff) is Ok {
                st.notes
            } else {
                st.notes.push(Note::NoCores)
            })
        }),
{
    lemma_keyed_not_comment(ins, Key::Core);
}

/// A statement of another key leaves what key `k` sets alone.
pub proof fn lemma_other_statement_keeps(st: FileState, ins: Seq<char>, cores: u64, k: Key)
    requires
        !keyed(ins, k),
        k != Key::Unknown,
        k != Key::Server,
    ensures
        agree_on(apply_statement(st, ins, cores).settings, st.settings, k),
{
}

/// Statements of other keys after `base` leave what key `k` sets alone, as
/// long as the reading has not failed.
pub proof fn lemma_suffix_keeps(base: Seq<Seq<char>>, q: Seq<Seq<char>>, cores: u64, k: Key)
    requires
        k != Key::Unknown,
        k != Key::Server,
        forall|i: int| 0 <= i < q.len() ==> !keyed(#[trigger] q[i], k),
    ensures
        read_statements(base + q, cores).failure is None ==> agree_on(
            read_statements(base + q, cores).settings,
            read_statements(base, cores).settings,
            k,
        ),
    decreases q.len(),
{
    if q.len() == 0 {
        assert(base + q == base);
    } else {
        let q1 = q.drop_last();
        assert((base + q).drop_last() == base + q1);
        assert((base + q).last() == q[q.len() - 1]);
        assert forall|i: int| 0 <= i < q1.len() implies !keyed(#[trigger] q1[i], k) by {
            assert(q1[i] == q[i]);
        }
        lemma_suffix_keeps(base, q1, cores, k);
        let st = read_statements(base + q1, cores);
        if st.failure is None {
            lemma_other_statement_keeps(st, q[q.len() - 1], cores, k);
        }
    }
}

proof fn lemma_ok_prefix(p: Seq<Seq<char>>, q: Seq<Seq<char>>, cores: u64)
    requires
        read_statements(p + q, cores).failure is None,
    ensures
        read_statements(p, cores).failure is None,
{
    if read_statements(p, cores).failure is Some {
        lemma_failure_is_final(p, q, cores);
    }
}

/// The last method statement decides the method, unless the command line
/// gives one: statements of other keys after it do not change it.
pub proof fn lemma_last_method_statement_decides(
    cli: CliConfig,
    p: Seq<Seq<char>>,
    ins: Seq<char>,
    q: Seq<Seq<char>>,
    cores: u64,
)
    requires
        cli.method is None,
        keyed(ins, Key::Method),
        forall|i: int| 0 <= i < q.len() ==> !keyed(#[trigger] q[i], Key::Method),
    ensures
        config_report(cli, p.push(ins) + q, cores).outcome matches Ok(s) ==> s.method
            == method_set_by(value_of(ins)),
{
    let all = p.push(ins) + q;
    if read_statements(all, cores).failure is None {
        lemma_ok_prefix(p.push(ins), q, cores);
        assert(p + seq![ins] == p.push(ins));
        lemma_ok_prefix(p, seq![ins], cores);
        assert(p.push(ins).drop_last() == p);
        lemma_method_statement(read_statements(p, cores), ins, cores);
        lemma_suffix_keeps(p.push(ins), q, cores, Key::Method);
    }
}

/// The last strategy statement decides the strategy, unless the command line
/// gives one.
pub proof fn lemma_last_strategy_statement_decides(
    cli: CliConfig,
    p: Seq<Seq<char>>,
    ins: Seq<char>,
    q: Seq<Seq<char>>,
    cores: u64,
)
    requires
        cli.strategy is None,
        keyed(ins, Key::Strategy),
        forall|i: int| 0 <= i < q.len() ==> !keyed(#[trigger] q[i], Key::Strategy),
    ensures
        config_report(cli, p.push(ins) + q, cores).outcome matches Ok(s) ==> s.strategy
            == strategy_set_by(value_of(ins)),
{
    let all = p.push(ins) + q;
    if read_statements(all, cores).failure is None {
        lemma_ok_prefix(p.push(ins), q, cores);
        assert(p + seq![ins] == p.push(ins));
        lemma_ok_prefix(p, seq![ins], cores);
        assert(p.push(ins).drop_last() == p);
        lemma_strategy_statement(read_statements(p, cores), ins, cores);
        lemma_suffix_keeps(p.push(ins), q, cores, Key::Strategy);
    }
}

/// The last port statement decides the port, unless the command line gives
/// one; a usable configuration means its value was a 16-bit number.
pub proof fn lemma_last_port_statement_decides(
    cli: CliConfig,
    p: Seq<Seq<char>>,
    ins: Seq<char>,
    q: Seq<Seq<char>>,
    cores: u64,
)
    requires
        cli.self_port is None,
        keyed(ins, Key::Port),
        forall|i: int| 0 <= i < q.len() ==> !keyed(#[trigger] q[i], Key::Port),
    ensures
        config_report(cli, p.push(ins) + q, cores).outcome matches Ok(s) ==> {
            &&& parse_unsigned(value_of(ins), 0xffff) is Ok
            &&& s.self_port == parse_unsigned(value_of(ins), 0xffff)->Ok_0
        },
{
    let all = p.push(ins) + q;
    if read_statements(all, cores).failure is None {
        lemma_ok_prefix(p.push(ins), q, cores);
        assert(p + seq![ins] == p.push(ins));
        lemma_ok_prefix(p, seq![ins], cores);
        assert(p.push(ins).drop_last() == p);
        lemma_port_statement(read_statements(p, cores), ins, cores);
        lemma_parse_unsigned_bounded(value_of(ins), 0xffff);
        lemma_suffix_keeps(p.push(ins), q, cores, Key::Port);
    }
}

/// The last core statement decides the core count, unless the command line
/// gives one.
pub proof fn lemma_last_core_statement_decides(
    cli: CliConfig,
    p: Seq<Seq<char>>,
    ins: Seq<char>,
    q: Seq<Seq<char>>,
    cores: u64,
)
    requires
        cli.core is None,
        keyed(ins, Key::Core),
        forall|i: int| 0 <= i < q.len() ==> !keyed(#[trigger] q[i], Key::Core),
    ensures
        config_report(cli, p.push(ins) + q, cores).outcome matches Ok(s) ==> s.core
            == core_set_by(value_of(ins), cores),
{
    let all = p.push(ins) + q;
    if read_statements(all, cores).failure is None {
        lemma_ok_prefix(p.push(ins), q, cores);
        assert(p + seq![ins] == p.push(ins));
        lemma_ok_prefix(p, seq![ins], cores);
        assert(p.push(ins).drop_last() == p);
        lemma_core_statement(read_statements(p, cores), ins, cores);
        lemma_suffix_keeps(p.push(ins), q, cores, Key::Core);
    }
}

} // verus!
