//! The configuration of the balancer and the language of its configuration
//! file.
//!
//! A configuration file is a list of statements `key = value;`; `#` starts a
//! comment that runs to the end of its line. The spec function
//! `file_statements` says which statements a file holds, and
//! `config_report` what a list of statements, the command line settings and
//! the machine's physical core count make of them.
use vstd::prelude::*;
use vstd::string::StringExecFns;

use crate::config::keymatch::{
    key_of_word,
    match_method,
    match_strategy,
    match_word,
    method_of_word,
    strategy_of_word,
};
use crate::number::{parse_u16, parse_u64, parse_unsigned, IntError};
use crate::text::{
    before_first,
    before_first_chars,
    chars_of,
    lacks,
    lemma_before_first_lacks,
    lemma_split_pieces_lack,
    lemma_trim_idempotent,
    lemma_trim_lacks,
    lines,
    push_all,
    slice_chars,
    split,
    split_chars,
    string_of,
    string_views,
    strip_cr,
    strip_cr_chars,
    trim,
    trim_chars,
    trim_class,
    utf8_len,
    utf8_len_is_two,
    views,
    CharClass,
};
use crate::DEFAULT_PORT;

pub mod keymatch;
pub mod laws;

verus! {

/// A key of the configuration file.
#[derive(Clone, Copy, Debug, PartialEq, Eq, Structural)]
pub enum Key {
    Port,
    Server,
    Method,
    Core,
    Strategy,
    Unknown,
}

/// How connections reach the servers.
#[derive(Clone, Copy, Debug, PartialEq, Eq, Structural)]
pub enum Method {
    /// A transparent socket bound to the client's address.
    Tproxy,
    /// A separate connection from the balancer.
    Normal,
}

/// How a server is chosen for each connection.
#[derive(Clone, Copy, Debug, PartialEq, Eq, Structural)]
pub enum Strategy {
    RoundRobin,
    LeastConnections,
}

/// The settings the balancer runs with. A server is held as the text of its
/// socket address.
#[derive(Debug, PartialEq, Eq)]
pub struct Config {
    pub servers: Vec<String>,
    pub self_port: u16,
    pub method: Method,
    pub strategy: Strategy,
    pub core: u64,
}

/// The settings given on the command line; `None` where none was given.
#[derive(Debug)]
pub struct CliConfig {
    pub servers: Option<Vec<String>>,
    pub self_port: Option<u16>,
    pub method: Option<Method>,
    pub strategy: Option<Strategy>,
    pub core: Option<u64>,
}

/// The view of a `Config`.
pub struct Settings {
    pub servers: Seq<Seq<char>>,
    pub self_port: u16,
    pub method: Method,
    pub strategy: Strategy,
    pub core: u64,
}

impl View for Config {
    type V = Settings;

    open spec fn view(&self) -> Settings {
        Settings {
            servers: string_views(self.servers@),
            self_port: self.self_port,
            method: self.method,
            strategy: self.strategy,
            core: self.core,
        }
    }
}

/// The settings used where neither the file nor the command line gives one.
pub open spec fn default_settings() -> Settings {
    Settings {
        servers: Seq::empty(),
        self_port: DEFAULT_PORT,
        method: Method::Normal,
        strategy: Strategy::RoundRobin,
        core: 1,
    }
}

impl Default for CliConfig {
    fn default() -> (r: Self)
        ensures
            r.servers is None,
            r.self_port is None,
            r.method is None,
            r.strategy is None,
            r.core is None,
    {
        CliConfig { servers: None, self_port: None, method: None, strategy: None, core: None }
    }
}

impl Default for Config {
    fn default() -> (r: Self)
        ensures
            r@ == default_settings(),
    {
        let r = Config {
            self_port: DEFAULT_PORT,
            servers: Vec::new(),
            core: 1,
            method: Method::Normal,
            strategy: Strategy::RoundRobin,
        };
        assert(r@.servers =~= Seq::<Seq<char>>::empty());
        r
    }
}

/// Something the reading of a configuration has to report, in the order the
/// statements give rise to it.
#[derive(Debug, PartialEq, Eq)]
pub enum Note<S> {
    /// A port statement with this value was read.
    Port(S),
    /// This server address was listed; it is to be read as a socket address.
    Server(S),
    /// A core statement gave no number, so the physical core count is used.
    NoCores,
    /// A statement has this key, which the language does not know.
    UnknownKey(S),
}

/// Why a configuration cannot be used.
#[derive(Debug, PartialEq, Eq)]
pub enum ConfigError<S> {
    /// This statement is not of the form `key = value`.
    NotFormatted(S),
    /// The port is not a number that fits in 16 bits.
    PortNotNumber(IntError),
    /// The server list is two bytes long in UTF-8, so it names no server.
    ServersMisconfigured,
    /// The server list is not enclosed in `[` and `]`.
    ServersNotBracketed,
    /// Neither the file nor the command line gives a server.
    NoServers,
}

impl View for Note<String> {
    type V = Note<Seq<char>>;

    open spec fn view(&self) -> Note<Seq<char>> {
        match self {
            Note::Port(s) => Note::Port(s@),
            Note::Server(s) => Note::Server(s@),
            Note::NoCores => Note::NoCores,
            Note::UnknownKey(s) => Note::UnknownKey(s@),
        }
    }
}

impl View for ConfigError<String> {
    type V = ConfigError<Seq<char>>;

    open spec fn view(&self) -> ConfigError<Seq<char>> {
        match self {
            ConfigError::NotFormatted(s) => ConfigError::NotFormatted(s@),
            ConfigError::PortNotNumber(e) => ConfigError::PortNotNumber(*e),
            ConfigError::ServersMisconfigured => ConfigError::ServersMisconfigured,
            ConfigError::ServersNotBracketed => ConfigError::ServersNotBracketed,
            ConfigError::NoServers => ConfigError::NoServers,
        }
    }
}

/// What reading a configuration gives: the notes in order and then either the
/// settings or the error that stopped the reading.
#[derive(Debug, PartialEq, Eq)]
pub struct ConfigReport {
    pub notes: Vec<Note<String>>,
    pub outcome: Result<Config, ConfigError<String>>,
}

/// The view of a `ConfigReport`.
pub struct ReportView {
    pub notes: Seq<Note<Seq<char>>>,
    pub outcome: Result<Settings, ConfigError<Seq<char>>>,
}

pub open spec fn note_views(v: Seq<Note<String>>) -> Seq<Note<Seq<char>>> {
    v.map_values(|n: Note<String>| n@)
}

impl View for ConfigReport {
    type V = ReportView;

    open spec fn view(&self) -> ReportView {
        ReportView {
            notes: note_views(self.notes@),
            outcome: match self.outcome {
                Ok(c) => Ok(c@),
                Err(e) => Err(e@),
            },
        }
    }
}

// ---------------------------------------------------------------------------
// The statements of a file.
/// The lines of a file with their comments cut off, each followed by `'\n'`.
pub open spec fn uncommented(ls: Seq<Seq<char>>) -> Seq<char>
    decreases ls.len(),
{
    if ls.len() == 0 {
        Seq::empty()
    } else {
        uncommented(ls.drop_last()) + before_first(ls.last(), '#').push('\n')
    }
}

/// The pieces trimmed of white space, the empty ones left out.
pub open spec fn trimmed_nonempty(ps: Seq<Seq<char>>) -> Seq<Seq<char>>
    decreases ps.len(),
{
    if ps.len() == 0 {
        Seq::empty()
    } else if trim(ps.last()).len() == 0 {
        trimmed_nonempty(ps.drop_last())
    } else {
        trimmed_nonempty(ps.drop_last()).push(trim(ps.last()))
    }
}

/// The statements of a configuration file: the text outside comments, split
/// at `;`, each piece trimmed, the empty ones left out.
pub open spec fn file_statements(data: Seq<char>) -> Seq<Seq<char>> {
    trimmed_nonempty(split(uncommented(lines(data)), ';'))
}

// ---------------------------------------------------------------------------
// The meaning of statements.
/// A statement split at `=`, each side trimmed.
pub open spec fn sides(t: Seq<char>) -> Seq<Seq<char>> {
    split(t, '=').map_values(|p: Seq<char>| trim(p))
}

/// A listed server address without white space and quotes around it.
pub open spec fn clean_address(p: Seq<char>) -> Seq<char> {
    trim_class(trim_class(trim(p), CharClass::Exactly('"')), CharClass::Exactly('\''))
}

/// The addresses of a server list `[a, b, ...]`.
pub open spec fn address_list(list: Seq<char>) -> Seq<Seq<char>> {
    split(list.subrange(1, list.len() - 1), ',').map_values(|p: Seq<char>| clean_address(p))
}

pub open spec fn is_bracketed(a: Seq<char>) -> bool {
    a.len() > 0 && a[0] == '[' && a.last() == ']'
}

/// The state of reading a file's statements.
pub struct FileState {
    pub notes: Seq<Note<Seq<char>>>,
    pub failure: Option<ConfigError<Seq<char>>>,
    pub settings: Settings,
}

pub open spec fn with_port(s: Settings, p: u16) -> Settings {
    Settings { self_port: p, ..s }
}

pub open spec fn with_servers(s: Settings, v: Seq<Seq<char>>) -> Settings {
    Settings { servers: v, ..s }
}

pub open spec fn with_method(s: Settings, m: Method) -> Settings {
    Settings { method: m, ..s }
}

pub open spec fn with_strategy(s: Settings, k: Strategy) -> Settings {
    Settings { strategy: k, ..s }
}

pub open spec fn with_core(s: Settings, c: u64) -> Settings {
    Settings { core: c, ..s }
}

/// What one statement does to the state; `cores` is the physical core count.
pub open spec fn apply_statement(st: FileState, ins: Seq<char>, cores: u64) -> FileState {
    let t = trim(ins);
    if t.len() == 0 || t[0] == '#' {
        st
    } else if sides(t).len() != 2 {
        FileState { failure: Some(ConfigError::NotFormatted(t)), ..st }
    } else {
        let key = sides(t)[0];
        let value = sides(t)[1];
        match key_of_word(key) {
            Key::Port => {
                let notes = st.notes.push(Note::Port(value));
                match parse_unsigned(value, 0xffff) {
                    Ok(p) => FileState {
                        notes,
                        settings: with_port(st.settings, p as u16),
                        ..st
                    },
                    Err(e) => FileState {
                        notes,
                        failure: Some(ConfigError::PortNotNumber(e)),
                        ..st
                    },
                }
            },
            Key::Server => {
                let a = trim(value);
                if utf8_len(value) == 2 {
                    FileState { failure: Some(ConfigError::ServersMisconfigured), ..st }
                } else if !is_bracketed(a) {
                    FileState { failure: Some(ConfigError::ServersNotBracketed), ..st }
                } else {
                    let addrs = address_list(a);
                    FileState {
                        notes: st.notes + addrs.map_values(|x: Seq<char>| Note::Server(x)),
                        settings: with_servers(st.settings, st.settings.servers + addrs),
                        ..st
                    }
                }
            },
            Key::Method => {
                let m = match method_of_word(trim_class(value, CharClass::Exactly('"'))) {
                    Some(m) => m,
                    None => Method::Normal,
                };
                FileState { settings: with_method(st.settings, m), ..st }
            },
            Key::Strategy => {
                let k = match strategy_of_word(trim_class(value, CharClass::Exactly('"'))) {
                    Some(k) => k,
                    None => Strategy::RoundRobin,
                };
                FileState { settings: with_strategy(st.settings, k), ..st }
            },
            Key::Core => match parse_unsigned(value, 0xffff_ffff_ffff_ffff) {
                Ok(c) => FileState { settings: with_core(st.settings, c as u64), ..st },
                Err(_) => FileState {
                    notes: st.notes.push(Note::NoCores),
                    settings: with_core(st.settings, cores),
                    ..st
                },
            },
            Key::Unknown => FileState { notes: st.notes.push(Note::UnknownKey(key)), ..st },
        }
    }
}

/// The state after the statements, read in order until one fails.
pub open spec fn read_statements(stmts: Seq<Seq<char>>, cores: u64) -> FileState
    decreases stmts.len(),
{
    if stmts.len() == 0 {
        FileState { notes: Seq::empty(), failure: None, settings: default_settings() }
    } else {
        let st = read_statements(stmts.drop_last(), cores);
        if st.failure is Some {
            st
        } else {
            apply_statement(st, stmts.last(), cores)
        }
    }
}

/// The settings of the file with those given on the command line put over
/// them; a server list replaces the file's only where it is not empty.
pub open spec fn merge_cli(s: Settings, cli: CliConfig) -> Settings {
    Settings {
        servers: match cli.servers {
            Some(v) => if v.len() > 0 {
                string_views(v@)
            } else {
                s.servers
            },
            None => s.servers,
        },
        self_port: match cli.self_port {
            Some(p) => p,
            None => s.self_port,
        },
        method: match cli.method {
            Some(m) => m,
            None => s.method,
        },
        strategy: match cli.strategy {
            Some(k) => k,
            None => s.strategy,
        },
        core: match cli.core {
            Some(c) => c,
            None => s.core,
        },
    }
}

/// What reading `stmts` with the command line settings `cli` gives, where the
/// machine has `cores` physical cores.
pub open spec fn config_report(cli: CliConfig, stmts: Seq<Seq<char>>, cores: u64) -> ReportView {
    let st = read_statements(stmts, cores);
    ReportView {
        notes: st.notes,
        outcome: match st.failure {
            Some(e) => Err(e),
            None => {
                let merged = merge_cli(st.settings, cli);
                if merged.servers.len() == 0 {
                    Err(ConfigError::NoServers)
                } else {
                    Ok(merged)
                }
            },
        },
    }
}

/// The location of the configuration file: `provided`, or the default
/// location, under the home directory `home` (`/home` where the environment
/// gives none).
pub fn get_config_path(home: Option<String>, provided: Option<String>) -> (path: String)
    ensures
        path@ == (match home {
            Some(h) => h@,
            None => "/home"@,
        }) + (match provided {
            Some(p) => p@,
            None => "/.config/thanos/thanos.conf"@,
        }),
{
    let mut path = match home {
        Some(s) => s,
        None => "/home".to_owned(),
    };
    match provided {
        Some(p) => path.append(p.as_str()),
        None => path.append("/.config/thanos/thanos.conf"),
    }
    path
}

// ---------------------------------------------------------------------------
// Laws.
proof fn lemma_uncommented_lacks_hash(ls: Seq<Seq<char>>)
    ensures
        lacks(uncommented(ls), '#'),
    decreases ls.len(),
{
    if ls.len() > 0 {
        lemma_uncommented_lacks_hash(ls.drop_last());
        lemma_before_first_lacks(ls.last(), '#');
        let a = uncommented(ls.drop_last());
        let b = before_first(ls.last(), '#').push('\n');
        assert forall|i: int| 0 <= i < (a + b).len() implies (a + b)[i] != '#' by {
            if i >= a.len() && i < a.len() + b.len() - 1 {
                assert((a + b)[i] == before_first(ls.last(), '#')[i - a.len()]);
            }
        }
    }
}

proof fn lemma_trimmed_nonempty_from(ps: Seq<Seq<char>>)
    ensures
        forall|i: int|
            0 <= i < trimmed_nonempty(ps).len() ==> exists|j: int|
                0 <= j < ps.len() && #[trigger] trimmed_nonempty(ps)[i] == trim(ps[j]) && trim(
                    ps[j],
                ).len() > 0,
    decreases ps.len(),
{
    if ps.len() > 0 {
        let q = ps.drop_last();
        lemma_trimmed_nonempty_from(q);
        let r = trimmed_nonempty(ps);
        assert forall|i: int| 0 <= i < r.len() implies exists|j: int|
            0 <= j < ps.len() && #[trigger] r[i] == trim(ps[j]) && trim(ps[j]).len() > 0 by {
            if i < trimmed_nonempty(q).len() {
                assert(r[i] == trimmed_nonempty(q)[i]);
                let j = choose|j: int|
                    0 <= j < q.len() && #[trigger] trimmed_nonempty(q)[i] == trim(q[j]) && trim(
                        q[j],
                    ).len() > 0;
                assert(ps[j] == q[j]);
            } else {
                assert(r[i] == trim(ps[ps.len() - 1]));
            }
        }
    }
}

/// Every statement of a file is non-empty, already trimmed, and holds no
/// `;` and no `#`.
pub proof fn lemma_statement_shape(data: Seq<char>)
    ensures
        forall|i: int|
            0 <= i < file_statements(data).len() ==> {
                let s = #[trigger] file_statements(data)[i];
                &&& s.len() > 0
                &&& trim(s) == s
                &&& lacks(s, ';')
                &&& lacks(s, '#')
            },
{
    let u = uncommented(lines(data));
    lemma_uncommented_lacks_hash(lines(data));
    lemma_split_pieces_lack(u, ';', '#');
    let ps = split(u, ';');
    lemma_trimmed_nonempty_from(ps);
    assert forall|i: int| 0 <= i < file_statements(data).len() implies {
        let s = #[trigger] file_statements(data)[i];
        &&& s.len() > 0
        &&& trim(s) == s
        &&& lacks(s, ';')
        &&& lacks(s, '#')
    } by {
        let s = file_statements(data)[i];
        let j = choose|j: int|
            0 <= j < ps.len() && #[trigger] trimmed_nonempty(ps)[i] == trim(ps[j]) && trim(
                ps[j],
            ).len() > 0;
        assert(lacks(ps[j], ';') && lacks(ps[j], '#'));
        lemma_trim_lacks(ps[j], CharClass::Whitespace, ';');
        lemma_trim_lacks(ps[j], CharClass::Whitespace, '#');
        lemma_trim_idempotent(ps[j], CharClass::Whitespace);
    }
}

/// A blank statement or one that starts with `#` changes nothing.
pub proof fn lemma_comment_statement_inert(st: FileState, ins: Seq<char>, cores: u64)
    requires
        trim(ins).len() == 0 || trim(ins)[0] == '#',
    ensures
        apply_statement(st, ins, cores) == st,
{
}

/// Once a statement fails, the statements after it are not read: they change
/// neither the notes nor the outcome.
pub proof fn lemma_failure_is_final(s: Seq<Seq<char>>, t: Seq<Seq<char>>, cores: u64)
    requires
        read_statements(s, cores).failure is Some,
    ensures
        read_statements(s + t, cores) == read_statements(s, cores),
    decreases t.len(),
{
    if t.len() > 0 {
        lemma_failure_is_final(s, t.drop_last(), cores);
        assert((s + t).drop_last() == s + t.drop_last());
    } else {
        assert(s + t == s);
    }
}

/// A setting given on the command line wins over the file's, and a usable
/// configuration always names a server.
pub proof fn lemma_cli_wins(cli: CliConfig, stmts: Seq<Seq<char>>, cores: u64)
    ensures
        config_report(cli, stmts, cores).outcome matches Ok(s) ==> {
            &&& s.servers.len() > 0
            &&& (cli.self_port matches Some(p) ==> s.self_port == p)
            &&& (cli.method matches Some(m) ==> s.method == m)
            &&& (cli.strategy matches Some(k) ==> s.strategy == k)
            &&& (cli.core matches Some(c) ==> s.core == c)
            &&& (cli.servers matches Some(v) ==> v.len() > 0 ==> s.servers == string_views(v@))
        },
{
}

proof fn lemma_failure_stays(stmts: Seq<Seq<char>>, cores: u64, k: int)
    requires
        0 <= k <= stmts.len(),
        read_statements(stmts.take(k), cores).failure is Some,
    ensures
        read_statements(stmts, cores) == read_statements(stmts.take(k), cores),
    decreases stmts.len() - k,
{
    if k < stmts.len() {
        assert(stmts.take(k + 1).drop_last() == stmts.take(k));
        lemma_failure_stays(stmts, cores, k + 1);
    } else {
        assert(stmts.take(k) == stmts);
    }
}

/// The number of physical cores (`num_cpus::get_physical`), which its
/// documentation promises is at least one. Beyond that the count depends on
/// the machine, so nothing more is promised of it.
#[verifier::external_body]
fn physical_cores() -> (n: u64)
    ensures
        n >= 1,
{
    num_cpus::get_physical() as u64
}

impl Config {
    /// The statements of the configuration file text `data` (see
    /// `file_statements`).
    pub fn split_statements(data: &str) -> (r: Vec<String>)
        ensures
            string_views(r@) == file_statements(data@),
    {
        let chars = chars_of(data);
        let parts = split_chars(&chars, '\n');
        let n = parts.len();
        let k: usize = if parts[n - 1].len() == 0 { n - 1 } else { n };
        let ghost ls = lines(data@);
        assert(ls.len() == k);
        let mut filtered: Vec<char> = Vec::new();
        let mut i: usize = 0;
        while i < k
            invariant
                n == parts.len(),
                views(parts@) == split(data@, '\n'),
                k <= n,
                ls == lines(data@),
                ls.len() == k,
                i <= k,
                filtered@ == uncommented(ls.take(i as int)),
            decreases k - i,
        {
            assert(parts@[i as int]@ == split(data@, '\n')[i as int]);
            let line = if i < n - 1 {
                strip_cr_chars(&parts[i])
            } else {
                slice_chars(&parts[i], 0, parts[i].len())
            };
            assert(line@ == ls[i as int]) by {
                assert(parts[i as int]@.subrange(0, parts[i as int]@.len() as int)
                    == parts[i as int]@);
            }
            let kept = before_first_chars(&line, '#');
            push_all(&mut filtered, &kept);
            filtered.push('\n');
            i = i + 1;
            assert(ls.take(i as int).drop_last() == ls.take(i - 1));
        }
        assert(ls.take(k as int) == ls);
        let pieces = split_chars(&filtered, ';');
        let ghost ps = split(uncommented(ls), ';');
        let mut out: Vec<String> = Vec::new();
        let mut j: usize = 0;
        while j < pieces.len()
            invariant
                views(pieces@) == ps,
                j <= pieces.len(),
                string_views(out@) == trimmed_nonempty(ps.take(j as int)),
            decreases pieces.len() - j,
        {
            assert(pieces@[j as int]@ == ps[j as int]);
            let t = trim_chars(&pieces[j], CharClass::Whitespace);
            assert(ps.take(j + 1).drop_last() == ps.take(j as int));
            if t.len() > 0 {
                let s = string_of(&t);
                out.push(s);
                assert(string_views(out@) == string_views(out@.drop_last()).push(s@));
            }
            j = j + 1;
        }
        assert(ps.take(pieces.len() as int) == ps);
        out
    }

    /// Reads the statements `data` of a configuration file, then puts the
    /// command line settings `config` over what they set (see
    /// `config_report`). `physical_cores` stands for a core statement that
    /// gives no number.
    pub fn from_statements(config: CliConfig, data: &Vec<String>, physical_cores: u64) -> (r:
        ConfigReport)
        ensures
            r@ == config_report(config, string_views(data@), physical_cores),
    {
        let ghost stmts = string_views(data@);
        let mut notes: Vec<Note<String>> = Vec::new();
        let mut result = Config::default();
        let mut i: usize = 0;
        while i < data.len()
            invariant
                stmts == string_views(data@),
                i <= data.len(),
                read_statements(stmts.take(i as int), physical_cores).failure is None,
                note_views(notes@) == read_statements(stmts.take(i as int), physical_cores).notes,
                result@ == read_statements(stmts.take(i as int), physical_cores).settings,
            decreases data.len() - i,
        {
            let ghost before = read_statements(stmts.take(i as int), physical_cores);
            proof {
                assert(stmts.take(i + 1).drop_last() == stmts.take(i as int));
                assert(stmts.take(i + 1).last() == data@[i as int]@);
            }
            let failed = apply_one(&mut notes, &mut result, data[i].as_str(), physical_cores);
            i = i + 1;
            if let Some(e) = failed {
                proof {
                    lemma_failure_stays(stmts, physical_cores, i as int);
                }
                return ConfigReport { notes, outcome: Err(e) };
            }
        }
        assert(stmts.take(data.len() as int) == stmts);
        if let Some(servers) = config.servers {
            if servers.len() > 0 {
                result.servers = servers;
            }
        }
        if let Some(port) = config.self_port {
            result.self_port = port;
        }
        if let Some(method) = config.method {
            result.method = method;
        }
        if let Some(strategy) = config.strategy {
            result.strategy = strategy;
        }
        if let Some(core) = config.core {
            result.core = core;
        }
        if result.servers.len() == 0 {
            return ConfigReport { notes, outcome: Err(ConfigError::NoServers) };
        }
        ConfigReport { notes, outcome: Ok(result) }
    }

    /// Reads the statements `data` of a configuration file with the command
    /// line settings `config`, where a core statement that gives no number
    /// stands for the machine's physical core count, which is at least one.
    pub fn get(config: CliConfig, data: &Vec<String>) -> (r: ConfigReport)
        ensures
            exists|cores: u64| cores >= 1 && r@ == config_report(config, string_views(data@), cores),
    {
        let cores = physical_cores();
        Self::from_statements(config, data, cores)
    }
}

/// Reads one statement into `notes` and `cfg`; gives the error that stops
/// the reading, if there is one.
fn apply_one(notes: &mut Vec<Note<String>>, cfg: &mut Config, ins: &str, cores: u64) -> (r: Option<
    ConfigError<String>,
>)
    ensures
        ({
            let st = apply_statement(
                FileState { notes: note_views(old(notes)@), failure: None, settings: old(cfg)@ },
                ins@,
                cores,
            );
            &&& note_views(final(notes)@) == st.notes
            &&& match r {
                Some(e) => st.failure == Some(e@),
                None => st.failure is None && final(cfg)@ == st.settings,
            }
        }),
{
    let ghost st0 = FileState { notes: note_views(notes@), failure: None, settings: cfg@ };
    let t = trim_chars(&chars_of(ins), CharClass::Whitespace);
    if t.len() == 0 || t[0] == '#' {
        return None;
    }
    let parts = split_chars(&t, '=');
    if parts.len() != 2 {
        assert(sides(t@).len() == parts.len());
        return Some(ConfigError::NotFormatted(string_of(&t)));
    }
    let key = trim_chars(&parts[0], CharClass::Whitespace);
    let value = trim_chars(&parts[1], CharClass::Whitespace);
    assert(sides(t@)[0] == key@ && sides(t@)[1] == value@) by {
        assert(parts@[0]@ == split(t@, '=')[0]);
        assert(parts@[1]@ == split(t@, '=')[1]);
    }
    let key_text = string_of(&key);
    let value_text = string_of(&value);
    match match_word(key_text.as_str()) {
        Key::Port => {
            notes.push(Note::Port(value_text));
            assert(note_views(notes@) == st0.notes.push(Note::Port(value@)));
            match parse_u16(&value) {
                Ok(p) => {
                    cfg.self_port = p;
                    None
                },
                Err(e) => Some(ConfigError::PortNotNumber(e)),
            }
        },
        Key::Server => {
            if utf8_len_is_two(&value) {
                return Some(ConfigError::ServersMisconfigured);
            }
            let a = trim_chars(&value, CharClass::Whitespace);
            if !(a.len() > 0 && a[0] == '[' && a[a.len() - 1] == ']') {
                return Some(ConfigError::ServersNotBracketed);
            }
            let inner = slice_chars(&a, 1, a.len() - 1);
            let pieces = split_chars(&inner, ',');
            let ghost addrs = address_list(a@);
            let ghost notes0 = note_views(notes@);
            let ghost servers0 = cfg@.servers;
            let mut j: usize = 0;
            while j < pieces.len()
                invariant
                    views(pieces@) == split(a@.subrange(1, a@.len() - 1), ','),
                    addrs == address_list(a@),
                    addrs.len() == pieces.len(),
                    j <= pieces.len(),
                    note_views(notes@) == notes0 + addrs.take(j as int).map_values(
                        |x: Seq<char>| Note::Server(x),
                    ),
                    cfg@ == with_servers(st0.settings, servers0 + addrs.take(j as int)),
                    servers0 == st0.settings.servers,
                decreases pieces.len() - j,
            {
                let p1 = trim_chars(&pieces[j], CharClass::Whitespace);
                let p2 = trim_chars(&p1, CharClass::Exactly('"'));
                let p3 = trim_chars(&p2, CharClass::Exactly('\''));
                assert(p3@ == addrs[j as int]) by {
                    assert(pieces@[j as int]@ == split(a@.subrange(1, a@.len() - 1), ',')[j as int]);
                }
                let s1 = string_of(&p3);
                let s2 = string_of(&p3);
                let ghost old_notes = notes@;
                let ghost old_servers = cfg.servers@;
                notes.push(Note::Server(s1));
                cfg.servers.push(s2);
                proof {
                    assert(note_views(notes@) =~= note_views(old_notes).push(Note::Server(p3@)));
                    assert(string_views(cfg.servers@) =~= string_views(old_servers).push(p3@));
                    let f = |x: Seq<char>| Note::Server(x);
                    assert(addrs.take(j + 1) =~= addrs.take(j as int).push(addrs[j as int]));
                    assert(addrs.take(j + 1).map_values(f) =~= addrs.take(j as int).map_values(
                        f,
                    ).push(Note::Server(p3@)));
                }
                j = j + 1;
                proof {
                    assert(note_views(notes@) =~= notes0 + addrs.take(j as int).map_values(
                        |x: Seq<char>| Note::Server(x),
                    ));
                    assert(string_views(cfg.servers@) =~= servers0 + addrs.take(j as int));
                }
            }
            assert(addrs.take(pieces.len() as int) == addrs);
            None
        },
        Key::Method => {
            let v = string_of(&trim_chars(&value, CharClass::Exactly('"')));
            cfg.method = match match_method(v.as_str()) {
                Some(m) => m,
                None => Method::Normal,
            };
            None
        },
        Key::Strategy => {
            let v = string_of(&trim_chars(&value, CharClass::Exactly('"')));
            cfg.strategy = match match_strategy(v.as_str()) {
                Some(k) => k,
                None => Strategy::RoundRobin,
            };
            None
        },
        Key::Core => {
            match parse_u64(&value) {
                Ok(c) => {
                    cfg.core = c;
                },
                Err(_) => {
                    notes.push(Note::NoCores);
                    assert(note_views(notes@) == st0.notes.push(Note::NoCores));
                    cfg.core = cores;
                },
            }
            None
        },
        Key::Unknown => {
            notes.push(Note::UnknownKey(key_text));
            assert(note_views(notes@) == st0.notes.push(Note::UnknownKey(key@)));
            None
        },
    }
}

} // verus!
