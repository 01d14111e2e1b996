use vstd::prelude::*;
use vstd::string::StringExecFns;

use std::sync::atomic::{AtomicUsize, Ordering};
use std::sync::Arc;

use arc_swap::ArcSwap;

use crate::balance::{all_below, holds_server, least_loaded, round_robin, with_server, without_server};

pub mod balance;
pub mod config;
pub mod health;
pub mod logs;
pub mod number;
pub mod proxy;
pub mod text;

verus! {

/// The port the balancer listens on where none is configured.
pub const DEFAULT_PORT: u16 = 8080;

/// The indices of the servers that take connections, published through an
/// `ArcSwap` so that readers never wait for a writer.
#[verifier::external_body]
pub struct ActiveList {
    list: ArcSwap<Vec<usize>>,
}

/// The list that an active list was made with. Later stores by other threads
/// do not change it: it records where the list started.
pub uninterp spec fn made_with(a: ActiveList) -> Seq<usize>;

/// The indices `0..n` in order.
pub open spec fn every_index(n: nat) -> Seq<usize> {
    Seq::new(n, |i: int| i as usize)
}

impl ActiveList {
    /// A list holding `list` (`ArcSwap::new`); it is made with `list`.
    #[verifier::external_body]
    pub(crate) fn new(list: Vec<usize>) -> (r: ActiveList)
        ensures
            made_with(r) == list@,
    {
        ActiveList { list: ArcSwap::new(Arc::new(list)) }
    }

    /// A copy of the list held now (`ArcSwap::load`). Other threads store into
    /// it at any time, so nothing is promised of what comes back.
    #[verifier::external_body]
    pub(crate) fn load(&self) -> (r: Vec<usize>) {
        self.list.load().to_vec()
    }

    /// Makes `list` the one held (`ArcSwap::store`).
    #[verifier::external_body]
    pub(crate) fn store(&self, list: Vec<usize>) {
        self.list.store(Arc::new(list))
    }
}

/// A server that connections are balanced over.
pub struct Server<A> {
    pub addr: A,
    /// The number of connections open to it.
    pub ttlcn: AtomicUsize,
}

impl<A> Server<A> {
    /// A server at `addr` with no connection counted.
    pub fn new(addr: A) -> (s: Server<A>)
        ensures
            s.addr == addr,
    {
        Server { addr, ttlcn: AtomicUsize::new(0) }
    }
}

/// The servers, which of them take connections, and the server that the
/// least-connections strategy chose last.
pub struct Backend<A> {
    pub servers: Vec<Server<A>>,
    pub active_idxs: ActiveList,
    pub idx: AtomicUsize,
}

/// The indices `0..n` in order.
fn all_indices(n: usize) -> (r: Vec<usize>)
    ensures
        r@ == every_index(n as nat),
{
    let mut r: Vec<usize> = Vec::new();
    let mut i: usize = 0;
    while i < n
        invariant
            i <= n,
            r@.len() == i,
            forall|j: int| 0 <= j < i ==> r@[j] == j,
        decreases n - i,
    {
        r.push(i);
        i = i + 1;
    }
    assert(r@ =~= every_index(n as nat));
    r
}

impl<A> Backend<A> {
    /// A backend over a server at each address, in order, all of them
    /// active.
    pub fn from_addrs(servers: Vec<A>) -> (b: Backend<A>)
        ensures
            b.servers.len() == servers.len(),
            forall|i: int| 0 <= i < servers.len() ==> b.servers@[i].addr == servers@[i],
            made_with(b.active_idxs) == every_index(servers.len() as nat),
    {
        let active = all_indices(servers.len());
        let ghost addrs = servers@;
        let mut res: Vec<Server<A>> = Vec::new();
        for addr in it: servers.into_iter()
            invariant
                it.seq() == addrs,
                res.len() == it.index(),
                forall|i: int| 0 <= i < res.len() ==> res@[i].addr == addrs[i],
        {
            res.push(Server::new(addr));
        }
        Backend { servers: res, active_idxs: ActiveList::new(active), idx: AtomicUsize::new(0) }
    }

    /// A backend over the given servers, all of them active.
    pub fn from_servers(servers: Vec<Server<A>>) -> (b: Backend<A>)
        ensures
            b.servers@ == servers@,
            made_with(b.active_idxs) == every_index(servers.len() as nat),
    {
        let active = all_indices(servers.len());
        Backend { active_idxs: ActiveList::new(active), servers, idx: AtomicUsize::new(0) }
    }

    /// Makes server `idx` active, unless it already is.
    pub fn add_server(&self, idx: usize) {
        let list = self.active_idxs.load();
        if let Some(new_list) = with_server(&list, idx) {
            self.active_idxs.store(new_list);
        }
    }

    /// Makes server `idx` inactive.
    pub fn rem_server(&self, idx: usize) {
        let list = self.active_idxs.load();
        self.active_idxs.store(without_server(&list, idx));
    }

    /// The active server with the fewest open connections, the first of
    /// several; `None` where no server is active or the active list names
    /// an index that is no server's.
    ///
    /// The active list and the connection counts are read from state that
    /// other threads change at any time, so the choice is stated over what
    /// was read, not here: `all_below` decides the refusal of a list that
    /// names no server, and `least_loaded` the choice.
    pub fn select_least_conn_server(&self) -> (r: Option<usize>)
        ensures
            r matches Some(i) ==> i < self.servers.len(),
    {
        let active = self.active_idxs.load();
        if !all_below(&active, self.servers.len()) {
            return None;
        }
        let mut loads: Vec<usize> = Vec::new();
        let mut i: usize = 0;
        while i < active.len()
            invariant
                i <= active.len(),
                loads.len() == i,
                forall|j: int| 0 <= j < active.len() ==> active@[j] < self.servers.len(),
            decreases active.len() - i,
        {
            let s = active[i];
            loads.push(self.servers[s].ttlcn.load(Ordering::Relaxed));
            i = i + 1;
        }
        least_loaded(&active, &loads)
    }

    /// The server for the next connection in round robin, counting
    /// connections in `idx`; `None` where no server is active.
    ///
    /// The active list and the counter are shared with other threads, so the
    /// pick is stated by `round_robin` over what was read, not here.
    pub fn next(&self, idx: &AtomicUsize) -> (r: Option<usize>) {
        let list = self.active_idxs.load();
        let counter = idx.fetch_add(1, Ordering::Relaxed);
        round_robin(&list, counter)
    }

    /// Whether server `idx` is active.
    ///
    /// The active list is shared with other threads, so the answer is stated
    /// by `holds_server` over what was read, not here.
    pub fn contains(&self, idx: &usize) -> (r: bool) {
        let list = self.active_idxs.load();
        holds_server(&list, *idx)
    }
}

/// What went wrong in running the balancer.
#[derive(Debug, PartialEq)]
pub enum ThanosError {
    ConnectionRefused,
    Other(String),
}

/// The `Debug` form of a string (`<str as Debug>::fmt`): in double quotes,
/// with quotes, backslashes and unprintable characters escaped.
pub uninterp spec fn debug_quoted(s: Seq<char>) -> Seq<char>;

/// Formats `s` with `{:?}`.
#[verifier::external_body]
fn debug_quote(s: &str) -> (r: String)
    ensures
        r@ == debug_quoted(s@),
{
    format!("{:?}", s)
}

/// The text of an error given the quoted form of its message.
pub open spec fn error_text(e: ThanosError, quoted: Seq<char>) -> Seq<char> {
    match e {
        ThanosError::ConnectionRefused => "ConnectionRefused"@,
        ThanosError::Other(_) => "Other(\n    "@ + quoted + ",\n)"@,
    }
}

impl ThanosError {
    /// The text of the error, laid out as `{:#?}` lays it out, where `quoted`
    /// is the quoted form of the message of an `Other`.
    pub fn text_with_quoted(&self, quoted: &str) -> (r: String)
        ensures
            r@ == error_text(*self, quoted@),
    {
        match self {
            ThanosError::ConnectionRefused => "ConnectionRefused".to_owned(),
            ThanosError::Other(_) => {
                let mut t = "Other(\n    ".to_owned();
                t.append(quoted);
                t.append(",\n)");
                t
            },
        }
    }

    /// The text of the error, laid out as `{:#?}` lays it out.
    pub fn to_text(&self) -> (r: String)
        ensures
            r@ == match self {
                ThanosError::ConnectionRefused => error_text(*self, Seq::empty()),
                ThanosError::Other(m) => error_text(*self, debug_quoted(m@)),
            },
    {
        match self {
            ThanosError::ConnectionRefused => self.text_with_quoted(""),
            ThanosError::Other(m) => {
                let quoted = debug_quote(m.as_str());
                self.text_with_quoted(quoted.as_str())
            },
        }
    }

    /// The error for any other failure, kept as its message.
    pub fn from_message(message: String) -> (e: ThanosError)
        ensures
            e == ThanosError::Other(message),
    {
        ThanosError::Other(message)
    }

    /// The error for an I/O error: a refused connection is told apart,
    /// any other kind is kept as its description.
    pub fn from_io_kind(connection_refused: bool, kind: String) -> (e: ThanosError)
        ensures
            connection_refused ==> e == ThanosError::ConnectionRefused,
            !connection_refused ==> e == ThanosError::Other(kind),
    {
        if connection_refused {
            ThanosError::ConnectionRefused
        } else {
            ThanosError::Other(kind)
        }
    }
}

} // verus!
