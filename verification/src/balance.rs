//! The decisions of the balancer over one snapshot of the active servers:
//! which indices the active list holds after a server joins or leaves, and
//! which server takes the next connection.
use vstd::prelude::*;

verus! {

/// `s` without any occurrence of `x`, the rest in order.
pub open spec fn without(s: Seq<usize>, x: usize) -> Seq<usize>
    decreases s.len(),
{
    if s.len() == 0 {
        s
    } else if s.last() == x {
        without(s.drop_last(), x)
    } else {
        without(s.drop_last(), x).push(s.last())
    }
}

/// The list after server `idx` joins: `None` where it is already active
/// (nothing changes), else the list with `idx` added at the end.
pub fn with_server(list: &Vec<usize>, idx: usize) -> (r: Option<Vec<usize>>)
    ensures
        list@.contains(idx) ==> r is None,
        !list@.contains(idx) ==> r is Some && r->0@ == list@.push(idx),
{
    let mut i: usize = 0;
    while i < list.len()
        invariant
            i <= list.len(),
            forall|j: int| 0 <= j < i ==> list@[j] != idx,
        decreases list.len() - i,
    {
        if list[i] == idx {
            assert(list@[i as int] == idx);
            return None;
        }
        i = i + 1;
    }
    let mut r = list.clone();
    r.push(idx);
    Some(r)
}

/// The list after server `idx` leaves: every occurrence of it removed, the
/// others kept in order.
pub fn without_server(list: &Vec<usize>, idx: usize) -> (r: Vec<usize>)
    ensures
        r@ == without(list@, idx),
{
    let mut r: Vec<usize> = Vec::new();
    let mut i: usize = 0;
    while i < list.len()
        invariant
            i <= list.len(),
            r@ == without(list@.take(i as int), idx),
        decreases list.len() - i,
    {
        assert(list@.take(i + 1).drop_last() == list@.take(i as int));
        if list[i] != idx {
            r.push(list[i]);
        }
        i = i + 1;
    }
    assert(list@.take(list.len() as int) == list@);
    r
}

/// Whether `idx` is in the list.
pub fn holds_server(list: &Vec<usize>, idx: usize) -> (r: bool)
    ensures
        r == list@.contains(idx),
{
    let mut i: usize = 0;
    while i < list.len()
        invariant
            i <= list.len(),
            forall|j: int| 0 <= j < i ==> list@[j] != idx,
        decreases list.len() - i,
    {
        if list[i] == idx {
            assert(list@[i as int] == idx);
            return true;
        }
        i = i + 1;
    }
    false
}

/// Whether every index in the list names one of `n` servers.
pub fn all_below(active: &Vec<usize>, n: usize) -> (r: bool)
    ensures
        r == (forall|j: int| 0 <= j < active.len() ==> active@[j] < n),
{
    let mut i: usize = 0;
    while i < active.len()
        invariant
            i <= active.len(),
            forall|j: int| 0 <= j < i ==> active@[j] < n,
        decreases active.len() - i,
    {
        if active[i] >= n {
            return false;
        }
        i = i + 1;
    }
    true
}

/// The server that round robin picks for the `counter`-th connection.
pub open spec fn round_robin_pick(list: Seq<usize>, counter: int) -> usize {
    list[counter % (list.len() as int)]
}

/// The server for the connection numbered `counter`: the list is walked in
/// turn. `None` where no server is active.
pub fn round_robin(list: &Vec<usize>, counter: usize) -> (r: Option<usize>)
    ensures
        list.len() == 0 <==> r is None,
        r matches Some(i) ==> i == round_robin_pick(list@, counter as int),
{
    if list.len() == 0 {
        None
    } else {
        Some(list[counter % list.len()])
    }
}

/// The position of the first least value of `loads`.
pub open spec fn first_least(loads: Seq<usize>, k: int) -> bool {
    &&& 0 <= k < loads.len()
    &&& forall|j: int| 0 <= j < loads.len() ==> loads[k] <= #[trigger] loads[j]
    &&& forall|j: int| 0 <= j < k ==> loads[k] < #[trigger] loads[j]
}

/// The active server with the fewest connections, where `loads[i]` is the
/// number of connections of `active[i]`; of several, the first in the list.
/// `None` where no server is active.
pub fn least_loaded(active: &Vec<usize>, loads: &Vec<usize>) -> (r: Option<usize>)
    requires
        active.len() == loads.len(),
    ensures
        active.len() == 0 <==> r is None,
        r matches Some(i) ==> exists|k: int| first_least(loads@, k) && active@[k] == i,
{
    if active.len() == 0 {
        return None;
    }
    let mut best: usize = 0;
    let mut i: usize = 1;
    while i < active.len()
        invariant
            active.len() == loads.len(),
            1 <= i <= loads.len(),
            best < i,
            forall|j: int| 0 <= j < i ==> loads@[best as int] <= #[trigger] loads@[j],
            forall|j: int| 0 <= j < best ==> loads@[best as int] < #[trigger] loads@[j],
        decreases loads.len() - i,
    {
        if loads[i] < loads[best] {
            best = i;
        }
        i = i + 1;
    }
    assert(first_least(loads@, best as int));
    Some(active[best])
}

/// Removing a server leaves none of its occurrences and keeps every other
/// server, in order.
pub proof fn lemma_without_removes(s: Seq<usize>, x: usize)
    ensures
        !without(s, x).contains(x),
        forall|y: usize| y != x ==> (without(s, x).contains(y) <==> s.contains(y)),
        without(s, x).len() <= s.len(),
    decreases s.len(),
{
    if s.len() > 0 {
        let t = s.drop_last();
        let w = without(t, x);
        lemma_without_removes(t, x);
        let last = s[s.len() - 1];
        assert(s.last() == last);
        if last == x {
            assert(without(s, x) == w);
            assert forall|y: usize| y != x implies (without(s, x).contains(y) <==> s.contains(
                y,
            )) by {
                if s.contains(y) {
                    let i = choose|i: int| 0 <= i < s.len() && s[i] == y;
                    assert(t[i] == s[i]);
                    assert(t.contains(y));
                }
                if w.contains(y) {
                    assert(t.contains(y));
                    let i = choose|i: int| 0 <= i < t.len() && t[i] == y;
                    assert(s[i] == t[i]);
                }
            }
        } else {
            assert(without(s, x) == w.push(last));
            let ws = w.push(last);
            assert forall|y: usize| y != x implies (ws.contains(y) <==> s.contains(y)) by {
                if s.contains(y) {
                    let i = choose|i: int| 0 <= i < s.len() && s[i] == y;
                    if i < s.len() - 1 {
                        assert(t[i] == s[i]);
                        assert(t.contains(y));
                        let k = choose|k: int| 0 <= k < w.len() && w[k] == y;
                        assert(ws[k] == y);
                    } else {
                        assert(ws[w.len() as int] == y);
                    }
                }
                if ws.contains(y) {
                    let k = choose|k: int| 0 <= k < ws.len() && ws[k] == y;
                    if k == w.len() {
                        assert(s[s.len() - 1] == y);
                    } else {
                        assert(w[k] == y);
                        assert(w.contains(y));
                        assert(t.contains(y));
                        let i = choose|i: int| 0 <= i < t.len() && t[i] == y;
                        assert(s[i] == t[i]);
                    }
                }
            }
            if ws.contains(x) {
                let k = choose|k: int| 0 <= k < ws.len() && ws[k] == x;
                assert(k != w.len());
                assert(w[k] == x);
            }
        }
    }
}

/// A list without `x` is left unchanged by removing `x`.
pub proof fn lemma_without_absent(s: Seq<usize>, x: usize)
    requires
        !s.contains(x),
    ensures
        without(s, x) == s,
    decreases s.len(),
{
    if s.len() > 0 {
        let t = s.drop_last();
        if t.contains(x) {
            let i = choose|i: int| 0 <= i < t.len() && t[i] == x;
            assert(s[i] == x);
        }
        lemma_without_absent(t, x);
        assert(s.last() == s[s.len() - 1]);
        assert(t.push(s.last()) == s);
    }
}

/// Removing a server that was just added to a list without it gives the
/// list back.
pub proof fn lemma_remove_undoes_add(s: Seq<usize>, x: usize)
    requires
        !s.contains(x),
    ensures
        without(s.push(x), x) == s,
{
    assert(s.push(x).drop_last() == s);
    lemma_without_absent(s, x);
}

/// After a server is added it is active (so `with_server` leaves the list
/// unchanged when it is added again).
pub proof fn lemma_added_is_active(s: Seq<usize>, x: usize)
    ensures
        s.push(x).contains(x),
{
    assert(s.push(x)[s.len() as int] == x);
}

/// The position of the list that the `j`-th connection after connection `c`
/// takes, where the list has `n` entries.
pub open spec fn rr_position(n: int, c: int, j: int) -> int {
    (c + j) % n
}

/// Which of the `n` connections after connection `c` takes position `k`.
pub open spec fn rr_turn_of(n: int, c: int, k: int) -> int {
    (k - c % n + n) % n
}

proof fn lemma_turn_of(n: int, c: int, k: int)
    requires
        n > 0,
        c >= 0,
        0 <= k < n,
    ensures
        0 <= rr_turn_of(n, c, k) < n,
        rr_position(n, c, rr_turn_of(n, c, k)) == k,
{
    let j = rr_turn_of(n, c, k);
    assert(0 <= j < n && (c + j) % n == k) by (nonlinear_arith)
        requires
            n > 0,
            c >= 0,
            0 <= k < n,
            j == (k - c % n + n) % n,
    ;
}

/// Round robin repeats with the length of the list, and any run of as many
/// connections as there are active servers visits every one of them: the
/// entry at position `k` is picked by connection `c + rr_turn_of(n, c, k)`.
pub proof fn lemma_round_robin_fair(s: Seq<usize>, c: int)
    requires
        s.len() > 0,
        c >= 0,
    ensures
        round_robin_pick(s, c + s.len()) == round_robin_pick(s, c),
        forall|k: int|
            0 <= k < s.len() ==> 0 <= #[trigger] rr_turn_of(s.len() as int, c, k) < s.len()
                && round_robin_pick(s, c + rr_turn_of(s.len() as int, c, k)) == s[k],
{
    let n = s.len() as int;
    assert((c + n) % n == c % n) by (nonlinear_arith)
        requires
            n > 0,
            c >= 0,
    ;
    assert forall|k: int| 0 <= k < n implies 0 <= #[trigger] rr_turn_of(n, c, k) < n
        && round_robin_pick(s, c + rr_turn_of(n, c, k)) == s[k] by {
        lemma_turn_of(n, c, k);
    }
}

/// Any run of as many consecutive connections as there are active servers
/// takes each position of the list exactly once: the picks are a permutation
/// of the list.
pub proof fn lemma_round_robin_permutation(s: Seq<usize>, c: int)
    requires
        s.len() > 0,
        c >= 0,
    ensures
        forall|j: int|
            0 <= j < s.len() ==> 0 <= #[trigger] rr_position(s.len() as int, c, j) < s.len()
                && round_robin_pick(s, c + j) == s[rr_position(s.len() as int, c, j)],
        forall|j1: int, j2: int|
            0 <= j1 < s.len() && 0 <= j2 < s.len() && j1 != j2 ==> #[trigger] rr_position(
                s.len() as int,
                c,
                j1,
            ) != #[trigger] rr_position(s.len() as int, c, j2),
        forall|k: int|
            0 <= k < s.len() ==> 0 <= #[trigger] rr_turn_of(s.len() as int, c, k) < s.len()
                && rr_position(s.len() as int, c, rr_turn_of(s.len() as int, c, k)) == k,
{
    let n = s.len() as int;
    assert forall|j: int| 0 <= j < n implies 0 <= #[trigger] rr_position(n, c, j) < n by {
        assert(0 <= (c + j) % n < n) by (nonlinear_arith)
            requires
                n > 0,
        ;
    }
    assert forall|j1: int, j2: int|
        0 <= j1 < n && 0 <= j2 < n && j1 != j2 implies #[trigger] rr_position(n, c, j1)
        != #[trigger] rr_position(n, c, j2) by {
        assert((c + j1) % n != (c + j2) % n) by (nonlinear_arith)
            requires
                n > 0,
                c >= 0,
                0 <= j1 < n,
                0 <= j2 < n,
                j1 != j2,
        ;
    }
    assert forall|k: int| 0 <= k < n implies 0 <= #[trigger] rr_turn_of(n, c, k) < n
        && rr_position(n, c, rr_turn_of(n, c, k)) == k by {
        lemma_turn_of(n, c, k);
    }
}

/// Least connections has one answer: only one position of the loads is the
/// first least.
pub proof fn lemma_first_least_unique(loads: Seq<usize>, k1: int, k2: int)
    requires
        first_least(loads, k1),
        first_least(loads, k2),
    ensures
        k1 == k2,
{
    if k1 < k2 {
        assert(loads[k2] < loads[k1]);
    } else if k2 < k1 {
        assert(loads[k1] < loads[k2]);
    }
}

} // verus!
