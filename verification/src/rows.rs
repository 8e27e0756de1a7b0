//! The rows of the window: which sessions are listed, and in what order.

use vstd::prelude::*;

use crate::state::SessionInfo;
#[allow(unused_imports)]
use crate::state::SessionView;
use crate::text::text_precedes;
#[allow(unused_imports)]
use crate::text::{
    law_text_order, lemma_text_lt_irreflexive, lemma_text_lt_total, lemma_text_lt_transitive,
    text_lt,
};

verus! {

/// Sessions listed before the list is truncated. The window draws as many of them as there is
/// room for, so that it never grows taller than the screen (`app::drawn_rows`).
pub const MAX_ROWS: usize = 8;

// ---- the order of the rows ----

/// `a` is listed above `b`: by directory, then by id.
pub open spec fn row_lt(a: SessionView, b: SessionView) -> bool {
    text_lt(a.cwd, b.cwd) || (a.cwd == b.cwd && text_lt(a.session_id, b.session_id))
}

/// The session at `i` is listed above the one at `j`: by directory, then by id, then as they
/// came.
pub open spec fn listed_before(s: Seq<SessionView>, i: int, j: int) -> bool {
    row_lt(s[i], s[j]) || (s[i].cwd == s[j].cwd && s[i].session_id == s[j].session_id && i < j)
}

/// `order` names the sessions from the top of the list to its bottom.
pub open spec fn row_order(s: Seq<SessionView>, order: Seq<int>) -> bool {
    &&& order.len() == s.len()
    &&& forall|k: int| 0 <= k < order.len() ==> 0 <= #[trigger] order[k] < s.len()
    &&& forall|a: int, b: int|
        0 <= a < b < order.len() ==> listed_before(s, #[trigger] order[a], #[trigger] order[b])
}

/// The sessions in the order of the list, up to `MAX_ROWS` of them. There is exactly one
/// order (`law_row_order_exists`, `law_row_order_is_unique`).
pub open spec fn ordered_rows(s: Seq<SessionView>) -> Seq<SessionView> {
    rows_in(s, choose|order: Seq<int>| row_order(s, order))
}

/// The first rows of `s` in the order `order`.
pub open spec fn rows_in(s: Seq<SessionView>, order: Seq<int>) -> Seq<SessionView> {
    Seq::new(
        if s.len() < MAX_ROWS {
            s.len()
        } else {
            MAX_ROWS as nat
        },
        |k: int| s[order[k]],
    )
}

proof fn lemma_listed_before_transitive(s: Seq<SessionView>, i: int, j: int, k: int)
    requires
        listed_before(s, i, j),
        listed_before(s, j, k),
    ensures
        listed_before(s, i, k),
{
    if text_lt(s[i].cwd, s[j].cwd) && text_lt(s[j].cwd, s[k].cwd) {
        lemma_text_lt_transitive(s[i].cwd, s[j].cwd, s[k].cwd);
    }
    if text_lt(s[i].session_id, s[j].session_id) && text_lt(s[j].session_id, s[k].session_id) {
        lemma_text_lt_transitive(s[i].session_id, s[j].session_id, s[k].session_id);
    }
}

proof fn lemma_listed_before_irreflexive(s: Seq<SessionView>, i: int)
    ensures
        !listed_before(s, i, i),
{
    lemma_text_lt_irreflexive(s[i].cwd);
    lemma_text_lt_irreflexive(s[i].session_id);
}

proof fn lemma_listed_before_total(s: Seq<SessionView>, i: int, j: int)
    requires
        i < j,
        !row_lt(s[j], s[i]),
    ensures
        listed_before(s, i, j),
{
    lemma_text_lt_total(s[i].cwd, s[j].cwd);
    lemma_text_lt_total(s[i].session_id, s[j].session_id);
}

proof fn lemma_order_hits_every_row(s: Seq<SessionView>, order: Seq<int>, i: int)
    requires
        row_order(s, order),
        0 <= i < s.len(),
    ensures
        order.contains(i),
{
    assert(order.no_duplicates()) by {
        assert forall|a: int, b: int|
            0 <= a < order.len() && 0 <= b < order.len() && a != b implies order[a]
            != order[b] by {
            lemma_listed_before_irreflexive(s, order[a]);
            if a < b {
                assert(listed_before(s, order[a], order[b]));
            } else {
                assert(listed_before(s, order[b], order[a]));
            }
        }
    }
    order.unique_seq_to_set();
    let all = vstd::set_lib::set_int_range(0, s.len() as int);
    vstd::set_lib::lemma_int_range(0, s.len() as int);
    assert(order.to_set().subset_of(all)) by {
        assert forall|x: int| order.to_set().contains(x) implies all.contains(x) by {
            let k = choose|k: int| 0 <= k < order.len() && order[k] == x;
            assert(0 <= order[k] < s.len());
        }
    }
    vstd::set_lib::lemma_subset_equality(order.to_set(), all);
    assert(order.to_set().contains(i));
}

/// There is no more than one order of the rows: where two sessions are listed does not
/// depend on anything but their directories, their ids and which came first.
pub proof fn law_row_order_is_unique(s: Seq<SessionView>, o1: Seq<int>, o2: Seq<int>)
    requires
        row_order(s, o1),
        row_order(s, o2),
    ensures
        o1 == o2,
{
    lemma_orders_agree(s, o1, o2, s.len() as int);
    assert(o1 =~= o2);
}

proof fn lemma_orders_agree(s: Seq<SessionView>, o1: Seq<int>, o2: Seq<int>, n: int)
    requires
        row_order(s, o1),
        row_order(s, o2),
        0 <= n <= s.len(),
    ensures
        forall|k: int| 0 <= k < n ==> o1[k] == o2[k],
    decreases n,
{
    if n > 0 {
        lemma_orders_agree(s, o1, o2, n - 1);
        let k = n - 1;
        let x = o1[k];
        let y = o2[k];
        if x != y {
            lemma_order_hits_every_row(s, o2, x);
            lemma_order_hits_every_row(s, o1, y);
            let m = choose|m: int| 0 <= m < o2.len() && o2[m] == x;
            let l = choose|l: int| 0 <= l < o1.len() && o1[l] == y;
            lemma_listed_before_irreflexive(s, x);
            lemma_listed_before_irreflexive(s, y);
            if m < k {
                assert(o1[m] == x);
                assert(listed_before(s, o1[m], o1[k]));
            } else if l < k {
                assert(o2[l] == y);
                assert(listed_before(s, o2[l], o2[k]));
            } else {
                assert(listed_before(s, o2[k], o2[m]));
                assert(listed_before(s, o1[k], o1[l]));
                lemma_listed_before_transitive(s, x, y, x);
            }
        }
    }
}

fn row_precedes(a: &SessionInfo, b: &SessionInfo) -> (r: bool)
    ensures
        r == row_lt(a@, b@),
{
    text_precedes(a.cwd.as_str(), b.cwd.as_str()) || (a.cwd == b.cwd && text_precedes(
        a.session_id.as_str(),
        b.session_id.as_str(),
    ))
}

/// `order` as mathematical integers.
spec fn as_ints(order: Seq<usize>) -> Seq<int> {
    Seq::new(order.len(), |k: int| order[k] as int)
}

/// The indices below `n`, sorted as `row_order` wants them.
spec fn sorted_prefix(s: Seq<SessionView>, order: Seq<usize>, n: int) -> bool {
    &&& order.len() == n
    &&& forall|k: int| 0 <= k < n ==> (#[trigger] order[k]) < n
    &&& forall|a: int, b: int|
        0 <= a < b < n ==> listed_before(
            s,
            (#[trigger] order[a]) as int,
            (#[trigger] order[b]) as int,
        )
}

/// The place at which the row `i` goes into the rows above it.
fn place_of(sessions: &[SessionInfo], order: &Vec<usize>, i: usize) -> (p: usize)
    requires
        i < sessions.len(),
        sorted_prefix(sessions.deep_view(), order@, i as int),
    ensures
        p <= i,
        forall|q: int|
            0 <= q < p ==> listed_before(
                sessions.deep_view(),
                (#[trigger] order@[q]) as int,
                i as int,
            ),
        forall|q: int|
            p <= q < i ==> listed_before(
                sessions.deep_view(),
                i as int,
                (#[trigger] order@[q]) as int,
            ),
{
    let ghost s = sessions.deep_view();
    let mut p: usize = i;
    while p > 0 && row_precedes(&sessions[i], &sessions[order[p - 1]])
        invariant
            p <= i < sessions.len(),
            s == sessions.deep_view(),
            sorted_prefix(s, order@, i as int),
            forall|q: int|
                p <= q < i ==> listed_before(s, i as int, (#[trigger] order@[q]) as int),
        decreases p,
    {
        p -= 1;
    }
    proof {
        if p > 0 {
            let above = order@[p - 1] as int;
            lemma_listed_before_total(s, above, i as int);
            assert forall|q: int| 0 <= q < p implies listed_before(
                s,
                (#[trigger] order@[q]) as int,
                i as int,
            ) by {
                if q < p - 1 {
                    lemma_listed_before_transitive(s, order@[q] as int, above, i as int);
                }
            }
        }
    }
    p
}

/// The indices of the sessions in the order of the list.
fn sorted_indices(sessions: &[SessionInfo]) -> (order: Vec<usize>)
    ensures
        row_order(sessions.deep_view(), as_ints(order@)),
{
    let ghost s = sessions.deep_view();
    let mut order: Vec<usize> = Vec::new();
    let mut i: usize = 0;
    while i < sessions.len()
        invariant
            i <= sessions.len(),
            s == sessions.deep_view(),
            sorted_prefix(s, order@, i as int),
        decreases sessions.len() - i,
    {
        let p: usize = place_of(sessions, &order, i);
        let ghost before = order@;
        order.insert(p, i);
        proof {
            assert forall|a: int, b: int| 0 <= a < b < i + 1 implies listed_before(
                s,
                (#[trigger] order@[a]) as int,
                (#[trigger] order@[b]) as int,
            ) by {
                let a0 = if a < p {
                    a
                } else {
                    a - 1
                };
                let b0 = if b < p {
                    b
                } else {
                    b - 1
                };
                if a == p {
                    assert(order@[b] == before[b0]);
                } else if b == p {
                    assert(order@[a] == before[a0]);
                } else {
                    assert(order@[a] == before[a0] && order@[b] == before[b0]);
                }
            }
        }
        i += 1;
    }
    order
}

/// Sessions in a stable order (by directory, then id), truncated to `MAX_ROWS`. The order
/// keeps rows from jumping as sessions go busy or idle.
pub fn ordered_sessions(sessions: &[SessionInfo]) -> (r: Vec<SessionInfo>)
    ensures
        r.deep_view() == ordered_rows(sessions.deep_view()),
        r.len() <= MAX_ROWS,
        r.len() == (if sessions.len() < 8 {
            sessions.len()
        } else {
            8
        }),
        forall|a: int, b: int|
            0 <= a < b < r.len() && (#[trigger] r@[a]).cwd@ != (#[trigger] r@[b]).cwd@ ==> {
                let (x, y) = (r@[a].cwd@, r@[b].cwd@);
                exists|k: int|
                    #![trigger x.take(k), y.take(k)]
                    0 <= k <= x.len() && k < y.len() && x.take(k) == y.take(k) && (k == x.len()
                        || (x[k] as u32) < (y[k] as u32))
            },
        forall|a: int, b: int|
            0 <= a < b < r.len() && (#[trigger] r@[a]).cwd@ == (#[trigger] r@[b]).cwd@
                && r@[a].session_id@ != r@[b].session_id@ ==> {
                let (x, y) = (r@[a].session_id@, r@[b].session_id@);
                exists|k: int|
                    #![trigger x.take(k), y.take(k)]
                    0 <= k <= x.len() && k < y.len() && x.take(k) == y.take(k) && (k == x.len()
                        || (x[k] as u32) < (y[k] as u32))
            },
{
    let order = sorted_indices(sessions);
    let ghost s = sessions.deep_view();
    let ghost ints = as_ints(order@);
    let n: usize = if order.len() < MAX_ROWS {
        order.len()
    } else {
        MAX_ROWS
    };
    let mut out: Vec<SessionInfo> = Vec::new();
    let mut k: usize = 0;
    while k < n
        invariant
            k <= n <= order.len(),
            n <= MAX_ROWS,
            n == rows_in(s, ints).len(),
            s == sessions.deep_view(),
            row_order(s, ints),
            ints == as_ints(order@),
            out.deep_view() == rows_in(s, ints).take(k as int),
        decreases n - k,
    {
        assert(ints[k as int] == order@[k as int]);
        let ghost above = out.deep_view();
        out.push(sessions[order[k]].clone());
        assert(out.deep_view() =~= above.push(s[ints[k as int]]));
        assert(rows_in(s, ints).take(k + 1) =~= rows_in(s, ints).take(k as int).push(
            s[ints[k as int]],
        ));
        k += 1;
    }
    proof {
        law_row_order_is_unique(s, ints, choose|o: Seq<int>| row_order(s, o));
        assert(rows_in(s, ints).take(n as int) =~= rows_in(s, ints));
        assert forall|a: int, b: int|
            0 <= a < b < out.len() && (#[trigger] out@[a]).cwd@ != (
            #[trigger] out@[b]).cwd@ implies ({
            let (x, y) = (out@[a].cwd@, out@[b].cwd@);
            exists|k: int|
                #![trigger x.take(k), y.take(k)]
                0 <= k <= x.len() && k < y.len() && x.take(k) == y.take(k) && (k == x.len() || (
                x[k] as u32) < (y[k] as u32))
        }) by {
            law_rows_ascend(s, a, b);
            assert(out.deep_view()[a] == out@[a]@ && out.deep_view()[b] == out@[b]@);
        }
        assert forall|a: int, b: int|
            0 <= a < b < out.len() && (#[trigger] out@[a]).cwd@ == (#[trigger] out@[b]).cwd@
                && out@[a].session_id@ != out@[b].session_id@ implies ({
            let (x, y) = (out@[a].session_id@, out@[b].session_id@);
            exists|k: int|
                #![trigger x.take(k), y.take(k)]
                0 <= k <= x.len() && k < y.len() && x.take(k) == y.take(k) && (k == x.len() || (
                x[k] as u32) < (y[k] as u32))
        }) by {
            law_rows_ascend(s, a, b);
            assert(out.deep_view()[a] == out@[a]@ && out.deep_view()[b] == out@[b]@);
        }
    }
    out
}

/// There is an order of the rows, whatever the sessions.
pub proof fn law_row_order_exists(s: Seq<SessionView>)
    ensures
        exists|order: Seq<int>| row_order(s, order),
        row_order(s, choose|order: Seq<int>| row_order(s, order)),
{
    let order = lemma_some_order(s);
    assert(row_order(s, order));
}

proof fn lemma_some_order(s: Seq<SessionView>) -> (order: Seq<int>)
    ensures
        row_order(s, order),
    decreases s.len(),
{
    if s.len() == 0 {
        Seq::empty()
    } else {
        let top = s.drop_last();
        let o = lemma_some_order(top);
        let i = s.len() - 1;
        assert forall|a: int, b: int| 0 <= a < b < o.len() implies listed_before(
            s,
            #[trigger] o[a],
            #[trigger] o[b],
        ) by {
            assert(listed_before(top, o[a], o[b]));
            assert(top[o[a]] == s[o[a]] && top[o[b]] == s[o[b]]);
        }
        let p = lemma_place(s, o, o.len() as int);
        let r = o.insert(p, i);
        assert forall|k: int| 0 <= k < r.len() implies 0 <= #[trigger] r[k] < s.len() by {
            if k < p {
                assert(r[k] == o[k]);
            } else if k > p {
                assert(r[k] == o[k - 1]);
            }
        }
        assert forall|a: int, b: int| 0 <= a < b < r.len() implies listed_before(
            s,
            #[trigger] r[a],
            #[trigger] r[b],
        ) by {
            if a < p && b < p {
                assert(r[a] == o[a] && r[b] == o[b]);
            } else if a < p && b == p {
                assert(r[a] == o[a]);
            } else if a < p {
                assert(r[a] == o[a] && r[b] == o[b - 1]);
            } else if a == p {
                assert(r[b] == o[b - 1]);
            } else {
                assert(r[a] == o[a - 1] && r[b] == o[b - 1]);
            }
        }
        r
    }
}

proof fn lemma_place(s: Seq<SessionView>, o: Seq<int>, from: int) -> (p: int)
    requires
        s.len() > 0,
        o.len() == s.len() - 1,
        0 <= from <= o.len(),
        forall|k: int| 0 <= k < o.len() ==> 0 <= #[trigger] o[k] < s.len() - 1,
        forall|a: int, b: int|
            0 <= a < b < o.len() ==> listed_before(s, #[trigger] o[a], #[trigger] o[b]),
        forall|q: int| from <= q < o.len() ==> listed_before(s, s.len() - 1, #[trigger] o[q]),
    ensures
        0 <= p <= from,
        forall|q: int| 0 <= q < p ==> listed_before(s, #[trigger] o[q], s.len() - 1),
        forall|q: int| p <= q < o.len() ==> listed_before(s, s.len() - 1, #[trigger] o[q]),
    decreases from,
{
    let i = s.len() - 1;
    if from == 0 {
        0
    } else if row_lt(s[i], s[o[from - 1]]) {
        lemma_place(s, o, from - 1)
    } else {
        lemma_listed_before_total(s, o[from - 1], i);
        assert forall|q: int| 0 <= q < from implies listed_before(s, #[trigger] o[q], i) by {
            if q < from - 1 {
                lemma_listed_before_transitive(s, o[q], o[from - 1], i);
            }
        }
        from
    }
}

/// From the top of the list to its bottom, directories ascend, and ids within a directory.
pub proof fn law_rows_are_sorted(s: Seq<SessionView>, a: int, b: int)
    requires
        0 <= a < b < ordered_rows(s).len(),
    ensures
        ({
            let (x, y) = (ordered_rows(s)[a], ordered_rows(s)[b]);
            row_lt(x, y) || (x.cwd == y.cwd && x.session_id == y.session_id)
        }),
{
    law_row_order_exists(s);
    let order = choose|order: Seq<int>| row_order(s, order);
    assert(listed_before(s, order[a], order[b]));
}

/// Every row is one of the sessions, and no session is listed twice; where there are no more
/// than `MAX_ROWS` sessions, each is listed.
pub proof fn law_rows_are_the_sessions(s: Seq<SessionView>) -> (order: Seq<int>)
    ensures
        order.no_duplicates(),
        forall|k: int| 0 <= k < order.len() ==> 0 <= #[trigger] order[k] < s.len(),
        forall|i: int| 0 <= i < s.len() ==> order.contains(i),
        ordered_rows(s) == rows_in(s, order),
{
    law_row_order_exists(s);
    let order = choose|order: Seq<int>| row_order(s, order);
    assert forall|i: int| 0 <= i < s.len() implies order.contains(i) by {
        lemma_order_hits_every_row(s, order, i);
    }
    assert forall|a: int, b: int|
        0 <= a < order.len() && 0 <= b < order.len() && a != b implies order[a] != order[b] by {
        lemma_listed_before_irreflexive(s, order[a]);
        if a < b {
            assert(listed_before(s, order[a], order[b]));
        } else {
            assert(listed_before(s, order[b], order[a]));
        }
    }
    order
}

/// Rows do not jump as sessions go busy or idle: where only statuses, agents and the like
/// change, the same sessions stay in the same rows.
pub proof fn law_rows_do_not_jump(s: Seq<SessionView>, t: Seq<SessionView>, k: int)
    requires
        s.len() == t.len(),
        forall|i: int|
            0 <= i < s.len() ==> (#[trigger] s[i]).cwd == t[i].cwd && s[i].session_id
                == t[i].session_id,
        0 <= k < ordered_rows(s).len(),
    ensures
        ordered_rows(s).len() == ordered_rows(t).len(),
        exists|i: int|
            0 <= i < s.len() && ordered_rows(s)[k] == #[trigger] s[i] && ordered_rows(t)[k]
                == t[i],
        ordered_rows(s)[k].cwd == ordered_rows(t)[k].cwd,
        ordered_rows(s)[k].session_id == ordered_rows(t)[k].session_id,
{
    law_row_order_exists(s);
    law_row_order_exists(t);
    let o = choose|o: Seq<int>| row_order(s, o);
    let o2 = choose|o: Seq<int>| row_order(t, o);
    assert(row_order(t, o)) by {
        assert forall|a: int, b: int| 0 <= a < b < o.len() implies listed_before(
            t,
            #[trigger] o[a],
            #[trigger] o[b],
        ) by {
            assert(listed_before(s, o[a], o[b]));
            assert(s[o[a]].cwd == t[o[a]].cwd && s[o[b]].cwd == t[o[b]].cwd);
        }
    }
    law_row_order_is_unique(t, o, o2);
    assert(ordered_rows(s)[k] == s[o[k]]);
    assert(ordered_rows(t)[k] == t[o[k]]);
}

/// Ordering a list that is in order already changes nothing.
pub proof fn law_ordering_is_idempotent(s: Seq<SessionView>)
    ensures
        ordered_rows(ordered_rows(s)) == ordered_rows(s),
{
    let r = ordered_rows(s);
    let id = Seq::new(r.len(), |k: int| k);
    assert(row_order(r, id)) by {
        assert forall|a: int, b: int| 0 <= a < b < id.len() implies listed_before(
            r,
            #[trigger] id[a],
            #[trigger] id[b],
        ) by {
            law_rows_are_sorted(s, a, b);
        }
    }
    law_row_order_exists(r);
    law_row_order_is_unique(r, id, choose|o: Seq<int>| row_order(r, o));
    assert(rows_in(r, id) =~= r);
}

/// Where no two sessions agree in directory and id, the list does not depend on the order in
/// which the sessions came: `perm` says where each session of `t` stands in `s`.
pub proof fn law_order_ignores_arrival(s: Seq<SessionView>, t: Seq<SessionView>, perm: Seq<int>)
    requires
        s.len() == t.len(),
        perm.len() == t.len(),
        forall|i: int|
            0 <= i < perm.len() ==> 0 <= #[trigger] perm[i] < s.len() && t[i] == s[perm[i]],
        perm.no_duplicates(),
        forall|i: int, j: int|
            0 <= i < s.len() && 0 <= j < s.len() && i != j ==> (#[trigger] s[i]).cwd
                != (#[trigger] s[j]).cwd || s[i].session_id != s[j].session_id,
    ensures
        ordered_rows(s) == ordered_rows(t),
{
    law_row_order_exists(s);
    law_row_order_exists(t);
    let ot = choose|o: Seq<int>| row_order(t, o);
    let os = choose|o: Seq<int>| row_order(s, o);
    let o = Seq::new(ot.len(), |k: int| perm[ot[k]]);
    assert(row_order(s, o)) by {
        assert forall|k: int| 0 <= k < o.len() implies 0 <= #[trigger] o[k] < s.len() by {
            assert(0 <= ot[k] < t.len());
        }
        assert forall|a: int, b: int| 0 <= a < b < o.len() implies listed_before(
            s,
            #[trigger] o[a],
            #[trigger] o[b],
        ) by {
            assert(listed_before(t, ot[a], ot[b]));
            assert(0 <= ot[a] < t.len() && 0 <= ot[b] < t.len());
            lemma_listed_before_irreflexive(t, ot[a]);
            assert(t[ot[a]] == s[o[a]] && t[ot[b]] == s[o[b]]);
            assert(o[a] != o[b]);
        }
    }
    law_row_order_is_unique(s, o, os);
    assert(ordered_rows(s) =~= ordered_rows(t)) by {
        assert forall|k: int| 0 <= k < ordered_rows(s).len() implies ordered_rows(s)[k]
            == ordered_rows(t)[k] by {
            assert(0 <= ot[k] < t.len());
            assert(t[ot[k]] == s[perm[ot[k]]]);
            assert(os[k] == o[k]);
        }
    }
}

/// The order of two rows, by code points.
spec fn ascends(upper: SessionView, lower: SessionView) -> bool {
    &&& upper.cwd != lower.cwd ==> exists|k: int|
        #![trigger upper.cwd.take(k), lower.cwd.take(k)]
        0 <= k <= upper.cwd.len() && k < lower.cwd.len() && upper.cwd.take(k) == lower.cwd.take(k)
            && (k == upper.cwd.len() || (upper.cwd[k] as u32) < (lower.cwd[k] as u32))
    &&& upper.cwd == lower.cwd && upper.session_id != lower.session_id ==> exists|k: int|
        #![trigger upper.session_id.take(k), lower.session_id.take(k)]
        0 <= k <= upper.session_id.len() && k < lower.session_id.len()
            && upper.session_id.take(k) == lower.session_id.take(k) && (k
            == upper.session_id.len() || (upper.session_id[k] as u32) < (
        lower.session_id[k] as u32))
}

proof fn lemma_listed_by_code_points(s: Seq<SessionView>, i: int, j: int)
    requires
        listed_before(s, i, j),
    ensures
        ascends(s[i], s[j]),
        s[i].cwd == s[j].cwd && s[i].session_id == s[j].session_id ==> i < j,
{
    law_text_order(s[i].cwd, s[j].cwd);
    law_text_order(s[i].session_id, s[j].session_id);
    lemma_text_lt_irreflexive(s[i].cwd);
    lemma_text_lt_irreflexive(s[i].session_id);
}

/// The rows are sorted by the code points of their directories: of two rows with different
/// directories, the upper one has the smaller code point where they first differ, or its
/// directory has ended there. Rows of one directory are sorted by their ids in the same way.
pub proof fn law_rows_ascend(s: Seq<SessionView>, a: int, b: int)
    requires
        0 <= a < b < ordered_rows(s).len(),
    ensures
        ({
            let (x, y) = (ordered_rows(s)[a].cwd, ordered_rows(s)[b].cwd);
            x != y ==> exists|k: int|
                #![trigger x.take(k), y.take(k)]
                0 <= k <= x.len() && k < y.len() && x.take(k) == y.take(k) && (k == x.len() || (
                x[k] as u32) < (y[k] as u32))
        }),
        ({
            let (x, y) = (ordered_rows(s)[a].session_id, ordered_rows(s)[b].session_id);
            ordered_rows(s)[a].cwd == ordered_rows(s)[b].cwd && x != y ==> exists|k: int|
                #![trigger x.take(k), y.take(k)]
                0 <= k <= x.len() && k < y.len() && x.take(k) == y.take(k) && (k == x.len() || (
                x[k] as u32) < (y[k] as u32))
        }),
{
    law_row_order_exists(s);
    let order = choose|order: Seq<int>| row_order(s, order);
    assert(listed_before(s, order[a], order[b]));
    lemma_listed_by_code_points(s, order[a], order[b]);
}

/// The list is the first eight of the sessions, or all of them where there are no more: each
/// row is a session of its own, and `order` says which. Where two have the same directory and
/// the same id, the one that came first stands above. A session that is not listed comes after
/// every row that is: in the code points of its directory, then of its id, then in its coming.
pub proof fn law_rows_are_the_first(s: Seq<SessionView>) -> (order: Seq<int>)
    ensures
        ordered_rows(s).len() == order.len(),
        order.len() == (if s.len() < 8 {
            s.len()
        } else {
            8
        }),
        order.no_duplicates(),
        forall|k: int|
            0 <= k < order.len() ==> 0 <= #[trigger] order[k] < s.len() && ordered_rows(s)[k]
                == s[order[k]],
        forall|a: int, b: int|
            0 <= a < b < order.len() && s[#[trigger] order[a]].cwd == s[#[trigger] order[b]].cwd
                && s[order[a]].session_id == s[order[b]].session_id ==> order[a] < order[b],
        forall|a: int, i: int|
            0 <= a < order.len() && 0 <= i < s.len() && !order.contains(i) ==> {
                let (x, y) = (s[#[trigger] order[a]].cwd, (#[trigger] s[i]).cwd);
                let (u, v) = (s[order[a]].session_id, s[i].session_id);
                &&& x != y ==> exists|k: int|
                    #![trigger x.take(k), y.take(k)]
                    0 <= k <= x.len() && k < y.len() && x.take(k) == y.take(k) && (k == x.len()
                        || (x[k] as u32) < (y[k] as u32))
                &&& x == y && u != v ==> exists|k: int|
                    #![trigger u.take(k), v.take(k)]
                    0 <= k <= u.len() && k < v.len() && u.take(k) == v.take(k) && (k == u.len()
                        || (u[k] as u32) < (v[k] as u32))
                &&& x == y && u == v ==> order[a] < i
            },
{
    law_row_order_exists(s);
    let whole = choose|order: Seq<int>| row_order(s, order);
    let n = ordered_rows(s).len() as int;
    let order = whole.take(n);
    assert forall|a: int, b: int|
        0 <= a < order.len() && 0 <= b < order.len() && a != b implies order[a] != order[b] by {
        lemma_listed_before_irreflexive(s, whole[a]);
        if a < b {
            assert(listed_before(s, whole[a], whole[b]));
        } else {
            assert(listed_before(s, whole[b], whole[a]));
        }
    }
    assert forall|k: int| 0 <= k < order.len() implies 0 <= #[trigger] order[k] < s.len()
        && ordered_rows(s)[k] == s[order[k]] by {
        assert(order[k] == whole[k]);
    }
    assert forall|a: int, b: int|
        0 <= a < b < order.len() && s[#[trigger] order[a]].cwd == s[#[trigger] order[b]].cwd
            && s[order[a]].session_id == s[order[b]].session_id implies order[a] < order[b] by {
        assert(listed_before(s, whole[a], whole[b]));
        lemma_listed_by_code_points(s, whole[a], whole[b]);
    }
    assert forall|a: int, i: int|
        0 <= a < order.len() && 0 <= i < s.len() && !order.contains(i) implies ascends(
        s[#[trigger] order[a]],
        #[trigger] s[i],
    ) && (s[order[a]].cwd == s[i].cwd && s[order[a]].session_id == s[i].session_id ==> order[a]
        < i) by {
        lemma_order_hits_every_row(s, whole, i);
        let b = choose|b: int| 0 <= b < whole.len() && whole[b] == i;
        if b < n {
            assert(order[b] == i);
            assert(order.contains(i));
        }
        assert(listed_before(s, whole[a], whole[b]));
        lemma_listed_by_code_points(s, whole[a], whole[b]);
    }
    order
}

} // verus!
