//! What adding a coercion does to the graph as a whole, and what the table
//! of provable targets says about it.

use crate::coe::Coe;
use crate::coercions::{
    add_all, add_one_error, graph_wf, has_edge, prov_scan, prov_table, provable_sort, schedule,
    schedule_left, schedule_right, Edge,
};
use crate::environment::Sort;
use crate::error::ElabErrorView;
use crate::ids::SortID;
use crate::names::{first_key, keys_distinct, lemma_first_key, lemma_first_key_push};
use crate::syntax::Span;
use vstd::prelude::*;

verus! {

/// Coercions that are all added without error are added behind the graph,
/// in their order; and a graph without cycle and diamond stays so.
pub proof fn lemma_add_all_ok(coes: Seq<Edge>, sorts: Seq<Sort>, sp: Span, todo: Seq<Edge>, k: nat)
    requires
        k <= todo.len(),
        add_all(coes, sorts, sp, todo, k).1 is None,
    ensures
        add_all(coes, sorts, sp, todo, k).0 == coes + todo.subrange(k as int, todo.len() as int),
        graph_wf(coes) ==> graph_wf(add_all(coes, sorts, sp, todo, k).0),
    decreases todo.len() - k,
{
    if k >= todo.len() {
        assert(coes + todo.subrange(k as int, todo.len() as int) =~= coes);
    } else {
        let e = todo[k as int];
        lemma_add_all_ok(coes.push(e), sorts, sp, todo, k + 1);
        assert(coes.push(e) + todo.subrange(k as int + 1, todo.len() as int) =~= coes + todo.subrange(
            k as int,
            todo.len() as int,
        ));
        if graph_wf(coes) {
            lemma_first_key(coes, e.0);
            assert(graph_wf(coes.push(e)));
        }
    }
}

/// A coercion that is in the graph at some place is found between its
/// two sorts.
pub proof fn lemma_has_edge(coes: Seq<Edge>, i: int)
    requires
        0 <= i < coes.len(),
    ensures
        has_edge(coes, coes[i].0.0, coes[i].0.1),
{
    lemma_first_key(coes, coes[i].0);
}

/// Two sorts that a graph joins are joined by every graph that extends it.
pub proof fn lemma_has_edge_extends(coes: Seq<Edge>, more: Seq<Edge>, a: SortID, b: SortID)
    requires
        has_edge(coes, a, b),
    ensures
        has_edge(coes + more, a, b),
{
    lemma_first_key(coes, (a, b));
    let i = first_key(coes, (a, b))->Some_0;
    assert((coes + more)[i] == coes[i]);
    lemma_has_edge(coes + more, i);
}

/// Every coercion of the graph that leads to `s1` has its continuation to
/// `s2` among the coercions that are asked for.
proof fn lemma_schedule_left_has(
    coes: Seq<Edge>,
    s1: SortID,
    s2: SortID,
    c1: Coe,
    k: int,
    i: int,
)
    requires
        0 <= i < k <= coes.len(),
        coes[i].0.1 == s1,
    ensures
        exists|j: int|
            0 <= j < schedule_left(coes, s1, s2, c1, k).len() && (#[trigger] schedule_left(
                coes,
                s1,
                s2,
                c1,
                k,
            )[j]).0 == (coes[i].0.0, s2),
    decreases k,
{
    let cur = schedule_left(coes, s1, s2, c1, k);
    let prev = schedule_left(coes, s1, s2, c1, k - 1);
    if i == k - 1 {
        assert(cur[cur.len() - 1].0 == (coes[i].0.0, s2));
    } else {
        lemma_schedule_left_has(coes, s1, s2, c1, k - 1, i);
        let j = choose|j: int| 0 <= j < prev.len() && (#[trigger] prev[j]).0 == (coes[i].0.0, s2);
        assert(cur[j] == prev[j]);
    }
}

/// Every coercion of the graph that starts from `s2` has its continuation
/// from `s1` among the coercions that are asked for.
proof fn lemma_schedule_right_has(
    coes: Seq<Edge>,
    s1: SortID,
    s2: SortID,
    c1: Coe,
    k: int,
    i: int,
)
    requires
        0 <= i < k <= coes.len(),
        coes[i].0.0 == s2,
    ensures
        exists|j: int|
            0 <= j < schedule_right(coes, s1, s2, c1, k).len() && (#[trigger] schedule_right(
                coes,
                s1,
                s2,
                c1,
                k,
            )[j]).0 == (s1, coes[i].0.1),
    decreases k,
{
    let cur = schedule_right(coes, s1, s2, c1, k);
    let prev = schedule_right(coes, s1, s2, c1, k - 1);
    if i == k - 1 {
        assert(cur[cur.len() - 1].0 == (s1, coes[i].0.1));
    } else {
        lemma_schedule_right_has(coes, s1, s2, c1, k - 1, i);
        let j = choose|j: int| 0 <= j < prev.len() && (#[trigger] prev[j]).0 == (s1, coes[i].0.1);
        assert(cur[j] == prev[j]);
    }
}

/// The graph after a step from `s1` to `s2` was added with success.
pub open spec fn after_step(coes: Seq<Edge>, sorts: Seq<Sort>, sp: Span, s1: SortID, s2: SortID, c1: Coe) -> Seq<
    Edge,
> {
    add_all(coes, sorts, sp, schedule(coes, s1, s2, c1), 0).0
}

/// Whether a step from `s1` to `s2` is added without error.
pub open spec fn step_succeeds(
    coes: Seq<Edge>,
    sorts: Seq<Sort>,
    sp: Span,
    s1: SortID,
    s2: SortID,
    c1: Coe,
) -> bool {
    add_all(coes, sorts, sp, schedule(coes, s1, s2, c1), 0).1 is None
}

/// After a step from `s1` to `s2` was added with success, the graph
/// consists of what it held and of what the step asked for; it joins `s1`
/// to `s2`, every sort that was joined to `s1` to `s2`, and `s1` to every
/// sort that `s2` was joined to; and it still has no coercion from a sort
/// to itself and no two coercions between the same two sorts.
pub proof fn lemma_step_closes(
    coes: Seq<Edge>,
    sorts: Seq<Sort>,
    sp: Span,
    s1: SortID,
    s2: SortID,
    c1: Coe,
)
    requires
        graph_wf(coes),
        step_succeeds(coes, sorts, sp, s1, s2, c1),
    ensures
        after_step(coes, sorts, sp, s1, s2, c1) == coes + schedule(coes, s1, s2, c1),
        graph_wf(after_step(coes, sorts, sp, s1, s2, c1)),
        has_edge(after_step(coes, sorts, sp, s1, s2, c1), s1, s2),
        forall|a: SortID, b: SortID|
            has_edge(coes, a, b) ==> has_edge(after_step(coes, sorts, sp, s1, s2, c1), a, b),
        forall|a: SortID|
            has_edge(coes, a, s1) ==> has_edge(after_step(coes, sorts, sp, s1, s2, c1), a, s2),
        forall|b: SortID|
            has_edge(coes, s2, b) ==> has_edge(after_step(coes, sorts, sp, s1, s2, c1), s1, b),
{
    let todo = schedule(coes, s1, s2, c1);
    let after = after_step(coes, sorts, sp, s1, s2, c1);
    let left = schedule_left(coes, s1, s2, c1, coes.len() as int);
    let right = schedule_right(coes, s1, s2, c1, coes.len() as int);
    lemma_add_all_ok(coes, sorts, sp, todo, 0);
    assert(todo.subrange(0, todo.len() as int) =~= todo);
    assert(after == coes + todo);
    assert(has_edge(after, s1, s2)) by {
        let at = (coes.len() + left.len()) as int;
        assert(after[at].0 == (s1, s2));
        lemma_has_edge(after, at);
    }
    assert forall|a: SortID, b: SortID| has_edge(coes, a, b) implies has_edge(after, a, b) by {
        lemma_has_edge_extends(coes, todo, a, b);
    }
    assert forall|a: SortID| has_edge(coes, a, s1) implies has_edge(after, a, s2) by {
        lemma_first_key(coes, (a, s1));
        let i = first_key(coes, (a, s1))->Some_0;
        lemma_schedule_left_has(coes, s1, s2, c1, coes.len() as int, i);
        let j = choose|j: int| 0 <= j < left.len() && (#[trigger] left[j]).0 == (coes[i].0.0, s2);
        assert(after[coes.len() + j] == left[j]);
        lemma_has_edge(after, coes.len() + j);
    }
    assert forall|b: SortID| has_edge(coes, s2, b) implies has_edge(after, s1, b) by {
        lemma_first_key(coes, (s2, b));
        let i = first_key(coes, (s2, b))->Some_0;
        lemma_schedule_right_has(coes, s1, s2, c1, coes.len() as int, i);
        let j = choose|j: int|
            0 <= j < right.len() && (#[trigger] right[j]).0 == (s1, coes[i].0.1);
        assert(after[coes.len() + left.len() + 1 + j] == right[j]);
        lemma_has_edge(after, coes.len() + left.len() + 1 + j);
    }
}

/// After a step from `s1` to `s2` was added with success, a sort `a` that
/// was joined to `s1` is joined to a sort `b` that `s2` was joined to,
/// provided that `a` was joined to `b` before: the step itself adds
/// compositions of two coercions only.
pub proof fn lemma_step_keeps_long_paths(
    coes: Seq<Edge>,
    sorts: Seq<Sort>,
    sp: Span,
    s1: SortID,
    s2: SortID,
    c1: Coe,
    a: SortID,
    b: SortID,
)
    requires
        graph_wf(coes),
        step_succeeds(coes, sorts, sp, s1, s2, c1),
        has_edge(coes, a, s1),
        has_edge(coes, s2, b),
        has_edge(coes, a, b),
    ensures
        has_edge(after_step(coes, sorts, sp, s1, s2, c1), a, b),
{
    lemma_step_closes(coes, sorts, sp, s1, s2, c1);
}

/// What a table of provable targets says of the first `k` coercions of a
/// graph: every entry stands for one of them that leads to a provable
/// sort, every such coercion has its entry, and no sort has two entries.
pub open spec fn provs_cover(
    coes: Seq<Edge>,
    sorts: Seq<Sort>,
    provs: Seq<(SortID, SortID)>,
    k: int,
) -> bool {
    &&& keys_distinct(provs)
    &&& forall|i: int|
        0 <= i < provs.len() ==> provable_sort(sorts, (#[trigger] provs[i]).1) && exists|j: int|
            0 <= j < k && (#[trigger] coes[j]).0 == provs[i]
    &&& forall|j: int|
        0 <= j < k && provable_sort(sorts, (#[trigger] coes[j]).0.1) ==> exists|i: int|
            0 <= i < provs.len() && #[trigger] provs[i] == coes[j].0
}

proof fn lemma_prov_scan(
    coes: Seq<Edge>,
    sorts: Seq<Sort>,
    sp: Span,
    provs: Seq<(SortID, SortID)>,
    k: nat,
)
    requires
        k <= coes.len(),
        provs_cover(coes, sorts, provs, k as int),
        prov_scan(coes, sorts, sp, provs, k) is Ok,
    ensures
        provs_cover(coes, sorts, prov_scan(coes, sorts, sp, provs, k)->Ok_0, coes.len() as int),
    decreases coes.len() - k,
{
    if k < coes.len() {
        let s1 = coes[k as int].0.0;
        let s2 = coes[k as int].0.1;
        if provable_sort(sorts, s2) {
            lemma_first_key(provs, s1);
            let next = provs.push((s1, s2));
            assert(provs_cover(coes, sorts, next, k as int + 1)) by {
                assert forall|i: int| 0 <= i < next.len() implies provable_sort(
                    sorts,
                    (#[trigger] next[i]).1,
                ) && exists|j: int| 0 <= j < k + 1 && (#[trigger] coes[j]).0 == next[i] by {
                    if i < provs.len() {
                        assert(next[i] == provs[i]);
                        let j = choose|j: int| 0 <= j < k && (#[trigger] coes[j]).0 == provs[i];
                        assert(coes[j].0 == next[i]);
                    } else {
                        assert(coes[k as int].0 == next[i]);
                    }
                }
                assert forall|j: int|
                    0 <= j < k + 1 && provable_sort(sorts, (#[trigger] coes[j]).0.1) implies exists|
                    i: int,
                | 0 <= i < next.len() && #[trigger] next[i] == coes[j].0 by {
                    if j < k {
                        let i = choose|i: int| 0 <= i < provs.len() && #[trigger] provs[i] == coes[j].0;
                        assert(next[i] == coes[j].0);
                    } else {
                        assert(next[provs.len() as int] == coes[j].0);
                    }
                }
            }
            lemma_prov_scan(coes, sorts, sp, next, k + 1);
        } else {
            assert(provs_cover(coes, sorts, provs, k as int + 1)) by {
                assert forall|i: int| 0 <= i < provs.len() implies provable_sort(
                    sorts,
                    (#[trigger] provs[i]).1,
                ) && exists|j: int| 0 <= j < k + 1 && (#[trigger] coes[j]).0 == provs[i] by {
                    let j = choose|j: int| 0 <= j < k && (#[trigger] coes[j]).0 == provs[i];
                    assert(coes[j].0 == provs[i]);
                }
            }
            lemma_prov_scan(coes, sorts, sp, provs, k + 1);
        }
    }
}

/// The provable sorts that the graph joins `s` to.
pub open spec fn provable_targets(coes: Seq<Edge>, sorts: Seq<Sort>, s: SortID) -> Set<SortID> {
    Set::new(|b: SortID| has_edge(coes, s, b) && provable_sort(sorts, b))
}

/// When the table of provable targets is built with success, a sort has
/// an entry in it if and only if the graph joins it to exactly one
/// provable sort, and the entry names that sort; and the graph joins no
/// sort to two provable sorts.
pub proof fn lemma_prov_table_unique(
    coes: Seq<Edge>,
    sorts: Seq<Sort>,
    sp: Span,
    provs: Seq<(SortID, SortID)>,
    s: SortID,
)
    requires
        prov_table(coes, sorts, sp) == Ok::<Seq<(SortID, SortID)>, ElabErrorView>(provs),
    ensures
        match first_key(provs, s) {
            Some(i) => provable_targets(coes, sorts, s) == set![provs[i].1],
            None => provable_targets(coes, sorts, s) == Set::<SortID>::empty(),
        },
{
    assert(provs_cover(coes, sorts, Seq::empty(), 0));
    lemma_prov_scan(coes, sorts, sp, Seq::empty(), 0);
    lemma_first_key(provs, s);
    let targets = provable_targets(coes, sorts, s);
    match first_key(provs, s) {
        Some(i) => {
            let j = choose|j: int| 0 <= j < coes.len() && (#[trigger] coes[j]).0 == provs[i];
            lemma_has_edge(coes, j);
            assert forall|b: SortID| targets.contains(b) implies b == provs[i].1 by {
                lemma_first_key(coes, (s, b));
                let j2 = first_key(coes, (s, b))->Some_0;
                let i2 = choose|i2: int| 0 <= i2 < provs.len() && #[trigger] provs[i2] == coes[j2].0;
                if i2 < i {
                    assert(provs[i2].0 != provs[i].0);
                } else if i < i2 {
                    assert(provs[i].0 != provs[i2].0);
                }
            }
            assert(targets =~= set![provs[i].1]);
        },
        None => {
            assert forall|b: SortID| !targets.contains(b) by {
                if targets.contains(b) {
                    lemma_first_key(coes, (s, b));
                    let j2 = first_key(coes, (s, b))->Some_0;
                    let i2 = choose|i2: int|
                        0 <= i2 < provs.len() && #[trigger] provs[i2] == coes[j2].0;
                    assert(provs[i2].0 == s);
                }
            }
            assert(targets =~= Set::<SortID>::empty());
        },
    }
}

/// Whether the graph `after` holds what a step from `s1` to `s2` adds to
/// the graph `before`: all that `before` joins, `s1` to `s2`, every sort
/// that `before` joins to `s1` to `s2`, and `s1` to every sort that
/// `before` joins `s2` to.
pub open spec fn closes(before: Seq<Edge>, after: Seq<Edge>, s1: SortID, s2: SortID) -> bool {
    &&& has_edge(after, s1, s2)
    &&& forall|a: SortID, b: SortID| #[trigger] has_edge(before, a, b) ==> has_edge(after, a, b)
    &&& forall|a: SortID| #[trigger] has_edge(before, a, s1) ==> has_edge(after, a, s2)
    &&& forall|b: SortID| #[trigger] has_edge(before, s2, b) ==> has_edge(after, s1, b)
}

/// Whether the table `provs` has an entry for exactly the sorts that the
/// graph joins to exactly one provable sort, and names that sort; and the
/// graph joins no sort to two provable sorts.
pub open spec fn provs_exact(coes: Seq<Edge>, sorts: Seq<Sort>, provs: Seq<(SortID, SortID)>) -> bool {
    forall|s: SortID|
        match #[trigger] first_key(provs, s) {
            Some(i) => provable_targets(coes, sorts, s) == set![provs[i].1],
            None => provable_targets(coes, sorts, s) == Set::<SortID>::empty(),
        }
}

/// A step that is added with success closes the graph as far as one
/// composition reaches.
pub proof fn lemma_step_closes_graph(
    coes: Seq<Edge>,
    sorts: Seq<Sort>,
    sp: Span,
    s1: SortID,
    s2: SortID,
    c1: Coe,
)
    requires
        graph_wf(coes),
        step_succeeds(coes, sorts, sp, s1, s2, c1),
    ensures
        closes(coes, after_step(coes, sorts, sp, s1, s2, c1), s1, s2),
{
    lemma_step_closes(coes, sorts, sp, s1, s2, c1);
}

/// A table of provable targets that is built with success is exact.
pub proof fn lemma_prov_table_exact(
    coes: Seq<Edge>,
    sorts: Seq<Sort>,
    sp: Span,
    provs: Seq<(SortID, SortID)>,
)
    requires
        prov_table(coes, sorts, sp) == Ok::<Seq<(SortID, SortID)>, ElabErrorView>(provs),
    ensures
        provs_exact(coes, sorts, provs),
{
    assert forall|s: SortID|
        match #[trigger] first_key(provs, s) {
            Some(i) => provable_targets(coes, sorts, s) == set![provs[i].1],
            None => provable_targets(coes, sorts, s) == Set::<SortID>::empty(),
        } by {
        lemma_prov_table_unique(coes, sorts, sp, provs, s);
    }
}

} // verus!
