//! The coercion graph: adding a coercion closes the graph under
//! composition with what is there, and refuses cycles and diamonds.

use crate::coe::Coe;
use crate::environment::Sort;
use crate::error::{related_view, ElabError, ElabErrorView};
use crate::ids::{SortID, SortVec, TermID};
use crate::names::{first_key, keys_distinct, lemma_first_key, lemma_first_key_push};
use crate::parser_env::ParserEnv;
use crate::syntax::{FileSpan, Modifiers, Span, PROVABLE};
use vstd::prelude::*;
use vstd::string::*;

verus! {

/// A coercion between two sorts: the sort it starts from, the sort it leads
/// to, and the path.
pub type Edge = ((SortID, SortID), Coe);

/// Whether there is a coercion from `a` to `b`.
pub open spec fn has_edge(coes: Seq<Edge>, a: SortID, b: SortID) -> bool {
    first_key(coes, (a, b)) is Some
}

/// The path of the coercion from `a` to `b`.
pub open spec fn edge_coe(coes: Seq<Edge>, a: SortID, b: SortID) -> Coe
    recommends
        has_edge(coes, a, b),
{
    coes[first_key(coes, (a, b))->Some_0].1
}

/// The graph has no coercion from a sort to itself and no two coercions
/// between the same two sorts.
pub open spec fn graph_wf(coes: Seq<Edge>) -> bool {
    &&& keys_distinct(coes)
    &&& forall|i: int| 0 <= i < coes.len() ==> (#[trigger] coes[i]).0.0 != coes[i].0.1
}

/// Whether `e` joins two of the first `n` sorts by a path through such
/// sorts.
pub open spec fn edge_in_range(e: Edge, n: nat) -> bool {
    e.0.0.0 < n && e.0.1.0 < n && e.1.sorts_below(n)
}

/// Whether every coercion of the graph lies within the first `n` sorts.
pub open spec fn graph_in_range(coes: Seq<Edge>, n: nat) -> bool {
    forall|i: int| 0 <= i < coes.len() ==> edge_in_range(#[trigger] coes[i], n)
}

/// The error that a coercion along `c` from a sort to itself raises.
pub open spec fn cycle_error(sorts: Seq<Sort>, sp: Span, s: SortID, c: Coe) -> ElabErrorView {
    ElabErrorView {
        pos: sp,
        msg: "coercion cycle detected: "@ + c.arrows(sorts, s, s),
        related: c.hops(sorts, s, s),
    }
}

/// The error that a second coercion `c` from `s1` to `s2` raises, where
/// `known` is the first.
pub open spec fn diamond_error(
    sorts: Seq<Sort>,
    sp: Span,
    s1: SortID,
    s2: SortID,
    known: Coe,
    c: Coe,
) -> ElabErrorView {
    ElabErrorView {
        pos: sp,
        msg: "coercion diamond detected: "@ + known.arrows(sorts, s1, s2) + ";   "@ + c.arrows(
            sorts,
            s1,
            s2,
        ),
        related: known.hops(sorts, s1, s2) + c.hops(sorts, s1, s2),
    }
}

/// The error, if any, that adding the coercion `e` to the graph raises: a
/// cycle if it leads from a sort to itself, a diamond if the two sorts are
/// joined already.
pub open spec fn add_one_error(coes: Seq<Edge>, sorts: Seq<Sort>, sp: Span, e: Edge) -> Option<
    ElabErrorView,
> {
    if e.0.0 == e.0.1 {
        Some(cycle_error(sorts, sp, e.0.0, e.1))
    } else {
        match first_key(coes, e.0) {
            Some(i) => Some(diamond_error(sorts, sp, e.0.0, e.0.1, coes[i].1, e.1)),
            None => None,
        }
    }
}

/// The coercions that adding a step from `s1` to `s2` asks for, as far as
/// the first `k` coercions of the graph give rise to them by leading to
/// `s1`: each is continued by the step `c1`.
pub open spec fn schedule_left(coes: Seq<Edge>, s1: SortID, s2: SortID, c1: Coe, k: int) -> Seq<
    Edge,
>
    decreases k,
{
    if k <= 0 {
        Seq::empty()
    } else {
        let e = coes[k - 1];
        let rest = schedule_left(coes, s1, s2, c1, k - 1);
        if e.0.1 == s1 {
            rest.push(((e.0.0, s2), Coe::Trans(Box::new(e.1), s1, Box::new(c1))))
        } else {
            rest
        }
    }
}

/// The coercions that adding a step from `s1` to `s2` asks for, as far as
/// the first `k` coercions of the graph give rise to them by starting from
/// `s2`: each continues the step `c1`.
pub open spec fn schedule_right(coes: Seq<Edge>, s1: SortID, s2: SortID, c1: Coe, k: int) -> Seq<
    Edge,
>
    decreases k,
{
    if k <= 0 {
        Seq::empty()
    } else {
        let e = coes[k - 1];
        let rest = schedule_right(coes, s1, s2, c1, k - 1);
        if e.0.0 == s2 {
            rest.push(((s1, e.0.1), Coe::Trans(Box::new(c1), s2, Box::new(e.1))))
        } else {
            rest
        }
    }
}

/// All coercions that adding the step `c1` from `s1` to `s2` asks for, in
/// the order in which they are added: the compositions with what leads to
/// `s1`, the step itself, and its compositions with what starts from `s2`.
pub open spec fn schedule(coes: Seq<Edge>, s1: SortID, s2: SortID, c1: Coe) -> Seq<Edge> {
    schedule_left(coes, s1, s2, c1, coes.len() as int).push(((s1, s2), c1)) + schedule_right(
        coes,
        s1,
        s2,
        c1,
        coes.len() as int,
    )
}

/// The graph after the coercions `todo[k..]` were added one by one, up to
/// the first that raises an error, and that error.
pub open spec fn add_all(coes: Seq<Edge>, sorts: Seq<Sort>, sp: Span, todo: Seq<Edge>, k: nat) -> (
    Seq<Edge>,
    Option<ElabErrorView>,
)
    decreases todo.len() - k,
{
    if k >= todo.len() {
        (coes, None)
    } else {
        match add_one_error(coes, sorts, sp, todo[k as int]) {
            Some(ev) => (coes, Some(ev)),
            None => add_all(coes.push(todo[k as int]), sorts, sp, todo, k + 1),
        }
    }
}

/// Whether the sort `s` is provable.
pub open spec fn provable_sort(sorts: Seq<Sort>, s: SortID) -> bool {
    sorts[s.0 as int].mods.provable()
}

/// The error that a second coercion from `s1` to a provable sort raises:
/// `s2` is the sort that it leads to and `known` the one found before.
pub open spec fn prov_error(
    coes: Seq<Edge>,
    sorts: Seq<Sort>,
    sp: Span,
    s1: SortID,
    s2: SortID,
    known: SortID,
) -> ElabErrorView {
    let c = edge_coe(coes, s1, s2);
    let d = edge_coe(coes, s1, known);
    ElabErrorView {
        pos: sp,
        msg: "coercion diamond to provable detected:\n"@ + c.arrows(sorts, s1, s2)
            + " provable\n"@ + d.arrows(sorts, s1, known) + " provable"@,
        related: c.hops(sorts, s1, s2) + d.hops(sorts, s1, known),
    }
}

/// The table of provable targets: `provs` extended by the coercions
/// `coes[k..]` that lead to a provable sort, or the error that the first
/// sort with two such coercions raises.
pub open spec fn prov_scan(
    coes: Seq<Edge>,
    sorts: Seq<Sort>,
    sp: Span,
    provs: Seq<(SortID, SortID)>,
    k: nat,
) -> Result<Seq<(SortID, SortID)>, ElabErrorView>
    decreases coes.len() - k,
{
    if k >= coes.len() {
        Ok(provs)
    } else {
        let s1 = coes[k as int].0.0;
        let s2 = coes[k as int].0.1;
        if provable_sort(sorts, s2) {
            match first_key(provs, s1) {
                Some(j) => Err(prov_error(coes, sorts, sp, s1, s2, provs[j].1)),
                None => prov_scan(coes, sorts, sp, provs.push((s1, s2)), k + 1),
            }
        } else {
            prov_scan(coes, sorts, sp, provs, k + 1)
        }
    }
}

/// The table of provable targets of the whole graph.
pub open spec fn prov_table(coes: Seq<Edge>, sorts: Seq<Sort>, sp: Span) -> Result<
    Seq<(SortID, SortID)>,
    ElabErrorView,
> {
    prov_scan(coes, sorts, sp, Seq::empty(), 0)
}

/// The index of the coercion from `a` to `b`.
pub fn find_edge(coes: &Vec<Edge>, a: SortID, b: SortID) -> (r: Option<usize>)
    ensures
        match r {
            Some(i) => first_key(coes@, (a, b)) == Some(i as int) && i < coes@.len(),
            None => first_key(coes@, (a, b)) is None,
        },
{
    proof {
        lemma_first_key(coes@, (a, b));
    }
    let mut i: usize = 0;
    while i < coes.len()
        invariant
            0 <= i <= coes@.len(),
            forall|j: int| 0 <= j < i ==> coes@[j].0 != (a, b),
        decreases coes@.len() - i,
    {
        if coes[i].0.0 == a && coes[i].0.1 == b {
            proof {
                lemma_first_key(coes@, (a, b));
            }
            return Some(i);
        }
        i += 1;
    }
    None
}

/// The index of the entry for `s` in a table of provable targets.
pub fn find_prov(provs: &Vec<(SortID, SortID)>, s: SortID) -> (r: Option<usize>)
    ensures
        match r {
            Some(i) => first_key(provs@, s) == Some(i as int) && i < provs@.len(),
            None => first_key(provs@, s) is None,
        },
{
    proof {
        lemma_first_key(provs@, s);
    }
    let mut i: usize = 0;
    while i < provs.len()
        invariant
            0 <= i <= provs@.len(),
            forall|j: int| 0 <= j < i ==> provs@[j].0 != s,
        decreases provs@.len() - i,
    {
        if provs[i].0 == s {
            proof {
                lemma_first_key(provs@, s);
            }
            return Some(i);
        }
        i += 1;
    }
    None
}

/// Adds the coercion `c` from `s1` to `s2` to the graph, unless it closes
/// a cycle or a diamond.
pub fn add_coe1(
    coes: &mut Vec<Edge>,
    sp: Span,
    sorts: &SortVec<Sort>,
    s1: SortID,
    s2: SortID,
    c: Coe,
) -> (r: Result<(), ElabError>)
    requires
        edge_in_range(((s1, s2), c), sorts@.len()),
        graph_in_range(old(coes)@, sorts@.len()),
    ensures
        match add_one_error(old(coes)@, sorts@, sp, ((s1, s2), c)) {
            Some(ev) => r is Err && r->Err_0@ == ev && final(coes)@ == old(coes)@,
            None => r is Ok && final(coes)@ == old(coes)@.push(((s1, s2), c)),
        },
        graph_in_range(final(coes)@, sorts@.len()),
        graph_wf(old(coes)@) ==> graph_wf(final(coes)@),
{
    if s1 == s2 {
        let mut err = String::from_str("coercion cycle detected: ");
        let mut related: Vec<(FileSpan, String)> = Vec::new();
        c.write_arrows(sorts, &mut err, &mut related, s1, s2);
        proof {
            assert(related_view(related@) =~= c.hops(sorts@, s1, s2));
        }
        return Err(ElabError::with_info(sp, err, related));
    }
    match find_edge(coes, s1, s2) {
        Some(i) => {
            let mut err = String::from_str("coercion diamond detected: ");
            let mut related: Vec<(FileSpan, String)> = Vec::new();
            coes[i].1.write_arrows(sorts, &mut err, &mut related, s1, s2);
            err.append(";   ");
            c.write_arrows(sorts, &mut err, &mut related, s1, s2);
            proof {
                assert(related_view(related@) =~= coes@[i as int].1.hops(sorts@, s1, s2) + c.hops(
                    sorts@,
                    s1,
                    s2,
                ));
                assert(err@ =~= diamond_error(sorts@, sp, s1, s2, coes@[i as int].1, c).msg);
            }
            Err(ElabError::with_info(sp, err, related))
        },
        None => {
            proof {
                lemma_first_key(coes@, (s1, s2));
            }
            coes.push(((s1, s2), c));
            Ok(())
        },
    }
}

proof fn lemma_schedule_in_range(coes: Seq<Edge>, s1: SortID, s2: SortID, c1: Coe, k: int, n: nat)
    requires
        0 <= k <= coes.len(),
        graph_in_range(coes, n),
        edge_in_range(((s1, s2), c1), n),
    ensures
        graph_in_range(schedule_left(coes, s1, s2, c1, k), n),
        graph_in_range(schedule_right(coes, s1, s2, c1, k), n),
    decreases k,
{
    if k > 0 {
        lemma_schedule_in_range(coes, s1, s2, c1, k - 1, n);
        assert(edge_in_range(coes[k - 1], n));
    }
}

/// Adds a step from `s1` to `s2` by the term `t`, declared at `fsp`, and
/// every composition of it with one coercion of the graph; stops at the
/// first that closes a cycle or a diamond.
pub fn add_coe_raw(
    coes: &mut Vec<Edge>,
    sp: Span,
    sorts: &SortVec<Sort>,
    s1: SortID,
    s2: SortID,
    fsp: FileSpan,
    t: TermID,
) -> (r: Result<(), ElabError>)
    requires
        s1.0 < sorts@.len(),
        s2.0 < sorts@.len(),
        graph_in_range(old(coes)@, sorts@.len()),
    ensures
        ({
            let res = add_all(
                old(coes)@,
                sorts@,
                sp,
                schedule(old(coes)@, s1, s2, Coe::One(fsp, t)),
                0,
            );
            &&& final(coes)@ == res.0
            &&& match res.1 {
                Some(ev) => r is Err && r->Err_0@ == ev,
                None => r is Ok,
            }
        }),
        graph_in_range(final(coes)@, sorts@.len()),
        graph_wf(old(coes)@) ==> graph_wf(final(coes)@),
{
    let c1 = Coe::One(fsp, t);
    let ghost n = sorts@.len();
    let mut todo: Vec<Edge> = Vec::new();
    let mut k: usize = 0;
    while k < coes.len()
        invariant
            0 <= k <= coes@.len(),
            coes@ == old(coes)@,
            c1 == Coe::One(fsp, t),
            todo@ == schedule_left(coes@, s1, s2, c1, k as int),
        decreases coes@.len() - k,
    {
        if coes[k].0.1 == s1 {
            let c = Coe::Trans(Box::new(coes[k].1.clone()), s1, Box::new(c1.clone()));
            todo.push(((coes[k].0.0, s2), c));
        }
        k += 1;
    }
    todo.push(((s1, s2), c1.clone()));
    let ghost left = todo@;
    k = 0;
    proof {
        assert(todo@ =~= left + schedule_right(coes@, s1, s2, c1, 0));
    }
    while k < coes.len()
        invariant
            0 <= k <= coes@.len(),
            coes@ == old(coes)@,
            c1 == Coe::One(fsp, t),
            todo@ == left + schedule_right(coes@, s1, s2, c1, k as int),
        decreases coes@.len() - k,
    {
        if coes[k].0.0 == s2 {
            let c = Coe::Trans(Box::new(c1.clone()), s2, Box::new(coes[k].1.clone()));
            todo.push(((s1, coes[k].0.1), c));
            proof {
                assert(todo@ =~= left + schedule_right(coes@, s1, s2, c1, k + 1));
            }
        }
        k += 1;
    }
    proof {
        lemma_schedule_in_range(coes@, s1, s2, c1, coes@.len() as int, n);
        assert(todo@ == schedule(old(coes)@, s1, s2, c1));
        assert(graph_in_range(todo@, n)) by {
            let l = schedule_left(coes@, s1, s2, c1, coes@.len() as int);
            let r = schedule_right(coes@, s1, s2, c1, coes@.len() as int);
            assert forall|i: int| 0 <= i < todo@.len() implies edge_in_range(
                #[trigger] todo@[i],
                n,
            ) by {
                if i < l.len() {
                    assert(todo@[i] == l[i]);
                } else if i == l.len() {
                } else {
                    assert(todo@[i] == r[i - l.len() - 1]);
                }
            }
        }
    }
    k = 0;
    while k < todo.len()
        invariant
            0 <= k <= todo@.len(),
            n == sorts@.len(),
            graph_in_range(todo@, n),
            graph_in_range(coes@, n),
            graph_wf(old(coes)@) ==> graph_wf(coes@),
            todo@ == schedule(old(coes)@, s1, s2, Coe::One(fsp, t)),
            add_all(old(coes)@, sorts@, sp, todo@, 0) == add_all(coes@, sorts@, sp, todo@, k as nat),
        decreases todo@.len() - k,
    {
        assert(edge_in_range(todo@[k as int], n));
        let e: &Edge = &todo[k];
        match add_coe1(coes, sp, sorts, e.0.0, e.0.1, e.1.clone()) {
            Err(err) => {
                return Err(err);
            },
            Ok(()) => {},
        }
        k += 1;
    }
    Ok(())
}

/// Builds the table of provable targets of the graph `coes` and puts it
/// in place of `coe_prov`, unless some sort can be coerced to two provable
/// sorts.
pub fn update_provs(
    coes: &Vec<Edge>,
    coe_prov: &mut Vec<(SortID, SortID)>,
    sp: Span,
    sorts: &SortVec<Sort>,
) -> (r: Result<(), ElabError>)
    requires
        graph_in_range(coes@, sorts@.len()),
    ensures
        match prov_table(coes@, sorts@, sp) {
            Ok(p) => r is Ok && final(coe_prov)@ == p,
            Err(ev) => r is Err && r->Err_0@ == ev && final(coe_prov)@ == old(coe_prov)@,
        },
{
    let mut provs: Vec<(SortID, SortID)> = Vec::new();
    let mut k: usize = 0;
    while k < coes.len()
        invariant
            0 <= k <= coes@.len(),
            graph_in_range(coes@, sorts@.len()),
            coe_prov@ == old(coe_prov)@,
            prov_table(coes@, sorts@, sp) == prov_scan(coes@, sorts@, sp, provs@, k as nat),
            forall|i: int|
                0 <= i < provs@.len() ==> has_edge(coes@, (#[trigger] provs@[i]).0, provs@[i].1),
        decreases coes@.len() - k,
    {
        assert(edge_in_range(coes@[k as int], sorts@.len()));
        let s1: SortID = coes[k].0.0;
        let s2: SortID = coes[k].0.1;
        proof {
            lemma_first_key(coes@, (s1, s2));
        }
        if sorts.0[s2.0 as usize].mods.contains(Modifiers(PROVABLE)) {
            match find_prov(&provs, s1) {
                Some(j) => {
                    let known: SortID = provs[j].1;
                    assert(has_edge(coes@, provs@[j as int].0, provs@[j as int].1));
                    proof {
                        lemma_first_key(provs@, s1);
                        lemma_first_key(coes@, (s1, known));
                    }
                    let a: usize = match find_edge(coes, s1, s2) {
                        Some(a) => a,
                        None => {
                            proof {
                                assert(false);
                            }
                            vstd::pervasive::unreached()
                        },
                    };
                    let b: usize = match find_edge(coes, s1, known) {
                        Some(b) => b,
                        None => {
                            proof {
                                assert(false);
                            }
                            vstd::pervasive::unreached()
                        },
                    };
                    assert(edge_in_range(coes@[a as int], sorts@.len()));
                    assert(edge_in_range(coes@[b as int], sorts@.len()));
                    let mut err = String::from_str("coercion diamond to provable detected:\n");
                    let mut related: Vec<(FileSpan, String)> = Vec::new();
                    coes[a].1.write_arrows(sorts, &mut err, &mut related, s1, s2);
                    err.append(" provable\n");
                    coes[b].1.write_arrows(sorts, &mut err, &mut related, s1, known);
                    err.append(" provable");
                    proof {
                        let ev = prov_error(coes@, sorts@, sp, s1, s2, known);
                        assert(related_view(related@) =~= ev.related);
                        assert(err@ =~= ev.msg);
                    }
                    return Err(ElabError::with_info(sp, err, related));
                },
                None => {
                    provs.push((s1, s2));
                },
            }
        }
        k += 1;
    }
    *coe_prov = provs;
    Ok(())
}

} // verus!
