//! Where a merge puts the declarations of the environment that is merged
//! in: each new term and theorem stands at the identifier that the
//! renumbering gives it.

use crate::density::lemma_decl_ids_dense;
use crate::environment::{
    count_decl_stmts, lemma_count_stmts_mono, DeclAdmission, DeclKey, Environment, SortAdmission,
    StmtTrace,
};
use crate::error::ElabErrorView;
use crate::expr::{ExprTree, ProofTree, TermView, ThmView, Type};
use crate::ids::{SortID, TermID, ThmID};
use crate::merge::{
    entered, merge_stmt, merge_stmts, merge_stmts_end, sort_admission, term_admission,
    thm_admission, DeclState, MergeState,
};
use crate::names::{first_key, lemma_first_key, lemma_first_key_push, lemma_position, position};
use crate::remap::{
    mapped, remap_args, remap_ptree, remap_ptrees, remap_term, remap_thm, remap_tree, remap_trees,
    remap_type, RemapView,
};
use crate::syntax::Span;
use vstd::prelude::*;

verus! {

/// The state of a merge after the first `k` steps of the history of the
/// second environment were replayed.
pub open spec fn replayed(st0: MergeState, b: DeclState, sp: Span, k: nat) -> Result<
    MergeState,
    ElabErrorView,
>
    decreases k,
{
    if k == 0 {
        Ok(st0)
    } else {
        match replayed(st0, b, sp, (k - 1) as nat) {
            Err(e) => Err(e),
            Ok(st) => merge_stmt(st, b, sp, b.stmts[k - 1]),
        }
    }
}

/// When a replay succeeds, so do its first steps, and the rest of the
/// replay leads from where they end to where the whole replay ends.
pub proof fn lemma_replayed(st0: MergeState, b: DeclState, sp: Span, k: nat)
    requires
        k <= b.stmts.len(),
        merge_stmts(st0, b, sp, 0) is Ok,
    ensures
        replayed(st0, b, sp, k) is Ok,
        merge_stmts(replayed(st0, b, sp, k)->Ok_0, b, sp, k) == merge_stmts(st0, b, sp, 0),
    decreases k,
{
    if k > 0 {
        lemma_replayed(st0, b, sp, (k - 1) as nat);
    }
}

/// Whether `long` starts with `short`.
pub open spec fn starts_with<T>(long: Seq<T>, short: Seq<T>) -> bool {
    short.len() <= long.len() && forall|i: int| 0 <= i < short.len() ==> long[i] == short[i]
}

/// Whether every table of `b` starts with the table of `a`.
pub open spec fn grows(a: DeclState, b: DeclState) -> bool {
    &&& starts_with(b.sorts, a.sorts)
    &&& starts_with(b.terms, a.terms)
    &&& starts_with(b.thms, a.thms)
}

/// A step of a replay adds to the tables, behind what they hold.
pub proof fn lemma_step_grows(st: MergeState, b: DeclState, sp: Span, stmt: StmtTrace)
    requires
        merge_stmt(st, b, sp, stmt) is Ok,
    ensures
        grows(st.decls, merge_stmt(st, b, sp, stmt)->Ok_0.decls),
{
}

/// A replay adds to the tables, behind what they hold.
pub proof fn lemma_replay_grows(st: MergeState, b: DeclState, sp: Span, k: nat)
    requires
        merge_stmts(st, b, sp, k) is Ok,
    ensures
        grows(st.decls, merge_stmts(st, b, sp, k)->Ok_0.decls),
    decreases b.stmts.len() - k,
{
    if k < b.stmts.len() {
        lemma_step_grows(st, b, sp, b.stmts[k as int]);
        let st1 = merge_stmt(st, b, sp, b.stmts[k as int])->Ok_0;
        lemma_replay_grows(st1, b, sp, k + 1);
    }
}

/// Whether `b` holds all that `a` holds, in front of what it holds
/// besides: the tables, the dictionaries, the history and the errors.
pub open spec fn keeps(a: MergeState, b: MergeState) -> bool {
    &&& grows(a.decls, b.decls)
    &&& starts_with(b.decls.sort_keys, a.decls.sort_keys)
    &&& starts_with(b.decls.decl_keys, a.decls.decl_keys)
    &&& starts_with(b.decls.stmts, a.decls.stmts)
    &&& starts_with(b.errors, a.errors)
}

/// A step of a replay keeps what the environment and the errors hold, and
/// adds behind it.
pub proof fn lemma_step_keeps_all(st: MergeState, b: DeclState, sp: Span, stmt: StmtTrace)
    requires
        merge_stmt(st, b, sp, stmt) is Ok,
    ensures
        keeps(st, merge_stmt(st, b, sp, stmt)->Ok_0),
{
}

/// A replay keeps what the environment and the errors hold, and adds
/// behind it, whether it succeeds or stops at a step that fails.
pub proof fn lemma_replay_keeps(st: MergeState, b: DeclState, sp: Span, k: nat)
    ensures
        keeps(st, merge_stmts_end(st, b, sp, k)),
    decreases b.stmts.len() - k,
{
    if k < b.stmts.len() {
        if merge_stmt(st, b, sp, b.stmts[k as int]) is Ok {
            lemma_step_keeps_all(st, b, sp, b.stmts[k as int]);
            let st1 = merge_stmt(st, b, sp, b.stmts[k as int])->Ok_0;
            lemma_replay_keeps(st1, b, sp, k + 1);
        }
    }
}

/// Two lists with the same keys at the same places find a key at the same
/// place.
proof fn lemma_first_key_same_keys<K, V>(s: Seq<(K, V)>, t: Seq<(K, V)>, k: K)
    requires
        s.len() == t.len(),
        forall|i: int| 0 <= i < s.len() ==> s[i].0 == t[i].0,
    ensures
        first_key(s, k) == first_key(t, k),
    decreases s.len(),
{
    if s.len() > 0 {
        lemma_first_key_same_keys(s.drop_last(), t.drop_last(), k);
    }
}

/// Entering a value for a key makes the key stand for the value, and
/// changes what no other key stands for.
pub proof fn lemma_entered<K>(m: Seq<(K, K)>, k: K, v: K, other: K)
    ensures
        mapped(entered(m, k, v), k) == v,
        other != k ==> mapped(entered(m, k, v), other) == mapped(m, other),
        other != k ==> (first_key(entered(m, k, v), other) is None <==> first_key(m, other)
            is None),
{
    lemma_first_key(m, k);
    lemma_first_key(m, other);
    match first_key(m, k) {
        Some(j) => {
            let n = m.update(j, (k, v));
            lemma_first_key_same_keys(m, n, k);
            lemma_first_key_same_keys(m, n, other);
        },
        None => {
            lemma_first_key_push(m, (k, v), k);
            lemma_first_key_push(m, (k, v), other);
        },
    }
}

/// The declaration that step `k` of the history of `b` makes.
pub open spec fn declares(b: DeclState, k: int) -> Option<DeclKey> {
    match b.stmts[k] {
        StmtTrace::Sort(_) => None,
        StmtTrace::Decl(name) => Some(b.decl_keys[position(b.decl_keys, name@)->Some_0].1),
    }
}

/// A step that does not declare the term `i` leaves what the renumbering
/// says of `i` as it is; so for a theorem.
pub proof fn lemma_step_keeps(st: MergeState, b: DeclState, sp: Span, k: int, key: DeclKey)
    requires
        0 <= k < b.stmts.len(),
        merge_stmt(st, b, sp, b.stmts[k]) is Ok,
        declares(b, k) != Some(key),
    ensures
        ({
            let st1 = merge_stmt(st, b, sp, b.stmts[k])->Ok_0;
            match key {
                DeclKey::Term(i) => st1.remap.term_of(i) == st.remap.term_of(i) && (first_key(
                    st1.remap.term,
                    i,
                ) is None <==> first_key(st.remap.term, i) is None),
                DeclKey::Thm(i) => st1.remap.thm_of(i) == st.remap.thm_of(i) && (first_key(
                    st1.remap.thm,
                    i,
                ) is None <==> first_key(st.remap.thm, i) is None),
            }
        }),
{
    match b.stmts[k] {
        StmtTrace::Sort(_) => {},
        StmtTrace::Decl(name) => {
            match b.decl_keys[position(b.decl_keys, name@)->Some_0].1 {
                DeclKey::Term(j) => {
                    match key {
                        DeclKey::Term(i) => {
                            let d = st.decls;
                            let o = b.terms[j.0 as int];
                            match term_admission(d, name@, o.span) {
                                DeclAdmission::Known(id) => {
                                    lemma_entered(st.remap.term, j, id, i);
                                },
                                DeclAdmission::Clash(Some(id), _) => {
                                    lemma_entered(st.remap.term, j, id, i);
                                },
                                DeclAdmission::Fresh => {
                                    lemma_entered(
                                        st.remap.term,
                                        j,
                                        TermID(d.terms.len() as u32),
                                        i,
                                    );
                                },
                                _ => {},
                            }
                        },
                        DeclKey::Thm(_) => {},
                    }
                },
                DeclKey::Thm(j) => {
                    match key {
                        DeclKey::Thm(i) => {
                            let d = st.decls;
                            let o = b.thms[j.0 as int];
                            match thm_admission(d, name@, o.span) {
                                DeclAdmission::Known(id) => {
                                    lemma_entered(st.remap.thm, j, id, i);
                                },
                                DeclAdmission::Clash(Some(id), _) => {
                                    lemma_entered(st.remap.thm, j, id, i);
                                },
                                DeclAdmission::Fresh => {
                                    lemma_entered(st.remap.thm, j, ThmID(d.thms.len() as u32), i);
                                },
                                _ => {},
                            }
                        },
                        DeclKey::Term(_) => {},
                    }
                },
            }
        },
    }
}

/// Steps of which none declares the term `i` leave what the renumbering
/// says of `i` as it is; so for a theorem.
pub proof fn lemma_steps_keep(
    st0: MergeState,
    b: DeclState,
    sp: Span,
    from: nat,
    to: nat,
    key: DeclKey,
)
    requires
        from <= to <= b.stmts.len(),
        replayed(st0, b, sp, to) is Ok,
        forall|j: int| from <= j < to ==> declares(b, j) != Some(key),
    ensures
        replayed(st0, b, sp, from) is Ok,
        ({
            let s = replayed(st0, b, sp, from)->Ok_0;
            let t = replayed(st0, b, sp, to)->Ok_0;
            match key {
                DeclKey::Term(i) => t.remap.term_of(i) == s.remap.term_of(i) && (first_key(
                    t.remap.term,
                    i,
                ) is None <==> first_key(s.remap.term, i) is None),
                DeclKey::Thm(i) => t.remap.thm_of(i) == s.remap.thm_of(i) && (first_key(
                    t.remap.thm,
                    i,
                ) is None <==> first_key(s.remap.thm, i) is None),
            }
        }),
    decreases to - from,
{
    if from < to {
        lemma_steps_keep(st0, b, sp, from, (to - 1) as nat, key);
        let st = replayed(st0, b, sp, (to - 1) as nat)->Ok_0;
        lemma_step_keeps(st, b, sp, to - 1, key);
    }
}

/// In a well-formed environment no two steps of the history make the same
/// declaration.
pub proof fn lemma_declared_once(e: Environment, j: int, k: int)
    requires
        e.wf(),
        0 <= j < k < e.stmts@.len(),
        declares(e.decls(), k) is Some,
    ensures
        declares(e.decls(), j) != declares(e.decls(), k),
{
    lemma_decl_ids_dense(e);
    reveal(Environment::wf);
    let b = e.decls();
    if declares(b, j) == declares(b, k) {
        let nj = e.stmts@[j]->Decl_0;
        let nk = e.stmts@[k]->Decl_0;
        lemma_position(e.decl_keys@, nj@);
        lemma_position(e.decl_keys@, nk@);
        lemma_count_stmts_mono(e.stmts@, j + 1, k);
        lemma_count_stmts_mono(e.stmts@, k + 1, e.stmts@.len() as int);
        let cj = count_decl_stmts(e.stmts@, j) as int;
        let ck = count_decl_stmts(e.stmts@, k) as int;
        let pj = position(e.decl_keys@, nj@)->Some_0;
        let pk = position(e.decl_keys@, nk@)->Some_0;
        assert(cj < ck);
        assert(e.decl_keys@[cj].0 == nj);
        assert(e.decl_keys@[ck].0 == nk);
        if pj < pk {
            assert(e.decl_keys@[pj].1 != e.decl_keys@[pk].1);
        } else if pk < pj {
            assert(e.decl_keys@[pk].1 != e.decl_keys@[pj].1);
        }
        assert(nj@ == nk@);
        assert(e.decl_keys@[cj].0@ != e.decl_keys@[ck].0@);
    }
}

/// A term of the second environment whose name is new to the first when
/// its declaration is replayed stands, after the merge, at the
/// identifier that the renumbering gives it, renumbered by what was
/// found up to its declaration.
///
/// Here `k` is the step that declares the term `i` of `other`, the merge
/// starts from `st0` with nothing renumbered, and `fin` is where it ends.
pub proof fn lemma_merged_term(
    other: Environment,
    st0: MergeState,
    sp: Span,
    k: int,
    i: TermID,
)
    requires
        other.wf(),
        st0.remap.term.len() == 0,
        merge_stmts(st0, other.decls(), sp, 0) is Ok,
        0 <= k < other.stmts@.len(),
        declares(other.decls(), k) == Some(DeclKey::Term(i)),
        replayed(st0, other.decls(), sp, k as nat) is Ok ==> term_admission(
            replayed(st0, other.decls(), sp, k as nat)->Ok_0.decls,
            other.stmts@[k]->Decl_0@,
            other.decls().terms[i.0 as int].span,
        ) is Fresh,
    ensures
        replayed(st0, other.decls(), sp, k as nat) is Ok,
        ({
            let fin = merge_stmts(st0, other.decls(), sp, 0)->Ok_0;
            let then = replayed(st0, other.decls(), sp, k as nat)->Ok_0;
            let id = fin.remap.term_of(i);
            &&& id.0 < fin.decls.terms.len()
            &&& fin.decls.terms[id.0 as int] == remap_term(
                other.decls().terms[i.0 as int],
                then.remap,
            )
        }),
{
    let b = other.decls();
    let n = b.stmts.len();
    let key = DeclKey::Term(i);
    lemma_replayed(st0, b, sp, k as nat);
    lemma_replayed(st0, b, sp, (k + 1) as nat);
    lemma_replayed(st0, b, sp, n);
    let then = replayed(st0, b, sp, k as nat)->Ok_0;
    let next = replayed(st0, b, sp, (k + 1) as nat)->Ok_0;
    let fin = merge_stmts(st0, b, sp, 0)->Ok_0;
    assert(replayed(st0, b, sp, n)->Ok_0 == fin);
    // before its declaration the term is not renumbered
    assert forall|j: int| 0 <= j < k implies declares(b, j) != Some(key) by {
        lemma_declared_once(other, j, k);
    }
    lemma_steps_keep(st0, b, sp, 0, k as nat, key);
    assert(first_key(then.remap.term, i) is None) by {
        lemma_first_key(st0.remap.term, i);
    }
    // its declaration puts it behind the terms and renumbers it
    let id = TermID(then.decls.terms.len() as u32);
    lemma_entered(then.remap.term, i, id, i);
    assert(next.remap.term_of(i) == id);
    assert(next.decls.terms == then.decls.terms.push(remap_term(b.terms[i.0 as int], then.remap)));
    // what follows leaves both as they are
    assert forall|j: int| k + 1 <= j < n implies declares(b, j) != Some(key) by {
        if declares(b, j) is Some {
            lemma_declared_once(other, k, j);
        }
    }
    lemma_steps_keep(st0, b, sp, (k + 1) as nat, n, key);
    lemma_replay_grows(next, b, sp, (k + 1) as nat);
    assert(fin.decls.terms[id.0 as int] == next.decls.terms[id.0 as int]);
}

/// A theorem of the second environment whose name is new to the first
/// when its declaration is replayed stands, after the merge, at the
/// identifier that the renumbering gives it, renumbered by what was
/// found up to its declaration.
///
/// Here `k` is the step that declares the theorem `i` of `other`, the
/// merge starts from `st0` with nothing renumbered, and `fin` is where
/// it ends.
pub proof fn lemma_merged_thm(other: Environment, st0: MergeState, sp: Span, k: int, i: ThmID)
    requires
        other.wf(),
        st0.remap.thm.len() == 0,
        merge_stmts(st0, other.decls(), sp, 0) is Ok,
        0 <= k < other.stmts@.len(),
        declares(other.decls(), k) == Some(DeclKey::Thm(i)),
        replayed(st0, other.decls(), sp, k as nat) is Ok ==> thm_admission(
            replayed(st0, other.decls(), sp, k as nat)->Ok_0.decls,
            other.stmts@[k]->Decl_0@,
            other.decls().thms[i.0 as int].span,
        ) is Fresh,
    ensures
        replayed(st0, other.decls(), sp, k as nat) is Ok,
        ({
            let fin = merge_stmts(st0, other.decls(), sp, 0)->Ok_0;
            let then = replayed(st0, other.decls(), sp, k as nat)->Ok_0;
            let id = fin.remap.thm_of(i);
            &&& id.0 < fin.decls.thms.len()
            &&& fin.decls.thms[id.0 as int] == remap_thm(other.decls().thms[i.0 as int], then.remap)
        }),
{
    let b = other.decls();
    let n = b.stmts.len();
    let key = DeclKey::Thm(i);
    lemma_replayed(st0, b, sp, k as nat);
    lemma_replayed(st0, b, sp, (k + 1) as nat);
    lemma_replayed(st0, b, sp, n);
    let then = replayed(st0, b, sp, k as nat)->Ok_0;
    let next = replayed(st0, b, sp, (k + 1) as nat)->Ok_0;
    let fin = merge_stmts(st0, b, sp, 0)->Ok_0;
    assert(replayed(st0, b, sp, n)->Ok_0 == fin);
    assert forall|j: int| 0 <= j < k implies declares(b, j) != Some(key) by {
        lemma_declared_once(other, j, k);
    }
    lemma_steps_keep(st0, b, sp, 0, k as nat, key);
    assert(first_key(then.remap.thm, i) is None) by {
        lemma_first_key(st0.remap.thm, i);
    }
    let id = ThmID(then.decls.thms.len() as u32);
    lemma_entered(then.remap.thm, i, id, i);
    assert(next.remap.thm_of(i) == id);
    assert(next.decls.thms == then.decls.thms.push(remap_thm(b.thms[i.0 as int], then.remap)));
    assert forall|j: int| k + 1 <= j < n implies declares(b, j) != Some(key) by {
        if declares(b, j) is Some {
            lemma_declared_once(other, k, j);
        }
    }
    lemma_steps_keep(st0, b, sp, (k + 1) as nat, n, key);
    lemma_replay_grows(next, b, sp, (k + 1) as nat);
    assert(fin.decls.thms[id.0 as int] == next.decls.thms[id.0 as int]);
}

/// The sort that step `k` of the history of `b` declares.
pub open spec fn declares_sort(b: DeclState, k: int) -> Option<SortID> {
    match b.stmts[k] {
        StmtTrace::Sort(name) => Some(b.sort_keys[position(b.sort_keys, name@)->Some_0].1),
        StmtTrace::Decl(_) => None,
    }
}

/// A step that does not declare the sort `s` leaves what the renumbering
/// says of `s` as it is.
pub proof fn lemma_step_keeps_sort(st: MergeState, b: DeclState, sp: Span, k: int, s: SortID)
    requires
        0 <= k < b.stmts.len(),
        merge_stmt(st, b, sp, b.stmts[k]) is Ok,
        declares_sort(b, k) != Some(s),
    ensures
        merge_stmt(st, b, sp, b.stmts[k])->Ok_0.remap.sort_of(s) == st.remap.sort_of(s),
{
    match b.stmts[k] {
        StmtTrace::Sort(name) => {
            let i = b.sort_keys[position(b.sort_keys, name@)->Some_0].1;
            let d = st.decls;
            match sort_admission(d, name@, b.sorts[i.0 as int].mods) {
                SortAdmission::Known(id) => {
                    lemma_entered(st.remap.sort, i, id, s);
                },
                SortAdmission::Clash(id) => {
                    lemma_entered(st.remap.sort, i, id, s);
                },
                SortAdmission::Fresh => {
                    lemma_entered(st.remap.sort, i, SortID(d.sorts.len() as u8), s);
                },
                _ => {},
            }
        },
        StmtTrace::Decl(_) => {},
    }
}

/// Steps of which none declares the sort `s` leave what the renumbering
/// says of `s` as it is.
pub proof fn lemma_steps_keep_sort(
    st0: MergeState,
    b: DeclState,
    sp: Span,
    from: nat,
    to: nat,
    s: SortID,
)
    requires
        from <= to <= b.stmts.len(),
        replayed(st0, b, sp, to) is Ok,
        forall|j: int| from <= j < to ==> declares_sort(b, j) != Some(s),
    ensures
        replayed(st0, b, sp, from) is Ok,
        replayed(st0, b, sp, to)->Ok_0.remap.sort_of(s) == replayed(
            st0,
            b,
            sp,
            from,
        )->Ok_0.remap.sort_of(s),
    decreases to - from,
{
    if from < to {
        lemma_steps_keep_sort(st0, b, sp, from, (to - 1) as nat, s);
        let st = replayed(st0, b, sp, (to - 1) as nat)->Ok_0;
        lemma_step_keeps_sort(st, b, sp, to - 1, s);
    }
}

/// In a well-formed environment no two steps of the history declare the
/// same sort.
pub proof fn lemma_sort_declared_once(e: Environment, j: int, k: int)
    requires
        e.wf(),
        0 <= j < k < e.stmts@.len(),
        declares_sort(e.decls(), k) is Some,
    ensures
        declares_sort(e.decls(), j) != declares_sort(e.decls(), k),
{
    reveal(Environment::wf);
    let b = e.decls();
    if declares_sort(b, j) == declares_sort(b, k) {
        let nj = e.stmts@[j]->Sort_0;
        let nk = e.stmts@[k]->Sort_0;
        lemma_position(e.sort_keys@, nj@);
        lemma_position(e.sort_keys@, nk@);
        lemma_count_stmts_mono(e.stmts@, j + 1, k);
        lemma_count_stmts_mono(e.stmts@, k + 1, e.stmts@.len() as int);
        let cj = crate::environment::count_sort_stmts(e.stmts@, j) as int;
        let ck = crate::environment::count_sort_stmts(e.stmts@, k) as int;
        let pj = position(e.sort_keys@, nj@)->Some_0;
        let pk = position(e.sort_keys@, nk@)->Some_0;
        assert(cj < ck);
        assert(e.sort_keys@[cj].0 == nj);
        assert(e.sort_keys@[ck].0 == nk);
        assert(pj == pk);
        assert(nj@ == nk@);
        assert(e.sort_keys@[cj].0@ != e.sort_keys@[ck].0@);
    }
}

/// Whether the sort `s` is declared before step `k` of the history of `b`.
pub open spec fn sort_before(b: DeclState, k: int, s: SortID) -> bool {
    exists|j: int| 0 <= j < k && #[trigger] declares_sort(b, j) == Some(s)
}

/// Whether the term or theorem `key` is declared before step `k` of the
/// history of `b`.
pub open spec fn decl_before(b: DeclState, k: int, key: DeclKey) -> bool {
    exists|j: int| 0 <= j < k && #[trigger] declares(b, j) == Some(key)
}

/// Whether the tree `t` mentions only sorts and terms that are declared
/// before step `k` of the history of `b`.
pub open spec fn tree_before(t: ExprTree, b: DeclState, k: int) -> bool
    decreases t,
{
    match t {
        ExprTree::Ref(_) => true,
        ExprTree::Dummy(_, s) => sort_before(b, k, s),
        ExprTree::App(f, es) => decl_before(b, k, DeclKey::Term(f)) && forall|n: int|
            0 <= n < es.len() ==> tree_before(#[trigger] es[n], b, k),
    }
}

/// Whether every tree of `ts` mentions only what is declared before step
/// `k`.
pub open spec fn trees_before(ts: Seq<ExprTree>, b: DeclState, k: int) -> bool {
    forall|n: int| 0 <= n < ts.len() ==> tree_before(#[trigger] ts[n], b, k)
}

/// Whether the proof tree `t` mentions only sorts, terms and theorems
/// that are declared before step `k` of the history of `b`.
pub open spec fn ptree_before(t: ProofTree, b: DeclState, k: int) -> bool
    decreases t,
{
    match t {
        ProofTree::Ref(_) => true,
        ProofTree::Dummy(_, s) => sort_before(b, k, s),
        ProofTree::Term { term, args } => decl_before(b, k, DeclKey::Term(term)) && forall|
            n: int,
        | 0 <= n < args.len() ==> ptree_before(#[trigger] args[n], b, k),
        ProofTree::Hyp(_, e) => ptree_before(*e, b, k),
        ProofTree::Thm { thm, args, hyps, tgt } => decl_before(b, k, DeclKey::Thm(thm)) && (
        forall|n: int| 0 <= n < args.len() ==> ptree_before(#[trigger] args[n], b, k)) && (
        forall|n: int| 0 <= n < hyps.len() ==> ptree_before(#[trigger] hyps[n], b, k))
            && ptree_before(*tgt, b, k),
        ProofTree::Conv { tgt, proof } => ptree_before(*tgt, b, k) && ptree_before(*proof, b, k),
    }
}

/// Whether every tree of `ts` mentions only what is declared before step
/// `k`.
pub open spec fn ptrees_before(ts: Seq<ProofTree>, b: DeclState, k: int) -> bool {
    forall|n: int| 0 <= n < ts.len() ==> ptree_before(#[trigger] ts[n], b, k)
}

/// Whether the arguments `args` have sorts that are declared before step
/// `k`.
pub open spec fn args_before(args: Seq<(String, Type)>, b: DeclState, k: int) -> bool {
    forall|n: int| 0 <= n < args.len() ==> sort_before(b, k, (#[trigger] args[n]).1.spec_sort())
}

/// Whether the term `t` mentions only sorts and terms that are declared
/// before step `k` of the history of `b`.
pub open spec fn term_before(t: TermView, b: DeclState, k: int) -> bool {
    &&& args_before(t.args, b, k)
    &&& sort_before(b, k, t.ret.spec_sort())
    &&& match t.val {
        Some(e) => trees_before(e.heap, b, k) && tree_before(e.head, b, k),
        None => true,
    }
}

/// Whether the theorem `t` mentions only sorts, terms and theorems that
/// are declared before step `k` of the history of `b`.
pub open spec fn thm_before(t: ThmView, b: DeclState, k: int) -> bool {
    &&& args_before(t.args, b, k)
    &&& trees_before(t.heap, b, k)
    &&& trees_before(t.hyps, b, k)
    &&& tree_before(t.ret, b, k)
    &&& match t.proof {
        Some(p) => ptrees_before(p.heap, b, k) && ptrees_before(p.hyps, b, k) && ptree_before(
            p.head,
            b,
            k,
        ),
        None => true,
    }
}

/// Whether two renumberings say the same of everything that is declared
/// before step `k` of the history of `b`.
pub open spec fn agree_before(r1: RemapView, r2: RemapView, b: DeclState, k: int) -> bool {
    &&& forall|s: SortID| #[trigger] sort_before(b, k, s) ==> r1.sort_of(s) == r2.sort_of(s)
    &&& forall|f: TermID|
        #[trigger] decl_before(b, k, DeclKey::Term(f)) ==> r1.term_of(f) == r2.term_of(f)
    &&& forall|f: ThmID|
        #[trigger] decl_before(b, k, DeclKey::Thm(f)) ==> r1.thm_of(f) == r2.thm_of(f)
}

/// Renumberings that agree on what a tree mentions renumber it alike.
pub proof fn lemma_remap_tree_agree(t: ExprTree, r1: RemapView, r2: RemapView, b: DeclState, k: int)
    requires
        tree_before(t, b, k),
        agree_before(r1, r2, b, k),
    ensures
        remap_tree(t, r1) == remap_tree(t, r2),
    decreases t,
{
    match t {
        ExprTree::App(f, es) => {
            assert(decl_before(b, k, DeclKey::Term(f)));
            assert forall|n: int| 0 <= n < es.len() implies remap_tree(es[n], r1) == remap_tree(
                es[n],
                r2,
            ) by {
                lemma_remap_tree_agree(es[n], r1, r2, b, k);
            }
            assert(remap_trees(es, r1) =~= remap_trees(es, r2));
        },
        ExprTree::Dummy(_, s) => {
            assert(sort_before(b, k, s));
        },
        _ => {},
    }
}

/// Renumberings that agree on what trees mention renumber them alike.
pub proof fn lemma_remap_trees_agree(
    ts: Seq<ExprTree>,
    r1: RemapView,
    r2: RemapView,
    b: DeclState,
    k: int,
)
    requires
        trees_before(ts, b, k),
        agree_before(r1, r2, b, k),
    ensures
        remap_trees(ts, r1) == remap_trees(ts, r2),
{
    assert forall|n: int| 0 <= n < ts.len() implies remap_tree(ts[n], r1) == remap_tree(
        ts[n],
        r2,
    ) by {
        lemma_remap_tree_agree(ts[n], r1, r2, b, k);
    }
    assert(remap_trees(ts, r1) =~= remap_trees(ts, r2));
}

/// Renumberings that agree on what a proof tree mentions renumber it
/// alike.
pub proof fn lemma_remap_ptree_agree(
    t: ProofTree,
    r1: RemapView,
    r2: RemapView,
    b: DeclState,
    k: int,
)
    requires
        ptree_before(t, b, k),
        agree_before(r1, r2, b, k),
    ensures
        remap_ptree(t, r1) == remap_ptree(t, r2),
    decreases t,
{
    match t {
        ProofTree::Dummy(_, s) => {
            assert(sort_before(b, k, s));
        },
        ProofTree::Term { term, args } => {
            assert(decl_before(b, k, DeclKey::Term(term)));
            assert forall|n: int| 0 <= n < args.len() implies remap_ptree(args[n], r1)
                == remap_ptree(args[n], r2) by {
                lemma_remap_ptree_agree(args[n], r1, r2, b, k);
            }
            assert(remap_ptrees(args, r1) =~= remap_ptrees(args, r2));
        },
        ProofTree::Hyp(_, e) => {
            lemma_remap_ptree_agree(*e, r1, r2, b, k);
        },
        ProofTree::Thm { thm, args, hyps, tgt } => {
            assert(decl_before(b, k, DeclKey::Thm(thm)));
            assert forall|n: int| 0 <= n < args.len() implies remap_ptree(args[n], r1)
                == remap_ptree(args[n], r2) by {
                lemma_remap_ptree_agree(args[n], r1, r2, b, k);
            }
            assert forall|n: int| 0 <= n < hyps.len() implies remap_ptree(hyps[n], r1)
                == remap_ptree(hyps[n], r2) by {
                lemma_remap_ptree_agree(hyps[n], r1, r2, b, k);
            }
            assert(remap_ptrees(args, r1) =~= remap_ptrees(args, r2));
            assert(remap_ptrees(hyps, r1) =~= remap_ptrees(hyps, r2));
            lemma_remap_ptree_agree(*tgt, r1, r2, b, k);
        },
        ProofTree::Conv { tgt, proof } => {
            lemma_remap_ptree_agree(*tgt, r1, r2, b, k);
            lemma_remap_ptree_agree(*proof, r1, r2, b, k);
        },
        _ => {},
    }
}

/// Renumberings that agree on what proof trees mention renumber them
/// alike.
pub proof fn lemma_remap_ptrees_agree(
    ts: Seq<ProofTree>,
    r1: RemapView,
    r2: RemapView,
    b: DeclState,
    k: int,
)
    requires
        ptrees_before(ts, b, k),
        agree_before(r1, r2, b, k),
    ensures
        remap_ptrees(ts, r1) == remap_ptrees(ts, r2),
{
    assert forall|n: int| 0 <= n < ts.len() implies remap_ptree(ts[n], r1) == remap_ptree(
        ts[n],
        r2,
    ) by {
        lemma_remap_ptree_agree(ts[n], r1, r2, b, k);
    }
    assert(remap_ptrees(ts, r1) =~= remap_ptrees(ts, r2));
}

/// Renumberings that agree on the sorts of arguments renumber them
/// alike.
pub proof fn lemma_remap_args_agree(
    args: Seq<(String, Type)>,
    r1: RemapView,
    r2: RemapView,
    b: DeclState,
    k: int,
)
    requires
        args_before(args, b, k),
        agree_before(r1, r2, b, k),
    ensures
        remap_args(args, r1) == remap_args(args, r2),
{
    assert forall|n: int| 0 <= n < args.len() implies remap_type(args[n].1, r1) == remap_type(
        args[n].1,
        r2,
    ) by {
        assert(sort_before(b, k, args[n].1.spec_sort()));
    }
    assert(remap_args(args, r1) =~= remap_args(args, r2));
}

/// When a replay succeeds, where it ends the renumbering says of
/// everything that was declared before step `k` what it said after the
/// first `k` steps.
pub proof fn lemma_remap_settled(other: Environment, st0: MergeState, sp: Span, k: nat)
    requires
        other.wf(),
        k <= other.stmts@.len(),
        merge_stmts(st0, other.decls(), sp, 0) is Ok,
    ensures
        replayed(st0, other.decls(), sp, k) is Ok,
        agree_before(
            replayed(st0, other.decls(), sp, k)->Ok_0.remap,
            merge_stmts(st0, other.decls(), sp, 0)->Ok_0.remap,
            other.decls(),
            k as int,
        ),
{
    let b = other.decls();
    let n = b.stmts.len();
    lemma_replayed(st0, b, sp, k);
    lemma_replayed(st0, b, sp, n);
    let then = replayed(st0, b, sp, k)->Ok_0;
    let fin = merge_stmts(st0, b, sp, 0)->Ok_0;
    assert(replayed(st0, b, sp, n)->Ok_0 == fin);
    assert forall|s: SortID| #[trigger] sort_before(b, k as int, s) implies then.remap.sort_of(s)
        == fin.remap.sort_of(s) by {
        let j0 = choose|j: int| 0 <= j < k && #[trigger] declares_sort(b, j) == Some(s);
        assert forall|j: int| k <= j < n implies declares_sort(b, j) != Some(s) by {
            if declares_sort(b, j) is Some {
                lemma_sort_declared_once(other, j0, j);
            }
        }
        lemma_steps_keep_sort(st0, b, sp, k, n, s);
    }
    assert forall|f: TermID| #[trigger]
        decl_before(b, k as int, DeclKey::Term(f)) implies then.remap.term_of(f)
        == fin.remap.term_of(f) by {
        let key = DeclKey::Term(f);
        let j0 = choose|j: int| 0 <= j < k && #[trigger] declares(b, j) == Some(key);
        assert forall|j: int| k <= j < n implies declares(b, j) != Some(key) by {
            if declares(b, j) is Some {
                lemma_declared_once(other, j0, j);
            }
        }
        lemma_steps_keep(st0, b, sp, k, n, key);
    }
    assert forall|f: ThmID| #[trigger]
        decl_before(b, k as int, DeclKey::Thm(f)) implies then.remap.thm_of(f)
        == fin.remap.thm_of(f) by {
        let key = DeclKey::Thm(f);
        let j0 = choose|j: int| 0 <= j < k && #[trigger] declares(b, j) == Some(key);
        assert forall|j: int| k <= j < n implies declares(b, j) != Some(key) by {
            if declares(b, j) is Some {
                lemma_declared_once(other, j0, j);
            }
        }
        lemma_steps_keep(st0, b, sp, k, n, key);
    }
}

/// After a merge, a term of the second environment stands in the first
/// at the identifier that the renumbering gives it, renumbered as the
/// renumbering says; provided that its name was new to the first
/// environment when its declaration was replayed, and that it mentions
/// only sorts and terms that the second environment declares before it.
///
/// Here `k` is the step that declares the term `i` of `other`, and the
/// merge starts from `st0` with nothing renumbered.
pub proof fn lemma_merged_term_renumbered(
    other: Environment,
    st0: MergeState,
    sp: Span,
    k: int,
    i: TermID,
)
    requires
        other.wf(),
        st0.remap.term.len() == 0,
        merge_stmts(st0, other.decls(), sp, 0) is Ok,
        0 <= k < other.stmts@.len(),
        declares(other.decls(), k) == Some(DeclKey::Term(i)),
        replayed(st0, other.decls(), sp, k as nat) is Ok ==> term_admission(
            replayed(st0, other.decls(), sp, k as nat)->Ok_0.decls,
            other.stmts@[k]->Decl_0@,
            other.decls().terms[i.0 as int].span,
        ) is Fresh,
        term_before(other.decls().terms[i.0 as int], other.decls(), k),
    ensures
        ({
            let fin = merge_stmts(st0, other.decls(), sp, 0)->Ok_0;
            let id = fin.remap.term_of(i);
            &&& id.0 < fin.decls.terms.len()
            &&& fin.decls.terms[id.0 as int] == remap_term(
                other.decls().terms[i.0 as int],
                fin.remap,
            )
        }),
{
    let b = other.decls();
    let t = b.terms[i.0 as int];
    lemma_merged_term(other, st0, sp, k, i);
    lemma_remap_settled(other, st0, sp, k as nat);
    let r1 = replayed(st0, b, sp, k as nat)->Ok_0.remap;
    let r2 = merge_stmts(st0, b, sp, 0)->Ok_0.remap;
    lemma_remap_args_agree(t.args, r1, r2, b, k);
    match t.val {
        Some(e) => {
            lemma_remap_trees_agree(e.heap, r1, r2, b, k);
            lemma_remap_tree_agree(e.head, r1, r2, b, k);
        },
        None => {},
    }
}

/// After a merge, a theorem of the second environment stands in the first
/// at the identifier that the renumbering gives it, renumbered as the
/// renumbering says; provided that its name was new to the first
/// environment when its declaration was replayed, and that it mentions
/// only sorts, terms and theorems that the second environment declares
/// before it.
///
/// Here `k` is the step that declares the theorem `i` of `other`, and the
/// merge starts from `st0` with nothing renumbered.
pub proof fn lemma_merged_thm_renumbered(
    other: Environment,
    st0: MergeState,
    sp: Span,
    k: int,
    i: ThmID,
)
    requires
        other.wf(),
        st0.remap.thm.len() == 0,
        merge_stmts(st0, other.decls(), sp, 0) is Ok,
        0 <= k < other.stmts@.len(),
        declares(other.decls(), k) == Some(DeclKey::Thm(i)),
        replayed(st0, other.decls(), sp, k as nat) is Ok ==> thm_admission(
            replayed(st0, other.decls(), sp, k as nat)->Ok_0.decls,
            other.stmts@[k]->Decl_0@,
            other.decls().thms[i.0 as int].span,
        ) is Fresh,
        thm_before(other.decls().thms[i.0 as int], other.decls(), k),
    ensures
        ({
            let fin = merge_stmts(st0, other.decls(), sp, 0)->Ok_0;
            let id = fin.remap.thm_of(i);
            &&& id.0 < fin.decls.thms.len()
            &&& fin.decls.thms[id.0 as int] == remap_thm(other.decls().thms[i.0 as int], fin.remap)
        }),
{
    let b = other.decls();
    let t = b.thms[i.0 as int];
    lemma_merged_thm(other, st0, sp, k, i);
    lemma_remap_settled(other, st0, sp, k as nat);
    let r1 = replayed(st0, b, sp, k as nat)->Ok_0.remap;
    let r2 = merge_stmts(st0, b, sp, 0)->Ok_0.remap;
    lemma_remap_args_agree(t.args, r1, r2, b, k);
    lemma_remap_trees_agree(t.heap, r1, r2, b, k);
    lemma_remap_trees_agree(t.hyps, r1, r2, b, k);
    lemma_remap_tree_agree(t.ret, r1, r2, b, k);
    match t.proof {
        Some(p) => {
            lemma_remap_ptrees_agree(p.heap, r1, r2, b, k);
            lemma_remap_ptrees_agree(p.hyps, r1, r2, b, k);
            lemma_remap_ptree_agree(p.head, r1, r2, b, k);
        },
        None => {},
    }
}

} // verus!
