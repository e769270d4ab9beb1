//! Merging one environment into another: the declarations of the second
//! are replayed in the first, and what they refer to is renumbered.

use crate::environment::{
    count_decl_stmts, count_sort_stmts, count_terms, count_thms, lemma_count_decls_mono,
    lemma_count_stmts_mono, DeclAdmission, DeclKey, Environment, Sort, SortAdmission, StmtTrace,
    MAX_SORTS,
};
use crate::error::{
    error_views, push_error, push_note, quoted, related_view, AddItemError, ElabError,
    ElabErrorView, RedeclarationError,
};
use crate::expr::{Term, TermView, Thm, ThmView};
use crate::ids::{Ident, SortID, TermID, ThmID};
use crate::names::{first_key, lemma_first_key, lemma_position, position};
use crate::remap::{
    lemma_term_remaps, lemma_thm_remaps, remap_term, remap_thm, Remap, RemapView, Remapper,
};
use crate::syntax::{FileSpan, Modifiers, Span};
use vstd::prelude::*;
use vstd::string::*;

verus! {

/// The contents of the terms `ts`.
pub open spec fn term_views(ts: Seq<Term>) -> Seq<TermView> {
    Seq::new(ts.len(), |i: int| ts[i]@)
}

/// The contents of the theorems `ts`.
pub open spec fn thm_views(ts: Seq<Thm>) -> Seq<ThmView> {
    Seq::new(ts.len(), |i: int| ts[i]@)
}

/// The declarations of an environment: its sorts, terms and theorems, the
/// dictionaries that name them, and their history.
pub struct DeclState {
    pub sort_keys: Seq<(String, SortID)>,
    pub sorts: Seq<Sort>,
    pub decl_keys: Seq<(String, DeclKey)>,
    pub terms: Seq<TermView>,
    pub thms: Seq<ThmView>,
    pub stmts: Seq<StmtTrace>,
}

/// What a merge has come to: the declarations of the environment that is
/// merged into, the renumbering found so far, and the errors that were
/// noted.
pub struct MergeState {
    pub decls: DeclState,
    pub remap: RemapView,
    pub errors: Seq<ElabErrorView>,
}

impl Environment {
    /// The declarations of the environment.
    pub open spec fn decls(&self) -> DeclState {
        DeclState {
            sort_keys: self.sort_keys@,
            sorts: self.sorts@,
            decl_keys: self.decl_keys@,
            terms: term_views(self.terms@),
            thms: thm_views(self.thms@),
            stmts: self.stmts@,
        }
    }
}

/// What declaring a sort `name` with modifiers `sd` comes to: a name that
/// is declared is found whatever the size of the table, and a new name
/// needs an identifier that is free.
pub open spec fn sort_admission(d: DeclState, name: Seq<char>, sd: Modifiers) -> SortAdmission {
    match position(d.sort_keys, name) {
        Some(i) => {
            let id = d.sort_keys[i].1;
            if d.sorts[id.0 as int].mods == sd {
                SortAdmission::Known(id)
            } else {
                SortAdmission::Clash(id)
            }
        },
        None => if d.sorts.len() >= MAX_SORTS {
            SortAdmission::Overflow
        } else {
            SortAdmission::Fresh
        },
    }
}

/// What declaring a term `name` at the place `new` comes to.
pub open spec fn term_admission(d: DeclState, name: Seq<char>, new: FileSpan) -> DeclAdmission<
    TermID,
> {
    if d.terms.len() > u32::MAX {
        DeclAdmission::Overflow
    } else {
        match position(d.decl_keys, name) {
            Some(i) => match d.decl_keys[i].1 {
                DeclKey::Term(id) => if d.terms[id.0 as int].span == new {
                    DeclAdmission::Known(id)
                } else {
                    DeclAdmission::Clash(Some(id), d.terms[id.0 as int].span)
                },
                DeclKey::Thm(id) => DeclAdmission::Clash(None, d.thms[id.0 as int].span),
            },
            None => DeclAdmission::Fresh,
        }
    }
}

/// What declaring a theorem `name` at the place `new` comes to.
pub open spec fn thm_admission(d: DeclState, name: Seq<char>, new: FileSpan) -> DeclAdmission<
    ThmID,
> {
    if d.thms.len() > u32::MAX {
        DeclAdmission::Overflow
    } else {
        match position(d.decl_keys, name) {
            Some(i) => match d.decl_keys[i].1 {
                DeclKey::Thm(id) => if d.thms[id.0 as int].span == new {
                    DeclAdmission::Known(id)
                } else {
                    DeclAdmission::Clash(Some(id), d.thms[id.0 as int].span)
                },
                DeclKey::Term(id) => DeclAdmission::Clash(None, d.terms[id.0 as int].span),
            },
            None => DeclAdmission::Fresh,
        }
    }
}

/// The list `m` with `v` entered for `k`, in place of what was entered for
/// `k` before.
pub open spec fn entered<K>(m: Seq<(K, K)>, k: K, v: K) -> Seq<(K, K)> {
    match first_key(m, k) {
        Some(j) => m.update(j, (k, v)),
        None => m.push((k, v)),
    }
}

/// The state after the sort `i` of the second environment was found to be
/// the sort `id` of the first.
pub open spec fn note_sort(st: MergeState, i: SortID, id: SortID) -> MergeState {
    if i != id {
        MergeState {
            remap: RemapView {
                sort: entered(st.remap.sort, i, id),
                term: st.remap.term,
                thm: st.remap.thm,
            },
            ..st
        }
    } else {
        st
    }
}

/// The state after the term `i` of the second environment was found to be
/// the term `id` of the first.
pub open spec fn note_term(st: MergeState, i: TermID, id: TermID) -> MergeState {
    if i != id {
        MergeState {
            remap: RemapView {
                sort: st.remap.sort,
                term: entered(st.remap.term, i, id),
                thm: st.remap.thm,
            },
            ..st
        }
    } else {
        st
    }
}

/// The state after the theorem `i` of the second environment was found to
/// be the theorem `id` of the first.
pub open spec fn note_thm(st: MergeState, i: ThmID, id: ThmID) -> MergeState {
    if i != id {
        MergeState {
            remap: RemapView {
                sort: st.remap.sort,
                term: st.remap.term,
                thm: entered(st.remap.thm, i, id),
            },
            ..st
        }
    } else {
        st
    }
}

/// The error that a redeclaration raises in a merge: `here` is where the
/// second environment declares the name and `there` where the first does.
pub open spec fn redeclared(sp: Span, msg: Seq<char>, here: FileSpan, there: FileSpan) -> ElabErrorView {
    ElabErrorView {
        pos: sp,
        msg,
        related: seq![(here, "previously declared here"@), (there, "previously declared here"@)],
    }
}

/// An error without notes.
pub open spec fn plain_error(sp: Span, msg: Seq<char>) -> ElabErrorView {
    ElabErrorView { pos: sp, msg, related: Seq::empty() }
}

/// The state with one more error noted.
pub open spec fn with_error(st: MergeState, e: ElabErrorView) -> MergeState {
    MergeState { errors: st.errors.push(e), ..st }
}

/// Replays the declaration of the sort `name` of the second environment.
///
/// A sort that the first environment has with the same modifiers is
/// found again; one that it has with other modifiers is found too, and
/// the clash is noted. A sort that it lacks is added, unless the first
/// environment holds all the sorts that it can hold: then the merge fails.
pub open spec fn merge_sort(st: MergeState, other: DeclState, sp: Span, name: String) -> Result<
    MergeState,
    ElabErrorView,
> {
    let i = other.sort_keys[position(other.sort_keys, name@)->Some_0].1;
    let sort = other.sorts[i.0 as int];
    let d = st.decls;
    match sort_admission(d, name@, sort.mods) {
        SortAdmission::Overflow => Err(plain_error(sp, "too many sorts"@)),
        SortAdmission::Known(id) => Ok(note_sort(st, i, id)),
        SortAdmission::Clash(id) => Ok(
            note_sort(
                with_error(
                    st,
                    redeclared(
                        sp,
                        quoted("sort '"@, name@, "' redeclared"@),
                        sort.span,
                        d.sorts[id.0 as int].span,
                    ),
                ),
                i,
                id,
            ),
        ),
        SortAdmission::Fresh => Ok(
            note_sort(
                MergeState {
                    decls: DeclState {
                        sort_keys: d.sort_keys.push((name, SortID(d.sorts.len() as u8))),
                        sorts: d.sorts.push(Sort { name, span: sort.span, mods: sort.mods }),
                        stmts: d.stmts.push(StmtTrace::Sort(name)),
                        ..d
                    },
                    ..st
                },
                i,
                SortID(d.sorts.len() as u8),
            ),
        ),
    }
}

/// Replays the declaration of the term `name` of the second environment,
/// which has the identifier `i` there.
///
/// A term that the first environment has from the same place is found
/// again; one that it has from another place is found too, and the clash
/// is noted. A term that it lacks is added, renumbered as the state
/// says. A theorem of that name, or a full table, makes the merge fail.
pub open spec fn merge_term(
    st: MergeState,
    other: DeclState,
    sp: Span,
    name: String,
    i: TermID,
) -> Result<MergeState, ElabErrorView> {
    let o = other.terms[i.0 as int];
    let d = st.decls;
    let msg = quoted("term '"@, name@, "' redeclared"@);
    match term_admission(d, name@, o.span) {
        DeclAdmission::Overflow => Err(plain_error(sp, "too many terms"@)),
        DeclAdmission::Known(id) => Ok(note_term(st, i, id)),
        DeclAdmission::Clash(None, there) => Err(redeclared(sp, msg, o.span, there)),
        DeclAdmission::Clash(Some(id), there) => Ok(
            note_term(with_error(st, redeclared(sp, msg, o.span, there)), i, id),
        ),
        DeclAdmission::Fresh => Ok(
            note_term(
                MergeState {
                    decls: DeclState {
                        decl_keys: d.decl_keys.push(
                            (name, DeclKey::Term(TermID(d.terms.len() as u32))),
                        ),
                        terms: d.terms.push(remap_term(o, st.remap)),
                        stmts: d.stmts.push(StmtTrace::Decl(name)),
                        ..d
                    },
                    ..st
                },
                i,
                TermID(d.terms.len() as u32),
            ),
        ),
    }
}

/// Replays the declaration of the theorem `name` of the second
/// environment, which has the identifier `i` there.
///
/// A theorem that the first environment has from the same place is found
/// again; one that it has from another place is found too, and the clash
/// is noted. A theorem that it lacks is added, renumbered as the state
/// says. A term of that name, or a full table, makes the merge fail.
pub open spec fn merge_thm(
    st: MergeState,
    other: DeclState,
    sp: Span,
    name: String,
    i: ThmID,
) -> Result<MergeState, ElabErrorView> {
    let o = other.thms[i.0 as int];
    let d = st.decls;
    let msg = quoted("theorem '"@, name@, "' redeclared"@);
    match thm_admission(d, name@, o.span) {
        DeclAdmission::Overflow => Err(plain_error(sp, "too many theorems"@)),
        DeclAdmission::Known(id) => Ok(note_thm(st, i, id)),
        DeclAdmission::Clash(None, there) => Err(redeclared(sp, msg, o.span, there)),
        DeclAdmission::Clash(Some(id), there) => Ok(
            note_thm(with_error(st, redeclared(sp, msg, o.span, there)), i, id),
        ),
        DeclAdmission::Fresh => Ok(
            note_thm(
                MergeState {
                    decls: DeclState {
                        decl_keys: d.decl_keys.push(
                            (name, DeclKey::Thm(ThmID(d.thms.len() as u32))),
                        ),
                        thms: d.thms.push(remap_thm(o, st.remap)),
                        stmts: d.stmts.push(StmtTrace::Decl(name)),
                        ..d
                    },
                    ..st
                },
                i,
                ThmID(d.thms.len() as u32),
            ),
        ),
    }
}

/// Replays one step of the history of the second environment.
pub open spec fn merge_stmt(st: MergeState, other: DeclState, sp: Span, stmt: StmtTrace) -> Result<
    MergeState,
    ElabErrorView,
> {
    match stmt {
        StmtTrace::Sort(name) => merge_sort(st, other, sp, name),
        StmtTrace::Decl(name) => match other.decl_keys[position(other.decl_keys, name@)->Some_0].1 {
            DeclKey::Term(i) => merge_term(st, other, sp, name, i),
            DeclKey::Thm(i) => merge_thm(st, other, sp, name, i),
        },
    }
}

/// Replays the steps `k` and later of the history of the second
/// environment, up to the first that makes the merge fail.
pub open spec fn merge_stmts(st: MergeState, other: DeclState, sp: Span, k: nat) -> Result<
    MergeState,
    ElabErrorView,
>
    decreases other.stmts.len() - k,
{
    if k >= other.stmts.len() {
        Ok(st)
    } else {
        match merge_stmt(st, other, sp, other.stmts[k as int]) {
            Err(e) => Err(e),
            Ok(st1) => merge_stmts(st1, other, sp, k + 1),
        }
    }
}

/// Where the replay of the steps `k` and later stops: after the last step
/// if all succeed, and before the first step that makes the merge fail
/// otherwise. A step that fails changes nothing.
pub open spec fn merge_stmts_end(st: MergeState, other: DeclState, sp: Span, k: nat) -> MergeState
    decreases other.stmts.len() - k,
{
    if k >= other.stmts.len() {
        st
    } else {
        match merge_stmt(st, other, sp, other.stmts[k as int]) {
            Err(_) => st,
            Ok(st1) => merge_stmts_end(st1, other, sp, k + 1),
        }
    }
}

/// A replay that succeeds stops where it ends.
pub proof fn lemma_merge_stmts_end(st: MergeState, other: DeclState, sp: Span, k: nat)
    requires
        merge_stmts(st, other, sp, k) is Ok,
    ensures
        merge_stmts_end(st, other, sp, k) == merge_stmts(st, other, sp, k)->Ok_0,
    decreases other.stmts.len() - k,
{
    if k < other.stmts.len() {
        let st1 = merge_stmt(st, other, sp, other.stmts[k as int])->Ok_0;
        lemma_merge_stmts_end(st1, other, sp, k + 1);
    }
}

/// Enters `v` for `k` in `m`, in place of what was entered for `k`.
fn enter<K: Ident>(m: &mut Vec<(K, K)>, k: K, v: K)
    ensures
        final(m)@ == entered(old(m)@, k, v),
{
    proof {
        lemma_first_key(m@, k);
    }
    let mut j: usize = 0;
    while j < m.len()
        invariant
            0 <= j <= m@.len(),
            m@ == old(m)@,
            forall|i: int| 0 <= i < j ==> m@[i].0 != k,
        decreases m@.len() - j,
    {
        if m[j].0.same(&k) {
            proof {
                lemma_first_key(m@, k);
            }
            m[j] = (k, v);
            return ;
        }
        j += 1;
    }
    m.push((k, v));
}

/// The error that a redeclaration raises in a merge.
fn redeclaration_error(sp: Span, r: RedeclarationError, here: FileSpan) -> (e: ElabError)
    ensures
        e@ == (ElabErrorView {
            pos: sp,
            msg: r.msg@,
            related: seq![(here, r.othermsg@), (r.other, r.othermsg@)],
        }),
{
    let mut related: Vec<(FileSpan, String)> = Vec::new();
    push_note(&mut related, here, r.othermsg.clone());
    push_note(&mut related, r.other, r.othermsg);
    proof {
        assert(related_view(related@) =~= seq![(here, r.othermsg@), (r.other, r.othermsg@)]);
    }
    ElabError::with_info(sp, r.msg, related)
}

/// The state of a merge into `env` with the renumbering `remap` and the
/// errors `errors`.
pub open spec fn merge_state(env: Environment, remap: Remapper, errors: Seq<ElabError>) -> MergeState {
    MergeState { decls: env.decls(), remap: remap@, errors: error_views(errors) }
}

/// Every step of the history of a well-formed environment names a sort or
/// a declaration of that environment.
proof fn lemma_stmt_known(env: Environment, k: int)
    requires
        env.wf(),
        0 <= k < env.stmts@.len(),
    ensures
        match env.stmts@[k] {
            StmtTrace::Sort(n) => {
                let p = position(env.sort_keys@, n@);
                p is Some && env.sort_keys@[p->Some_0].1.0 == p->Some_0 && p->Some_0
                    < env.sorts@.len()
            },
            StmtTrace::Decl(n) => {
                let p = position(env.decl_keys@, n@);
                p is Some && match env.decl_keys@[p->Some_0].1 {
                    DeclKey::Term(t) => t.0 < env.terms@.len(),
                    DeclKey::Thm(t) => t.0 < env.thms@.len(),
                }
            },
        },
{
    reveal(Environment::wf);
    lemma_count_stmts_mono(env.stmts@, k + 1, env.stmts@.len() as int);
    match env.stmts@[k] {
        StmtTrace::Sort(n) => {
            lemma_position(env.sort_keys@, n@);
        },
        StmtTrace::Decl(n) => {
            lemma_position(env.decl_keys@, n@);
            let p = position(env.decl_keys@, n@)->Some_0;
            lemma_count_decls_mono(env.decl_keys@, p + 1, env.decl_keys@.len() as int);
        },
    }
}

impl Environment {
    /// Replays the declaration of the sort `s` of `other`.
    fn merge_sort(
        &mut self,
        other: &Environment,
        sp: Span,
        remap: &mut Remapper,
        errors: &mut Vec<ElabError>,
        s: &String,
    ) -> (r: Result<(), ElabError>)
        requires
            old(self).wf(),
            other.wf(),
            position(other.sort_keys@, s@) is Some,
        ensures
            final(self).wf(),
            final(self).pe == old(self).pe,
            final(self).atoms == old(self).atoms,
            final(self).lisp_ctx == old(self).lisp_ctx,
            r is Ok ==> position(final(self).sort_keys@, s@) is Some,
            forall|name: Seq<char>|
                position(old(self).sort_keys@, name) is Some ==> position(
                    final(self).sort_keys@,
                    name,
                ) is Some,
            match merge_sort(
                merge_state(*old(self), *old(remap), old(errors)@),
                other.decls(),
                sp,
                *s,
            ) {
                Ok(st) => r is Ok && merge_state(*final(self), *final(remap), final(errors)@)
                    == st,
                Err(e) => r is Err && r->Err_0@ == e && merge_state(
                    *final(self),
                    *final(remap),
                    final(errors)@,
                ) == merge_state(*old(self), *old(remap), old(errors)@),
            },
    {
        proof {
            reveal(Environment::wf);
            lemma_position(other.sort_keys@, s@);
        }
        let j: usize = match other.sort_keys.find(s) {
            Some(j) => j,
            None => {
                proof {
                    assert(false);
                }
                vstd::pervasive::unreached()
            },
        };
        let i: SortID = other.sort_keys.entries[j].1;
        let sort: &Sort = &other.sorts.0[i.0 as usize];
        proof {
            assert forall|name: Seq<char>|
                position(self.sort_keys@, name) is Some implies position(
                self.sort_keys@.push((*s, SortID(self.sorts@.len() as u8))),
                name,
            ) is Some by {
                crate::names::lemma_position_push(
                    self.sort_keys@,
                    (*s, SortID(self.sorts@.len() as u8)),
                    name,
                );
            }
            crate::names::lemma_position_push(
                self.sort_keys@,
                (*s, SortID(self.sorts@.len() as u8)),
                s@,
            );
        }
        let id: SortID = match self.add_sort(s.clone(), sort.span, sort.mods) {
            Ok(id) => id,
            Err(AddItemError::Redeclaration(id, r)) => {
                push_error(errors, redeclaration_error(sp, r, sort.span));
                id
            },
            Err(AddItemError::Overflow) => {
                return Err(ElabError::new_e(sp, "too many sorts"));
            },
        };
        if i != id {
            enter(&mut remap.sort, i, id);
        }
        Ok(())
    }

    /// Replays the declaration of the term `s` of `other`, which has the
    /// identifier `i` there.
    fn merge_term(
        &mut self,
        other: &Environment,
        sp: Span,
        remap: &mut Remapper,
        errors: &mut Vec<ElabError>,
        s: &String,
        i: TermID,
    ) -> (r: Result<(), ElabError>)
        requires
            old(self).wf(),
            i.0 < other.terms@.len(),
        ensures
            final(self).wf(),
            final(self).sort_keys == old(self).sort_keys,
            final(self).pe == old(self).pe,
            final(self).atoms == old(self).atoms,
            final(self).lisp_ctx == old(self).lisp_ctx,
            match merge_term(
                merge_state(*old(self), *old(remap), old(errors)@),
                other.decls(),
                sp,
                *s,
                i,
            ) {
                Ok(st) => r is Ok && merge_state(*final(self), *final(remap), final(errors)@)
                    == st,
                Err(e) => r is Err && r->Err_0@ == e && merge_state(
                    *final(self),
                    *final(remap),
                    final(errors)@,
                ) == merge_state(*old(self), *old(remap), old(errors)@),
            },
    {
        let o: &Term = &other.terms.0[i.0 as usize];
        let ghost terms0 = self.terms@;
        let rm: &Remapper = &*remap;
        let build = || -> (out: Term)
            ensures
                o.remaps_to(rm, &out),
            { o.remap(rm) };
        let ghost made = build;
        let res = self.add_term(s.clone(), o.span, build);
        proof {
            if term_admission(old(self).decls(), s@, o.span) is Fresh {
                let v = choose|v: Term| #[trigger]
                    call_ensures(made, (), v) && self.terms@ == terms0.push(v);
                lemma_term_remaps(*o, *remap, v);
                assert(term_views(self.terms@) =~= term_views(terms0).push(
                    remap_term(o@, remap@),
                ));
            }
        }
        let id: TermID = match res {
            Ok(id) => id,
            Err(AddItemError::Redeclaration(id, r)) => {
                let e = redeclaration_error(sp, r, o.span);
                match id {
                    None => {
                        return Err(e);
                    },
                    Some(id) => {
                        push_error(errors, e);
                        id
                    },
                }
            },
            Err(AddItemError::Overflow) => {
                return Err(ElabError::new_e(sp, "too many terms"));
            },
        };
        if i != id {
            enter(&mut remap.term, i, id);
        }
        Ok(())
    }

    /// Replays the declaration of the theorem `s` of `other`, which has
    /// the identifier `i` there.
    fn merge_thm(
        &mut self,
        other: &Environment,
        sp: Span,
        remap: &mut Remapper,
        errors: &mut Vec<ElabError>,
        s: &String,
        i: ThmID,
    ) -> (r: Result<(), ElabError>)
        requires
            old(self).wf(),
            i.0 < other.thms@.len(),
        ensures
            final(self).wf(),
            final(self).sort_keys == old(self).sort_keys,
            final(self).pe == old(self).pe,
            final(self).atoms == old(self).atoms,
            final(self).lisp_ctx == old(self).lisp_ctx,
            match merge_thm(
                merge_state(*old(self), *old(remap), old(errors)@),
                other.decls(),
                sp,
                *s,
                i,
            ) {
                Ok(st) => r is Ok && merge_state(*final(self), *final(remap), final(errors)@)
                    == st,
                Err(e) => r is Err && r->Err_0@ == e && merge_state(
                    *final(self),
                    *final(remap),
                    final(errors)@,
                ) == merge_state(*old(self), *old(remap), old(errors)@),
            },
    {
        let o: &Thm = &other.thms.0[i.0 as usize];
        let ghost thms0 = self.thms@;
        let rm: &Remapper = &*remap;
        let build = || -> (out: Thm)
            ensures
                o.remaps_to(rm, &out),
            { o.remap(rm) };
        let ghost made = build;
        let res = self.add_thm(s.clone(), o.span, build);
        proof {
            if thm_admission(old(self).decls(), s@, o.span) is Fresh {
                let v = choose|v: Thm| #[trigger]
                    call_ensures(made, (), v) && self.thms@ == thms0.push(v);
                lemma_thm_remaps(*o, *remap, v);
                assert(thm_views(self.thms@) =~= thm_views(thms0).push(remap_thm(o@, remap@)));
            }
        }
        let id: ThmID = match res {
            Ok(id) => id,
            Err(AddItemError::Redeclaration(id, r)) => {
                let e = redeclaration_error(sp, r, o.span);
                match id {
                    None => {
                        return Err(e);
                    },
                    Some(id) => {
                        push_error(errors, e);
                        id
                    },
                }
            },
            Err(AddItemError::Overflow) => {
                return Err(ElabError::new_e(sp, "too many theorems"));
            },
        };
        if i != id {
            enter(&mut remap.thm, i, id);
        }
        Ok(())
    }

    /// Replays step `k` of the history of `other`.
    fn merge_step(
        &mut self,
        other: &Environment,
        sp: Span,
        remap: &mut Remapper,
        errors: &mut Vec<ElabError>,
        k: usize,
    ) -> (r: Result<(), ElabError>)
        requires
            old(self).wf(),
            other.wf(),
            k < other.stmts@.len(),
        ensures
            final(self).wf(),
            final(self).pe == old(self).pe,
            final(self).atoms == old(self).atoms,
            final(self).lisp_ctx == old(self).lisp_ctx,
            r is Ok && other.stmts@[k as int] is Sort ==> position(
                final(self).sort_keys@,
                other.stmts@[k as int]->Sort_0@,
            ) is Some,
            forall|name: Seq<char>|
                position(old(self).sort_keys@, name) is Some ==> position(
                    final(self).sort_keys@,
                    name,
                ) is Some,
            match merge_stmt(
                merge_state(*old(self), *old(remap), old(errors)@),
                other.decls(),
                sp,
                other.stmts@[k as int],
            ) {
                Ok(st) => r is Ok && merge_state(*final(self), *final(remap), final(errors)@)
                    == st,
                Err(e) => r is Err && r->Err_0@ == e && merge_state(
                    *final(self),
                    *final(remap),
                    final(errors)@,
                ) == merge_state(*old(self), *old(remap), old(errors)@),
            },
    {
        proof {
            lemma_stmt_known(*other, k as int);
        }
        match &other.stmts[k] {
            StmtTrace::Sort(s) => self.merge_sort(other, sp, remap, errors, s),
            StmtTrace::Decl(s) => {
                let j: usize = match other.decl_keys.find(s) {
                    Some(j) => j,
                    None => {
                        proof {
                            assert(false);
                        }
                        vstd::pervasive::unreached()
                    },
                };
                match other.decl_keys.entries[j].1 {
                    DeclKey::Term(i) => self.merge_term(other, sp, remap, errors, s, i),
                    DeclKey::Thm(i) => self.merge_thm(other, sp, remap, errors, s, i),
                }
            },
        }
    }

    /// Replays the history of `other`.
    pub fn merge_decls(
        &mut self,
        other: &Environment,
        sp: Span,
        remap: &mut Remapper,
        errors: &mut Vec<ElabError>,
    ) -> (r: Result<(), ElabError>)
        requires
            old(self).wf(),
            other.wf(),
        ensures
            final(self).wf(),
            r is Ok ==> other.sorts@.len() <= final(self).sorts@.len(),
            final(self).pe == old(self).pe,
            final(self).atoms == old(self).atoms,
            final(self).lisp_ctx == old(self).lisp_ctx,
            match merge_stmts(
                merge_state(*old(self), *old(remap), old(errors)@),
                other.decls(),
                sp,
                0,
            ) {
                Ok(st) => r is Ok && merge_state(*final(self), *final(remap), final(errors)@)
                    == st,
                Err(e) => r is Err && r->Err_0@ == e,
            },
            merge_state(*final(self), *final(remap), final(errors)@) == merge_stmts_end(
                merge_state(*old(self), *old(remap), old(errors)@),
                other.decls(),
                sp,
                0,
            ),
    {
        let ghost goal = merge_stmts(
            merge_state(*old(self), *old(remap), old(errors)@),
            other.decls(),
            sp,
            0,
        );
        let mut k: usize = 0;
        proof {
            lemma_names_found_none(other.sort_keys@, self.sort_keys@);
        }
        while k < other.stmts.len()
            invariant
                0 <= k <= other.stmts@.len(),
                self.wf(),
                other.wf(),
                self.pe == old(self).pe,
                self.atoms == old(self).atoms,
                self.lisp_ctx == old(self).lisp_ctx,
                names_found(
                    other.sort_keys@,
                    self.sort_keys@,
                    count_sort_stmts(other.stmts@, k as int) as int,
                ),
                goal == merge_stmts(
                    merge_state(*old(self), *old(remap), old(errors)@),
                    other.decls(),
                    sp,
                    0,
                ),
                goal == merge_stmts(
                    merge_state(*self, *remap, errors@),
                    other.decls(),
                    sp,
                    k as nat,
                ),
                merge_stmts_end(
                    merge_state(*old(self), *old(remap), old(errors)@),
                    other.decls(),
                    sp,
                    0,
                ) == merge_stmts_end(
                    merge_state(*self, *remap, errors@),
                    other.decls(),
                    sp,
                    k as nat,
                ),
            decreases other.stmts@.len() - k,
        {
            let ghost keys0 = self.sort_keys@;
            match self.merge_step(other, sp, remap, errors, k) {
                Err(e) => {
                    return Err(e);
                },
                Ok(()) => {},
            }
            proof {
                lemma_names_found_step(*other, keys0, self.sort_keys@, k as int);
            }
            k += 1;
        }
        proof {
            lemma_sorts_fit(*other, self.sort_keys@);
            lemma_sort_count(*other);
            lemma_sort_count(*self);
            let st = merge_state(*self, *remap, errors@);
            assert(merge_stmts(st, other.decls(), sp, k as nat) == Ok::<MergeState, ElabErrorView>(
                st,
            ));
        }
        Ok(())
    }
}

/// A well-formed environment has as many sorts as names of sorts.
proof fn lemma_sort_count(env: Environment)
    requires
        env.wf(),
    ensures
        env.sort_keys@.len() == env.sorts@.len(),
{
    reveal(Environment::wf);
}

/// Of no names, all are found.
proof fn lemma_names_found_none(a: Seq<(String, SortID)>, b: Seq<(String, SortID)>)
    ensures
        names_found(a, b, 0),
{
    reveal(names_found);
}

/// Whether the first `n` names of `a` are found in `b`.
#[verifier::opaque]
pub open spec fn names_found(a: Seq<(String, SortID)>, b: Seq<(String, SortID)>, n: int) -> bool {
    forall|j: int| 0 <= j < n ==> position(b, (#[trigger] a[j]).0@) is Some
}

/// A step of the replay keeps the sorts that were found, and finds the
/// sort that it declares.
proof fn lemma_names_found_step(
    other: Environment,
    keys0: Seq<(String, SortID)>,
    keys1: Seq<(String, SortID)>,
    k: int,
)
    requires
        other.wf(),
        0 <= k < other.stmts@.len(),
        names_found(other.sort_keys@, keys0, count_sort_stmts(other.stmts@, k) as int),
        forall|name: Seq<char>|
            position(keys0, name) is Some ==> position(keys1, name) is Some,
        other.stmts@[k] is Sort ==> position(keys1, other.stmts@[k]->Sort_0@) is Some,
    ensures
        names_found(other.sort_keys@, keys1, count_sort_stmts(other.stmts@, k + 1) as int),
{
    reveal(names_found);
    reveal(Environment::wf);
    let c = count_sort_stmts(other.stmts@, k) as int;
    assert forall|j: int| 0 <= j < count_sort_stmts(other.stmts@, k + 1) implies position(
        keys1,
        (#[trigger] other.sort_keys@[j]).0@,
    ) is Some by {
        if j < c {
            assert(position(keys0, other.sort_keys@[j].0@) is Some);
        } else {
            assert(other.stmts@[k] is Sort);
            assert(j == c);
            assert(other.stmts@[k]->Sort_0 == other.sort_keys@[c].0);
        }
    }
}

/// A dictionary in which every sort of an environment is found has at
/// least as many entries as that environment has sorts.
proof fn lemma_sorts_fit(other: Environment, keys: Seq<(String, SortID)>)
    requires
        other.wf(),
        names_found(
            other.sort_keys@,
            keys,
            count_sort_stmts(other.stmts@, other.stmts@.len() as int) as int,
        ),
    ensures
        other.sort_keys@.len() <= keys.len(),
{
    reveal(names_found);
    reveal(Environment::wf);
    crate::names::lemma_names_fit(other.sort_keys@, keys);
}

} // verus!
