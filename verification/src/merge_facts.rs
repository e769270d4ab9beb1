//! What merging does in two special cases: into an environment without
//! declarations, and of an environment into itself.

use crate::atoms::{assign_all, intern, intern_all, merge_atoms, remap_lisp, AtomState};
use crate::coercions::prov_table;
use crate::environment::{
    lemma_count_decls_mono, lemma_count_stmts_mono, DeclAdmission, DeclKey, Environment, LispVal,
    SortAdmission, StmtTrace,
};
use crate::env_merge::{merge_env, EnvView};
use crate::error::ElabErrorView;
use crate::ids::{AtomID, SortID};
use crate::merge::{
    merge_stmt, merge_stmts, sort_admission, term_admission, thm_admission, term_views,
    thm_views, MergeState,
};
use crate::names::{first_key, keys_distinct, lemma_first_key, lemma_position, position};
use crate::parser_env::{assoc_admission, const_admission, Admission};
use crate::pe_merge::{
    merge_coes, merge_consts, merge_notas, merge_pe, merge_precs, nota_view_admission,
    nota_views, remap_nota, NotaView,
};
use crate::remap::RemapView;
use crate::syntax::{FileSpan, Prec, Span};
use vstd::prelude::*;

verus! {

/// The renumbering that renumbers nothing.
pub open spec fn no_remap() -> RemapView {
    RemapView { sort: Seq::empty(), term: Seq::empty(), thm: Seq::empty() }
}

/// Merging an environment into one without declarations gives that
/// environment, renumbers nothing and notes no error.
pub proof fn lemma_merge_into_empty(
    env: EnvView,
    other: EnvView,
    sp: Span,
    errors: Seq<ElabErrorView>,
)
    requires
        env.decls.stmts.len() == 0,
    ensures
        merge_env(env, other, sp, errors) == Ok::<
            (EnvView, RemapView, Seq<ElabErrorView>),
            ElabErrorView,
        >((other, no_remap(), errors)),
{
}

/// Replaying a step of its own history changes nothing in an environment
/// whose tables of terms and theorems are not full.
proof fn lemma_replay_own_step(e: Environment, st: MergeState, sp: Span, k: int)
    requires
        e.wf(),
        st.decls == e.decls(),
        e.terms@.len() <= u32::MAX,
        e.thms@.len() <= u32::MAX,
        0 <= k < e.stmts@.len(),
    ensures
        merge_stmt(st, e.decls(), sp, e.stmts@[k]) == Ok::<MergeState, ElabErrorView>(st),
{
    reveal(Environment::wf);
    let d = e.decls();
    lemma_count_stmts_mono(e.stmts@, k + 1, e.stmts@.len() as int);
    match e.stmts@[k] {
        StmtTrace::Sort(n) => {
            lemma_position(e.sort_keys@, n@);
            let p = position(e.sort_keys@, n@)->Some_0;
            let i = e.sort_keys@[p].1;
            assert(i.0 == p);
            assert(sort_admission(d, n@, d.sorts[i.0 as int].mods) == SortAdmission::Known(i));
        },
        StmtTrace::Decl(n) => {
            lemma_position(e.decl_keys@, n@);
            let p = position(e.decl_keys@, n@)->Some_0;
            lemma_count_decls_mono(e.decl_keys@, p + 1, e.decl_keys@.len() as int);
            match e.decl_keys@[p].1 {
                DeclKey::Term(i) => {
                    assert(i.0 < e.terms@.len());
                    assert(term_admission(d, n@, d.terms[i.0 as int].span)
                        == DeclAdmission::Known(i));
                },
                DeclKey::Thm(i) => {
                    assert(i.0 < e.thms@.len());
                    assert(thm_admission(d, n@, d.thms[i.0 as int].span) == DeclAdmission::Known(
                        i,
                    ));
                },
            }
        },
    }
}

/// Replaying its own history changes nothing in an environment whose
/// tables of terms and theorems are not full: no declaration is added,
/// nothing is renumbered and no error is noted.
pub proof fn lemma_replay_own_history(e: Environment, st: MergeState, sp: Span, k: nat)
    requires
        e.wf(),
        st.decls == e.decls(),
        e.terms@.len() <= u32::MAX,
        e.thms@.len() <= u32::MAX,
        k <= e.stmts@.len(),
    ensures
        merge_stmts(st, e.decls(), sp, k) == Ok::<MergeState, ElabErrorView>(st),
    decreases e.stmts@.len() - k,
{
    if k < e.stmts@.len() {
        lemma_replay_own_step(e, st, sp, k as int);
        lemma_replay_own_history(e, st, sp, k + 1);
    }
}

/// Declaring its own constants again changes nothing in a dictionary
/// without double entries.
pub proof fn lemma_consts_self(
    consts: Seq<(String, (FileSpan, Prec))>,
    errors: Seq<ElabErrorView>,
    sp: Span,
    k: nat,
)
    requires
        forall|i: int, j: int|
            0 <= i < j < consts.len() ==> (#[trigger] consts[i]).0@ != (#[trigger] consts[j]).0@,
    ensures
        merge_consts(consts, errors, consts, sp, k) == (consts, errors),
    decreases consts.len() - k,
{
    if k < consts.len() {
        let e = consts[k as int];
        lemma_position(consts, e.0@);
        let p = position(consts, e.0@)->Some_0;
        if p < k {
            assert(consts[p].0@ != consts[k as int].0@);
        }
        assert(const_admission(consts, e.0@, e.1.0, e.1.1) is Known);
        lemma_consts_self(consts, errors, sp, k + 1);
    }
}

/// Declaring its own associativities again changes nothing in a list
/// without double entries.
pub proof fn lemma_precs_self(
    precs: Seq<(u32, (FileSpan, bool))>,
    errors: Seq<ElabErrorView>,
    sp: Span,
    k: nat,
)
    requires
        keys_distinct(precs),
    ensures
        merge_precs(precs, errors, precs, sp, k) == (precs, errors),
    decreases precs.len() - k,
{
    if k < precs.len() {
        let e = precs[k as int];
        lemma_first_key(precs, e.0);
        let p = first_key(precs, e.0)->Some_0;
        if p < k {
            assert(precs[p].0 != precs[k as int].0);
        }
        assert(assoc_admission(precs, e.0, e.1.0, e.1.1) is Known);
        lemma_precs_self(precs, errors, sp, k + 1);
    }
}

/// Declaring its own notations again, renumbered by nothing, changes
/// nothing in a dictionary without double entries.
pub proof fn lemma_notas_self(
    m: Seq<(String, NotaView)>,
    errors: Seq<ElabErrorView>,
    sp: Span,
    k: nat,
)
    requires
        forall|i: int, j: int| 0 <= i < j < m.len() ==> (#[trigger] m[i]).0@ != (#[trigger] m[j]).0@,
    ensures
        merge_notas(m, errors, m, no_remap(), sp, k) == (m, errors),
    decreases m.len() - k,
{
    if k < m.len() {
        let e = m[k as int];
        assert(remap_nota(e.1, no_remap()) == e.1);
        lemma_position(m, e.0@);
        let p = position(m, e.0@)->Some_0;
        if p < k {
            assert(m[p].0@ != m[k as int].0@);
        }
        assert(nota_view_admission(m, e.0@, e.1.span) is Known);
        lemma_notas_self(m, errors, sp, k + 1);
    }
}

/// The identifiers 0, 1, 2 and so on, `n` of them.
pub open spec fn atom_ids(n: nat) -> Seq<AtomID> {
    Seq::new(n, |i: int| AtomID(i as u32))
}

/// Whether the dictionary of atoms lists the atoms in the order of their
/// identifiers, each once and under its name.
pub open spec fn atoms_ok(st: AtomState) -> bool {
    &&& st.atoms.len() == st.ctx.len()
    &&& st.ctx.len() <= u32::MAX + 1
    &&& forall|i: int|
        0 <= i < st.atoms.len() ==> (#[trigger] st.atoms[i]).0 == st.ctx[i].0 && st.atoms[i].1.0
            == i
    &&& forall|i: int, j: int|
        0 <= i < j < st.atoms.len() ==> (#[trigger] st.atoms[i]).0@ != (#[trigger] st.atoms[j]).0@
}

/// Looking up its own atoms finds each under its own identifier and adds
/// none.
proof fn lemma_intern_self(st: AtomState, k: nat)
    requires
        atoms_ok(st),
        k <= st.ctx.len(),
    ensures
        intern_all(st, st.ctx, atom_ids(k), k) == Some((st, atom_ids(st.ctx.len()))),
    decreases st.ctx.len() - k,
{
    if k < st.ctx.len() {
        let name = st.ctx[k as int].0;
        assert(st.atoms[k as int].0 == name);
        lemma_position(st.atoms, name@);
        let p = position(st.atoms, name@)->Some_0;
        if p < k {
            assert(st.atoms[p].0@ != st.atoms[k as int].0@);
        }
        assert(intern(st, name) == Some((st, AtomID(k as u32))));
        assert(atom_ids(k).push(AtomID(k as u32)) =~= atom_ids(k + 1));
        lemma_intern_self(st, k + 1);
    }
}

/// Giving each atom its own value, renumbered by the identity, changes no
/// value.
proof fn lemma_assign_self(ctx: Seq<(String, LispVal)>, k: nat)
    requires
        k <= ctx.len(),
        ctx.len() <= u32::MAX + 1,
    ensures
        assign_all(ctx, ctx, atom_ids(ctx.len()), k) == ctx,
    decreases ctx.len() - k,
{
    if k < ctx.len() {
        let map = atom_ids(ctx.len());
        let v = ctx[k as int].1;
        assert(remap_lisp(v, map) == v) by {
            match v {
                LispVal::Undef => {},
                LispVal::Atom(a) => {
                    if a.0 < map.len() {
                        assert(map[a.0 as int] == a);
                    }
                },
            }
        }
        assert(ctx.update(k as int, (ctx[k as int].0, v)) =~= ctx);
        lemma_assign_self(ctx, k + 1);
    }
}

/// Merging its own atoms into an environment changes nothing.
pub proof fn lemma_atoms_self(st: AtomState)
    requires
        atoms_ok(st),
    ensures
        merge_atoms(st, st.ctx) == Some(st),
{
    assert(atom_ids(0) =~= Seq::<AtomID>::empty());
    lemma_intern_self(st, 0);
    lemma_assign_self(st.ctx, 0);
}

/// Merging a well-formed environment into itself gives that environment
/// and renumbers nothing, provided that its tables of terms and theorems
/// are not full, that replaying its declared coercions adds no coercion,
/// and that its table of provable targets is that of its graph if the
/// graph has one.
pub proof fn lemma_merge_self(e: Environment, sp: Span, errors: Seq<ElabErrorView>)
    requires
        e.wf(),
        e.terms@.len() <= u32::MAX,
        e.thms@.len() <= u32::MAX,
        merge_coes(e.pe.coes@, errors, e.pe.coes@, e.sorts@, no_remap(), sp, 0).0 == e.pe.coes@,
        prov_table(e.pe.coes@, e.sorts@, sp) is Ok ==> prov_table(e.pe.coes@, e.sorts@, sp)->Ok_0
            == e.pe.coe_prov@,
    ensures
        merge_env(e@, e@, sp, errors) is Ok,
        merge_env(e@, e@, sp, errors)->Ok_0.0 == e@,
        merge_env(e@, e@, sp, errors)->Ok_0.1 == no_remap(),
{
    if e.stmts@.len() > 0 {
        let st0 = MergeState { decls: e.decls(), remap: no_remap(), errors };
        lemma_replay_own_history(e, st0, sp, 0);
        assert(e.pe.consts.wf() && e.pe.prefixes.wf() && e.pe.infixes.wf() && keys_distinct(
            e.pe.prec_assoc@,
        ) && atoms_ok(e.atom_state())) by {
            reveal(Environment::wf);
        }
        let pe = e.pe@;
        lemma_consts_self(pe.consts, errors, sp, 0);
        lemma_precs_self(pe.prec_assoc, errors, sp, 0);
        assert forall|i: int, j: int| 0 <= i < j < pe.prefixes.len() implies (
        #[trigger] pe.prefixes[i]).0@ != (#[trigger] pe.prefixes[j]).0@ by {
            assert(e.pe.prefixes@[i].0@ != e.pe.prefixes@[j].0@);
        }
        assert forall|i: int, j: int| 0 <= i < j < pe.infixes.len() implies (
        #[trigger] pe.infixes[i]).0@ != (#[trigger] pe.infixes[j]).0@ by {
            assert(e.pe.infixes@[i].0@ != e.pe.infixes@[j].0@);
        }
        lemma_notas_self(pe.prefixes, errors, sp, 0);
        lemma_notas_self(pe.infixes, errors, sp, 0);
        lemma_atoms_self(e.atom_state());
        let merged = merge_pe(pe, errors, pe, e.sorts@, no_remap(), sp).0;
        assert(merged.delims_l =~= pe.delims_l);
        assert(merged.delims_r =~= pe.delims_r);
        assert(merged == pe);
    }
}

} // verus!
