//! Copying an environment and merging one environment into another.

use crate::atoms::{intern_end, merge_atoms, AtomState};
use crate::coe::Coe;
use crate::coercions::{graph_in_range, Edge};
use crate::delims::Delims;
use crate::environment::{
    lemma_graph_in_range_mono, Environment, LispVal, Sort, StmtTrace,
};
use crate::error::{error_views, ElabError, ElabErrorView};
use crate::expr::{Term, Thm};
use crate::ids::{AtomVec, SortVec, TermVec, ThmVec};
use crate::merge::{
    lemma_merge_stmts_end, merge_stmts, merge_stmts_end, plain_error, term_views, thm_views,
    DeclState, MergeState,
};
use crate::names::NameMap;
use crate::parser_env::{NotaInfo, ParserEnv};
use crate::pe_merge::{merge_pe, nota_views, PeState};
use crate::remap::{
    is_identity, lemma_remap_term_identity, lemma_remap_thm_identity, lemma_term_remaps,
    lemma_thm_remaps, Remap, RemapView, Remapper,
};
use crate::syntax::Span;
use vstd::prelude::*;

verus! {

/// Mathematical content of an environment.
pub struct EnvView {
    pub decls: DeclState,
    pub pe: PeState,
    pub atoms: AtomState,
}

impl Environment {
    pub open spec fn view(&self) -> EnvView {
        EnvView { decls: self.decls(), pe: self.pe@, atoms: self.atom_state() }
    }
}

/// The environment `env` after `other` was merged into it, the
/// renumbering of the sorts, terms and theorems of `other`, and `errors`
/// with what clashed added to it; or the error that made the merge fail.
///
/// An environment without declarations becomes a copy of `other`.
/// Otherwise the history of `other` is replayed, then its notations and
/// coercions are merged, and at last its atoms.
pub open spec fn merge_env(env: EnvView, other: EnvView, sp: Span, errors: Seq<ElabErrorView>) -> Result<
    (EnvView, RemapView, Seq<ElabErrorView>),
    ElabErrorView,
> {
    let no_remap = RemapView { sort: Seq::empty(), term: Seq::empty(), thm: Seq::empty() };
    if env.decls.stmts.len() == 0 {
        Ok((other, no_remap, errors))
    } else {
        match merge_stmts(
            MergeState { decls: env.decls, remap: no_remap, errors },
            other.decls,
            sp,
            0,
        ) {
            Err(e) => Err(e),
            Ok(st) => {
                let pe = merge_pe(env.pe, st.errors, other.pe, st.decls.sorts, st.remap, sp);
                match merge_atoms(env.atoms, other.atoms.ctx) {
                    None => Err(plain_error(sp, "too many atoms"@)),
                    Some(a) => Ok((EnvView { decls: st.decls, pe: pe.0, atoms: a }, st.remap, pe.1)),
                }
            },
        }
    }
}

/// What the environment `env` and the errors `errors` hold after `other`
/// was merged into `env`, whether the merge succeeds or fails.
///
/// A merge that fails while the history of `other` is replayed leaves
/// what the steps before the failing one made of the declarations and
/// the errors, and the notations, coercions and atoms as they were. A
/// merge that fails for want of an identifier for an atom leaves the
/// merged declarations, notations and coercions, and the atoms that were
/// looked up before that one.
pub open spec fn merge_env_end(env: EnvView, other: EnvView, sp: Span, errors: Seq<ElabErrorView>) -> (
    EnvView,
    Seq<ElabErrorView>,
) {
    let no_remap = RemapView { sort: Seq::empty(), term: Seq::empty(), thm: Seq::empty() };
    let st0 = MergeState { decls: env.decls, remap: no_remap, errors };
    if env.decls.stmts.len() == 0 {
        (other, errors)
    } else {
        let st = merge_stmts_end(st0, other.decls, sp, 0);
        if merge_stmts(st0, other.decls, sp, 0) is Err {
            (EnvView { decls: st.decls, pe: env.pe, atoms: env.atoms }, st.errors)
        } else {
            let pe = merge_pe(env.pe, st.errors, other.pe, st.decls.sorts, st.remap, sp);
            (
                EnvView {
                    decls: st.decls,
                    pe: pe.0,
                    atoms: match merge_atoms(env.atoms, other.atoms.ctx) {
                        Some(a) => a,
                        None => intern_end(env.atoms, other.atoms.ctx, 0),
                    },
                },
                pe.1,
            )
        }
    }
}

fn clone_names<V: Copy>(m: &NameMap<V>) -> (r: NameMap<V>)
    ensures
        r@ == m@,
{
    let mut out: Vec<(String, V)> = Vec::new();
    let mut i: usize = 0;
    while i < m.entries.len()
        invariant
            0 <= i <= m@.len(),
            out@ == m@.subrange(0, i as int),
        decreases m@.len() - i,
    {
        let v: V = m.entries[i].1;
        out.push((m.entries[i].0.clone(), v));
        i += 1;
        assert(out@ =~= m@.subrange(0, i as int));
    }
    assert(m@.subrange(0, i as int) =~= m@);
    NameMap { entries: out }
}

fn clone_pairs<A: Copy, B: Copy>(v: &Vec<(A, B)>) -> (r: Vec<(A, B)>)
    ensures
        r@ == v@,
{
    let mut out: Vec<(A, B)> = Vec::new();
    let mut i: usize = 0;
    while i < v.len()
        invariant
            0 <= i <= v@.len(),
            out@ == v@.subrange(0, i as int),
        decreases v@.len() - i,
    {
        let a: A = v[i].0;
        let b: B = v[i].1;
        out.push((a, b));
        i += 1;
        assert(out@ =~= v@.subrange(0, i as int));
    }
    assert(v@.subrange(0, i as int) =~= v@);
    out
}

fn clone_sorts(v: &Vec<Sort>) -> (r: Vec<Sort>)
    ensures
        r@ == v@,
{
    let mut out: Vec<Sort> = Vec::new();
    let mut i: usize = 0;
    while i < v.len()
        invariant
            0 <= i <= v@.len(),
            out@ == v@.subrange(0, i as int),
        decreases v@.len() - i,
    {
        out.push(Sort { name: v[i].name.clone(), span: v[i].span, mods: v[i].mods });
        i += 1;
        assert(out@ =~= v@.subrange(0, i as int));
    }
    assert(v@.subrange(0, i as int) =~= v@);
    out
}

fn clone_stmts(v: &Vec<StmtTrace>) -> (r: Vec<StmtTrace>)
    ensures
        r@ == v@,
{
    let mut out: Vec<StmtTrace> = Vec::new();
    let mut i: usize = 0;
    while i < v.len()
        invariant
            0 <= i <= v@.len(),
            out@ == v@.subrange(0, i as int),
        decreases v@.len() - i,
    {
        let s = match &v[i] {
            StmtTrace::Sort(n) => StmtTrace::Sort(n.clone()),
            StmtTrace::Decl(n) => StmtTrace::Decl(n.clone()),
        };
        out.push(s);
        i += 1;
        assert(out@ =~= v@.subrange(0, i as int));
    }
    assert(v@.subrange(0, i as int) =~= v@);
    out
}

fn clone_ctx(v: &Vec<(String, LispVal)>) -> (r: Vec<(String, LispVal)>)
    ensures
        r@ == v@,
{
    let mut out: Vec<(String, LispVal)> = Vec::new();
    let mut i: usize = 0;
    while i < v.len()
        invariant
            0 <= i <= v@.len(),
            out@ == v@.subrange(0, i as int),
        decreases v@.len() - i,
    {
        let x: LispVal = v[i].1;
        out.push((v[i].0.clone(), x));
        i += 1;
        assert(out@ =~= v@.subrange(0, i as int));
    }
    assert(v@.subrange(0, i as int) =~= v@);
    out
}

fn clone_coes(v: &Vec<Edge>) -> (r: Vec<Edge>)
    ensures
        r@ == v@,
{
    let mut out: Vec<Edge> = Vec::new();
    let mut i: usize = 0;
    while i < v.len()
        invariant
            0 <= i <= v@.len(),
            out@ == v@.subrange(0, i as int),
        decreases v@.len() - i,
    {
        out.push((v[i].0, v[i].1.clone()));
        i += 1;
        assert(out@ =~= v@.subrange(0, i as int));
    }
    assert(v@.subrange(0, i as int) =~= v@);
    out
}

fn clone_notas(m: &NameMap<NotaInfo>) -> (r: NameMap<NotaInfo>)
    ensures
        nota_views(r@) == nota_views(m@),
        m.wf() ==> r.wf(),
{
    let none = Remapper::new();
    let mut out: Vec<(String, NotaInfo)> = Vec::new();
    let mut i: usize = 0;
    while i < m.entries.len()
        invariant
            0 <= i <= m@.len(),
            is_identity(none@),
            out@.len() == i,
            forall|j: int|
                0 <= j < i ==> (#[trigger] out@[j]).0 == m@[j].0 && out@[j].1@ == m@[j].1@,
        decreases m@.len() - i,
    {
        let n: NotaInfo = m.entries[i].1.remap(&none);
        proof {
            let a = m@[i as int].1;
            assert(a.lits.remaps_to(&none, &n.lits));
            assert forall|k: int| 0 <= k < a.lits@.len() implies a.lits@[k] == n.lits@[k] by {
                assert(a.lits@[k].remaps_to(&none, &n.lits@[k]));
            }
            assert(n.lits@ =~= a.lits@);
        }
        out.push((m.entries[i].0.clone(), n));
        i += 1;
    }
    let r = NameMap { entries: out };
    assert(nota_views(r@) =~= nota_views(m@));
    r
}

fn clone_terms(v: &Vec<Term>) -> (r: Vec<Term>)
    ensures
        term_views(r@) == term_views(v@),
{
    let none = Remapper::new();
    let mut out: Vec<Term> = Vec::new();
    let mut i: usize = 0;
    while i < v.len()
        invariant
            0 <= i <= v@.len(),
            is_identity(none@),
            out@.len() == i,
            forall|j: int| 0 <= j < i ==> (#[trigger] out@[j])@ == v@[j]@,
        decreases v@.len() - i,
    {
        let t: Term = v[i].remap(&none);
        proof {
            lemma_term_remaps(v@[i as int], none, t);
            lemma_remap_term_identity(v@[i as int]@, none@);
        }
        out.push(t);
        i += 1;
    }
    assert(term_views(out@) =~= term_views(v@));
    out
}

fn clone_thms(v: &Vec<Thm>) -> (r: Vec<Thm>)
    ensures
        thm_views(r@) == thm_views(v@),
{
    let none = Remapper::new();
    let mut out: Vec<Thm> = Vec::new();
    let mut i: usize = 0;
    while i < v.len()
        invariant
            0 <= i <= v@.len(),
            is_identity(none@),
            out@.len() == i,
            forall|j: int| 0 <= j < i ==> (#[trigger] out@[j])@ == v@[j]@,
        decreases v@.len() - i,
    {
        let t: Thm = v[i].remap(&none);
        proof {
            lemma_thm_remaps(v@[i as int], none, t);
            lemma_remap_thm_identity(v@[i as int]@, none@);
        }
        out.push(t);
        i += 1;
    }
    assert(thm_views(out@) =~= thm_views(v@));
    out
}

impl ParserEnv {
    /// A copy of the registry.
    pub fn copy(&self) -> (r: ParserEnv)
        ensures
            r@ == self@,
            self.wf() ==> r.wf(),
    {
        let r = ParserEnv {
            delims_l: Delims(self.delims_l.0),
            delims_r: Delims(self.delims_r.0),
            consts: clone_names(&self.consts),
            prec_assoc: clone_pairs(&self.prec_assoc),
            prefixes: clone_notas(&self.prefixes),
            infixes: clone_notas(&self.infixes),
            coes: clone_coes(&self.coes),
            coe_prov: clone_pairs(&self.coe_prov),
        };
        proof {
            assert(crate::pe_merge::delims_view(r.delims_l) =~= crate::pe_merge::delims_view(
                self.delims_l,
            ));
            assert(crate::pe_merge::delims_view(r.delims_r) =~= crate::pe_merge::delims_view(
                self.delims_r,
            ));
        }
        r
    }
}

/// An environment with the same dictionaries, tables of the same length,
/// the same history and the same coercions as a well-formed environment is
/// well formed.
proof fn lemma_wf_same(a: Environment, b: Environment)
    requires
        a.wf(),
        b.sort_keys@ == a.sort_keys@,
        b.sorts@ == a.sorts@,
        b.decl_keys@ == a.decl_keys@,
        b.terms@.len() == a.terms@.len(),
        b.thms@.len() == a.thms@.len(),
        b.atoms@ == a.atoms@,
        b.lisp_ctx@ == a.lisp_ctx@,
        b.stmts@ == a.stmts@,
        b.pe.wf(),
        b.pe.coes@ == a.pe.coes@,
    ensures
        b.wf(),
{
    reveal(Environment::wf);
}

impl Environment {
    /// A copy of the environment.
    pub fn copy(&self) -> (r: Environment)
        ensures
            r@ == self@,
            self.wf() ==> r.wf(),
    {
        let sort_keys = clone_names(&self.sort_keys);
        let sorts = SortVec(clone_sorts(&self.sorts.0));
        let pe = self.pe.copy();
        let decl_keys = clone_names(&self.decl_keys);
        let terms = TermVec(clone_terms(&self.terms.0));
        let thms = ThmVec(clone_thms(&self.thms.0));
        let atoms = clone_names(&self.atoms);
        let lisp_ctx = AtomVec(clone_ctx(&self.lisp_ctx.0));
        let stmts = clone_stmts(&self.stmts);
        let r = Environment {
            sort_keys,
            sorts,
            pe,
            decl_keys,
            terms,
            thms,
            atoms,
            lisp_ctx,
            stmts,
        };
        proof {
            assert(r.decls() == self.decls());
            assert(r.atom_state() == self.atom_state());
            assert(r.terms@.len() == self.terms@.len()) by {
                assert(term_views(r.terms@).len() == term_views(self.terms@).len());
            }
            assert(r.thms@.len() == self.thms@.len()) by {
                assert(thm_views(r.thms@).len() == thm_views(self.thms@).len());
            }
            if self.wf() {
                assert(self.pe.wf() && r.pe.coes@ == self.pe.coes@) by {
                    reveal(Environment::wf);
                }
                lemma_wf_same(*self, r);
            }
        }
        r
    }

    /// Merges `other` into an environment that has declarations.
    fn merge_into(&mut self, other: &Environment, sp: Span, errors: &mut Vec<ElabError>) -> (r:
        Result<Remapper, ElabError>)
        requires
            old(self).wf(),
            other.wf(),
            old(self).stmts@.len() > 0,
        ensures
            final(self).wf(),
            match merge_env(old(self)@, other@, sp, error_views(old(errors)@)) {
                Ok((env, remap, errs)) => {
                    &&& r is Ok
                    &&& final(self)@ == env
                    &&& r->Ok_0@ == remap
                    &&& error_views(final(errors)@) == errs
                },
                Err(e) => r is Err && r->Err_0@ == e,
            },
            final(self)@ == merge_env_end(old(self)@, other@, sp, error_views(old(errors)@)).0,
            error_views(final(errors)@) == merge_env_end(
                old(self)@,
                other@,
                sp,
                error_views(old(errors)@),
            ).1,
    {
        let mut remap = Remapper::new();
        let ghost st0 = MergeState {
            decls: self.decls(),
            remap: remap@,
            errors: error_views(errors@),
        };
        match self.merge_decls(other, sp, &mut remap, errors) {
            Err(e) => {
                return Err(e);
            },
            Ok(()) => {},
        }
        let ghost st = merge_stmts(st0, other.decls(), sp, 0)->Ok_0;
        proof {
            lemma_merge_stmts_end(st0, other.decls(), sp, 0);
            reveal(Environment::wf);
            lemma_graph_in_range_mono(other.pe.coes@, other.sorts@.len(), self.sorts@.len());
            assert(self.decls() == st.decls);
        }
        let ghost pe0 = self.pe@;
        self.pe.merge(&other.pe, &remap, sp, &self.sorts, errors);
        let ghost decls1 = self.decls();
        proof {
            assert(decls1 == st.decls);
        }
        let ok = self.merge_atoms(other);
        proof {
            assert(self.decls() == decls1);
        }
        if !ok {
            return Err(ElabError::new_e(sp, "too many atoms"));
        }
        Ok(remap)
    }

    /// Merges `other` into the environment.
    ///
    /// An environment without declarations becomes a copy of `other`.
    /// Otherwise the history of `other` is replayed: what the environment
    /// lacks is added, renumbered where its identifiers differ, and what
    /// it has is found again. Then the notations and coercions of `other`
    /// are merged, and at last its atoms. What clashes but can be
    /// resolved is added to `errors`; a name that is a term in one
    /// environment and a theorem in the other, or a declaration that is
    /// new and finds no identifier left, makes the merge fail; then the environment and `errors` hold what
    /// was merged up to the failure. The renumbering of the sorts, terms
    /// and theorems of `other` is returned.
    pub fn merge(&mut self, other: &Environment, sp: Span, errors: &mut Vec<ElabError>) -> (r:
        Result<Remapper, ElabError>)
        requires
            old(self).wf(),
            other.wf(),
        ensures
            final(self).wf(),
            match merge_env(old(self)@, other@, sp, error_views(old(errors)@)) {
                Ok((env, remap, errs)) => {
                    &&& r is Ok
                    &&& final(self)@ == env
                    &&& r->Ok_0@ == remap
                    &&& error_views(final(errors)@) == errs
                },
                Err(e) => r is Err && r->Err_0@ == e,
            },
            final(self)@ == merge_env_end(old(self)@, other@, sp, error_views(old(errors)@)).0,
            error_views(final(errors)@) == merge_env_end(
                old(self)@,
                other@,
                sp,
                error_views(old(errors)@),
            ).1,
    {
        if self.stmts.len() == 0 {
            *self = other.copy();
            Ok(Remapper::new())
        } else {
            self.merge_into(other, sp, errors)
        }
    }
}

} // verus!
