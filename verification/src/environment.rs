//! The environment: sorts, terms, theorems and the order of their
//! declaration.

use crate::coe::Coe;
use crate::coercions::{add_all, edge_in_range, graph_in_range, prov_table, schedule, Edge};
use crate::error::{
    push_note, quote, quoted, related_view, AddItemError, ElabError, ElabErrorView,
    RedeclarationError,
};
use crate::expr::{Term, Thm};
use crate::ids::{AtomID, AtomVec, SortID, SortVec, TermID, TermVec, ThmID, ThmVec};
use crate::names::{lemma_position, lemma_position_push, position, NameMap};
use crate::parser_env::ParserEnv;
use crate::merge::{sort_admission, term_admission, thm_admission};
use crate::syntax::{FileSpan, Modifiers, Span};
use vstd::prelude::*;
use vstd::string::*;

verus! {

/// A sort.
#[derive(Debug)]
pub struct Sort {
    pub name: String,
    pub span: FileSpan,
    pub mods: Modifiers,
}

/// One step of the history of an environment: the declaration of a sort,
/// or of a term or theorem.
#[derive(Debug)]
pub enum StmtTrace {
    Sort(String),
    Decl(String),
}

/// What the name of a declaration stands for.
#[derive(Copy, Clone, Debug, PartialEq, Eq, Structural)]
pub enum DeclKey {
    Term(TermID),
    Thm(ThmID),
}

/// A value of the scripting layer, as far as the environment looks into
/// it: nothing yet, or an atom.
#[derive(Copy, Clone, Debug, PartialEq, Eq, Structural)]
pub enum LispVal {
    Undef,
    Atom(AtomID),
}

/// An environment.
#[derive(Debug)]
pub struct Environment {
    pub sort_keys: NameMap<SortID>,
    pub sorts: SortVec<Sort>,
    pub pe: ParserEnv,
    pub decl_keys: NameMap<DeclKey>,
    pub terms: TermVec<Term>,
    pub thms: ThmVec<Thm>,
    pub atoms: NameMap<AtomID>,
    pub lisp_ctx: AtomVec<(String, LispVal)>,
    pub stmts: Vec<StmtTrace>,
}

/// The most sorts that an environment holds.
pub const MAX_SORTS: usize = 128;

/// The number of terms among the first `k` declarations.
pub open spec fn count_terms(keys: Seq<(String, DeclKey)>, k: int) -> nat
    decreases k,
{
    if k <= 0 {
        0
    } else {
        count_terms(keys, k - 1) + (if keys[k - 1].1 is Term {
            1nat
        } else {
            0nat
        })
    }
}

/// The number of theorems among the first `k` declarations.
pub open spec fn count_thms(keys: Seq<(String, DeclKey)>, k: int) -> nat
    decreases k,
{
    if k <= 0 {
        0
    } else {
        count_thms(keys, k - 1) + (if keys[k - 1].1 is Thm {
            1nat
        } else {
            0nat
        })
    }
}

/// The number of sorts among the first `k` steps of a history.
pub open spec fn count_sort_stmts(stmts: Seq<StmtTrace>, k: int) -> nat
    decreases k,
{
    if k <= 0 {
        0
    } else {
        count_sort_stmts(stmts, k - 1) + (if stmts[k - 1] is Sort {
            1nat
        } else {
            0nat
        })
    }
}

/// The number of terms and theorems among the first `k` steps of a
/// history.
pub open spec fn count_decl_stmts(stmts: Seq<StmtTrace>, k: int) -> nat
    decreases k,
{
    if k <= 0 {
        0
    } else {
        count_decl_stmts(stmts, k - 1) + (if stmts[k - 1] is Decl {
            1nat
        } else {
            0nat
        })
    }
}

/// The dictionary of sorts lists the sorts in the order of their
/// identifiers, each under its name.
pub open spec fn sort_table_ok(keys: Seq<(String, SortID)>, sorts: Seq<Sort>) -> bool {
    &&& keys.len() == sorts.len()
    &&& sorts.len() <= MAX_SORTS
    &&& forall|i: int|
        0 <= i < keys.len() ==> (#[trigger] keys[i]).0 == sorts[i].name && keys[i].1.0 == i
}

/// The dictionary of declarations gives the terms the identifiers 0, 1, 2
/// and so on in the order of their declaration, and likewise the
/// theorems.
pub open spec fn decl_table_ok(keys: Seq<(String, DeclKey)>, nterms: nat, nthms: nat) -> bool {
    &&& count_terms(keys, keys.len() as int) == nterms
    &&& count_thms(keys, keys.len() as int) == nthms
    &&& nterms <= u32::MAX + 1
    &&& nthms <= u32::MAX + 1
    &&& forall|k: int|
        0 <= k < keys.len() ==> match (#[trigger] keys[k]).1 {
            DeclKey::Term(t) => t.0 == count_terms(keys, k),
            DeclKey::Thm(t) => t.0 == count_thms(keys, k),
        }
}

/// The history lists the sorts in the order of the dictionary of sorts and
/// the declarations in the order of the dictionary of declarations.
pub open spec fn trace_ok(
    stmts: Seq<StmtTrace>,
    sort_keys: Seq<(String, SortID)>,
    decl_keys: Seq<(String, DeclKey)>,
) -> bool {
    &&& count_sort_stmts(stmts, stmts.len() as int) == sort_keys.len()
    &&& count_decl_stmts(stmts, stmts.len() as int) == decl_keys.len()
    &&& forall|k: int|
        0 <= k < stmts.len() ==> match #[trigger] stmts[k] {
            StmtTrace::Sort(n) => n == sort_keys[count_sort_stmts(stmts, k) as int].0,
            StmtTrace::Decl(n) => n == decl_keys[count_decl_stmts(stmts, k) as int].0,
        }
}

/// The dictionary of atoms lists the atoms in the order of their
/// identifiers, each under its name.
pub open spec fn atom_table_ok(keys: Seq<(String, AtomID)>, ctx: Seq<(String, LispVal)>) -> bool {
    &&& keys.len() == ctx.len()
    &&& ctx.len() <= u32::MAX + 1
    &&& forall|i: int|
        0 <= i < keys.len() ==> (#[trigger] keys[i]).0 == ctx[i].0 && keys[i].1.0 == i
}

/// A count over a prefix does not see what is added behind it.
pub proof fn lemma_count_decls_push(keys: Seq<(String, DeclKey)>, e: (String, DeclKey), k: int)
    requires
        k <= keys.len(),
    ensures
        count_terms(keys.push(e), k) == count_terms(keys, k),
        count_thms(keys.push(e), k) == count_thms(keys, k),
    decreases k,
{
    if k > 0 {
        lemma_count_decls_push(keys, e, k - 1);
    }
}

/// A count over a prefix does not see what is added behind it.
pub proof fn lemma_count_stmts_push(stmts: Seq<StmtTrace>, e: StmtTrace, k: int)
    requires
        k <= stmts.len(),
    ensures
        count_sort_stmts(stmts.push(e), k) == count_sort_stmts(stmts, k),
        count_decl_stmts(stmts.push(e), k) == count_decl_stmts(stmts, k),
    decreases k,
{
    if k > 0 {
        lemma_count_stmts_push(stmts, e, k - 1);
    }
}

/// A count over a prefix is at most the count over the whole.
pub proof fn lemma_count_stmts_mono(stmts: Seq<StmtTrace>, j: int, k: int)
    requires
        j <= k,
    ensures
        count_sort_stmts(stmts, j) <= count_sort_stmts(stmts, k),
        count_decl_stmts(stmts, j) <= count_decl_stmts(stmts, k),
    decreases k - j,
{
    if j < k {
        lemma_count_stmts_mono(stmts, j, k - 1);
    }
}

/// A count over a prefix is at most the count over the whole.
pub proof fn lemma_count_decls_mono(keys: Seq<(String, DeclKey)>, j: int, k: int)
    requires
        j <= k,
    ensures
        count_terms(keys, j) <= count_terms(keys, k),
        count_thms(keys, j) <= count_thms(keys, k),
    decreases k - j,
{
    if j < k {
        lemma_count_decls_mono(keys, j, k - 1);
    }
}

/// A path through the first `n` sorts is a path through the first `m`
/// sorts for every larger `m`.
pub proof fn lemma_sorts_below_mono(c: Coe, n: nat, m: nat)
    requires
        n <= m,
        c.sorts_below(n),
    ensures
        c.sorts_below(m),
    decreases c,
{
    match c {
        Coe::One(_, _) => {},
        Coe::Trans(c1, _, c2) => {
            lemma_sorts_below_mono(*c1, n, m);
            lemma_sorts_below_mono(*c2, n, m);
        },
    }
}

/// A graph within the first `n` sorts is within the first `m` sorts for
/// every larger `m`.
pub proof fn lemma_graph_in_range_mono(coes: Seq<Edge>, n: nat, m: nat)
    requires
        n <= m,
        graph_in_range(coes, n),
    ensures
        graph_in_range(coes, m),
{
    assert forall|i: int| 0 <= i < coes.len() implies edge_in_range(#[trigger] coes[i], m) by {
        assert(edge_in_range(coes[i], n));
        lemma_sorts_below_mono(coes[i].1, n, m);
    }
}

/// What declaring a sort comes to.
pub enum SortAdmission {
    /// There is no identifier left.
    Overflow,
    /// The sort is declared with these modifiers already.
    Known(SortID),
    /// The sort is declared with other modifiers.
    Clash(SortID),
    /// The name is new.
    Fresh,
}

/// What declaring a term or theorem comes to.
pub enum DeclAdmission<A> {
    /// There is no identifier left.
    Overflow,
    /// A declaration of the same kind and name was made at the same place.
    Known(A),
    /// The name is taken, by a declaration of the same kind (whose
    /// identifier is given) or of the other kind, made at the place given.
    Clash(Option<A>, FileSpan),
    /// The name is new.
    Fresh,
}

impl Environment {
    /// An environment without declarations.
    pub fn new() -> (r: Environment)
        ensures
            r.wf(),
            r.sorts@.len() == 0,
            r.terms@.len() == 0,
            r.thms@.len() == 0,
            r.stmts@.len() == 0,
            r.sort_keys@.len() == 0,
            r.decl_keys@.len() == 0,
            r.atoms@.len() == 0,
            r.lisp_ctx@.len() == 0,
            r.pe.coes@.len() == 0,
            r.pe.coe_prov@.len() == 0,
            r.pe.consts@.len() == 0,
            r.pe.prec_assoc@.len() == 0,
            r.pe.prefixes@.len() == 0,
            r.pe.infixes@.len() == 0,
            forall|c: u8| !r.pe.delims_l.spec_get(c) && !r.pe.delims_r.spec_get(c),
    {
        proof {
            reveal(Environment::wf);
        }
        Environment {
            sort_keys: NameMap::new(),
            sorts: SortVec::new(),
            pe: ParserEnv::new(),
            decl_keys: NameMap::new(),
            terms: TermVec::new(),
            thms: ThmVec::new(),
            atoms: NameMap::new(),
            lisp_ctx: AtomVec::new(),
            stmts: Vec::new(),
        }
    }

    /// The dictionaries agree with the tables, identifiers are given in
    /// the order of declaration without gaps, the history lists the
    /// declarations in that order, and the coercions join sorts of the
    /// environment without cycle or diamond.
    #[verifier::opaque]
    pub open spec fn wf(&self) -> bool {
        &&& self.sort_keys.wf()
        &&& self.decl_keys.wf()
        &&& self.atoms.wf()
        &&& self.pe.wf()
        &&& sort_table_ok(self.sort_keys@, self.sorts@)
        &&& decl_table_ok(self.decl_keys@, self.terms@.len(), self.thms@.len())
        &&& trace_ok(self.stmts@, self.sort_keys@, self.decl_keys@)
        &&& atom_table_ok(self.atoms@, self.lisp_ctx@)
        &&& graph_in_range(self.pe.coes@, self.sorts@.len())
    }

    /// The identifier of the term `s`, if `s` names a term and not a
    /// theorem.
    pub fn term(&self, s: &str) -> (r: Option<TermID>)
        requires
            position(self.decl_keys@, s@) is Some,
        ensures
            r == (match self.decl_keys@[position(self.decl_keys@, s@)->Some_0].1 {
                DeclKey::Term(i) => Some(i),
                DeclKey::Thm(_) => None,
            }),
    {
        let key: String = s.to_owned();
        match self.decl_keys.find(&key) {
            Some(k) => match self.decl_keys.entries[k].1 {
                DeclKey::Term(i) => Some(i),
                DeclKey::Thm(_) => None,
            },
            None => None,
        }
    }

    /// The identifier of the theorem `s`, if `s` names a theorem and not a
    /// term.
    pub fn thm(&self, s: &str) -> (r: Option<ThmID>)
        requires
            position(self.decl_keys@, s@) is Some,
        ensures
            r == (match self.decl_keys@[position(self.decl_keys@, s@)->Some_0].1 {
                DeclKey::Thm(i) => Some(i),
                DeclKey::Term(_) => None,
            }),
    {
        let key: String = s.to_owned();
        match self.decl_keys.find(&key) {
            Some(k) => match self.decl_keys.entries[k].1 {
                DeclKey::Thm(i) => Some(i),
                DeclKey::Term(_) => None,
            },
            None => None,
        }
    }

    /// Declares the sort `s` with the modifiers `sd`.
    ///
    /// A new name gets the next identifier and is entered in the history.
    /// A name that is declared with the same modifiers keeps its
    /// identifier; with other modifiers the declaration is refused, and
    /// the error carries that identifier. A new name is refused once all
    /// identifiers are given.
    pub fn add_sort(&mut self, s: String, fsp: FileSpan, sd: Modifiers) -> (r: Result<
        SortID,
        AddItemError<SortID>,
    >)
        requires
            old(self).wf(),
        ensures
            final(self).wf(),
            match sort_admission(old(self).decls(), s@, sd) {
                SortAdmission::Overflow => r matches Err(AddItemError::Overflow) && *final(self)
                    == *old(self),
                SortAdmission::Known(id) => r matches Ok(i) && i == id && *final(self) == *old(
                    self,
                ),
                SortAdmission::Clash(id) => {
                    &&& r matches Err(AddItemError::Redeclaration(i, e)) && i == id && e.msg@
                        == quoted("sort '"@, s@, "' redeclared"@) && e.othermsg@
                        == "previously declared here"@ && e.other == old(self).sorts@[id.0 as int].span
                    &&& *final(self) == *old(self)
                },
                SortAdmission::Fresh => {
                    &&& r matches Ok(i) && i.0 == old(self).sorts@.len()
                    &&& final(self).sorts@ == old(self).sorts@.push(
                        Sort { name: s, span: fsp, mods: sd },
                    )
                    &&& final(self).sort_keys@ == old(self).sort_keys@.push(
                        (s, SortID(old(self).sorts@.len() as u8)),
                    )
                    &&& final(self).stmts@ == old(self).stmts@.push(StmtTrace::Sort(s))
                    &&& final(self).pe == old(self).pe
                    &&& final(self).decl_keys == old(self).decl_keys
                    &&& final(self).terms == old(self).terms
                    &&& final(self).thms == old(self).thms
                    &&& final(self).atoms == old(self).atoms
                    &&& final(self).lisp_ctx == old(self).lisp_ctx
                },
            },
    {
        proof {
            reveal(Environment::wf);
        }
        let n: usize = self.sorts.len();
        match self.sort_keys.find(&s) {
            Some(k) => {
                let old_id: SortID = self.sort_keys.entries[k].1;
                let sort: &Sort = &self.sorts.0[old_id.0 as usize];
                if sd == sort.mods {
                    Ok(old_id)
                } else {
                    Err(
                        AddItemError::Redeclaration(
                            old_id,
                            RedeclarationError {
                                msg: quote("sort '", &s, "' redeclared"),
                                othermsg: String::from_str("previously declared here"),
                                other: sort.span,
                            },
                        ),
                    )
                }
            },
            None => {
                if n >= MAX_SORTS {
                    return Err(AddItemError::Overflow);
                }
                let new_id = SortID(n as u8);
                proof {
                    lemma_count_stmts_push(
                        self.stmts@,
                        StmtTrace::Sort(s),
                        self.stmts@.len() as int,
                    );
                    assert(self.stmts@.push(StmtTrace::Sort(s)).drop_last() =~= self.stmts@);
                    assert forall|k: int| 0 <= k < self.stmts@.len() implies count_sort_stmts(
                        self.stmts@.push(StmtTrace::Sort(s)),
                        k,
                    ) == count_sort_stmts(self.stmts@, k) && count_decl_stmts(
                        self.stmts@.push(StmtTrace::Sort(s)),
                        k,
                    ) == count_decl_stmts(self.stmts@, k) && (self.stmts@[k] is Sort
                        ==> count_sort_stmts(self.stmts@, k) < self.sort_keys@.len()) by {
                        lemma_count_stmts_push(self.stmts@, StmtTrace::Sort(s), k);
                        lemma_count_stmts_mono(self.stmts@, k + 1, self.stmts@.len() as int);
                    }
                    lemma_graph_in_range_mono(self.pe.coes@, n as nat, (n + 1) as nat);
                }
                self.sort_keys.push(s.clone(), new_id);
                self.sorts.push(Sort { name: s.clone(), span: fsp, mods: sd });
                self.stmts.push(StmtTrace::Sort(s));
                Ok(new_id)
            },
        }
    }

    /// The history and the dictionary of declarations stay in step when a
    /// declaration is added to both.
    proof fn lemma_push_decl(&self, s: String, key: DeclKey)
        requires
            self.wf(),
            position(self.decl_keys@, s@) is None,
        ensures
            trace_ok(
                self.stmts@.push(StmtTrace::Decl(s)),
                self.sort_keys@,
                self.decl_keys@.push((s, key)),
            ),
            count_terms(self.decl_keys@.push((s, key)), self.decl_keys@.len() as int + 1) == self.terms@.len()
                + (if key is Term {
                1nat
            } else {
                0nat
            }),
            count_thms(self.decl_keys@.push((s, key)), self.decl_keys@.len() as int + 1) == self.thms@.len()
                + (if key is Thm {
                1nat
            } else {
                0nat
            }),
            forall|k: int|
                0 <= k <= self.decl_keys@.len() ==> count_terms(
                    self.decl_keys@.push((s, key)),
                    k,
                ) == count_terms(self.decl_keys@, k) && count_thms(
                    self.decl_keys@.push((s, key)),
                    k,
                ) == count_thms(self.decl_keys@, k),
    {
        reveal(Environment::wf);
        let stmts2 = self.stmts@.push(StmtTrace::Decl(s));
        let keys2 = self.decl_keys@.push((s, key));
        lemma_count_stmts_push(self.stmts@, StmtTrace::Decl(s), self.stmts@.len() as int);
        lemma_count_decls_push(self.decl_keys@, (s, key), self.decl_keys@.len() as int);
        assert(stmts2.drop_last() =~= self.stmts@);
        assert(keys2.drop_last() =~= self.decl_keys@);
        assert forall|k: int| 0 <= k < self.stmts@.len() implies count_sort_stmts(stmts2, k)
            == count_sort_stmts(self.stmts@, k) && count_decl_stmts(stmts2, k) == count_decl_stmts(
            self.stmts@,
            k,
        ) && (self.stmts@[k] is Decl ==> count_decl_stmts(self.stmts@, k)
            < self.decl_keys@.len()) by {
            lemma_count_stmts_push(self.stmts@, StmtTrace::Decl(s), k);
            lemma_count_stmts_mono(self.stmts@, k + 1, self.stmts@.len() as int);
        }
        assert forall|k: int| 0 <= k <= self.decl_keys@.len() implies count_terms(keys2, k)
            == count_terms(self.decl_keys@, k) && count_thms(keys2, k) == count_thms(
            self.decl_keys@,
            k,
        ) by {
            lemma_count_decls_push(self.decl_keys@, (s, key), k);
        }
    }

    /// Declares the term `s` at the place `new`; `t` builds its record,
    /// and is called only if the name is new.
    ///
    /// A new name gets the next identifier and is entered in the history.
    /// A term of that name that was declared at the same place keeps its
    /// identifier. Any other declaration of that name makes this one
    /// a redeclaration; the error carries the identifier of the earlier
    /// declaration if that is a term, and the place where it was made.
    pub fn add_term<F: FnOnce() -> Term>(&mut self, s: String, new: FileSpan, t: F) -> (r: Result<
        TermID,
        AddItemError<Option<TermID>>,
    >)
        requires
            old(self).wf(),
            call_requires(t, ()),
        ensures
            final(self).wf(),
            match term_admission(old(self).decls(), s@, new) {
                DeclAdmission::Overflow => r matches Err(AddItemError::Overflow) && *final(self)
                    == *old(self),
                DeclAdmission::Known(id) => r matches Ok(i) && i == id && *final(self) == *old(
                    self,
                ),
                DeclAdmission::Clash(res, other) => {
                    &&& r matches Err(AddItemError::Redeclaration(x, e)) && x == res && e.msg@
                        == quoted("term '"@, s@, "' redeclared"@) && e.othermsg@
                        == "previously declared here"@ && e.other == other
                    &&& *final(self) == *old(self)
                },
                DeclAdmission::Fresh => {
                    &&& r matches Ok(i) && i.0 == old(self).terms@.len()
                    &&& exists|v: Term| #[trigger]
                        call_ensures(t, (), v) && final(self).terms@ == old(self).terms@.push(v)
                    &&& final(self).decl_keys@ == old(self).decl_keys@.push(
                        (s, DeclKey::Term(TermID(old(self).terms@.len() as u32))),
                    )
                    &&& final(self).stmts@ == old(self).stmts@.push(StmtTrace::Decl(s))
                    &&& final(self).pe == old(self).pe
                    &&& final(self).sort_keys == old(self).sort_keys
                    &&& final(self).sorts == old(self).sorts
                    &&& final(self).thms == old(self).thms
                    &&& final(self).atoms == old(self).atoms
                    &&& final(self).lisp_ctx == old(self).lisp_ctx
                },
            },
    {
        proof {
            reveal(Environment::wf);
        }
        let n: usize = self.terms.len();
        if n > 0xffff_ffff {
            return Err(AddItemError::Overflow);
        }
        let new_id = TermID(n as u32);
        proof {
            lemma_position(self.decl_keys@, s@);
        }
        match self.decl_keys.find(&s) {
            Some(k) => {
                proof {
                    lemma_count_decls_mono(self.decl_keys@, k + 1, self.decl_keys@.len() as int);
                }
                let (res, sp): (Option<TermID>, FileSpan) = match self.decl_keys.entries[k].1 {
                    DeclKey::Term(old_id) => {
                        let sp: FileSpan = self.terms.0[old_id.0 as usize].span;
                        if sp == new {
                            return Ok(old_id);
                        }
                        (Some(old_id), sp)
                    },
                    DeclKey::Thm(old_id) => (None, self.thms.0[old_id.0 as usize].span),
                };
                Err(
                    AddItemError::Redeclaration(
                        res,
                        RedeclarationError {
                            msg: quote("term '", &s, "' redeclared"),
                            othermsg: String::from_str("previously declared here"),
                            other: sp,
                        },
                    ),
                )
            },
            None => {
                proof {
                    self.lemma_push_decl(s, DeclKey::Term(new_id));
                }
                let v: Term = t();
                self.decl_keys.push(s.clone(), DeclKey::Term(new_id));
                self.terms.push(v);
                self.stmts.push(StmtTrace::Decl(s));
                Ok(new_id)
            },
        }
    }

    /// Declares the axiom or theorem `s` at the place `new`; `t` builds
    /// its record, and is called only if the name is new.
    ///
    /// A new name gets the next identifier and is entered in the history.
    /// A theorem of that name that was declared at the same place keeps
    /// its identifier. Any other declaration of that name makes this one
    /// a redeclaration; the error carries the identifier of the earlier
    /// declaration if that is a theorem, and the place where it was made.
    pub fn add_thm<F: FnOnce() -> Thm>(&mut self, s: String, new: FileSpan, t: F) -> (r: Result<
        ThmID,
        AddItemError<Option<ThmID>>,
    >)
        requires
            old(self).wf(),
            call_requires(t, ()),
        ensures
            final(self).wf(),
            match thm_admission(old(self).decls(), s@, new) {
                DeclAdmission::Overflow => r matches Err(AddItemError::Overflow) && *final(self)
                    == *old(self),
                DeclAdmission::Known(id) => r matches Ok(i) && i == id && *final(self) == *old(
                    self,
                ),
                DeclAdmission::Clash(res, other) => {
                    &&& r matches Err(AddItemError::Redeclaration(x, e)) && x == res && e.msg@
                        == quoted("theorem '"@, s@, "' redeclared"@) && e.othermsg@
                        == "previously declared here"@ && e.other == other
                    &&& *final(self) == *old(self)
                },
                DeclAdmission::Fresh => {
                    &&& r matches Ok(i) && i.0 == old(self).thms@.len()
                    &&& exists|v: Thm| #[trigger]
                        call_ensures(t, (), v) && final(self).thms@ == old(self).thms@.push(v)
                    &&& final(self).decl_keys@ == old(self).decl_keys@.push(
                        (s, DeclKey::Thm(ThmID(old(self).thms@.len() as u32))),
                    )
                    &&& final(self).stmts@ == old(self).stmts@.push(StmtTrace::Decl(s))
                    &&& final(self).pe == old(self).pe
                    &&& final(self).sort_keys == old(self).sort_keys
                    &&& final(self).sorts == old(self).sorts
                    &&& final(self).terms == old(self).terms
                    &&& final(self).atoms == old(self).atoms
                    &&& final(self).lisp_ctx == old(self).lisp_ctx
                },
            },
    {
        proof {
            reveal(Environment::wf);
        }
        let n: usize = self.thms.len();
        if n > 0xffff_ffff {
            return Err(AddItemError::Overflow);
        }
        let new_id = ThmID(n as u32);
        proof {
            lemma_position(self.decl_keys@, s@);
        }
        match self.decl_keys.find(&s) {
            Some(k) => {
                proof {
                    lemma_count_decls_mono(self.decl_keys@, k + 1, self.decl_keys@.len() as int);
                }
                let (res, sp): (Option<ThmID>, FileSpan) = match self.decl_keys.entries[k].1 {
                    DeclKey::Thm(old_id) => {
                        let sp: FileSpan = self.thms.0[old_id.0 as usize].span;
                        if sp == new {
                            return Ok(old_id);
                        }
                        (Some(old_id), sp)
                    },
                    DeclKey::Term(old_id) => (None, self.terms.0[old_id.0 as usize].span),
                };
                Err(
                    AddItemError::Redeclaration(
                        res,
                        RedeclarationError {
                            msg: quote("theorem '", &s, "' redeclared"),
                            othermsg: String::from_str("previously declared here"),
                            other: sp,
                        },
                    ),
                )
            },
            None => {
                proof {
                    self.lemma_push_decl(s, DeclKey::Thm(new_id));
                }
                let v: Thm = t();
                self.decl_keys.push(s.clone(), DeclKey::Thm(new_id));
                self.thms.push(v);
                self.stmts.push(StmtTrace::Decl(s));
                Ok(new_id)
            },
        }
    }

    /// Declares the term `t` a coercion from `s1` to `s2`, at the place
    /// `fsp`.
    ///
    /// The step and its compositions with one coercion that is there are
    /// added in order, up to the first that closes a cycle or a diamond,
    /// which is reported. If all are added, the table of provable targets
    /// is built anew; a sort with two provable targets is reported, and the
    /// table then stays as it was. After success the graph joins `s1` to
    /// `s2`, what was joined to `s1` to `s2` and `s1` to what `s2` was joined
    /// to, and the table names the one provable sort of every sort that has
    /// one.
    pub fn add_coe(&mut self, s1: SortID, s2: SortID, fsp: FileSpan, t: TermID) -> (r: Result<
        (),
        ElabError,
    >)
        requires
            old(self).wf(),
            s1.0 < old(self).sorts@.len(),
            s2.0 < old(self).sorts@.len(),
        ensures
            final(self).wf(),
            final(self).pe.same_notations(&old(self).pe),
            final(self).sort_keys == old(self).sort_keys,
            final(self).sorts == old(self).sorts,
            final(self).decl_keys == old(self).decl_keys,
            final(self).terms == old(self).terms,
            final(self).thms == old(self).thms,
            final(self).atoms == old(self).atoms,
            final(self).lisp_ctx == old(self).lisp_ctx,
            final(self).stmts == old(self).stmts,
            ({
                let res = add_all(
                    old(self).pe.coes@,
                    old(self).sorts@,
                    fsp.span,
                    schedule(old(self).pe.coes@, s1, s2, Coe::One(fsp, t)),
                    0,
                );
                &&& final(self).pe.coes@ == res.0
                &&& match res.1 {
                    Some(ev) => r is Err && r->Err_0@ == ev && final(self).pe.coe_prov@ == old(
                        self,
                    ).pe.coe_prov@,
                    None => match prov_table(res.0, old(self).sorts@, fsp.span) {
                        Ok(p) => r is Ok && final(self).pe.coe_prov@ == p,
                        Err(ev) => r is Err && r->Err_0@ == ev && final(self).pe.coe_prov@ == old(
                            self,
                        ).pe.coe_prov@,
                    },
                }
            }),
            r is Ok ==> crate::closure::closes(
                old(self).pe.coes@,
                final(self).pe.coes@,
                s1,
                s2,
            ) && crate::closure::provs_exact(
                final(self).pe.coes@,
                final(self).sorts@,
                final(self).pe.coe_prov@,
            ),
    {
        proof {
            reveal(Environment::wf);
        }
        let ghost coes0 = self.pe.coes@;
        let r = self.pe.add_coe(fsp.span, &self.sorts, s1, s2, fsp, t);
        proof {
            if r is Ok {
                crate::closure::lemma_step_closes_graph(
                    coes0,
                    self.sorts@,
                    fsp.span,
                    s1,
                    s2,
                    Coe::One(fsp, t),
                );
                crate::closure::lemma_prov_table_exact(
                    self.pe.coes@,
                    self.sorts@,
                    fsp.span,
                    self.pe.coe_prov@,
                );
            }
        }
        r
    }

    /// The identifier of the atom `s`; an atom that is new gets the next
    /// identifier and no value.
    pub fn get_atom(&mut self, s: String) -> (r: AtomID)
        requires
            old(self).wf(),
            position(old(self).atoms@, s@) is Some || old(self).lisp_ctx@.len() <= u32::MAX,
        ensures
            final(self).wf(),
            final(self).sort_keys == old(self).sort_keys,
            final(self).sorts == old(self).sorts,
            final(self).pe == old(self).pe,
            final(self).decl_keys == old(self).decl_keys,
            final(self).terms == old(self).terms,
            final(self).thms == old(self).thms,
            final(self).stmts == old(self).stmts,
            match position(old(self).atoms@, s@) {
                Some(i) => r == old(self).atoms@[i].1 && final(self).atoms == old(self).atoms
                    && final(self).lisp_ctx == old(self).lisp_ctx,
                None => r.0 == old(self).lisp_ctx@.len() && final(self).atoms@ == old(
                    self,
                ).atoms@.push((s, r)) && final(self).lisp_ctx@ == old(self).lisp_ctx@.push(
                    (s, LispVal::Undef),
                ),
            },
    {
        proof {
            reveal(Environment::wf);
        }
        match self.atoms.find(&s) {
            Some(i) => self.atoms.entries[i].1,
            None => {
                let id = AtomID(self.lisp_ctx.len() as u32);
                self.atoms.push(s.clone(), id);
                self.lisp_ctx.push((s, LispVal::Undef));
                id
            },
        }
    }

    /// Checks that the term `term` takes `nargs` arguments.
    pub fn check_term_nargs(&self, sp: Span, term: TermID, nargs: usize) -> (r: Result<
        (),
        ElabError,
    >)
        requires
            term.0 < self.terms@.len(),
        ensures
            self.terms@[term.0 as int].args@.len() == nargs ==> r is Ok,
            self.terms@[term.0 as int].args@.len() != nargs ==> r is Err && r->Err_0@ == (
            ElabErrorView {
                pos: sp,
                msg: "incorrect number of arguments"@,
                related: seq![(self.terms@[term.0 as int].span, "declared here"@)],
            }),
    {
        let t: &Term = &self.terms.0[term.0 as usize];
        if t.args.len() == nargs {
            return Ok(());
        }
        let mut related: Vec<(FileSpan, String)> = Vec::new();
        push_note(&mut related, t.span, String::from_str("declared here"));
        proof {
            assert(related_view(related@) =~= seq![(t.span, "declared here"@)]);
        }
        Err(ElabError::with_info(sp, String::from_str("incorrect number of arguments"), related))
    }
}

} // verus!
