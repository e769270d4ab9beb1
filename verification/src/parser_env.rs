//! Registry of notations and coercions.

use crate::coe::Coe;
use crate::coercions::{
    add_all, add_coe_raw, graph_in_range, graph_wf, prov_table, schedule, update_provs,
};
use crate::environment::Sort;
use crate::error::ElabError;
use crate::delims::Delims;
use crate::error::IncompatibleError;
use crate::ids::{SortID, SortVec, TermID};
use crate::names::{first_key, keys_distinct, lemma_first_key, position, NameMap};
use crate::syntax::{FileSpan, Prec, Span};
use vstd::prelude::*;

verus! {

/// One piece of a notation: a variable with the precedence at which it is
/// parsed, or a constant token.
#[derive(Debug)]
pub enum Literal {
    Var(usize, Prec),
    Const(String),
}

/// A notation for a term constructor.
#[derive(Debug)]
pub struct NotaInfo {
    pub span: FileSpan,
    pub term: TermID,
    pub nargs: usize,
    pub rassoc: Option<bool>,
    pub lits: Vec<Literal>,
}

/// Notations and coercions of an environment.
///
/// `prec_assoc` says for a precedence level whether it associates to the
/// right. `coes` holds one entry for each pair of sorts between which a
/// coercion exists, in the order in which they were found; `coe_prov`
/// holds, for each sort that can be coerced to a provable sort, that sort.
#[derive(Debug)]
pub struct ParserEnv {
    pub delims_l: Delims,
    pub delims_r: Delims,
    pub consts: NameMap<(FileSpan, Prec)>,
    pub prec_assoc: Vec<(u32, (FileSpan, bool))>,
    pub prefixes: NameMap<NotaInfo>,
    pub infixes: NameMap<NotaInfo>,
    pub coes: Vec<((SortID, SortID), Coe)>,
    pub coe_prov: Vec<(SortID, SortID)>,
}

/// What adding a constant or an associativity does to a dictionary entry:
/// nothing is there and the entry is added, the same is there and nothing
/// changes, or something else is there and the two places are reported.
pub enum Admission {
    Added,
    Known,
    Clash(IncompatibleError),
}

/// The outcome of declaring the token `tk` a constant of precedence `p`.
pub open spec fn const_admission(
    consts: Seq<(String, (FileSpan, Prec))>,
    tk: Seq<char>,
    sp: FileSpan,
    p: Prec,
) -> Admission {
    match position(consts, tk) {
        None => Admission::Added,
        Some(i) => if consts[i].1.1 == p {
            Admission::Known
        } else {
            Admission::Clash(IncompatibleError { decl1: consts[i].1.0, decl2: sp })
        },
    }
}

/// The outcome of declaring that the level `p` associates to the right
/// (`r`) or to the left. Of two places that clash, the one that says left
/// comes first.
pub open spec fn assoc_admission(
    precs: Seq<(u32, (FileSpan, bool))>,
    p: u32,
    sp: FileSpan,
    r: bool,
) -> Admission {
    match first_key(precs, p) {
        None => Admission::Added,
        Some(i) => if precs[i].1.1 == r {
            Admission::Known
        } else if r {
            Admission::Clash(IncompatibleError { decl1: precs[i].1.0, decl2: sp })
        } else {
            Admission::Clash(IncompatibleError { decl1: sp, decl2: precs[i].1.0 })
        },
    }
}

/// The outcome of declaring the notation `n` for the token `tk`.
pub open spec fn nota_admission(m: Seq<(String, NotaInfo)>, tk: Seq<char>, n: NotaInfo) -> Admission {
    match position(m, tk) {
        None => Admission::Added,
        Some(i) => if m[i].1.span == n.span {
            Admission::Known
        } else {
            Admission::Clash(IncompatibleError { decl1: m[i].1.span, decl2: n.span })
        },
    }
}

/// Whether `r` reports the admission `a`.
pub open spec fn reports(r: Result<(), IncompatibleError>, a: Admission) -> bool {
    match a {
        Admission::Clash(e) => r == Err::<(), IncompatibleError>(e),
        _ => r is Ok,
    }
}

/// Puts every byte of `cs` into `d`.
pub fn set_all(d: &mut Delims, cs: &[u8])
    ensures
        forall|b: u8|
            #![trigger final(d).spec_get(b)]
            final(d).spec_get(b) == (old(d).spec_get(b) || cs@.contains(b)),
{
    let mut i: usize = 0;
    while i < cs.len()
        invariant
            0 <= i <= cs@.len(),
            forall|b: u8|
                #![trigger d.spec_get(b)]
                d.spec_get(b) == (old(d).spec_get(b) || cs@.subrange(0, i as int).contains(b)),
        decreases cs@.len() - i,
    {
        let ghost before = *d;
        d.set(cs[i]);
        proof {
            let s0 = cs@.subrange(0, i as int);
            let s1 = cs@.subrange(0, i + 1);
            assert forall|b: u8| #![trigger d.spec_get(b)]
                d.spec_get(b) == (old(d).spec_get(b) || s1.contains(b)) by {
                assert(before.spec_get(b) == (old(d).spec_get(b) || s0.contains(b)));
                if s1.contains(b) {
                    let j = choose|j: int| 0 <= j < s1.len() && s1[j] == b;
                    if j < i {
                        assert(s0[j] == b);
                    }
                }
                if s0.contains(b) {
                    let j = choose|j: int| 0 <= j < s0.len() && s0[j] == b;
                    assert(s1[j] == b);
                }
                if b == cs@[i as int] {
                    assert(s1[i as int] == b);
                }
            }
        }
        i += 1;
    }
    assert(cs@.subrange(0, i as int) =~= cs@);
}

/// Declares the token `tk` a constant of precedence `p` in `consts`.
pub fn add_const_entry(
    consts: &mut NameMap<(FileSpan, Prec)>,
    tk: String,
    sp: FileSpan,
    p: Prec,
) -> (r: Result<(), IncompatibleError>)
    requires
        old(consts).wf(),
    ensures
        final(consts).wf(),
        reports(r, const_admission(old(consts)@, tk@, sp, p)),
        final(consts)@ == (if const_admission(old(consts)@, tk@, sp, p) is Added {
            old(consts)@.push((tk, (sp, p)))
        } else {
            old(consts)@
        }),
{
    match consts.find(&tk) {
        None => {
            consts.push(tk, (sp, p));
            Ok(())
        },
        Some(i) => {
            let e: (FileSpan, Prec) = consts.entries[i].1;
            if e.1 == p {
                Ok(())
            } else {
                Err(IncompatibleError { decl1: e.0, decl2: sp })
            }
        },
    }
}

/// Declares the associativity of the level `p` in `precs`.
pub fn add_prec_entry(precs: &mut Vec<(u32, (FileSpan, bool))>, p: u32, sp: FileSpan, r: bool) -> (res:
    Result<(), IncompatibleError>)
    requires
        keys_distinct(old(precs)@),
    ensures
        keys_distinct(final(precs)@),
        reports(res, assoc_admission(old(precs)@, p, sp, r)),
        final(precs)@ == (if assoc_admission(old(precs)@, p, sp, r) is Added {
            old(precs)@.push((p, (sp, r)))
        } else {
            old(precs)@
        }),
{
    proof {
        lemma_first_key(precs@, p);
    }
    let mut i: usize = 0;
    while i < precs.len()
        invariant
            0 <= i <= precs@.len(),
            precs@ == old(precs)@,
            keys_distinct(precs@),
            forall|j: int| 0 <= j < i ==> precs@[j].0 != p,
        decreases precs@.len() - i,
    {
        if precs[i].0 == p {
            let e: (FileSpan, bool) = precs[i].1;
            proof {
                lemma_first_key(precs@, p);
            }
            return if e.1 == r {
                Ok(())
            } else if r {
                Err(IncompatibleError { decl1: e.0, decl2: sp })
            } else {
                Err(IncompatibleError { decl1: sp, decl2: e.0 })
            };
        }
        i += 1;
    }
    precs.push((p, (sp, r)));
    Ok(())
}

/// Declares the notation `n` for the token `tk` in `m`.
pub fn add_nota_info(m: &mut NameMap<NotaInfo>, tk: String, n: NotaInfo) -> (r: Result<
    (),
    IncompatibleError,
>)
    requires
        old(m).wf(),
    ensures
        final(m).wf(),
        reports(r, nota_admission(old(m)@, tk@, n)),
        final(m)@ == (if nota_admission(old(m)@, tk@, n) is Added {
            old(m)@.push((tk, n))
        } else {
            old(m)@
        }),
{
    match m.find(&tk) {
        None => {
            m.push(tk, n);
            Ok(())
        },
        Some(i) => {
            let sp: FileSpan = m.entries[i].1.span;
            if sp == n.span {
                Ok(())
            } else {
                Err(IncompatibleError { decl1: sp, decl2: n.span })
            }
        },
    }
}

impl ParserEnv {
    /// A registry without notations and coercions.
    pub fn new() -> (r: ParserEnv)
        ensures
            r.wf(),
            r.consts@.len() == 0,
            r.prec_assoc@.len() == 0,
            r.prefixes@.len() == 0,
            r.infixes@.len() == 0,
            r.coes@.len() == 0,
            r.coe_prov@.len() == 0,
            forall|c: u8| !r.delims_l.spec_get(c) && !r.delims_r.spec_get(c),
    {
        ParserEnv {
            delims_l: Delims::new(),
            delims_r: Delims::new(),
            consts: NameMap::new(),
            prec_assoc: Vec::new(),
            prefixes: NameMap::new(),
            infixes: NameMap::new(),
            coes: Vec::new(),
            coe_prov: Vec::new(),
        }
    }

    /// No token and no level is entered twice, and the coercion graph has
    /// neither cycle nor diamond.
    pub open spec fn wf(&self) -> bool {
        &&& self.consts.wf()
        &&& self.prefixes.wf()
        &&& self.infixes.wf()
        &&& keys_distinct(self.prec_assoc@)
        &&& graph_wf(self.coes@)
    }

    /// Whether `self` and `other` agree on the coercions.
    pub open spec fn same_coes(&self, other: &ParserEnv) -> bool {
        self.coes == other.coes && self.coe_prov == other.coe_prov
    }

    /// Whether `self` and `other` agree on delimiters, constants,
    /// associativities and notations.
    pub open spec fn same_notations(&self, other: &ParserEnv) -> bool {
        &&& self.delims_l == other.delims_l
        &&& self.delims_r == other.delims_r
        &&& self.consts == other.consts
        &&& self.prec_assoc == other.prec_assoc
        &&& self.prefixes == other.prefixes
        &&& self.infixes == other.infixes
    }

    /// Declares the bytes of `ls` left delimiters and those of `rs` right
    /// delimiters.
    pub fn add_delimiters(&mut self, ls: &[u8], rs: &[u8])
        ensures
            forall|b: u8|
                #![trigger final(self).delims_l.spec_get(b)]
                final(self).delims_l.spec_get(b) == (old(self).delims_l.spec_get(b)
                    || ls@.contains(b)),
            forall|b: u8|
                #![trigger final(self).delims_r.spec_get(b)]
                final(self).delims_r.spec_get(b) == (old(self).delims_r.spec_get(b)
                    || rs@.contains(b)),
            final(self).consts == old(self).consts,
            final(self).prec_assoc == old(self).prec_assoc,
            final(self).prefixes == old(self).prefixes,
            final(self).infixes == old(self).infixes,
            final(self).same_coes(old(self)),
    {
        set_all(&mut self.delims_l, ls);
        set_all(&mut self.delims_r, rs);
    }

    /// Declares the token `tk` a constant of precedence `p`. A token that
    /// is a constant of that precedence already stays as it is; one of
    /// another precedence is refused.
    pub fn add_const(&mut self, tk: String, sp: FileSpan, p: Prec) -> (r: Result<
        (),
        IncompatibleError,
    >)
        requires
            old(self).wf(),
        ensures
            final(self).wf(),
            reports(r, const_admission(old(self).consts@, tk@, sp, p)),
            final(self).consts@ == (if const_admission(old(self).consts@, tk@, sp, p) is Added {
                old(self).consts@.push((tk, (sp, p)))
            } else {
                old(self).consts@
            }),
            final(self).delims_l == old(self).delims_l,
            final(self).delims_r == old(self).delims_r,
            final(self).prec_assoc == old(self).prec_assoc,
            final(self).prefixes == old(self).prefixes,
            final(self).infixes == old(self).infixes,
            final(self).same_coes(old(self)),
    {
        add_const_entry(&mut self.consts, tk, sp, p)
    }

    /// Declares that the level `p` associates to the right (`r`) or to the
    /// left. A level that is declared so already stays as it is; one that
    /// is declared the other way is refused.
    pub fn add_prec_assoc(&mut self, p: u32, sp: FileSpan, r: bool) -> (res: Result<
        (),
        IncompatibleError,
    >)
        requires
            old(self).wf(),
        ensures
            final(self).wf(),
            reports(res, assoc_admission(old(self).prec_assoc@, p, sp, r)),
            final(self).prec_assoc@ == (if assoc_admission(old(self).prec_assoc@, p, sp, r)
                is Added {
                old(self).prec_assoc@.push((p, (sp, r)))
            } else {
                old(self).prec_assoc@
            }),
            final(self).delims_l == old(self).delims_l,
            final(self).delims_r == old(self).delims_r,
            final(self).consts == old(self).consts,
            final(self).prefixes == old(self).prefixes,
            final(self).infixes == old(self).infixes,
            final(self).same_coes(old(self)),
    {
        add_prec_entry(&mut self.prec_assoc, p, sp, r)
    }

    /// Declares the prefix notation `n` for the token `tk`. A token that
    /// has a notation declared at the same place stays as it is; one
    /// with a notation declared elsewhere is refused.
    pub fn add_prefix(&mut self, tk: String, n: NotaInfo) -> (r: Result<(), IncompatibleError>)
        requires
            old(self).wf(),
        ensures
            final(self).wf(),
            reports(r, nota_admission(old(self).prefixes@, tk@, n)),
            final(self).prefixes@ == (if nota_admission(old(self).prefixes@, tk@, n) is Added {
                old(self).prefixes@.push((tk, n))
            } else {
                old(self).prefixes@
            }),
            final(self).delims_l == old(self).delims_l,
            final(self).delims_r == old(self).delims_r,
            final(self).consts == old(self).consts,
            final(self).prec_assoc == old(self).prec_assoc,
            final(self).infixes == old(self).infixes,
            final(self).same_coes(old(self)),
    {
        add_nota_info(&mut self.prefixes, tk, n)
    }

    /// Declares the infix notation `n` for the token `tk`. A token that
    /// has a notation declared at the same place stays as it is; one
    /// with a notation declared elsewhere is refused.
    pub fn add_infix(&mut self, tk: String, n: NotaInfo) -> (r: Result<(), IncompatibleError>)
        requires
            old(self).wf(),
        ensures
            final(self).wf(),
            reports(r, nota_admission(old(self).infixes@, tk@, n)),
            final(self).infixes@ == (if nota_admission(old(self).infixes@, tk@, n) is Added {
                old(self).infixes@.push((tk, n))
            } else {
                old(self).infixes@
            }),
            final(self).delims_l == old(self).delims_l,
            final(self).delims_r == old(self).delims_r,
            final(self).consts == old(self).consts,
            final(self).prec_assoc == old(self).prec_assoc,
            final(self).prefixes == old(self).prefixes,
            final(self).same_coes(old(self)),
    {
        add_nota_info(&mut self.infixes, tk, n)
    }

    /// Declares the term `t` a coercion from `s1` to `s2`.
    ///
    /// The step and its compositions with one coercion that is there are
    /// added in order, up to the first that closes a cycle or a diamond,
    /// which is reported. If all are added, the table of provable targets
    /// is built anew; a sort with two provable targets is reported, and
    /// the table then stays as it was.
    pub fn add_coe(
        &mut self,
        sp: Span,
        sorts: &SortVec<Sort>,
        s1: SortID,
        s2: SortID,
        fsp: FileSpan,
        t: TermID,
    ) -> (r: Result<(), ElabError>)
        requires
            s1.0 < sorts@.len(),
            s2.0 < sorts@.len(),
            graph_in_range(old(self).coes@, sorts@.len()),
        ensures
            final(self).same_notations(old(self)),
            graph_in_range(final(self).coes@, sorts@.len()),
            old(self).wf() ==> final(self).wf(),
            ({
                let res = add_all(
                    old(self).coes@,
                    sorts@,
                    sp,
                    schedule(old(self).coes@, s1, s2, Coe::One(fsp, t)),
                    0,
                );
                &&& final(self).coes@ == res.0
                &&& match res.1 {
                    Some(ev) => r is Err && r->Err_0@ == ev && final(self).coe_prov@ == old(
                        self,
                    ).coe_prov@,
                    None => match prov_table(res.0, sorts@, sp) {
                        Ok(p) => r is Ok && final(self).coe_prov@ == p,
                        Err(ev) => r is Err && r->Err_0@ == ev && final(self).coe_prov@ == old(
                            self,
                        ).coe_prov@,
                    },
                }
            }),
    {
        match add_coe_raw(&mut self.coes, sp, sorts, s1, s2, fsp, t) {
            Err(e) => {
                return Err(e);
            },
            Ok(()) => {},
        }
        update_provs(&self.coes, &mut self.coe_prov, sp, sorts)
    }
}

} // verus!
