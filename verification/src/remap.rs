//! Renumbering: copying a value while its identifiers are replaced.

use crate::coe::Coe;
use crate::expr::{
    expr_tree, expr_trees, proof_tree, proof_trees, Expr, ExprNode, ExprTree, ExprView, Proof,
    ProofNode, ProofTree, ProofView, Term, TermView, Thm, ThmView, Type,
};
use crate::ids::{Ident, SortID, TermID, ThmID};
use crate::names::{first_key, lemma_first_key};
use crate::parser_env::{Literal, NotaInfo};
use vstd::prelude::*;

verus! {

/// For the sorts, terms and theorems of one environment that have another
/// identifier in a second environment, that identifier. What is not
/// listed keeps its identifier.
#[derive(Debug)]
pub struct Remapper {
    pub sort: Vec<(SortID, SortID)>,
    pub term: Vec<(TermID, TermID)>,
    pub thm: Vec<(ThmID, ThmID)>,
}

/// What `k` stands for under the list `m`: the value of its first entry,
/// or `k` itself if it has none.
pub open spec fn mapped<K>(m: Seq<(K, K)>, k: K) -> K {
    match first_key(m, k) {
        Some(i) => m[i].1,
        None => k,
    }
}

/// Mathematical content of a `Remapper`.
pub struct RemapView {
    pub sort: Seq<(SortID, SortID)>,
    pub term: Seq<(TermID, TermID)>,
    pub thm: Seq<(ThmID, ThmID)>,
}

impl RemapView {
    /// The new identifier of the sort `s`.
    pub open spec fn sort_of(self, s: SortID) -> SortID {
        mapped(self.sort, s)
    }

    /// The new identifier of the term `t`.
    pub open spec fn term_of(self, t: TermID) -> TermID {
        mapped(self.term, t)
    }

    /// The new identifier of the theorem `t`.
    pub open spec fn thm_of(self, t: ThmID) -> ThmID {
        mapped(self.thm, t)
    }
}

impl Remapper {
    pub open spec fn view(&self) -> RemapView {
        RemapView { sort: self.sort@, term: self.term@, thm: self.thm@ }
    }

    /// The remapper that changes nothing.
    pub fn new() -> (r: Remapper)
        ensures
            r@ == (RemapView { sort: Seq::empty(), term: Seq::empty(), thm: Seq::empty() }),
    {
        let r = Remapper { sort: Vec::new(), term: Vec::new(), thm: Vec::new() };
        assert(r.sort@ =~= Seq::empty());
        assert(r.term@ =~= Seq::empty());
        assert(r.thm@ =~= Seq::empty());
        r
    }

    /// The new identifier of the sort `s`.
    pub open spec fn sort_of(&self, s: SortID) -> SortID {
        self@.sort_of(s)
    }

    /// The new identifier of the term `t`.
    pub open spec fn term_of(&self, t: TermID) -> TermID {
        self@.term_of(t)
    }

    /// The new identifier of the theorem `t`.
    pub open spec fn thm_of(&self, t: ThmID) -> ThmID {
        self@.thm_of(t)
    }

}

/// A value that can be copied with its identifiers replaced as `R` says.
pub trait Remap<R>: Sized {
    /// Whether `out` is `self` with its identifiers replaced as `r` says.
    spec fn remaps_to(&self, r: &R, out: &Self) -> bool;

    /// A copy of `self` with its identifiers replaced as `r` says.
    fn remap(&self, r: &R) -> (out: Self)
        ensures
            self.remaps_to(r, &out),
    ;
}

/// What `k` stands for under the list `m`.
fn lookup<K: Ident>(m: &Vec<(K, K)>, k: K) -> (r: K)
    ensures
        r == mapped(m@, k),
{
    proof {
        lemma_first_key(m@, k);
    }
    let mut i: usize = 0;
    while i < m.len()
        invariant
            0 <= i <= m@.len(),
            forall|j: int| 0 <= j < i ==> m@[j].0 != k,
        decreases m@.len() - i,
    {
        if m[i].0.same(&k) {
            proof {
                lemma_first_key(m@, k);
            }
            return m[i].1;
        }
        i += 1;
    }
    k
}

impl Remap<Remapper> for SortID {
    open spec fn remaps_to(&self, r: &Remapper, out: &Self) -> bool {
        *out == r.sort_of(*self)
    }

    fn remap(&self, r: &Remapper) -> (out: Self) {
        lookup(&r.sort, *self)
    }
}

impl Remap<Remapper> for TermID {
    open spec fn remaps_to(&self, r: &Remapper, out: &Self) -> bool {
        *out == r.term_of(*self)
    }

    fn remap(&self, r: &Remapper) -> (out: Self) {
        lookup(&r.term, *self)
    }
}

impl Remap<Remapper> for ThmID {
    open spec fn remaps_to(&self, r: &Remapper, out: &Self) -> bool {
        *out == r.thm_of(*self)
    }

    fn remap(&self, r: &Remapper) -> (out: Self) {
        lookup(&r.thm, *self)
    }
}

impl<R> Remap<R> for String {
    open spec fn remaps_to(&self, r: &R, out: &Self) -> bool {
        *out == *self
    }

    fn remap(&self, r: &R) -> (out: Self) {
        self.clone()
    }
}

impl<R, A: Remap<R>, B: Remap<R>> Remap<R> for (A, B) {
    open spec fn remaps_to(&self, r: &R, out: &Self) -> bool {
        self.0.remaps_to(r, &out.0) && self.1.remaps_to(r, &out.1)
    }

    fn remap(&self, r: &R) -> (out: Self) {
        (self.0.remap(r), self.1.remap(r))
    }
}

impl<R, A: Remap<R>> Remap<R> for Option<A> {
    open spec fn remaps_to(&self, r: &R, out: &Self) -> bool {
        match (*self, *out) {
            (Some(a), Some(b)) => a.remaps_to(r, &b),
            (None, None) => true,
            _ => false,
        }
    }

    fn remap(&self, r: &R) -> (out: Self) {
        match self {
            Some(a) => Some(a.remap(r)),
            None => None,
        }
    }
}

impl<R, A: Remap<R>> Remap<R> for Vec<A> {
    open spec fn remaps_to(&self, r: &R, out: &Self) -> bool {
        &&& out@.len() == self@.len()
        &&& forall|i: int| 0 <= i < self@.len() ==> (#[trigger] self@[i]).remaps_to(r, &out@[i])
    }

    fn remap(&self, r: &R) -> (out: Self) {
        let mut out: Vec<A> = Vec::new();
        let mut i: usize = 0;
        while i < self.len()
            invariant
                0 <= i <= self@.len(),
                out@.len() == i,
                forall|j: int| 0 <= j < i ==> (#[trigger] self@[j]).remaps_to(r, &out@[j]),
            decreases self@.len() - i,
        {
            out.push(self[i].remap(r));
            i += 1;
        }
        out
    }
}

impl<R, A: Remap<R>> Remap<R> for Box<A> {
    open spec fn remaps_to(&self, r: &R, out: &Self) -> bool {
        (**self).remaps_to(r, &**out)
    }

    fn remap(&self, r: &R) -> (out: Self) {
        Box::new((**self).remap(r))
    }
}

impl Remap<Remapper> for Type {
    open spec fn remaps_to(&self, r: &Remapper, out: &Self) -> bool {
        *out == match *self {
            Type::Bound(s) => Type::Bound(r.sort_of(s)),
            Type::Reg(s, deps) => Type::Reg(r.sort_of(s), deps),
        }
    }

    fn remap(&self, r: &Remapper) -> (out: Self) {
        match self {
            Type::Bound(s) => Type::Bound(s.remap(r)),
            Type::Reg(s, deps) => Type::Reg(s.remap(r), *deps),
        }
    }
}

/// Whether `b` is the expression node `a` with its identifiers replaced as
/// `r` says.
pub open spec fn expr_remaps(a: ExprNode, r: Remapper, b: ExprNode) -> bool
    decreases a,
{
    match a {
        ExprNode::Ref(i) => b == ExprNode::Ref(i),
        ExprNode::Dummy(x, s) => b matches ExprNode::Dummy(y, s2) && y == x && s2 == r.sort_of(
            s,
        ),
        ExprNode::App(t, es) => b matches ExprNode::App(t2, es2) && t2 == r.term_of(t)
            && es2@.len() == es@.len() && forall|k: int|
            0 <= k < es@.len() ==> expr_remaps(#[trigger] es@[k], r, es2@[k]),
    }
}

impl Remap<Remapper> for ExprNode {
    open spec fn remaps_to(&self, r: &Remapper, out: &Self) -> bool {
        expr_remaps(*self, *r, *out)
    }

    fn remap(&self, r: &Remapper) -> (out: Self)
        decreases self,
    {
        match self {
            ExprNode::Ref(i) => ExprNode::Ref(*i),
            ExprNode::Dummy(x, s) => ExprNode::Dummy(x.clone(), s.remap(r)),
            ExprNode::App(t, es) => {
                let mut out: Vec<ExprNode> = Vec::new();
                let mut i: usize = 0;
                while i < es.len()
                    invariant
                        self is App,
                        self->App_1 == *es,
                        0 <= i <= es@.len(),
                        out@.len() == i,
                        forall|j: int| 0 <= j < i ==> expr_remaps(#[trigger] es@[j], *r, out@[j]),
                    decreases es@.len() - i,
                {
                    out.push(es[i].remap(r));
                    i += 1;
                }
                ExprNode::App(t.remap(r), out)
            },
        }
    }
}

impl Remap<Remapper> for Expr {
    open spec fn remaps_to(&self, r: &Remapper, out: &Self) -> bool {
        self.heap.remaps_to(r, &out.heap) && self.head.remaps_to(r, &out.head)
    }

    fn remap(&self, r: &Remapper) -> (out: Self) {
        Expr { heap: self.heap.remap(r), head: self.head.remap(r) }
    }
}

impl Remap<Remapper> for Term {
    open spec fn remaps_to(&self, r: &Remapper, out: &Self) -> bool {
        &&& out.span == self.span
        &&& out.vis == self.vis
        &&& out.id == self.id
        &&& self.args.remaps_to(r, &out.args)
        &&& self.ret.remaps_to(r, &out.ret)
        &&& self.val.remaps_to(r, &out.val)
    }

    fn remap(&self, r: &Remapper) -> (out: Self) {
        Term {
            span: self.span,
            vis: self.vis,
            id: self.id,
            args: self.args.remap(r),
            ret: self.ret.remap(r),
            val: self.val.remap(r),
        }
    }
}

/// Whether every node of `bs` is the node of `as_` at its place with its
/// identifiers replaced as `r` says.
pub open spec fn proofs_remap(es: Vec<ProofNode>, r: Remapper, out: Vec<ProofNode>) -> bool
    decreases es,
{
    &&& out@.len() == es@.len()
    &&& forall|k: int| 0 <= k < es@.len() ==> proof_remaps(#[trigger] es@[k], r, out@[k])
}

/// Whether `b` is the proof node `a` with its identifiers replaced as `r`
/// says.
pub open spec fn proof_remaps(a: ProofNode, r: Remapper, b: ProofNode) -> bool
    decreases a,
{
    match a {
        ProofNode::Ref(i) => b == ProofNode::Ref(i),
        ProofNode::Dummy(x, s) => b matches ProofNode::Dummy(y, s2) && y == x && s2
            == r.sort_of(s),
        ProofNode::Term { term, args } => b matches ProofNode::Term { term: t2, args: a2 } && t2
            == r.term_of(term) && proofs_remap(args, r, a2),
        ProofNode::Hyp(n, e) => b matches ProofNode::Hyp(n2, e2) && n2 == n && proof_remaps(
            *e,
            r,
            *e2,
        ),
        ProofNode::Thm { thm, args, hyps, tgt } => b matches ProofNode::Thm {
            thm: t2,
            args: a2,
            hyps: h2,
            tgt: g2,
        } && t2 == r.thm_of(thm) && proofs_remap(args, r, a2) && proofs_remap(hyps, r, h2)
            && proof_remaps(*tgt, r, *g2),
        ProofNode::Conv { tgt, proof } => b matches ProofNode::Conv { tgt: g2, proof: p2 }
            && proof_remaps(*tgt, r, *g2) && proof_remaps(*proof, r, *p2),
    }
}

fn remap_proofs(es: &Vec<ProofNode>, r: &Remapper) -> (out: Vec<ProofNode>)
    ensures
        proofs_remap(*es, *r, out),
    decreases es,
{
    let mut out: Vec<ProofNode> = Vec::new();
    let mut i: usize = 0;
    while i < es.len()
        invariant
            0 <= i <= es@.len(),
            out@.len() == i,
            forall|j: int| 0 <= j < i ==> proof_remaps(#[trigger] es@[j], *r, out@[j]),
        decreases es@.len() - i,
    {
        out.push(remap_proof(&es[i], r));
        i += 1;
    }
    out
}

fn remap_proof(a: &ProofNode, r: &Remapper) -> (out: ProofNode)
    ensures
        proof_remaps(*a, *r, out),
    decreases a,
{
    match a {
        ProofNode::Ref(i) => ProofNode::Ref(*i),
        ProofNode::Dummy(x, s) => ProofNode::Dummy(x.clone(), s.remap(r)),
        ProofNode::Term { term, args } => ProofNode::Term {
            term: term.remap(r),
            args: remap_proofs(args, r),
        },
        ProofNode::Hyp(n, e) => ProofNode::Hyp(*n, Box::new(remap_proof(e, r))),
        ProofNode::Thm { thm, args, hyps, tgt } => ProofNode::Thm {
            thm: thm.remap(r),
            args: remap_proofs(args, r),
            hyps: remap_proofs(hyps, r),
            tgt: Box::new(remap_proof(tgt, r)),
        },
        ProofNode::Conv { tgt, proof } => ProofNode::Conv {
            tgt: Box::new(remap_proof(tgt, r)),
            proof: Box::new(remap_proof(proof, r)),
        },
    }
}

impl Remap<Remapper> for ProofNode {
    open spec fn remaps_to(&self, r: &Remapper, out: &Self) -> bool {
        proof_remaps(*self, *r, *out)
    }

    fn remap(&self, r: &Remapper) -> (out: Self) {
        remap_proof(self, r)
    }
}

impl Remap<Remapper> for Proof {
    open spec fn remaps_to(&self, r: &Remapper, out: &Self) -> bool {
        &&& self.heap.remaps_to(r, &out.heap)
        &&& self.hyps.remaps_to(r, &out.hyps)
        &&& self.head.remaps_to(r, &out.head)
    }

    fn remap(&self, r: &Remapper) -> (out: Self) {
        Proof { heap: self.heap.remap(r), hyps: self.hyps.remap(r), head: self.head.remap(r) }
    }
}

impl Remap<Remapper> for Thm {
    open spec fn remaps_to(&self, r: &Remapper, out: &Self) -> bool {
        &&& out.span == self.span
        &&& out.vis == self.vis
        &&& out.id == self.id
        &&& self.args.remaps_to(r, &out.args)
        &&& self.heap.remaps_to(r, &out.heap)
        &&& self.hyps.remaps_to(r, &out.hyps)
        &&& self.ret.remaps_to(r, &out.ret)
        &&& self.proof.remaps_to(r, &out.proof)
    }

    fn remap(&self, r: &Remapper) -> (out: Self) {
        Thm {
            span: self.span,
            vis: self.vis,
            id: self.id,
            args: self.args.remap(r),
            heap: self.heap.remap(r),
            hyps: self.hyps.remap(r),
            ret: self.ret.remap(r),
            proof: self.proof.remap(r),
        }
    }
}

impl<R> Remap<R> for Literal {
    open spec fn remaps_to(&self, r: &R, out: &Self) -> bool {
        match *self {
            Literal::Var(i, p) => *out == Literal::Var(i, p),
            Literal::Const(s) => *out == Literal::Const(s),
        }
    }

    fn remap(&self, r: &R) -> (out: Self) {
        match self {
            Literal::Var(i, p) => Literal::Var(*i, *p),
            Literal::Const(s) => Literal::Const(s.clone()),
        }
    }
}

impl Remap<Remapper> for NotaInfo {
    open spec fn remaps_to(&self, r: &Remapper, out: &Self) -> bool {
        &&& out.span == self.span
        &&& out.term == r.term_of(self.term)
        &&& out.nargs == self.nargs
        &&& out.rassoc == self.rassoc
        &&& self.lits.remaps_to(r, &out.lits)
    }

    fn remap(&self, r: &Remapper) -> (out: Self) {
        NotaInfo {
            span: self.span,
            term: self.term.remap(r),
            nargs: self.nargs,
            rassoc: self.rassoc,
            lits: self.lits.remap(r),
        }
    }
}

/// The coercion `c` with its identifiers replaced as `r` says.
pub open spec fn coe_remap(c: Coe, r: Remapper) -> Coe
    decreases c,
{
    match c {
        Coe::One(sp, t) => Coe::One(sp, r.term_of(t)),
        Coe::Trans(c1, s, c2) => Coe::Trans(
            Box::new(coe_remap(*c1, r)),
            r.sort_of(s),
            Box::new(coe_remap(*c2, r)),
        ),
    }
}

impl Remap<Remapper> for Coe {
    open spec fn remaps_to(&self, r: &Remapper, out: &Self) -> bool {
        *out == coe_remap(*self, *r)
    }

    fn remap(&self, r: &Remapper) -> (out: Self)
        decreases self,
    {
        match self {
            Coe::One(sp, t) => Coe::One(*sp, t.remap(r)),
            Coe::Trans(c1, s, c2) => Coe::Trans(
                Box::new((**c1).remap(r)),
                s.remap(r),
                Box::new((**c2).remap(r)),
            ),
        }
    }
}

/// The type `ty` with its sort replaced as `r` says.
pub open spec fn remap_type(ty: Type, r: RemapView) -> Type {
    match ty {
        Type::Bound(s) => Type::Bound(r.sort_of(s)),
        Type::Reg(s, deps) => Type::Reg(r.sort_of(s), deps),
    }
}

/// The arguments `args` with their sorts replaced as `r` says.
pub open spec fn remap_args(args: Seq<(String, Type)>, r: RemapView) -> Seq<(String, Type)> {
    Seq::new(args.len(), |k: int| (args[k].0, remap_type(args[k].1, r)))
}

/// The trees `ts` with their identifiers replaced as `r` says.
pub open spec fn remap_trees(ts: Seq<ExprTree>, r: RemapView) -> Seq<ExprTree>
    decreases ts, 0nat,
{
    Seq::new(
        ts.len(),
        |k: int|
            if 0 <= k < ts.len() {
                remap_tree(ts[k], r)
            } else {
                ExprTree::Ref(0)
            },
    )
}

/// The tree `t` with its identifiers replaced as `r` says.
pub open spec fn remap_tree(t: ExprTree, r: RemapView) -> ExprTree
    decreases t, 1nat,
{
    match t {
        ExprTree::Ref(i) => ExprTree::Ref(i),
        ExprTree::Dummy(x, s) => ExprTree::Dummy(x, r.sort_of(s)),
        ExprTree::App(f, es) => ExprTree::App(r.term_of(f), remap_trees(es, r)),
    }
}

/// The trees `ts` with their identifiers replaced as `r` says.
pub open spec fn remap_ptrees(ts: Seq<ProofTree>, r: RemapView) -> Seq<ProofTree>
    decreases ts, 0nat,
{
    Seq::new(
        ts.len(),
        |k: int|
            if 0 <= k < ts.len() {
                remap_ptree(ts[k], r)
            } else {
                ProofTree::Ref(0)
            },
    )
}

/// The tree `t` with its identifiers replaced as `r` says.
pub open spec fn remap_ptree(t: ProofTree, r: RemapView) -> ProofTree
    decreases t, 1nat,
{
    match t {
        ProofTree::Ref(i) => ProofTree::Ref(i),
        ProofTree::Dummy(x, s) => ProofTree::Dummy(x, r.sort_of(s)),
        ProofTree::Term { term, args } => ProofTree::Term {
            term: r.term_of(term),
            args: remap_ptrees(args, r),
        },
        ProofTree::Hyp(n, e) => ProofTree::Hyp(n, Box::new(remap_ptree(*e, r))),
        ProofTree::Thm { thm, args, hyps, tgt } => ProofTree::Thm {
            thm: r.thm_of(thm),
            args: remap_ptrees(args, r),
            hyps: remap_ptrees(hyps, r),
            tgt: Box::new(remap_ptree(*tgt, r)),
        },
        ProofTree::Conv { tgt, proof } => ProofTree::Conv {
            tgt: Box::new(remap_ptree(*tgt, r)),
            proof: Box::new(remap_ptree(*proof, r)),
        },
    }
}

/// The term `t` with its identifiers replaced as `r` says.
pub open spec fn remap_term(t: TermView, r: RemapView) -> TermView {
    TermView {
        span: t.span,
        vis: t.vis,
        id: t.id,
        args: remap_args(t.args, r),
        ret: remap_type(t.ret, r),
        val: match t.val {
            Some(e) => Some(
                ExprView { heap: remap_trees(e.heap, r), head: remap_tree(e.head, r) },
            ),
            None => None,
        },
    }
}

/// The theorem `t` with its identifiers replaced as `r` says.
pub open spec fn remap_thm(t: ThmView, r: RemapView) -> ThmView {
    ThmView {
        span: t.span,
        vis: t.vis,
        id: t.id,
        args: remap_args(t.args, r),
        heap: remap_trees(t.heap, r),
        hyps: remap_trees(t.hyps, r),
        ret: remap_tree(t.ret, r),
        proof: match t.proof {
            Some(p) => Some(
                ProofView {
                    heap: remap_ptrees(p.heap, r),
                    hyps: remap_ptrees(p.hyps, r),
                    head: remap_ptree(p.head, r),
                },
            ),
            None => None,
        },
    }
}

/// A copy of an expression node with its identifiers replaced has the tree
/// of the node with its identifiers replaced.
pub proof fn lemma_expr_remaps(a: ExprNode, r: Remapper, b: ExprNode)
    requires
        expr_remaps(a, r, b),
    ensures
        expr_tree(b) == remap_tree(expr_tree(a), r@),
    decreases a,
{
    match a {
        ExprNode::App(t, es) => {
            let es2 = b->App_1;
            assert forall|k: int| 0 <= k < es@.len() implies expr_tree(es2@[k]) == remap_tree(
                expr_tree(es@[k]),
                r@,
            ) by {
                lemma_expr_remaps(es@[k], r, es2@[k]);
            }
            assert(expr_trees(es2) =~= remap_trees(expr_trees(es), r@));
        },
        _ => {},
    }
}

/// Copies of expression nodes with their identifiers replaced have the
/// trees of the nodes with their identifiers replaced.
pub proof fn lemma_exprs_remap(es: Vec<ExprNode>, r: Remapper, out: Vec<ExprNode>)
    requires
        es.remaps_to(&r, &out),
    ensures
        expr_trees(out) == remap_trees(expr_trees(es), r@),
{
    assert forall|k: int| 0 <= k < es@.len() implies expr_tree(out@[k]) == remap_tree(
        expr_tree(es@[k]),
        r@,
    ) by {
        assert(es@[k].remaps_to(&r, &out@[k]));
        lemma_expr_remaps(es@[k], r, out@[k]);
    }
    assert(expr_trees(out) =~= remap_trees(expr_trees(es), r@));
}

/// Copies of proof nodes with their identifiers replaced have the trees of
/// the nodes with their identifiers replaced.
pub proof fn lemma_proofs_remap(es: Vec<ProofNode>, r: Remapper, out: Vec<ProofNode>)
    requires
        proofs_remap(es, r, out),
    ensures
        proof_trees(out) == remap_ptrees(proof_trees(es), r@),
    decreases es, 0nat,
{
    assert forall|k: int| 0 <= k < es@.len() implies proof_tree(out@[k]) == remap_ptree(
        proof_tree(es@[k]),
        r@,
    ) by {
        lemma_proof_remaps(es@[k], r, out@[k]);
    }
    assert(proof_trees(out) =~= remap_ptrees(proof_trees(es), r@));
}

/// A copy of a proof node with its identifiers replaced has the tree of
/// the node with its identifiers replaced.
pub proof fn lemma_proof_remaps(a: ProofNode, r: Remapper, b: ProofNode)
    requires
        proof_remaps(a, r, b),
    ensures
        proof_tree(b) == remap_ptree(proof_tree(a), r@),
    decreases a, 1nat,
{
    match a {
        ProofNode::Term { term, args } => {
            lemma_proofs_remap(args, r, b->Term_args);
        },
        ProofNode::Hyp(n, e) => {
            lemma_proof_remaps(*e, r, *b->Hyp_1);
        },
        ProofNode::Thm { thm, args, hyps, tgt } => {
            lemma_proofs_remap(args, r, b->Thm_args);
            lemma_proofs_remap(hyps, r, b->Thm_hyps);
            lemma_proof_remaps(*tgt, r, *b->Thm_tgt);
        },
        ProofNode::Conv { tgt, proof } => {
            lemma_proof_remaps(*tgt, r, *b->Conv_tgt);
            lemma_proof_remaps(*proof, r, *b->Conv_proof);
        },
        _ => {},
    }
}

/// Copies of arguments with their sorts replaced are the arguments with
/// their sorts replaced.
pub proof fn lemma_args_remap(args: Vec<(String, Type)>, r: Remapper, out: Vec<(String, Type)>)
    requires
        args.remaps_to(&r, &out),
    ensures
        out@ == remap_args(args@, r@),
{
    assert forall|k: int| 0 <= k < args@.len() implies out@[k] == remap_args(args@, r@)[k] by {
        assert(args@[k].remaps_to(&r, &out@[k]));
    }
    assert(out@ =~= remap_args(args@, r@));
}

/// A copy of a term with its identifiers replaced has the content of the
/// term with its identifiers replaced.
pub proof fn lemma_term_remaps(a: Term, r: Remapper, b: Term)
    requires
        a.remaps_to(&r, &b),
    ensures
        b@ == remap_term(a@, r@),
{
    lemma_args_remap(a.args, r, b.args);
    match a.val {
        Some(e) => {
            let e2 = b.val->Some_0;
            lemma_exprs_remap(e.heap, r, e2.heap);
            lemma_expr_remaps(e.head, r, e2.head);
        },
        None => {},
    }
}

/// A copy of a theorem with its identifiers replaced has the content of
/// the theorem with its identifiers replaced.
pub proof fn lemma_thm_remaps(a: Thm, r: Remapper, b: Thm)
    requires
        a.remaps_to(&r, &b),
    ensures
        b@ == remap_thm(a@, r@),
{
    lemma_args_remap(a.args, r, b.args);
    lemma_exprs_remap(a.heap, r, b.heap);
    lemma_exprs_remap(a.hyps, r, b.hyps);
    lemma_expr_remaps(a.ret, r, b.ret);
    match a.proof {
        Some(p) => {
            let p2 = b.proof->Some_0;
            assert(proofs_remap(p.heap, r, p2.heap)) by {
                assert(p.heap.remaps_to(&r, &p2.heap));
                assert forall|k: int| 0 <= k < p.heap@.len() implies proof_remaps(
                    #[trigger] p.heap@[k],
                    r,
                    p2.heap@[k],
                ) by {
                    assert(p.heap@[k].remaps_to(&r, &p2.heap@[k]));
                }
            }
            assert(proofs_remap(p.hyps, r, p2.hyps)) by {
                assert(p.hyps.remaps_to(&r, &p2.hyps));
                assert forall|k: int| 0 <= k < p.hyps@.len() implies proof_remaps(
                    #[trigger] p.hyps@[k],
                    r,
                    p2.hyps@[k],
                ) by {
                    assert(p.hyps@[k].remaps_to(&r, &p2.hyps@[k]));
                }
            }
            lemma_proofs_remap(p.heap, r, p2.heap);
            lemma_proofs_remap(p.hyps, r, p2.hyps);
            lemma_proof_remaps(p.head, r, p2.head);
        },
        None => {},
    }
}

/// Whether `r` renumbers nothing.
pub open spec fn is_identity(r: RemapView) -> bool {
    r.sort.len() == 0 && r.term.len() == 0 && r.thm.len() == 0
}

/// Renumbering by nothing leaves a tree as it is.
pub proof fn lemma_remap_trees_identity(ts: Seq<ExprTree>, r: RemapView)
    requires
        is_identity(r),
    ensures
        remap_trees(ts, r) == ts,
    decreases ts, 0nat,
{
    assert forall|k: int| 0 <= k < ts.len() implies remap_tree(ts[k], r) == ts[k] by {
        lemma_remap_tree_identity(ts[k], r);
    }
    assert(remap_trees(ts, r) =~= ts);
}

/// Renumbering by nothing leaves a tree as it is.
pub proof fn lemma_remap_tree_identity(t: ExprTree, r: RemapView)
    requires
        is_identity(r),
    ensures
        remap_tree(t, r) == t,
    decreases t, 1nat,
{
    match t {
        ExprTree::App(f, es) => {
            lemma_remap_trees_identity(es, r);
        },
        _ => {},
    }
}

/// Renumbering by nothing leaves a tree as it is.
pub proof fn lemma_remap_ptrees_identity(ts: Seq<ProofTree>, r: RemapView)
    requires
        is_identity(r),
    ensures
        remap_ptrees(ts, r) == ts,
    decreases ts, 0nat,
{
    assert forall|k: int| 0 <= k < ts.len() implies remap_ptree(ts[k], r) == ts[k] by {
        lemma_remap_ptree_identity(ts[k], r);
    }
    assert(remap_ptrees(ts, r) =~= ts);
}

/// Renumbering by nothing leaves a tree as it is.
pub proof fn lemma_remap_ptree_identity(t: ProofTree, r: RemapView)
    requires
        is_identity(r),
    ensures
        remap_ptree(t, r) == t,
    decreases t, 1nat,
{
    match t {
        ProofTree::Term { term, args } => {
            lemma_remap_ptrees_identity(args, r);
        },
        ProofTree::Hyp(n, e) => {
            lemma_remap_ptree_identity(*e, r);
        },
        ProofTree::Thm { thm, args, hyps, tgt } => {
            lemma_remap_ptrees_identity(args, r);
            lemma_remap_ptrees_identity(hyps, r);
            lemma_remap_ptree_identity(*tgt, r);
        },
        ProofTree::Conv { tgt, proof } => {
            lemma_remap_ptree_identity(*tgt, r);
            lemma_remap_ptree_identity(*proof, r);
        },
        _ => {},
    }
}

/// Renumbering by nothing leaves a term as it is.
pub proof fn lemma_remap_term_identity(t: TermView, r: RemapView)
    requires
        is_identity(r),
    ensures
        remap_term(t, r) == t,
{
    assert(remap_args(t.args, r) =~= t.args);
    match t.val {
        Some(e) => {
            lemma_remap_trees_identity(e.heap, r);
            lemma_remap_tree_identity(e.head, r);
        },
        None => {},
    }
}

/// Renumbering by nothing leaves a theorem as it is.
pub proof fn lemma_remap_thm_identity(t: ThmView, r: RemapView)
    requires
        is_identity(r),
    ensures
        remap_thm(t, r) == t,
{
    assert(remap_args(t.args, r) =~= t.args);
    lemma_remap_trees_identity(t.heap, r);
    lemma_remap_trees_identity(t.hyps, r);
    lemma_remap_tree_identity(t.ret, r);
    match t.proof {
        Some(p) => {
            lemma_remap_ptrees_identity(p.heap, r);
            lemma_remap_ptrees_identity(p.hyps, r);
            lemma_remap_ptree_identity(p.head, r);
        },
        None => {},
    }
}

} // verus!
