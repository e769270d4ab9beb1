//! Types, expression and proof DAGs, and the records of terms and theorems.

use crate::ids::{SortID, TermID, ThmID};
use crate::syntax::{FileSpan, Modifiers, Span};
use vstd::prelude::*;

verus! {

/// The type of a variable: bound, or regular with the set of bound variables
/// that it may depend on (bit `i` stands for the `i`-th bound variable).
#[derive(Copy, Clone, Debug, PartialEq, Eq, Structural)]
pub enum Type {
    Bound(SortID),
    Reg(SortID, u64),
}

impl Type {
    /// The sort of the type.
    pub open spec fn spec_sort(self) -> SortID {
        match self {
            Type::Bound(s) => s,
            Type::Reg(s, _) => s,
        }
    }

    #[verifier::when_used_as_spec(spec_sort)]
    pub fn sort(self) -> (s: SortID)
        ensures
            s == self.spec_sort(),
    {
        match self {
            Type::Bound(s) => s,
            Type::Reg(s, _) => s,
        }
    }

    /// The dependency mask of the type; a bound type has none.
    pub open spec fn spec_deps(self) -> u64 {
        match self {
            Type::Bound(_) => 0,
            Type::Reg(_, deps) => deps,
        }
    }

    #[verifier::when_used_as_spec(spec_deps)]
    pub fn deps(self) -> (d: u64)
        ensures
            d == self.spec_deps(),
    {
        match self {
            Type::Bound(_) => 0,
            Type::Reg(_, deps) => deps,
        }
    }
}

/// A node of an expression DAG, read against a heap of nodes whose first
/// entries stand for the arguments of the declaration.
///
/// * `Ref(n)` is heap entry `n`: argument `n` if `n` is less than the number
///   of arguments, a shared subexpression otherwise;
/// * `Dummy(x, s)` is a fresh dummy variable `x` of sort `s`;
/// * `App(t, es)` applies the term constructor `t` to `es`.
#[derive(Debug)]
pub enum ExprNode {
    Ref(usize),
    Dummy(String, SortID),
    App(TermID, Vec<ExprNode>),
}

/// An expression DAG: a heap of shared nodes and the node that the
/// expression starts from.
#[derive(Debug)]
pub struct Expr {
    pub heap: Vec<ExprNode>,
    pub head: ExprNode,
}

/// A term constructor. Without a value it is primitive; with one it is a
/// definition.
#[derive(Debug)]
pub struct Term {
    pub span: FileSpan,
    pub vis: Modifiers,
    pub id: Span,
    pub args: Vec<(String, Type)>,
    pub ret: Type,
    pub val: Option<Expr>,
}

/// A node of a proof DAG.
///
/// * `Ref(n)` is heap entry `n`;
/// * `Dummy(x, s)` is a dummy variable, which no proof may hold;
/// * `Term` applies a term constructor;
/// * `Hyp(n, e)` is hypothesis `n`, which states `e`;
/// * `Thm` applies a theorem to arguments and proofs of its hypotheses,
///   and `tgt` is the statement that results;
/// * `Conv` proves `tgt` from a proof of a statement that unfolds to it.
#[derive(Debug)]
pub enum ProofNode {
    Ref(usize),
    Dummy(String, SortID),
    Term { term: TermID, args: Vec<ProofNode> },
    Hyp(usize, Box<ProofNode>),
    Thm { thm: ThmID, args: Vec<ProofNode>, hyps: Vec<ProofNode>, tgt: Box<ProofNode> },
    Conv { tgt: Box<ProofNode>, proof: Box<ProofNode> },
}

/// A proof DAG: a heap of shared nodes, the hypotheses in order, and the
/// node that proves the conclusion.
#[derive(Debug)]
pub struct Proof {
    pub heap: Vec<ProofNode>,
    pub hyps: Vec<ProofNode>,
    pub head: ProofNode,
}

/// An axiom (without a proof) or a theorem (with one).
#[derive(Debug)]
pub struct Thm {
    pub span: FileSpan,
    pub vis: Modifiers,
    pub id: Span,
    pub args: Vec<(String, Type)>,
    pub heap: Vec<ExprNode>,
    pub hyps: Vec<ExprNode>,
    pub ret: ExprNode,
    pub proof: Option<Proof>,
}

/// An expression node as a tree: what `ExprNode` holds, with the
/// arguments of an application as a sequence.
pub enum ExprTree {
    Ref(usize),
    Dummy(String, SortID),
    App(TermID, Seq<ExprTree>),
}

/// A proof node as a tree.
pub enum ProofTree {
    Ref(usize),
    Dummy(String, SortID),
    Term { term: TermID, args: Seq<ProofTree> },
    Hyp(usize, Box<ProofTree>),
    Thm { thm: ThmID, args: Seq<ProofTree>, hyps: Seq<ProofTree>, tgt: Box<ProofTree> },
    Conv { tgt: Box<ProofTree>, proof: Box<ProofTree> },
}

/// The trees of the nodes `es`.
pub open spec fn expr_trees(es: Vec<ExprNode>) -> Seq<ExprTree>
    decreases es, 0nat,
{
    Seq::new(
        es@.len(),
        |k: int|
            if 0 <= k < es@.len() {
                expr_tree(es@[k])
            } else {
                ExprTree::Ref(0)
            },
    )
}

/// The tree of the node `e`.
pub open spec fn expr_tree(e: ExprNode) -> ExprTree
    decreases e, 1nat,
{
    match e {
        ExprNode::Ref(i) => ExprTree::Ref(i),
        ExprNode::Dummy(x, s) => ExprTree::Dummy(x, s),
        ExprNode::App(t, es) => ExprTree::App(t, expr_trees(es)),
    }
}

/// The trees of the nodes `es`.
pub open spec fn proof_trees(es: Vec<ProofNode>) -> Seq<ProofTree>
    decreases es, 0nat,
{
    Seq::new(
        es@.len(),
        |k: int|
            if 0 <= k < es@.len() {
                proof_tree(es@[k])
            } else {
                ProofTree::Ref(0)
            },
    )
}

/// The tree of the node `e`.
pub open spec fn proof_tree(e: ProofNode) -> ProofTree
    decreases e, 1nat,
{
    match e {
        ProofNode::Ref(i) => ProofTree::Ref(i),
        ProofNode::Dummy(x, s) => ProofTree::Dummy(x, s),
        ProofNode::Term { term, args } => ProofTree::Term { term, args: proof_trees(args) },
        ProofNode::Hyp(n, e) => ProofTree::Hyp(n, Box::new(proof_tree(*e))),
        ProofNode::Thm { thm, args, hyps, tgt } => ProofTree::Thm {
            thm,
            args: proof_trees(args),
            hyps: proof_trees(hyps),
            tgt: Box::new(proof_tree(*tgt)),
        },
        ProofNode::Conv { tgt, proof } => ProofTree::Conv {
            tgt: Box::new(proof_tree(*tgt)),
            proof: Box::new(proof_tree(*proof)),
        },
    }
}

/// Mathematical content of an expression DAG.
pub struct ExprView {
    pub heap: Seq<ExprTree>,
    pub head: ExprTree,
}

/// Mathematical content of a proof DAG.
pub struct ProofView {
    pub heap: Seq<ProofTree>,
    pub hyps: Seq<ProofTree>,
    pub head: ProofTree,
}

/// Mathematical content of a term.
pub struct TermView {
    pub span: FileSpan,
    pub vis: Modifiers,
    pub id: Span,
    pub args: Seq<(String, Type)>,
    pub ret: Type,
    pub val: Option<ExprView>,
}

/// Mathematical content of a theorem.
pub struct ThmView {
    pub span: FileSpan,
    pub vis: Modifiers,
    pub id: Span,
    pub args: Seq<(String, Type)>,
    pub heap: Seq<ExprTree>,
    pub hyps: Seq<ExprTree>,
    pub ret: ExprTree,
    pub proof: Option<ProofView>,
}

impl Expr {
    pub open spec fn view(&self) -> ExprView {
        ExprView { heap: expr_trees(self.heap), head: expr_tree(self.head) }
    }
}

impl Proof {
    pub open spec fn view(&self) -> ProofView {
        ProofView {
            heap: proof_trees(self.heap),
            hyps: proof_trees(self.hyps),
            head: proof_tree(self.head),
        }
    }
}

impl Term {
    pub open spec fn view(&self) -> TermView {
        TermView {
            span: self.span,
            vis: self.vis,
            id: self.id,
            args: self.args@,
            ret: self.ret,
            val: match self.val {
                Some(e) => Some(e@),
                None => None,
            },
        }
    }
}

impl Thm {
    pub open spec fn view(&self) -> ThmView {
        ThmView {
            span: self.span,
            vis: self.vis,
            id: self.id,
            args: self.args@,
            heap: expr_trees(self.heap),
            hyps: expr_trees(self.hyps),
            ret: expr_tree(self.ret),
            proof: match self.proof {
                Some(p) => Some(p@),
                None => None,
            },
        }
    }
}

} // verus!
