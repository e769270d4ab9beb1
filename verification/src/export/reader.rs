//! A reader for the proof stream of an expression, and the proof that it
//! reads back what was written.

use crate::export::cmd::{ExportError, ProofCmd};
use crate::export::proof_stream::{
    close_app, expr_proof, expr_proof_args, expr_proof_node, list_after, record_visit, ListResult,
    NodeResult,
};
use crate::export::reorder::{initial_map, ReorderState};
use crate::expr::ExprNode;
use crate::ids::{SortID, TermID};
use vstd::prelude::*;

verus! {

/// An expression as the reader knows it: a tree over the arguments of the
/// declaration and over dummy variables. Subexpressions that the DAG
/// shares stand in it once for each use.
pub enum Shape {
    Param(nat),
    Dummy(SortID),
    App(TermID, Seq<Shape>),
}

/// The tree that the node `e` stands for, over a heap whose first `nargs`
/// entries are the arguments: a reference to a later entry stands for
/// what that entry stands for, which may refer to earlier entries only
/// (those below `bound`).
pub open spec fn expand(heap: Seq<ExprNode>, nargs: nat, e: ExprNode, bound: nat) -> Shape
    decreases bound, e, 1nat,
{
    match e {
        ExprNode::Ref(i) => if i < nargs {
            Shape::Param(i as nat)
        } else if i < bound && i < heap.len() {
            expand(heap, nargs, heap[i as int], i as nat)
        } else {
            Shape::Param(i as nat)
        },
        ExprNode::Dummy(_, s) => Shape::Dummy(s),
        ExprNode::App(t, es) => Shape::App(t, expand_all(heap, nargs, es, bound)),
    }
}

/// The trees that the nodes `es` stand for.
pub open spec fn expand_all(heap: Seq<ExprNode>, nargs: nat, es: Vec<ExprNode>, bound: nat) -> Seq<
    Shape,
>
    decreases bound, es, 0nat,
{
    Seq::new(
        es@.len(),
        |k: int|
            if 0 <= k < es@.len() {
                expand(heap, nargs, es@[k], bound)
            } else {
                Shape::Param(0)
            },
    )
}

/// Whether every application in what the node `e` stands for has as many
/// arguments as `arity` says that its term takes.
pub open spec fn arities_ok(
    heap: Seq<ExprNode>,
    nargs: nat,
    e: ExprNode,
    bound: nat,
    arity: spec_fn(TermID) -> nat,
) -> bool
    decreases bound, e,
{
    match e {
        ExprNode::Ref(i) => i >= nargs && i < bound && i < heap.len() ==> arities_ok(
            heap,
            nargs,
            heap[i as int],
            i as nat,
            arity,
        ),
        ExprNode::Dummy(_, _) => true,
        ExprNode::App(t, es) => arity(t) == es@.len() && forall|k: int|
            0 <= k < es@.len() ==> arities_ok(heap, nargs, #[trigger] es@[k], bound, arity),
    }
}

/// The state of the reader: the stack of expressions that were built and
/// not used yet, and the store of expressions that can be referred to by
/// number.
pub struct Machine {
    pub stack: Seq<Shape>,
    pub store: Seq<Shape>,
}

/// The reader after the application of `t` to the topmost `arity(t)`
/// expressions of the stack took their place.
pub open spec fn apply(m: Machine, t: TermID, n: nat) -> Machine {
    let at = m.stack.len() - n;
    Machine {
        stack: m.stack.subrange(0, at).push(Shape::App(t, m.stack.subrange(at, m.stack.len() as int))),
        store: m.store,
    }
}

/// The reader after one command of an expression: a term is applied to the
/// expressions on top of the stack, a reference or a dummy variable is put
/// on the stack, and what is saved or new goes to the store. Other
/// commands do not occur in expressions.
pub open spec fn step(m: Machine, c: ProofCmd, arity: spec_fn(TermID) -> nat) -> Option<Machine> {
    match c {
        ProofCmd::Term(t) => if arity(t) <= m.stack.len() {
            Some(apply(m, t, arity(t)))
        } else {
            None
        },
        ProofCmd::TermSave(t) => if arity(t) <= m.stack.len() {
            let m1 = apply(m, t, arity(t));
            Some(Machine { stack: m1.stack, store: m1.store.push(m1.stack.last()) })
        } else {
            None
        },
        ProofCmd::Ref(i) => if i < m.store.len() {
            Some(Machine { stack: m.stack.push(m.store[i as int]), store: m.store })
        } else {
            None
        },
        ProofCmd::Dummy(s) => Some(
            Machine { stack: m.stack.push(Shape::Dummy(s)), store: m.store.push(Shape::Dummy(s)) },
        ),
        _ => None,
    }
}

/// The reader after the commands `cmds`.
pub open spec fn read(m: Machine, cmds: Seq<ProofCmd>, arity: spec_fn(TermID) -> nat) -> Option<
    Machine,
>
    decreases cmds.len(),
{
    if cmds.len() == 0 {
        Some(m)
    } else {
        match read(m, cmds.drop_last(), arity) {
            None => None,
            Some(m1) => step(m1, cmds.last(), arity),
        }
    }
}

/// Reading two streams in a row is reading the first and then the second.
pub proof fn lemma_read_concat(
    m: Machine,
    a: Seq<ProofCmd>,
    b: Seq<ProofCmd>,
    arity: spec_fn(TermID) -> nat,
)
    ensures
        read(m, a + b, arity) == (match read(m, a, arity) {
            None => None,
            Some(m1) => read(m1, b, arity),
        }),
    decreases b.len(),
{
    if b.len() == 0 {
        assert(a + b =~= a);
    } else {
        lemma_read_concat(m, a, b.drop_last(), arity);
        assert((a + b).drop_last() =~= a + b.drop_last());
        assert((a + b).last() == b.last());
    }
}

/// Reading one command is one step.
pub proof fn lemma_read_one(m: Machine, c: ProofCmd, arity: spec_fn(TermID) -> nat)
    ensures
        read(m, seq![c], arity) == step(m, c, arity),
{
    assert(seq![c].drop_last() =~= Seq::<ProofCmd>::empty());
    assert(read(m, Seq::<ProofCmd>::empty(), arity) == Some(m));
}

/// What the store holds for the back-reference table `st`: every entry of
/// the heap that has a number stands under that number in the store, and
/// the next free number is the length of the store.
pub open spec fn store_ok(heap: Seq<ExprNode>, nargs: nat, st: ReorderState, store: Seq<Shape>) -> bool {
    &&& st.idx == store.len()
    &&& st.map.len() == heap.len()
    &&& nargs <= heap.len()
    &&& forall|i: int|
        0 <= i < heap.len() ==> match #[trigger] st.map[i] {
            Some(v) => v < store.len() && store[v as int] == expand(
                heap,
                nargs,
                ExprNode::Ref(i as usize),
                (i + 1) as nat,
            ),
            None => i >= nargs,
        }
}

/// The reader reads back one node.
///
/// If the node `e` is written as `cmds`, the reader that starts with the
/// store that the back-reference table describes ends with the tree of `e`
/// on top of the stack and with the store that the table describes
/// then; and the number that is returned for a node that is saved, a
/// reference or a dummy variable is the place of its tree in the store.
pub proof fn lemma_read_node(
    heap: Seq<ExprNode>,
    nargs: nat,
    st: ReorderState,
    e: ExprNode,
    save: bool,
    bound: nat,
    m: Machine,
    arity: spec_fn(TermID) -> nat,
)
    requires
        bound <= heap.len(),
        heap.len() <= usize::MAX,
        expr_proof_node(heap, st, e, save, bound) is Ok,
        store_ok(heap, nargs, st, m.store),
        arities_ok(heap, nargs, e, bound, arity),
    ensures
        ({
            let res = expr_proof_node(heap, st, e, save, bound)->Ok_0;
            let tree = expand(heap, nargs, e, bound);
            &&& read(m, res.0, arity) is Some
            &&& read(m, res.0, arity)->Some_0.stack == m.stack.push(tree)
            &&& store_ok(heap, nargs, res.1, read(m, res.0, arity)->Some_0.store)
            &&& (save || !(e is App)) ==> res.2 < res.1.idx && read(
                m,
                res.0,
                arity,
            )->Some_0.store[res.2 as int] == tree
        }),
    decreases bound, e, 1nat,
{
    match e {
        ExprNode::Ref(i) => {
            match st.map[i as int] {
                None => {
                    let inner = expr_proof_node(heap, st, heap[i as int], true, i as nat);
                    lemma_read_node(heap, nargs, st, heap[i as int], true, i as nat, m, arity);
                    let r = inner->Ok_0;
                    let m1 = read(m, r.0, arity)->Some_0;
                    let st1 = ReorderState { map: r.1.map.update(i as int, Some(r.2)), idx: r.1.idx };
                    assert(store_ok(heap, nargs, st1, m1.store)) by {
                        assert forall|j: int| 0 <= j < heap.len() implies match #[trigger] st1.map[j] {
                            Some(v) => v < m1.store.len() && m1.store[v as int] == expand(
                                heap,
                                nargs,
                                ExprNode::Ref(j as usize),
                                (j + 1) as nat,
                            ),
                            None => j >= nargs,
                        } by {
                            if j != i {
                                assert(st1.map[j] == r.1.map[j]);
                            }
                        }
                    }
                },
                Some(n) => {
                    lemma_read_one(m, ProofCmd::Ref(n), arity);
                },
            }
        },
        ExprNode::Dummy(_, s) => {
            lemma_read_one(m, ProofCmd::Dummy(s), arity);
            let m1 = step(m, ProofCmd::Dummy(s), arity)->Some_0;
            let st1 = ReorderState { map: st.map, idx: (st.idx + 1) as u32 };
            assert(store_ok(heap, nargs, st1, m1.store)) by {
                assert forall|j: int| 0 <= j < heap.len() implies match #[trigger] st1.map[j] {
                    Some(v) => v < m1.store.len() && m1.store[v as int] == expand(
                        heap,
                        nargs,
                        ExprNode::Ref(j as usize),
                        (j + 1) as nat,
                    ),
                    None => j >= nargs,
                } by {
                    assert(st1.map[j] == st.map[j]);
                }
            }
        },
        ExprNode::App(t, es) => {
            let args = expr_proof_args(heap, st, es, 0, bound);
            lemma_read_args(heap, nargs, st, es, 0, bound, m, arity);
            let c = args->Ok_0.0;
            let st1 = args->Ok_0.1;
            let m1 = read(m, c, arity)->Some_0;
            let kids = expand_all(heap, nargs, es, bound);
            assert(m1.stack == m.stack + kids) by {
                assert(kids.subrange(0, es@.len() as int) =~= kids);
            }
            let last = if save {
                ProofCmd::TermSave(t)
            } else {
                ProofCmd::Term(t)
            };
            assert(c.push(last) =~= c + seq![last]);
            lemma_read_concat(m, c, seq![last], arity);
            lemma_read_one(m1, last, arity);
            let m2 = apply(m1, t, arity(t));
            assert(m1.stack.subrange(0, m1.stack.len() - arity(t)) =~= m.stack);
            assert(m1.stack.subrange(m1.stack.len() - arity(t), m1.stack.len() as int) =~= kids);
            assert(m2.stack == m.stack.push(Shape::App(t, kids)));
            if save {
                let m3 = Machine { stack: m2.stack, store: m2.store.push(m2.stack.last()) };
                let st2 = ReorderState { map: st1.map, idx: (st1.idx + 1) as u32 };
                assert(store_ok(heap, nargs, st2, m3.store)) by {
                    assert forall|j: int| 0 <= j < heap.len() implies match #[trigger] st2.map[j] {
                        Some(v) => v < m3.store.len() && m3.store[v as int] == expand(
                            heap,
                            nargs,
                            ExprNode::Ref(j as usize),
                            (j + 1) as nat,
                        ),
                        None => j >= nargs,
                    } by {
                        assert(st2.map[j] == st1.map[j]);
                    }
                }
            }
        },
    }
}

/// The reader reads back a list of nodes: it ends with their trees on top
/// of the stack, in order.
pub proof fn lemma_read_args(
    heap: Seq<ExprNode>,
    nargs: nat,
    st: ReorderState,
    es: Vec<ExprNode>,
    k: nat,
    bound: nat,
    m: Machine,
    arity: spec_fn(TermID) -> nat,
)
    requires
        bound <= heap.len(),
        heap.len() <= usize::MAX,
        k <= es@.len(),
        expr_proof_args(heap, st, es, k, bound) is Ok,
        store_ok(heap, nargs, st, m.store),
        forall|j: int| 0 <= j < es@.len() ==> arities_ok(heap, nargs, #[trigger] es@[j], bound, arity),
    ensures
        ({
            let res = expr_proof_args(heap, st, es, k, bound)->Ok_0;
            &&& read(m, res.0, arity) is Some
            &&& read(m, res.0, arity)->Some_0.stack == m.stack + expand_all(
                heap,
                nargs,
                es,
                bound,
            ).subrange(k as int, es@.len() as int)
            &&& store_ok(heap, nargs, res.1, read(m, res.0, arity)->Some_0.store)
        }),
    decreases bound, es, es@.len() - k,
{
    let kids = expand_all(heap, nargs, es, bound);
    if k >= es@.len() {
        assert(m.stack + kids.subrange(k as int, es@.len() as int) =~= m.stack);
    } else {
        let first = expr_proof_node(heap, st, es@[k as int], false, bound)->Ok_0;
        lemma_read_node(heap, nargs, st, es@[k as int], false, bound, m, arity);
        let m1 = read(m, first.0, arity)->Some_0;
        lemma_read_args(heap, nargs, first.1, es, k + 1, bound, m1, arity);
        let rest = expr_proof_args(heap, first.1, es, k + 1, bound)->Ok_0;
        lemma_read_concat(m, first.0, rest.0, arity);
        assert(m.stack.push(kids[k as int]) + kids.subrange(k as int + 1, es@.len() as int)
            =~= m.stack + kids.subrange(k as int, es@.len() as int));
    }
}

/// The store of a reader that knows the arguments of a declaration and
/// nothing else.
pub open spec fn params(nargs: nat) -> Seq<Shape> {
    Seq::new(nargs, |i: int| Shape::Param(i as nat))
}

/// The reader reads back an expression.
///
/// If the expression `head` over the heap `heap` of a declaration with
/// `nargs` arguments is written as `cmds`, a reader that knows the
/// arguments and reads `cmds` ends with one expression on its stack: the
/// tree that `head` stands for.
pub proof fn lemma_expr_stream_reads_back(
    heap: Seq<ExprNode>,
    nargs: u32,
    head: ExprNode,
    save: bool,
    arity: spec_fn(TermID) -> nat,
)
    requires
        nargs <= heap.len(),
        heap.len() <= usize::MAX,
        expr_proof(
            heap,
            ReorderState { map: initial_map(nargs, heap.len()), idx: nargs },
            head,
            save,
        ) is Ok,
        arities_ok(heap, nargs as nat, head, heap.len(), arity),
    ensures
        ({
            let cmds = expr_proof(
                heap,
                ReorderState { map: initial_map(nargs, heap.len()), idx: nargs },
                head,
                save,
            )->Ok_0.0;
            let start = Machine { stack: Seq::empty(), store: params(nargs as nat) };
            &&& read(start, cmds, arity) is Some
            &&& read(start, cmds, arity)->Some_0.stack == seq![
                expand(heap, nargs as nat, head, heap.len()),
            ]
        }),
{
    let st = ReorderState { map: initial_map(nargs, heap.len()), idx: nargs };
    let start = Machine { stack: Seq::empty(), store: params(nargs as nat) };
    assert(store_ok(heap, nargs as nat, st, start.store));
    lemma_read_node(heap, nargs as nat, st, head, save, heap.len(), start, arity);
    assert(Seq::<Shape>::empty().push(expand(heap, nargs as nat, head, heap.len())) =~= seq![
        expand(heap, nargs as nat, head, heap.len()),
    ]);
}

/// The reader reads back an expression that is written after others of
/// the same declaration.
///
/// If the back-reference table `st` is what earlier expressions over the
/// heap `heap` left, the store of the reader `m` is what `st` describes,
/// and the expression `head` is then written as `cmds`, the reader that
/// reads `cmds` puts the tree that `head` stands for on its stack, and
/// its store is what the table describes then.
pub proof fn lemma_next_expr_stream_reads_back(
    heap: Seq<ExprNode>,
    nargs: nat,
    st: ReorderState,
    head: ExprNode,
    save: bool,
    m: Machine,
    arity: spec_fn(TermID) -> nat,
)
    requires
        heap.len() <= usize::MAX,
        store_ok(heap, nargs, st, m.store),
        expr_proof(heap, st, head, save) is Ok,
        arities_ok(heap, nargs, head, heap.len(), arity),
    ensures
        ({
            let res = expr_proof(heap, st, head, save)->Ok_0;
            &&& read(m, res.0, arity) is Some
            &&& read(m, res.0, arity)->Some_0.stack == m.stack.push(
                expand(heap, nargs, head, heap.len()),
            )
            &&& store_ok(heap, nargs, res.1, read(m, res.0, arity)->Some_0.store)
        }),
{
    lemma_read_node(heap, nargs, st, head, save, heap.len(), m, arity);
}

} // verus!
