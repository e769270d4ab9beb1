//! A reader for the unify stream of an expression, and the proof that it
//! reads back what was written.

use crate::export::cmd::{ExportError, UnifyCmd};
use crate::export::reader::{arities_ok, expand, expand_all, params, Shape};
use crate::export::reorder::{commit, initial_map};
use crate::export::unify::{unify_after, unify_args, unify_expr, unify_node, UnifyState};
use crate::expr::ExprNode;
use crate::ids::TermID;
use vstd::prelude::*;

verus! {

/// What the reader has read: an expression, the commands that follow it,
/// and the store of expressions that can be referred to by number.
pub type Decoded = Option<(Shape, Seq<UnifyCmd>, Seq<Shape>)>;

/// What the reader has read of a list: the expressions, the commands that
/// follow them, and the store.
pub type DecodedList = Option<(Seq<Shape>, Seq<UnifyCmd>, Seq<Shape>)>;

/// The reader reads one expression from the front of `cmds`.
///
/// A reference stands for the expression that the store holds under its
/// number. A dummy variable takes the next number of the store. A term
/// is followed by as many expressions as it takes arguments; a term that
/// is saved takes the next number of the store before its arguments are
/// read.
pub open spec fn decode(cmds: Seq<UnifyCmd>, store: Seq<Shape>, arity: spec_fn(TermID) -> nat) -> Decoded
    decreases cmds.len(), 0nat,
{
    if cmds.len() == 0 {
        None
    } else {
        let rest = cmds.subrange(1, cmds.len() as int);
        match cmds[0] {
            UnifyCmd::Ref(n) => if n < store.len() {
                Some((store[n as int], rest, store))
            } else {
                None
            },
            UnifyCmd::Dummy(s) => Some((Shape::Dummy(s), rest, store.push(Shape::Dummy(s)))),
            UnifyCmd::Term(t) => match decode_list(rest, store, arity(t), arity) {
                None => None,
                Some((kids, after, st)) => Some((Shape::App(t, kids), after, st)),
            },
            UnifyCmd::TermSave(t) => match decode_list(
                rest,
                store.push(Shape::Param(0)),
                arity(t),
                arity,
            ) {
                None => None,
                Some((kids, after, st)) => Some(
                    (
                        Shape::App(t, kids),
                        after,
                        st.update(store.len() as int, Shape::App(t, kids)),
                    ),
                ),
            },
            UnifyCmd::Hyp => None,
        }
    }
}

/// The reader reads `k` expressions from the front of `cmds`.
pub open spec fn decode_list(
    cmds: Seq<UnifyCmd>,
    store: Seq<Shape>,
    k: nat,
    arity: spec_fn(TermID) -> nat,
) -> DecodedList
    decreases cmds.len(), 1 + k,
{
    if k == 0 {
        Some((Seq::empty(), cmds, store))
    } else {
        match decode(cmds, store, arity) {
            None => None,
            Some((x, rest, st)) => if rest.len() < cmds.len() {
                match decode_list(rest, st, (k - 1) as nat, arity) {
                    None => None,
                    Some((xs, after, st2)) => Some((seq![x] + xs, after, st2)),
                }
            } else {
                None
            },
        }
    }
}

/// Whether the heap entry `j` is listed in `save`.
pub open spec fn pending(save: Seq<usize>, j: int) -> bool {
    exists|n: int| 0 <= n < save.len() && save[n] == j
}

/// What the store holds for the traversal state `st` below `bound`: every
/// entry of the heap below `bound` that has a number stands under that
/// number in the store; every number is a place of the store; the
/// arguments have their numbers; and the next free number is the length
/// of the store.
pub open spec fn store_ok(
    heap: Seq<ExprNode>,
    nargs: nat,
    st: UnifyState,
    store: Seq<Shape>,
    bound: nat,
) -> bool {
    &&& st.idx == store.len()
    &&& st.map.len() == heap.len()
    &&& nargs <= heap.len()
    &&& bound <= heap.len()
    &&& forall|i: int|
        0 <= i < heap.len() ==> match #[trigger] st.map[i] {
            Some(v) => v < store.len() && (i < bound ==> store[v as int] == expand(
                heap,
                nargs,
                ExprNode::Ref(i as usize),
                (i + 1) as nat,
            )),
            None => i >= nargs,
        }
}

/// Whether every entry that waits for a number stands for the node `e`,
/// lies at or above `bound`, and has no number yet.
pub open spec fn save_ok(
    heap: Seq<ExprNode>,
    nargs: nat,
    st: UnifyState,
    e: ExprNode,
    bound: nat,
) -> bool {
    forall|n: int|
        0 <= n < st.save.len() ==> {
            let j = #[trigger] st.save[n];
            &&& bound <= j < heap.len()
            &&& j >= nargs
            &&& expand(heap, nargs, ExprNode::Ref(j), (j + 1) as nat) == expand(
                heap,
                nargs,
                e,
                bound,
            )
        }
}

/// What reading a node leaves, seen from `outer`, a bound above the bound
/// of the node: the store still holds what it held, the entries that
/// waited for a number have the tree of the node, and every other entry
/// at or above the bound of the node is as it was.
pub open spec fn frame_ok(
    heap: Seq<ExprNode>,
    st: UnifyState,
    st1: UnifyState,
    store: Seq<Shape>,
    store1: Seq<Shape>,
    tree: Shape,
    bound: nat,
) -> bool {
    &&& st1.save.len() == 0
    &&& store.len() <= store1.len()
    &&& forall|v: int| 0 <= v < store.len() ==> #[trigger] store1[v] == store[v]
    &&& forall|j: int|
        bound <= j < heap.len() ==> if pending(st.save, j) {
            (#[trigger] st1.map[j]) matches Some(v) && v < store1.len() && store1[v as int] == tree
        } else {
            st1.map[j] == st.map[j]
        }
}

/// Whether the number `v` of the entry `k` is the number that the entry
/// has in `st`, a number that is free in `st`, or the number that an
/// entry below `bound` has in `st`.
pub open spec fn number_ok(st: UnifyState, bound: nat, k: int, v: u32) -> bool {
    ||| st.map[k] == Some(v)
    ||| v >= st.idx
    ||| exists|j: int| 0 <= j < bound && j < st.map.len() && #[trigger] st.map[j] == Some(v)
}

/// Whether every number that an entry has in `st1` is the number that it
/// had in `st`, a number that was free in `st`, or the number that an
/// entry below `bound` had in `st`.
pub open spec fn numbers_ok(st: UnifyState, st1: UnifyState, bound: nat) -> bool {
    &&& st.idx <= st1.idx
    &&& st1.map.len() == st.map.len()
    &&& forall|k: int|
        0 <= k < st1.map.len() && (#[trigger] st1.map[k]) is Some ==> number_ok(
            st,
            bound,
            k,
            st1.map[k]->Some_0,
        )
}

/// Numbers that are in order after one part of a traversal and after the
/// next are in order after both.
proof fn lemma_numbers_ok_trans(a: UnifyState, b: UnifyState, c: UnifyState, bound: nat)
    requires
        numbers_ok(a, b, bound),
        numbers_ok(b, c, bound),
    ensures
        numbers_ok(a, c, bound),
{
    assert forall|k: int| 0 <= k < c.map.len() && (#[trigger] c.map[k]) is Some implies number_ok(
        a,
        bound,
        k,
        c.map[k]->Some_0,
    ) by {
        let v = c.map[k]->Some_0;
        assert(number_ok(b, bound, k, v));
        if b.map[k] == Some(v) {
            assert(b.map[k] is Some);
            assert(number_ok(a, bound, k, v));
        } else if v >= b.idx {
        } else {
            let j = choose|j: int|
                0 <= j < bound && j < b.map.len() && #[trigger] b.map[j] == Some(v);
            assert(b.map[j] is Some);
            assert(number_ok(a, bound, j, v));
            if a.map[j] == Some(v) {
            } else if v >= a.idx {
            } else {
                let j2 = choose|j2: int|
                    0 <= j2 < bound && j2 < a.map.len() && #[trigger] a.map[j2] == Some(v);
                assert(a.map[j2] == Some(v));
            }
        }
    }
}

/// The commands that follow the first of a stream that starts with `c`.
proof fn lemma_rest(c: UnifyCmd, cmds: Seq<UnifyCmd>)
    ensures
        (seq![c] + cmds).subrange(1, (seq![c] + cmds).len() as int) == cmds,
        (seq![c] + cmds)[0] == c,
{
    assert((seq![c] + cmds).subrange(1, (seq![c] + cmds).len() as int) =~= cmds);
}

/// The reader reads back one node.
///
/// If the node `e` is written as `cmds`, the reader that starts with a
/// store that the traversal state describes reads the tree of `e` from
/// `cmds`, leaves what follows `cmds`, and ends with a store that the
/// state describes then.
pub proof fn lemma_decode_node(
    heap: Seq<ExprNode>,
    nargs: nat,
    st: UnifyState,
    e: ExprNode,
    bound: nat,
    store: Seq<Shape>,
    tail: Seq<UnifyCmd>,
    arity: spec_fn(TermID) -> nat,
)
    requires
        heap.len() <= usize::MAX,
        unify_node(heap, st, e, bound) is Ok,
        store_ok(heap, nargs, st, store, bound),
        save_ok(heap, nargs, st, e, bound),
        arities_ok(heap, nargs, e, bound, arity),
    ensures
        ({
            let res = unify_node(heap, st, e, bound)->Ok_0;
            let tree = expand(heap, nargs, e, bound);
            let d = decode(res.0 + tail, store, arity);
            &&& res.0.len() > 0
            &&& d is Some
            &&& d->Some_0.0 == tree
            &&& d->Some_0.1 == tail
            &&& store_ok(heap, nargs, res.1, d->Some_0.2, bound)
            &&& frame_ok(heap, st, res.1, store, d->Some_0.2, tree, bound)
            &&& numbers_ok(st, res.1, bound)
        }),
    decreases bound, e, 1nat,
{
    let tree = expand(heap, nargs, e, bound);
    match e {
        ExprNode::Ref(i) => {
            match st.map[i as int] {
                None => {
                    let st_in = UnifyState { map: st.map, idx: st.idx, save: st.save.push(i) };
                    let inner = heap[i as int];
                    assert(save_ok(heap, nargs, st_in, inner, i as nat)) by {
                        assert forall|n: int| 0 <= n < st_in.save.len() implies ({
                            let j = #[trigger] st_in.save[n];
                            &&& i <= j < heap.len()
                            &&& j >= nargs
                            &&& expand(heap, nargs, ExprNode::Ref(j), (j + 1) as nat) == expand(
                                heap,
                                nargs,
                                inner,
                                i as nat,
                            )
                        }) by {
                            if n < st.save.len() {
                                assert(st_in.save[n] == st.save[n]);
                            }
                        }
                    }
                    lemma_decode_node(heap, nargs, st_in, inner, i as nat, store, tail, arity);
                    let res = unify_node(heap, st_in, inner, i as nat)->Ok_0;
                    let store1 = decode(res.0 + tail, store, arity)->Some_0.2;
                    assert(pending(st_in.save, i as int)) by {
                        assert(st_in.save[st.save.len() as int] == i);
                    }
                    assert(store_ok(heap, nargs, res.1, store1, bound)) by {
                        assert forall|k: int| 0 <= k < heap.len() implies match #[trigger] res.1.map[k] {
                            Some(v) => v < store1.len() && (k < bound ==> store1[v as int] == expand(
                                heap,
                                nargs,
                                ExprNode::Ref(k as usize),
                                (k + 1) as nat,
                            )),
                            None => k >= nargs,
                        } by {
                            if i <= k {
                                if pending(st_in.save, k) {
                                    let n = choose|n: int|
                                        0 <= n < st_in.save.len() && st_in.save[n] == k;
                                    assert(st_in.save[n] == k);
                                    if k < bound {
                                        // only the entry `i` itself lies below `bound`
                                        if n < st.save.len() {
                                            assert(st.save[n] == k);
                                        }
                                    }
                                } else {
                                    assert(res.1.map[k] == st.map[k]);
                                    match st.map[k] {
                                        Some(v) => {
                                            assert(store1[v as int] == store[v as int]);
                                        },
                                        None => {},
                                    }
                                }
                            }
                        }
                    }
                    assert(frame_ok(heap, st, res.1, store, store1, tree, bound)) by {
                        assert forall|j: int| bound <= j < heap.len() implies if pending(
                            st.save,
                            j,
                        ) {
                            (#[trigger] res.1.map[j]) matches Some(v) && v < store1.len()
                                && store1[v as int] == tree
                        } else {
                            res.1.map[j] == st.map[j]
                        } by {
                            if pending(st.save, j) {
                                let n = choose|n: int| 0 <= n < st.save.len() && st.save[n] == j;
                                assert(st_in.save[n] == j);
                                assert(pending(st_in.save, j));
                            } else {
                                if pending(st_in.save, j) {
                                    let n = choose|n: int|
                                        0 <= n < st_in.save.len() && st_in.save[n] == j;
                                    if n < st.save.len() {
                                        assert(st.save[n] == j);
                                    }
                                }
                            }
                        }
                    }
                    assert(numbers_ok(st, res.1, bound)) by {
                        assert forall|k: int|
                            0 <= k < res.1.map.len() && (#[trigger] res.1.map[k])
                                is Some implies number_ok(st, bound, k, res.1.map[k]->Some_0) by {
                            let v = res.1.map[k]->Some_0;
                            assert(number_ok(st_in, i as nat, k, v));
                            if st_in.map[k] == Some(v) {
                            } else if v >= st_in.idx {
                            } else {
                                let j = choose|j: int|
                                    0 <= j < i && j < st_in.map.len() && #[trigger] st_in.map[j]
                                        == Some(v);
                                assert(st.map[j] == Some(v));
                            }
                        }
                    }
                },
                Some(n) => {
                    let st1 = UnifyState {
                        map: commit(st.map, st.save, n),
                        idx: st.idx,
                        save: Seq::empty(),
                    };
                    lemma_rest(UnifyCmd::Ref(n), tail);
                    assert(st.map[i as int] == Some(n));
                    lemma_committed(heap, nargs, st, st1, e, bound, store, store, n, tree);
                },
            }
        },
        ExprNode::Dummy(_, s) => {
            let st1 = UnifyState {
                map: commit(st.map, st.save, st.idx),
                idx: (st.idx + 1) as u32,
                save: Seq::empty(),
            };
            lemma_rest(UnifyCmd::Dummy(s), tail);
            lemma_committed(
                heap,
                nargs,
                st,
                st1,
                e,
                bound,
                store,
                store.push(Shape::Dummy(s)),
                st.idx,
                tree,
            );
        },
        ExprNode::App(t, es) => {
            let kids = expand_all(heap, nargs, es, bound);
            assert(kids.subrange(0, es@.len() as int) =~= kids);
            if st.save.len() == 0 {
                let args = unify_args(heap, st, es, 0, bound)->Ok_0;
                lemma_rest(UnifyCmd::Term(t), args.0 + tail);
                assert(seq![UnifyCmd::Term(t)] + args.0 + tail =~= seq![UnifyCmd::Term(t)] + (
                args.0 + tail));
                lemma_decode_args(heap, nargs, st, es, 0, bound, store, tail, arity);
                let store1 = decode_list(args.0 + tail, store, es@.len(), arity)->Some_0.2;
                assert(frame_ok(heap, st, args.1, store, store1, tree, bound)) by {
                    assert forall|j: int| bound <= j < heap.len() implies !pending(st.save, j) by {}
                }
            } else {
                let st_in = UnifyState {
                    map: commit(st.map, st.save, st.idx),
                    idx: (st.idx + 1) as u32,
                    save: Seq::empty(),
                };
                let store_in = store.push(Shape::Param(0));
                let args = unify_args(heap, st_in, es, 0, bound)->Ok_0;
                lemma_rest(UnifyCmd::TermSave(t), args.0 + tail);
                assert(seq![UnifyCmd::TermSave(t)] + args.0 + tail =~= seq![UnifyCmd::TermSave(t)]
                    + (args.0 + tail));
                assert(store_ok(heap, nargs, st_in, store_in, bound)) by {
                    assert forall|k: int| 0 <= k < heap.len() implies match #[trigger] st_in.map[k] {
                        Some(v) => v < store_in.len() && (k < bound ==> store_in[v as int] == expand(
                            heap,
                            nargs,
                            ExprNode::Ref(k as usize),
                            (k + 1) as nat,
                        )),
                        None => k >= nargs,
                    } by {
                        if pending(st.save, k) {
                            let n = choose|n: int| 0 <= n < st.save.len() && st.save[n] == k;
                            assert(st.save[n] == k);
                        } else {
                            assert(st_in.map[k] == st.map[k]);
                        }
                    }
                }
                lemma_decode_args(heap, nargs, st_in, es, 0, bound, store_in, tail, arity);
                let store1 = decode_list(args.0 + tail, store_in, es@.len(), arity)->Some_0.2;
                let store2 = store1.update(store.len() as int, Shape::App(t, kids));
                assert(store_ok(heap, nargs, args.1, store2, bound)) by {
                    assert forall|k: int| 0 <= k < heap.len() implies match #[trigger] args.1.map[k] {
                        Some(v) => v < store2.len() && (k < bound ==> store2[v as int] == expand(
                            heap,
                            nargs,
                            ExprNode::Ref(k as usize),
                            (k + 1) as nat,
                        )),
                        None => k >= nargs,
                    } by {
                        match args.1.map[k] {
                            Some(v) => {
                                if k < bound {
                                    // no entry below the bound has the
                                    // number of this node
                                    assert(st_in.map[k] == st.map[k]) by {
                                        if pending(st.save, k) {
                                            let n = choose|n: int|
                                                0 <= n < st.save.len() && st.save[n] == k;
                                            assert(st.save[n] == k);
                                        }
                                    }
                                    assert(args.1.map[k] is Some);
                                    assert(number_ok(st_in, bound, k, v));
                                    if st_in.map[k] == Some(v) {
                                    } else if v >= st_in.idx {
                                    } else {
                                        let j = choose|j: int|
                                            0 <= j < bound && j < st_in.map.len()
                                                && #[trigger] st_in.map[j] == Some(v);
                                        assert(st_in.map[j] == st.map[j]) by {
                                            if pending(st.save, j) {
                                                let n = choose|n: int|
                                                    0 <= n < st.save.len() && st.save[n] == j;
                                                assert(st.save[n] == j);
                                            }
                                        }
                                    }
                                    assert(v != store.len());
                                }
                            },
                            None => {},
                        }
                    }
                }
                assert(numbers_ok(st, st_in, bound)) by {
                    assert forall|k: int|
                        0 <= k < st_in.map.len() && (#[trigger] st_in.map[k]) is Some implies number_ok(
                        st,
                        bound,
                        k,
                        st_in.map[k]->Some_0,
                    ) by {
                        if pending(st.save, k) {
                            assert(st_in.map[k] == Some(st.idx));
                        } else {
                            assert(st_in.map[k] == st.map[k]);
                        }
                    }
                }
                lemma_numbers_ok_trans(st, st_in, args.1, bound);
                assert(frame_ok(heap, st, args.1, store, store2, tree, bound)) by {
                    assert forall|j: int| bound <= j < heap.len() implies if pending(
                        st.save,
                        j,
                    ) {
                        (#[trigger] args.1.map[j]) matches Some(v) && v < store2.len()
                            && store2[v as int] == tree
                    } else {
                        args.1.map[j] == st.map[j]
                    } by {
                        assert(args.1.map[j] == st_in.map[j]);
                    }
                }
            }
        },
    }
}

/// What giving the entries that wait the number `n` leaves, when the
/// store holds the tree of the node under `n`.
proof fn lemma_committed(
    heap: Seq<ExprNode>,
    nargs: nat,
    st: UnifyState,
    st1: UnifyState,
    e: ExprNode,
    bound: nat,
    store: Seq<Shape>,
    store1: Seq<Shape>,
    n: u32,
    tree: Shape,
)
    requires
        store_ok(heap, nargs, st, store, bound),
        save_ok(heap, nargs, st, e, bound),
        tree == expand(heap, nargs, e, bound),
        st1.map == commit(st.map, st.save, n),
        st1.save.len() == 0,
        st1.idx == store1.len(),
        store.len() <= store1.len(),
        forall|v: int| 0 <= v < store.len() ==> #[trigger] store1[v] == store[v],
        n < store1.len(),
        store1[n as int] == tree,
        st.idx <= st1.idx,
        n >= st.idx || exists|j: int|
            0 <= j < bound && j < st.map.len() && #[trigger] st.map[j] == Some(n),
    ensures
        store_ok(heap, nargs, st1, store1, bound),
        frame_ok(heap, st, st1, store, store1, tree, bound),
        numbers_ok(st, st1, bound),
{
    assert forall|k: int| 0 <= k < st1.map.len() && (#[trigger] st1.map[k]) is Some implies number_ok(
        st,
        bound,
        k,
        st1.map[k]->Some_0,
    ) by {
        if pending(st.save, k) {
            assert(st1.map[k] == Some(n));
        } else {
            assert(st1.map[k] == st.map[k]);
        }
    }
    assert forall|k: int| 0 <= k < heap.len() implies match #[trigger] st1.map[k] {
        Some(v) => v < store1.len() && (k < bound ==> store1[v as int] == expand(
            heap,
            nargs,
            ExprNode::Ref(k as usize),
            (k + 1) as nat,
        )),
        None => k >= nargs,
    } by {
        if pending(st.save, k) {
            let m = choose|m: int| 0 <= m < st.save.len() && st.save[m] == k;
            assert(st.save[m] == k);
        } else {
            assert(st1.map[k] == st.map[k]);
        }
    }
    assert forall|j: int| bound <= j < heap.len() implies if pending(st.save, j) {
        (#[trigger] st1.map[j]) matches Some(v) && v < store1.len() && store1[v as int] == tree
    } else {
        st1.map[j] == st.map[j]
    } by {}
}

/// The reader reads back a list of nodes.
pub proof fn lemma_decode_args(
    heap: Seq<ExprNode>,
    nargs: nat,
    st: UnifyState,
    es: Vec<ExprNode>,
    k: nat,
    bound: nat,
    store: Seq<Shape>,
    tail: Seq<UnifyCmd>,
    arity: spec_fn(TermID) -> nat,
)
    requires
        heap.len() <= usize::MAX,
        k <= es@.len(),
        st.save.len() == 0,
        unify_args(heap, st, es, k, bound) is Ok,
        store_ok(heap, nargs, st, store, bound),
        forall|j: int| 0 <= j < es@.len() ==> arities_ok(heap, nargs, #[trigger] es@[j], bound, arity),
    ensures
        ({
            let res = unify_args(heap, st, es, k, bound)->Ok_0;
            let d = decode_list(res.0 + tail, store, (es@.len() - k) as nat, arity);
            &&& d is Some
            &&& d->Some_0.0 == expand_all(heap, nargs, es, bound).subrange(
                k as int,
                es@.len() as int,
            )
            &&& d->Some_0.1 == tail
            &&& store_ok(heap, nargs, res.1, d->Some_0.2, bound)
            &&& res.1.save.len() == 0
            &&& store.len() <= d->Some_0.2.len()
            &&& forall|v: int| 0 <= v < store.len() ==> #[trigger] d->Some_0.2[v] == store[v]
            &&& forall|j: int| bound <= j < heap.len() ==> #[trigger] res.1.map[j] == st.map[j]
            &&& numbers_ok(st, res.1, bound)
        }),
    decreases bound, es, es@.len() - k,
{
    let kids = expand_all(heap, nargs, es, bound);
    if k >= es@.len() {
        assert(kids.subrange(k as int, es@.len() as int) =~= Seq::<Shape>::empty());
        assert(Seq::<UnifyCmd>::empty() + tail =~= tail);
    } else {
        let first = unify_node(heap, st, es@[k as int], bound)->Ok_0;
        let rest = unify_args(heap, first.1, es, k + 1, bound)->Ok_0;
        lemma_decode_node(heap, nargs, st, es@[k as int], bound, store, rest.0 + tail, arity);
        let d1 = decode(first.0 + (rest.0 + tail), store, arity)->Some_0;
        assert(first.0 + rest.0 + tail =~= first.0 + (rest.0 + tail));
        lemma_decode_args(heap, nargs, first.1, es, k + 1, bound, d1.2, tail, arity);
        assert(seq![kids[k as int]] + kids.subrange(k as int + 1, es@.len() as int)
            =~= kids.subrange(k as int, es@.len() as int));
        assert forall|j: int| bound <= j < heap.len() implies #[trigger] rest.1.map[j]
            == st.map[j] by {
            assert(!pending(st.save, j));
            assert(first.1.map[j] == st.map[j]);
        }
        lemma_numbers_ok_trans(st, first.1, rest.1, bound);
    }
}

/// The reader reads back an expression.
///
/// If the expression `head` over the heap `heap` of a declaration with
/// `nargs` arguments is written as `cmds`, a reader that knows the
/// arguments reads the tree that `head` stands for from `cmds`, and
/// leaves what follows `cmds`.
pub proof fn lemma_unify_stream_reads_back(
    heap: Seq<ExprNode>,
    nargs: u32,
    head: ExprNode,
    tail: Seq<UnifyCmd>,
    arity: spec_fn(TermID) -> nat,
)
    requires
        nargs <= heap.len(),
        heap.len() <= usize::MAX,
        unify_expr(
            heap,
            UnifyState { map: initial_map(nargs, heap.len()), idx: nargs, save: Seq::empty() },
            head,
        ) is Ok,
        arities_ok(heap, nargs as nat, head, heap.len(), arity),
    ensures
        ({
            let cmds = unify_expr(
                heap,
                UnifyState { map: initial_map(nargs, heap.len()), idx: nargs, save: Seq::empty() },
                head,
            )->Ok_0.0;
            let d = decode(cmds + tail, params(nargs as nat), arity);
            &&& d is Some
            &&& d->Some_0.0 == expand(heap, nargs as nat, head, heap.len())
            &&& d->Some_0.1 == tail
        }),
{
    let st = UnifyState { map: initial_map(nargs, heap.len()), idx: nargs, save: Seq::empty() };
    assert(store_ok(heap, nargs as nat, st, params(nargs as nat), heap.len()));
    lemma_decode_node(
        heap,
        nargs as nat,
        st,
        head,
        heap.len(),
        params(nargs as nat),
        tail,
        arity,
    );
}

/// The reader reads back an expression that is written after others of
/// the same declaration.
///
/// If the traversal state `st`, in which no entry waits for a number, is
/// what earlier expressions over the heap `heap` left, the store `store`
/// is what `st` describes, and the expression `head` is then written as
/// `cmds`, the reader reads the tree that `head` stands for from `cmds`,
/// leaves what follows `cmds`, and its store is what the state describes
/// then.
pub proof fn lemma_next_unify_stream_reads_back(
    heap: Seq<ExprNode>,
    nargs: nat,
    st: UnifyState,
    head: ExprNode,
    store: Seq<Shape>,
    tail: Seq<UnifyCmd>,
    arity: spec_fn(TermID) -> nat,
)
    requires
        heap.len() <= usize::MAX,
        st.save.len() == 0,
        store_ok(heap, nargs, st, store, heap.len()),
        unify_expr(heap, st, head) is Ok,
        arities_ok(heap, nargs, head, heap.len(), arity),
    ensures
        ({
            let res = unify_expr(heap, st, head)->Ok_0;
            let d = decode(res.0 + tail, store, arity);
            &&& d is Some
            &&& d->Some_0.0 == expand(heap, nargs, head, heap.len())
            &&& d->Some_0.1 == tail
            &&& res.1.save.len() == 0
            &&& store_ok(heap, nargs, res.1, d->Some_0.2, heap.len())
        }),
{
    lemma_decode_node(heap, nargs, st, head, heap.len(), store, tail, arity);
}

} // verus!
