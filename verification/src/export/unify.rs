//! The unify stream: an expression DAG written in prefix order, for the
//! reader to match an expression against.

use crate::export::cmd::{
    lemma_unify_bytes_concat, lemma_unify_bytes_one, unify_bytes, ExportError, UnifyCmd,
};
use crate::export::reorder::{commit, Reorder};
use crate::expr::ExprNode;
use vstd::prelude::*;

verus! {

/// State of the traversal that writes a unify stream: the back-reference
/// table, the next free number, and the heap entries that were entered but
/// whose number is not fixed yet.
pub struct UnifyState {
    pub map: Seq<Option<u32>>,
    pub idx: u32,
    pub save: Seq<usize>,
}

/// Outcome of writing part of a unify stream: the commands and the state
/// after them, or the reason why the expression cannot be written.
pub type UnifyResult = Result<(Seq<UnifyCmd>, UnifyState), ExportError>;

/// `res` with the commands `cmds` in front of it.
pub open spec fn unify_after(cmds: Seq<UnifyCmd>, res: UnifyResult) -> UnifyResult {
    match res {
        Ok((c, st)) => Ok((cmds + c, st)),
        Err(e) => Err(e),
    }
}

/// The unify stream of the node `e`.
///
/// A reference to an entry without a number enters that entry, which may
/// itself refer to earlier entries only (those below `bound`); a reference
/// to an entry with a number is written as such, and fixes the number of
/// all pending entries. A dummy variable and an application that closes
/// pending entries take the next free number.
pub open spec fn unify_node(
    heap: Seq<ExprNode>,
    st: UnifyState,
    e: ExprNode,
    bound: nat,
) -> UnifyResult
    decreases bound, e,
{
    match e {
        ExprNode::Ref(i) => {
            if i >= bound || i >= heap.len() || i >= st.map.len() {
                Err(ExportError::Malformed)
            } else {
                match st.map[i as int] {
                    None => unify_node(
                        heap,
                        UnifyState { map: st.map, idx: st.idx, save: st.save.push(i) },
                        heap[i as int],
                        i as nat,
                    ),
                    Some(n) => Ok(
                        (
                            seq![UnifyCmd::Ref(n)],
                            UnifyState {
                                map: commit(st.map, st.save, n),
                                idx: st.idx,
                                save: Seq::empty(),
                            },
                        ),
                    ),
                }
            }
        },
        ExprNode::Dummy(_, s) => {
            if st.idx == u32::MAX {
                Err(ExportError::TooLarge)
            } else {
                Ok(
                    (
                        seq![UnifyCmd::Dummy(s)],
                        UnifyState {
                            map: commit(st.map, st.save, st.idx),
                            idx: (st.idx + 1) as u32,
                            save: Seq::empty(),
                        },
                    ),
                )
            }
        },
        ExprNode::App(t, es) => {
            if st.save.len() == 0 {
                unify_after(seq![UnifyCmd::Term(t)], unify_args(heap, st, es, 0, bound))
            } else if st.idx == u32::MAX {
                Err(ExportError::TooLarge)
            } else {
                unify_after(
                    seq![UnifyCmd::TermSave(t)],
                    unify_args(
                        heap,
                        UnifyState {
                            map: commit(st.map, st.save, st.idx),
                            idx: (st.idx + 1) as u32,
                            save: Seq::empty(),
                        },
                        es,
                        0,
                        bound,
                    ),
                )
            }
        },
    }
}

/// The unify streams of the nodes `es[k..]`, one after the other.
pub open spec fn unify_args(
    heap: Seq<ExprNode>,
    st: UnifyState,
    es: Vec<ExprNode>,
    k: nat,
    bound: nat,
) -> UnifyResult
    decreases bound, es, es@.len() - k,
{
    if k >= es@.len() {
        Ok((Seq::empty(), st))
    } else {
        match unify_node(heap, st, es@[k as int], bound) {
            Err(e) => Err(e),
            Ok((c, st1)) => unify_after(c, unify_args(heap, st1, es, k + 1, bound)),
        }
    }
}

/// The unify stream of `head`, as the exporter starts it: every heap entry
/// may be referred to.
pub open spec fn unify_expr(heap: Seq<ExprNode>, st: UnifyState, head: ExprNode) -> UnifyResult {
    unify_node(heap, st, head, heap.len())
}

/// Whether `save` lists entries of a table of `len` entries only.
pub open spec fn save_in_range(save: Seq<usize>, len: nat) -> bool {
    forall|j: int| 0 <= j < save.len() ==> save[j] < len
}

/// Commands put in front in two parts are put in front as one.
pub proof fn lemma_unify_after_assoc(a: Seq<UnifyCmd>, b: Seq<UnifyCmd>, res: UnifyResult)
    ensures
        unify_after(a, unify_after(b, res)) == unify_after(a + b, res),
{
    match res {
        Ok((c, st)) => {
            assert(a + (b + c) =~= (a + b) + c);
        },
        Err(e) => {},
    }
}

fn unify_rec(
    w: &mut Vec<u8>,
    heap: &Vec<ExprNode>,
    reorder: &mut Reorder,
    head: &ExprNode,
    save: &mut Vec<usize>,
    bound: usize,
) -> (r: Result<(), ExportError>)
    requires
        bound <= heap@.len(),
        old(reorder).map@.len() == heap@.len(),
        save_in_range(old(save)@, heap@.len()),
    ensures
        match unify_node(
            heap@,
            (UnifyState { map: old(reorder).map@, idx: old(reorder).idx, save: old(save)@ }),
            *head,
            bound as nat,
        ) {
            Ok((cmds, st)) => {
                &&& r is Ok
                &&& final(w)@ == old(w)@ + unify_bytes(cmds)
                &&& final(reorder).map@ == st.map
                &&& final(reorder).idx == st.idx
                &&& final(save)@ == st.save
                &&& final(reorder).map@.len() == heap@.len()
                &&& save_in_range(final(save)@, heap@.len())
            },
            Err(e) => r == Err::<(), ExportError>(e),
        },
    decreases bound, head,
{
    match head {
        ExprNode::Ref(i) => {
            let i: usize = *i;
            if i >= bound {
                return Err(ExportError::Malformed);
            }
            match reorder.map[i] {
                None => {
                    save.push(i);
                    unify_rec(w, heap, reorder, &heap[i], save, i)
                },
                Some(n) => {
                    reorder.commit(save, n);
                    UnifyCmd::Ref(n).write_to(w);
                    proof {
                        lemma_unify_bytes_one(UnifyCmd::Ref(n));
                    }
                    Ok(())
                },
            }
        },
        ExprNode::Dummy(_, s) => {
            if reorder.idx == u32::MAX {
                return Err(ExportError::TooLarge);
            }
            let n: u32 = reorder.idx;
            reorder.commit(save, n);
            reorder.idx = n + 1;
            UnifyCmd::Dummy(*s).write_to(w);
            proof {
                lemma_unify_bytes_one(UnifyCmd::Dummy(*s));
            }
            Ok(())
        },
        ExprNode::App(t, es) => {
            let ghost first: UnifyCmd;
            if save.len() == 0 {
                UnifyCmd::Term(*t).write_to(w);
                proof {
                    first = UnifyCmd::Term(*t);
                }
            } else {
                if reorder.idx == u32::MAX {
                    return Err(ExportError::TooLarge);
                }
                let n: u32 = reorder.idx;
                reorder.commit(save, n);
                reorder.idx = n + 1;
                UnifyCmd::TermSave(*t).write_to(w);
                proof {
                    first = UnifyCmd::TermSave(*t);
                }
            }
            let ghost st0 = UnifyState { map: reorder.map@, idx: reorder.idx, save: save@ };
            let ghost whole = unify_args(heap@, st0, *es, 0, bound as nat);
            let ghost acc: Seq<UnifyCmd> = Seq::empty();
            proof {
                lemma_unify_bytes_one(first);
                assert(unify_after(acc, whole) == whole) by {
                    match whole {
                        Ok((c, st)) => {
                            assert(acc + c =~= c);
                        },
                        Err(e) => {},
                    }
                }
            }
            let mut k: usize = 0;
            while k < es.len()
                invariant
                    head is App,
                    head->App_1 == *es,
                    0 <= k <= es@.len(),
                    bound <= heap@.len(),
                    reorder.map@.len() == heap@.len(),
                    save_in_range(save@, heap@.len()),
                    w@ == old(w)@ + unify_bytes(seq![first] + acc),
                    unify_node(
                        heap@,
                        (UnifyState {
                            map: old(reorder).map@,
                            idx: old(reorder).idx,
                            save: old(save)@,
                        }),
                        *head,
                        bound as nat,
                    ) == unify_after(seq![first], whole),
                    whole == unify_after(
                        acc,
                        unify_args(
                            heap@,
                            (UnifyState { map: reorder.map@, idx: reorder.idx, save: save@ }),
                            *es,
                            k as nat,
                            bound as nat,
                        ),
                    ),
                decreases es@.len() - k,
            {
                let ghost cur = UnifyState { map: reorder.map@, idx: reorder.idx, save: save@ };
                let ghost w1 = w@;
                match unify_rec(w, heap, reorder, &es[k], save, bound) {
                    Err(e) => {
                        return Err(e);
                    },
                    Ok(()) => {},
                }
                proof {
                    let step = unify_node(heap@, cur, es@[k as int], bound as nat);
                    let c = step->Ok_0.0;
                    let st1 = step->Ok_0.1;
                    let rest = unify_args(heap@, st1, *es, (k + 1) as nat, bound as nat);
                    lemma_unify_after_assoc(acc, c, rest);
                    lemma_unify_bytes_concat(seq![first] + acc, c);
                    assert((seq![first] + acc) + c =~= seq![first] + (acc + c));
                    acc = acc + c;
                }
                k += 1;
            }
            proof {
                assert(acc + Seq::<UnifyCmd>::empty() =~= acc);
            }
            Ok(())
        },
    }
}

/// Writes the unify stream of `head` to `w`.
///
/// `reorder` holds the numbers given so far and `save` the entries that
/// wait for one; both are brought up to date. An expression that refers to
/// a heap entry that does not exist, or whose heap refers forwards, is
/// reported as malformed; one that needs more back-references than 32 bits
/// can number as too large. What `w`, `reorder` and `save` hold after an
/// error is left open: the caller discards them.
pub fn write_expr_unify(
    w: &mut Vec<u8>,
    heap: &Vec<ExprNode>,
    reorder: &mut Reorder,
    head: &ExprNode,
    save: &mut Vec<usize>,
) -> (r: Result<(), ExportError>)
    requires
        old(reorder).map@.len() == heap@.len(),
        save_in_range(old(save)@, heap@.len()),
    ensures
        match unify_expr(
            heap@,
            (UnifyState { map: old(reorder).map@, idx: old(reorder).idx, save: old(save)@ }),
            *head,
        ) {
            Ok((cmds, st)) => {
                &&& r is Ok
                &&& final(w)@ == old(w)@ + unify_bytes(cmds)
                &&& final(reorder).map@ == st.map
                &&& final(reorder).idx == st.idx
                &&& final(save)@ == st.save
                &&& final(reorder).map@.len() == heap@.len()
                &&& save_in_range(final(save)@, heap@.len())
            },
            Err(e) => r == Err::<(), ExportError>(e),
        },
{
    unify_rec(w, heap, reorder, head, save, heap.len())
}

} // verus!
