//! The proof stream: expressions and proofs written in postfix order, for
//! the reader's stack machine.

use crate::export::cmd::{
    lemma_proof_bytes_concat, lemma_proof_bytes_one, proof_bytes, ExportError, ProofCmd,
};
use crate::export::reorder::{Reorder, ReorderState};
use crate::expr::{ExprNode, ProofNode};
use vstd::prelude::*;

verus! {

/// Outcome of writing one node: the commands, the table after them and the
/// back-reference number of the node (0 if it was given none); or the
/// reason why the node cannot be written.
pub type NodeResult = Result<(Seq<ProofCmd>, ReorderState, u32), ExportError>;

/// Outcome of writing a list of nodes.
pub type ListResult = Result<(Seq<ProofCmd>, ReorderState), ExportError>;

/// `res` with the commands `cmds` in front of it.
pub open spec fn list_after(cmds: Seq<ProofCmd>, res: ListResult) -> ListResult {
    match res {
        Ok((c, st)) => Ok((cmds + c, st)),
        Err(e) => Err(e),
    }
}

/// `res` with the commands `cmds` in front of it.
pub open spec fn node_after(cmds: Seq<ProofCmd>, res: NodeResult) -> NodeResult {
    match res {
        Ok((c, st, n)) => Ok((cmds + c, st, n)),
        Err(e) => Err(e),
    }
}

/// What follows the arguments of an application: the command that builds
/// it, which also takes the next free number if the application is to be
/// saved.
pub open spec fn close_app(
    args: ListResult,
    plain: ProofCmd,
    saving: ProofCmd,
    save: bool,
) -> NodeResult {
    match args {
        Err(e) => Err(e),
        Ok((c, st)) => {
            if !save {
                Ok((c.push(plain), st, 0u32))
            } else if st.idx == u32::MAX {
                Err(ExportError::TooLarge)
            } else {
                Ok(
                    (
                        c.push(saving),
                        ReorderState { map: st.map, idx: (st.idx + 1) as u32 },
                        st.idx,
                    ),
                )
            }
        },
    }
}

/// What follows the first visit of heap entry `i`: the entry is known
/// under the number that the visit returned.
pub open spec fn record_visit(res: NodeResult, i: int) -> NodeResult {
    match res {
        Err(e) => Err(e),
        Ok((c, st, n)) => Ok((c, ReorderState { map: st.map.update(i, Some(n)), idx: st.idx }, n)),
    }
}

/// The proof stream of the expression node `e`.
///
/// A reference to an entry without a number writes that entry, to be saved,
/// and records its number; the entry may refer to earlier entries only
/// (those below `bound`). A reference to an entry with a number is written
/// as such. A dummy variable takes the next free number. An application
/// follows its arguments, none of which is saved.
pub open spec fn expr_proof_node(
    heap: Seq<ExprNode>,
    st: ReorderState,
    e: ExprNode,
    save: bool,
    bound: nat,
) -> NodeResult
    decreases bound, e,
{
    match e {
        ExprNode::Ref(i) => {
            if i >= bound || i >= heap.len() || i >= st.map.len() {
                Err(ExportError::Malformed)
            } else {
                match st.map[i as int] {
                    None => record_visit(
                        expr_proof_node(heap, st, heap[i as int], true, i as nat),
                        i as int,
                    ),
                    Some(n) => Ok((seq![ProofCmd::Ref(n)], st, n)),
                }
            }
        },
        ExprNode::Dummy(_, s) => {
            if st.idx == u32::MAX {
                Err(ExportError::TooLarge)
            } else {
                Ok(
                    (
                        seq![ProofCmd::Dummy(s)],
                        ReorderState { map: st.map, idx: (st.idx + 1) as u32 },
                        st.idx,
                    ),
                )
            }
        },
        ExprNode::App(t, es) => close_app(
            expr_proof_args(heap, st, es, 0, bound),
            ProofCmd::Term(t),
            ProofCmd::TermSave(t),
            save,
        ),
    }
}

/// The proof streams of the expression nodes `es[k..]`, one after the other,
/// none of them saved.
pub open spec fn expr_proof_args(
    heap: Seq<ExprNode>,
    st: ReorderState,
    es: Vec<ExprNode>,
    k: nat,
    bound: nat,
) -> ListResult
    decreases bound, es, es@.len() - k,
{
    if k >= es@.len() {
        Ok((Seq::empty(), st))
    } else {
        match expr_proof_node(heap, st, es@[k as int], false, bound) {
            Err(e) => Err(e),
            Ok((c, st1, _)) => list_after(c, expr_proof_args(heap, st1, es, k + 1, bound)),
        }
    }
}

/// The proof stream of the expression `head`, as the exporter starts it:
/// every heap entry may be referred to.
pub open spec fn expr_proof(
    heap: Seq<ExprNode>,
    st: ReorderState,
    head: ExprNode,
    save: bool,
) -> NodeResult {
    expr_proof_node(heap, st, head, save, heap.len())
}

/// The proof stream of the proof node `e`, where `hyps[n]` is the number
/// under which hypothesis `n` is known.
///
/// References and applications of term constructors are written as in an
/// expression. A hypothesis is a reference to its number. An application of
/// a theorem follows its arguments, the proofs of its hypotheses and the
/// statement that results, none of them saved. A conversion is announced
/// before its target, which is not saved, and the proof that it converts,
/// whose number it takes. A dummy variable makes the proof malformed.
pub open spec fn proof_node(
    heap: Seq<ProofNode>,
    st: ReorderState,
    hyps: Seq<u32>,
    e: ProofNode,
    save: bool,
    bound: nat,
) -> NodeResult
    decreases bound, e,
{
    match e {
        ProofNode::Ref(i) => {
            if i >= bound || i >= heap.len() || i >= st.map.len() {
                Err(ExportError::Malformed)
            } else {
                match st.map[i as int] {
                    None => record_visit(
                        proof_node(heap, st, hyps, heap[i as int], true, i as nat),
                        i as int,
                    ),
                    Some(n) => Ok((seq![ProofCmd::Ref(n)], st, n)),
                }
            }
        },
        ProofNode::Dummy(_, _) => Err(ExportError::Malformed),
        ProofNode::Term { term, args } => close_app(
            proof_args(heap, st, hyps, args, 0, bound),
            ProofCmd::Term(term),
            ProofCmd::TermSave(term),
            save,
        ),
        ProofNode::Hyp(n, _) => {
            if n >= hyps.len() {
                Err(ExportError::Malformed)
            } else {
                Ok((seq![ProofCmd::Ref(hyps[n as int])], st, hyps[n as int]))
            }
        },
        ProofNode::Thm { thm, args, hyps: subproofs, tgt } => {
            match proof_args(heap, st, hyps, args, 0, bound) {
                Err(e) => Err(e),
                Ok((c1, st1)) => match proof_args(heap, st1, hyps, subproofs, 0, bound) {
                    Err(e) => Err(e),
                    Ok((c2, st2)) => match proof_node(heap, st2, hyps, *tgt, false, bound) {
                        Err(e) => Err(e),
                        Ok((c3, st3, _)) => close_app(
                            Ok((c1 + c2 + c3, st3)),
                            ProofCmd::Thm(thm),
                            ProofCmd::ThmSave(thm),
                            save,
                        ),
                    },
                },
            }
        },
        ProofNode::Conv { tgt, proof } => {
            match proof_node(heap, st, hyps, *tgt, false, bound) {
                Err(e) => Err(e),
                Ok((c1, st1, _)) => node_after(
                    seq![ProofCmd::Conv] + c1,
                    proof_node(heap, st1, hyps, *proof, save, bound),
                ),
            }
        },
    }
}

/// The proof streams of the proof nodes `es[k..]`, one after the other, none
/// of them saved.
pub open spec fn proof_args(
    heap: Seq<ProofNode>,
    st: ReorderState,
    hyps: Seq<u32>,
    es: Vec<ProofNode>,
    k: nat,
    bound: nat,
) -> ListResult
    decreases bound, es, es@.len() - k,
{
    if k >= es@.len() {
        Ok((Seq::empty(), st))
    } else {
        match proof_node(heap, st, hyps, es@[k as int], false, bound) {
            Err(e) => Err(e),
            Ok((c, st1, _)) => list_after(c, proof_args(heap, st1, hyps, es, k + 1, bound)),
        }
    }
}

/// The proof stream of the proof `head`, as the exporter starts it: every
/// heap entry may be referred to.
pub open spec fn proof_stream(
    heap: Seq<ProofNode>,
    st: ReorderState,
    hyps: Seq<u32>,
    head: ProofNode,
    save: bool,
) -> NodeResult {
    proof_node(heap, st, hyps, head, save, heap.len())
}

/// Commands put in front in two parts are put in front as one.
pub proof fn lemma_list_after_assoc(a: Seq<ProofCmd>, b: Seq<ProofCmd>, res: ListResult)
    ensures
        list_after(a, list_after(b, res)) == list_after(a + b, res),
{
    match res {
        Ok((c, st)) => {
            assert(a + (b + c) =~= (a + b) + c);
        },
        Err(e) => {},
    }
}

proof fn lemma_list_after_empty(res: ListResult)
    ensures
        list_after(Seq::empty(), res) == res,
{
    match res {
        Ok((c, st)) => {
            assert(Seq::<ProofCmd>::empty() + c =~= c);
        },
        Err(e) => {},
    }
}

/// Writes the command that closes an application, and takes a number for
/// it if it is to be saved.
fn write_close(
    w: &mut Vec<u8>,
    reorder: &mut Reorder,
    plain: ProofCmd,
    saving: ProofCmd,
    save: bool,
    Ghost(c): Ghost<Seq<ProofCmd>>,
    Ghost(w0): Ghost<Seq<u8>>,
) -> (r: Result<u32, ExportError>)
    requires
        old(w)@ == w0 + proof_bytes(c),
    ensures
        final(reorder).map@ == old(reorder).map@,
        match close_app(Ok((c, old(reorder)@)), plain, saving, save) {
            Ok((cmds, st, n)) => {
                &&& r == Ok::<u32, ExportError>(n)
                &&& final(w)@ == w0 + proof_bytes(cmds)
                &&& final(reorder)@ == st
            },
            Err(e) => r == Err::<u32, ExportError>(e),
        },
{
    if !save {
        plain.write_to(w);
        proof {
            lemma_proof_bytes_one(plain);
            lemma_proof_bytes_concat(c, seq![plain]);
            assert(c.push(plain) =~= c + seq![plain]);
            assert(w@ =~= w0 + proof_bytes(c.push(plain)));
        }
        Ok(0)
    } else if reorder.idx == u32::MAX {
        Err(ExportError::TooLarge)
    } else {
        saving.write_to(w);
        let n: u32 = reorder.idx;
        reorder.idx = n + 1;
        proof {
            lemma_proof_bytes_one(saving);
            lemma_proof_bytes_concat(c, seq![saving]);
            assert(c.push(saving) =~= c + seq![saving]);
            assert(w@ =~= w0 + proof_bytes(c.push(saving)));
        }
        Ok(n)
    }
}

fn expr_proof_rec(
    w: &mut Vec<u8>,
    heap: &Vec<ExprNode>,
    reorder: &mut Reorder,
    head: &ExprNode,
    save: bool,
    bound: usize,
) -> (r: Result<u32, ExportError>)
    requires
        bound <= heap@.len(),
        old(reorder).map@.len() == heap@.len(),
    ensures
        match expr_proof_node(heap@, old(reorder)@, *head, save, bound as nat) {
            Ok((cmds, st, n)) => {
                &&& r == Ok::<u32, ExportError>(n)
                &&& final(w)@ == old(w)@ + proof_bytes(cmds)
                &&& final(reorder)@ == st
                &&& final(reorder).map@.len() == heap@.len()
            },
            Err(e) => r == Err::<u32, ExportError>(e),
        },
    decreases bound, head,
{
    match head {
        ExprNode::Ref(i) => {
            let i: usize = *i;
            if i >= bound {
                return Err(ExportError::Malformed);
            }
            match reorder.map[i] {
                None => {
                    let n: u32 = match expr_proof_rec(w, heap, reorder, &heap[i], true, i) {
                        Err(e) => {
                            return Err(e);
                        },
                        Ok(n) => n,
                    };
                    reorder.map[i] = Some(n);
                    Ok(n)
                },
                Some(n) => {
                    ProofCmd::Ref(n).write_to(w);
                    proof {
                        lemma_proof_bytes_one(ProofCmd::Ref(n));
                    }
                    Ok(n)
                },
            }
        },
        ExprNode::Dummy(_, s) => {
            if reorder.idx == u32::MAX {
                return Err(ExportError::TooLarge);
            }
            ProofCmd::Dummy(*s).write_to(w);
            proof {
                lemma_proof_bytes_one(ProofCmd::Dummy(*s));
            }
            let n: u32 = reorder.idx;
            reorder.idx = n + 1;
            Ok(n)
        },
        ExprNode::App(t, es) => {
            let ghost w0 = w@;
            let ghost args = expr_proof_args(heap@, reorder@, *es, 0, bound as nat);
            match expr_proof_list(w, heap, reorder, es, bound) {
                Err(e) => {
                    return Err(e);
                },
                Ok(()) => {},
            }
            write_close(
                w,
                reorder,
                ProofCmd::Term(*t),
                ProofCmd::TermSave(*t),
                save,
                Ghost(args->Ok_0.0),
                Ghost(w0),
            )
        },
    }
}

fn expr_proof_list(
    w: &mut Vec<u8>,
    heap: &Vec<ExprNode>,
    reorder: &mut Reorder,
    es: &Vec<ExprNode>,
    bound: usize,
) -> (r: Result<(), ExportError>)
    requires
        bound <= heap@.len(),
        old(reorder).map@.len() == heap@.len(),
    ensures
        match expr_proof_args(heap@, old(reorder)@, *es, 0, bound as nat) {
            Ok((cmds, st)) => {
                &&& r is Ok
                &&& final(w)@ == old(w)@ + proof_bytes(cmds)
                &&& final(reorder)@ == st
                &&& final(reorder).map@.len() == heap@.len()
            },
            Err(e) => r == Err::<(), ExportError>(e),
        },
    decreases bound, es,
{
    let ghost whole = expr_proof_args(heap@, reorder@, *es, 0, bound as nat);
    let ghost acc: Seq<ProofCmd> = Seq::empty();
    proof {
        lemma_list_after_empty(whole);
        assert(proof_bytes(acc) =~= Seq::<u8>::empty());
        assert(w@ =~= old(w)@ + proof_bytes(acc));
    }
    let mut k: usize = 0;
    while k < es.len()
        invariant
            0 <= k <= es@.len(),
            bound <= heap@.len(),
            reorder.map@.len() == heap@.len(),
            w@ == old(w)@ + proof_bytes(acc),
            whole == expr_proof_args(heap@, old(reorder)@, *es, 0, bound as nat),
            whole == list_after(acc, expr_proof_args(heap@, reorder@, *es, k as nat, bound as nat)),
        decreases es@.len() - k,
    {
        let ghost cur = reorder@;
        match expr_proof_rec(w, heap, reorder, &es[k], false, bound) {
            Err(e) => {
                return Err(e);
            },
            Ok(_) => {},
        }
        proof {
            let step = expr_proof_node(heap@, cur, es@[k as int], false, bound as nat);
            let c = step->Ok_0.0;
            let st1 = step->Ok_0.1;
            let rest = expr_proof_args(heap@, st1, *es, (k + 1) as nat, bound as nat);
            lemma_list_after_assoc(acc, c, rest);
            lemma_proof_bytes_concat(acc, c);
            acc = acc + c;
        }
        k += 1;
    }
    proof {
        assert(acc + Seq::<ProofCmd>::empty() =~= acc);
    }
    Ok(())
}

/// Writes the proof stream of the expression `head` to `w`, and returns the
/// back-reference number of `head` (0 if it has none).
///
/// `reorder` holds the numbers given so far and is brought up to date. An
/// expression that refers to a heap entry that does not exist, or whose
/// heap refers forwards, is reported as malformed; one that needs more
/// back-references than 32 bits can number as too large. What `w` and
/// `reorder` hold after an error is left open: the caller discards them.
pub fn write_expr_proof(
    w: &mut Vec<u8>,
    heap: &Vec<ExprNode>,
    reorder: &mut Reorder,
    head: &ExprNode,
    save: bool,
) -> (r: Result<u32, ExportError>)
    requires
        old(reorder).map@.len() == heap@.len(),
    ensures
        match expr_proof(heap@, old(reorder)@, *head, save) {
            Ok((cmds, st, n)) => {
                &&& r == Ok::<u32, ExportError>(n)
                &&& final(w)@ == old(w)@ + proof_bytes(cmds)
                &&& final(reorder)@ == st
                &&& final(reorder).map@.len() == heap@.len()
            },
            Err(e) => r == Err::<u32, ExportError>(e),
        },
{
    expr_proof_rec(w, heap, reorder, head, save, heap.len())
}

fn proof_rec(
    w: &mut Vec<u8>,
    heap: &Vec<ProofNode>,
    reorder: &mut Reorder,
    hyps: &Vec<u32>,
    head: &ProofNode,
    save: bool,
    bound: usize,
) -> (r: Result<u32, ExportError>)
    requires
        bound <= heap@.len(),
        old(reorder).map@.len() == heap@.len(),
    ensures
        match proof_node(heap@, old(reorder)@, hyps@, *head, save, bound as nat) {
            Ok((cmds, st, n)) => {
                &&& r == Ok::<u32, ExportError>(n)
                &&& final(w)@ == old(w)@ + proof_bytes(cmds)
                &&& final(reorder)@ == st
                &&& final(reorder).map@.len() == heap@.len()
            },
            Err(e) => r == Err::<u32, ExportError>(e),
        },
    decreases bound, head,
{
    match head {
        ProofNode::Ref(i) => {
            let i: usize = *i;
            if i >= bound {
                return Err(ExportError::Malformed);
            }
            match reorder.map[i] {
                None => {
                    let n: u32 = match proof_rec(w, heap, reorder, hyps, &heap[i], true, i) {
                        Err(e) => {
                            return Err(e);
                        },
                        Ok(n) => n,
                    };
                    reorder.map[i] = Some(n);
                    Ok(n)
                },
                Some(n) => {
                    ProofCmd::Ref(n).write_to(w);
                    proof {
                        lemma_proof_bytes_one(ProofCmd::Ref(n));
                    }
                    Ok(n)
                },
            }
        },
        ProofNode::Dummy(_, _) => Err(ExportError::Malformed),
        ProofNode::Term { term, args } => {
            let ghost w0 = w@;
            let ghost res = proof_args(heap@, reorder@, hyps@, *args, 0, bound as nat);
            match proof_list(w, heap, reorder, hyps, args, bound) {
                Err(e) => {
                    return Err(e);
                },
                Ok(()) => {},
            }
            write_close(
                w,
                reorder,
                ProofCmd::Term(*term),
                ProofCmd::TermSave(*term),
                save,
                Ghost(res->Ok_0.0),
                Ghost(w0),
            )
        },
        ProofNode::Hyp(n, _) => {
            let n: usize = *n;
            if n >= hyps.len() {
                return Err(ExportError::Malformed);
            }
            let h: u32 = hyps[n];
            ProofCmd::Ref(h).write_to(w);
            proof {
                lemma_proof_bytes_one(ProofCmd::Ref(h));
            }
            Ok(h)
        },
        ProofNode::Thm { thm, args, hyps: subproofs, tgt } => {
            let ghost w0 = w@;
            let ghost r1 = proof_args(heap@, reorder@, hyps@, *args, 0, bound as nat);
            match proof_list(w, heap, reorder, hyps, args, bound) {
                Err(e) => {
                    return Err(e);
                },
                Ok(()) => {},
            }
            let ghost r2 = proof_args(heap@, reorder@, hyps@, *subproofs, 0, bound as nat);
            match proof_list(w, heap, reorder, hyps, subproofs, bound) {
                Err(e) => {
                    return Err(e);
                },
                Ok(()) => {},
            }
            let ghost r3 = proof_node(heap@, reorder@, hyps@, **tgt, false, bound as nat);
            match proof_rec(w, heap, reorder, hyps, tgt, false, bound) {
                Err(e) => {
                    return Err(e);
                },
                Ok(_) => {},
            }
            let ghost c1 = r1->Ok_0.0;
            let ghost c2 = r2->Ok_0.0;
            let ghost c3 = r3->Ok_0.0;
            proof {
                lemma_proof_bytes_concat(c1, c2);
                lemma_proof_bytes_concat(c1 + c2, c3);
                assert(w@ =~= w0 + proof_bytes(c1 + c2 + c3));
            }
            write_close(
                w,
                reorder,
                ProofCmd::Thm(*thm),
                ProofCmd::ThmSave(*thm),
                save,
                Ghost(c1 + c2 + c3),
                Ghost(w0),
            )
        },
        ProofNode::Conv { tgt, proof } => {
            ProofCmd::Conv.write_to(w);
            let ghost r1 = proof_node(heap@, reorder@, hyps@, **tgt, false, bound as nat);
            match proof_rec(w, heap, reorder, hyps, tgt, false, bound) {
                Err(e) => {
                    return Err(e);
                },
                Ok(_) => {},
            }
            let ghost r2 = proof_node(heap@, reorder@, hyps@, **proof, save, bound as nat);
            let n: u32 = match proof_rec(w, heap, reorder, hyps, proof, save, bound) {
                Err(e) => {
                    return Err(e);
                },
                Ok(n) => n,
            };
            proof {
                let c1 = r1->Ok_0.0;
                let c2 = r2->Ok_0.0;
                lemma_proof_bytes_one(ProofCmd::Conv);
                lemma_proof_bytes_concat(seq![ProofCmd::Conv], c1);
                lemma_proof_bytes_concat(seq![ProofCmd::Conv] + c1, c2);
                assert(w@ =~= old(w)@ + proof_bytes(seq![ProofCmd::Conv] + c1 + c2));
            }
            Ok(n)
        },
    }
}

fn proof_list(
    w: &mut Vec<u8>,
    heap: &Vec<ProofNode>,
    reorder: &mut Reorder,
    hyps: &Vec<u32>,
    es: &Vec<ProofNode>,
    bound: usize,
) -> (r: Result<(), ExportError>)
    requires
        bound <= heap@.len(),
        old(reorder).map@.len() == heap@.len(),
    ensures
        match proof_args(heap@, old(reorder)@, hyps@, *es, 0, bound as nat) {
            Ok((cmds, st)) => {
                &&& r is Ok
                &&& final(w)@ == old(w)@ + proof_bytes(cmds)
                &&& final(reorder)@ == st
                &&& final(reorder).map@.len() == heap@.len()
            },
            Err(e) => r == Err::<(), ExportError>(e),
        },
    decreases bound, es,
{
    let ghost whole = proof_args(heap@, reorder@, hyps@, *es, 0, bound as nat);
    let ghost acc: Seq<ProofCmd> = Seq::empty();
    proof {
        lemma_list_after_empty(whole);
        assert(proof_bytes(acc) =~= Seq::<u8>::empty());
        assert(w@ =~= old(w)@ + proof_bytes(acc));
    }
    let mut k: usize = 0;
    while k < es.len()
        invariant
            0 <= k <= es@.len(),
            bound <= heap@.len(),
            reorder.map@.len() == heap@.len(),
            w@ == old(w)@ + proof_bytes(acc),
            whole == proof_args(heap@, old(reorder)@, hyps@, *es, 0, bound as nat),
            whole == list_after(
                acc,
                proof_args(heap@, reorder@, hyps@, *es, k as nat, bound as nat),
            ),
        decreases es@.len() - k,
    {
        let ghost cur = reorder@;
        match proof_rec(w, heap, reorder, hyps, &es[k], false, bound) {
            Err(e) => {
                return Err(e);
            },
            Ok(_) => {},
        }
        proof {
            let step = proof_node(heap@, cur, hyps@, es@[k as int], false, bound as nat);
            let c = step->Ok_0.0;
            let st1 = step->Ok_0.1;
            let rest = proof_args(heap@, st1, hyps@, *es, (k + 1) as nat, bound as nat);
            lemma_list_after_assoc(acc, c, rest);
            lemma_proof_bytes_concat(acc, c);
            acc = acc + c;
        }
        k += 1;
    }
    proof {
        assert(acc + Seq::<ProofCmd>::empty() =~= acc);
    }
    Ok(())
}

/// Writes the proof stream of the proof `head` to `w`, and returns the
/// back-reference number of `head` (0 if it has none). `hyps[n]` is the
/// number under which hypothesis `n` is known.
///
/// `reorder` holds the numbers given so far and is brought up to date. A
/// proof that refers to a heap entry or a hypothesis that does not exist,
/// whose heap refers forwards, or that holds a dummy variable is reported
/// as malformed; one that needs more back-references than 32 bits can
/// number as too large. What `w` and `reorder` hold after an error is left
/// open: the caller discards them.
pub fn write_proof(
    w: &mut Vec<u8>,
    heap: &Vec<ProofNode>,
    reorder: &mut Reorder,
    hyps: &Vec<u32>,
    head: &ProofNode,
    save: bool,
) -> (r: Result<u32, ExportError>)
    requires
        old(reorder).map@.len() == heap@.len(),
    ensures
        match proof_stream(heap@, old(reorder)@, hyps@, *head, save) {
            Ok((cmds, st, n)) => {
                &&& r == Ok::<u32, ExportError>(n)
                &&& final(w)@ == old(w)@ + proof_bytes(cmds)
                &&& final(reorder)@ == st
                &&& final(reorder).map@.len() == heap@.len()
            },
            Err(e) => r == Err::<u32, ExportError>(e),
        },
{
    proof_rec(w, heap, reorder, hyps, head, save, heap.len())
}

} // verus!
