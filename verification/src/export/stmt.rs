//! The statements of the proof section: one for each sort, term and
//! theorem, in the order of their declaration.

use crate::export::body::{new_reorder, start_reorder};
use crate::export::cmd::{
    cmd_bytes, cmd_payload_bytes, lemma_proof_bytes_concat, lemma_proof_bytes_one, payload_fits,
    proof_bytes, write_cmd, write_cmd_bytes, ExportError, ProofCmd, STMT_AXIOM, STMT_DEF,
    STMT_LOCAL, STMT_SORT, STMT_TERM, STMT_THM,
};
use crate::export::proof_stream::{
    expr_proof, lemma_list_after_assoc, list_after, proof_stream, write_expr_proof, write_proof,
    ListResult,
};
use crate::export::reorder::{Reorder, ReorderState};
use crate::expr::{Expr, ExprNode, Proof, ProofNode, Term, Thm};
use crate::syntax::{Modifiers, LOCAL};
use vstd::prelude::*;

verus! {

/// The bit that marks the statement of a local declaration.
pub open spec fn local_bit(vis: Modifiers) -> u8 {
    if vis == Modifiers(LOCAL) {
        STMT_LOCAL
    } else {
        0u8
    }
}

fn local_flag(vis: Modifiers) -> (b: u8)
    ensures
        b == local_bit(vis),
{
    if vis == Modifiers(LOCAL) {
        STMT_LOCAL
    } else {
        0
    }
}

/// The payload of the statement of a definition: the proof stream of its
/// value and a zero byte.
pub open spec fn def_payload(nargs: nat, val: Expr) -> Result<Seq<u8>, ExportError> {
    match start_reorder(nargs, val.heap@.len()) {
        Err(e) => Err(e),
        Ok(st0) => match expr_proof(val.heap@, st0, val.head, false) {
            Err(e) => Err(e),
            Ok((cmds, _, _)) => Ok(proof_bytes(cmds) + seq![0u8]),
        },
    }
}

/// A payload under the opcode `cmd`, if it can be framed.
pub open spec fn framed(cmd: u8, payload: Result<Seq<u8>, ExportError>) -> Result<
    Seq<u8>,
    ExportError,
> {
    match payload {
        Err(e) => Err(e),
        Ok(p) => if payload_fits(p.len()) {
            Ok(cmd_payload_bytes(cmd, p))
        } else {
            Err(ExportError::TooLarge)
        },
    }
}

/// The statement of a term: a bare opcode for a primitive term, the framed
/// payload for a definition.
pub open spec fn term_stmt(td: Term) -> Result<Seq<u8>, ExportError> {
    match td.val {
        None => Ok(cmd_bytes(STMT_TERM, 2)),
        Some(val) => framed(STMT_DEF | local_bit(td.vis), def_payload(td.args@.len(), val)),
    }
}

/// Appends the statement of the term `td`.
pub fn write_term_stmt(w: &mut Vec<u8>, td: &Term) -> (r: Result<(), ExportError>)
    ensures
        match term_stmt(*td) {
            Ok(bytes) => r is Ok && final(w)@ == old(w)@ + bytes,
            Err(e) => r == Err::<(), ExportError>(e),
        },
{
    match &td.val {
        None => {
            write_cmd(w, STMT_TERM, 2);
            Ok(())
        },
        Some(val) => {
            let mut reorder: Reorder = match new_reorder(td.args.len(), val.heap.len()) {
                Err(e) => {
                    return Err(e);
                },
                Ok(r) => r,
            };
            let mut vec: Vec<u8> = Vec::new();
            match write_expr_proof(&mut vec, &val.heap, &mut reorder, &val.head, false) {
                Err(e) => {
                    return Err(e);
                },
                Ok(_) => {},
            }
            vec.push(0);
            assert(vec@ =~= def_payload(td.args@.len(), *val)->Ok_0);
            let cmd: u8 = STMT_DEF | local_flag(td.vis);
            write_cmd_bytes(w, cmd, vec.as_slice())
        },
    }
}

/// The proof streams of the hypotheses `hyps[k..]` of an axiom, each
/// followed by a `Hyp` command.
pub open spec fn axiom_hyps(
    heap: Seq<ExprNode>,
    st: ReorderState,
    hyps: Seq<ExprNode>,
    k: nat,
) -> ListResult
    decreases hyps.len() - k,
{
    if k >= hyps.len() {
        Ok((Seq::empty(), st))
    } else {
        match expr_proof(heap, st, hyps[k as int], false) {
            Err(e) => Err(e),
            Ok((c, st1, _)) => list_after(
                c.push(ProofCmd::Hyp),
                axiom_hyps(heap, st1, hyps, k + 1),
            ),
        }
    }
}

/// The payload of the statement of an axiom: its hypotheses in order, its
/// conclusion, and a zero byte.
pub open spec fn axiom_payload(td: Thm) -> Result<Seq<u8>, ExportError> {
    match start_reorder(td.args@.len(), td.heap@.len()) {
        Err(e) => Err(e),
        Ok(st0) => match axiom_hyps(td.heap@, st0, td.hyps@, 0) {
            Err(e) => Err(e),
            Ok((c1, st1)) => match expr_proof(td.heap@, st1, td.ret, false) {
                Err(e) => Err(e),
                Ok((c2, _, _)) => Ok(proof_bytes(c1 + c2) + seq![0u8]),
            },
        },
    }
}

/// The statement that the hypothesis `h` of a proof makes: `h` is a `Hyp`
/// node, or a reference that leads to one through earlier heap entries
/// (those below `bound`).
pub open spec fn resolve_hyp(heap: Seq<ProofNode>, h: ProofNode, bound: nat) -> Result<
    ProofNode,
    ExportError,
>
    decreases bound,
{
    match h {
        ProofNode::Ref(i) => if i >= bound || i >= heap.len() {
            Err(ExportError::Malformed)
        } else {
            resolve_hyp(heap, heap[i as int], i as nat)
        },
        ProofNode::Hyp(_, e) => Ok(*e),
        _ => Err(ExportError::Malformed),
    }
}

/// Outcome of writing the hypotheses of a proof: the commands, the table
/// after them, and the numbers under which the hypotheses are known.
pub type HypsResult = Result<(Seq<ProofCmd>, ReorderState, Seq<u32>), ExportError>;

/// `res` with the commands `cmds` in front of it.
pub open spec fn hyps_after(cmds: Seq<ProofCmd>, res: HypsResult) -> HypsResult {
    match res {
        Ok((c, st, hs)) => Ok((cmds + c, st, hs)),
        Err(e) => Err(e),
    }
}

/// The hypotheses `hyps[k..]` of a proof: the statement of each is written,
/// followed by a `Hyp` command, and the hypothesis takes the next free
/// number. A statement may use the hypotheses before it.
pub open spec fn proof_hyps(
    heap: Seq<ProofNode>,
    st: ReorderState,
    ehyps: Seq<u32>,
    hyps: Seq<ProofNode>,
    k: nat,
) -> HypsResult
    decreases hyps.len() - k,
{
    if k >= hyps.len() {
        Ok((Seq::empty(), st, ehyps))
    } else {
        match resolve_hyp(heap, hyps[k as int], heap.len()) {
            Err(e) => Err(e),
            Ok(e) => match proof_stream(heap, st, ehyps, e, false) {
                Err(e) => Err(e),
                Ok((c, st1, _)) => if st1.idx == u32::MAX {
                    Err(ExportError::TooLarge)
                } else {
                    hyps_after(
                        c.push(ProofCmd::Hyp),
                        proof_hyps(
                            heap,
                            ReorderState { map: st1.map, idx: (st1.idx + 1) as u32 },
                            ehyps.push(st1.idx),
                            hyps,
                            k + 1,
                        ),
                    )
                },
            },
        }
    }
}

/// The payload of the statement of a theorem: its hypotheses in order, the
/// proof of its conclusion, and a zero byte.
pub open spec fn thm_payload(nargs: nat, pf: Proof) -> Result<Seq<u8>, ExportError> {
    match start_reorder(nargs, pf.heap@.len()) {
        Err(e) => Err(e),
        Ok(st0) => match proof_hyps(pf.heap@, st0, Seq::empty(), pf.hyps@, 0) {
            Err(e) => Err(e),
            Ok((c1, st1, ehyps)) => match proof_stream(pf.heap@, st1, ehyps, pf.head, false) {
                Err(e) => Err(e),
                Ok((c2, _, _)) => Ok(proof_bytes(c1 + c2) + seq![0u8]),
            },
        },
    }
}

/// The statement of an axiom or theorem.
pub open spec fn thm_stmt(td: Thm) -> Result<Seq<u8>, ExportError> {
    match td.proof {
        None => framed(STMT_AXIOM, axiom_payload(td)),
        Some(pf) => framed(STMT_THM | local_bit(td.vis), thm_payload(td.args@.len(), pf)),
    }
}

proof fn lemma_hyps_after_assoc(a: Seq<ProofCmd>, b: Seq<ProofCmd>, res: HypsResult)
    ensures
        hyps_after(a, hyps_after(b, res)) == hyps_after(a + b, res),
{
    match res {
        Ok((c, st, hs)) => {
            assert(a + (b + c) =~= (a + b) + c);
        },
        Err(e) => {},
    }
}

/// Writes the payload of the statement of the axiom `td` to `vec`.
fn write_axiom_payload(vec: &mut Vec<u8>, td: &Thm) -> (r: Result<(), ExportError>)
    requires
        old(vec)@.len() == 0,
    ensures
        match axiom_payload(*td) {
            Ok(bytes) => r is Ok && final(vec)@ == bytes,
            Err(e) => r == Err::<(), ExportError>(e),
        },
{
    let mut reorder: Reorder = match new_reorder(td.args.len(), td.heap.len()) {
        Err(e) => {
            return Err(e);
        },
        Ok(r) => r,
    };
    let ghost st0 = reorder@;
    let ghost whole = axiom_hyps(td.heap@, st0, td.hyps@, 0);
    let ghost acc: Seq<ProofCmd> = Seq::empty();
    proof {
        match whole {
            Ok((c, st)) => {
                assert(acc + c =~= c);
            },
            Err(e) => {},
        }
        assert(vec@ =~= proof_bytes(acc));
    }
    let mut k: usize = 0;
    while k < td.hyps.len()
        invariant
            0 <= k <= td.hyps@.len(),
            reorder.map@.len() == td.heap@.len(),
            vec@ == proof_bytes(acc),
            start_reorder(td.args@.len(), td.heap@.len()) == Ok::<ReorderState, ExportError>(st0),
            whole == axiom_hyps(td.heap@, st0, td.hyps@, 0),
            whole == list_after(acc, axiom_hyps(td.heap@, reorder@, td.hyps@, k as nat)),
        decreases td.hyps@.len() - k,
    {
        let ghost cur = reorder@;
        match write_expr_proof(vec, &td.heap, &mut reorder, &td.hyps[k], false) {
            Err(e) => {
                return Err(e);
            },
            Ok(_) => {},
        }
        ProofCmd::Hyp.write_to(vec);
        proof {
            let step = expr_proof(td.heap@, cur, td.hyps@[k as int], false);
            let c = step->Ok_0.0;
            let rest = axiom_hyps(td.heap@, step->Ok_0.1, td.hyps@, (k + 1) as nat);
            let ch = c.push(ProofCmd::Hyp);
            assert(ch =~= c + seq![ProofCmd::Hyp]);
            lemma_list_after_assoc(acc, ch, rest);
            lemma_proof_bytes_one(ProofCmd::Hyp);
            lemma_proof_bytes_concat(c, seq![ProofCmd::Hyp]);
            lemma_proof_bytes_concat(acc, ch);
            assert(vec@ =~= proof_bytes(acc + ch));
            acc = acc + ch;
        }
        k += 1;
    }
    let ghost last = expr_proof(td.heap@, reorder@, td.ret, false);
    match write_expr_proof(vec, &td.heap, &mut reorder, &td.ret, false) {
        Err(e) => {
            return Err(e);
        },
        Ok(_) => {},
    }
    vec.push(0);
    proof {
        assert(acc + Seq::<ProofCmd>::empty() =~= acc);
        lemma_proof_bytes_concat(acc, last->Ok_0.0);
        assert(vec@ =~= axiom_payload(*td)->Ok_0);
    }
    Ok(())
}

fn resolve_rec<'a>(heap: &'a Vec<ProofNode>, h: &'a ProofNode, bound: usize) -> (r: Result<
    &'a ProofNode,
    ExportError,
>)
    requires
        bound <= heap@.len(),
    ensures
        match resolve_hyp(heap@, *h, bound as nat) {
            Ok(e) => r is Ok && *r->Ok_0 == e,
            Err(e) => r == Err::<&ProofNode, ExportError>(e),
        },
    decreases bound,
{
    match h {
        ProofNode::Ref(i) => {
            if *i >= bound {
                Err(ExportError::Malformed)
            } else {
                resolve_rec(heap, &heap[*i], *i)
            }
        },
        ProofNode::Hyp(_, e) => Ok(&**e),
        _ => Err(ExportError::Malformed),
    }
}

/// Writes the payload of the statement of a theorem with the proof `pf` to
/// `vec`.
fn write_thm_payload(vec: &mut Vec<u8>, nargs: usize, pf: &Proof) -> (r: Result<(), ExportError>)
    requires
        old(vec)@.len() == 0,
    ensures
        match thm_payload(nargs as nat, *pf) {
            Ok(bytes) => r is Ok && final(vec)@ == bytes,
            Err(e) => r == Err::<(), ExportError>(e),
        },
{
    let mut reorder: Reorder = match new_reorder(nargs, pf.heap.len()) {
        Err(e) => {
            return Err(e);
        },
        Ok(r) => r,
    };
    let ghost st0 = reorder@;
    let mut ehyps: Vec<u32> = Vec::new();
    let ghost whole = proof_hyps(pf.heap@, st0, Seq::empty(), pf.hyps@, 0);
    let ghost acc: Seq<ProofCmd> = Seq::empty();
    proof {
        match whole {
            Ok((c, st, hs)) => {
                assert(acc + c =~= c);
            },
            Err(e) => {},
        }
        assert(vec@ =~= proof_bytes(acc));
    }
    let mut k: usize = 0;
    while k < pf.hyps.len()
        invariant
            0 <= k <= pf.hyps@.len(),
            reorder.map@.len() == pf.heap@.len(),
            vec@ == proof_bytes(acc),
            start_reorder(nargs as nat, pf.heap@.len()) == Ok::<ReorderState, ExportError>(st0),
            whole == proof_hyps(pf.heap@, st0, Seq::empty(), pf.hyps@, 0),
            whole == hyps_after(acc, proof_hyps(pf.heap@, reorder@, ehyps@, pf.hyps@, k as nat)),
        decreases pf.hyps@.len() - k,
    {
        let ghost cur = reorder@;
        let e: &ProofNode = match resolve_rec(&pf.heap, &pf.hyps[k], pf.heap.len()) {
            Err(e) => {
                return Err(e);
            },
            Ok(e) => e,
        };
        match write_proof(vec, &pf.heap, &mut reorder, &ehyps, e, false) {
            Err(e) => {
                return Err(e);
            },
            Ok(_) => {},
        }
        if reorder.idx == u32::MAX {
            return Err(ExportError::TooLarge);
        }
        ProofCmd::Hyp.write_to(vec);
        proof {
            let step = proof_stream(pf.heap@, cur, ehyps@, *e, false);
            let c = step->Ok_0.0;
            let st1 = step->Ok_0.1;
            let rest = proof_hyps(
                pf.heap@,
                ReorderState { map: st1.map, idx: (st1.idx + 1) as u32 },
                ehyps@.push(st1.idx),
                pf.hyps@,
                (k + 1) as nat,
            );
            let ch = c.push(ProofCmd::Hyp);
            assert(ch =~= c + seq![ProofCmd::Hyp]);
            lemma_hyps_after_assoc(acc, ch, rest);
            lemma_proof_bytes_one(ProofCmd::Hyp);
            lemma_proof_bytes_concat(c, seq![ProofCmd::Hyp]);
            lemma_proof_bytes_concat(acc, ch);
            assert(vec@ =~= proof_bytes(acc + ch));
            acc = acc + ch;
        }
        ehyps.push(reorder.idx);
        reorder.idx = reorder.idx + 1;
        k += 1;
    }
    let ghost last = proof_stream(pf.heap@, reorder@, ehyps@, pf.head, false);
    match write_proof(vec, &pf.heap, &mut reorder, &ehyps, &pf.head, false) {
        Err(e) => {
            return Err(e);
        },
        Ok(_) => {},
    }
    vec.push(0);
    proof {
        assert(acc + Seq::<ProofCmd>::empty() =~= acc);
        lemma_proof_bytes_concat(acc, last->Ok_0.0);
        assert(vec@ =~= thm_payload(nargs as nat, *pf)->Ok_0);
    }
    Ok(())
}

/// Appends the statement of the axiom or theorem `td`.
pub fn write_thm_stmt(w: &mut Vec<u8>, td: &Thm) -> (r: Result<(), ExportError>)
    ensures
        match thm_stmt(*td) {
            Ok(bytes) => r is Ok && final(w)@ == old(w)@ + bytes,
            Err(e) => r == Err::<(), ExportError>(e),
        },
{
    let mut vec: Vec<u8> = Vec::new();
    let justification: &Option<Proof> = &td.proof;
    match justification {
        None => {
            match write_axiom_payload(&mut vec, td) {
                Err(e) => {
                    return Err(e);
                },
                Ok(()) => {},
            }
            write_cmd_bytes(w, STMT_AXIOM, vec.as_slice())
        },
        Some(pf) => {
            match write_thm_payload(&mut vec, td.args.len(), pf) {
                Err(e) => {
                    return Err(e);
                },
                Ok(()) => {},
            }
            let cmd: u8 = STMT_THM | local_flag(td.vis);
            write_cmd_bytes(w, cmd, vec.as_slice())
        },
    }
}

} // verus!
