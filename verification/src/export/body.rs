//! The body of a term or theorem in the file: its binders and the unify
//! stream of its statement.

use crate::export::bytes::{
    le16, le32, le64, le_bytes_u16, le_bytes_u32, patch, patch_bytes, write_u64,
};
use crate::export::cmd::{
    lemma_unify_bytes_concat, lemma_unify_bytes_one, unify_bytes, ExportError, UnifyCmd,
};
use crate::export::reorder::{initial_map, Reorder, ReorderState};
use crate::export::unify::{
    lemma_unify_after_assoc, save_in_range, unify_after, unify_expr, write_expr_unify,
    UnifyResult, UnifyState,
};
use crate::expr::{ExprNode, Term, Thm, Type};
use crate::ids::SortID;
use vstd::arithmetic::power2::{lemma2_to64, lemma2_to64_rest, lemma_pow2_unfold, pow2};
use vstd::prelude::*;

verus! {

/// The word that describes a variable: bit 63 says whether it is bound,
/// bits 56 to 62 hold its sort, and the bits below its dependencies (for a
/// bound variable, the one bit that stands for it).
pub open spec fn sort_deps(bound: bool, sort: SortID, deps: u64) -> u64 {
    (if bound {
        1u64
    } else {
        0u64
    }) << 63 | (sort.0 as u64) << 56 | deps
}

/// Appends the word that describes a variable.
pub fn write_sort_deps(w: &mut Vec<u8>, bound: bool, sort: SortID, deps: u64)
    ensures
        final(w)@ == old(w)@ + le64(sort_deps(bound, sort, deps)),
{
    let top: u64 = if bound {
        1
    } else {
        0
    };
    write_u64(w, top << 63 | (sort.0 as u64) << 56 | deps);
}

/// The number of bound variables among the first `k` arguments.
pub open spec fn bound_before(args: Seq<(String, Type)>, k: int) -> nat
    decreases k,
{
    if k <= 0 {
        0
    } else {
        bound_before(args, k - 1) + (if args[k - 1].1 is Bound {
            1nat
        } else {
            0nat
        })
    }
}

/// The word of argument `k`: a bound variable gets the next bit that is
/// free, a regular one carries its dependencies.
pub open spec fn binder_word(args: Seq<(String, Type)>, k: int) -> u64 {
    match args[k].1 {
        Type::Bound(s) => sort_deps(true, s, pow2(bound_before(args, k)) as u64),
        Type::Reg(s, deps) => sort_deps(false, s, deps),
    }
}

/// The words of the first `k` arguments.
pub open spec fn binders_prefix(args: Seq<(String, Type)>, k: int) -> Seq<u8>
    decreases k,
{
    if k <= 0 {
        Seq::<u8>::empty()
    } else {
        binders_prefix(args, k - 1) + le64(binder_word(args, k - 1))
    }
}

/// The words of all arguments.
pub open spec fn binders_bytes(args: Seq<(String, Type)>) -> Seq<u8> {
    binders_prefix(args, args.len() as int)
}

/// Whether the bound variables fit: there are 55 bits for them.
pub open spec fn binders_ok(args: Seq<(String, Type)>) -> bool {
    bound_before(args, args.len() as int) <= 55
}

/// The number of arguments whose words are written, counted from argument
/// `k` on: all of them, or those before the bound variable for which no
/// bit is left.
pub open spec fn binders_fit(args: Seq<(String, Type)>, k: int) -> int
    decreases args.len() - k,
{
    if k < 0 || k >= args.len() {
        args.len() as int
    } else if args[k].1 is Bound && bound_before(args, k) >= 55 {
        k
    } else {
        binders_fit(args, k + 1)
    }
}

proof fn lemma_bound_before_mono(args: Seq<(String, Type)>, j: int, k: int)
    requires
        j <= k,
    ensures
        bound_before(args, j) <= bound_before(args, k),
    decreases k - j,
{
    if j < k {
        lemma_bound_before_mono(args, j, k - 1);
    }
}

/// Appends the words of the arguments `args`, or reports that they hold
/// more than 55 bound variables; then the words of the arguments before
/// the 56th bound variable are appended, and no more.
pub fn write_binders(w: &mut Vec<u8>, args: &Vec<(String, Type)>) -> (r: Result<(), ExportError>)
    ensures
        binders_ok(args@) ==> r is Ok && final(w)@ == old(w)@ + binders_bytes(args@),
        !binders_ok(args@) ==> r == Err::<(), ExportError>(ExportError::TooManyBoundVars),
        final(w)@ == old(w)@ + binders_prefix(args@, binders_fit(args@, 0)),
        0 <= binders_fit(args@, 0) <= args@.len(),
        !binders_ok(args@) ==> binders_fit(args@, 0) < args@.len() && bound_before(
            args@,
            binders_fit(args@, 0),
        ) == 55,
{
    let mut bv: u64 = 1;
    let mut k: usize = 0;
    proof {
        lemma2_to64();
        assert(w@ =~= old(w)@ + binders_prefix(args@, 0));
    }
    while k < args.len()
        invariant
            0 <= k <= args@.len(),
            bound_before(args@, k as int) <= 55,
            bv == pow2(bound_before(args@, k as int)),
            w@ == old(w)@ + binders_prefix(args@, k as int),
            binders_fit(args@, 0) == binders_fit(args@, k as int),
        decreases args@.len() - k,
    {
        proof {
            lemma2_to64();
            lemma2_to64_rest();
        }
        match args[k].1 {
            Type::Bound(s) => {
                assert((1u64 << 55) == 0x80000000000000u64) by (bit_vector);
                if bv >= (1u64 << 55) {
                    proof {
                        let n = bound_before(args@, k as int);
                        if n < 55 {
                            vstd::arithmetic::power2::lemma_pow2_strictly_increases(n, 55);
                        }
                        lemma_bound_before_mono(args@, k + 1, args@.len() as int);
                    }
                    return Err(ExportError::TooManyBoundVars);
                }
                proof {
                    let n = bound_before(args@, k as int);
                    if n >= 55 {
                        if n > 55 {
                            vstd::arithmetic::power2::lemma_pow2_strictly_increases(55, n);
                        }
                    }
                    lemma_pow2_unfold(n + 1);
                }
                write_sort_deps(w, true, s, bv);
                bv = bv * 2;
            },
            Type::Reg(s, deps) => {
                write_sort_deps(w, false, s, deps);
            },
        }
        k += 1;
        assert(w@ =~= old(w)@ + binders_prefix(args@, k as int));
    }
    Ok(())
}

/// The entry of a term in the table of terms: the number of arguments, the
/// sort of the result with the top bit set for a definition, a byte that is
/// left zero, and the file offset of the term's body.
pub open spec fn term_header(nargs: u16, sort: SortID, has_def: bool, p_term: u32) -> Seq<u8> {
    le16(nargs) + seq![
        sort.0 | (if has_def {
            0x80u8
        } else {
            0u8
        }),
        0u8,
    ] + le32(p_term)
}

/// The entry of a theorem in the table of theorems: the number of
/// arguments, two bytes that are left zero, and the file offset of the
/// theorem's body.
pub open spec fn thm_header(nargs: u16, p_thm: u32) -> Seq<u8> {
    le16(nargs) + seq![0u8, 0u8] + le32(p_thm)
}

/// Writes the entry of a term over entry `k` of the table `header`.
pub fn write_term_header(
    header: &mut Vec<u8>,
    k: usize,
    nargs: u16,
    sort: SortID,
    has_def: bool,
    p_term: u32,
)
    requires
        8 * k + 8 <= old(header)@.len(),
    ensures
        final(header)@ == patch(old(header)@, 8 * k, term_header(nargs, sort, has_def, p_term)),
{
    let n: usize = header.len();
    let a: [u8; 2] = le_bytes_u16(nargs);
    let b: [u8; 4] = le_bytes_u32(p_term);
    let flag: u8 = if has_def {
        0x80
    } else {
        0
    };
    let mut entry: Vec<u8> = Vec::new();
    entry.push(a[0]);
    entry.push(a[1]);
    entry.push(sort.0 | flag);
    entry.push(0);
    entry.push(b[0]);
    entry.push(b[1]);
    entry.push(b[2]);
    entry.push(b[3]);
    assert(entry@ =~= term_header(nargs, sort, has_def, p_term));
    patch_bytes(header, 8 * k, entry.as_slice());
}

/// Writes the entry of a theorem over entry `k` of the table `header`.
pub fn write_thm_header(header: &mut Vec<u8>, k: usize, nargs: u16, p_thm: u32)
    requires
        8 * k + 8 <= old(header)@.len(),
    ensures
        final(header)@ == patch(old(header)@, 8 * k, thm_header(nargs, p_thm)),
{
    let n: usize = header.len();
    let a: [u8; 2] = le_bytes_u16(nargs);
    let b: [u8; 4] = le_bytes_u32(p_thm);
    let mut entry: Vec<u8> = Vec::new();
    entry.push(a[0]);
    entry.push(a[1]);
    entry.push(0);
    entry.push(0);
    entry.push(b[0]);
    entry.push(b[1]);
    entry.push(b[2]);
    entry.push(b[3]);
    assert(entry@ =~= thm_header(nargs, p_thm));
    patch_bytes(header, 8 * k, entry.as_slice());
}

/// The back-reference table at the start of a declaration with `nargs`
/// arguments and a heap of `heap_len` entries, whose first entries must be
/// the arguments.
pub open spec fn start_reorder(nargs: nat, heap_len: nat) -> Result<ReorderState, ExportError> {
    if nargs > u32::MAX {
        Err(ExportError::TooManyArgs)
    } else if nargs > heap_len {
        Err(ExportError::Malformed)
    } else {
        Ok(ReorderState { map: initial_map(nargs as u32, heap_len), idx: nargs as u32 })
    }
}

/// The back-reference table at the start of a declaration.
pub fn new_reorder(nargs: usize, heap_len: usize) -> (r: Result<Reorder, ExportError>)
    ensures
        match start_reorder(nargs as nat, heap_len as nat) {
            Ok(st) => r is Ok && r->Ok_0@ == st && r->Ok_0.map@.len() == heap_len,
            Err(e) => r == Err::<Reorder, ExportError>(e),
        },
{
    if nargs > 0xffff_ffff {
        Err(ExportError::TooManyArgs)
    } else if nargs > heap_len {
        Err(ExportError::Malformed)
    } else {
        Ok(Reorder::new(nargs as u32, heap_len))
    }
}

/// The body of a term and the back-reference table that its value leaves:
/// the words of the arguments, the word of the result, and for a
/// definition the unify stream of its value and a zero byte.
pub open spec fn term_body(t: Term) -> Result<(Seq<u8>, Option<ReorderState>), ExportError> {
    if !binders_ok(t.args@) {
        Err(ExportError::TooManyBoundVars)
    } else {
        let fixed = binders_bytes(t.args@) + le64(sort_deps(false, t.ret.sort(), t.ret.deps()));
        match t.val {
            None => Ok((fixed, None)),
            Some(val) => match start_reorder(t.args@.len(), val.heap@.len()) {
                Err(e) => Err(e),
                Ok(st0) => match unify_expr(
                    val.heap@,
                    UnifyState { map: st0.map, idx: st0.idx, save: Seq::empty() },
                    val.head,
                ) {
                    Err(e) => Err(e),
                    Ok((cmds, st)) => Ok(
                        (
                            fixed + unify_bytes(cmds) + seq![0u8],
                            Some(ReorderState { map: st.map, idx: st.idx }),
                        ),
                    ),
                },
            },
        }
    }
}

/// Appends the body of the term `t` and returns the back-reference table
/// that its value leaves.
pub fn write_term_body(w: &mut Vec<u8>, t: &Term) -> (r: Result<Option<Reorder>, ExportError>)
    ensures
        match term_body(*t) {
            Ok((bytes, st)) => {
                &&& r is Ok
                &&& final(w)@ == old(w)@ + bytes
                &&& match st {
                    Some(s) => r->Ok_0 is Some && r->Ok_0->Some_0@ == s,
                    None => r->Ok_0 is None,
                }
            },
            Err(e) => r == Err::<Option<Reorder>, ExportError>(e),
        },
{
    match write_binders(w, &t.args) {
        Err(e) => {
            return Err(e);
        },
        Ok(()) => {},
    }
    write_sort_deps(w, false, t.ret.sort(), t.ret.deps());
    match &t.val {
        None => {
            assert(w@ =~= old(w)@ + term_body(*t)->Ok_0.0);
            Ok(None)
        },
        Some(val) => {
            let mut reorder: Reorder = match new_reorder(t.args.len(), val.heap.len()) {
                Err(e) => {
                    return Err(e);
                },
                Ok(r) => r,
            };
            let mut save: Vec<usize> = Vec::new();
            match write_expr_unify(w, &val.heap, &mut reorder, &val.head, &mut save) {
                Err(e) => {
                    return Err(e);
                },
                Ok(()) => {},
            }
            w.push(0);
            assert(w@ =~= old(w)@ + term_body(*t)->Ok_0.0);
            Ok(Some(reorder))
        },
    }
}

/// The unify streams of the hypotheses `hyps[..k]`, last first, each
/// announced by a `Hyp` command.
pub open spec fn unify_hyps(
    heap: Seq<ExprNode>,
    st: UnifyState,
    hyps: Seq<ExprNode>,
    k: nat,
) -> UnifyResult
    decreases k,
{
    if k == 0 || k > hyps.len() {
        Ok((Seq::empty(), st))
    } else {
        match unify_expr(heap, st, hyps[k - 1]) {
            Err(e) => Err(e),
            Ok((c, st1)) => unify_after(
                seq![UnifyCmd::Hyp] + c,
                unify_hyps(heap, st1, hyps, (k - 1) as nat),
            ),
        }
    }
}

/// The unify stream of a theorem: its conclusion, then its hypotheses from
/// the last to the first.
pub open spec fn unify_thm(t: Thm, st0: ReorderState) -> UnifyResult {
    match unify_expr(
        t.heap@,
        UnifyState { map: st0.map, idx: st0.idx, save: Seq::empty() },
        t.ret,
    ) {
        Err(e) => Err(e),
        Ok((c, st1)) => unify_after(c, unify_hyps(t.heap@, st1, t.hyps@, t.hyps@.len())),
    }
}

/// The body of a theorem and the back-reference table that its statement
/// leaves: the words of the arguments, the unify stream of the statement
/// and a zero byte.
pub open spec fn thm_body(t: Thm) -> Result<(Seq<u8>, ReorderState), ExportError> {
    if !binders_ok(t.args@) {
        Err(ExportError::TooManyBoundVars)
    } else {
        match start_reorder(t.args@.len(), t.heap@.len()) {
            Err(e) => Err(e),
            Ok(st0) => match unify_thm(t, st0) {
                Err(e) => Err(e),
                Ok((cmds, st)) => Ok(
                    (
                        binders_bytes(t.args@) + unify_bytes(cmds) + seq![0u8],
                        ReorderState { map: st.map, idx: st.idx },
                    ),
                ),
            },
        }
    }
}

/// Appends the body of the theorem `t` and returns the back-reference table
/// that its statement leaves.
pub fn write_thm_body(w: &mut Vec<u8>, t: &Thm) -> (r: Result<Reorder, ExportError>)
    ensures
        match thm_body(*t) {
            Ok((bytes, st)) => r is Ok && final(w)@ == old(w)@ + bytes && r->Ok_0@ == st,
            Err(e) => r == Err::<Reorder, ExportError>(e),
        },
{
    match write_binders(w, &t.args) {
        Err(e) => {
            return Err(e);
        },
        Ok(()) => {},
    }
    let mut reorder: Reorder = match new_reorder(t.args.len(), t.heap.len()) {
        Err(e) => {
            return Err(e);
        },
        Ok(r) => r,
    };
    let ghost st0 = reorder@;
    let ghost w1 = w@;
    let mut save: Vec<usize> = Vec::new();
    let ghost first = unify_expr(
        t.heap@,
        UnifyState { map: st0.map, idx: st0.idx, save: Seq::empty() },
        t.ret,
    );
    match write_expr_unify(w, &t.heap, &mut reorder, &t.ret, &mut save) {
        Err(e) => {
            return Err(e);
        },
        Ok(()) => {},
    }
    let ghost c0 = first->Ok_0.0;
    let ghost st1 = first->Ok_0.1;
    let ghost whole = unify_hyps(t.heap@, st1, t.hyps@, t.hyps@.len());
    let ghost acc: Seq<UnifyCmd> = Seq::empty();
    proof {
        match whole {
            Ok((c, st)) => {
                assert(acc + c =~= c);
            },
            Err(e) => {},
        }
        assert(c0 + acc =~= c0);
    }
    let mut k: usize = t.hyps.len();
    while k > 0
        invariant
            0 <= k <= t.hyps@.len(),
            reorder.map@.len() == t.heap@.len(),
            save_in_range(save@, t.heap@.len()),
            w@ == w1 + unify_bytes(c0 + acc),
            binders_ok(t.args@),
            start_reorder(t.args@.len(), t.heap@.len()) == Ok::<ReorderState, ExportError>(st0),
            unify_thm(*t, st0) == unify_after(c0, whole),
            whole == unify_after(
                acc,
                unify_hyps(
                    t.heap@,
                    (UnifyState { map: reorder.map@, idx: reorder.idx, save: save@ }),
                    t.hyps@,
                    k as nat,
                ),
            ),
        decreases k,
    {
        let ghost cur = UnifyState { map: reorder.map@, idx: reorder.idx, save: save@ };
        UnifyCmd::Hyp.write_to(w);
        match write_expr_unify(w, &t.heap, &mut reorder, &t.hyps[k - 1], &mut save) {
            Err(e) => {
                return Err(e);
            },
            Ok(()) => {},
        }
        proof {
            let step = unify_expr(t.heap@, cur, t.hyps@[k - 1]);
            let c = step->Ok_0.0;
            let rest = unify_hyps(t.heap@, step->Ok_0.1, t.hyps@, (k - 1) as nat);
            let hc = seq![UnifyCmd::Hyp] + c;
            lemma_unify_after_assoc(acc, hc, rest);
            lemma_unify_bytes_one(UnifyCmd::Hyp);
            lemma_unify_bytes_concat(seq![UnifyCmd::Hyp], c);
            lemma_unify_bytes_concat(c0 + acc, hc);
            assert((c0 + acc) + hc =~= c0 + (acc + hc));
            acc = acc + hc;
        }
        k -= 1;
    }
    w.push(0);
    proof {
        assert(acc + Seq::<UnifyCmd>::empty() =~= acc);
        assert(w@ =~= old(w)@ + thm_body(*t)->Ok_0.0);
    }
    Ok(reorder)
}

} // verus!
