//! The layout of the file: header, tables of terms and theorems, their
//! bodies, and the proof section.

use crate::environment::{DeclKey, Environment, Sort, StmtTrace};
use crate::export::body::{
    term_body, term_header, thm_body, thm_header, write_term_body, write_term_header,
    write_thm_body, write_thm_header,
};
use crate::export::bytes::{le32, le64, patch, write_zeros, zeros};
use crate::export::cmd::{cmd_bytes, write_cmd, ExportError, STMT_SORT};
use crate::export::reorder::{Reorder, ReorderState};
use crate::export::stmt::{term_stmt, thm_stmt, write_term_stmt, write_thm_stmt};
use crate::expr::{Term, Thm};
use crate::ids::{TermVec, ThmVec};
use crate::names::position;
use vstd::prelude::*;

verus! {

/// The number of bytes from `pos` to the next multiple of `n`.
pub open spec fn pad_to(n: nat, pos: nat) -> nat {
    if n == 0 {
        0
    } else {
        ((n - pos % n) % (n as int)) as nat
    }
}

/// The first multiple of 8 that is not below `pos`.
pub open spec fn align8(pos: nat) -> nat {
    pos + pad_to(8, pos)
}

/// Appends zero bytes to `w` until its length is a multiple of `n`, and
/// returns that length.
pub fn align_to(w: &mut Vec<u8>, n: u8) -> (pos: u64)
    requires
        n == 1 || n == 2 || n == 4 || n == 8,
    ensures
        final(w)@ == old(w)@ + zeros(pad_to(n as nat, old(w)@.len())),
        pos == final(w)@.len(),
        pos % (n as u64) == 0,
{
    let len: usize = w.len();
    let rest: usize = if n == 1 {
        0
    } else if n == 2 {
        len % 2
    } else if n == 4 {
        len % 4
    } else {
        len % 8
    };
    let i: usize = if rest == 0 {
        0
    } else {
        n as usize - rest
    };
    proof {
        if n == 1 {
            assert(len % 1 == 0);
            assert(i == pad_to(1, len as nat));
            assert((len + i) % 1 == 0);
        } else if n == 2 {
            assert(i == pad_to(2, len as nat));
            assert((len + i) % 2 == 0);
        } else if n == 4 {
            assert(i == pad_to(4, len as nat));
            assert((len + i) % 4 == 0);
        } else {
            assert(i == pad_to(8, len as nat));
            assert((len + i) % 8 == 0);
        }
    }
    write_zeros(w, i);
    w.len() as u64
}

/// What a term contributes: its entry in the table, its body with the
/// padding before it, and the back-reference table that it leaves.
pub type TermEntries = Result<(Seq<u8>, Seq<u8>, Seq<Option<ReorderState>>), ExportError>;

/// What a theorem contributes: its entry in the table, its body with the
/// padding before it, and the back-reference table that it leaves.
pub type ThmEntries = Result<(Seq<u8>, Seq<u8>, Seq<ReorderState>), ExportError>;

/// The entries and bodies of the first `k` terms, where the bodies start
/// at the file offset `start`. Each body starts at a multiple of 8, and
/// its entry holds that offset.
pub open spec fn term_entries(terms: Seq<Term>, k: nat, start: nat) -> TermEntries
    decreases k,
{
    if k == 0 {
        Ok((Seq::empty(), Seq::empty(), Seq::empty()))
    } else {
        match term_entries(terms, (k - 1) as nat, start) {
            Err(e) => Err(e),
            Ok((hs, bs, rs)) => {
                let t = terms[k - 1];
                let p = align8(start + bs.len());
                if t.args@.len() > 0xffff {
                    Err(ExportError::TooManyArgs)
                } else if p > u32::MAX {
                    Err(ExportError::TooLarge)
                } else {
                    match term_body(t) {
                        Err(e) => Err(e),
                        Ok((b, r)) => Ok(
                            (
                                hs + term_header(
                                    t.args@.len() as u16,
                                    t.ret.sort(),
                                    t.val is Some,
                                    p as u32,
                                ),
                                bs + zeros(pad_to(8, start + bs.len())) + b,
                                rs.push(r),
                            ),
                        ),
                    }
                }
            },
        }
    }
}

/// The entries and bodies of the first `k` theorems, where the bodies start
/// at the file offset `start`.
pub open spec fn thm_entries(thms: Seq<Thm>, k: nat, start: nat) -> ThmEntries
    decreases k,
{
    if k == 0 {
        Ok((Seq::empty(), Seq::empty(), Seq::empty()))
    } else {
        match thm_entries(thms, (k - 1) as nat, start) {
            Err(e) => Err(e),
            Ok((hs, bs, rs)) => {
                let t = thms[k - 1];
                let p = align8(start + bs.len());
                if t.args@.len() > 0xffff {
                    Err(ExportError::TooManyArgs)
                } else if p > u32::MAX {
                    Err(ExportError::TooLarge)
                } else {
                    match thm_body(t) {
                        Err(e) => Err(e),
                        Ok((b, r)) => Ok(
                            (
                                hs + thm_header(t.args@.len() as u16, p as u32),
                                bs + zeros(pad_to(8, start + bs.len())) + b,
                                rs.push(r),
                            ),
                        ),
                    }
                }
            },
        }
    }
}

/// An error among the first terms is the error of the whole table.
pub proof fn lemma_term_entries_err(terms: Seq<Term>, k: nat, n: nat, start: nat)
    requires
        k <= n,
        term_entries(terms, k, start) is Err,
    ensures
        term_entries(terms, n, start) == term_entries(terms, k, start),
    decreases n - k,
{
    if k < n {
        lemma_term_entries_err(terms, k, (n - 1) as nat, start);
    }
}

/// An error among the first theorems is the error of the whole table.
pub proof fn lemma_thm_entries_err(thms: Seq<Thm>, k: nat, n: nat, start: nat)
    requires
        k <= n,
        thm_entries(thms, k, start) is Err,
    ensures
        thm_entries(thms, n, start) == thm_entries(thms, k, start),
    decreases n - k,
{
    if k < n {
        lemma_thm_entries_err(thms, k, (n - 1) as nat, start);
    }
}

/// The table of the first `k` terms is `8 * k` bytes long.
pub proof fn lemma_term_entries_len(terms: Seq<Term>, k: nat, start: nat)
    requires
        term_entries(terms, k, start) is Ok,
    ensures
        term_entries(terms, k, start)->Ok_0.0.len() == 8 * k,
        term_entries(terms, k, start)->Ok_0.2.len() == k,
    decreases k,
{
    if k > 0 {
        lemma_term_entries_len(terms, (k - 1) as nat, start);
    }
}

/// The table of the first `k` theorems is `8 * k` bytes long.
pub proof fn lemma_thm_entries_len(thms: Seq<Thm>, k: nat, start: nat)
    requires
        thm_entries(thms, k, start) is Ok,
    ensures
        thm_entries(thms, k, start)->Ok_0.0.len() == 8 * k,
        thm_entries(thms, k, start)->Ok_0.2.len() == k,
    decreases k,
{
    if k > 0 {
        lemma_thm_entries_len(thms, (k - 1) as nat, start);
    }
}

/// Whether the tables `reord` hold the contents `rs`.
pub open spec fn term_reord_is(reord: Seq<Option<Reorder>>, rs: Seq<Option<ReorderState>>) -> bool {
    &&& reord.len() == rs.len()
    &&& forall|i: int|
        0 <= i < rs.len() ==> match #[trigger] rs[i] {
            Some(s) => reord[i] is Some && reord[i]->Some_0@ == s,
            None => reord[i] is None,
        }
}

/// Whether the tables `reord` hold the contents `rs`.
pub open spec fn thm_reord_is(reord: Seq<Reorder>, rs: Seq<ReorderState>) -> bool {
    &&& reord.len() == rs.len()
    &&& forall|i: int| 0 <= i < rs.len() ==> (#[trigger] reord[i])@ == rs[i]
}

/// Writes the bodies of all terms to `w`, their entries into the table
/// `header`, and the back-reference tables that they leave to `reord`.
pub fn write_terms(
    w: &mut Vec<u8>,
    terms: &Vec<Term>,
    header: &mut Vec<u8>,
    reord: &mut TermVec<Option<Reorder>>,
) -> (r: Result<(), ExportError>)
    requires
        old(header)@ == zeros(8 * terms@.len()),
        old(reord)@.len() == 0,
    ensures
        match term_entries(terms@, terms@.len(), old(w)@.len()) {
            Ok((hs, bs, rs)) => {
                &&& r is Ok
                &&& final(w)@ == old(w)@ + bs
                &&& final(header)@ == hs
                &&& term_reord_is(final(reord)@, rs)
            },
            Err(e) => r == Err::<(), ExportError>(e),
        },
{
    let ghost start = w@.len();
    let ghost n = terms@.len();
    let mut k: usize = 0;
    proof {
        assert(w@ =~= old(w)@ + Seq::<u8>::empty());
        assert(header@ =~= Seq::<u8>::empty() + zeros((8 * (n - k)) as nat));
    }
    while k < terms.len()
        invariant
            0 <= k <= n,
            n == terms@.len(),
            start == old(w)@.len(),
            term_entries(terms@, k as nat, start) is Ok,
            w@ == old(w)@ + term_entries(terms@, k as nat, start)->Ok_0.1,
            header@ == term_entries(terms@, k as nat, start)->Ok_0.0 + zeros((8 * (n - k)) as nat),
            term_reord_is(reord@, term_entries(terms@, k as nat, start)->Ok_0.2),
        decreases n - k,
    {
        let ghost prev = term_entries(terms@, k as nat, start)->Ok_0;
        let ghost next = term_entries(terms@, (k + 1) as nat, start);
        proof {
            lemma_term_entries_len(terms@, k as nat, start);
            if next is Err {
                lemma_term_entries_err(terms@, (k + 1) as nat, n, start);
            }
        }
        let t: &Term = &terms[k];
        if t.args.len() > 0xffff {
            return Err(ExportError::TooManyArgs);
        }
        if w.len() > 0xffff_ffff {
            assert(align8(w@.len()) > u32::MAX);
            return Err(ExportError::TooLarge);
        }
        let p: u64 = align_to(w, 8);
        if p > 0xffff_ffff {
            return Err(ExportError::TooLarge);
        }
        let ghost h0 = header@;
        write_term_header(header, k, t.args.len() as u16, t.ret.sort(), t.val.is_some(), p as u32);
        let body: Option<Reorder> = match write_term_body(w, t) {
            Err(e) => {
                return Err(e);
            },
            Ok(b) => b,
        };
        reord.push(body);
        proof {
            let hd = term_header(t.args@.len() as u16, t.ret.sort(), t.val is Some, p as u32);
            assert(header@ =~= next->Ok_0.0 + zeros((8 * (n - k - 1)) as nat));
            assert(w@ =~= old(w)@ + next->Ok_0.1);
        }
        k += 1;
    }
    proof {
        assert(header@ =~= term_entries(terms@, n, start)->Ok_0.0);
    }
    Ok(())
}

/// Writes the bodies of all theorems to `w`, their entries into the table
/// `header`, and the back-reference tables that they leave to `reord`.
pub fn write_thms(
    w: &mut Vec<u8>,
    thms: &Vec<Thm>,
    header: &mut Vec<u8>,
    reord: &mut ThmVec<Reorder>,
) -> (r: Result<(), ExportError>)
    requires
        old(header)@ == zeros(8 * thms@.len()),
        old(reord)@.len() == 0,
    ensures
        match thm_entries(thms@, thms@.len(), old(w)@.len()) {
            Ok((hs, bs, rs)) => {
                &&& r is Ok
                &&& final(w)@ == old(w)@ + bs
                &&& final(header)@ == hs
                &&& thm_reord_is(final(reord)@, rs)
            },
            Err(e) => r == Err::<(), ExportError>(e),
        },
{
    let ghost start = w@.len();
    let ghost n = thms@.len();
    let mut k: usize = 0;
    proof {
        assert(w@ =~= old(w)@ + Seq::<u8>::empty());
        assert(header@ =~= Seq::<u8>::empty() + zeros((8 * (n - k)) as nat));
    }
    while k < thms.len()
        invariant
            0 <= k <= n,
            n == thms@.len(),
            start == old(w)@.len(),
            thm_entries(thms@, k as nat, start) is Ok,
            w@ == old(w)@ + thm_entries(thms@, k as nat, start)->Ok_0.1,
            header@ == thm_entries(thms@, k as nat, start)->Ok_0.0 + zeros((8 * (n - k)) as nat),
            thm_reord_is(reord@, thm_entries(thms@, k as nat, start)->Ok_0.2),
        decreases n - k,
    {
        let ghost next = thm_entries(thms@, (k + 1) as nat, start);
        proof {
            lemma_thm_entries_len(thms@, k as nat, start);
            if next is Err {
                lemma_thm_entries_err(thms@, (k + 1) as nat, n, start);
            }
        }
        let t: &Thm = &thms[k];
        if t.args.len() > 0xffff {
            return Err(ExportError::TooManyArgs);
        }
        if w.len() > 0xffff_ffff {
            assert(align8(w@.len()) > u32::MAX);
            return Err(ExportError::TooLarge);
        }
        let p: u64 = align_to(w, 8);
        if p > 0xffff_ffff {
            return Err(ExportError::TooLarge);
        }
        write_thm_header(header, k, t.args.len() as u16, p as u32);
        let body: Reorder = match write_thm_body(w, t) {
            Err(e) => {
                return Err(e);
            },
            Ok(b) => b,
        };
        reord.push(body);
        proof {
            assert(header@ =~= next->Ok_0.0 + zeros((8 * (n - k - 1)) as nat));
            assert(w@ =~= old(w)@ + next->Ok_0.1);
        }
        k += 1;
    }
    proof {
        assert(header@ =~= thm_entries(thms@, n, start)->Ok_0.0);
    }
    Ok(())
}

/// The statement of the declaration step `s`: a bare opcode for a sort, the
/// statement of the term or theorem that the name stands for otherwise. A
/// name that stands for nothing makes the environment malformed.
pub open spec fn stmt_bytes(env: Environment, s: StmtTrace) -> Result<Seq<u8>, ExportError> {
    match s {
        StmtTrace::Sort(_) => Ok(cmd_bytes(STMT_SORT, 2)),
        StmtTrace::Decl(name) => match position(env.decl_keys@, name@) {
            None => Err(ExportError::Malformed),
            Some(i) => match env.decl_keys@[i].1 {
                DeclKey::Term(t) => if t.0 < env.terms@.len() {
                    term_stmt(env.terms@[t.0 as int])
                } else {
                    Err(ExportError::Malformed)
                },
                DeclKey::Thm(t) => if t.0 < env.thms@.len() {
                    thm_stmt(env.thms@[t.0 as int])
                } else {
                    Err(ExportError::Malformed)
                },
            },
        },
    }
}

/// The statements of the first `k` declaration steps.
pub open spec fn statements(env: Environment, k: nat) -> Result<Seq<u8>, ExportError>
    decreases k,
{
    if k == 0 {
        Ok(Seq::empty())
    } else {
        match statements(env, (k - 1) as nat) {
            Err(e) => Err(e),
            Ok(bs) => match stmt_bytes(env, env.stmts@[k - 1]) {
                Err(e) => Err(e),
                Ok(b) => Ok(bs + b),
            },
        }
    }
}

/// An error among the first statements is the error of the whole section.
pub proof fn lemma_statements_err(env: Environment, k: nat, n: nat)
    requires
        k <= n,
        statements(env, k) is Err,
    ensures
        statements(env, n) == statements(env, k),
    decreases n - k,
{
    if k < n {
        lemma_statements_err(env, k, (n - 1) as nat);
    }
}

/// Appends the statement of the declaration step `s`.
pub fn write_stmt(w: &mut Vec<u8>, env: &Environment, s: &StmtTrace) -> (r: Result<
    (),
    ExportError,
>)
    ensures
        match stmt_bytes(*env, *s) {
            Ok(bytes) => r is Ok && final(w)@ == old(w)@ + bytes,
            Err(e) => r == Err::<(), ExportError>(e),
        },
{
    match s {
        StmtTrace::Sort(_) => {
            write_cmd(w, STMT_SORT, 2);
            Ok(())
        },
        StmtTrace::Decl(name) => match env.decl_keys.find(name) {
            None => Err(ExportError::Malformed),
            Some(i) => match env.decl_keys.entries[i].1 {
                DeclKey::Term(t) => match env.terms.get(t) {
                    Some(td) => write_term_stmt(w, td),
                    None => Err(ExportError::Malformed),
                },
                DeclKey::Thm(t) => match env.thms.get(t) {
                    Some(td) => write_thm_stmt(w, td),
                    None => Err(ExportError::Malformed),
                },
            },
        },
    }
}

/// Appends the statements of all declaration steps of `env`.
pub fn write_statements(w: &mut Vec<u8>, env: &Environment) -> (r: Result<(), ExportError>)
    ensures
        match statements(*env, env.stmts@.len()) {
            Ok(bytes) => r is Ok && final(w)@ == old(w)@ + bytes,
            Err(e) => r == Err::<(), ExportError>(e),
        },
{
    let ghost n = env.stmts@.len();
    let mut k: usize = 0;
    proof {
        assert(w@ =~= old(w)@ + Seq::<u8>::empty());
    }
    while k < env.stmts.len()
        invariant
            0 <= k <= n,
            n == env.stmts@.len(),
            statements(*env, k as nat) is Ok,
            w@ == old(w)@ + statements(*env, k as nat)->Ok_0,
        decreases n - k,
    {
        proof {
            if statements(*env, (k + 1) as nat) is Err {
                lemma_statements_err(*env, (k + 1) as nat, n);
            }
        }
        match write_stmt(w, env, &env.stmts[k]) {
            Err(e) => {
                return Err(e);
            },
            Ok(()) => {},
        }
        proof {
            assert(w@ =~= old(w)@ + statements(*env, (k + 1) as nat)->Ok_0);
        }
        k += 1;
    }
    Ok(())
}

/// The modifier bytes of the sorts, one for each sort.
pub open spec fn sort_bytes(sorts: Seq<Sort>) -> Seq<u8> {
    Seq::new(sorts.len(), |i: int| sorts[i].mods.0)
}

/// The four bytes that every file starts with.
pub open spec fn magic() -> Seq<u8> {
    seq![0x4Du8, 0x4Du8, 0x30u8, 0x42u8]
}

/// The word after the magic bytes: the version of the format in the lowest
/// byte and the number of sorts above it.
pub open spec fn version_word(nsorts: nat) -> u32 {
    1u32 | ((nsorts as u32) << 8)
}

/// The file that holds the environment `env`, or the reason why there is
/// none.
///
/// It starts with the magic bytes, the version word with the number of
/// sorts, the numbers of terms and of theorems, and the offsets of the
/// table of terms, of the table of theorems, of the proof section and of
/// the index, of which there is none. The modifier bytes of the sorts
/// follow. After padding to a multiple of 8 comes the table of terms and
/// the bodies of the terms; after padding again, the table of theorems and
/// the bodies of the theorems. The proof section holds one statement for
/// each declaration step and ends with a zero byte. Every offset into the
/// tables and bodies must fit in 32 bits.
#[verifier::opaque]
pub open spec fn container(env: Environment) -> Result<Seq<u8>, ExportError> {
    let nsorts = env.sorts@.len();
    let nterms = env.terms@.len();
    let nthms = env.thms@.len();
    if nsorts > 128 {
        Err(ExportError::TooManySorts)
    } else if nterms > u32::MAX || nthms > u32::MAX {
        Err(ExportError::TooManyDecls)
    } else {
        let p_terms = align8(40 + nsorts);
        let t_start = p_terms + 8 * nterms;
        match (if t_start > u32::MAX {
            Err(ExportError::TooLarge)
        } else {
            term_entries(env.terms@, nterms, t_start)
        }) {
            Err(e) => Err(e),
            Ok((th, tb, _)) => {
                let p_thms = align8(t_start + tb.len());
                let h_start = p_thms + 8 * nthms;
                if h_start > u32::MAX {
                    Err(ExportError::TooLarge)
                } else {
                    match thm_entries(env.thms@, nthms, h_start) {
                        Err(e) => Err(e),
                        Ok((hh, hb, _)) => {
                            let p_proof = h_start + hb.len();
                            match statements(env, env.stmts@.len()) {
                                Err(e) => Err(e),
                                Ok(ps) => Ok(
                                    magic() + le32(version_word(nsorts)) + le32(nterms as u32)
                                        + le32(nthms as u32) + le32(p_terms as u32) + le32(
                                        p_thms as u32,
                                    ) + le64(p_proof as u64) + le64(0) + sort_bytes(env.sorts@)
                                        + zeros(pad_to(8, 40 + nsorts)) + th + tb + zeros(
                                        pad_to(8, t_start + tb.len()),
                                    ) + hh + hb + ps + seq![0u8],
                                ),
                            }
                        },
                    }
                }
            },
        }
    }
}

} // verus!
