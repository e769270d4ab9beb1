//! The exporter: it writes the file front to back, leaves room for what is
//! only known later, and fills that in at the end.

use crate::environment::Environment;
use crate::export::bytes::{
    le32, le64, le_bytes_u32, le_bytes_u64, patch, patch_bytes, write_u32, write_u64, write_zeros,
    zeros,
};
use crate::export::cmd::ExportError;
use crate::export::container::{
    align8, align_to, container, magic, pad_to, sort_bytes, statements, term_entries,
    term_reord_is, thm_entries, thm_reord_is, version_word, write_statements, write_terms,
    write_thms,
};
use crate::export::reorder::Reorder;
use crate::ids::{TermVec, ThmVec};
use vstd::prelude::*;

verus! {

/// A value that is written over a reserved place at the end.
#[derive(Debug)]
pub enum Value {
    U32(u32),
    U64(u64),
    Bytes(Vec<u8>),
}

impl Value {
    /// The bytes that are written.
    pub open spec fn bytes(self) -> Seq<u8> {
        match self {
            Value::U32(n) => le32(n),
            Value::U64(n) => le64(n),
            Value::Bytes(b) => b@,
        }
    }
}

/// `bytes` after the first `k` of `fixups` were written over it, in order.
pub open spec fn apply_fixups(bytes: Seq<u8>, fixups: Seq<(u64, Value)>, k: nat) -> Seq<u8>
    decreases k,
{
    if k == 0 {
        bytes
    } else {
        patch(
            apply_fixups(bytes, fixups, (k - 1) as nat),
            fixups[k - 1].0 as int,
            fixups[k - 1].1.bytes(),
        )
    }
}

/// The fixups `fixups` with the bytes that each writes.
pub open spec fn fixup_views(fixups: Seq<(u64, Value)>) -> Seq<(u64, Seq<u8>)> {
    Seq::new(fixups.len(), |i: int| (fixups[i].0, fixups[i].1.bytes()))
}

/// One more fixup is one more entry among the bytes that are written.
pub proof fn lemma_fixup_views_push(fixups: Seq<(u64, Value)>, pos: u64, v: Value)
    ensures
        fixup_views(fixups.push((pos, v))) == fixup_views(fixups).push((pos, v.bytes())),
{
    assert(fixup_views(fixups.push((pos, v))) =~= fixup_views(fixups).push((pos, v.bytes())));
}

/// Writes an environment as a binary proof file.
///
/// `w` holds the file as far as it is written; `fixups` lists the places
/// that were left open and have their value by now.
pub struct Exporter<'a> {
    pub env: &'a Environment,
    pub w: Vec<u8>,
    pub term_reord: TermVec<Option<Reorder>>,
    pub thm_reord: ThmVec<Reorder>,
    pub fixups: Vec<(u64, Value)>,
}

/// Four reserved bytes at the offset that it holds.
#[must_use]
pub struct Fixup32(pub u64);

/// Eight reserved bytes at the offset that it holds.
#[must_use]
pub struct Fixup64(pub u64);

/// Reserved bytes at the offset that it holds, and what they will be.
#[must_use]
pub struct FixupLarge(pub u64, pub Vec<u8>);

/// Whether `new` is `old` with `bytes` appended to the file.
pub open spec fn wrote(old: Exporter, new: Exporter, bytes: Seq<u8>) -> bool {
    &&& new.w@ == old.w@ + bytes
    &&& new.env == old.env
    &&& new.fixups@ == old.fixups@
    &&& new.term_reord@ == old.term_reord@
    &&& new.thm_reord@ == old.thm_reord@
}

/// Whether `new` is `old` with one more fixup, of `v` at `pos`.
pub open spec fn committed(old: Exporter, new: Exporter, pos: u64, v: Value) -> bool {
    &&& new.w@ == old.w@
    &&& new.env == old.env
    &&& new.fixups@ == old.fixups@.push((pos, v))
    &&& new.term_reord@ == old.term_reord@
    &&& new.thm_reord@ == old.thm_reord@
}

impl Fixup32 {
    /// Settles that the reserved bytes will hold `val`.
    pub fn commit_val<'a>(self, e: &mut Exporter<'a>, val: u32)
        ensures
            committed(*old(e), *final(e), self.0, Value::U32(val)),
    {
        e.fixups.push((self.0, Value::U32(val)));
    }

    /// Settles that the reserved bytes will hold the offset at which the
    /// file now ends, which must fit in 32 bits.
    pub fn commit<'a>(self, e: &mut Exporter<'a>) -> (r: Result<(), ExportError>)
        ensures
            old(e).w@.len() <= u32::MAX ==> r is Ok && committed(
                *old(e),
                *final(e),
                self.0,
                Value::U32(old(e).w@.len() as u32),
            ),
            old(e).w@.len() > u32::MAX ==> r == Err::<(), ExportError>(ExportError::TooLarge)
                && *final(e) == *old(e),
    {
        let pos: usize = e.w.len();
        if pos > 0xffff_ffff {
            Err(ExportError::TooLarge)
        } else {
            self.commit_val(e, pos as u32);
            Ok(())
        }
    }
}

impl Fixup64 {
    /// Settles that the reserved bytes will hold `val`.
    pub fn commit_val<'a>(self, e: &mut Exporter<'a>, val: u64)
        ensures
            committed(*old(e), *final(e), self.0, Value::U64(val)),
    {
        e.fixups.push((self.0, Value::U64(val)));
    }

    /// Settles that the reserved bytes will hold the offset at which the
    /// file now ends.
    pub fn commit<'a>(self, e: &mut Exporter<'a>)
        ensures
            committed(*old(e), *final(e), self.0, Value::U64(old(e).w@.len() as u64)),
    {
        let val: u64 = e.pos();
        self.commit_val(e, val)
    }
}

impl FixupLarge {
    /// Settles that the reserved bytes will hold what `self` holds.
    pub fn commit<'a>(self, e: &mut Exporter<'a>)
        ensures
            committed(*old(e), *final(e), self.0, Value::Bytes(self.1)),
    {
        e.fixups.push((self.0, Value::Bytes(self.1)));
    }
}

impl<'a> Exporter<'a> {
    /// An exporter for `env` that has written nothing yet.
    pub fn new(env: &'a Environment) -> (r: Self)
        ensures
            r.env == env,
            r.is_fresh(),
    {
        Exporter {
            env,
            w: Vec::new(),
            term_reord: TermVec::new(),
            thm_reord: ThmVec::new(),
            fixups: Vec::new(),
        }
    }

    /// Nothing is written and nothing is left open.
    pub open spec fn is_fresh(&self) -> bool {
        &&& self.w@.len() == 0
        &&& self.fixups@.len() == 0
        &&& self.term_reord@.len() == 0
        &&& self.thm_reord@.len() == 0
    }

    /// The offset at which the file now ends.
    pub fn pos(&self) -> (p: u64)
        ensures
            p == self.w@.len(),
    {
        self.w.len() as u64
    }

    /// The file as far as it is written.
    pub fn output(&self) -> (r: &Vec<u8>)
        ensures
            r@ == self.w@,
    {
        &self.w
    }

    /// Appends `n` as four bytes, least significant first.
    pub fn write_u32(&mut self, n: u32)
        ensures
            wrote(*old(self), *final(self), le32(n)),
    {
        write_u32(&mut self.w, n);
    }

    /// Appends `n` as eight bytes, least significant first.
    pub fn write_u64(&mut self, n: u64)
        ensures
            wrote(*old(self), *final(self), le64(n)),
    {
        write_u64(&mut self.w, n);
    }

    /// Reserves four bytes.
    pub fn fixup32(&mut self) -> (f: Fixup32)
        ensures
            wrote(*old(self), *final(self), zeros(4)),
            f.0 == old(self).w@.len(),
    {
        let f = Fixup32(self.pos());
        self.write_u32(0);
        assert(le32(0) =~= zeros(4));
        f
    }

    /// Reserves eight bytes.
    pub fn fixup64(&mut self) -> (f: Fixup64)
        ensures
            wrote(*old(self), *final(self), zeros(8)),
            f.0 == old(self).w@.len(),
    {
        let f = Fixup64(self.pos());
        self.write_u64(0);
        assert(le64(0) =~= zeros(8));
        f
    }

    /// Reserves `size` bytes.
    pub fn fixup_large(&mut self, size: usize) -> (f: FixupLarge)
        ensures
            wrote(*old(self), *final(self), zeros(size as nat)),
            f.0 == old(self).w@.len(),
            f.1@ == zeros(size as nat),
    {
        let mut data: Vec<u8> = Vec::new();
        write_zeros(&mut data, size);
        let f = FixupLarge(self.pos(), data);
        write_zeros(&mut self.w, size);
        assert(f.1@ =~= zeros(size as nat));
        f
    }

    /// Appends zero bytes until the file ends at a multiple of `n`, and
    /// returns the offset at which it then ends.
    pub fn align_to(&mut self, n: u8) -> (pos: u64)
        requires
            n == 1 || n == 2 || n == 4 || n == 8,
        ensures
            wrote(*old(self), *final(self), zeros(pad_to(n as nat, old(self).w@.len()))),
            pos == final(self).w@.len(),
            pos % (n as u64) == 0,
    {
        align_to(&mut self.w, n)
    }

    /// Whether every fixup lies within the file.
    pub open spec fn fixups_in_range(&self) -> bool {
        forall|i: int|
            0 <= i < self.fixups@.len() ==> (#[trigger] self.fixups@[i]).0
                + self.fixups@[i].1.bytes().len() <= self.w@.len()
    }

    /// Writes every fixup over its place, in the order in which they were
    /// settled.
    pub fn apply_fixups(&mut self)
        requires
            old(self).fixups_in_range(),
        ensures
            final(self).w@ == apply_fixups(
                old(self).w@,
                old(self).fixups@,
                old(self).fixups@.len(),
            ),
            final(self).env == old(self).env,
            final(self).fixups@ == old(self).fixups@,
            final(self).term_reord@ == old(self).term_reord@,
            final(self).thm_reord@ == old(self).thm_reord@,
    {
        let mut k: usize = 0;
        while k < self.fixups.len()
            invariant
                0 <= k <= self.fixups@.len(),
                self.env == old(self).env,
                self.fixups@ == old(self).fixups@,
                self.term_reord@ == old(self).term_reord@,
                self.thm_reord@ == old(self).thm_reord@,
                self.w@.len() == old(self).w@.len(),
                old(self).fixups_in_range(),
                self.w@ == apply_fixups(old(self).w@, old(self).fixups@, k as nat),
            decreases self.fixups@.len() - k,
        {
            assert(old(self).fixups@[k as int].0 + old(self).fixups@[k as int].1.bytes().len()
                <= self.w@.len());
            assert(self.fixups@[k as int].0 <= self.w.len());
            let pos: usize = self.fixups[k].0 as usize;
            assert(pos == self.fixups@[k as int].0);
            match &self.fixups[k].1 {
                Value::U32(n) => {
                    let b: [u8; 4] = le_bytes_u32(*n);
                    patch_bytes(&mut self.w, pos, b.as_slice());
                },
                Value::U64(n) => {
                    let b: [u8; 8] = le_bytes_u64(*n);
                    patch_bytes(&mut self.w, pos, b.as_slice());
                },
                Value::Bytes(v) => {
                    patch_bytes(&mut self.w, pos, v.as_slice());
                },
            }
            k += 1;
        }
    }

    /// Writes the start of the file: the magic bytes, the version word
    /// and the counts, room for the four offsets, and the modifier bytes of
    /// the sorts. Returns the four places that were left open.
    fn write_prelude(&mut self) -> (r: Result<(Fixup32, Fixup32, Fixup64, Fixup64), ExportError>)
        requires
            old(self).is_fresh(),
        ensures
            final(self).env == old(self).env,
            match r {
                Ok(f) => {
                    &&& f.0.0 == 16
                    &&& f.1.0 == 20
                    &&& f.2.0 == 24
                    &&& f.3.0 == 32
                    &&& streamed(*old(self).env, 1, final(self).w@, final(self).fixups@)
                    &&& final(self).term_reord@.len() == 0
                    &&& final(self).thm_reord@.len() == 0
                },
                Err(e) => container(*old(self).env) == Err::<Seq<u8>, ExportError>(e),
            },
    {
        let env: &Environment = self.env;
        proof {
            lemma_fail_prelude(*env);
        }
        let num_sorts: usize = env.sorts.len();
        if num_sorts > 128 {
            return Err(ExportError::TooManySorts);
        }
        let nterms: usize = env.terms.len();
        let nthms: usize = env.thms.len();
        if nterms > 0xffff_ffff || nthms > 0xffff_ffff {
            return Err(ExportError::TooManyDecls);
        }
        self.w.push(0x4D);
        self.w.push(0x4D);
        self.w.push(0x30);
        self.w.push(0x42);
        assert(self.w@ =~= magic());
        self.write_u32(1 | ((num_sorts as u32) << 8));
        self.write_u32(nterms as u32);
        self.write_u32(nthms as u32);
        let p_terms = self.fixup32();
        let p_thms = self.fixup32();
        let p_proof = self.fixup64();
        let p_index = self.fixup64();
        let ghost h40 = self.w@;
        let mut i: usize = 0;
        assert(self.w@ =~= h40 + sort_bytes(env.sorts@).subrange(0, 0));
        while i < num_sorts
            invariant
                0 <= i <= num_sorts,
                num_sorts == env.sorts@.len(),
                self.env == old(self).env,
                self.fixups@.len() == 0,
                self.term_reord@.len() == 0,
                self.thm_reord@.len() == 0,
                self.w@ == h40 + sort_bytes(env.sorts@).subrange(0, i as int),
            decreases num_sorts - i,
        {
            self.w.push(env.sorts.0[i].mods.bits());
            i += 1;
            assert(self.w@ =~= h40 + sort_bytes(env.sorts@).subrange(0, i as int));
        }
        assert(sort_bytes(env.sorts@).subrange(0, i as int) =~= sort_bytes(env.sorts@));
        proof {
            lemma_stream1(*env, self.w@, self.fixups@);
        }
        Ok((p_terms, p_thms, p_proof, p_index))
    }

    /// Writes the table of terms and the bodies of the terms, and settles
    /// the offset of the table and the table itself.
    fn write_term_section(&mut self, p_terms: Fixup32) -> (r: Result<(), ExportError>)
        requires
            p_terms.0 == 16,
            streamed(*old(self).env, 1, old(self).w@, old(self).fixups@),
            old(self).term_reord@.len() == 0,
        ensures
            final(self).env == old(self).env,
            final(self).thm_reord@ == old(self).thm_reord@,
            match r {
                Ok(()) => {
                    &&& streamed(*old(self).env, 2, final(self).w@, final(self).fixups@)
                    &&& term_reord_is(final(self).term_reord@, tables(*old(self).env).0)
                },
                Err(e) => container(*old(self).env) == Err::<Seq<u8>, ExportError>(e),
            },
    {
        let env: &Environment = self.env;
        let ghost w1 = self.w@;
        let ghost fx = self.fixups@;
        proof {
            lemma_stream1_len(*env, w1, fx);
        }
        let nterms: usize = env.terms.len();
        let pos1: u64 = self.align_to(8);
        let ghost f0 = self.fixups@;
        match p_terms.commit(self) {
            Err(e) => {
                return Err(e);
            },
            Ok(()) => {},
        }
        proof {
            lemma_fixup_views_push(f0, p_terms.0, Value::U32(pos1 as u32));
        }
        if nterms > (0xffff_ffff - pos1 as usize) / 8 {
            proof {
                lemma_fail2(*env, w1, fx, ExportError::TooLarge);
            }
            return Err(ExportError::TooLarge);
        }
        let mut term_header = self.fixup_large(nterms * 8);
        let ghost w2 = self.w@;
        match write_terms(&mut self.w, &env.terms.0, &mut term_header.1, &mut self.term_reord) {
            Err(e) => {
                proof {
                    lemma_fail2(*env, w1, fx, e);
                }
                return Err(e);
            },
            Ok(()) => {},
        }
        proof {
            crate::export::container::lemma_term_entries_len(env.terms@, nterms as nat, w2.len());
        }
        let ghost f1 = self.fixups@;
        let ghost table = Value::Bytes(term_header.1);
        let ghost at = term_header.0;
        term_header.commit(self);
        proof {
            lemma_fixup_views_push(f1, at, table);
            lemma_stream2(*env, w1, fx, self.w@, self.fixups@);
        }
        Ok(())
    }

    /// Writes the table of theorems and the bodies of the theorems, and
    /// settles the offset of the table and the table itself.
    fn write_thm_section(&mut self, p_thms: Fixup32) -> (r: Result<(), ExportError>)
        requires
            p_thms.0 == 20,
            streamed(*old(self).env, 2, old(self).w@, old(self).fixups@),
            old(self).thm_reord@.len() == 0,
        ensures
            final(self).env == old(self).env,
            final(self).term_reord@ == old(self).term_reord@,
            match r {
                Ok(()) => {
                    &&& streamed(*old(self).env, 3, final(self).w@, final(self).fixups@)
                    &&& thm_reord_is(final(self).thm_reord@, tables(*old(self).env).1)
                },
                Err(e) => container(*old(self).env) == Err::<Seq<u8>, ExportError>(e),
            },
    {
        let env: &Environment = self.env;
        let ghost w1 = self.w@;
        let ghost fx = self.fixups@;
        let nthms: usize = env.thms.len();
        proof {
            lemma_stream_counts(*env, 2, w1, fx);
        }
        let pos2: u64 = self.align_to(8);
        if pos2 > 0xffff_ffff {
            proof {
                lemma_fail3(*env, w1, fx, ExportError::TooLarge);
            }
            return Err(ExportError::TooLarge);
        }
        let ghost f0 = self.fixups@;
        match p_thms.commit(self) {
            Err(e) => {
                return Err(e);
            },
            Ok(()) => {},
        }
        proof {
            lemma_fixup_views_push(f0, p_thms.0, Value::U32(pos2 as u32));
        }
        if nthms > (0xffff_ffff - pos2 as usize) / 8 {
            proof {
                lemma_fail3(*env, w1, fx, ExportError::TooLarge);
            }
            return Err(ExportError::TooLarge);
        }
        let mut thm_header = self.fixup_large(nthms * 8);
        let ghost w3 = self.w@;
        match write_thms(&mut self.w, &env.thms.0, &mut thm_header.1, &mut self.thm_reord) {
            Err(e) => {
                proof {
                    lemma_fail3(*env, w1, fx, e);
                }
                return Err(e);
            },
            Ok(()) => {},
        }
        proof {
            crate::export::container::lemma_thm_entries_len(env.thms@, nthms as nat, w3.len());
        }
        let ghost f1 = self.fixups@;
        let ghost table = Value::Bytes(thm_header.1);
        let ghost at = thm_header.0;
        thm_header.commit(self);
        proof {
            lemma_fixup_views_push(f1, at, table);
            lemma_stream3(*env, w1, fx, self.w@, self.fixups@);
        }
        Ok(())
    }

    /// Writes the proof section and its closing zero byte, and settles the
    /// offset of the section and that of the index, of which there is none.
    fn write_proof_section(&mut self, p_proof: Fixup64, p_index: Fixup64) -> (r: Result<
        (),
        ExportError,
    >)
        requires
            p_proof.0 == 24,
            p_index.0 == 32,
            streamed(*old(self).env, 3, old(self).w@, old(self).fixups@),
        ensures
            final(self).env == old(self).env,
            final(self).term_reord@ == old(self).term_reord@,
            final(self).thm_reord@ == old(self).thm_reord@,
            match r {
                Ok(()) => streamed(*old(self).env, 4, final(self).w@, final(self).fixups@),
                Err(e) => container(*old(self).env) == Err::<Seq<u8>, ExportError>(e),
            },
    {
        let env: &Environment = self.env;
        let ghost w1 = self.w@;
        let ghost fx = self.fixups@;
        let ghost f0 = self.fixups@;
        let ghost here = self.w@.len() as u64;
        p_proof.commit(self);
        proof {
            lemma_fixup_views_push(f0, p_proof.0, Value::U64(here));
        }
        let ghost w4 = self.w@;
        match write_statements(&mut self.w, env) {
            Err(e) => {
                proof {
                    lemma_fail4(*env, w1, fx, e);
                }
                return Err(e);
            },
            Ok(()) => {},
        }
        self.w.push(0);
        let ghost f1 = self.fixups@;
        p_index.commit_val(self, 0);
        proof {
            lemma_fixup_views_push(f1, p_index.0, Value::U64(0));
            let ps = statements(*env, env.stmts@.len())->Ok_0;
            assert(self.w@ =~= w4 + (ps + seq![0u8]));
            lemma_stream4(*env, w1, fx, self.w@, self.fixups@);
        }
        Ok(())
    }

    /// Writes the file for the environment.
    ///
    /// On success `w` holds the whole file, with every reserved place
    /// filled in, and the tables of back-references hold what the
    /// statements of the terms and theorems left; the offsets in the file
    /// are aligned and point inside it, and the entries of the two tables
    /// hold the argument counts and sorts of the declarations, with offsets
    /// that grow from entry to entry. On failure what `w` holds is of no
    /// use.
    pub fn run(&mut self) -> (r: Result<(), ExportError>)
        requires
            old(self).is_fresh(),
        ensures
            final(self).env == old(self).env,
            match container(*old(self).env) {
                Ok(bytes) => {
                    &&& r is Ok
                    &&& final(self).w@ == bytes
                    &&& term_reord_is(final(self).term_reord@, tables(*old(self).env).0)
                    &&& thm_reord_is(final(self).thm_reord@, tables(*old(self).env).1)
                },
                Err(e) => r == Err::<(), ExportError>(e),
            },
            r is Ok ==> crate::export::layout::well_laid_out(
                final(self).w@,
                old(self).env.sorts@.len(),
                old(self).env.terms@.len(),
                old(self).env.thms@.len(),
            ) && crate::export::layout::headers_hold(
                final(self).w@,
                old(self).env.terms@,
                old(self).env.thms@,
            ),
    {
        let (p_terms, p_thms, p_proof, p_index) = match self.write_prelude() {
            Err(e) => {
                return Err(e);
            },
            Ok(f) => f,
        };
        match self.write_term_section(p_terms) {
            Err(e) => {
                return Err(e);
            },
            Ok(()) => {},
        }
        match self.write_thm_section(p_thms) {
            Err(e) => {
                return Err(e);
            },
            Ok(()) => {},
        }
        match self.write_proof_section(p_proof, p_index) {
            Err(e) => {
                return Err(e);
            },
            Ok(()) => {},
        }
        proof {
            assert(self.w@.len() == self.w.len());
            lemma_streamed_all(*self.env, self.w@, self.fixups@);
        }
        self.apply_fixups();
        proof {
            assert(self.w@.len() == self.w.len());
            crate::export::layout::lemma_container_layout(*self.env, self.w@);
            crate::export::layout::lemma_container_headers(*self.env, self.w@);
        }
        Ok(())
    }
}

/// What is streamed of the file of `env` once the terms are written: the
/// start of the file, padding, zeros where the table of terms will be,
/// and the bodies of the terms.
pub open spec fn stage2(env: Environment) -> Seq<u8> {
    let w = prelude(env);
    let te = term_section(env.terms@, w.len())->Ok_0;
    w + zeros(pad_to(8, w.len())) + zeros(te.0.len()) + te.1
}

/// What is streamed of the file of `env` once the theorems are written.
pub open spec fn stage3(env: Environment) -> Seq<u8> {
    let w = stage2(env);
    let he = thm_section(env.thms@, w.len())->Ok_0;
    w + zeros(pad_to(8, w.len())) + zeros(he.0.len()) + he.1
}

/// What is streamed of the file of `env` once the proof section is
/// written.
pub open spec fn stage4(env: Environment) -> Seq<u8> {
    stage3(env) + (statements(env, env.stmts@.len())->Ok_0 + seq![0u8])
}

/// What is streamed of the file of `env` after `stage` of its four parts:
/// the start of the file, the terms, the theorems and the proof section.
pub open spec fn stage_bytes(env: Environment, stage: nat) -> Seq<u8> {
    if stage <= 1 {
        prelude(env)
    } else if stage == 2 {
        stage2(env)
    } else if stage == 3 {
        stage3(env)
    } else {
        stage4(env)
    }
}

/// The fixups that are settled once the terms are written.
pub open spec fn fixups2(env: Environment) -> Seq<(u64, Seq<u8>)> {
    let w = prelude(env);
    Seq::<(u64, Seq<u8>)>::empty().push((16u64, le32(align8(w.len()) as u32))).push(
        (align8(w.len()) as u64, term_section(env.terms@, w.len())->Ok_0.0),
    )
}

/// The fixups that are settled once the theorems are written.
pub open spec fn fixups3(env: Environment) -> Seq<(u64, Seq<u8>)> {
    let w = stage2(env);
    fixups2(env).push((20u64, le32(align8(w.len()) as u32))).push(
        (align8(w.len()) as u64, thm_section(env.thms@, w.len())->Ok_0.0),
    )
}

/// The fixups that are settled once the proof section is written.
pub open spec fn fixups4(env: Environment) -> Seq<(u64, Seq<u8>)> {
    fixups3(env).push((24u64, le64(stage3(env).len() as u64))).push((32u64, le64(0)))
}

/// The fixups that are settled after `stage` parts of the file of `env`,
/// each with the bytes that it writes.
pub open spec fn stage_fixups(env: Environment, stage: nat) -> Seq<(u64, Seq<u8>)> {
    if stage <= 1 {
        Seq::empty()
    } else if stage == 2 {
        fixups2(env)
    } else if stage == 3 {
        fixups3(env)
    } else {
        fixups4(env)
    }
}

/// Whether the counts of `env` fit the start of the file.
pub open spec fn counts_ok(env: Environment) -> bool {
    env.sorts@.len() <= 128 && env.terms@.len() <= u32::MAX && env.thms@.len() <= u32::MAX
}

/// Whether the terms of `env` can be written.
pub open spec fn terms_ok(env: Environment) -> bool {
    let te = term_section(env.terms@, prelude(env).len());
    counts_ok(env) && te is Ok && te->Ok_0.0.len() == 8 * env.terms@.len()
}

/// Whether the terms and theorems of `env` can be written.
pub open spec fn thms_ok(env: Environment) -> bool {
    let he = thm_section(env.thms@, stage2(env).len());
    terms_ok(env) && he is Ok && he->Ok_0.0.len() == 8 * env.thms@.len()
}

/// Whether the parts of the file of `env` up to `stage` can be written.
pub open spec fn stage_ok(env: Environment, stage: nat) -> bool {
    if stage <= 1 {
        counts_ok(env)
    } else if stage == 2 {
        terms_ok(env)
    } else if stage == 3 {
        thms_ok(env)
    } else {
        thms_ok(env) && statements(env, env.stmts@.len()) is Ok
    }
}

/// Whether `w` and `fixups` are what is streamed and settled after `stage`
/// parts of the file of `env`.
#[verifier::opaque]
pub open spec fn streamed(env: Environment, stage: nat, w: Seq<u8>, fixups: Seq<(u64, Value)>) -> bool {
    &&& stage_ok(env, stage)
    &&& w == stage_bytes(env, stage)
    &&& fixup_views(fixups) == stage_fixups(env, stage)
}

/// The start of the file before any offset is known: the magic bytes, the
/// version word and the counts, zeros where the four offsets will stand,
/// and the modifier bytes of the sorts.
pub open spec fn prelude(env: Environment) -> Seq<u8> {
    magic() + le32(version_word(env.sorts@.len())) + le32(env.terms@.len() as u32) + le32(
        env.thms@.len() as u32,
    ) + zeros(4) + zeros(4) + zeros(8) + zeros(8) + sort_bytes(env.sorts@)
}

/// The table and bodies of the terms, when the section starts after `pos`
/// bytes: padding and the table come first, and the table must end within
/// 32 bits.
pub open spec fn term_section(terms: Seq<crate::expr::Term>, pos: nat) -> crate::export::container::TermEntries {
    let t_start = align8(pos) + 8 * terms.len();
    if t_start > u32::MAX {
        Err(ExportError::TooLarge)
    } else {
        term_entries(terms, terms.len(), t_start)
    }
}

/// The table and bodies of the theorems, when the section starts after
/// `pos` bytes.
pub open spec fn thm_section(thms: Seq<crate::expr::Thm>, pos: nat) -> crate::export::container::ThmEntries {
    let h_start = align8(pos) + 8 * thms.len();
    if h_start > u32::MAX {
        Err(ExportError::TooLarge)
    } else {
        thm_entries(thms, thms.len(), h_start)
    }
}

/// The file is the start of the file with the offsets filled in, followed
/// by the two sections of declarations and the proof section.
proof fn lemma_container_shape(env: Environment)
    requires
        env.sorts@.len() <= 128,
        env.terms@.len() <= u32::MAX,
        env.thms@.len() <= u32::MAX,
    ensures
        ({
            let nsorts = env.sorts@.len();
            let w1 = 40 + nsorts;
            match term_section(env.terms@, w1) {
                Err(e) => container(env) == Err::<Seq<u8>, ExportError>(e),
                Ok((th, tb, _)) => {
                    let w2 = w1 + pad_to(8, w1) + th.len() + tb.len();
                    match thm_section(env.thms@, w2) {
                        Err(e) => th.len() == 8 * env.terms@.len() ==> container(env) == Err::<
                            Seq<u8>,
                            ExportError,
                        >(e),
                        Ok((hh, hb, _)) => {
                            let w3 = w2 + pad_to(8, w2) + hh.len() + hb.len();
                            match statements(env, env.stmts@.len()) {
                                Err(e) => th.len() == 8 * env.terms@.len() && hh.len() == 8
                                    * env.thms@.len() ==> container(env) == Err::<
                                    Seq<u8>,
                                    ExportError,
                                >(e),
                                Ok(ps) => th.len() == 8 * env.terms@.len() && hh.len() == 8
                                    * env.thms@.len() ==> container(env) == Ok::<
                                    Seq<u8>,
                                    ExportError,
                                >(
                                    magic() + le32(version_word(nsorts)) + le32(
                                        env.terms@.len() as u32,
                                    ) + le32(env.thms@.len() as u32) + le32(align8(w1) as u32)
                                        + le32(align8(w2) as u32) + le64(w3 as u64) + le64(0)
                                        + sort_bytes(env.sorts@) + zeros(pad_to(8, w1)) + th + tb
                                        + zeros(pad_to(8, w2)) + hh + hb + (ps + seq![0u8]),
                                ),
                            }
                        },
                    }
                },
            }
        }),
{
    reveal(container);
    let nsorts = env.sorts@.len();
    let w1 = 40 + nsorts;
    match term_section(env.terms@, w1) {
        Err(e) => {},
        Ok((th, tb, _)) => {
            let w2 = w1 + pad_to(8, w1) + th.len() + tb.len();
            match thm_section(env.thms@, w2) {
                Err(e) => {},
                Ok((hh, hb, _)) => {
                    match statements(env, env.stmts@.len()) {
                        Err(e) => {},
                        Ok(ps) => {
                            let a = magic() + le32(version_word(nsorts)) + le32(
                                env.terms@.len() as u32,
                            ) + le32(env.thms@.len() as u32) + le32(align8(w1) as u32) + le32(
                                align8(w2) as u32,
                            ) + le64((w2 + pad_to(8, w2) + hh.len() + hb.len()) as u64) + le64(0)
                                + sort_bytes(env.sorts@) + zeros(pad_to(8, w1)) + th + tb + zeros(
                                pad_to(8, w2),
                            ) + hh + hb;
                            assert(a + (ps + seq![0u8]) =~= a + ps + seq![0u8]);
                        },
                    }
                },
            }
        },
    }
}

/// The start of the file takes 40 bytes and one for each sort.
proof fn lemma_prelude_len(env: Environment)
    ensures
        prelude(env).len() == 40 + env.sorts@.len(),
{
}

/// An environment with too many sorts or declarations has no file.
proof fn lemma_fail_prelude(env: Environment)
    ensures
        env.sorts@.len() > 128 ==> container(env) == Err::<Seq<u8>, ExportError>(
            ExportError::TooManySorts,
        ),
        env.sorts@.len() <= 128 && (env.terms@.len() > u32::MAX || env.thms@.len() > u32::MAX)
            ==> container(env) == Err::<Seq<u8>, ExportError>(ExportError::TooManyDecls),
{
    reveal(container);
}

/// An environment whose terms cannot be written has no file.
proof fn lemma_fail_terms(env: Environment, e: ExportError)
    requires
        env.sorts@.len() <= 128,
        env.terms@.len() <= u32::MAX,
        env.thms@.len() <= u32::MAX,
        term_section(env.terms@, 40 + env.sorts@.len()) == Err::<
            (Seq<u8>, Seq<u8>, Seq<Option<crate::export::reorder::ReorderState>>),
            ExportError,
        >(e),
    ensures
        container(env) == Err::<Seq<u8>, ExportError>(e),
{
    lemma_container_shape(env);
}

/// An environment whose theorems cannot be written has no file.
proof fn lemma_fail_thms(env: Environment, e: ExportError)
    requires
        env.sorts@.len() <= 128,
        env.terms@.len() <= u32::MAX,
        env.thms@.len() <= u32::MAX,
        term_section(env.terms@, 40 + env.sorts@.len()) is Ok,
        ({
            let w1 = 40 + env.sorts@.len();
            let te = term_section(env.terms@, w1)->Ok_0;
            te.0.len() == 8 * env.terms@.len() && thm_section(
                env.thms@,
                w1 + pad_to(8, w1) + te.0.len() + te.1.len(),
            ) == Err::<
                (Seq<u8>, Seq<u8>, Seq<crate::export::reorder::ReorderState>),
                ExportError,
            >(e)
        }),
    ensures
        container(env) == Err::<Seq<u8>, ExportError>(e),
{
    lemma_container_shape(env);
}

/// An environment whose statements cannot be written has no file.
proof fn lemma_fail_stmts(env: Environment, e: ExportError)
    requires
        env.sorts@.len() <= 128,
        env.terms@.len() <= u32::MAX,
        env.thms@.len() <= u32::MAX,
        term_section(env.terms@, 40 + env.sorts@.len()) is Ok,
        ({
            let w1 = 40 + env.sorts@.len();
            let te = term_section(env.terms@, w1)->Ok_0;
            let w2 = w1 + pad_to(8, w1) + te.0.len() + te.1.len();
            let he = thm_section(env.thms@, w2);
            &&& te.0.len() == 8 * env.terms@.len()
            &&& he is Ok
            &&& he->Ok_0.0.len() == 8 * env.thms@.len()
        }),
        statements(env, env.stmts@.len()) == Err::<Seq<u8>, ExportError>(e),
    ensures
        container(env) == Err::<Seq<u8>, ExportError>(e),
{
    lemma_container_shape(env);
}

/// The file of an environment whose sections can all be written.
proof fn lemma_done(env: Environment)
    requires
        env.sorts@.len() <= 128,
        env.terms@.len() <= u32::MAX,
        env.thms@.len() <= u32::MAX,
        term_section(env.terms@, 40 + env.sorts@.len()) is Ok,
        ({
            let w1 = 40 + env.sorts@.len();
            let te = term_section(env.terms@, w1)->Ok_0;
            let w2 = w1 + pad_to(8, w1) + te.0.len() + te.1.len();
            let he = thm_section(env.thms@, w2);
            &&& te.0.len() == 8 * env.terms@.len()
            &&& he is Ok
            &&& he->Ok_0.0.len() == 8 * env.thms@.len()
        }),
        statements(env, env.stmts@.len()) is Ok,
    ensures
        ({
            let nsorts = env.sorts@.len();
            let w1 = 40 + nsorts;
            let te = term_section(env.terms@, w1)->Ok_0;
            let w2 = w1 + pad_to(8, w1) + te.0.len() + te.1.len();
            let he = thm_section(env.thms@, w2)->Ok_0;
            let w3 = w2 + pad_to(8, w2) + he.0.len() + he.1.len();
            let ps = statements(env, env.stmts@.len())->Ok_0;
            &&& container(env) == Ok::<Seq<u8>, ExportError>(
                magic() + le32(version_word(nsorts)) + le32(env.terms@.len() as u32) + le32(
                    env.thms@.len() as u32,
                ) + le32(align8(w1) as u32) + le32(align8(w2) as u32) + le64(w3 as u64) + le64(0)
                    + sort_bytes(env.sorts@) + zeros(pad_to(8, w1)) + te.0 + te.1 + zeros(
                    pad_to(8, w2),
                ) + he.0 + he.1 + (ps + seq![0u8]),
            )
            &&& tables(env) == (te.2, he.2)
        }),
{
    lemma_container_shape(env);
}

/// The start of the file is what is streamed first.
proof fn lemma_stream1(env: Environment, w: Seq<u8>, fixups: Seq<(u64, Value)>)
    requires
        counts_ok(env),
        w == prelude(env),
        fixups.len() == 0,
    ensures
        streamed(env, 1, w, fixups),
{
    reveal(streamed);
    assert(fixup_views(fixups) =~= Seq::empty());
}

/// What is streamed first takes 40 bytes and one for each sort.
proof fn lemma_stream1_len(env: Environment, w: Seq<u8>, fixups: Seq<(u64, Value)>)
    requires
        streamed(env, 1, w, fixups),
    ensures
        counts_ok(env),
        w.len() == 40 + env.sorts@.len(),
{
    reveal(streamed);
    lemma_prelude_len(env);
}

/// While a file is streamed, the counts of its environment fit.
proof fn lemma_stream_counts(env: Environment, stage: nat, w: Seq<u8>, fixups: Seq<(u64, Value)>)
    requires
        streamed(env, stage, w, fixups),
    ensures
        counts_ok(env),
{
    reveal(streamed);
}

/// An environment whose terms cannot be written has no file.
proof fn lemma_fail2(env: Environment, w0: Seq<u8>, f0: Seq<(u64, Value)>, e: ExportError)
    requires
        streamed(env, 1, w0, f0),
        term_section(env.terms@, w0.len()) == Err::<
            (Seq<u8>, Seq<u8>, Seq<Option<crate::export::reorder::ReorderState>>),
            ExportError,
        >(e),
    ensures
        container(env) == Err::<Seq<u8>, ExportError>(e),
{
    reveal(streamed);
    lemma_prelude_len(env);
    lemma_fail_terms(env, e);
}

/// The terms are what is streamed second.
proof fn lemma_stream2(
    env: Environment,
    w0: Seq<u8>,
    f0: Seq<(u64, Value)>,
    w: Seq<u8>,
    f: Seq<(u64, Value)>,
)
    requires
        streamed(env, 1, w0, f0),
        term_section(env.terms@, w0.len()) is Ok,
        ({
            let te = term_section(env.terms@, w0.len())->Ok_0;
            &&& te.0.len() == 8 * env.terms@.len()
            &&& w == w0 + zeros(pad_to(8, w0.len())) + zeros(te.0.len()) + te.1
            &&& fixup_views(f) == fixup_views(f0).push(
                (16u64, le32(align8(w0.len()) as u32)),
            ).push((align8(w0.len()) as u64, te.0))
        }),
    ensures
        streamed(env, 2, w, f),
        tables(env).0 == term_section(env.terms@, w0.len())->Ok_0.2,
{
    reveal(streamed);
    lemma_prelude_len(env);
}

/// An environment whose theorems cannot be written has no file.
proof fn lemma_fail3(env: Environment, w0: Seq<u8>, f0: Seq<(u64, Value)>, e: ExportError)
    requires
        streamed(env, 2, w0, f0),
        thm_section(env.thms@, w0.len()) == Err::<
            (Seq<u8>, Seq<u8>, Seq<crate::export::reorder::ReorderState>),
            ExportError,
        >(e),
    ensures
        container(env) == Err::<Seq<u8>, ExportError>(e),
{
    reveal(streamed);
    lemma_prelude_len(env);
    lemma_stage2_len(env);
    lemma_fail_thms(env, e);
}

/// The theorems are what is streamed third.
proof fn lemma_stream3(
    env: Environment,
    w0: Seq<u8>,
    f0: Seq<(u64, Value)>,
    w: Seq<u8>,
    f: Seq<(u64, Value)>,
)
    requires
        streamed(env, 2, w0, f0),
        thm_section(env.thms@, w0.len()) is Ok,
        ({
            let he = thm_section(env.thms@, w0.len())->Ok_0;
            &&& he.0.len() == 8 * env.thms@.len()
            &&& w == w0 + zeros(pad_to(8, w0.len())) + zeros(he.0.len()) + he.1
            &&& fixup_views(f) == fixup_views(f0).push(
                (20u64, le32(align8(w0.len()) as u32)),
            ).push((align8(w0.len()) as u64, he.0))
        }),
    ensures
        streamed(env, 3, w, f),
        tables(env).1 == thm_section(env.thms@, w0.len())->Ok_0.2,
{
    reveal(streamed);
    lemma_prelude_len(env);
    lemma_stage2_len(env);
    crate::export::container::lemma_term_entries_len(
        env.terms@,
        env.terms@.len(),
        align8(40 + env.sorts@.len()) + 8 * env.terms@.len(),
    );
}

/// An environment whose statements cannot be written has no file.
proof fn lemma_fail4(env: Environment, w0: Seq<u8>, f0: Seq<(u64, Value)>, e: ExportError)
    requires
        streamed(env, 3, w0, f0),
        statements(env, env.stmts@.len()) == Err::<Seq<u8>, ExportError>(e),
    ensures
        container(env) == Err::<Seq<u8>, ExportError>(e),
{
    reveal(streamed);
    lemma_prelude_len(env);
    lemma_stage2_len(env);
    lemma_fail_stmts(env, e);
}

/// The proof section is what is streamed last.
proof fn lemma_stream4(
    env: Environment,
    w0: Seq<u8>,
    f0: Seq<(u64, Value)>,
    w: Seq<u8>,
    f: Seq<(u64, Value)>,
)
    requires
        streamed(env, 3, w0, f0),
        statements(env, env.stmts@.len()) is Ok,
        w == w0 + (statements(env, env.stmts@.len())->Ok_0 + seq![0u8]),
        fixup_views(f) == fixup_views(f0).push((24u64, le64(w0.len() as u64))).push(
            (32u64, le64(0)),
        ),
    ensures
        streamed(env, 4, w, f),
{
    reveal(streamed);
}

/// A section takes as many bytes as its parts.
proof fn lemma_section_len(w: Seq<u8>, pad: Seq<u8>, table: Seq<u8>, bodies: Seq<u8>)
    ensures
        (w + pad + table + bodies).len() == w.len() + pad.len() + table.len() + bodies.len(),
{
}

/// What is streamed after the terms takes the start of the file, the
/// padding, the table of terms and the bodies of the terms.
proof fn lemma_stage2_len(env: Environment)
    ensures
        ({
            let w1 = 40 + env.sorts@.len();
            let te = term_section(env.terms@, w1)->Ok_0;
            stage2(env).len() == w1 + pad_to(8, w1) + te.0.len() + te.1.len()
        }),
{
    lemma_prelude_len(env);
    let w1 = prelude(env);
    let te = term_section(env.terms@, w1.len())->Ok_0;
    lemma_section_len(w1, zeros(pad_to(8, w1.len())), zeros(te.0.len()), te.1);
}

/// Once all parts of the file are streamed, writing the fixups over what
/// was streamed gives the file of the environment.
proof fn lemma_streamed_all(env: Environment, w: Seq<u8>, fixups: Seq<(u64, Value)>)
    requires
        streamed(env, 4, w, fixups),
        w.len() <= u64::MAX,
    ensures
        container(env) == Ok::<Seq<u8>, ExportError>(apply_fixups(w, fixups, fixups.len())),
        forall|i: int|
            0 <= i < fixups.len() ==> (#[trigger] fixups[i]).0 + fixups[i].1.bytes().len()
                <= w.len(),
{
    reveal(streamed);
    lemma_run_result(env, prelude(env), stage2(env), stage3(env), w, fixups);
}

/// Once all sections are streamed, writing the fixups over what was
/// streamed gives the file of the environment.
proof fn lemma_run_result(
    env: Environment,
    w1: Seq<u8>,
    w2: Seq<u8>,
    w3: Seq<u8>,
    w4: Seq<u8>,
    fixups: Seq<(u64, Value)>,
)
    requires
        env.sorts@.len() <= 128,
        env.terms@.len() <= u32::MAX,
        env.thms@.len() <= u32::MAX,
        w4.len() <= u64::MAX,
        w1 == prelude(env),
        term_section(env.terms@, w1.len()) is Ok,
        ({
            let te = term_section(env.terms@, w1.len())->Ok_0;
            &&& te.0.len() == 8 * env.terms@.len()
            &&& w2 == w1 + zeros(pad_to(8, w1.len())) + zeros(te.0.len()) + te.1
        }),
        thm_section(env.thms@, w2.len()) is Ok,
        ({
            let he = thm_section(env.thms@, w2.len())->Ok_0;
            &&& he.0.len() == 8 * env.thms@.len()
            &&& w3 == w2 + zeros(pad_to(8, w2.len())) + zeros(he.0.len()) + he.1
        }),
        statements(env, env.stmts@.len()) is Ok,
        w4 == w3 + (statements(env, env.stmts@.len())->Ok_0 + seq![0u8]),
        fixup_views(fixups) == Seq::<(u64, Seq<u8>)>::empty().push(
            (16u64, le32(align8(w1.len()) as u32)),
        ).push((align8(w1.len()) as u64, term_section(env.terms@, w1.len())->Ok_0.0)).push(
            (20u64, le32(align8(w2.len()) as u32)),
        ).push((align8(w2.len()) as u64, thm_section(env.thms@, w2.len())->Ok_0.0)).push(
            (24u64, le64(w3.len() as u64)),
        ).push((32u64, le64(0))),
    ensures
        container(env) == Ok::<Seq<u8>, ExportError>(apply_fixups(w4, fixups, fixups.len())),
        forall|i: int|
            0 <= i < fixups.len() ==> (#[trigger] fixups[i]).0 + fixups[i].1.bytes().len()
                <= w4.len(),
{
    let nsorts = env.sorts@.len();
    let te = term_section(env.terms@, w1.len())->Ok_0;
    let he = thm_section(env.thms@, w2.len())->Ok_0;
    let ps = statements(env, env.stmts@.len())->Ok_0;
    let h16 = magic() + le32(version_word(nsorts)) + le32(env.terms@.len() as u32) + le32(
        env.thms@.len() as u32,
    );
    let sorts = sort_bytes(env.sorts@);
    let pad1 = zeros(pad_to(8, w1.len()));
    let pad2 = zeros(pad_to(8, w2.len()));
    lemma_prelude_len(env);
    assert(w1.len() == 40 + nsorts);
    lemma_section_len(w1, pad1, zeros(te.0.len()), te.1);
    assert(w2.len() == w1.len() + pad1.len() + te.0.len() + te.1.len());
    lemma_section_len(w2, pad2, zeros(he.0.len()), he.1);
    assert(w3.len() == w2.len() + pad2.len() + he.0.len() + he.1.len());
    assert(h16.len() == 16);
    assert(sorts.len() == nsorts);
    assert(pad1.len() == pad_to(8, w1.len()));
    assert(pad2.len() == pad_to(8, w2.len()));
    assert(align8(w1.len()) == 40 + sorts.len() + pad1.len());
    assert(align8(w2.len()) == 40 + sorts.len() + pad1.len() + te.0.len() + te.1.len()
        + pad2.len());
    let raw = h16 + zeros(4) + zeros(4) + zeros(8) + zeros(8) + sorts + pad1 + zeros(te.0.len())
        + te.1 + pad2 + zeros(he.0.len()) + he.1 + (ps + seq![0u8]);
    assert(w1 == h16 + zeros(4) + zeros(4) + zeros(8) + zeros(8) + sorts);
    assert(w4 == raw);
    assert(fixup_views(fixups).len() == 6);
    assert(fixup_views(fixups) =~= seq![
        (16u64, le32(align8(w1.len()) as u32)),
        ((40 + sorts.len() + pad1.len()) as u64, te.0),
        (20u64, le32(align8(w2.len()) as u32)),
        ((40 + sorts.len() + pad1.len() + te.0.len() + te.1.len() + pad2.len()) as u64, he.0),
        (24u64, le64(w3.len() as u64)),
        (32u64, le64(0)),
    ]);
    lemma_fill(
        h16,
        le32(align8(w1.len()) as u32),
        le32(align8(w2.len()) as u32),
        le64(w3.len() as u64),
        le64(0),
        sorts,
        pad1,
        te.0,
        te.1,
        pad2,
        he.0,
        he.1,
        ps + seq![0u8],
        fixups,
    );
    lemma_done(env);
}

/// The back-reference tables that the terms and the theorems of `env`
/// leave when their bodies are written.
pub open spec fn tables(env: Environment) -> (
    Seq<Option<crate::export::reorder::ReorderState>>,
    Seq<crate::export::reorder::ReorderState>,
) {
    let nsorts = env.sorts@.len();
    let nterms = env.terms@.len();
    let nthms = env.thms@.len();
    let t_start = align8(40 + nsorts) + 8 * nterms;
    let te = term_entries(env.terms@, nterms, t_start)->Ok_0;
    let h_start = align8(t_start + te.1.len()) + 8 * nthms;
    (te.2, thm_entries(env.thms@, nthms, h_start)->Ok_0.2)
}

/// Writing `v` over a run of as many bytes, with `a` before it and `c`
/// after it, leaves `a`, then `v`, then `c`.
proof fn lemma_patch_mid(a: Seq<u8>, z: Seq<u8>, c: Seq<u8>, v: Seq<u8>)
    requires
        z.len() == v.len(),
    ensures
        patch(a + z + c, a.len() as int, v) == a + v + c,
{
    assert(patch(a + z + c, a.len() as int, v) =~= a + v + c);
}

/// The file as it is streamed, with zeros in the reserved places, becomes
/// the finished file once the six fixups are written over it.
#[verifier::rlimit(100)]
proof fn lemma_fill(
    h16: Seq<u8>,
    v0: Seq<u8>,
    v2: Seq<u8>,
    v4: Seq<u8>,
    v5: Seq<u8>,
    sorts: Seq<u8>,
    pad1: Seq<u8>,
    th: Seq<u8>,
    tb: Seq<u8>,
    pad2: Seq<u8>,
    hh: Seq<u8>,
    hb: Seq<u8>,
    tail: Seq<u8>,
    fixups: Seq<(u64, Value)>,
)
    requires
        h16.len() == 16,
        v0.len() == 4,
        v2.len() == 4,
        v4.len() == 8,
        v5.len() == 8,
        40 + sorts.len() + pad1.len() + th.len() + tb.len() + pad2.len() <= u64::MAX,
        fixup_views(fixups) == seq![
            (16u64, v0),
            ((40 + sorts.len() + pad1.len()) as u64, th),
            (20u64, v2),
            ((40 + sorts.len() + pad1.len() + th.len() + tb.len() + pad2.len()) as u64, hh),
            (24u64, v4),
            (32u64, v5),
        ],
    ensures
        fixups.len() == 6,
        apply_fixups(
            h16 + zeros(4) + zeros(4) + zeros(8) + zeros(8) + sorts + pad1 + zeros(th.len()) + tb
                + pad2 + zeros(hh.len()) + hb + tail,
            fixups,
            6,
        ) == h16 + v0 + v2 + v4 + v5 + sorts + pad1 + th + tb + pad2 + hh + hb + tail,
        forall|i: int|
            0 <= i < 6 ==> (#[trigger] fixups[i]).0 + fixups[i].1.bytes().len() <= (h16 + zeros(4)
                + zeros(4) + zeros(8) + zeros(8) + sorts + pad1 + zeros(th.len()) + tb + pad2
                + zeros(hh.len()) + hb + tail).len(),
{
    let views = fixup_views(fixups);
    assert(views.len() == 6);
    assert(views[0] == (fixups[0].0, fixups[0].1.bytes()));
    assert(views[1] == (fixups[1].0, fixups[1].1.bytes()));
    assert(views[2] == (fixups[2].0, fixups[2].1.bytes()));
    assert(views[3] == (fixups[3].0, fixups[3].1.bytes()));
    assert(views[4] == (fixups[4].0, fixups[4].1.bytes()));
    assert(views[5] == (fixups[5].0, fixups[5].1.bytes()));
    let z4 = zeros(4);
    let z8 = zeros(8);
    let zt = zeros(th.len());
    let zh = zeros(hh.len());
    let raw = h16 + z4 + z4 + z8 + z8 + sorts + pad1 + zt + tb + pad2 + zh + hb + tail;
    let s1 = apply_fixups(raw, fixups, 1);
    let s2 = apply_fixups(raw, fixups, 2);
    let s3 = apply_fixups(raw, fixups, 3);
    let s4 = apply_fixups(raw, fixups, 4);
    let s5 = apply_fixups(raw, fixups, 5);
    let s6 = apply_fixups(raw, fixups, 6);
    assert(apply_fixups(raw, fixups, 0) == raw);
    let t1 = h16 + v0 + z4 + z8 + z8 + sorts + pad1 + zt + tb + pad2 + zh + hb + tail;
    assert(s1 == t1) by {
        let c = z4 + z8 + z8 + sorts + pad1 + zt + tb + pad2 + zh + hb + tail;
        assert(raw =~= h16 + z4 + c);
        assert(t1 =~= h16 + v0 + c);
        lemma_patch_mid(h16, z4, c, v0);
    }
    let t2 = h16 + v0 + z4 + z8 + z8 + sorts + pad1 + th + tb + pad2 + zh + hb + tail;
    assert(s2 == t2) by {
        let a = h16 + v0 + z4 + z8 + z8 + sorts + pad1;
        let c = tb + pad2 + zh + hb + tail;
        assert(t1 =~= a + zt + c);
        assert(t2 =~= a + th + c);
        lemma_patch_mid(a, zt, c, th);
    }
    let t3 = h16 + v0 + v2 + z8 + z8 + sorts + pad1 + th + tb + pad2 + zh + hb + tail;
    assert(s3 == t3) by {
        let a = h16 + v0;
        let c = z8 + z8 + sorts + pad1 + th + tb + pad2 + zh + hb + tail;
        assert(t2 =~= a + z4 + c);
        assert(t3 =~= a + v2 + c);
        lemma_patch_mid(a, z4, c, v2);
    }
    let t4 = h16 + v0 + v2 + z8 + z8 + sorts + pad1 + th + tb + pad2 + hh + hb + tail;
    assert(s4 == t4) by {
        let a = h16 + v0 + v2 + z8 + z8 + sorts + pad1 + th + tb + pad2;
        let c = hb + tail;
        assert(t3 =~= a + zh + c);
        assert(t4 =~= a + hh + c);
        lemma_patch_mid(a, zh, c, hh);
    }
    let t5 = h16 + v0 + v2 + v4 + z8 + sorts + pad1 + th + tb + pad2 + hh + hb + tail;
    assert(s5 == t5) by {
        let a = h16 + v0 + v2;
        let c = z8 + sorts + pad1 + th + tb + pad2 + hh + hb + tail;
        assert(t4 =~= a + z8 + c);
        assert(t5 =~= a + v4 + c);
        lemma_patch_mid(a, z8, c, v4);
    }
    let t6 = h16 + v0 + v2 + v4 + v5 + sorts + pad1 + th + tb + pad2 + hh + hb + tail;
    assert(s6 == t6) by {
        let a = h16 + v0 + v2 + v4;
        let c = sorts + pad1 + th + tb + pad2 + hh + hb + tail;
        assert(t5 =~= a + z8 + c);
        assert(t6 =~= a + v5 + c);
        lemma_patch_mid(a, z8, c, v5);
    }
}

} // verus!
