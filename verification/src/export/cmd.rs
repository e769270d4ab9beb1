//! Opcodes of the proof format and their byte encoding.

use crate::export::bytes::{le16, le32, write_all, write_u16, write_u32};
use crate::ids::{SortID, TermID, ThmID};
use vstd::prelude::*;

verus! {

/// Size class of an opcode: a one-byte operand follows.
pub const DATA_8: u8 = 0x40;

/// Size class of an opcode: a two-byte operand follows.
pub const DATA_16: u8 = 0x80;

/// Size class of an opcode: a four-byte operand follows.
pub const DATA_32: u8 = 0xC0;

pub const STMT_SORT: u8 = 0x04;

pub const STMT_AXIOM: u8 = 0x02;

pub const STMT_TERM: u8 = 0x05;

pub const STMT_DEF: u8 = 0x05;

pub const STMT_THM: u8 = 0x06;

pub const STMT_LOCAL: u8 = 0x08;

pub const PROOF_TERM: u8 = 0x10;

pub const PROOF_TERM_SAVE: u8 = 0x11;

pub const PROOF_REF: u8 = 0x12;

pub const PROOF_DUMMY: u8 = 0x13;

pub const PROOF_THM: u8 = 0x14;

pub const PROOF_THM_SAVE: u8 = 0x15;

pub const PROOF_HYP: u8 = 0x16;

pub const PROOF_CONV: u8 = 0x17;

pub const PROOF_REFL: u8 = 0x18;

pub const PROOF_SYMM: u8 = 0x19;

pub const PROOF_CONG: u8 = 0x1A;

pub const PROOF_UNFOLD: u8 = 0x1B;

pub const PROOF_CONV_CUT: u8 = 0x1C;

pub const PROOF_CONV_REF: u8 = 0x1D;

pub const PROOF_CONV_SAVE: u8 = 0x1E;

pub const UNIFY_TERM: u8 = 0x30;

pub const UNIFY_TERM_SAVE: u8 = 0x31;

pub const UNIFY_REF: u8 = 0x32;

pub const UNIFY_DUMMY: u8 = 0x33;

pub const UNIFY_HYP: u8 = 0x36;

/// Why an environment cannot be serialized.
#[derive(Copy, Clone, Debug, PartialEq, Eq, Structural)]
pub enum ExportError {
    /// More than 128 sorts.
    TooManySorts,
    /// More terms or theorems than a 32-bit count holds.
    TooManyDecls,
    /// A declaration with more than 65535 arguments.
    TooManyArgs,
    /// A declaration with more than 55 bound variables.
    TooManyBoundVars,
    /// A reference, hypothesis slot or declaration name that leads nowhere,
    /// or a dummy variable inside a proof.
    Malformed,
    /// A back-reference, a payload length or a file offset that does not fit
    /// in 32 bits.
    TooLarge,
}

/// An opcode with its operand: the smallest size class that holds `data`,
/// and none at all for zero.
pub open spec fn cmd_bytes(cmd: u8, data: u32) -> Seq<u8> {
    if data == 0 {
        seq![cmd]
    } else if data <= 0xff {
        seq![cmd | DATA_8, data as u8]
    } else if data <= 0xffff {
        seq![cmd | DATA_16] + le16(data as u16)
    } else {
        seq![cmd | DATA_32] + le32(data)
    }
}

/// Whether a payload of `len` bytes can be framed: its opcode, length field
/// and bytes together must not exceed a 32-bit length.
pub open spec fn payload_fits(len: nat) -> bool {
    len + 5 <= u32::MAX
}

/// An opcode that carries a payload. The length field counts the whole
/// opcode: the opcode byte, the length field itself and the payload.
pub open spec fn cmd_payload_bytes(cmd: u8, payload: Seq<u8>) -> Seq<u8> {
    if payload.len() + 2 <= 0xff {
        seq![cmd | DATA_8, (payload.len() + 2) as u8] + payload
    } else if payload.len() + 3 <= 0xffff {
        seq![cmd | DATA_16] + le16((payload.len() + 3) as u16) + payload
    } else {
        seq![cmd | DATA_32] + le32((payload.len() + 5) as u32) + payload
    }
}

/// Appends the opcode `cmd` with operand `data`.
pub fn write_cmd(w: &mut Vec<u8>, cmd: u8, data: u32)
    ensures
        final(w)@ == old(w)@ + cmd_bytes(cmd, data),
{
    if data == 0 {
        w.push(cmd);
        assert(w@ =~= old(w)@ + cmd_bytes(cmd, data));
    } else if data <= 0xff {
        w.push(cmd | DATA_8);
        w.push(data as u8);
        assert(w@ =~= old(w)@ + cmd_bytes(cmd, data));
    } else if data <= 0xffff {
        w.push(cmd | DATA_16);
        write_u16(w, data as u16);
        assert(w@ =~= old(w)@ + cmd_bytes(cmd, data));
    } else {
        w.push(cmd | DATA_32);
        write_u32(w, data);
        assert(w@ =~= old(w)@ + cmd_bytes(cmd, data));
    }
}

/// Appends the opcode `cmd` with the payload `payload`, or reports that the
/// payload is too long to be framed and leaves `w` as it was.
pub fn write_cmd_bytes(w: &mut Vec<u8>, cmd: u8, payload: &[u8]) -> (r: Result<(), ExportError>)
    ensures
        payload_fits(payload@.len()) ==> r is Ok && final(w)@ == old(w)@ + cmd_payload_bytes(
            cmd,
            payload@,
        ),
        !payload_fits(payload@.len()) ==> r == Err::<(), ExportError>(ExportError::TooLarge)
            && final(w)@ == old(w)@,
{
    let len: usize = payload.len();
    if len <= 0xff - 2 {
        w.push(cmd | DATA_8);
        w.push((len + 2) as u8);
        write_all(w, payload);
        assert(w@ =~= old(w)@ + cmd_payload_bytes(cmd, payload@));
        Ok(())
    } else if len <= 0xffff - 3 {
        w.push(cmd | DATA_16);
        write_u16(w, (len + 3) as u16);
        write_all(w, payload);
        assert(w@ =~= old(w)@ + cmd_payload_bytes(cmd, payload@));
        Ok(())
    } else if len <= 0xffff_ffff - 5 {
        w.push(cmd | DATA_32);
        write_u32(w, (len + 5) as u32);
        write_all(w, payload);
        assert(w@ =~= old(w)@ + cmd_payload_bytes(cmd, payload@));
        Ok(())
    } else {
        Err(ExportError::TooLarge)
    }
}

/// A command of the unify stream.
#[derive(Copy, Clone, Debug, PartialEq, Eq, Structural)]
pub enum UnifyCmd {
    Term(TermID),
    TermSave(TermID),
    Ref(u32),
    Dummy(SortID),
    Hyp,
}

/// A command of the proof stream.
#[derive(Copy, Clone, Debug, PartialEq, Eq, Structural)]
pub enum ProofCmd {
    Term(TermID),
    TermSave(TermID),
    Ref(u32),
    Dummy(SortID),
    Thm(ThmID),
    ThmSave(ThmID),
    Hyp,
    Conv,
    Refl,
    Sym,
    Cong,
    Unfold,
    ConvCut,
    ConvRef(u32),
    ConvSave,
}

impl UnifyCmd {
    /// The bytes of the command.
    pub open spec fn bytes(self) -> Seq<u8> {
        match self {
            UnifyCmd::Term(tid) => cmd_bytes(UNIFY_TERM, tid.0),
            UnifyCmd::TermSave(tid) => cmd_bytes(UNIFY_TERM_SAVE, tid.0),
            UnifyCmd::Ref(n) => cmd_bytes(UNIFY_REF, n),
            UnifyCmd::Dummy(sid) => cmd_bytes(UNIFY_DUMMY, sid.0 as u32),
            UnifyCmd::Hyp => seq![UNIFY_HYP],
        }
    }

    /// Appends the command to `w`.
    pub fn write_to(self, w: &mut Vec<u8>)
        ensures
            final(w)@ == old(w)@ + self.bytes(),
    {
        match self {
            UnifyCmd::Term(tid) => write_cmd(w, UNIFY_TERM, tid.0),
            UnifyCmd::TermSave(tid) => write_cmd(w, UNIFY_TERM_SAVE, tid.0),
            UnifyCmd::Ref(n) => write_cmd(w, UNIFY_REF, n),
            UnifyCmd::Dummy(sid) => write_cmd(w, UNIFY_DUMMY, sid.0 as u32),
            UnifyCmd::Hyp => {
                w.push(UNIFY_HYP);
                assert(w@ =~= old(w)@ + self.bytes());
            },
        }
    }
}

impl ProofCmd {
    /// The bytes of the command.
    pub open spec fn bytes(self) -> Seq<u8> {
        match self {
            ProofCmd::Term(tid) => cmd_bytes(PROOF_TERM, tid.0),
            ProofCmd::TermSave(tid) => cmd_bytes(PROOF_TERM_SAVE, tid.0),
            ProofCmd::Ref(n) => cmd_bytes(PROOF_REF, n),
            ProofCmd::Dummy(sid) => cmd_bytes(PROOF_DUMMY, sid.0 as u32),
            ProofCmd::Thm(tid) => cmd_bytes(PROOF_THM, tid.0),
            ProofCmd::ThmSave(tid) => cmd_bytes(PROOF_THM_SAVE, tid.0),
            ProofCmd::Hyp => seq![PROOF_HYP],
            ProofCmd::Conv => seq![PROOF_CONV],
            ProofCmd::Refl => seq![PROOF_REFL],
            ProofCmd::Sym => seq![PROOF_SYMM],
            ProofCmd::Cong => seq![PROOF_CONG],
            ProofCmd::Unfold => seq![PROOF_UNFOLD],
            ProofCmd::ConvCut => seq![PROOF_CONV_CUT],
            ProofCmd::ConvRef(n) => cmd_bytes(PROOF_CONV_REF, n),
            ProofCmd::ConvSave => seq![PROOF_CONV_SAVE],
        }
    }

    /// Appends the command to `w`.
    pub fn write_to(self, w: &mut Vec<u8>)
        ensures
            final(w)@ == old(w)@ + self.bytes(),
    {
        match self {
            ProofCmd::Term(tid) => write_cmd(w, PROOF_TERM, tid.0),
            ProofCmd::TermSave(tid) => write_cmd(w, PROOF_TERM_SAVE, tid.0),
            ProofCmd::Ref(n) => write_cmd(w, PROOF_REF, n),
            ProofCmd::Dummy(sid) => write_cmd(w, PROOF_DUMMY, sid.0 as u32),
            ProofCmd::Thm(tid) => write_cmd(w, PROOF_THM, tid.0),
            ProofCmd::ThmSave(tid) => write_cmd(w, PROOF_THM_SAVE, tid.0),
            ProofCmd::Hyp => write_op(w, PROOF_HYP),
            ProofCmd::Conv => write_op(w, PROOF_CONV),
            ProofCmd::Refl => write_op(w, PROOF_REFL),
            ProofCmd::Sym => write_op(w, PROOF_SYMM),
            ProofCmd::Cong => write_op(w, PROOF_CONG),
            ProofCmd::Unfold => write_op(w, PROOF_UNFOLD),
            ProofCmd::ConvCut => write_op(w, PROOF_CONV_CUT),
            ProofCmd::ConvRef(n) => write_cmd(w, PROOF_CONV_REF, n),
            ProofCmd::ConvSave => write_op(w, PROOF_CONV_SAVE),
        }
    }
}

/// Appends one byte.
pub fn write_op(w: &mut Vec<u8>, b: u8)
    ensures
        final(w)@ == old(w)@ + seq![b],
{
    w.push(b);
    assert(w@ =~= old(w)@ + seq![b]);
}

/// The bytes of a stream of unify commands.
pub open spec fn unify_bytes(cmds: Seq<UnifyCmd>) -> Seq<u8>
    decreases cmds.len(),
{
    if cmds.len() == 0 {
        Seq::<u8>::empty()
    } else {
        unify_bytes(cmds.drop_last()) + cmds.last().bytes()
    }
}

/// The bytes of a stream of proof commands.
pub open spec fn proof_bytes(cmds: Seq<ProofCmd>) -> Seq<u8>
    decreases cmds.len(),
{
    if cmds.len() == 0 {
        Seq::<u8>::empty()
    } else {
        proof_bytes(cmds.drop_last()) + cmds.last().bytes()
    }
}

/// The bytes of two streams in a row are the bytes of the first followed by
/// those of the second.
pub proof fn lemma_unify_bytes_concat(a: Seq<UnifyCmd>, b: Seq<UnifyCmd>)
    ensures
        unify_bytes(a + b) == unify_bytes(a) + unify_bytes(b),
    decreases b.len(),
{
    if b.len() == 0 {
        assert(a + b =~= a);
        assert(unify_bytes(a) + unify_bytes(b) =~= unify_bytes(a));
    } else {
        lemma_unify_bytes_concat(a, b.drop_last());
        assert((a + b).drop_last() =~= a + b.drop_last());
        assert((a + b).last() == b.last());
        assert(unify_bytes(a + b) =~= unify_bytes(a) + unify_bytes(b));
    }
}

/// The bytes of two streams in a row are the bytes of the first followed by
/// those of the second.
pub proof fn lemma_proof_bytes_concat(a: Seq<ProofCmd>, b: Seq<ProofCmd>)
    ensures
        proof_bytes(a + b) == proof_bytes(a) + proof_bytes(b),
    decreases b.len(),
{
    if b.len() == 0 {
        assert(a + b =~= a);
        assert(proof_bytes(a) + proof_bytes(b) =~= proof_bytes(a));
    } else {
        lemma_proof_bytes_concat(a, b.drop_last());
        assert((a + b).drop_last() =~= a + b.drop_last());
        assert((a + b).last() == b.last());
        assert(proof_bytes(a + b) =~= proof_bytes(a) + proof_bytes(b));
    }
}

/// A stream of one command has the bytes of that command.
pub proof fn lemma_unify_bytes_one(c: UnifyCmd)
    ensures
        unify_bytes(seq![c]) == c.bytes(),
{
    assert(seq![c].drop_last() =~= Seq::<UnifyCmd>::empty());
    assert(unify_bytes(Seq::<UnifyCmd>::empty()) =~= Seq::<u8>::empty());
    assert(unify_bytes(seq![c]) =~= c.bytes());
}

/// A stream of one command has the bytes of that command.
pub proof fn lemma_proof_bytes_one(c: ProofCmd)
    ensures
        proof_bytes(seq![c]) == c.bytes(),
{
    assert(seq![c].drop_last() =~= Seq::<ProofCmd>::empty());
    assert(proof_bytes(Seq::<ProofCmd>::empty()) =~= Seq::<u8>::empty());
    assert(proof_bytes(seq![c]) =~= c.bytes());
}

} // verus!
