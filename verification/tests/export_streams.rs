use mm0_rs::export::body::{
    write_binders, write_sort_deps, write_term_body, write_term_header, write_thm_body,
    write_thm_header,
};
use mm0_rs::export::bytes::{patch_bytes, write_all, write_u16, write_u32, write_u64, write_zeros};
use mm0_rs::export::cmd::{
    write_cmd, write_cmd_bytes, write_op, ExportError, ProofCmd, UnifyCmd,
};
use mm0_rs::export::container::align_to;
use mm0_rs::export::proof_stream::{write_expr_proof, write_proof};
use mm0_rs::export::reorder::Reorder;
use mm0_rs::export::stmt::{write_term_stmt, write_thm_stmt};
use mm0_rs::export::unify::write_expr_unify;
use mm0_rs::expr::{Expr, ExprNode, Proof, ProofNode, Term, Thm, Type};
use mm0_rs::ids::{SortID, TermID, ThmID};
use mm0_rs::syntax::{FileRef, FileSpan, Modifiers, Span, LOCAL};

fn fsp() -> FileSpan {
    FileSpan { file: FileRef(0), span: Span { start: 0, end: 0 } }
}

fn app(t: u32, es: Vec<ExprNode>) -> ExprNode {
    ExprNode::App(TermID(t), es)
}

fn term(args: Vec<(String, Type)>, val: Option<Expr>) -> Term {
    Term {
        span: fsp(),
        vis: Modifiers(0),
        id: Span { start: 0, end: 0 },
        args,
        ret: Type::Reg(SortID(0), 0),
        val,
    }
}

fn thm(args: Vec<(String, Type)>, heap: Vec<ExprNode>, hyps: Vec<ExprNode>, ret: ExprNode) -> Thm {
    Thm {
        span: fsp(),
        vis: Modifiers(0),
        id: Span { start: 0, end: 0 },
        args,
        heap,
        hyps,
        ret,
        proof: None,
    }
}

fn reg(name: &str) -> (String, Type) {
    (name.to_string(), Type::Reg(SortID(0), 0))
}

#[test]
fn little_endian_integers() {
    let mut w = Vec::new();
    write_u16(&mut w, 0x1234);
    write_u32(&mut w, 0x89AB_CDEF);
    write_u64(&mut w, 0x0102_0304_0506_0708);
    assert_eq!(
        w,
        vec![0x34, 0x12, 0xEF, 0xCD, 0xAB, 0x89, 0x08, 0x07, 0x06, 0x05, 0x04, 0x03, 0x02, 0x01]
    );
}

#[test]
fn buffers_append_and_patch() {
    let mut w = vec![9u8];
    write_all(&mut w, &[1, 2, 3]);
    write_zeros(&mut w, 2);
    write_op(&mut w, 7);
    assert_eq!(w, vec![9, 1, 2, 3, 0, 0, 7]);
    patch_bytes(&mut w, 4, &[5, 6]);
    assert_eq!(w, vec![9, 1, 2, 3, 5, 6, 7]);
}

#[test]
fn command_without_operand() {
    let mut w = Vec::new();
    write_cmd(&mut w, 0x12, 0);
    assert_eq!(w, vec![0x12]);
}

#[test]
fn command_size_classes() {
    let mut w = Vec::new();
    write_cmd(&mut w, 0x12, 1);
    write_cmd(&mut w, 0x12, 0xff);
    write_cmd(&mut w, 0x12, 0x100);
    write_cmd(&mut w, 0x12, 0xffff);
    write_cmd(&mut w, 0x12, 0x1_0000);
    write_cmd(&mut w, 0x12, 0xffff_ffff);
    assert_eq!(
        w,
        vec![
            0x52, 0x01, 0x52, 0xff, 0x92, 0x00, 0x01, 0x92, 0xff, 0xff, 0xD2, 0x00, 0x00, 0x01,
            0x00, 0xD2, 0xff, 0xff, 0xff, 0xff
        ]
    );
}

#[test]
fn payload_length_counts_whole_opcode() {
    let mut w = Vec::new();
    assert_eq!(write_cmd_bytes(&mut w, 0x05, &[0xAA, 0xBB, 0xCC]), Ok(()));
    assert_eq!(w, vec![0x45, 5, 0xAA, 0xBB, 0xCC]);

    let mut w = Vec::new();
    let p = vec![1u8; 253];
    assert_eq!(write_cmd_bytes(&mut w, 0x05, &p), Ok(()));
    assert_eq!(&w[..2], &[0x45, 255]);
    assert_eq!(w.len(), 255);

    let mut w = Vec::new();
    let p = vec![1u8; 254];
    assert_eq!(write_cmd_bytes(&mut w, 0x05, &p), Ok(()));
    assert_eq!(&w[..3], &[0x85, 0x01, 0x01]);
    assert_eq!(w.len(), 257);

    let mut w = Vec::new();
    let p = vec![1u8; 0xffff - 3];
    assert_eq!(write_cmd_bytes(&mut w, 0x06, &p), Ok(()));
    assert_eq!(&w[..3], &[0x86, 0xff, 0xff]);

    let mut w = Vec::new();
    let p = vec![1u8; 0xffff - 2];
    assert_eq!(write_cmd_bytes(&mut w, 0x06, &p), Ok(()));
    assert_eq!(&w[..5], &[0xC6, 0x02, 0x00, 0x01, 0x00]);
    assert_eq!(w.len(), 0x1_0002);
}

#[test]
fn unify_commands() {
    let mut w = Vec::new();
    UnifyCmd::Term(TermID(0)).write_to(&mut w);
    UnifyCmd::Term(TermID(3)).write_to(&mut w);
    UnifyCmd::TermSave(TermID(3)).write_to(&mut w);
    UnifyCmd::Ref(2).write_to(&mut w);
    UnifyCmd::Dummy(SortID(1)).write_to(&mut w);
    UnifyCmd::Hyp.write_to(&mut w);
    assert_eq!(w, vec![0x30, 0x70, 3, 0x71, 3, 0x72, 2, 0x73, 1, 0x36]);
}

#[test]
fn proof_commands() {
    let mut w = Vec::new();
    ProofCmd::Term(TermID(1)).write_to(&mut w);
    ProofCmd::TermSave(TermID(1)).write_to(&mut w);
    ProofCmd::Ref(1).write_to(&mut w);
    ProofCmd::Dummy(SortID(1)).write_to(&mut w);
    ProofCmd::Thm(ThmID(1)).write_to(&mut w);
    ProofCmd::ThmSave(ThmID(1)).write_to(&mut w);
    ProofCmd::Hyp.write_to(&mut w);
    ProofCmd::Conv.write_to(&mut w);
    ProofCmd::Refl.write_to(&mut w);
    ProofCmd::Sym.write_to(&mut w);
    ProofCmd::Cong.write_to(&mut w);
    ProofCmd::Unfold.write_to(&mut w);
    ProofCmd::ConvCut.write_to(&mut w);
    ProofCmd::ConvRef(1).write_to(&mut w);
    ProofCmd::ConvSave.write_to(&mut w);
    assert_eq!(
        w,
        vec![
            0x50, 1, 0x51, 1, 0x52, 1, 0x53, 1, 0x54, 1, 0x55, 1, 0x16, 0x17, 0x18, 0x19, 0x1A,
            0x1B, 0x1C, 0x5D, 1, 0x1E
        ]
    );
}

#[test]
fn reorder_starts_with_parameters() {
    let r = Reorder::new(2, 4);
    assert_eq!(r.map, vec![Some(0), Some(1), None, None]);
    assert_eq!(r.idx, 2);
}

#[test]
fn reorder_commit_numbers_pending_entries() {
    let mut r = Reorder::new(1, 4);
    let mut save = vec![3usize, 1];
    r.commit(&mut save, 7);
    assert_eq!(r.map, vec![Some(0), Some(7), None, Some(7)]);
    assert_eq!(r.idx, 1);
    assert!(save.is_empty());
}

#[test]
fn alignment_pads_to_multiple() {
    let mut w = vec![1u8; 9];
    assert_eq!(align_to(&mut w, 8), 16);
    assert_eq!(w.len(), 16);
    assert_eq!(&w[9..], &[0u8; 7]);
    assert_eq!(align_to(&mut w, 8), 16);
    assert_eq!(w.len(), 16);
    let mut w = vec![1u8; 5];
    assert_eq!(align_to(&mut w, 4), 8);
    let mut w = vec![1u8; 5];
    assert_eq!(align_to(&mut w, 2), 6);
    let mut w = vec![1u8; 5];
    assert_eq!(align_to(&mut w, 1), 5);
}

#[test]
fn sort_deps_word() {
    let mut w = Vec::new();
    write_sort_deps(&mut w, true, SortID(3), 4);
    write_sort_deps(&mut w, false, SortID(0x7f), 0x00ff_ffff_ffff_ffff);
    assert_eq!(
        w,
        vec![4, 0, 0, 0, 0, 0, 0, 0x83, 0xff, 0xff, 0xff, 0xff, 0xff, 0xff, 0xff, 0x7f]
    );
}

#[test]
fn binders_give_bound_variables_successive_bits() {
    let args = vec![
        ("x".to_string(), Type::Bound(SortID(1))),
        ("p".to_string(), Type::Reg(SortID(2), 1)),
        ("y".to_string(), Type::Bound(SortID(1))),
        ("z".to_string(), Type::Bound(SortID(0))),
    ];
    let mut w = Vec::new();
    assert_eq!(write_binders(&mut w, &args), Ok(()));
    assert_eq!(
        w,
        vec![
            1, 0, 0, 0, 0, 0, 0, 0x81, 1, 0, 0, 0, 0, 0, 0, 0x02, 2, 0, 0, 0, 0, 0, 0, 0x81, 4, 0,
            0, 0, 0, 0, 0, 0x80
        ]
    );
}

#[test]
fn binders_allow_fifty_five_bound_variables() {
    let args: Vec<(String, Type)> =
        (0..55).map(|i| (format!("x{}", i), Type::Bound(SortID(0)))).collect();
    let mut w = Vec::new();
    assert_eq!(write_binders(&mut w, &args), Ok(()));
    assert_eq!(w.len(), 55 * 8);
    assert_eq!(&w[54 * 8..], &[0, 0, 0, 0, 0, 0, 0x40, 0x80]);

    let args: Vec<(String, Type)> =
        (0..56).map(|i| (format!("x{}", i), Type::Bound(SortID(0)))).collect();
    let mut w = vec![7u8];
    assert_eq!(write_binders(&mut w, &args), Err(ExportError::TooManyBoundVars));
    // the words of the 55 bound variables that fit, and no more
    assert_eq!(w.len(), 1 + 55 * 8);
    assert_eq!(&w[1 + 54 * 8..], &[0, 0, 0, 0, 0, 0, 0x40, 0x80]);

    let mut args: Vec<(String, Type)> = vec![("p".to_string(), Type::Reg(SortID(1), 3))];
    args.extend((0..56).map(|i| (format!("x{}", i), Type::Bound(SortID(0)))));
    args.push(("q".to_string(), Type::Reg(SortID(1), 3)));
    let mut w = Vec::new();
    assert_eq!(write_binders(&mut w, &args), Err(ExportError::TooManyBoundVars));
    assert_eq!(w.len(), 56 * 8);
}

#[test]
fn headers_of_terms_and_theorems() {
    let mut table = vec![0u8; 16];
    write_term_header(&mut table, 1, 0x0102, SortID(5), true, 0x0A0B0C0D);
    assert_eq!(table, vec![0, 0, 0, 0, 0, 0, 0, 0, 0x02, 0x01, 0x85, 0, 0x0D, 0x0C, 0x0B, 0x0A]);
    write_term_header(&mut table, 0, 3, SortID(5), false, 8);
    assert_eq!(&table[..8], &[3, 0, 5, 0, 8, 0, 0, 0]);
    let mut table = vec![0u8; 8];
    write_thm_header(&mut table, 0, 0x0102, 0x0A0B0C0D);
    assert_eq!(table, vec![0x02, 0x01, 0, 0, 0x0D, 0x0C, 0x0B, 0x0A]);
}

#[test]
fn definition_with_shared_argument() {
    // foo x = bar(x, x)
    let heap = vec![ExprNode::Ref(0), ExprNode::Dummy("unused".to_string(), SortID(0))];
    let head = app(1, vec![ExprNode::Ref(0), ExprNode::Ref(0)]);
    let mut reorder = Reorder::new(1, heap.len());
    let mut save = Vec::new();
    let mut w = Vec::new();
    assert_eq!(write_expr_unify(&mut w, &heap, &mut reorder, &head, &mut save), Ok(()));
    assert_eq!(w, vec![0x70, 1, 0x32, 0x32]);
    assert_eq!(reorder.map[1], None);
    assert_eq!(reorder.idx, 1);
    assert!(save.is_empty());

    let t = term(vec![reg("x")], Some(Expr { heap, head }));
    let mut w = Vec::new();
    let r = write_term_body(&mut w, &t).unwrap().unwrap();
    assert_eq!(&w[..8], &[0, 0, 0, 0, 0, 0, 0, 0]);
    assert_eq!(&w[8..16], &[0, 0, 0, 0, 0, 0, 0, 0]);
    assert_eq!(&w[16..], &[0x70, 1, 0x32, 0x32, 0x00]);
    assert_eq!(r.map, vec![Some(0), None]);
    assert_eq!(r.idx, 1);
}

#[test]
fn unify_saves_shared_heap_entries() {
    // heap[1] = f(x), head = g(heap[1], heap[1])
    let heap = vec![ExprNode::Ref(0), app(2, vec![ExprNode::Ref(0)])];
    let head = app(3, vec![ExprNode::Ref(1), ExprNode::Ref(1)]);
    let mut reorder = Reorder::new(1, heap.len());
    let mut save = Vec::new();
    let mut w = Vec::new();
    assert_eq!(write_expr_unify(&mut w, &heap, &mut reorder, &head, &mut save), Ok(()));
    // Term(3), TermSave(2), Ref(0), Ref(1)
    assert_eq!(w, vec![0x70, 3, 0x71, 2, 0x32, 0x72, 1]);
    assert_eq!(reorder.map, vec![Some(0), Some(1)]);
    assert_eq!(reorder.idx, 2);
}

#[test]
fn unify_dummy_takes_a_number() {
    let heap = vec![ExprNode::Dummy("d".to_string(), SortID(4))];
    let head = app(0, vec![ExprNode::Ref(0), ExprNode::Ref(0)]);
    let mut reorder = Reorder::new(0, heap.len());
    let mut save = Vec::new();
    let mut w = Vec::new();
    assert_eq!(write_expr_unify(&mut w, &heap, &mut reorder, &head, &mut save), Ok(()));
    // Term(0), Dummy(4), Ref(0)
    assert_eq!(w, vec![0x30, 0x73, 4, 0x32]);
    assert_eq!(reorder.map, vec![Some(0)]);
    assert_eq!(reorder.idx, 1);
}

#[test]
fn unify_rejects_forward_and_missing_references() {
    let heap = vec![ExprNode::Ref(0), ExprNode::Ref(1)];
    let head = ExprNode::Ref(1);
    let mut reorder = Reorder::new(1, heap.len());
    let mut save = Vec::new();
    let mut w = Vec::new();
    assert_eq!(
        write_expr_unify(&mut w, &heap, &mut reorder, &head, &mut save),
        Err(ExportError::Malformed)
    );
    let head = ExprNode::Ref(2);
    let mut reorder = Reorder::new(1, heap.len());
    let mut save = Vec::new();
    assert_eq!(
        write_expr_unify(&mut w, &heap, &mut reorder, &head, &mut save),
        Err(ExportError::Malformed)
    );
}

#[test]
fn unify_reports_exhausted_numbers() {
    let heap = vec![];
    let head = ExprNode::Dummy("d".to_string(), SortID(0));
    let mut reorder = Reorder { map: vec![], idx: u32::MAX };
    let mut save = Vec::new();
    let mut w = Vec::new();
    assert_eq!(
        write_expr_unify(&mut w, &heap, &mut reorder, &head, &mut save),
        Err(ExportError::TooLarge)
    );
}

#[test]
fn theorem_header_lists_hypotheses_in_reverse() {
    // args x; conclusion T = t5(x); hypotheses h1 = t1(x), h2 = t2(x)
    let heap = vec![ExprNode::Ref(0)];
    let t = thm(
        vec![reg("x")],
        heap,
        vec![app(1, vec![ExprNode::Ref(0)]), app(2, vec![ExprNode::Ref(0)])],
        app(5, vec![ExprNode::Ref(0)]),
    );
    let mut w = Vec::new();
    let r = write_thm_body(&mut w, &t).unwrap();
    assert_eq!(&w[..8], &[0, 0, 0, 0, 0, 0, 0, 0]);
    assert_eq!(
        &w[8..],
        &[0x70, 5, 0x32, 0x36, 0x70, 2, 0x32, 0x36, 0x70, 1, 0x32, 0x00]
    );
    assert_eq!(r.idx, 1);
}

#[test]
fn expression_proof_stream_is_postfix() {
    // heap[1] = f(x); head = g(heap[1], heap[1], d)
    let heap = vec![ExprNode::Ref(0), app(2, vec![ExprNode::Ref(0)])];
    let head = app(
        3,
        vec![ExprNode::Ref(1), ExprNode::Ref(1), ExprNode::Dummy("d".to_string(), SortID(1))],
    );
    let mut reorder = Reorder::new(1, heap.len());
    let mut w = Vec::new();
    assert_eq!(write_expr_proof(&mut w, &heap, &mut reorder, &head, false), Ok(0));
    // Ref(0), TermSave(2), Ref(1), Dummy(1), Term(3)
    assert_eq!(w, vec![0x12, 0x51, 2, 0x52, 1, 0x53, 1, 0x50, 3]);
    assert_eq!(reorder.map, vec![Some(0), Some(1)]);
    assert_eq!(reorder.idx, 3);

    let mut reorder = Reorder::new(1, heap.len());
    let mut w = Vec::new();
    assert_eq!(write_expr_proof(&mut w, &heap, &mut reorder, &head, true), Ok(3));
    assert_eq!(w, vec![0x12, 0x51, 2, 0x52, 1, 0x53, 1, 0x51, 3]);
    assert_eq!(reorder.idx, 4);
}

#[test]
fn expression_proof_stream_rejects_bad_references() {
    let heap = vec![ExprNode::Ref(0), ExprNode::Ref(1)];
    let mut reorder = Reorder::new(1, heap.len());
    let mut w = Vec::new();
    assert_eq!(
        write_expr_proof(&mut w, &heap, &mut reorder, &ExprNode::Ref(1), false),
        Err(ExportError::Malformed)
    );
    let mut reorder = Reorder::new(1, heap.len());
    assert_eq!(
        write_expr_proof(&mut w, &heap, &mut reorder, &ExprNode::Ref(5), false),
        Err(ExportError::Malformed)
    );
    let mut reorder = Reorder { map: vec![], idx: u32::MAX };
    assert_eq!(
        write_expr_proof(
            &mut w,
            &vec![],
            &mut reorder,
            &ExprNode::Dummy("d".to_string(), SortID(0)),
            false
        ),
        Err(ExportError::TooLarge)
    );
}

fn pterm(t: u32, args: Vec<ProofNode>) -> ProofNode {
    ProofNode::Term { term: TermID(t), args }
}

#[test]
fn proof_stream_of_theorem_application() {
    let heap = vec![ProofNode::Ref(0)];
    let hyps = vec![7u32, 9];
    let head = ProofNode::Thm {
        thm: ThmID(4),
        args: vec![ProofNode::Ref(0)],
        hyps: vec![ProofNode::Hyp(1, Box::new(pterm(1, vec![])))],
        tgt: Box::new(pterm(2, vec![ProofNode::Ref(0)])),
    };
    let mut reorder = Reorder::new(1, heap.len());
    let mut w = Vec::new();
    assert_eq!(write_proof(&mut w, &heap, &mut reorder, &hyps, &head, false), Ok(0));
    // Ref(0), Ref(9), Ref(0), Term(2), Thm(4)
    assert_eq!(w, vec![0x12, 0x52, 9, 0x12, 0x50, 2, 0x54, 4]);

    let mut reorder = Reorder::new(1, heap.len());
    let mut w = Vec::new();
    assert_eq!(write_proof(&mut w, &heap, &mut reorder, &hyps, &head, true), Ok(1));
    assert_eq!(w, vec![0x12, 0x52, 9, 0x12, 0x50, 2, 0x55, 4]);
    assert_eq!(reorder.idx, 2);
}

#[test]
fn proof_stream_of_conversion() {
    let heap = vec![];
    let hyps = vec![];
    let head = ProofNode::Conv {
        tgt: Box::new(pterm(1, vec![])),
        proof: Box::new(pterm(2, vec![])),
    };
    let mut reorder = Reorder::new(0, 0);
    let mut w = Vec::new();
    assert_eq!(write_proof(&mut w, &heap, &mut reorder, &hyps, &head, true), Ok(0));
    // Conv, Term(1), TermSave(2)
    assert_eq!(w, vec![0x17, 0x50, 1, 0x51, 2]);
    assert_eq!(reorder.idx, 1);
}

#[test]
fn proof_stream_rejects_dummy_and_unknown_hypothesis() {
    let heap = vec![];
    let hyps = vec![3u32];
    let mut reorder = Reorder::new(0, 0);
    let mut w = Vec::new();
    assert_eq!(
        write_proof(
            &mut w,
            &heap,
            &mut reorder,
            &hyps,
            &ProofNode::Dummy("d".to_string(), SortID(0)),
            false
        ),
        Err(ExportError::Malformed)
    );
    assert_eq!(
        write_proof(
            &mut w,
            &heap,
            &mut reorder,
            &hyps,
            &ProofNode::Hyp(1, Box::new(pterm(0, vec![]))),
            false
        ),
        Err(ExportError::Malformed)
    );
    let mut w = Vec::new();
    assert_eq!(
        write_proof(
            &mut w,
            &heap,
            &mut reorder,
            &hyps,
            &ProofNode::Hyp(0, Box::new(pterm(0, vec![]))),
            false
        ),
        Ok(3)
    );
    assert_eq!(w, vec![0x52, 3]);
}

#[test]
fn statement_of_primitive_term() {
    let mut w = Vec::new();
    assert_eq!(write_term_stmt(&mut w, &term(vec![reg("x")], None)), Ok(()));
    assert_eq!(w, vec![0x45, 2]);
}

#[test]
fn statement_of_definition() {
    let heap = vec![ExprNode::Ref(0)];
    let head = app(1, vec![ExprNode::Ref(0), ExprNode::Ref(0)]);
    let mut t = term(vec![reg("x")], Some(Expr { heap, head }));
    let mut w = Vec::new();
    assert_eq!(write_term_stmt(&mut w, &t), Ok(()));
    // payload: Ref(0), Ref(0), Term(1), 0
    assert_eq!(w, vec![0x45, 7, 0x12, 0x12, 0x50, 1, 0x00]);
    t.vis = Modifiers(LOCAL);
    let mut w = Vec::new();
    assert_eq!(write_term_stmt(&mut w, &t), Ok(()));
    assert_eq!(w, vec![0x4D, 7, 0x12, 0x12, 0x50, 1, 0x00]);
}

#[test]
fn statement_of_axiom() {
    let t = thm(
        vec![reg("x")],
        vec![ExprNode::Ref(0)],
        vec![app(1, vec![ExprNode::Ref(0)]), app(2, vec![])],
        app(5, vec![]),
    );
    let mut w = Vec::new();
    assert_eq!(write_thm_stmt(&mut w, &t), Ok(()));
    // Ref(0) Term(1) Hyp Term(2) Hyp Term(5) 0
    assert_eq!(
        w,
        vec![0x42, 12, 0x12, 0x50, 1, 0x16, 0x50, 2, 0x16, 0x50, 5, 0x00]
    );
}

#[test]
fn statement_of_theorem_with_proof() {
    let mut t = thm(
        vec![reg("x")],
        vec![ExprNode::Ref(0)],
        vec![app(1, vec![]), app(2, vec![])],
        app(5, vec![]),
    );
    // proof heap: x, hyp h1, hyp h2 (through a reference)
    let heap = vec![
        ProofNode::Ref(0),
        ProofNode::Hyp(0, Box::new(pterm(1, vec![]))),
        ProofNode::Hyp(1, Box::new(pterm(2, vec![]))),
    ];
    let hyps = vec![ProofNode::Ref(1), ProofNode::Ref(2)];
    let head = ProofNode::Thm {
        thm: ThmID(0),
        args: vec![ProofNode::Ref(0)],
        hyps: vec![ProofNode::Ref(2), ProofNode::Ref(1)],
        tgt: Box::new(pterm(5, vec![])),
    };
    t.proof = Some(Proof { heap, hyps, head });
    let mut w = Vec::new();
    assert_eq!(write_thm_stmt(&mut w, &t), Ok(()));
    // Term(1) Hyp [h1 = 1], Term(2) Hyp [h2 = 2],
    // Ref(0), Ref(2) (h2) , Ref(1) (h1), Term(5), Thm(0), 0
    assert_eq!(
        w,
        vec![
            0x46, 17, 0x50, 1, 0x16, 0x50, 2, 0x16, 0x12, 0x52, 2, 0x52, 1, 0x50, 5, 0x14, 0x00
        ]
    );
    t.vis = Modifiers(LOCAL);
    let mut w = Vec::new();
    assert_eq!(write_thm_stmt(&mut w, &t), Ok(()));
    assert_eq!(w[0], 0x4E);
}

#[test]
fn statement_of_theorem_needs_hypothesis_nodes() {
    let mut t = thm(vec![], vec![], vec![], app(5, vec![]));
    t.proof = Some(Proof {
        heap: vec![],
        hyps: vec![pterm(1, vec![])],
        head: pterm(5, vec![]),
    });
    let mut w = Vec::new();
    assert_eq!(write_thm_stmt(&mut w, &t), Err(ExportError::Malformed));
}

#[test]
fn bodies_need_arguments_on_the_heap() {
    let t = term(vec![reg("x"), reg("y")], Some(Expr { heap: vec![], head: app(1, vec![]) }));
    let mut w = Vec::new();
    assert!(matches!(write_term_body(&mut w, &t), Err(ExportError::Malformed)));
    let mut w = Vec::new();
    assert_eq!(write_term_stmt(&mut w, &t), Err(ExportError::Malformed));
}
