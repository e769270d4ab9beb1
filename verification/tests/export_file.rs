use mm0_rs::environment::{Environment, Sort, StmtTrace};
use mm0_rs::export::cmd::ExportError;
use mm0_rs::export::exporter::{Exporter, Fixup32, Fixup64, Value};
use mm0_rs::export::proof_stream::write_expr_proof;
use mm0_rs::export::reorder::Reorder;
use mm0_rs::export::unify::write_expr_unify;
use mm0_rs::expr::{Expr, ExprNode, Proof, ProofNode, Term, Thm, Type};
use mm0_rs::ids::{SortID, TermID, ThmID};
use mm0_rs::syntax::{FileRef, FileSpan, Modifiers, Span, LOCAL, PROVABLE, PURE};

fn fsp(start: usize) -> FileSpan {
    FileSpan { file: FileRef(0), span: Span { start, end: start + 1 } }
}

fn app(t: u32, es: Vec<ExprNode>) -> ExprNode {
    ExprNode::App(TermID(t), es)
}

fn reg(name: &str, s: u8) -> (String, Type) {
    (name.to_string(), Type::Reg(SortID(s), 0))
}

fn term(at: usize, args: Vec<(String, Type)>, ret: u8, val: Option<Expr>) -> Term {
    Term {
        span: fsp(at),
        vis: Modifiers(0),
        id: fsp(at).span,
        args,
        ret: Type::Reg(SortID(ret), 0),
        val,
    }
}

fn export(env: &Environment) -> Result<Vec<u8>, ExportError> {
    let mut ex = Exporter::new(env);
    ex.run()?;
    Ok(ex.output().clone())
}

fn u32_at(b: &[u8], at: usize) -> usize {
    u32::from_le_bytes([b[at], b[at + 1], b[at + 2], b[at + 3]]) as usize
}

fn u64_at(b: &[u8], at: usize) -> usize {
    let mut a = [0u8; 8];
    a.copy_from_slice(&b[at..at + 8]);
    u64::from_le_bytes(a) as usize
}

/// nat, wff; zero: nat; eq(a b): wff; same(x) := eq(x, x); refl: eq(x, x)
/// with hypotheses; thm with a proof.
fn sample() -> Environment {
    let mut env = Environment::new();
    env.add_sort("nat".to_string(), fsp(0), Modifiers(PURE)).ok().unwrap();
    env.add_sort("wff".to_string(), fsp(1), Modifiers(PROVABLE)).ok().unwrap();
    env.add_term("zero".to_string(), fsp(2), || term(2, vec![], 0, None)).ok().unwrap();
    env.add_term("eq".to_string(), fsp(3), || term(3, vec![reg("a", 0), reg("b", 0)], 1, None))
        .ok()
        .unwrap();
    env.add_term("same".to_string(), fsp(4), || {
        let mut t = term(
            4,
            vec![("x".to_string(), Type::Bound(SortID(0)))],
            1,
            Some(Expr {
                heap: vec![ExprNode::Ref(0)],
                head: app(1, vec![ExprNode::Ref(0), ExprNode::Ref(0)]),
            }),
        );
        t.vis = Modifiers(LOCAL);
        t
    })
    .ok()
    .unwrap();
    env.add_thm("ax".to_string(), fsp(5), || Thm {
        span: fsp(5),
        vis: Modifiers(0),
        id: fsp(5).span,
        args: vec![reg("x", 0)],
        heap: vec![ExprNode::Ref(0)],
        hyps: vec![app(2, vec![ExprNode::Ref(0)])],
        ret: app(1, vec![ExprNode::Ref(0), app(0, vec![])]),
        proof: None,
    })
    .ok()
    .unwrap();
    env.add_thm("th".to_string(), fsp(6), || Thm {
        span: fsp(6),
        vis: Modifiers(0),
        id: fsp(6).span,
        args: vec![reg("x", 0)],
        heap: vec![ExprNode::Ref(0)],
        hyps: vec![],
        ret: app(2, vec![ExprNode::Ref(0)]),
        proof: Some(Proof {
            heap: vec![ProofNode::Ref(0)],
            hyps: vec![],
            head: ProofNode::Thm {
                thm: ThmID(0),
                args: vec![ProofNode::Ref(0)],
                hyps: vec![],
                tgt: Box::new(ProofNode::Term { term: TermID(2), args: vec![ProofNode::Ref(0)] }),
            },
        }),
    })
    .ok()
    .unwrap();
    env
}

#[test]
fn sample_file_is_byte_exact() {
    let bytes = export(&sample()).unwrap();
    let mut e: Vec<u8> = Vec::new();
    e.extend_from_slice(b"MM0B");
    e.extend_from_slice(&[1, 2, 0, 0]);
    e.extend_from_slice(&[3, 0, 0, 0]);
    e.extend_from_slice(&[2, 0, 0, 0]);
    e.extend_from_slice(&[48, 0, 0, 0]); // p_terms
    e.extend_from_slice(&[128, 0, 0, 0]); // p_thms
    e.extend_from_slice(&[180, 0, 0, 0, 0, 0, 0, 0]); // p_proof
    e.extend_from_slice(&[0; 8]); // p_index
    e.extend_from_slice(&[1, 4]); // sorts
    e.extend_from_slice(&[0; 6]); // pad to 48
    // term table: zero, eq, same
    e.extend_from_slice(&[0, 0, 0x00, 0, 72, 0, 0, 0]);
    e.extend_from_slice(&[2, 0, 0x01, 0, 80, 0, 0, 0]);
    e.extend_from_slice(&[1, 0, 0x81, 0, 104, 0, 0, 0]);
    // zero at 72: ret word
    e.extend_from_slice(&[0, 0, 0, 0, 0, 0, 0, 0]);
    // eq at 80: two binders and ret word
    e.extend_from_slice(&[0, 0, 0, 0, 0, 0, 0, 0]);
    e.extend_from_slice(&[0, 0, 0, 0, 0, 0, 0, 0]);
    e.extend_from_slice(&[0, 0, 0, 0, 0, 0, 0, 1]);
    // same at 104: bound binder, ret word, unify stream, 0
    e.extend_from_slice(&[1, 0, 0, 0, 0, 0, 0, 0x80]);
    e.extend_from_slice(&[0, 0, 0, 0, 0, 0, 0, 1]);
    e.extend_from_slice(&[0x70, 1, 0x32, 0x32, 0x00]);
    e.extend_from_slice(&[0; 3]); // pad to 128
    // theorem table: ax, th
    e.extend_from_slice(&[1, 0, 0, 0, 144, 0, 0, 0]);
    e.extend_from_slice(&[1, 0, 0, 0, 168, 0, 0, 0]);
    // ax at 144: binder, unify ret, Hyp, unify hyp, 0
    e.extend_from_slice(&[0, 0, 0, 0, 0, 0, 0, 0]);
    e.extend_from_slice(&[0x70, 1, 0x32, 0x30, 0x36, 0x70, 2, 0x32, 0x00]);
    e.extend_from_slice(&[0; 7]); // pad to 168
    // th at 168: binder, unify ret, 0
    e.extend_from_slice(&[0, 0, 0, 0, 0, 0, 0, 0]);
    e.extend_from_slice(&[0x70, 2, 0x32, 0x00]);
    // the proof section starts where the body of th ends
    assert_eq!(e.len(), 180);
    assert_eq!(&bytes[..180], &e[..]);
}

#[test]
fn sample_file_offsets_and_statements() {
    let bytes = export(&sample()).unwrap();
    let p_terms = u32_at(&bytes, 16);
    let p_thms = u32_at(&bytes, 20);
    let p_proof = u64_at(&bytes, 24);
    assert_eq!((p_terms, p_thms, p_proof), (48, 128, 180));
    assert_eq!(u64_at(&bytes, 32), 0);
    let proof = &bytes[p_proof..];
    let expected: Vec<u8> = vec![
        0x44, 2, // sort nat
        0x44, 2, // sort wff
        0x45, 2, // term zero
        0x45, 2, // term eq
        0x4D, 7, 0x12, 0x12, 0x50, 1, 0x00, // local def same: Ref0 Ref0 Term(eq) 0
        0x42, 11, 0x12, 0x50, 2, 0x16, 0x12, 0x10, 0x50, 1, 0x00, // axiom ax
        0x46, 8, 0x12, 0x12, 0x50, 2, 0x14, 0x00, // theorem th
        0x00,
    ];
    assert_eq!(proof, &expected[..]);
}

#[test]
fn offsets_are_aligned_and_point_inside() {
    let bytes = export(&sample()).unwrap();
    let (nterms, nthms) = (u32_at(&bytes, 8), u32_at(&bytes, 12));
    let p_terms = u32_at(&bytes, 16);
    let p_thms = u32_at(&bytes, 20);
    let p_proof = u64_at(&bytes, 24);
    assert_eq!(p_terms % 8, 0);
    assert_eq!(p_thms % 8, 0);
    assert!(p_terms + 8 * nterms <= p_thms);
    assert!(p_thms + 8 * nthms <= p_proof);
    assert!(p_proof < bytes.len());
    assert_eq!(u64_at(&bytes, 32), 0);
    assert_eq!(*bytes.last().unwrap(), 0);
    for k in 0..nterms {
        let p = u32_at(&bytes, p_terms + 8 * k + 4);
        assert_eq!(p % 8, 0);
        assert!(p_terms + 8 * nterms <= p && p < p_thms);
    }
    for k in 0..nthms {
        let p = u32_at(&bytes, p_thms + 8 * k + 4);
        assert_eq!(p % 8, 0);
        assert!(p_thms + 8 * nthms <= p && p < p_proof);
    }
    // offsets grow from entry to entry
    for k in 1..nterms {
        assert!(u32_at(&bytes, p_terms + 8 * k - 4) < u32_at(&bytes, p_terms + 8 * k + 4));
    }
    for k in 1..nthms {
        assert!(u32_at(&bytes, p_thms + 8 * k - 4) < u32_at(&bytes, p_thms + 8 * k + 4));
    }
    // entries start with the argument count and the sort
    let env = sample();
    for (k, t) in env.terms.0.iter().enumerate() {
        let at = p_terms + 8 * k;
        let flag = if t.val.is_some() { 0x80 } else { 0 };
        assert_eq!(&bytes[at..at + 2], &(t.args.len() as u16).to_le_bytes());
        assert_eq!(bytes[at + 2], t.ret.sort().0 | flag);
        assert_eq!(bytes[at + 3], 0);
    }
    for (k, t) in env.thms.0.iter().enumerate() {
        let at = p_thms + 8 * k;
        assert_eq!(&bytes[at..at + 2], &(t.args.len() as u16).to_le_bytes());
        assert_eq!(&bytes[at + 2..at + 4], &[0, 0]);
    }
}

#[test]
fn back_reference_tables_are_kept() {
    let env = sample();
    let mut ex = Exporter::new(&env);
    ex.run().unwrap();
    assert_eq!(ex.term_reord.len(), 3);
    assert!(ex.term_reord.0[0].is_none());
    assert!(ex.term_reord.0[1].is_none());
    let r = ex.term_reord.0[2].as_ref().unwrap();
    assert_eq!(r.map, vec![Some(0)]);
    assert_eq!(r.idx, 1);
    assert_eq!(ex.thm_reord.len(), 2);
    assert_eq!(ex.thm_reord.0[0].idx, 1);
    assert_eq!(ex.pos() as usize, ex.output().len());
}

#[test]
fn fixups_are_written_at_the_end() {
    let env = Environment::new();
    let mut ex = Exporter::new(&env);
    ex.write_u32(0x01020304);
    let a: Fixup32 = ex.fixup32();
    ex.write_u64(0x1112131415161718);
    let b: Fixup64 = ex.fixup64();
    let c = ex.fixup_large(3);
    assert_eq!(ex.align_to(8), 32);
    let d: Fixup32 = ex.fixup32();
    let e: Fixup64 = ex.fixup64();
    assert_eq!(ex.pos(), 44);
    assert_eq!(a.0, 4);
    assert_eq!(b.0, 16);
    assert_eq!(c.0, 24);
    assert_eq!(c.1, vec![0, 0, 0]);
    assert!(ex.output()[4..8].iter().all(|x| *x == 0));
    a.commit_val(&mut ex, 0xAABBCCDD);
    b.commit(&mut ex);
    let mut filled = c;
    filled.1 = vec![7, 8, 9];
    filled.commit(&mut ex);
    assert!(d.commit(&mut ex).is_ok());
    e.commit_val(&mut ex, 5);
    assert_eq!(ex.fixups.len(), 5);
    assert!(matches!(ex.fixups[1], (16, Value::U64(44))));
    assert!(ex.output()[4..8].iter().all(|x| *x == 0));
    ex.apply_fixups();
    let w = ex.output();
    assert_eq!(&w[0..4], &[4, 3, 2, 1]);
    assert_eq!(&w[4..8], &[0xDD, 0xCC, 0xBB, 0xAA]);
    assert_eq!(&w[8..16], &[0x18, 0x17, 0x16, 0x15, 0x14, 0x13, 0x12, 0x11]);
    assert_eq!(&w[16..24], &[44, 0, 0, 0, 0, 0, 0, 0]);
    assert_eq!(&w[24..27], &[7, 8, 9]);
    assert_eq!(&w[27..32], &[0; 5]);
    assert_eq!(&w[32..36], &[44, 0, 0, 0]);
    assert_eq!(&w[36..44], &[5, 0, 0, 0, 0, 0, 0, 0]);
}

#[test]
fn too_many_sorts_cannot_be_written() {
    let mut env = Environment::new();
    for i in 0..129 {
        env.sorts.push(Sort { name: format!("s{}", i), span: fsp(i), mods: Modifiers(0) });
    }
    assert_eq!(export(&env), Err(ExportError::TooManySorts));
    env.sorts.0.pop();
    let bytes = export(&env).unwrap();
    assert_eq!(&bytes[4..8], &[1, 128, 0, 0]);
    assert_eq!(u32_at(&bytes, 16), 168);
}

#[test]
fn too_many_arguments_cannot_be_written() {
    let mut env = Environment::new();
    env.add_sort("s".to_string(), fsp(0), Modifiers(0)).ok().unwrap();
    let args: Vec<(String, Type)> = (0..65536).map(|_| reg("x", 0)).collect();
    env.add_term("t".to_string(), fsp(1), || term(1, args, 0, None)).ok().unwrap();
    assert_eq!(export(&env), Err(ExportError::TooManyArgs));
    env.terms.0[0].args.pop();
    let bytes = export(&env).unwrap();
    let p_terms = u32_at(&bytes, 16);
    assert_eq!(&bytes[p_terms..p_terms + 2], &[0xff, 0xff]);
}

#[test]
fn too_many_bound_variables_cannot_be_written() {
    let mut env = Environment::new();
    env.add_sort("s".to_string(), fsp(0), Modifiers(0)).ok().unwrap();
    let args: Vec<(String, Type)> =
        (0..56).map(|i| (format!("x{}", i), Type::Bound(SortID(0)))).collect();
    env.add_term("t".to_string(), fsp(1), || term(1, args, 0, None)).ok().unwrap();
    assert_eq!(export(&env), Err(ExportError::TooManyBoundVars));
}

#[test]
fn malformed_environments_cannot_be_written() {
    // a definition that refers to a heap entry that does not exist
    let mut env = Environment::new();
    env.add_sort("s".to_string(), fsp(0), Modifiers(0)).ok().unwrap();
    env.add_term("t".to_string(), fsp(1), || {
        term(1, vec![], 0, Some(Expr { heap: vec![], head: ExprNode::Ref(0) }))
    })
    .ok()
    .unwrap();
    assert_eq!(export(&env), Err(ExportError::Malformed));

    // a history that names a declaration that does not exist
    let mut env = Environment::new();
    env.stmts.push(StmtTrace::Decl("ghost".to_string()));
    assert_eq!(export(&env), Err(ExportError::Malformed));
}

// A reader for the proof stream of an expression, as far as these tests
// need one.
#[derive(Clone, Debug, PartialEq)]
enum Shape {
    Param(usize),
    Dummy(u8),
    App(u32, Vec<Shape>),
}

fn expand(heap: &[ExprNode], nargs: usize, e: &ExprNode) -> Shape {
    match e {
        ExprNode::Ref(i) if *i < nargs => Shape::Param(*i),
        ExprNode::Ref(i) => expand(heap, nargs, &heap[*i]),
        ExprNode::Dummy(_, s) => Shape::Dummy(s.0),
        ExprNode::App(t, es) => Shape::App(t.0, es.iter().map(|e| expand(heap, nargs, e)).collect()),
    }
}

fn read(bytes: &[u8], nargs: usize, arity: &dyn Fn(u32) -> usize) -> Vec<Shape> {
    let mut stack: Vec<Shape> = Vec::new();
    let mut store: Vec<Shape> = (0..nargs).map(Shape::Param).collect();
    let mut at = 0;
    while at < bytes.len() {
        let op = bytes[at] & 0x3f;
        let (data, next) = match bytes[at] >> 6 {
            0 => (0u32, at + 1),
            1 => (bytes[at + 1] as u32, at + 2),
            2 => (u16::from_le_bytes([bytes[at + 1], bytes[at + 2]]) as u32, at + 3),
            _ => (u32_at(bytes, at + 1) as u32, at + 5),
        };
        at = next;
        match op {
            0x10 | 0x11 => {
                let n = arity(data);
                let kids = stack.split_off(stack.len() - n);
                let e = Shape::App(data, kids);
                if op == 0x11 {
                    store.push(e.clone());
                }
                stack.push(e);
            }
            0x12 => stack.push(store[data as usize].clone()),
            0x13 => {
                stack.push(Shape::Dummy(data as u8));
                store.push(Shape::Dummy(data as u8));
            }
            _ => panic!("not a command of an expression"),
        }
    }
    stack
}

#[test]
fn expression_stream_reads_back() {
    // terms: 0 takes none, 1 takes one, 2 takes two, 300 takes three
    let arity = |t: u32| match t {
        0 => 0,
        1 => 1,
        2 => 2,
        _ => 3,
    };
    let heap = vec![
        ExprNode::Ref(0),
        ExprNode::Ref(1),
        app(1, vec![ExprNode::Ref(0)]),
        ExprNode::Dummy("d".to_string(), SortID(3)),
        app(2, vec![ExprNode::Ref(2), ExprNode::Ref(3)]),
        ExprNode::Ref(4),
    ];
    let head = app(
        300,
        vec![
            ExprNode::Ref(5),
            app(2, vec![ExprNode::Ref(4), ExprNode::Ref(2)]),
            app(1, vec![ExprNode::Ref(3)]),
        ],
    );
    for save in [false, true] {
        let mut reorder = Reorder::new(2, heap.len());
        let mut w = Vec::new();
        write_expr_proof(&mut w, &heap, &mut reorder, &head, save).unwrap();
        assert_eq!(read(&w, 2, &arity), vec![expand(&heap, 2, &head)]);
    }
}

fn command(bytes: &[u8], at: usize) -> (u8, u32, usize) {
    let op = bytes[at] & 0x3f;
    match bytes[at] >> 6 {
        0 => (op, 0u32, at + 1),
        1 => (op, bytes[at + 1] as u32, at + 2),
        2 => (op, u16::from_le_bytes([bytes[at + 1], bytes[at + 2]]) as u32, at + 3),
        _ => (op, u32_at(bytes, at + 1) as u32, at + 5),
    }
}

fn read_unify(
    bytes: &[u8],
    at: &mut usize,
    store: &mut Vec<Shape>,
    arity: &dyn Fn(u32) -> usize,
) -> Shape {
    let (op, data, next) = command(bytes, *at);
    *at = next;
    match op {
        0x30 | 0x31 => {
            let slot = store.len();
            if op == 0x31 {
                store.push(Shape::Param(0));
            }
            let kids: Vec<Shape> =
                (0..arity(data)).map(|_| read_unify(bytes, at, store, arity)).collect();
            let e = Shape::App(data, kids);
            if op == 0x31 {
                store[slot] = e.clone();
            }
            e
        }
        0x32 => store[data as usize].clone(),
        0x33 => {
            store.push(Shape::Dummy(data as u8));
            Shape::Dummy(data as u8)
        }
        _ => panic!("not a command of an expression"),
    }
}

#[test]
fn unify_stream_reads_back() {
    let arity = |t: u32| match t {
        0 => 0,
        1 => 1,
        2 => 2,
        _ => 3,
    };
    let heap = vec![
        ExprNode::Ref(0),
        ExprNode::Ref(1),
        app(1, vec![ExprNode::Ref(0)]),
        ExprNode::Dummy("d".to_string(), SortID(3)),
        app(2, vec![ExprNode::Ref(2), ExprNode::Ref(3)]),
        ExprNode::Ref(4),
    ];
    let head = app(
        300,
        vec![
            ExprNode::Ref(5),
            app(2, vec![ExprNode::Ref(4), ExprNode::Ref(2)]),
            app(1, vec![ExprNode::Ref(3)]),
        ],
    );
    let mut reorder = Reorder::new(2, heap.len());
    let mut save = Vec::new();
    let mut w = Vec::new();
    write_expr_unify(&mut w, &heap, &mut reorder, &head, &mut save).unwrap();
    let mut at = 0;
    let mut store: Vec<Shape> = (0..2).map(Shape::Param).collect();
    assert_eq!(read_unify(&w, &mut at, &mut store, &arity), expand(&heap, 2, &head));
    assert_eq!(at, w.len());
    assert_eq!(store.len() as u32, reorder.idx);
}
