use mm0_rs::atoms::LispRemapper;
use mm0_rs::coe::Coe;
use mm0_rs::environment::{DeclKey, Environment, LispVal, StmtTrace};
use mm0_rs::error::ElabError;
use mm0_rs::expr::{Expr, ExprNode, Proof, ProofNode, Term, Thm, Type};
use mm0_rs::ids::{AtomID, AtomVec, SortID, TermID, ThmID};
use mm0_rs::parser_env::{Literal, NotaInfo};
use mm0_rs::pe_merge::write_decimal;
use mm0_rs::remap::{Remap, Remapper};
use mm0_rs::syntax::{FileRef, FileSpan, Modifiers, Prec, Span, PROVABLE, PURE};

fn fsp(start: usize, end: usize) -> FileSpan {
    FileSpan { file: FileRef(0), span: Span { start, end } }
}

fn sp() -> Span {
    Span { start: 100, end: 101 }
}

fn term(span: FileSpan, args: Vec<(String, Type)>, ret: Type, val: Option<Expr>) -> Term {
    Term { span, vis: Modifiers(0), id: span.span, args, ret, val }
}

fn thm(span: FileSpan, ret: ExprNode) -> Thm {
    Thm {
        span,
        vis: Modifiers(0),
        id: span.span,
        args: vec![("x".to_string(), Type::Bound(SortID(0)))],
        heap: vec![ExprNode::Ref(0)],
        hyps: vec![],
        ret,
        proof: None,
    }
}

fn remapper() -> Remapper {
    Remapper {
        sort: vec![(SortID(0), SortID(5))],
        term: vec![(TermID(1), TermID(7))],
        thm: vec![(ThmID(2), ThmID(9))],
    }
}

#[test]
fn identifiers_are_renumbered_where_listed() {
    let r = remapper();
    assert_eq!(SortID(0).remap(&r), SortID(5));
    assert_eq!(SortID(1).remap(&r), SortID(1));
    assert_eq!(TermID(1).remap(&r), TermID(7));
    assert_eq!(TermID(7).remap(&r), TermID(7));
    assert_eq!(ThmID(2).remap(&r), ThmID(9));
    assert_eq!(ThmID(0).remap(&r), ThmID(0));
    assert_eq!(Type::Bound(SortID(0)).remap(&r), Type::Bound(SortID(5)));
    assert_eq!(Type::Reg(SortID(0), 6).remap(&r), Type::Reg(SortID(5), 6));
    assert_eq!("x".to_string().remap(&r), "x");
    assert_eq!((SortID(0), TermID(1)).remap(&r), (SortID(5), TermID(7)));
    assert_eq!(Some(SortID(0)).remap(&r), Some(SortID(5)));
    assert_eq!(None::<SortID>.remap(&r), None);
    assert_eq!(vec![SortID(0), SortID(3)].remap(&r), vec![SortID(5), SortID(3)]);
    assert_eq!(Box::new(SortID(0)).remap(&r), Box::new(SortID(5)));
}

#[test]
fn expressions_are_renumbered_throughout() {
    let r = remapper();
    let e = ExprNode::App(
        TermID(1),
        vec![
            ExprNode::Ref(3),
            ExprNode::Dummy("d".to_string(), SortID(0)),
            ExprNode::App(TermID(0), vec![ExprNode::App(TermID(1), vec![])]),
        ],
    );
    match e.remap(&r) {
        ExprNode::App(t, es) => {
            assert_eq!(t, TermID(7));
            assert_eq!(es.len(), 3);
            assert!(matches!(es[0], ExprNode::Ref(3)));
            assert!(matches!(&es[1], ExprNode::Dummy(n, SortID(5)) if n == "d"));
            match &es[2] {
                ExprNode::App(TermID(0), inner) => {
                    assert!(matches!(&inner[0], ExprNode::App(TermID(7), v) if v.is_empty()))
                }
                _ => panic!("expected an application"),
            }
        }
        _ => panic!("expected an application"),
    }
}

#[test]
fn records_are_renumbered_throughout() {
    let r = remapper();
    let t = term(
        fsp(1, 2),
        vec![("x".to_string(), Type::Bound(SortID(0)))],
        Type::Reg(SortID(0), 1),
        Some(Expr { heap: vec![ExprNode::Ref(0)], head: ExprNode::App(TermID(1), vec![]) }),
    );
    let t2 = t.remap(&r);
    assert_eq!(t2.span, fsp(1, 2));
    assert_eq!(t2.args, vec![("x".to_string(), Type::Bound(SortID(5)))]);
    assert_eq!(t2.ret, Type::Reg(SortID(5), 1));
    let v = t2.val.unwrap();
    assert!(matches!(v.heap[0], ExprNode::Ref(0)));
    assert!(matches!(v.head, ExprNode::App(TermID(7), _)));

    let mut th = thm(fsp(3, 4), ExprNode::App(TermID(1), vec![ExprNode::Ref(0)]));
    th.hyps = vec![ExprNode::App(TermID(1), vec![])];
    th.proof = Some(Proof {
        heap: vec![ProofNode::Ref(0)],
        hyps: vec![ProofNode::Hyp(0, Box::new(ProofNode::Term { term: TermID(1), args: vec![] }))],
        head: ProofNode::Conv {
            tgt: Box::new(ProofNode::Dummy("d".to_string(), SortID(0))),
            proof: Box::new(ProofNode::Thm {
                thm: ThmID(2),
                args: vec![ProofNode::Ref(0)],
                hyps: vec![],
                tgt: Box::new(ProofNode::Term { term: TermID(1), args: vec![] }),
            }),
        },
    });
    let th2 = th.remap(&r);
    assert_eq!(th2.args, vec![("x".to_string(), Type::Bound(SortID(5)))]);
    assert!(matches!(th2.ret, ExprNode::App(TermID(7), _)));
    assert!(matches!(th2.hyps[0], ExprNode::App(TermID(7), _)));
    let p = th2.proof.unwrap();
    assert!(matches!(p.heap[0], ProofNode::Ref(0)));
    assert!(
        matches!(&p.hyps[0], ProofNode::Hyp(0, e) if matches!(**e, ProofNode::Term { term: TermID(7), .. }))
    );
    match p.head {
        ProofNode::Conv { tgt, proof } => {
            assert!(matches!(*tgt, ProofNode::Dummy(_, SortID(5))));
            match *proof {
                ProofNode::Thm { thm, args, hyps, tgt } => {
                    assert_eq!(thm, ThmID(9));
                    assert!(matches!(args[0], ProofNode::Ref(0)));
                    assert!(hyps.is_empty());
                    assert!(matches!(*tgt, ProofNode::Term { term: TermID(7), .. }));
                }
                _ => panic!("expected a theorem"),
            }
        }
        _ => panic!("expected a conversion"),
    }
}

#[test]
fn notations_and_coercions_are_renumbered() {
    let r = remapper();
    let n = NotaInfo {
        span: fsp(1, 2),
        term: TermID(1),
        nargs: 2,
        rassoc: None,
        lits: vec![Literal::Var(1, Prec::Max), Literal::Const("+".to_string())],
    };
    let n2 = n.remap(&r);
    assert_eq!(n2.term, TermID(7));
    assert_eq!(n2.span, fsp(1, 2));
    assert_eq!(n2.nargs, 2);
    assert_eq!(n2.rassoc, None);
    assert!(matches!(n2.lits[0], Literal::Var(1, Prec::Max)));
    assert!(matches!(&n2.lits[1], Literal::Const(s) if s == "+"));

    let c = Coe::Trans(
        Box::new(Coe::One(fsp(1, 1), TermID(1))),
        SortID(0),
        Box::new(Coe::One(fsp(2, 2), TermID(3))),
    );
    match c.remap(&r) {
        Coe::Trans(l, m, rr) => {
            assert!(matches!(*l, Coe::One(_, TermID(7))));
            assert_eq!(m, SortID(5));
            assert!(matches!(*rr, Coe::One(_, TermID(3))));
        }
        _ => panic!("expected a composition"),
    }
}

#[test]
fn atoms_are_renumbered_by_position() {
    let mut atom = AtomVec::new();
    atom.push(AtomID(4));
    atom.push(AtomID(2));
    let r = LispRemapper { atom };
    assert_eq!(AtomID(0).remap(&r), AtomID(4));
    assert_eq!(AtomID(1).remap(&r), AtomID(2));
    assert_eq!(AtomID(9).remap(&r), AtomID(9));
    assert_eq!(LispVal::Atom(AtomID(1)).remap(&r), LispVal::Atom(AtomID(2)));
    assert_eq!(LispVal::Undef.remap(&r), LispVal::Undef);
}

#[test]
fn numbers_are_written_in_decimal() {
    for (n, text) in [(0u32, "0"), (7, "7"), (10, "10"), (1234567890, "1234567890"), (u32::MAX, "4294967295")] {
        let mut s = "n=".to_string();
        write_decimal(&mut s, n);
        assert_eq!(s, format!("n={}", text));
    }
}

fn sample() -> Environment {
    let mut env = Environment::new();
    env.add_sort("nat".to_string(), fsp(0, 1), Modifiers(PURE)).ok().unwrap();
    env.add_sort("wff".to_string(), fsp(1, 2), Modifiers(PROVABLE)).ok().unwrap();
    env.add_term("zero".to_string(), fsp(2, 3), || {
        term(fsp(2, 3), vec![], Type::Reg(SortID(0), 0), None)
    })
    .ok()
    .unwrap();
    env.add_term("eq".to_string(), fsp(3, 4), || {
        term(
            fsp(3, 4),
            vec![
                ("a".to_string(), Type::Reg(SortID(0), 0)),
                ("b".to_string(), Type::Reg(SortID(0), 0)),
            ],
            Type::Reg(SortID(1), 0),
            None,
        )
    })
    .ok()
    .unwrap();
    env.add_thm("refl".to_string(), fsp(4, 5), || {
        thm(fsp(4, 5), ExprNode::App(TermID(1), vec![ExprNode::Ref(0), ExprNode::Ref(0)]))
    })
    .ok()
    .unwrap();
    env.pe.add_delimiters(b"(", b")");
    env.pe.add_const("=".to_string(), fsp(5, 6), Prec::Prec(50)).unwrap();
    env.pe.add_prec_assoc(50, fsp(5, 6), false).unwrap();
    env.pe
        .add_infix(
            "=".to_string(),
            NotaInfo {
                span: fsp(5, 6),
                term: TermID(1),
                nargs: 2,
                rassoc: Some(false),
                lits: vec![],
            },
        )
        .unwrap();
    env.add_coe(SortID(0), SortID(1), fsp(6, 7), TermID(0)).ok().unwrap();
    let a = env.get_atom("a".to_string());
    env.get_atom("b".to_string());
    env.lisp_ctx.0[1].1 = LispVal::Atom(a);
    env
}

#[test]
fn merge_into_empty_environment_copies() {
    let other = sample();
    let mut env = Environment::new();
    let mut errors: Vec<ElabError> = Vec::new();
    let r = env.merge(&other, sp(), &mut errors).ok().unwrap();
    assert!(errors.is_empty());
    assert!(r.sort.is_empty() && r.term.is_empty() && r.thm.is_empty());
    assert_eq!(env.sorts.len(), 2);
    assert_eq!(env.sorts.0[1].name, "wff");
    assert_eq!(env.sorts.0[1].mods, Modifiers(PROVABLE));
    assert_eq!(env.sort_keys.entries, other.sort_keys.entries);
    assert_eq!(env.decl_keys.entries, other.decl_keys.entries);
    assert_eq!(env.terms.len(), 2);
    assert_eq!(env.terms.0[1].args, other.terms.0[1].args);
    assert_eq!(env.thms.len(), 1);
    assert!(matches!(&env.thms.0[0].ret, ExprNode::App(TermID(1), es) if es.len() == 2));
    assert_eq!(env.stmts.len(), 5);
    assert!(matches!(&env.stmts[4], StmtTrace::Decl(n) if n == "refl"));
    assert!(env.pe.delims_l.get(b'('));
    assert!(env.pe.delims_r.get(b')'));
    assert_eq!(env.pe.consts.entries, other.pe.consts.entries);
    assert_eq!(env.pe.prec_assoc, other.pe.prec_assoc);
    assert_eq!(env.pe.infixes.len(), 1);
    assert_eq!(env.pe.infixes.entries[0].1.term, TermID(1));
    assert_eq!(env.pe.coes.len(), 1);
    assert_eq!(env.pe.coe_prov, vec![(SortID(0), SortID(1))]);
    assert_eq!(env.atoms.entries, other.atoms.entries);
    assert_eq!(env.lisp_ctx.0, other.lisp_ctx.0);
}

#[test]
fn merge_into_itself_changes_nothing_but_notes_coercions() {
    let other = sample();
    let mut env = sample();
    let mut errors: Vec<ElabError> = Vec::new();
    let r = env.merge(&other, sp(), &mut errors).ok().unwrap();
    assert!(r.sort.is_empty() && r.term.is_empty() && r.thm.is_empty());
    assert_eq!(env.sorts.len(), 2);
    assert_eq!(env.terms.len(), 2);
    assert_eq!(env.thms.len(), 1);
    assert_eq!(env.stmts.len(), 5);
    assert_eq!(env.pe.consts.len(), 1);
    assert_eq!(env.pe.prec_assoc.len(), 1);
    assert_eq!(env.pe.infixes.len(), 1);
    assert_eq!(env.pe.coes.len(), 1);
    assert_eq!(env.pe.coe_prov, vec![(SortID(0), SortID(1))]);
    assert_eq!(env.lisp_ctx.0, other.lisp_ctx.0);
    assert_eq!(errors.len(), 1);
    assert_eq!(errors[0].msg, "coercion diamond detected: nat -> wff;   nat -> wff");
}

#[test]
fn merge_renumbers_sorts_and_terms() {
    let mut env = Environment::new();
    env.add_sort("a".to_string(), fsp(0, 0), Modifiers(0)).ok().unwrap();
    env.add_sort("b".to_string(), fsp(1, 1), Modifiers(0)).ok().unwrap();

    let mut other = Environment::new();
    other.add_sort("b".to_string(), fsp(1, 1), Modifiers(0)).ok().unwrap();
    other.add_sort("c".to_string(), fsp(2, 2), Modifiers(0)).ok().unwrap();
    other
        .add_term("f".to_string(), fsp(3, 3), || {
            term(
                fsp(3, 3),
                vec![("x".to_string(), Type::Reg(SortID(0), 0))],
                Type::Reg(SortID(0), 0),
                None,
            )
        })
        .ok()
        .unwrap();

    let mut errors: Vec<ElabError> = Vec::new();
    let r = env.merge(&other, sp(), &mut errors).ok().unwrap();
    assert!(errors.is_empty());
    assert_eq!(r.sort, vec![(SortID(0), SortID(1)), (SortID(1), SortID(2))]);
    assert!(r.term.is_empty());
    assert!(r.thm.is_empty());
    assert_eq!(env.sorts.len(), 3);
    assert_eq!(env.sorts.0[2].name, "c");
    assert_eq!(env.sort_keys.get(&"c".to_string()), Some(&SortID(2)));
    assert_eq!(env.terms.len(), 1);
    assert_eq!(env.decl_keys.get(&"f".to_string()), Some(&DeclKey::Term(TermID(0))));
    assert_eq!(env.terms.0[0].args, vec![("x".to_string(), Type::Reg(SortID(1), 0))]);
    assert_eq!(env.terms.0[0].ret, Type::Reg(SortID(1), 0));
    assert_eq!(env.stmts.len(), 4);
}

#[test]
fn merge_appends_terms_after_those_that_are_there() {
    let mut env = Environment::new();
    env.add_sort("a".to_string(), fsp(0, 0), Modifiers(0)).ok().unwrap();
    env.add_term("g".to_string(), fsp(9, 9), || term(fsp(9, 9), vec![], Type::Reg(SortID(0), 0), None))
        .ok()
        .unwrap();
    let mut other = Environment::new();
    other.add_sort("a".to_string(), fsp(0, 0), Modifiers(0)).ok().unwrap();
    other
        .add_term("f".to_string(), fsp(3, 3), || term(fsp(3, 3), vec![], Type::Reg(SortID(0), 0), None))
        .ok()
        .unwrap();
    other
        .add_term("h".to_string(), fsp(4, 4), || {
            term(
                fsp(4, 4),
                vec![],
                Type::Reg(SortID(0), 0),
                Some(Expr { heap: vec![], head: ExprNode::App(TermID(0), vec![]) }),
            )
        })
        .ok()
        .unwrap();
    other
        .add_thm("t".to_string(), fsp(5, 5), || thm(fsp(5, 5), ExprNode::App(TermID(1), vec![])))
        .ok()
        .unwrap();
    let mut errors: Vec<ElabError> = Vec::new();
    let r = env.merge(&other, sp(), &mut errors).ok().unwrap();
    assert!(errors.is_empty());
    assert!(r.sort.is_empty());
    assert_eq!(r.term, vec![(TermID(0), TermID(1)), (TermID(1), TermID(2))]);
    assert!(r.thm.is_empty());
    assert_eq!(env.terms.len(), 3);
    assert!(
        matches!(&env.terms.0[2].val, Some(e) if matches!(e.head, ExprNode::App(TermID(1), _)))
    );
    assert!(matches!(env.thms.0[0].ret, ExprNode::App(TermID(2), _)));
}

#[test]
fn merge_notes_clashes_that_can_be_resolved() {
    let mut env = Environment::new();
    env.add_sort("a".to_string(), fsp(0, 0), Modifiers(0)).ok().unwrap();
    env.add_term("f".to_string(), fsp(1, 1), || term(fsp(1, 1), vec![], Type::Reg(SortID(0), 0), None))
        .ok()
        .unwrap();
    env.pe.add_const("+".to_string(), fsp(2, 2), Prec::Prec(1)).unwrap();
    env.pe.add_prec_assoc(7, fsp(3, 3), true).unwrap();
    let mut other = Environment::new();
    other.add_sort("a".to_string(), fsp(5, 5), Modifiers(PURE)).ok().unwrap();
    other
        .add_term("f".to_string(), fsp(6, 6), || term(fsp(6, 6), vec![], Type::Reg(SortID(0), 0), None))
        .ok()
        .unwrap();
    other.pe.add_const("+".to_string(), fsp(7, 7), Prec::Prec(2)).unwrap();
    other.pe.add_prec_assoc(7, fsp(8, 8), false).unwrap();
    let mut errors: Vec<ElabError> = Vec::new();
    let r = env.merge(&other, sp(), &mut errors).ok().unwrap();
    assert!(r.sort.is_empty() && r.term.is_empty());
    assert_eq!(env.sorts.len(), 1);
    assert_eq!(env.terms.len(), 1);
    assert_eq!(errors.len(), 4);
    assert_eq!(errors[0].pos, sp());
    assert_eq!(errors[0].msg, "sort 'a' redeclared");
    assert_eq!(
        errors[0].related,
        vec![
            (fsp(5, 5), "previously declared here".to_string()),
            (fsp(0, 0), "previously declared here".to_string())
        ]
    );
    assert_eq!(errors[1].msg, "term 'f' redeclared");
    assert_eq!(
        errors[1].related,
        vec![
            (fsp(6, 6), "previously declared here".to_string()),
            (fsp(1, 1), "previously declared here".to_string())
        ]
    );
    assert_eq!(errors[2].msg, "constant '+' declared with two precedences");
    assert_eq!(
        errors[2].related,
        vec![(fsp(2, 2), "declared here".to_string()), (fsp(7, 7), "declared here".to_string())]
    );
    assert_eq!(errors[3].msg, "precedence level 7 has incompatible associativity");
    assert_eq!(
        errors[3].related,
        vec![(fsp(8, 8), "left assoc here".to_string()), (fsp(3, 3), "right assoc here".to_string())]
    );
}

#[test]
fn merge_notes_notations_declared_twice() {
    let nota = |span| NotaInfo { span, term: TermID(0), nargs: 0, rassoc: None, lits: vec![] };
    let mut env = Environment::new();
    env.add_sort("a".to_string(), fsp(0, 0), Modifiers(0)).ok().unwrap();
    env.pe.add_prefix("~".to_string(), nota(fsp(1, 1))).unwrap();
    env.pe.add_infix("~".to_string(), nota(fsp(2, 2))).unwrap();
    let mut other = Environment::new();
    other.pe.add_prefix("~".to_string(), nota(fsp(3, 3))).unwrap();
    other.pe.add_infix("~".to_string(), nota(fsp(2, 2))).unwrap();
    other.pe.add_infix("^".to_string(), nota(fsp(4, 4))).unwrap();
    let mut errors: Vec<ElabError> = Vec::new();
    env.merge(&other, sp(), &mut errors).ok().unwrap();
    assert_eq!(errors.len(), 1);
    assert_eq!(errors[0].msg, "constant '~' declared twice");
    assert_eq!(
        errors[0].related,
        vec![(fsp(1, 1), "declared here".to_string()), (fsp(3, 3), "declared here".to_string())]
    );
    assert_eq!(env.pe.prefixes.len(), 1);
    assert_eq!(env.pe.infixes.len(), 2);
}

#[test]
fn merge_fails_when_term_meets_theorem() {
    let mut env = Environment::new();
    env.add_sort("a".to_string(), fsp(0, 0), Modifiers(0)).ok().unwrap();
    env.add_thm("f".to_string(), fsp(1, 1), || thm(fsp(1, 1), ExprNode::Ref(0))).ok().unwrap();
    let mut other = Environment::new();
    other
        .add_term("f".to_string(), fsp(6, 6), || term(fsp(6, 6), vec![], Type::Reg(SortID(0), 0), None))
        .ok()
        .unwrap();
    let mut errors: Vec<ElabError> = Vec::new();
    let e = env.merge(&other, sp(), &mut errors).err().unwrap();
    assert_eq!(e.pos, sp());
    assert_eq!(e.msg, "term 'f' redeclared");
    assert_eq!(
        e.related,
        vec![
            (fsp(6, 6), "previously declared here".to_string()),
            (fsp(1, 1), "previously declared here".to_string())
        ]
    );
    assert!(errors.is_empty());

    let mut env = Environment::new();
    env.add_term("f".to_string(), fsp(6, 6), || term(fsp(6, 6), vec![], Type::Reg(SortID(0), 0), None))
        .ok()
        .unwrap();
    let mut other = Environment::new();
    other.add_thm("f".to_string(), fsp(1, 1), || thm(fsp(1, 1), ExprNode::Ref(0))).ok().unwrap();
    let e = env.merge(&other, sp(), &mut errors).err().unwrap();
    assert_eq!(e.msg, "theorem 'f' redeclared");
}

#[test]
fn merge_fails_when_sorts_run_out() {
    let mut env = Environment::new();
    for i in 0..128usize {
        env.add_sort(format!("s{}", i), fsp(i, 0), Modifiers(0)).ok().unwrap();
    }
    let mut other = Environment::new();
    other.add_sort("s3".to_string(), fsp(3, 0), Modifiers(0)).ok().unwrap();
    other.add_sort("new".to_string(), fsp(4, 0), Modifiers(0)).ok().unwrap();
    let mut errors: Vec<ElabError> = Vec::new();
    let e = env.merge(&other, sp(), &mut errors).err().unwrap();
    assert_eq!(e.msg, "too many sorts");
    assert!(e.related.is_empty());
    assert_eq!(e.pos, sp());
    assert_eq!(env.sorts.len(), 128);
    assert_eq!(env.stmts.len(), 128);
    assert!(errors.is_empty());
}

#[test]
fn merge_of_full_environment_into_itself_changes_nothing() {
    let mut env = Environment::new();
    let mut other = Environment::new();
    for i in 0..128usize {
        env.add_sort(format!("s{}", i), fsp(i, 0), Modifiers(0)).ok().unwrap();
        other.add_sort(format!("s{}", i), fsp(i, 0), Modifiers(0)).ok().unwrap();
    }
    let mut errors: Vec<ElabError> = Vec::new();
    let r = env.merge(&other, sp(), &mut errors).ok().unwrap();
    assert!(r.sort.is_empty() && r.term.is_empty() && r.thm.is_empty());
    assert!(errors.is_empty());
    assert_eq!(env.sorts.len(), 128);
    assert_eq!(env.stmts.len(), 128);
    assert_eq!(env.sort_keys.entries, other.sort_keys.entries);
}

#[test]
fn merge_replays_declared_coercions() {
    let mut env = Environment::new();
    env.add_sort("a".to_string(), fsp(0, 0), Modifiers(0)).ok().unwrap();
    env.add_sort("b".to_string(), fsp(1, 1), Modifiers(0)).ok().unwrap();
    env.add_sort("c".to_string(), fsp(2, 2), Modifiers(PROVABLE)).ok().unwrap();
    env.add_term("g".to_string(), fsp(9, 9), || term(fsp(9, 9), vec![], Type::Reg(SortID(0), 0), None))
        .ok()
        .unwrap();
    env.add_coe(SortID(0), SortID(1), fsp(3, 3), TermID(0)).ok().unwrap();

    let mut other = Environment::new();
    other.add_sort("a".to_string(), fsp(0, 0), Modifiers(0)).ok().unwrap();
    other.add_sort("b".to_string(), fsp(1, 1), Modifiers(0)).ok().unwrap();
    other.add_sort("c".to_string(), fsp(2, 2), Modifiers(PROVABLE)).ok().unwrap();
    other
        .add_term("h".to_string(), fsp(8, 8), || term(fsp(8, 8), vec![], Type::Reg(SortID(0), 0), None))
        .ok()
        .unwrap();
    other.add_coe(SortID(1), SortID(2), fsp(4, 4), TermID(0)).ok().unwrap();

    let mut errors: Vec<ElabError> = Vec::new();
    let r = env.merge(&other, sp(), &mut errors).ok().unwrap();
    assert!(errors.is_empty());
    assert_eq!(r.term, vec![(TermID(0), TermID(1))]);
    assert_eq!(env.pe.coes.len(), 3);
    assert_eq!(env.pe.coes[1].0, (SortID(0), SortID(2)));
    assert_eq!(env.pe.coes[2].0, (SortID(1), SortID(2)));
    assert!(matches!(&env.pe.coes[2].1, Coe::One(s, TermID(1)) if *s == fsp(4, 4)));
    assert_eq!(env.pe.coe_prov, vec![(SortID(0), SortID(2)), (SortID(1), SortID(2))]);
}

#[test]
fn merge_renumbers_atoms_and_moves_values() {
    let mut env = Environment::new();
    env.add_sort("a".to_string(), fsp(0, 0), Modifiers(0)).ok().unwrap();
    env.get_atom("x".to_string());
    env.get_atom("y".to_string());
    env.lisp_ctx.0[0].1 = LispVal::Atom(AtomID(1));
    let mut other = Environment::new();
    other.get_atom("y".to_string());
    other.get_atom("z".to_string());
    other.lisp_ctx.0[0].1 = LispVal::Atom(AtomID(1));
    let mut errors: Vec<ElabError> = Vec::new();
    env.merge(&other, sp(), &mut errors).ok().unwrap();
    assert_eq!(env.atoms.len(), 3);
    assert_eq!(env.atoms.get(&"z".to_string()), Some(&AtomID(2)));
    assert_eq!(
        env.lisp_ctx.0,
        vec![
            ("x".to_string(), LispVal::Atom(AtomID(1))),
            ("y".to_string(), LispVal::Atom(AtomID(2))),
            ("z".to_string(), LispVal::Undef)
        ]
    );
    assert!(env.merge_atoms(&other));
    assert_eq!(env.atoms.len(), 3);
}

#[test]
fn copy_is_independent() {
    let env = sample();
    let mut c = env.copy();
    c.add_sort("extra".to_string(), fsp(0, 0), Modifiers(0)).ok().unwrap();
    assert_eq!(env.sorts.len(), 2);
    assert_eq!(c.sorts.len(), 3);
    let pe = env.pe.copy();
    assert_eq!(pe.consts.entries, env.pe.consts.entries);
    assert_eq!(pe.coes.len(), 1);
}

#[test]
fn merge_that_fails_keeps_what_was_merged_before() {
    let mut env = Environment::new();
    env.add_sort("a".to_string(), fsp(0, 0), Modifiers(0)).ok().unwrap();
    env.add_thm("f".to_string(), fsp(1, 1), || thm(fsp(1, 1), ExprNode::Ref(0))).ok().unwrap();
    env.pe.add_const("+".to_string(), fsp(2, 2), Prec::Prec(1)).unwrap();
    let mut other = Environment::new();
    other.add_sort("a".to_string(), fsp(5, 5), Modifiers(PURE)).ok().unwrap();
    other.add_sort("b".to_string(), fsp(6, 6), Modifiers(0)).ok().unwrap();
    other
        .add_term("f".to_string(), fsp(7, 7), || term(fsp(7, 7), vec![], Type::Reg(SortID(0), 0), None))
        .ok()
        .unwrap();
    other.add_sort("c".to_string(), fsp(8, 8), Modifiers(0)).ok().unwrap();
    other.pe.add_const("-".to_string(), fsp(9, 9), Prec::Prec(1)).unwrap();
    other.get_atom("x".to_string());
    let mut errors: Vec<ElabError> = Vec::new();
    let e = env.merge(&other, sp(), &mut errors).err().unwrap();
    assert_eq!(e.msg, "term 'f' redeclared");
    // the two sorts before the failing step are merged, what follows is not
    assert_eq!(env.sorts.len(), 2);
    assert_eq!(env.sorts.0[1].name, "b");
    assert_eq!(env.stmts.len(), 3);
    assert_eq!(env.thms.len(), 1);
    assert_eq!(env.terms.len(), 0);
    assert_eq!(errors.len(), 1);
    assert_eq!(errors[0].msg, "sort 'a' redeclared");
    assert_eq!(env.pe.consts.len(), 1);
    assert_eq!(env.atoms.len(), 0);
}

#[test]
fn new_environments_merge_without_errors() {
    let mut env = Environment::new();
    env.add_sort("a".to_string(), fsp(0, 0), Modifiers(0)).ok().unwrap();
    let other = Environment::new();
    assert!(other.pe.consts.entries.is_empty());
    assert!(other.pe.prec_assoc.is_empty());
    assert!(other.pe.prefixes.entries.is_empty());
    assert!(other.pe.infixes.entries.is_empty());
    for c in 0..=255u8 {
        assert!(!other.pe.delims_l.get(c) && !other.pe.delims_r.get(c));
    }
    let mut errors: Vec<ElabError> = Vec::new();
    let r = env.merge(&other, sp(), &mut errors).ok().unwrap();
    assert!(errors.is_empty());
    assert!(r.sort.is_empty());
    assert_eq!(env.sorts.len(), 1);
}
