use mm0_rs::delims::Delims;
use mm0_rs::environment::{DeclKey, Environment, LispVal, StmtTrace};
use mm0_rs::error::{AddItemError, IncompatibleError};
use mm0_rs::expr::{Term, Thm, ExprNode, Type};
use mm0_rs::ids::{AtomID, AtomVec, SortID, SortVec, TermID, TermVec, ThmID, ThmVec};
use mm0_rs::names::NameMap;
use mm0_rs::parser_env::{Literal, NotaInfo, ParserEnv};
use mm0_rs::syntax::{FileRef, FileSpan, Modifiers, Prec, Span, FREE, PROVABLE, PURE, STRICT};

fn fsp(start: usize, end: usize) -> FileSpan {
    FileSpan { file: FileRef(0), span: Span { start, end } }
}

fn term(span: FileSpan, nargs: usize) -> Term {
    Term {
        span,
        vis: Modifiers(0),
        id: span.span,
        args: (0..nargs).map(|i| (format!("x{}", i), Type::Reg(SortID(0), 0))).collect(),
        ret: Type::Reg(SortID(0), 0),
        val: None,
    }
}

fn thm(span: FileSpan) -> Thm {
    Thm {
        span,
        vis: Modifiers(0),
        id: span.span,
        args: vec![],
        heap: vec![],
        hyps: vec![],
        ret: ExprNode::App(TermID(0), vec![]),
        proof: None,
    }
}

#[test]
fn tables_check_bounds() {
    let mut v: SortVec<u32> = SortVec::new();
    assert_eq!(v.len(), 0);
    assert_eq!(v.get(SortID(0)), None);
    v.push(7);
    v.push(8);
    assert_eq!(v.get(SortID(1)), Some(&8));
    assert_eq!(v.get(SortID(2)), None);
    let mut t: TermVec<u32> = TermVec::new();
    t.push(1);
    assert_eq!(t.get(TermID(0)), Some(&1));
    assert_eq!(t.get(TermID(1)), None);
    assert_eq!(t.len(), 1);
    let mut t: ThmVec<u32> = ThmVec::new();
    t.push(1);
    assert_eq!(t.get(ThmID(0)), Some(&1));
    assert_eq!(t.get(ThmID(9)), None);
    assert_eq!(t.len(), 1);
    let mut t: AtomVec<u32> = AtomVec::new();
    t.push(1);
    assert_eq!(t.get(AtomID(0)), Some(&1));
    assert_eq!(t.get(AtomID(1)), None);
    assert_eq!(t.len(), 1);
}

#[test]
fn modifiers_are_bit_sets() {
    let m = Modifiers(PURE | PROVABLE);
    assert_eq!(m.bits(), 5);
    assert!(m.contains(Modifiers(PROVABLE)));
    assert!(m.contains(Modifiers(PURE)));
    assert!(!m.contains(Modifiers(STRICT)));
    assert!(!m.contains(Modifiers(FREE | PURE)));
    assert!(m.contains(Modifiers(0)));
}

#[test]
fn delimiters_set_get_merge() {
    let mut a = Delims::new();
    for c in 0..=255u8 {
        assert!(!a.get(c));
    }
    a.set(b'(');
    a.set(0);
    a.set(255);
    assert!(a.get(b'('));
    assert!(a.get(0));
    assert!(a.get(255));
    assert!(!a.get(b')'));
    let mut b = Delims::new();
    b.set(b')');
    b.merge(&a);
    for c in 0..=255u8 {
        assert_eq!(b.get(c), c == b'(' || c == b')' || c == 0 || c == 255);
    }
    assert!(!a.get(b')'));
}

#[test]
fn name_map_keeps_first_entry_order() {
    let mut m: NameMap<u32> = NameMap::new();
    assert_eq!(m.len(), 0);
    assert_eq!(m.find(&"a".to_string()), None);
    m.push("a".to_string(), 1);
    m.push("b".to_string(), 2);
    assert_eq!(m.find(&"b".to_string()), Some(1));
    assert_eq!(m.get(&"a".to_string()), Some(&1));
    assert_eq!(m.get(&"c".to_string()), None);
    assert_eq!(m.len(), 2);
}

#[test]
fn sorts_get_dense_identifiers() {
    let mut env = Environment::new();
    for i in 0..10u8 {
        let r = env.add_sort(format!("s{}", i), fsp(i as usize, 0), Modifiers(0));
        assert!(matches!(r, Ok(id) if id == SortID(i)));
    }
    assert_eq!(env.sorts.len(), 10);
    assert_eq!(env.stmts.len(), 10);
    assert!(matches!(&env.stmts[3], StmtTrace::Sort(n) if n == "s3"));
    assert_eq!(env.sort_keys.get(&"s7".to_string()), Some(&SortID(7)));
}

#[test]
fn sort_redeclared_with_same_modifiers_is_found() {
    let mut env = Environment::new();
    env.add_sort("nat".to_string(), fsp(1, 2), Modifiers(PURE)).ok().unwrap();
    env.add_sort("wff".to_string(), fsp(3, 4), Modifiers(PROVABLE)).ok().unwrap();
    let r = env.add_sort("nat".to_string(), fsp(5, 6), Modifiers(PURE));
    assert!(matches!(r, Ok(SortID(0))));
    assert_eq!(env.sorts.len(), 2);
    assert_eq!(env.stmts.len(), 2);
    assert_eq!(env.sorts.0[0].span, fsp(1, 2));
}

#[test]
fn sort_redeclared_with_other_modifiers_is_refused() {
    let mut env = Environment::new();
    env.add_sort("nat".to_string(), fsp(1, 2), Modifiers(PURE)).ok().unwrap();
    env.add_sort("wff".to_string(), fsp(3, 4), Modifiers(PROVABLE)).ok().unwrap();
    match env.add_sort("wff".to_string(), fsp(5, 6), Modifiers(0)) {
        Err(AddItemError::Redeclaration(id, e)) => {
            assert_eq!(id, SortID(1));
            assert_eq!(e.msg, "sort 'wff' redeclared");
            assert_eq!(e.othermsg, "previously declared here");
            assert_eq!(e.other, fsp(3, 4));
        }
        _ => panic!("expected a redeclaration"),
    }
    assert_eq!(env.sorts.len(), 2);
    assert_eq!(env.stmts.len(), 2);
}

#[test]
fn sorts_overflow_after_128() {
    let mut env = Environment::new();
    for i in 0..128usize {
        let r = env.add_sort(format!("s{}", i), fsp(i, 0), Modifiers(0));
        assert!(matches!(r, Ok(id) if id.0 as usize == i));
    }
    assert!(matches!(
        env.add_sort("one more".to_string(), fsp(0, 0), Modifiers(0)),
        Err(AddItemError::Overflow)
    ));
    assert_eq!(env.sorts.len(), 128);
    assert_eq!(env.stmts.len(), 128);
}

#[test]
fn known_sort_is_found_in_a_full_table() {
    let mut env = Environment::new();
    for i in 0..128usize {
        env.add_sort(format!("s{}", i), fsp(i, 0), Modifiers(0)).ok().unwrap();
    }
    assert!(matches!(
        env.add_sort("s5".to_string(), fsp(9, 9), Modifiers(0)),
        Ok(SortID(5))
    ));
    match env.add_sort("s127".to_string(), fsp(9, 9), Modifiers(PURE)) {
        Err(AddItemError::Redeclaration(id, e)) => {
            assert_eq!(id, SortID(127));
            assert_eq!(e.msg, "sort 's127' redeclared");
            assert_eq!(e.other, fsp(127, 0));
        }
        _ => panic!("expected a redeclaration"),
    }
    assert_eq!(env.sorts.len(), 128);
    assert_eq!(env.stmts.len(), 128);
}

#[test]
fn terms_and_theorems_get_dense_identifiers() {
    let mut env = Environment::new();
    assert!(matches!(env.add_term("a".to_string(), fsp(0, 1), || term(fsp(0, 1), 0)), Ok(TermID(0))));
    assert!(matches!(env.add_thm("t".to_string(), fsp(1, 2), || thm(fsp(1, 2))), Ok(ThmID(0))));
    assert!(matches!(env.add_term("b".to_string(), fsp(2, 3), || term(fsp(2, 3), 1)), Ok(TermID(1))));
    assert!(matches!(env.add_thm("u".to_string(), fsp(3, 4), || thm(fsp(3, 4))), Ok(ThmID(1))));
    assert!(matches!(env.add_term("c".to_string(), fsp(4, 5), || term(fsp(4, 5), 2)), Ok(TermID(2))));
    assert_eq!(env.terms.len(), 3);
    assert_eq!(env.thms.len(), 2);
    assert_eq!(env.stmts.len(), 5);
    assert!(matches!(&env.stmts[1], StmtTrace::Decl(n) if n == "t"));
    assert_eq!(env.decl_keys.get(&"c".to_string()), Some(&DeclKey::Term(TermID(2))));
    assert_eq!(env.decl_keys.get(&"u".to_string()), Some(&DeclKey::Thm(ThmID(1))));
    assert_eq!(env.term("b"), Some(TermID(1)));
    assert_eq!(env.term("u"), None);
    assert_eq!(env.thm("u"), Some(ThmID(1)));
    assert_eq!(env.thm("b"), None);
}

#[test]
fn term_builder_runs_only_for_new_names() {
    let mut env = Environment::new();
    let mut calls = 0;
    env.add_term("a".to_string(), fsp(0, 1), || {
        calls += 1;
        term(fsp(0, 1), 0)
    })
    .ok()
    .unwrap();
    assert_eq!(calls, 1);
    let r = env.add_term("a".to_string(), fsp(0, 1), || {
        calls += 1;
        term(fsp(0, 1), 5)
    });
    assert!(matches!(r, Ok(TermID(0))));
    assert_eq!(calls, 1);
    assert_eq!(env.terms.len(), 1);
    assert_eq!(env.terms.0[0].args.len(), 0);
    let r = env.add_term("a".to_string(), fsp(7, 8), || {
        calls += 1;
        term(fsp(7, 8), 5)
    });
    assert_eq!(calls, 1);
    match r {
        Err(AddItemError::Redeclaration(id, e)) => {
            assert_eq!(id, Some(TermID(0)));
            assert_eq!(e.msg, "term 'a' redeclared");
            assert_eq!(e.othermsg, "previously declared here");
            assert_eq!(e.other, fsp(0, 1));
        }
        _ => panic!("expected a redeclaration"),
    }
    assert_eq!(env.stmts.len(), 1);
}

#[test]
fn term_and_theorem_share_names() {
    let mut env = Environment::new();
    env.add_term("a".to_string(), fsp(0, 1), || term(fsp(0, 1), 0)).ok().unwrap();
    env.add_thm("t".to_string(), fsp(1, 2), || thm(fsp(1, 2))).ok().unwrap();
    match env.add_thm("a".to_string(), fsp(0, 1), || thm(fsp(0, 1))) {
        Err(AddItemError::Redeclaration(id, e)) => {
            assert_eq!(id, None);
            assert_eq!(e.msg, "theorem 'a' redeclared");
            assert_eq!(e.other, fsp(0, 1));
        }
        _ => panic!("expected a redeclaration"),
    }
    match env.add_term("t".to_string(), fsp(1, 2), || term(fsp(1, 2), 0)) {
        Err(AddItemError::Redeclaration(id, e)) => {
            assert_eq!(id, None);
            assert_eq!(e.msg, "term 't' redeclared");
            assert_eq!(e.other, fsp(1, 2));
        }
        _ => panic!("expected a redeclaration"),
    }
    assert!(matches!(env.add_thm("t".to_string(), fsp(1, 2), || thm(fsp(1, 2))), Ok(ThmID(0))));
    match env.add_thm("t".to_string(), fsp(9, 9), || thm(fsp(9, 9))) {
        Err(AddItemError::Redeclaration(id, e)) => {
            assert_eq!(id, Some(ThmID(0)));
            assert_eq!(e.other, fsp(1, 2));
        }
        _ => panic!("expected a redeclaration"),
    }
    assert_eq!(env.terms.len(), 1);
    assert_eq!(env.thms.len(), 1);
}

#[test]
fn atoms_are_interned() {
    let mut env = Environment::new();
    assert_eq!(env.get_atom("foo".to_string()), AtomID(0));
    assert_eq!(env.get_atom("bar".to_string()), AtomID(1));
    assert_eq!(env.get_atom("foo".to_string()), AtomID(0));
    assert_eq!(env.lisp_ctx.len(), 2);
    assert_eq!(env.lisp_ctx.0[1], ("bar".to_string(), LispVal::Undef));
    assert_eq!(env.try_get_atom("baz".to_string()), Some(AtomID(2)));
    assert_eq!(env.try_get_atom("bar".to_string()), Some(AtomID(1)));
}

#[test]
fn term_argument_count_is_checked() {
    let mut env = Environment::new();
    env.add_term("a".to_string(), fsp(4, 5), || term(fsp(4, 5), 2)).ok().unwrap();
    let sp = Span { start: 10, end: 11 };
    assert!(env.check_term_nargs(sp, TermID(0), 2).is_ok());
    let e = env.check_term_nargs(sp, TermID(0), 3).err().unwrap();
    assert_eq!(e.pos, sp);
    assert_eq!(e.msg, "incorrect number of arguments");
    assert_eq!(e.related, vec![(fsp(4, 5), "declared here".to_string())]);
}

#[test]
fn delimiters_are_added_to_both_sides() {
    let mut pe = ParserEnv::new();
    pe.add_delimiters(b"([", b")]");
    pe.add_delimiters(b"{", b"");
    assert!(pe.delims_l.get(b'('));
    assert!(pe.delims_l.get(b'['));
    assert!(pe.delims_l.get(b'{'));
    assert!(!pe.delims_l.get(b')'));
    assert!(pe.delims_r.get(b')'));
    assert!(pe.delims_r.get(b']'));
    assert!(!pe.delims_r.get(b'{'));
}

#[test]
fn constants_need_one_precedence() {
    let mut pe = ParserEnv::new();
    assert_eq!(pe.add_const("+".to_string(), fsp(1, 2), Prec::Prec(10)), Ok(()));
    assert_eq!(pe.add_const("+".to_string(), fsp(3, 4), Prec::Prec(10)), Ok(()));
    assert_eq!(
        pe.add_const("+".to_string(), fsp(5, 6), Prec::Max),
        Err(IncompatibleError { decl1: fsp(1, 2), decl2: fsp(5, 6) })
    );
    assert_eq!(pe.add_const("*".to_string(), fsp(7, 8), Prec::Max), Ok(()));
    assert_eq!(pe.consts.len(), 2);
    assert_eq!(pe.consts.get(&"+".to_string()), Some(&(fsp(1, 2), Prec::Prec(10))));
}

#[test]
fn associativity_clash_puts_left_first() {
    let mut pe = ParserEnv::new();
    assert_eq!(pe.add_prec_assoc(10, fsp(1, 2), true), Ok(()));
    assert_eq!(pe.add_prec_assoc(10, fsp(3, 4), true), Ok(()));
    assert_eq!(
        pe.add_prec_assoc(10, fsp(5, 6), false),
        Err(IncompatibleError { decl1: fsp(5, 6), decl2: fsp(1, 2) })
    );
    assert_eq!(pe.add_prec_assoc(20, fsp(7, 8), false), Ok(()));
    assert_eq!(
        pe.add_prec_assoc(20, fsp(9, 9), true),
        Err(IncompatibleError { decl1: fsp(7, 8), decl2: fsp(9, 9) })
    );
    assert_eq!(pe.prec_assoc, vec![(10, (fsp(1, 2), true)), (20, (fsp(7, 8), false))]);
}

fn nota(span: FileSpan, t: u32) -> NotaInfo {
    NotaInfo {
        span,
        term: TermID(t),
        nargs: 2,
        rassoc: Some(true),
        lits: vec![Literal::Var(0, Prec::Prec(1)), Literal::Const("+".to_string())],
    }
}

#[test]
fn notations_are_known_by_their_place() {
    let mut pe = ParserEnv::new();
    assert_eq!(pe.add_prefix("-".to_string(), nota(fsp(1, 2), 0)), Ok(()));
    assert_eq!(pe.add_prefix("-".to_string(), nota(fsp(1, 2), 5)), Ok(()));
    assert_eq!(
        pe.add_prefix("-".to_string(), nota(fsp(3, 4), 0)),
        Err(IncompatibleError { decl1: fsp(1, 2), decl2: fsp(3, 4) })
    );
    assert_eq!(pe.prefixes.len(), 1);
    assert_eq!(pe.prefixes.get(&"-".to_string()).unwrap().term, TermID(0));
    assert_eq!(pe.add_infix("-".to_string(), nota(fsp(3, 4), 1)), Ok(()));
    assert_eq!(pe.add_infix("-".to_string(), nota(fsp(3, 4), 1)), Ok(()));
    assert_eq!(
        pe.add_infix("-".to_string(), nota(fsp(1, 2), 1)),
        Err(IncompatibleError { decl1: fsp(3, 4), decl2: fsp(1, 2) })
    );
    assert_eq!(pe.infixes.len(), 1);
}
