use mm0_rs::coe::Coe;
use mm0_rs::coercions::{add_coe1, add_coe_raw, find_edge, find_prov, update_provs};
use mm0_rs::environment::Environment;
use mm0_rs::ids::{SortID, TermID};
use mm0_rs::syntax::{FileRef, FileSpan, Modifiers, Span, PROVABLE};

fn fsp(start: usize, end: usize) -> FileSpan {
    FileSpan { file: FileRef(0), span: Span { start, end } }
}

fn env_with_sorts(names: &[(&str, u8)]) -> Environment {
    let mut env = Environment::new();
    for (i, (n, m)) in names.iter().enumerate() {
        env.add_sort(n.to_string(), fsp(i, i), Modifiers(*m)).ok().unwrap();
    }
    env
}

fn has(env: &Environment, a: u8, b: u8) -> bool {
    find_edge(&env.pe.coes, SortID(a), SortID(b)).is_some()
}

#[test]
fn path_is_written_with_arrows() {
    let env = env_with_sorts(&[("a", 0), ("b", 0), ("c", 0)]);
    let ab = Coe::One(fsp(1, 1), TermID(0));
    let bc = Coe::One(fsp(2, 2), TermID(1));
    let ac = Coe::Trans(Box::new(ab.clone()), SortID(1), Box::new(bc));
    let mut s = "path: ".to_string();
    let mut related = Vec::new();
    ac.write_arrows(&env.sorts, &mut s, &mut related, SortID(0), SortID(2));
    assert_eq!(s, "path: a -> b -> c");
    assert_eq!(
        related,
        vec![(fsp(1, 1), "a -> b".to_string()), (fsp(2, 2), "b -> c".to_string())]
    );
    let mut s = String::new();
    let mut related = Vec::new();
    ab.write_arrows_r(&env.sorts, &mut s, &mut related, SortID(0), SortID(1));
    assert_eq!(s, " -> b");
    assert_eq!(related, vec![(fsp(1, 1), "a -> b".to_string())]);
}

#[test]
fn coercion_between_two_sorts() {
    let mut env = env_with_sorts(&[("nat", 0), ("int", 0)]);
    assert!(env.add_coe(SortID(0), SortID(1), fsp(5, 6), TermID(0)).is_ok());
    assert!(has(&env, 0, 1));
    assert!(!has(&env, 1, 0));
    assert_eq!(env.pe.coes.len(), 1);
    assert!(matches!(&env.pe.coes[0].1, Coe::One(sp, TermID(0)) if *sp == fsp(5, 6)));
    assert!(env.pe.coe_prov.is_empty());

    let e = env.add_coe(SortID(1), SortID(0), fsp(7, 8), TermID(1)).err().unwrap();
    assert_eq!(e.pos, Span { start: 7, end: 8 });
    assert_eq!(e.msg, "coercion cycle detected: nat -> int -> nat");
    assert_eq!(
        e.related,
        vec![(fsp(5, 6), "nat -> int".to_string()), (fsp(7, 8), "int -> nat".to_string())]
    );
    assert_eq!(env.pe.coes.len(), 1);
}

#[test]
fn coercion_to_itself_is_a_cycle() {
    let mut env = env_with_sorts(&[("nat", 0)]);
    let e = env.add_coe(SortID(0), SortID(0), fsp(7, 8), TermID(1)).err().unwrap();
    assert_eq!(e.msg, "coercion cycle detected: nat -> nat");
    assert!(env.pe.coes.is_empty());
}

#[test]
fn coercions_compose_with_what_is_there() {
    let mut env = env_with_sorts(&[("a", 0), ("b", 0), ("c", 0), ("d", 0)]);
    assert!(env.add_coe(SortID(0), SortID(1), fsp(1, 1), TermID(0)).is_ok());
    assert!(env.add_coe(SortID(2), SortID(3), fsp(2, 2), TermID(1)).is_ok());
    assert_eq!(env.pe.coes.len(), 2);
    // b -> c adds a -> c, b -> c and b -> d, but not a -> d
    assert!(env.add_coe(SortID(1), SortID(2), fsp(3, 3), TermID(2)).is_ok());
    assert_eq!(env.pe.coes.len(), 5);
    assert!(has(&env, 0, 2));
    assert!(has(&env, 1, 2));
    assert!(has(&env, 1, 3));
    assert!(!has(&env, 0, 3));
    assert_eq!(env.pe.coes[2].0, (SortID(0), SortID(2)));
    assert_eq!(env.pe.coes[3].0, (SortID(1), SortID(2)));
    assert_eq!(env.pe.coes[4].0, (SortID(1), SortID(3)));
    match &env.pe.coes[2].1 {
        Coe::Trans(l, m, r) => {
            assert!(matches!(**l, Coe::One(_, TermID(0))));
            assert_eq!(*m, SortID(1));
            assert!(matches!(**r, Coe::One(_, TermID(2))));
        }
        _ => panic!("expected a composition"),
    }
}

#[test]
fn second_path_is_a_diamond() {
    let mut env = env_with_sorts(&[("a", 0), ("b", 0), ("c", 0)]);
    assert!(env.add_coe(SortID(0), SortID(1), fsp(1, 1), TermID(0)).is_ok());
    assert!(env.add_coe(SortID(1), SortID(2), fsp(2, 2), TermID(1)).is_ok());
    assert!(has(&env, 0, 2));
    let e = env.add_coe(SortID(0), SortID(2), fsp(3, 3), TermID(2)).err().unwrap();
    assert_eq!(e.msg, "coercion diamond detected: a -> b -> c;   a -> c");
    assert_eq!(
        e.related,
        vec![
            (fsp(1, 1), "a -> b".to_string()),
            (fsp(2, 2), "b -> c".to_string()),
            (fsp(3, 3), "a -> c".to_string())
        ]
    );
    assert_eq!(env.pe.coes.len(), 3);
}

#[test]
fn provable_target_is_recorded() {
    let mut env = env_with_sorts(&[("nat", 0), ("set", 0), ("wff", PROVABLE)]);
    assert!(env.add_coe(SortID(0), SortID(1), fsp(1, 1), TermID(0)).is_ok());
    assert!(env.pe.coe_prov.is_empty());
    assert!(env.add_coe(SortID(1), SortID(2), fsp(2, 2), TermID(1)).is_ok());
    assert_eq!(env.pe.coe_prov, vec![(SortID(0), SortID(2)), (SortID(1), SortID(2))]);
    assert_eq!(find_prov(&env.pe.coe_prov, SortID(1)), Some(1));
    assert_eq!(find_prov(&env.pe.coe_prov, SortID(2)), None);
}

#[test]
fn two_provable_targets_are_a_diamond() {
    let mut env = env_with_sorts(&[("nat", 0), ("wff", PROVABLE), ("prop", PROVABLE)]);
    assert!(env.add_coe(SortID(0), SortID(1), fsp(1, 1), TermID(0)).is_ok());
    assert_eq!(env.pe.coe_prov, vec![(SortID(0), SortID(1))]);
    let e = env.add_coe(SortID(0), SortID(2), fsp(2, 2), TermID(1)).err().unwrap();
    assert_eq!(
        e.msg,
        "coercion diamond to provable detected:\nnat -> prop provable\nnat -> wff provable"
    );
    assert_eq!(
        e.related,
        vec![(fsp(2, 2), "nat -> prop".to_string()), (fsp(1, 1), "nat -> wff".to_string())]
    );
    assert_eq!(env.pe.coes.len(), 2);
    assert_eq!(env.pe.coe_prov, vec![(SortID(0), SortID(1))]);
}

#[test]
fn graph_functions_work_on_the_graph_alone() {
    let env = env_with_sorts(&[("a", 0), ("b", PROVABLE)]);
    let mut coes = Vec::new();
    let sp = Span { start: 0, end: 0 };
    assert!(add_coe1(&mut coes, sp, &env.sorts, SortID(0), SortID(1), Coe::One(fsp(1, 1), TermID(0)))
        .is_ok());
    assert_eq!(coes.len(), 1);
    assert!(add_coe1(&mut coes, sp, &env.sorts, SortID(0), SortID(1), Coe::One(fsp(1, 1), TermID(0)))
        .is_err());
    assert!(add_coe_raw(&mut coes, sp, &env.sorts, SortID(1), SortID(0), fsp(2, 2), TermID(1)).is_err());
    assert_eq!(coes.len(), 1);
    let mut provs = Vec::new();
    assert!(update_provs(&coes, &mut provs, sp, &env.sorts).is_ok());
    assert_eq!(provs, vec![(SortID(0), SortID(1))]);
}
