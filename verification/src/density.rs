//! The identifiers of a well-formed environment are dense: each table uses
//! exactly the identifiers below its length, each once.

use crate::environment::{count_terms, count_thms, DeclKey, Environment};
use crate::ids::{SortID, TermID, ThmID};
use vstd::prelude::*;

verus! {

/// Every count below the number of terms among the first `n` declarations
/// is the count at which some term among them was declared.
proof fn lemma_term_counts(keys: Seq<(String, DeclKey)>, n: int, t: int)
    requires
        0 <= n <= keys.len(),
        0 <= t < count_terms(keys, n),
    ensures
        exists|k: int| 0 <= k < n && (#[trigger] keys[k]).1 is Term && count_terms(keys, k) == t,
    decreases n,
{
    if n > 0 {
        if keys[n - 1].1 is Term && count_terms(keys, n - 1) == t {
            assert(keys[n - 1].1 is Term && count_terms(keys, n - 1) == t);
        } else {
            lemma_term_counts(keys, n - 1, t);
        }
    }
}

/// Every count below the number of theorems among the first `n`
/// declarations is the count at which some theorem among them was
/// declared.
proof fn lemma_thm_counts(keys: Seq<(String, DeclKey)>, n: int, t: int)
    requires
        0 <= n <= keys.len(),
        0 <= t < count_thms(keys, n),
    ensures
        exists|k: int| 0 <= k < n && (#[trigger] keys[k]).1 is Thm && count_thms(keys, k) == t,
    decreases n,
{
    if n > 0 {
        if keys[n - 1].1 is Thm && count_thms(keys, n - 1) == t {
            assert(keys[n - 1].1 is Thm && count_thms(keys, n - 1) == t);
        } else {
            lemma_thm_counts(keys, n - 1, t);
        }
    }
}

/// In a well-formed environment the sorts have the identifiers 0, 1, 2
/// and so on in the order of their declaration: entry `i` of the
/// dictionary of sorts names sort `i`.
pub proof fn lemma_sort_ids_dense(env: Environment)
    requires
        env.wf(),
    ensures
        env.sort_keys@.len() == env.sorts@.len(),
        forall|i: int|
            0 <= i < env.sorts@.len() ==> (#[trigger] env.sort_keys@[i]).1 == SortID(i as u8)
                && env.sort_keys@[i].0 == env.sorts@[i].name,
{
    reveal(Environment::wf);
}

/// Whether some declaration of `env` has the identifier `key`.
pub open spec fn declared(env: Environment, key: DeclKey) -> bool {
    exists|k: int| 0 <= k < env.decl_keys@.len() && (#[trigger] env.decl_keys@[k]).1 == key
}

/// In a well-formed environment the terms use exactly the identifiers
/// below the number of terms: every term that is declared has such an
/// identifier, every such identifier belongs to a declaration, and no two
/// declarations share one. The same holds of the theorems.
pub proof fn lemma_decl_ids_dense(env: Environment)
    requires
        env.wf(),
    ensures
        forall|k: int|
            0 <= k < env.decl_keys@.len() ==> match (#[trigger] env.decl_keys@[k]).1 {
                DeclKey::Term(t) => t.0 < env.terms@.len(),
                DeclKey::Thm(t) => t.0 < env.thms@.len(),
            },
        forall|t: TermID| t.0 < env.terms@.len() ==> #[trigger] declared(env, DeclKey::Term(t)),
        forall|t: ThmID| t.0 < env.thms@.len() ==> #[trigger] declared(env, DeclKey::Thm(t)),
        forall|j: int, k: int|
            0 <= j < k < env.decl_keys@.len() ==> (#[trigger] env.decl_keys@[j]).1
                != (#[trigger] env.decl_keys@[k]).1,
{
    reveal(Environment::wf);
    let keys = env.decl_keys@;
    let n = keys.len() as int;
    assert forall|k: int| 0 <= k < n implies match (#[trigger] keys[k]).1 {
        DeclKey::Term(t) => t.0 < env.terms@.len(),
        DeclKey::Thm(t) => t.0 < env.thms@.len(),
    } by {
        crate::environment::lemma_count_decls_mono(keys, k + 1, n);
    }
    assert forall|t: TermID| t.0 < env.terms@.len() implies #[trigger] declared(
        env,
        DeclKey::Term(t),
    ) by {
        lemma_term_counts(keys, n, t.0 as int);
        let k = choose|k: int|
            0 <= k < n && (#[trigger] keys[k]).1 is Term && count_terms(keys, k) == t.0;
        assert(keys[k].1 == DeclKey::Term(t));
    }
    assert forall|t: ThmID| t.0 < env.thms@.len() implies #[trigger] declared(
        env,
        DeclKey::Thm(t),
    ) by {
        lemma_thm_counts(keys, n, t.0 as int);
        let k = choose|k: int|
            0 <= k < n && (#[trigger] keys[k]).1 is Thm && count_thms(keys, k) == t.0;
        assert(keys[k].1 == DeclKey::Thm(t));
    }
    assert forall|j: int, k: int| 0 <= j < k < n implies (#[trigger] keys[j]).1 != (
    #[trigger] keys[k]).1 by {
        crate::environment::lemma_count_decls_mono(keys, j + 1, k);
    }
}

} // verus!
