//! Environment of a proof assistant (sorts, terms, theorems, notation and
//! coercions), the algebra that merges two such environments, and the
//! serializer that lays an environment out as a binary proof file.
//!
//! The data: `ids`, `syntax`, `names`, `delims`, `expr`, `coe`, `error`.
//! The environment and what is declared in it: `environment`,
//! `parser_env`, `coercions`, `atoms`. Merging: `remap`, `merge`,
//! `pe_merge`, `env_merge`. Writing the file: `export`. What holds of all
//! of these: `density`, `closure`, `merge_facts`, `replay`, and in
//! `export` the modules `layout`, `reader` and `unify_reader`.

pub mod ids;
pub mod syntax;
pub mod names;
pub mod delims;
pub mod expr;
pub mod coe;
pub mod error;
pub mod environment;
pub mod parser_env;
pub mod coercions;
pub mod atoms;
pub mod remap;
pub mod merge;
pub mod pe_merge;
pub mod env_merge;
pub mod export;
pub mod density;
pub mod closure;
pub mod merge_facts;
pub mod replay;
