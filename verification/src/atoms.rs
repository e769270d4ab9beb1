//! The atoms of the scripting layer and how a merge renumbers them.

use crate::environment::{atom_table_ok, Environment, LispVal};
use crate::ids::{AtomID, AtomVec};
use crate::names::{lemma_position, position};
use crate::remap::Remap;
use vstd::prelude::*;

verus! {

/// For each atom of one environment, in the order of their identifiers,
/// its identifier in a second environment.
#[derive(Debug)]
pub struct LispRemapper {
    pub atom: AtomVec<AtomID>,
}

/// What the atom `a` stands for under the list `map`: the entry at its
/// place, or `a` itself if the list is too short.
pub open spec fn renamed(map: Seq<AtomID>, a: AtomID) -> AtomID {
    if a.0 < map.len() {
        map[a.0 as int]
    } else {
        a
    }
}

/// The value `v` with its atom renumbered as `map` says.
pub open spec fn remap_lisp(v: LispVal, map: Seq<AtomID>) -> LispVal {
    match v {
        LispVal::Undef => LispVal::Undef,
        LispVal::Atom(a) => LispVal::Atom(renamed(map, a)),
    }
}

impl Remap<LispRemapper> for AtomID {
    open spec fn remaps_to(&self, r: &LispRemapper, out: &Self) -> bool {
        *out == renamed(r.atom@, *self)
    }

    fn remap(&self, r: &LispRemapper) -> (out: Self) {
        match r.atom.get(*self) {
            Some(a) => *a,
            None => *self,
        }
    }
}

impl Remap<LispRemapper> for LispVal {
    open spec fn remaps_to(&self, r: &LispRemapper, out: &Self) -> bool {
        *out == remap_lisp(*self, r.atom@)
    }

    fn remap(&self, r: &LispRemapper) -> (out: Self) {
        match self {
            LispVal::Undef => LispVal::Undef,
            LispVal::Atom(a) => LispVal::Atom(a.remap(r)),
        }
    }
}

/// The atoms of an environment: the dictionary that names them and the
/// table of their values.
pub struct AtomState {
    pub atoms: Seq<(String, AtomID)>,
    pub ctx: Seq<(String, LispVal)>,
}

/// The atoms after `s` was looked up, and its identifier: an atom that is
/// new gets the next identifier and no value. There is no identifier
/// beyond 32 bits.
pub open spec fn intern(st: AtomState, s: String) -> Option<(AtomState, AtomID)> {
    match position(st.atoms, s@) {
        Some(i) => Some((st, st.atoms[i].1)),
        None => if st.ctx.len() > u32::MAX {
            None
        } else {
            Some(
                (
                    AtomState {
                        atoms: st.atoms.push((s, AtomID(st.ctx.len() as u32))),
                        ctx: st.ctx.push((s, LispVal::Undef)),
                    },
                    AtomID(st.ctx.len() as u32),
                ),
            )
        },
    }
}

/// The atoms after the names of `other[k..]` were looked up in order, and
/// `map` extended by their identifiers.
pub open spec fn intern_all(
    st: AtomState,
    other: Seq<(String, LispVal)>,
    map: Seq<AtomID>,
    k: nat,
) -> Option<(AtomState, Seq<AtomID>)>
    decreases other.len() - k,
{
    if k >= other.len() {
        Some((st, map))
    } else {
        match intern(st, other[k as int].0) {
            None => None,
            Some((st1, id)) => intern_all(st1, other, map.push(id), k + 1),
        }
    }
}

/// Where looking up the names of `other[k..]` stops: after the last if
/// there are identifiers enough, and before the first name that is new
/// and finds no identifier otherwise.
pub open spec fn intern_end(st: AtomState, other: Seq<(String, LispVal)>, k: nat) -> AtomState
    decreases other.len() - k,
{
    if k >= other.len() {
        st
    } else {
        match intern(st, other[k as int].0) {
            None => st,
            Some((st1, _)) => intern_end(st1, other, k + 1),
        }
    }
}

/// The table of values after each atom of `other[k..]` gave its value,
/// renumbered as `map` says, to the atom that `map` lists for it.
pub open spec fn assign_all(
    ctx: Seq<(String, LispVal)>,
    other: Seq<(String, LispVal)>,
    map: Seq<AtomID>,
    k: nat,
) -> Seq<(String, LispVal)>
    decreases other.len() - k,
{
    if k >= other.len() {
        ctx
    } else {
        let at = map[k as int].0 as int;
        assign_all(
            ctx.update(at, (ctx[at].0, remap_lisp(other[k as int].1, map))),
            other,
            map,
            k + 1,
        )
    }
}

/// The atoms after the atoms `other` of a second environment were merged
/// into them: every name is looked up, and then every atom of `other`
/// gives its value to the atom of that name.
pub open spec fn merge_atoms(st: AtomState, other: Seq<(String, LispVal)>) -> Option<AtomState> {
    match intern_all(st, other, Seq::empty(), 0) {
        None => None,
        Some((st1, map)) => Some(
            AtomState { atoms: st1.atoms, ctx: assign_all(st1.ctx, other, map, 0) },
        ),
    }
}

impl Environment {
    /// The atoms of the environment.
    pub open spec fn atom_state(&self) -> AtomState {
        AtomState { atoms: self.atoms@, ctx: self.lisp_ctx@ }
    }

    /// The identifier of the atom `s`, unless it is new and no identifier
    /// is left.
    pub fn try_get_atom(&mut self, s: String) -> (r: Option<AtomID>)
        requires
            old(self).wf(),
        ensures
            final(self).wf(),
            final(self).sort_keys == old(self).sort_keys,
            final(self).sorts == old(self).sorts,
            final(self).pe == old(self).pe,
            final(self).decl_keys == old(self).decl_keys,
            final(self).terms == old(self).terms,
            final(self).thms == old(self).thms,
            final(self).stmts == old(self).stmts,
            match intern(old(self).atom_state(), s) {
                Some((st, id)) => r == Some(id) && final(self).atom_state() == st && id.0 < st.ctx.len(),
                None => r is None && final(self).atoms == old(self).atoms && final(self).lisp_ctx
                    == old(self).lisp_ctx,
            },
    {
        proof {
            reveal(Environment::wf);
            lemma_position(self.atoms@, s@);
        }
        match self.atoms.find(&s) {
            Some(i) => Some(self.atoms.entries[i].1),
            None => {
                if self.lisp_ctx.len() > 0xffff_ffff {
                    None
                } else {
                    Some(self.get_atom(s))
                }
            },
        }
    }

    /// Merges the atoms of `other` into the environment. Returns whether
    /// there were identifiers enough; if not, the atoms that were looked up
    /// before the one that found no identifier are added, and no value is
    /// changed.
    pub fn merge_atoms(&mut self, other: &Environment) -> (ok: bool)
        requires
            old(self).wf(),
        ensures
            final(self).wf(),
            final(self).sort_keys == old(self).sort_keys,
            final(self).sorts == old(self).sorts,
            final(self).pe == old(self).pe,
            final(self).decl_keys == old(self).decl_keys,
            final(self).terms == old(self).terms,
            final(self).thms == old(self).thms,
            final(self).stmts == old(self).stmts,
            match merge_atoms(old(self).atom_state(), other.lisp_ctx@) {
                Some(st) => ok && final(self).atom_state() == st,
                None => !ok && final(self).atom_state() == intern_end(
                    old(self).atom_state(),
                    other.lisp_ctx@,
                    0,
                ),
            },
    {
        let mut r = LispRemapper { atom: AtomVec::new() };
        let mut k: usize = 0;
        while k < other.lisp_ctx.len()
            invariant
                0 <= k <= other.lisp_ctx@.len(),
                self.wf(),
                self.sort_keys == old(self).sort_keys,
                self.sorts == old(self).sorts,
                self.pe == old(self).pe,
                self.decl_keys == old(self).decl_keys,
                self.terms == old(self).terms,
                self.thms == old(self).thms,
                self.stmts == old(self).stmts,
                r.atom@.len() == k,
                forall|j: int| 0 <= j < k ==> (#[trigger] r.atom@[j]).0 < self.lisp_ctx@.len(),
                intern_all(old(self).atom_state(), other.lisp_ctx@, Seq::empty(), 0) == intern_all(
                    self.atom_state(),
                    other.lisp_ctx@,
                    r.atom@,
                    k as nat,
                ),
                intern_end(old(self).atom_state(), other.lisp_ctx@, 0) == intern_end(
                    self.atom_state(),
                    other.lisp_ctx@,
                    k as nat,
                ),
            decreases other.lisp_ctx@.len() - k,
        {
            match self.try_get_atom(other.lisp_ctx.0[k].0.clone()) {
                None => {
                    return false;
                },
                Some(id) => {
                    r.atom.push(id);
                },
            }
            k += 1;
        }
        let ghost st1 = self.atom_state();
        k = 0;
        while k < other.lisp_ctx.len()
            invariant
                0 <= k <= other.lisp_ctx@.len(),
                self.wf(),
                self.sort_keys == old(self).sort_keys,
                self.sorts == old(self).sorts,
                self.pe == old(self).pe,
                self.decl_keys == old(self).decl_keys,
                self.terms == old(self).terms,
                self.thms == old(self).thms,
                self.stmts == old(self).stmts,
                self.atoms@ == st1.atoms,
                self.lisp_ctx@.len() == st1.ctx.len(),
                r.atom@.len() == other.lisp_ctx@.len(),
                forall|j: int|
                    0 <= j < r.atom@.len() ==> (#[trigger] r.atom@[j]).0 < self.lisp_ctx@.len(),
                assign_all(st1.ctx, other.lisp_ctx@, r.atom@, 0) == assign_all(
                    self.lisp_ctx@,
                    other.lisp_ctx@,
                    r.atom@,
                    k as nat,
                ),
            decreases other.lisp_ctx@.len() - k,
        {
            proof {
                reveal(Environment::wf);
            }
            let v: LispVal = other.lisp_ctx.0[k].1.remap(&r);
            assert(r.atom@[k as int].0 < self.lisp_ctx@.len());
            let at: usize = r.atom.0[k].0 as usize;
            let name: String = self.lisp_ctx.0[at].0.clone();
            self.lisp_ctx.0[at] = (name, v);
            k += 1;
        }
        true
    }
}

} // verus!
