//! Coercions between sorts and the paths that they compose to.

use crate::environment::Sort;
use crate::error::{push_note, related_view};
use crate::ids::{SortID, SortVec, TermID};
use crate::syntax::FileSpan;
use vstd::prelude::*;
use vstd::string::*;

verus! {

/// A coercion from one sort to another: a single declared step, or two
/// coercions in a row that meet at a middle sort.
#[derive(Debug)]
pub enum Coe {
    One(FileSpan, TermID),
    Trans(Box<Coe>, SortID, Box<Coe>),
}

impl Clone for Coe {
    /// A copy of the coercion.
    fn clone(&self) -> (r: Coe)
        ensures
            r == *self,
        decreases self,
    {
        match self {
            Coe::One(fsp, t) => Coe::One(*fsp, *t),
            Coe::Trans(c1, sm, c2) => Coe::Trans(
                Box::new((**c1).clone()),
                *sm,
                Box::new((**c2).clone()),
            ),
        }
    }
}

impl Coe {

    /// Whether every sort at which two steps of the path meet is one of the
    /// first `n` sorts.
    pub open spec fn sorts_below(self, n: nat) -> bool
        decreases self,
    {
        match self {
            Coe::One(_, _) => true,
            Coe::Trans(c1, sm, c2) => sm.0 < n && c1.sorts_below(n) && c2.sorts_below(n),
        }
    }

    /// The path after its first sort: for each step an arrow and the name
    /// of the sort that the step leads to.
    pub open spec fn arrows_r(self, sorts: Seq<Sort>, sl: SortID, sr: SortID) -> Seq<char>
        decreases self,
    {
        match self {
            Coe::One(_, _) => " -> "@ + sorts[sr.0 as int].name@,
            Coe::Trans(c1, sm, c2) => c1.arrows_r(sorts, sl, sm) + c2.arrows_r(sorts, sm, sr),
        }
    }

    /// The path from `s1` to `s2` as text: the names of the sorts that it
    /// passes, with arrows between them.
    pub open spec fn arrows(self, sorts: Seq<Sort>, s1: SortID, s2: SortID) -> Seq<char> {
        sorts[s1.0 as int].name@ + self.arrows_r(sorts, s1, s2)
    }

    /// The steps of the path: for each the place where it was declared and
    /// the two sorts that it joins, as text.
    pub open spec fn hops(self, sorts: Seq<Sort>, sl: SortID, sr: SortID) -> Seq<
        (FileSpan, Seq<char>),
    >
        decreases self,
    {
        match self {
            Coe::One(fsp, _) => seq![
                (fsp, sorts[sl.0 as int].name@ + " -> "@ + sorts[sr.0 as int].name@),
            ],
            Coe::Trans(c1, sm, c2) => c1.hops(sorts, sl, sm) + c2.hops(sorts, sm, sr),
        }
    }

    /// Appends the path after its first sort to `s`, and its steps to
    /// `related`.
    pub fn write_arrows_r(
        &self,
        sorts: &SortVec<Sort>,
        s: &mut String,
        related: &mut Vec<(FileSpan, String)>,
        sl: SortID,
        sr: SortID,
    )
        requires
            sl.0 < sorts@.len(),
            sr.0 < sorts@.len(),
            self.sorts_below(sorts@.len()),
        ensures
            final(s)@ == old(s)@ + self.arrows_r(sorts@, sl, sr),
            related_view(final(related)@) == related_view(old(related)@) + self.hops(
                sorts@,
                sl,
                sr,
            ),
        decreases self,
    {
        match self {
            Coe::One(fsp, _) => {
                let mut note = sorts.0[sl.0 as usize].name.clone();
                note.append(" -> ");
                note.append(sorts.0[sr.0 as usize].name.as_str());
                push_note(related, *fsp, note);
                s.append(" -> ");
                s.append(sorts.0[sr.0 as usize].name.as_str());
                proof {
                    assert(s@ =~= old(s)@ + self.arrows_r(sorts@, sl, sr));
                    assert(related_view(related@) =~= related_view(old(related)@) + self.hops(
                        sorts@,
                        sl,
                        sr,
                    ));
                }
            },
            Coe::Trans(c1, sm, c2) => {
                c1.write_arrows_r(sorts, s, related, sl, *sm);
                c2.write_arrows_r(sorts, s, related, *sm, sr);
                proof {
                    assert(s@ =~= old(s)@ + self.arrows_r(sorts@, sl, sr));
                    assert(related_view(related@) =~= related_view(old(related)@) + self.hops(
                        sorts@,
                        sl,
                        sr,
                    ));
                }
            },
        }
    }

    /// Appends the path from `s1` to `s2` to `s`, and its steps to
    /// `related`.
    pub fn write_arrows(
        &self,
        sorts: &SortVec<Sort>,
        s: &mut String,
        related: &mut Vec<(FileSpan, String)>,
        s1: SortID,
        s2: SortID,
    )
        requires
            s1.0 < sorts@.len(),
            s2.0 < sorts@.len(),
            self.sorts_below(sorts@.len()),
        ensures
            final(s)@ == old(s)@ + self.arrows(sorts@, s1, s2),
            related_view(final(related)@) == related_view(old(related)@) + self.hops(
                sorts@,
                s1,
                s2,
            ),
    {
        s.append(sorts.0[s1.0 as usize].name.as_str());
        self.write_arrows_r(sorts, s, related, s1, s2);
        assert(s@ =~= old(s)@ + self.arrows(sorts@, s1, s2));
    }
}

} // verus!
