//! The table that assigns back-reference numbers to heap entries.

use vstd::prelude::*;

verus! {

/// For each heap entry the back-reference number under which the stream
/// that is being written knows it, if it has one yet; and the next number
/// that is free.
#[derive(Debug)]
pub struct Reorder {
    pub map: Vec<Option<u32>>,
    pub idx: u32,
}

/// Mathematical content of a `Reorder`.
pub struct ReorderState {
    pub map: Seq<Option<u32>>,
    pub idx: u32,
}

/// The table at the start of a declaration with `nargs` arguments and a heap
/// of `len` entries: argument `i` is back-reference `i`, and nothing else has
/// a number.
pub open spec fn initial_map(nargs: u32, len: nat) -> Seq<Option<u32>> {
    Seq::new(
        len,
        |i: int|
            if i < nargs {
                Some(i as u32)
            } else {
                None
            },
    )
}

/// The table after every entry listed in `save` has been given the number `n`.
pub open spec fn commit(map: Seq<Option<u32>>, save: Seq<usize>, n: u32) -> Seq<Option<u32>> {
    Seq::new(
        map.len(),
        |k: int|
            if exists|j: int| 0 <= j < save.len() && save[j] == k {
                Some(n)
            } else {
                map[k]
            },
    )
}

impl Reorder {
    pub open spec fn view(&self) -> ReorderState {
        ReorderState { map: self.map@, idx: self.idx }
    }

    /// The table for a declaration with `nargs` arguments and a heap of `len`
    /// entries, the arguments included.
    pub fn new(nargs: u32, len: usize) -> (r: Reorder)
        requires
            nargs <= len,
        ensures
            r@ == (ReorderState { map: initial_map(nargs, len as nat), idx: nargs }),
    {
        let mut map: Vec<Option<u32>> = Vec::new();
        let mut i: usize = 0;
        while i < len
            invariant
                0 <= i <= len,
                map@ == initial_map(nargs, i as nat),
            decreases len - i,
        {
            if i < nargs as usize {
                map.push(Some(i as u32));
            } else {
                map.push(None);
            }
            i += 1;
            assert(map@ =~= initial_map(nargs, i as nat));
        }
        Reorder { map, idx: nargs }
    }

    /// Gives every entry listed in `save` the number `n`, and empties `save`.
    pub fn commit(&mut self, save: &mut Vec<usize>, n: u32)
        requires
            forall|j: int| 0 <= j < old(save)@.len() ==> old(save)@[j] < old(self).map@.len(),
        ensures
            final(self).map@ == commit(old(self).map@, old(save)@, n),
            final(self).idx == old(self).idx,
            final(save)@ == Seq::<usize>::empty(),
    {
        let mut j: usize = 0;
        while j < save.len()
            invariant
                0 <= j <= save@.len(),
                save@ == old(save)@,
                self.idx == old(self).idx,
                self.map@.len() == old(self).map@.len(),
                forall|k: int| 0 <= k < save@.len() ==> save@[k] < self.map@.len(),
                self.map@ == commit(old(self).map@, save@.subrange(0, j as int), n),
            decreases save@.len() - j,
        {
            let i: usize = save[j];
            self.map[i] = Some(n);
            j += 1;
            proof {
                let prev = save@.subrange(0, j - 1);
                let next = save@.subrange(0, j as int);
                assert forall|k: int| 0 <= k < self.map@.len() implies self.map@[k] == commit(
                    old(self).map@,
                    next,
                    n,
                )[k] by {
                    if exists|m: int| 0 <= m < next.len() && next[m] == k {
                        let m = choose|m: int| 0 <= m < next.len() && next[m] == k;
                        if m < j - 1 {
                            assert(prev[m] == k);
                        }
                    } else {
                        assert(next[j - 1] == i);
                        if exists|m: int| 0 <= m < prev.len() && prev[m] == k {
                            let m = choose|m: int| 0 <= m < prev.len() && prev[m] == k;
                            assert(next[m] == k);
                        }
                    }
                }
                assert(self.map@ =~= commit(old(self).map@, next, n));
            }
        }
        assert(save@.subrange(0, j as int) =~= save@);
        save.clear();
    }
}

} // verus!
