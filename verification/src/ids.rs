//! Small-integer identifiers and the dense tables that they index.

use vstd::prelude::*;

verus! {

/// Index of a sort in the sort table.
#[derive(Copy, Clone, Debug, Hash, PartialEq, Eq, Structural)]
pub struct SortID(pub u8);

/// Index of a term constructor in the term table.
#[derive(Copy, Clone, Debug, Hash, PartialEq, Eq, Structural)]
pub struct TermID(pub u32);

/// Index of an axiom or theorem in the theorem table.
#[derive(Copy, Clone, Debug, Hash, PartialEq, Eq, Structural)]
pub struct ThmID(pub u32);

/// Index of an atom of the scripting layer.
#[derive(Copy, Clone, Debug, Hash, PartialEq, Eq, Structural)]
pub struct AtomID(pub u32);

/// An identifier that can be told from another.
pub trait Ident: Copy {
    /// Whether `self` and `other` are the same identifier.
    fn same(&self, other: &Self) -> (b: bool)
        ensures
            b == (*self == *other),
    ;
}

impl Ident for SortID {
    fn same(&self, other: &Self) -> (b: bool) {
        self.0 == other.0
    }
}

impl Ident for TermID {
    fn same(&self, other: &Self) -> (b: bool) {
        self.0 == other.0
    }
}

impl Ident for ThmID {
    fn same(&self, other: &Self) -> (b: bool) {
        self.0 == other.0
    }
}

impl Ident for AtomID {
    fn same(&self, other: &Self) -> (b: bool) {
        self.0 == other.0
    }
}

/// Dense table indexed by `SortID`.
#[derive(Debug)]
pub struct SortVec<T>(pub Vec<T>);

/// Dense table indexed by `TermID`.
#[derive(Debug)]
pub struct TermVec<T>(pub Vec<T>);

/// Dense table indexed by `ThmID`.
#[derive(Debug)]
pub struct ThmVec<T>(pub Vec<T>);

/// Dense table indexed by `AtomID`.
#[derive(Debug)]
pub struct AtomVec<T>(pub Vec<T>);

impl<T> SortVec<T> {
    /// The records of the table, in identifier order.
    pub open spec fn view(&self) -> Seq<T> {
        self.0@
    }

    pub fn new() -> (r: Self)
        ensures
            r@ == Seq::<T>::empty(),
    {
        SortVec(Vec::new())
    }

    pub fn len(&self) -> (n: usize)
        ensures
            n == self@.len(),
    {
        self.0.len()
    }

    /// Bounds-checked lookup.
    pub fn get(&self, i: SortID) -> (r: Option<&T>)
        ensures
            r == (if (i.0 as int) < self@.len() {
                Some(&self@[i.0 as int])
            } else {
                None
            }),
    {
        if (i.0 as usize) < self.0.len() {
            Some(&self.0[i.0 as usize])
        } else {
            None
        }
    }

    pub fn push(&mut self, t: T)
        ensures
            final(self)@ == old(self)@.push(t),
    {
        self.0.push(t);
    }
}

impl<T> TermVec<T> {
    /// The records of the table, in identifier order.
    pub open spec fn view(&self) -> Seq<T> {
        self.0@
    }

    pub fn new() -> (r: Self)
        ensures
            r@ == Seq::<T>::empty(),
    {
        TermVec(Vec::new())
    }

    pub fn len(&self) -> (n: usize)
        ensures
            n == self@.len(),
    {
        self.0.len()
    }

    /// Bounds-checked lookup.
    pub fn get(&self, i: TermID) -> (r: Option<&T>)
        ensures
            r == (if (i.0 as int) < self@.len() {
                Some(&self@[i.0 as int])
            } else {
                None
            }),
    {
        if (i.0 as usize) < self.0.len() {
            Some(&self.0[i.0 as usize])
        } else {
            None
        }
    }

    pub fn push(&mut self, t: T)
        ensures
            final(self)@ == old(self)@.push(t),
    {
        self.0.push(t);
    }
}

impl<T> ThmVec<T> {
    /// The records of the table, in identifier order.
    pub open spec fn view(&self) -> Seq<T> {
        self.0@
    }

    pub fn new() -> (r: Self)
        ensures
            r@ == Seq::<T>::empty(),
    {
        ThmVec(Vec::new())
    }

    pub fn len(&self) -> (n: usize)
        ensures
            n == self@.len(),
    {
        self.0.len()
    }

    /// Bounds-checked lookup.
    pub fn get(&self, i: ThmID) -> (r: Option<&T>)
        ensures
            r == (if (i.0 as int) < self@.len() {
                Some(&self@[i.0 as int])
            } else {
                None
            }),
    {
        if (i.0 as usize) < self.0.len() {
            Some(&self.0[i.0 as usize])
        } else {
            None
        }
    }

    pub fn push(&mut self, t: T)
        ensures
            final(self)@ == old(self)@.push(t),
    {
        self.0.push(t);
    }
}

impl<T> AtomVec<T> {
    /// The records of the table, in identifier order.
    pub open spec fn view(&self) -> Seq<T> {
        self.0@
    }

    pub fn new() -> (r: Self)
        ensures
            r@ == Seq::<T>::empty(),
    {
        AtomVec(Vec::new())
    }

    pub fn len(&self) -> (n: usize)
        ensures
            n == self@.len(),
    {
        self.0.len()
    }

    /// Bounds-checked lookup.
    pub fn get(&self, i: AtomID) -> (r: Option<&T>)
        ensures
            r == (if (i.0 as int) < self@.len() {
                Some(&self@[i.0 as int])
            } else {
                None
            }),
    {
        if (i.0 as usize) < self.0.len() {
            Some(&self.0[i.0 as usize])
        } else {
            None
        }
    }

    pub fn push(&mut self, t: T)
        ensures
            final(self)@ == old(self)@.push(t),
    {
        self.0.push(t);
    }
}

} // verus!
