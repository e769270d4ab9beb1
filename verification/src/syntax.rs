//! Source positions, declaration modifiers and precedences.

use vstd::prelude::*;

verus! {

/// A range of byte offsets in one source file.
#[derive(Copy, Clone, Debug, Hash, PartialEq, Eq, Structural)]
pub struct Span {
    pub start: usize,
    pub end: usize,
}

/// Handle of a source file.
#[derive(Copy, Clone, Debug, Hash, PartialEq, Eq, Structural)]
pub struct FileRef(pub u32);

/// A span together with the file that it lies in.
#[derive(Copy, Clone, Debug, Hash, PartialEq, Eq, Structural)]
pub struct FileSpan {
    pub file: FileRef,
    pub span: Span,
}

/// Modifier bit of a sort: no term constructor may target it.
pub const PURE: u8 = 1;

/// Modifier bit of a sort: it may not occur as a dependency.
pub const STRICT: u8 = 2;

/// Modifier bit of a sort: statements of this sort can be proved.
pub const PROVABLE: u8 = 4;

/// Modifier bit of a sort: no dummy variable may have it.
pub const FREE: u8 = 8;

/// Visibility bit of a declaration: public.
pub const PUB: u8 = 16;

/// Visibility bit of a declaration: abstract.
pub const ABSTRACT: u8 = 32;

/// Visibility bit of a declaration: local.
pub const LOCAL: u8 = 64;

/// A set of modifier bits.
#[derive(Copy, Clone, Debug, Hash, PartialEq, Eq, Structural)]
pub struct Modifiers(pub u8);

impl Modifiers {
    /// The set as a byte, one bit per modifier.
    pub fn bits(&self) -> (b: u8)
        ensures
            b == self.0,
    {
        self.0
    }

    /// Whether every bit of `other` is set in `self`.
    pub open spec fn spec_contains(&self, other: Modifiers) -> bool {
        self.0 & other.0 == other.0
    }

    #[verifier::when_used_as_spec(spec_contains)]
    pub fn contains(&self, other: Modifiers) -> (b: bool)
        ensures
            b == self.spec_contains(other),
    {
        self.0 & other.0 == other.0
    }

    /// Whether the set marks a provable sort.
    pub open spec fn provable(&self) -> bool {
        self.spec_contains(Modifiers(PROVABLE))
    }
}

/// Precedence of a notation.
#[derive(Copy, Clone, Debug, Hash, PartialEq, Eq, Structural)]
pub enum Prec {
    Prec(u32),
    Max,
}

} // verus!
