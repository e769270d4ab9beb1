//! Sets of byte values.

use vstd::prelude::*;

verus! {

/// A set of byte values, one bit for each: bit `c & 7` of byte `c >> 3`
/// says whether `c` is in the set.
#[derive(Debug)]
pub struct Delims(pub [u8; 32]);

proof fn lemma_set_bit(x: u8, c: u8, b: u8)
    ensures
        ((x | (1u8 << (c & 7))) & (1u8 << (b & 7)) != 0) == ((x & (1u8 << (b & 7)) != 0) || (c & 7)
            == (b & 7)),
{
    assert(((x | (1u8 << (c & 7))) & (1u8 << (b & 7)) != 0) == ((x & (1u8 << (b & 7)) != 0) || (c
        & 7) == (b & 7))) by (bit_vector);
}

proof fn lemma_split_byte(b: u8, c: u8)
    ensures
        (b >> 3 == c >> 3 && b & 7 == c & 7) == (b == c),
        (c >> 3) < 32,
        (c & 7) < 8,
{
    assert((b >> 3 == c >> 3 && b & 7 == c & 7) == (b == c)) by (bit_vector);
    assert((c >> 3) < 32) by (bit_vector);
    assert((c & 7) < 8) by (bit_vector);
}

proof fn lemma_or_bit(x: u8, y: u8, m: u8)
    ensures
        ((x | y) & m != 0) == ((x & m != 0) || (y & m != 0)),
{
    assert(((x | y) & m != 0) == ((x & m != 0) || (y & m != 0))) by (bit_vector);
}

impl Delims {
    /// Whether `c` is in the set.
    pub open spec fn spec_get(&self, c: u8) -> bool {
        self.0@[(c >> 3) as int] & (1u8 << (c & 7)) != 0
    }

    /// The empty set.
    pub fn new() -> (r: Delims)
        ensures
            forall|c: u8| !r.spec_get(c),
    {
        let r = Delims([0u8; 32]);
        assert forall|c: u8| !r.spec_get(c) by {
            lemma_split_byte(c, c);
            let m = 1u8 << (c & 7);
            assert(0u8 & m == 0) by (bit_vector);
        }
        r
    }

    /// Whether `c` is in the set.
    #[verifier::when_used_as_spec(spec_get)]
    pub fn get(&self, c: u8) -> (r: bool)
        ensures
            r == self.spec_get(c),
    {
        proof {
            lemma_split_byte(c, c);
        }
        self.0[(c >> 3) as usize] & (1u8 << (c & 7)) != 0
    }

    /// Puts `c` into the set.
    pub fn set(&mut self, c: u8)
        ensures
            forall|b: u8|
                #![trigger final(self).spec_get(b)]
                final(self).spec_get(b) == (b == c || old(self).spec_get(b)),
    {
        proof {
            lemma_split_byte(c, c);
        }
        let i: usize = (c >> 3) as usize;
        let x: u8 = self.0[i] | (1u8 << (c & 7));
        self.0[i] = x;
        assert forall|b: u8| #![trigger self.spec_get(b)]
            self.spec_get(b) == (b == c || old(self).spec_get(b)) by {
            lemma_split_byte(b, c);
            lemma_split_byte(b, b);
            if b >> 3 == c >> 3 {
                lemma_set_bit(old(self).0@[i as int], c, b);
            }
        }
    }

    /// Puts every member of `other` into the set.
    pub fn merge(&mut self, other: &Self)
        ensures
            forall|b: u8|
                #![trigger final(self).spec_get(b)]
                final(self).spec_get(b) == (old(self).spec_get(b) || other.spec_get(b)),
    {
        let mut i: usize = 0;
        while i < 32
            invariant
                0 <= i <= 32,
                forall|j: int| 0 <= j < i ==> self.0@[j] == old(self).0@[j] | other.0@[j],
                forall|j: int| i <= j < 32 ==> self.0@[j] == old(self).0@[j],
            decreases 32 - i,
        {
            let x: u8 = self.0[i] | other.0[i];
            self.0[i] = x;
            i += 1;
        }
        assert forall|b: u8| #![trigger self.spec_get(b)]
            self.spec_get(b) == (old(self).spec_get(b) || other.spec_get(b)) by {
            lemma_split_byte(b, b);
            let j = (b >> 3) as int;
            lemma_or_bit(old(self).0@[j], other.0@[j], 1u8 << (b & 7));
        }
    }
}

} // verus!
