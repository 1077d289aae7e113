//! One-letter tags, "a" to "z", for jumping to lines.

use vstd::prelude::*;
use crate::tag_generator::{letter, letters};

verus! {

/// How many one-letter tags there are.
pub const SINGLE_TAG_COUNT: usize = 26;

/// The one-letter tag issued `n`-th.
pub open spec fn single_tag_at(n: nat) -> Seq<char> {
    seq![letters()[n as int]]
}

/// Distinct issue indices below `SINGLE_TAG_COUNT` give distinct tags.
pub proof fn lemma_single_tag_at_injective(a: nat, b: nat)
    requires
        a < SINGLE_TAG_COUNT,
        b < SINGLE_TAG_COUNT,
        a != b,
    ensures
        single_tag_at(a) != single_tag_at(b),
{
    assert(single_tag_at(a)[0] != single_tag_at(b)[0]);
}

/// Issues the letters in order, each once; after "z" it has no more to give.
pub struct SingleCharacterTagGenerator {
    index: usize,
}

impl SingleCharacterTagGenerator {
    /// How many tags this generator has issued.
    pub closed spec fn issued(&self) -> nat {
        self.index as nat
    }

    pub fn new() -> (g: SingleCharacterTagGenerator)
        ensures
            g.issued() == 0,
    {
        SingleCharacterTagGenerator { index: 0 }
    }

    /// The next tag, or `None` once the alphabet is used up.
    pub fn next(&mut self) -> (t: Option<String>)
        ensures
            old(self).issued() < SINGLE_TAG_COUNT ==> t is Some && t->0@ == single_tag_at(
                old(self).issued(),
            ) && final(self).issued() == old(self).issued() + 1,
            old(self).issued() >= SINGLE_TAG_COUNT ==> t is None && final(self).issued() == old(
                self,
            ).issued(),
    {
        if self.index < SINGLE_TAG_COUNT {
            let tag = letter(self.index);
            self.index = self.index + 1;
            Some(tag)
        } else {
            None
        }
    }
}

} // verus!
