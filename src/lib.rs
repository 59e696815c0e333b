//! Approximate pattern matching with a bit-parallel automaton.
//!
//! A pattern is compiled once into a table of bit masks, one per codepoint; a text is
//! then matched against it within a bound of zero to three edits. A space in the
//! pattern is a wildcard that absorbs any run of text characters.
use vstd::prelude::*;

pub mod automaton;
pub mod bits;
pub mod codepoint;
pub mod laws;

use crate::automaton::{level, run};
use crate::bits::{has_bit, pos_bit, lemma_or_pos_bit, lemma_shift_pos_bit};
use crate::codepoint::{codepoints, folds_to, to_lower, to_upper, unpack, WILDCARD};

verus! {

/// Number of codepoints the mask table covers.
pub const MAXCHAR: usize = 0x10000;

/// The word with only position 0 set: the start of the pattern.
pub const INITPAT: u32 = 0x8000_0000;

/// The literal (non-wildcard) codepoints of a pattern, in order.
pub open spec fn literals(p: Seq<u32>) -> Seq<u32>
    decreases p.len(),
{
    if p.len() == 0 {
        seq![]
    } else if p.last() == WILDCARD {
        literals(p.drop_last())
    } else {
        literals(p.drop_last()).push(p.last())
    }
}

/// The pattern positions that carry a wildcard: for each space, the number of literals
/// before it.
pub open spec fn wild_positions(p: Seq<u32>) -> Set<nat>
    decreases p.len(),
{
    if p.len() == 0 {
        Set::empty()
    } else if p.last() == WILDCARD {
        wild_positions(p.drop_last()).insert(literals(p.drop_last()).len())
    } else {
        wild_positions(p.drop_last())
    }
}

/// What a compiled pattern holds: the mask of each codepoint, the accepting position's
/// bit and the wildcard positions' bits.
pub struct Compiled {
    pub table: Seq<u32>,
    pub accept: u32,
    pub epsilon: u32,
}

impl Compiled {
    /// The table covers every codepoint below `MAXCHAR`.
    pub open spec fn wf(self) -> bool {
        self.table.len() == MAXCHAR
    }

    /// This is the compilation of `pattern`: bit `j` of the mask of `c` is set when the
    /// `j`-th literal matches `c` up to ASCII case; the wildcard bits mark the wildcard
    /// positions; the accepting bit is the position just past the last literal.
    pub open spec fn compiled_from(self, pattern: Seq<char>) -> bool {
        let lits = literals(codepoints(pattern));
        &&& self.wf()
        &&& forall|c: u32, j: nat|
            c < MAXCHAR && j < 32 ==> (#[trigger] has_bit(self.table[c as int], j) <==> (j
                < lits.len() && folds_to(c, lits[j as int])))
        &&& forall|j: nat|
            j < 32 ==> (#[trigger] has_bit(self.epsilon, j) <==> wild_positions(
                codepoints(pattern),
            ).contains(j))
        &&& self.accept == pos_bit(lits.len())
    }

    /// The mask of codepoint `c`; zero for one past the table, which no pattern holds.
    pub open spec fn mask_of(self, c: u32) -> u32 {
        if c < MAXCHAR {
            self.table[c as int]
        } else {
            0
        }
    }

    /// The masks of a sequence of codepoints.
    pub open spec fn masks(self, cps: Seq<u32>) -> Seq<u32> {
        cps.map_values(|c: u32| self.mask_of(c))
    }

    /// The automaton's state after reading `text`.
    pub open spec fn state_after(self, text: Seq<char>) -> automaton::Levels {
        run(self.masks(codepoints(text)), self.epsilon)
    }

    /// `text` matches with at most `ambig` edits, a bound above 3 counting as 3: the
    /// accepting position is reached at that level.
    pub open spec fn found(self, text: Seq<char>, ambig: u8) -> bool {
        (level(self.state_after(text), clamp(ambig)) & self.accept) != 0
    }
}

/// The highest supported edit bound.
pub const MAX_AMBIG: u8 = 3;

/// An edit bound, clamped to the highest supported one.
pub open spec fn clamp(ambig: u8) -> nat {
    if ambig <= MAX_AMBIG {
        ambig as nat
    } else {
        MAX_AMBIG as nat
    }
}

/// Approximate pattern matching engine: a compiled pattern.
pub struct Asearch {
    shiftpat: Vec<u32>,
    acceptpat: u32,
    epsilon: u32,
}

impl View for Asearch {
    type V = Compiled;

    closed spec fn view(&self) -> Compiled {
        Compiled { table: self.shiftpat@, accept: self.acceptpat, epsilon: self.epsilon }
    }
}

impl Asearch {
    /// The table covers every codepoint below `MAXCHAR`.
    #[verifier::type_invariant]
    spec fn inv(&self) -> bool {
        self.shiftpat.len() == MAXCHAR
    }

    /// Compiles `source`. Every character of it must lie below `MAXCHAR`.
    pub fn new(source: &str) -> (r: Asearch)
        requires
            forall|i: int| 0 <= i < source@.len() ==> (source@[i] as u32) < MAXCHAR,
        ensures
            r@.compiled_from(source@),
    {
        let cps = unpack(source);
        let mut shiftpat: Vec<u32> = Vec::new();
        let mut n: usize = 0;
        while n < MAXCHAR
            invariant
                n <= MAXCHAR,
                shiftpat.len() == n,
                forall|c: int| 0 <= c < n ==> shiftpat[c] == 0,
            decreases MAXCHAR - n,
        {
            shiftpat.push(0);
            n = n + 1;
        }
        proof {
            assert forall|c: u32, j: nat| c < MAXCHAR && j < 32 implies !has_bit(
                shiftpat[c as int],
                j,
            ) by {
                let x = pos_bit(j);
                assert(0u32 & x == 0u32) by (bit_vector);
            }
            assert forall|j: nat| j < 32 implies !has_bit(0u32, j) by {
                let x = pos_bit(j);
                assert(0u32 & x == 0u32) by (bit_vector);
            }
            assert(cps@.take(0) =~= Seq::<u32>::empty());
            assert(0x8000_0000u32 >> 0u32 == 0x8000_0000u32) by (bit_vector);
        }
        let mut mask: u32 = INITPAT;
        let mut epsilon: u32 = 0;
        let mut i: usize = 0;
        while i < cps.len()
            invariant
                i <= cps.len(),
                cps@ == codepoints(source@),
                forall|k: int| 0 <= k < cps.len() ==> cps[k] < MAXCHAR,
                shiftpat.len() == MAXCHAR,
                mask == pos_bit(literals(cps@.take(i as int)).len()),
                forall|c: u32, j: nat|
                    c < MAXCHAR && j < 32 ==> (#[trigger] has_bit(shiftpat[c as int], j) <==> (j
                        < literals(cps@.take(i as int)).len() && folds_to(
                        c,
                        literals(cps@.take(i as int))[j as int],
                    ))),
                forall|j: nat|
                    j < 32 ==> (#[trigger] has_bit(epsilon, j) <==> wild_positions(
                        cps@.take(i as int),
                    ).contains(j)),
            decreases cps.len() - i,
        {
            let item = cps[i];
            let ghost prefix = cps@.take(i as int);
            let ghost lits = literals(prefix);
            let ghost k = lits.len();
            assert(cps@.take(i + 1).drop_last() =~= prefix);
            assert(cps@.take(i + 1).last() == item);
            if item == WILDCARD {
                let ghost old_eps = epsilon;
                epsilon = epsilon | mask;
                proof {
                    assert forall|j: nat| j < 32 implies (#[trigger] has_bit(epsilon, j)
                        <==> wild_positions(cps@.take(i + 1)).contains(j)) by {
                        lemma_or_pos_bit(old_eps, k, j);
                    }
                }
            } else {
                let ghost old_table = shiftpat@;
                let up = to_upper(item);
                let lo = to_lower(item);
                shiftpat[item as usize] = shiftpat[item as usize] | mask;
                if up != item {
                    shiftpat[up as usize] = shiftpat[up as usize] | mask;
                }
                if lo != item {
                    shiftpat[lo as usize] = shiftpat[lo as usize] | mask;
                }
                proof {
                    let lits2 = literals(cps@.take(i + 1));
                    assert(lits2 == lits.push(item));
                    assert forall|c: u32, j: nat| c < MAXCHAR && j < 32 implies (
                    #[trigger] has_bit(shiftpat[c as int], j) <==> (j < lits2.len() && folds_to(
                        c,
                        lits2[j as int],
                    ))) by {
                        if c == item || c == up || c == lo {
                            assert(shiftpat[c as int] == old_table[c as int] | mask);
                            lemma_or_pos_bit(old_table[c as int], k, j);
                        } else {
                            assert(shiftpat[c as int] == old_table[c as int]);
                        }
                    }
                    lemma_shift_pos_bit(k);
                }
                mask = mask >> 1;
            }
            i = i + 1;
        }
        proof {
            assert(cps@.take(cps.len() as int) =~= cps@);
        }
        Asearch { shiftpat, acceptpat: mask, epsilon }
    }

    /// Runs the automaton over the whole of `text`, returning each level's word.
    fn state(&self, text: &str) -> (r: [u32; 4])
        ensures
            r[0] == self@.state_after(text@).0,
            r[1] == self@.state_after(text@).1,
            r[2] == self@.state_after(text@).2,
            r[3] == self@.state_after(text@).3,
    {
        proof {
            use_type_invariant(self);
        }
        let cps = unpack(text);
        let ghost masks = self@.masks(cps@);
        let mut i0: u32 = INITPAT;
        let mut i1: u32 = 0;
        let mut i2: u32 = 0;
        let mut i3: u32 = 0;
        let mut i: usize = 0;
        proof {
            assert(masks.take(0) =~= Seq::<u32>::empty());
        }
        while i < cps.len()
            invariant
                i <= cps.len(),
                self.shiftpat.len() == MAXCHAR,
                masks == self@.masks(cps@),
                (i0, i1, i2, i3) == run(masks.take(i as int), self.epsilon),
            decreases cps.len() - i,
        {
            let item = cps[i];
            let mask = if (item as usize) < MAXCHAR {
                self.shiftpat[item as usize]
            } else {
                0
            };
            assert(masks.take(i + 1).drop_last() =~= masks.take(i as int));
            assert(masks.take(i + 1).last() == mask);
            i3 = (i3 & self.epsilon) | ((i3 & mask) >> 1) | (i2 >> 1) | i2;
            i2 = (i2 & self.epsilon) | ((i2 & mask) >> 1) | (i1 >> 1) | i1;
            i1 = (i1 & self.epsilon) | ((i1 & mask) >> 1) | (i0 >> 1) | i0;
            i0 = (i0 & self.epsilon) | ((i0 & mask) >> 1);
            i1 = i1 | (i0 >> 1);
            i2 = i2 | (i1 >> 1);
            i3 = i3 | (i2 >> 1);
            i = i + 1;
        }
        proof {
            assert(masks.take(cps.len() as int) =~= masks);
        }
        [i0, i1, i2, i3]
    }

    /// Whether `text` matches the pattern with at most `ambig` edits; a bound above 3
    /// counts as 3. A character of `text` at or past `MAXCHAR` matches no literal.
    pub fn find(&self, text: &str, ambig: u8) -> (r: bool)
        ensures
            r == self@.found(text@, ambig),
    {
        let level_index: usize = if ambig <= MAX_AMBIG {
            ambig as usize
        } else {
            MAX_AMBIG as usize
        };
        let s = self.state(text);
        (s[level_index] & self.acceptpat) != 0
    }
}

} // verus!
