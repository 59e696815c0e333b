//! The four-level bit-parallel automaton, one word per tolerated edit distance.
use vstd::prelude::*;

use crate::bits::subset;

verus! {

/// The state: the positions reached with at most 0, 1, 2 and 3 edits.
pub type Levels = (u32, u32, u32, u32);

/// Before any character: position 0 reached with no edit.
pub open spec fn initial() -> Levels {
    (0x8000_0000u32, 0u32, 0u32, 0u32)
}

/// One character, whose mask is `mask`: each level takes exact matches and wildcard
/// stays at its own cost, substitutions and insertions from the level below, and then
/// deletions from the level below's new value.
pub open spec fn step(s: Levels, mask: u32, eps: u32) -> Levels {
    let a3 = (s.3 & eps) | ((s.3 & mask) >> 1u32) | (s.2 >> 1u32) | s.2;
    let a2 = (s.2 & eps) | ((s.2 & mask) >> 1u32) | (s.1 >> 1u32) | s.1;
    let a1 = (s.1 & eps) | ((s.1 & mask) >> 1u32) | (s.0 >> 1u32) | s.0;
    let n0 = (s.0 & eps) | ((s.0 & mask) >> 1u32);
    let n1 = a1 | (n0 >> 1u32);
    let n2 = a2 | (n1 >> 1u32);
    let n3 = a3 | (n2 >> 1u32);
    (n0, n1, n2, n3)
}

/// The state after the characters whose masks are `masks`, in order.
pub open spec fn run(masks: Seq<u32>, eps: u32) -> Levels
    decreases masks.len(),
{
    if masks.len() == 0 {
        initial()
    } else {
        step(run(masks.drop_last(), eps), masks.last(), eps)
    }
}

/// The word of level `d`, for `d` up to 3.
pub open spec fn level(s: Levels, d: nat) -> u32 {
    if d == 0 {
        s.0
    } else if d == 1 {
        s.1
    } else if d == 2 {
        s.2
    } else {
        s.3
    }
}

/// Level `d` holds every position of the level below it, for each `d` from 1 to `n`.
pub open spec fn nested_up_to(s: Levels, n: nat) -> bool {
    &&& n >= 1 ==> subset(s.0, s.1)
    &&& n >= 2 ==> subset(s.1, s.2)
    &&& n >= 3 ==> subset(s.2, s.3)
}

/// One step nests the first level in the second, and carries each nesting one level up.
pub proof fn lemma_step_nests(s: Levels, mask: u32, eps: u32, n: nat)
    requires
        nested_up_to(s, n),
    ensures
        nested_up_to(step(s, mask, eps), n + 1),
{
    let (i0, i1, i2, i3) = s;
    let t = step(s, mask, eps);
    let (n0, n1, n2, n3) = t;
    assert(n0 == (i0 & eps) | ((i0 & mask) >> 1u32));
    assert(n1 == (i1 & eps) | ((i1 & mask) >> 1u32) | (i0 >> 1u32) | i0 | (n0 >> 1u32));
    assert(n2 == (i2 & eps) | ((i2 & mask) >> 1u32) | (i1 >> 1u32) | i1 | (n1 >> 1u32));
    assert(n3 == (i3 & eps) | ((i3 & mask) >> 1u32) | (i2 >> 1u32) | i2 | (n2 >> 1u32));
    assert(n0 & !n1 == 0u32) by (bit_vector)
        requires
            n0 == (i0 & eps) | ((i0 & mask) >> 1u32),
            n1 == (i1 & eps) | ((i1 & mask) >> 1u32) | (i0 >> 1u32) | i0 | (n0 >> 1u32),
    ;
    if n >= 1 {
        assert(n1 & !n2 == 0u32) by (bit_vector)
            requires
                i0 & !i1 == 0u32,
                n0 == (i0 & eps) | ((i0 & mask) >> 1u32),
                n1 == (i1 & eps) | ((i1 & mask) >> 1u32) | (i0 >> 1u32) | i0 | (n0 >> 1u32),
                n2 == (i2 & eps) | ((i2 & mask) >> 1u32) | (i1 >> 1u32) | i1 | (n1 >> 1u32),
        ;
    }
    if n >= 2 {
        assert(n2 & !n3 == 0u32) by (bit_vector)
            requires
                i1 & !i2 == 0u32,
                n1 & !n2 == 0u32,
                n2 == (i2 & eps) | ((i2 & mask) >> 1u32) | (i1 >> 1u32) | i1 | (n1 >> 1u32),
                n3 == (i3 & eps) | ((i3 & mask) >> 1u32) | (i2 >> 1u32) | i2 | (n2 >> 1u32),
        ;
    }
}

/// After `n` characters, level `d` holds every position of level `d - 1`, for `d <= n`.
pub proof fn lemma_run_nests(masks: Seq<u32>, eps: u32)
    ensures
        nested_up_to(run(masks, eps), masks.len()),
    decreases masks.len(),
{
    if masks.len() > 0 {
        lemma_run_nests(masks.drop_last(), eps);
        lemma_step_nests(run(masks.drop_last(), eps), masks.last(), eps, masks.drop_last().len());
    }
}

} // verus!
