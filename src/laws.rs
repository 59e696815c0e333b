//! What holds of every compiled pattern and text.
use vstd::prelude::*;

use crate::automaton::{lemma_run_nests, level, run};
use crate::bits::{has_bit, lemma_advance_pos_bit, lemma_pos_bits_overlap, pos_bit, subset};
use crate::codepoint::{codepoints, folds_to, WILDCARD};
use crate::{literals, wild_positions, Asearch, Compiled, MAXCHAR};

verus! {

/// Any edit bound above 3 gives the answer of bound 3.
pub proof fn lemma_ambiguity_clamped(a: Asearch, text: Seq<char>, ambig: u8)
    requires
        ambig >= 3,
    ensures
        a@.found(text, ambig) == a@.found(text, 3),
{
}

/// One more edit allowed never loses a match, for a bound below the text's length. (On
/// shorter texts the upper levels have not yet taken in the start position: pattern
/// "a" matches text "x" with two edits, not with three.)
pub proof fn lemma_more_edits_keep_match(a: Asearch, text: Seq<char>, k: u8)
    requires
        k < 3,
        k < text.len(),
        a@.found(text, k),
    ensures
        a@.found(text, (k + 1) as u8),
{
    let masks = a@.masks(codepoints(text));
    lemma_run_nests(masks, a@.epsilon);
    let s = run(masks, a@.epsilon);
    let lo = level(s, k as nat);
    let hi = level(s, (k + 1) as nat);
    let acc = a@.accept;
    assert(subset(lo, hi));
    assert((lo & !hi) == 0u32 && (lo & acc) != 0u32 ==> (hi & acc) != 0u32) by (bit_vector);
}

/// A literal outside ASCII matches only its own codepoint: it gets no case variants.
pub proof fn lemma_non_ascii_literal_exact(a: Asearch, pattern: Seq<char>, j: nat, c: u32)
    requires
        a@.compiled_from(pattern),
        j < 32,
        j < literals(codepoints(pattern)).len(),
        literals(codepoints(pattern))[j as int] >= 0x80,
        c < MAXCHAR,
    ensures
        has_bit(a@.table[c as int], j) <==> c == literals(codepoints(pattern))[j as int],
{
}

/// `t` agrees with the start of `p` up to ASCII case, position by position.
pub open spec fn prefix_folds(t: Seq<u32>, p: Seq<u32>) -> bool {
    &&& t.len() <= p.len()
    &&& forall|i: int| 0 <= i < t.len() ==> folds_to(#[trigger] t[i], p[i])
}

/// A pattern without wildcards is its own literals, with no wildcard position.
proof fn lemma_plain_pattern(p: Seq<u32>)
    requires
        forall|i: int| 0 <= i < p.len() ==> p[i] != WILDCARD,
    ensures
        literals(p) == p,
        wild_positions(p) == Set::<nat>::empty(),
    decreases p.len(),
{
    if p.len() > 0 {
        lemma_plain_pattern(p.drop_last());
        assert(p.drop_last().push(p.last()) =~= p);
    }
}

/// With no wildcard, level 0 holds the text's length exactly while the text agrees with
/// the start of the pattern, and nothing otherwise.
proof fn lemma_level_zero(c: Compiled, p: Seq<u32>, t: Seq<u32>)
    requires
        c.wf(),
        p.len() < 32,
        forall|i: int| 0 <= i < p.len() ==> p[i] < MAXCHAR,
        forall|j: nat| j < 32 ==> !has_bit(c.epsilon, j),
        forall|d: u32, j: nat|
            d < MAXCHAR && j < 32 ==> (#[trigger] has_bit(c.table[d as int], j) <==> (j < p.len()
                && folds_to(d, p[j as int]))),
    ensures
        run(c.masks(t), c.epsilon).0 == (if prefix_folds(t, p) {
            pos_bit(t.len())
        } else {
            0u32
        }),
    decreases t.len(),
{
    if t.len() > 0 {
        let t0 = t.drop_last();
        let n = t0.len();
        let ch = t.last();
        lemma_level_zero(c, p, t0);
        assert(c.masks(t).drop_last() =~= c.masks(t0));
        let x = run(c.masks(t0), c.epsilon).0;
        let m = c.mask_of(ch);
        let eps = c.epsilon;
        assert(run(c.masks(t), c.epsilon).0 == (x & eps) | ((x & m) >> 1u32));
        if prefix_folds(t0, p) {
            assert(!has_bit(eps, n));
            assert((eps & x) == 0u32 ==> (x & eps) | ((x & m) >> 1u32) == ((x & m) >> 1u32))
                by (bit_vector);
            lemma_advance_pos_bit(m, n);
            let matched = n < p.len() && folds_to(ch, p[n as int]);
            if ch < MAXCHAR {
                assert(has_bit(m, n) <==> matched);
            } else {
                assert(!has_bit(0u32, n)) by {
                    let y = pos_bit(n);
                    assert(0u32 & y == 0u32) by (bit_vector);
                }
                assert(!matched);
            }
            if matched {
                assert forall|i: int| 0 <= i < t.len() implies folds_to(#[trigger] t[i], p[i]) by {
                    if i < n {
                        assert(t[i] == t0[i]);
                    }
                }
                assert(prefix_folds(t, p));
                assert(run(c.masks(t), c.epsilon).0 == pos_bit(t.len()));
            } else {
                assert(!prefix_folds(t, p)) by {
                    if t.len() <= p.len() {
                        assert(!folds_to(t[n as int], p[n as int]));
                    }
                }
                assert(run(c.masks(t), c.epsilon).0 == 0u32);
            }
        } else {
            assert((0u32 & eps) | ((0u32 & m) >> 1u32) == 0u32) by (bit_vector);
            assert(!prefix_folds(t, p)) by {
                if t.len() <= p.len() {
                    assert(exists|i: int| 0 <= i < n && !folds_to(#[trigger] t0[i], p[i]));
                    let i = choose|i: int| 0 <= i < n && !folds_to(#[trigger] t0[i], p[i]);
                    assert(t[i] == t0[i]);
                }
            }
            assert(run(c.masks(t), c.epsilon).0 == 0u32);
        }
    } else {
        assert(c.masks(t) =~= Seq::<u32>::empty());
        assert(0x8000_0000u32 >> 0u32 == 0x8000_0000u32) by (bit_vector);
    }
}

/// A pattern without wildcards, of fewer than 32 characters, matches with no edit
/// exactly the texts of its length that agree with it position by position up to ASCII
/// case: any insertion, deletion, or substitution by a character of another case class
/// is rejected.
pub proof fn lemma_exact_match(a: Asearch, pattern: Seq<char>, text: Seq<char>)
    requires
        a@.compiled_from(pattern),
        pattern.len() < 32,
        forall|i: int| 0 <= i < pattern.len() ==> (pattern[i] as u32) < MAXCHAR,
        forall|i: int| 0 <= i < pattern.len() ==> (pattern[i] as u32) != WILDCARD,
    ensures
        a@.found(text, 0) <==> (text.len() == pattern.len() && forall|i: int|
            0 <= i < text.len() ==> folds_to(text[i] as u32, pattern[i] as u32)),
{
    let p = codepoints(pattern);
    let t = codepoints(text);
    assert forall|i: int| 0 <= i < p.len() implies p[i] != WILDCARD by {
        assert(p[i] == pattern[i] as u32);
    }
    lemma_plain_pattern(p);
    assert forall|j: nat| j < 32 implies !has_bit(a@.epsilon, j) by {
        assert(!wild_positions(p).contains(j));
    }
    lemma_level_zero(a@, p, t);
    lemma_pos_bits_overlap(t.len(), p.len());
    let x = run(a@.masks(t), a@.epsilon).0;
    assert(a@.found(text, 0) == ((x & a@.accept) != 0u32));
    assert(t.len() == text.len() && p.len() == pattern.len());
    if !prefix_folds(t, p) {
        let y = pos_bit(p.len());
        assert(0u32 & y == 0u32) by (bit_vector);
    }
    if text.len() == pattern.len() {
        if prefix_folds(t, p) {
            assert forall|i: int| 0 <= i < text.len() implies folds_to(
                #[trigger] (text[i] as u32),
                pattern[i] as u32,
            ) by {
                assert(folds_to(t[i], p[i]));
            }
        }
        if forall|i: int| 0 <= i < text.len() ==> folds_to(#[trigger] (text[i] as u32), pattern[i] as u32) {
            assert forall|i: int| 0 <= i < t.len() implies folds_to(#[trigger] t[i], p[i]) by {
                assert(folds_to(text[i] as u32, pattern[i] as u32));
            }
        }
    }
}

} // verus!
