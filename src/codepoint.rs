//! Codepoints of a text and ASCII case folding.
use vstd::prelude::*;

verus! {

/// The codepoints of a character sequence, in order.
pub open spec fn codepoints(s: Seq<char>) -> Seq<u32> {
    s.map_values(|c: char| c as u32)
}

/// Converts each character of `text` to its codepoint.
pub fn unpack(text: &str) -> (r: Vec<u32>)
    ensures
        r@ == codepoints(text@),
{
    let mut r: Vec<u32> = Vec::new();
    for c in it: text.chars()
        invariant
            it.seq() == text@,
            r@ == codepoints(text@.take(it.index() as int)),
    {
        proof {
            assert(codepoints(text@.take(it.index() + 1)) =~= codepoints(
                text@.take(it.index() as int),
            ).push(c as u32));
        }
        r.push(c as u32);
    }
    proof {
        assert(text@.take(text@.len() as int) =~= text@);
    }
    r
}

/// The codepoint of the wildcard: a space.
pub const WILDCARD: u32 = 0x20;

/// `c` is an ASCII uppercase letter.
pub open spec fn spec_is_upper(c: u32) -> bool {
    0x41 <= c <= 0x5a
}

/// `c` is an ASCII lowercase letter.
pub open spec fn spec_is_lower(c: u32) -> bool {
    0x61 <= c <= 0x7a
}

/// Lowercase of an ASCII letter; any other codepoint unchanged.
pub open spec fn lower(c: u32) -> u32 {
    if spec_is_upper(c) {
        (c + 0x20) as u32
    } else {
        c
    }
}

/// Uppercase of an ASCII letter; any other codepoint unchanged.
pub open spec fn upper(c: u32) -> u32 {
    if spec_is_lower(c) {
        (c - 0x20) as u32
    } else {
        c
    }
}

/// A text codepoint `c` matches the pattern codepoint `p`: it is `p` or one of its
/// ASCII case variants.
pub open spec fn folds_to(c: u32, p: u32) -> bool {
    c == p || c == upper(p) || c == lower(p)
}

/// Whether `c` is an ASCII uppercase letter.
pub fn is_upper(c: u32) -> (r: bool)
    ensures
        r == spec_is_upper(c),
{
    0x41 <= c && c <= 0x5a
}

/// Whether `c` is an ASCII lowercase letter.
pub fn is_lower(c: u32) -> (r: bool)
    ensures
        r == spec_is_lower(c),
{
    0x61 <= c && c <= 0x7a
}

/// Maps an ASCII uppercase letter to its lowercase; other codepoints pass through.
pub fn to_lower(c: u32) -> (r: u32)
    ensures
        r == lower(c),
{
    if is_upper(c) {
        c + 0x20
    } else {
        c
    }
}

/// Maps an ASCII lowercase letter to its uppercase; other codepoints pass through.
pub fn to_upper(c: u32) -> (r: u32)
    ensures
        r == upper(c),
{
    if is_lower(c) {
        c - 0x20
    } else {
        c
    }
}

} // verus!
