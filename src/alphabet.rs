use vstd::prelude::*;

verus! {

/// Number of printable ASCII characters, `'!'` through `'~'`.
pub const ALPHABET_LEN: usize = 94;

/// Code point of the first character of the alphabet, `'!'`.
pub const FIRST_CODE: u32 = 0x21;

/// Whether `c` is a printable ASCII character other than space.
pub open spec fn is_alpha(c: char) -> bool {
    FIRST_CODE <= (c as u32) < FIRST_CODE + ALPHABET_LEN
}

/// Position of an alphabet character in the alphabet's order.
pub open spec fn alpha_index(c: char) -> int {
    (c as u32) - FIRST_CODE
}

/// The alphabet character at position `i`.
pub open spec fn alpha_at(i: int) -> char {
    ((FIRST_CODE + i) as u8) as char
}

/// Two alphabet characters at the same position are the same character.
pub proof fn lemma_alpha_injective(a: char, b: char)
    requires
        is_alpha(a),
        is_alpha(b),
        alpha_index(a) == alpha_index(b),
    ensures
        a == b,
{
    assert((a as u32) == (b as u32));
    assert(alpha_at(alpha_index(a)) == a);
    assert(alpha_at(alpha_index(b)) == b);
}

/// Executable membership test for the alphabet.
pub fn in_alphabet(c: char) -> (r: bool)
    ensures
        r == is_alpha(c),
{
    let v = c as u32;
    FIRST_CODE <= v && v < FIRST_CODE + ALPHABET_LEN as u32
}

/// Position of `c` in the alphabet.
pub fn index_of(c: char) -> (r: usize)
    requires
        is_alpha(c),
    ensures
        r == alpha_index(c),
        r < ALPHABET_LEN,
        alpha_at(r as int) == c,
{
    ((c as u32) - FIRST_CODE) as usize
}

/// The character at position `i` of the alphabet.
pub fn char_at(i: usize) -> (r: char)
    requires
        i < ALPHABET_LEN,
    ensures
        r == alpha_at(i as int),
        is_alpha(r),
        alpha_index(r) == i,
{
    ((FIRST_CODE as usize + i) as u8) as char
}

} // verus!
