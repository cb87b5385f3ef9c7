//! Join-code generation: short, human-typable codes of six characters drawn
//! from the uppercase letters and the decimal digits.

use vstd::prelude::*;
use rand::Rng;

verus! {

/// Number of characters in a join code.
pub const CODE_LEN: usize = 6;

/// Size of the code alphabet: 26 uppercase letters plus 10 digits.
pub const CODE_ALPHABET_SIZE: usize = 36;

/// A character is a code character when it is an uppercase ASCII letter or
/// an ASCII digit.
pub open spec fn is_code_char(c: char) -> bool {
    ||| ('A' as u32 <= c as u32 && c as u32 <= 'Z' as u32)
    ||| ('0' as u32 <= c as u32 && c as u32 <= '9' as u32)
}

/// The code character that a draw of `i` (with `0 <= i < 36`) maps to:
/// `0..26` give `'A'..'Z'`, `26..36` give `'0'..'9'`.
pub open spec fn code_char_at(i: int) -> char {
    if i < 26 {
        (('A' as u32) + i) as char
    } else {
        (('0' as u32) + (i - 26)) as char
    }
}

/// A valid join code: exactly `CODE_LEN` characters, each from the alphabet.
pub open spec fn is_valid_code(s: Seq<char>) -> bool {
    &&& s.len() == CODE_LEN
    &&& forall|i: int| 0 <= i < s.len() ==> is_code_char(#[trigger] s[i])
}

/// Every draw below the alphabet size maps to a character of the alphabet.
pub proof fn lemma_code_char_at_valid(i: int)
    requires
        0 <= i < CODE_ALPHABET_SIZE,
    ensures
        is_code_char(code_char_at(i)),
{
}

/// Relies on `rand::Rng::gen_range` over `0..n`: the sample lies in the
/// (non-empty) range. Nothing further is assumed of the draw.
#[verifier::external_body]
fn random_below(n: usize) -> (r: usize)
    requires
        n > 0,
    ensures
        r < n,
{
    rand::thread_rng().gen_range(0..n)
}

/// Maps a draw to its code character, executably.
fn code_char(i: usize) -> (c: char)
    requires
        i < CODE_ALPHABET_SIZE,
    ensures
        c == code_char_at(i as int),
{
    let b: u8 = if i < 26 {
        65 + (i as u8)
    } else {
        48 + ((i - 26) as u8)
    };
    b as char
}

/// Relies on `String::push`: appends the given character to the end of the
/// string, changing nothing else.
#[verifier::external_body]
fn push_char(s: &mut String, c: char)
    ensures
        final(s)@ == old(s)@.push(c),
{
    s.push(c);
}

/// Produces a fresh join code: six characters, each drawn from the
/// 36-character alphabet by an independent random draw.
pub fn generate_code() -> (code: String)
    ensures
        is_valid_code(code@),
{
    let mut s = String::new();
    let mut k: usize = 0;
    while k < CODE_LEN
        invariant
            k <= CODE_LEN,
            s@.len() == k,
            forall|j: int| 0 <= j < k ==> is_code_char(#[trigger] s@[j]),
        decreases CODE_LEN - k,
    {
        let i = random_below(CODE_ALPHABET_SIZE);
        proof {
            lemma_code_char_at_valid(i as int);
        }
        let c = code_char(i);
        push_char(&mut s, c);
        k += 1;
    }
    s
}

} // verus!
