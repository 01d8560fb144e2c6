//! Normalization of raw player input and dictionary lines.
//!
//! A word of this game is a sequence of ASCII uppercase letters. Guesses and
//! dictionary lines go through one and the same normalization,
//! [`clean_str`]: uppercase, then drop every character that is not an ASCII
//! letter (which also disposes of surrounding whitespace).

use vstd::prelude::*;

verus! {

/// An ASCII uppercase letter.
pub open spec fn is_upper_alpha(c: char) -> bool {
    'A' <= c && c <= 'Z'
}

/// An ASCII lowercase letter.
pub open spec fn is_lower_alpha(c: char) -> bool {
    'a' <= c && c <= 'z'
}

/// The ASCII uppercase counterpart of a character; characters without one
/// are left unchanged.
pub open spec fn upper_char(c: char) -> char {
    if is_lower_alpha(c) {
        ((c as u8) - 0x20) as char
    } else {
        c
    }
}

/// Every character of a sequence, uppercased.
pub open spec fn upper_seq(s: Seq<char>) -> Seq<char> {
    s.map_values(|c: char| upper_char(c))
}

/// Uppercase a sequence and keep only its ASCII letters.
pub open spec fn clean_of(s: Seq<char>) -> Seq<char> {
    upper_seq(s).filter(|c: char| is_upper_alpha(c))
}

/// Every character is an ASCII uppercase letter.
pub open spec fn all_letters(w: Seq<char>) -> bool {
    forall|i: int| 0 <= i < w.len() ==> is_upper_alpha(w[i])
}

/// Law: normalization yields nothing but ASCII uppercase letters, whatever
/// the input held.
pub proof fn lemma_clean_all_letters(s: Seq<char>)
    ensures
        all_letters(clean_of(s)),
{
    assert forall|i: int| 0 <= i < clean_of(s).len() implies is_upper_alpha(clean_of(s)[i]) by {
        upper_seq(s).lemma_filter_pred(|c: char| is_upper_alpha(c), i);
    }
}

/// The uppercase counterpart of one character.
fn upper_char_exec(c: char) -> (r: char)
    ensures
        r == upper_char(c),
{
    if 'a' <= c && c <= 'z' {
        ((c as u8) - 0x20) as char
    } else {
        c
    }
}

/// Uppercase a string and keep only its ASCII letters; whitespace and any
/// other stray characters are dropped wherever they stand.
pub fn clean_str(str: &str) -> (r: String)
    ensures
        r@ == clean_of(str@),
{
    let n: usize = str.unicode_len();
    let mut out = String::new();
    let mut i: usize = 0;
    while i < n
        invariant
            n == str@.len(),
            i <= n,
            out@ == clean_of(str@.take(i as int)),
        decreases n - i,
    {
        let c = upper_char_exec(str.get_char(i));
        proof {
            assert(str@.take(i + 1).drop_last() =~= str@.take(i as int));
            assert(upper_seq(str@.take(i + 1)).drop_last() =~= upper_seq(
                str@.take(i + 1).drop_last(),
            ));
            reveal_with_fuel(Seq::filter, 2);
            assert(upper_seq(str@.take(i + 1)).last() == upper_char(str@[i as int]));
        }
        if 'A' <= c && c <= 'Z' {
            push_char(&mut out, c);
        }
        i = i + 1;
    }
    proof {
        assert(str@.take(n as int) =~= str@);
    }
    out
}

/// Relies on `String::push`: appends exactly one character at the end.
#[verifier::external_body]
pub(crate) fn push_char(s: &mut String, c: char)
    ensures
        final(s)@ == old(s)@.push(c),
{
    s.push(c)
}

} // verus!
