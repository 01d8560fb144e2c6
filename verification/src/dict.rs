//! Building the dictionary from a raw word-list blob.
//!
//! The blob is a newline-delimited text. Each line is normalized like a
//! guess word ([`crate::text::clean_str`]) and kept only when exactly five
//! letters remain.

use vstd::prelude::*;
use crate::text::{clean_of, clean_str, push_char};

verus! {

/// How many letters every playable word has.
pub const WORD_SIZE: usize = 5;

/// The views of a vector of words.
pub open spec fn words_view(v: Seq<String>) -> Seq<Seq<char>> {
    v.map_values(|s: String| s@)
}

/// A playable word: exactly five letters long.
pub open spec fn is_word_len(w: Seq<char>) -> bool {
    w.len() == WORD_SIZE
}

/// The lines of a text, split on `'\n'`. A trailing newline yields a final
/// empty line, and an empty text is one empty line.
pub open spec fn split_lines(s: Seq<char>) -> Seq<Seq<char>>
    decreases s.len(),
{
    if s.len() == 0 {
        seq![Seq::empty()]
    } else if s.last() == '\n' {
        split_lines(s.drop_last()).push(Seq::empty())
    } else {
        let r = split_lines(s.drop_last());
        r.update(r.len() - 1, r.last().push(s.last()))
    }
}

/// The dictionary a raw blob yields: every line normalized, keeping the
/// five-letter words.
pub open spec fn dict_of(s: Seq<char>) -> Seq<Seq<char>> {
    split_lines(s).map_values(|l: Seq<char>| clean_of(l)).filter(|w: Seq<char>| is_word_len(w))
}

/// Split a text into its lines, on `'\n'`.
fn split_to_lines(raw: &str) -> (r: Vec<String>)
    ensures
        words_view(r@) == split_lines(raw@),
{
    let n: usize = raw.unicode_len();
    let mut lines: Vec<String> = Vec::new();
    let mut cur: String = String::new();
    let mut i: usize = 0;
    while i < n
        invariant
            n == raw@.len(),
            i <= n,
            words_view(lines@).push(cur@) =~= split_lines(raw@.take(i as int)),
        decreases n - i,
    {
        let c = raw.get_char(i);
        proof {
            assert(raw@.take(i + 1).drop_last() =~= raw@.take(i as int));
            assert(raw@.take(i + 1).last() == raw@[i as int]);
        }
        if c == '\n' {
            let ghost old_lines = lines@;
            let ghost old_cur = cur@;
            lines.push(cur);
            cur = String::new();
            proof {
                assert(words_view(lines@).push(cur@) =~= words_view(old_lines).push(
                    old_cur,
                ).push(Seq::empty()));
            }
        } else {
            let ghost old_cur = cur@;
            push_char(&mut cur, c);
            proof {
                let r = split_lines(raw@.take(i as int));
                assert(words_view(lines@).push(cur@) =~= r.update(
                    r.len() - 1,
                    r.last().push(raw@[i as int]),
                ));
            }
        }
        i = i + 1;
    }
    proof {
        assert(raw@.take(n as int) =~= raw@);
    }
    lines.push(cur);
    proof {
        assert(words_view(lines@) =~= split_lines(raw@));
    }
    lines
}

/// Build the dictionary out of a newline-delimited blob: normalize every
/// line and keep exactly the five-letter words, in their order.
pub fn parse_dictionary(raw: &str) -> (r: Vec<String>)
    ensures
        words_view(r@) == dict_of(raw@),
{
    let lines = split_to_lines(raw);
    let mut out: Vec<String> = Vec::new();
    let ghost cleaned = split_lines(raw@).map_values(|l: Seq<char>| clean_of(l));
    let mut k: usize = 0;
    while k < lines.len()
        invariant
            words_view(lines@) == split_lines(raw@),
            cleaned == split_lines(raw@).map_values(|l: Seq<char>| clean_of(l)),
            k <= lines.len(),
            cleaned.len() == lines.len(),
            words_view(out@) == cleaned.take(k as int).filter(|w: Seq<char>| is_word_len(w)),
        decreases lines.len() - k,
    {
        let w = clean_str(lines[k].as_str());
        proof {
            assert(words_view(lines@)[k as int] == lines@[k as int]@);
            assert(cleaned[k as int] == clean_of(lines@[k as int]@));
            assert(cleaned.take(k + 1).drop_last() =~= cleaned.take(k as int));
            assert(cleaned.take(k + 1).last() == cleaned[k as int]);
            reveal_with_fuel(Seq::filter, 2);
        }
        if w.as_str().unicode_len() == WORD_SIZE {
            let ghost old_out = out@;
            out.push(w);
            proof {
                assert(words_view(out@) =~= words_view(old_out).push(w@));
            }
        }
        k = k + 1;
    }
    proof {
        assert(cleaned.take(lines@.len() as int) =~= cleaned);
    }
    out
}

/// Whether a word stands in the dictionary.
pub fn dict_contains(dict: &Vec<String>, w: &String) -> (r: bool)
    ensures
        r == words_view(dict@).contains(w@),
{
    let mut k: usize = 0;
    while k < dict.len()
        invariant
            k <= dict.len(),
            forall|j: int| 0 <= j < k ==> words_view(dict@)[j] != w@,
        decreases dict.len() - k,
    {
        if dict[k] == *w {
            proof {
                assert(words_view(dict@)[k as int] == w@);
            }
            return true;
        }
        proof {
            assert(words_view(dict@)[k as int] == dict@[k as int]@);
        }
        k = k + 1;
    }
    false
}

} // verus!
