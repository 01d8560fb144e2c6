//! Scoring one guess against the target, and aggregating all guesses into
//! the best-known status per letter.
//!
//! One occurrence of a letter is scored by position: `Green` when it sits in
//! the target's position, `Yellow` when the target merely contains it, `Red`
//! otherwise. No duplicate-letter budgeting is done: every occurrence is
//! scored on its own against the whole target. Across guesses, a letter's
//! board entry is the most informative status any of its occurrences ever
//! earned, so a later, less informative guess never downgrades it.

use vstd::prelude::*;
use crate::color::{Color, opt_color_max, opt_rank};
use crate::dict::WORD_SIZE;

verus! {

/// The color position `i` of guess `g` earns against target `t`.
pub open spec fn letter_color(t: Seq<char>, g: Seq<char>, i: int) -> Color
    recommends
        0 <= i < g.len(),
        g.len() == t.len(),
{
    if t[i] == g[i] {
        Color::Green
    } else if t.contains(g[i]) {
        Color::Yellow
    } else {
        Color::Red
    }
}

/// Letter `c` stands in its right position somewhere in guess `g`.
pub open spec fn green_in_guess(t: Seq<char>, g: Seq<char>, c: char) -> bool {
    exists|i: int| 0 <= i < g.len() && i < t.len() && g[i] == c && t[i] == c
}

/// The best status one guess yields for letter `c`: the most informative
/// color over all of `c`'s occurrences in `g`, or nothing when `g` does not
/// contain `c`.
pub open spec fn guess_status(t: Seq<char>, g: Seq<char>, c: char) -> Option<Color> {
    if !g.contains(c) {
        None
    } else if green_in_guess(t, g, c) {
        Some(Color::Green)
    } else if t.contains(c) {
        Some(Color::Yellow)
    } else {
        Some(Color::Red)
    }
}

/// Letter `c` occurs in some guess of the history.
pub open spec fn guessed_in(gs: Seq<Seq<char>>, c: char) -> bool {
    exists|k: int| 0 <= k < gs.len() && gs[k].contains(c)
}

/// Letter `c` stands in its right position somewhere in the history.
pub open spec fn any_green(t: Seq<char>, gs: Seq<Seq<char>>, c: char) -> bool {
    exists|k: int| 0 <= k < gs.len() && green_in_guess(t, gs[k], c)
}

/// The board entry for letter `c` over the whole history: the most
/// informative status any occurrence of `c` ever earned, or nothing when no
/// guess contains `c`.
pub open spec fn board_status(t: Seq<char>, gs: Seq<Seq<char>>, c: char) -> Option<Color> {
    if !guessed_in(gs, c) {
        None
    } else if any_green(t, gs, c) {
        Some(Color::Green)
    } else if t.contains(c) {
        Some(Color::Yellow)
    } else {
        Some(Color::Red)
    }
}

pub(crate) proof fn lemma_guessed_push(gs: Seq<Seq<char>>, g: Seq<char>, c: char)
    ensures
        guessed_in(gs.push(g), c) == (guessed_in(gs, c) || g.contains(c)),
{
    if guessed_in(gs.push(g), c) {
        let k = choose|k: int| 0 <= k < gs.push(g).len() && gs.push(g)[k].contains(c);
        if k < gs.len() {
            assert(gs[k].contains(c));
        } else {
            assert(gs.push(g)[k] == g);
        }
    }
    if guessed_in(gs, c) {
        let k = choose|k: int| 0 <= k < gs.len() && gs[k].contains(c);
        assert(gs.push(g)[k].contains(c));
    }
    if g.contains(c) {
        assert(gs.push(g)[gs.len() as int].contains(c));
    }
}

pub(crate) proof fn lemma_green_push(t: Seq<char>, gs: Seq<Seq<char>>, g: Seq<char>, c: char)
    ensures
        any_green(t, gs.push(g), c) == (any_green(t, gs, c) || green_in_guess(t, g, c)),
{
    if any_green(t, gs.push(g), c) {
        let k = choose|k: int| 0 <= k < gs.push(g).len() && green_in_guess(t, gs.push(g)[k], c);
        if k < gs.len() {
            assert(green_in_guess(t, gs[k], c));
        } else {
            assert(gs.push(g)[k] == g);
        }
    }
    if any_green(t, gs, c) {
        let k = choose|k: int| 0 <= k < gs.len() && green_in_guess(t, gs[k], c);
        assert(green_in_guess(t, gs.push(g)[k], c));
    }
    if green_in_guess(t, g, c) {
        assert(green_in_guess(t, gs.push(g)[gs.len() as int], c));
    }
}

/// Law: folding one more guess into the board is the same as recomputing
/// the board over the extended history — the entry for every letter becomes
/// the more informative of its old entry and what the new guess yields.
pub proof fn lemma_board_merge(t: Seq<char>, gs: Seq<Seq<char>>, g: Seq<char>, c: char)
    ensures
        board_status(t, gs.push(g), c) == opt_color_max(
            board_status(t, gs, c),
            guess_status(t, g, c),
        ),
{
    lemma_guessed_push(gs, g, c);
    lemma_green_push(t, gs, g, c);
}

/// Law: after two guesses, a letter's board entry is the more informative
/// of the statuses the two guesses yield on their own, whichever of the two
/// was processed first.
pub proof fn lemma_aggregation_monotone(t: Seq<char>, g1: Seq<char>, g2: Seq<char>, c: char)
    ensures
        board_status(t, seq![g1, g2], c) == opt_color_max(
            guess_status(t, g1, c),
            guess_status(t, g2, c),
        ),
        board_status(t, seq![g1, g2], c) == board_status(t, seq![g2, g1], c),
{
    let e = Seq::<Seq<char>>::empty();
    assert(!guessed_in(e, c));
    lemma_board_merge(t, e, g1, c);
    lemma_board_merge(t, e.push(g1), g2, c);
    lemma_board_merge(t, e, g2, c);
    lemma_board_merge(t, e.push(g2), g1, c);
    assert(e.push(g1).push(g2) =~= seq![g1, g2]);
    assert(e.push(g2).push(g1) =~= seq![g2, g1]);
}

/// Law: the status one guess yields for a letter is exactly the
/// most informative per-position color among that letter's occurrences:
/// it bounds every occurrence's color from above and some occurrence
/// attains it.
pub proof fn lemma_guess_status_is_occurrence_max(t: Seq<char>, g: Seq<char>, c: char)
    requires
        g.contains(c),
        g.len() == t.len(),
    ensures
        forall|j: int|
            0 <= j < g.len() && g[j] == c ==> (#[trigger] letter_color(t, g, j)).rank()
                <= opt_rank(guess_status(t, g, c)),
        exists|j: int|
            0 <= j < g.len() && g[j] == c && guess_status(t, g, c) == Some(
                #[trigger] letter_color(t, g, j),
            ),
{
    assert forall|j: int| 0 <= j < g.len() && g[j] == c implies (#[trigger] letter_color(
        t,
        g,
        j,
    )).rank() <= opt_rank(guess_status(t, g, c)) by {
        if t[j] == g[j] {
            assert(green_in_guess(t, g, c));
        } else if t.contains(g[j]) {
            assert(t.contains(c));
        }
    }
    if green_in_guess(t, g, c) {
        let j = choose|j: int| 0 <= j < g.len() && j < t.len() && g[j] == c && t[j] == c;
        assert(guess_status(t, g, c) == Some(letter_color(t, g, j)));
    } else {
        let j = choose|j: int| 0 <= j < g.len() && g[j] == c;
        assert(guess_status(t, g, c) == Some(letter_color(t, g, j)));
    }
}

/// Law: the board entry for a letter is exactly the most informative status
/// any single guess yields for it: it bounds every guess's status from
/// above, some guess attains it, and it is absent exactly when no guess
/// contains the letter.
pub proof fn lemma_board_is_guess_max(t: Seq<char>, gs: Seq<Seq<char>>, c: char)
    ensures
        forall|k: int|
            0 <= k < gs.len() ==> opt_rank(guess_status(t, #[trigger] gs[k], c)) <= opt_rank(
                board_status(t, gs, c),
            ),
        guessed_in(gs, c) ==> exists|k: int|
            0 <= k < gs.len() && board_status(t, gs, c) == guess_status(t, #[trigger] gs[k], c),
        !guessed_in(gs, c) ==> board_status(t, gs, c) is None,
{
    assert forall|k: int| 0 <= k < gs.len() implies opt_rank(
        guess_status(t, #[trigger] gs[k], c),
    ) <= opt_rank(board_status(t, gs, c)) by {
        if gs[k].contains(c) {
            assert(guessed_in(gs, c));
            if green_in_guess(t, gs[k], c) {
                assert(any_green(t, gs, c));
            } else if t.contains(c) {
                assert(guess_status(t, gs[k], c) == Some(Color::Yellow));
            }
        }
    }
    if guessed_in(gs, c) {
        if any_green(t, gs, c) {
            let k = choose|k: int| 0 <= k < gs.len() && green_in_guess(t, gs[k], c);
            let j = choose|j: int|
                0 <= j < gs[k].len() && j < t.len() && gs[k][j] == c && t[j] == c;
            assert(gs[k].contains(c));
            assert(board_status(t, gs, c) == guess_status(t, gs[k], c));
        } else {
            let k = choose|k: int| 0 <= k < gs.len() && gs[k].contains(c);
            assert(board_status(t, gs, c) == guess_status(t, gs[k], c));
        }
    }
}

/// Law: a guess identical to the target earns `Green` at every position.
pub proof fn lemma_score_self(t: Seq<char>)
    ensures
        forall|i: int| 0 <= i < t.len() ==> letter_color(t, t, i) == Color::Green,
{
}

/// Whether a string contains a character.
pub fn str_contains_char(s: &str, c: char) -> (r: bool)
    ensures
        r == s@.contains(c),
{
    let n: usize = s.unicode_len();
    let mut j: usize = 0;
    while j < n
        invariant
            n == s@.len(),
            j <= n,
            forall|j2: int| 0 <= j2 < j ==> s@[j2] != c,
        decreases n - j,
    {
        if s.get_char(j) == c {
            return true;
        }
        j = j + 1;
    }
    false
}

/// Score one guess against the target, letter by position.
pub fn score(guess: &str, target: &str) -> (r: Vec<Color>)
    requires
        guess@.len() == WORD_SIZE,
        target@.len() == WORD_SIZE,
    ensures
        r@.len() == guess@.len(),
        forall|i: int| 0 <= i < r@.len() ==> r@[i] == letter_color(target@, guess@, i),
{
    let mut r: Vec<Color> = Vec::new();
    let mut i: usize = 0;
    while i < WORD_SIZE
        invariant
            guess@.len() == WORD_SIZE,
            target@.len() == WORD_SIZE,
            i <= WORD_SIZE,
            r@.len() == i,
            forall|j: int| 0 <= j < i ==> r@[j] == letter_color(target@, guess@, j),
        decreases WORD_SIZE - i,
    {
        let c = guess.get_char(i);
        if target.get_char(i) == c {
            r.push(Color::Green);
        } else if str_contains_char(target, c) {
            r.push(Color::Yellow);
        } else {
            r.push(Color::Red);
        }
        i = i + 1;
    }
    r
}

} // verus!
