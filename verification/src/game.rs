//! The game session: target word, dictionary, guess history, and the rules
//! for accepting guesses and ending the game.

use vstd::prelude::*;
use rand::Rng;
use crate::color::{Color, GameResult};
use crate::dict::{WORD_SIZE, words_view, dict_of, parse_dictionary, dict_contains};
use crate::scoring::{
    board_status, guessed_in, green_in_guess, any_green, lemma_guessed_push, str_contains_char,
};
use crate::text::{all_letters, clean_of, clean_str, lemma_clean_all_letters};

verus! {

broadcast use vstd::seq_lib::lemma_seq_contains_after_push;

/// How many guesses a session accepts before it is lost.
pub const MAX_GUESSES: usize = 5;

/// Why a submitted guess was not accepted. Normalization strips every
/// character that is no ASCII letter, so non-alphabetic content shows up as
/// a wrong length of what remains.
#[derive(Clone, Copy, Debug, PartialEq, Eq, Structural)]
pub enum GuessError {
    /// The normalized guess is not exactly five letters long.
    WrongLength,
    /// The normalized guess is no word of the dictionary.
    NotInDictionary,
    /// The game has already been won or lost.
    SessionClosed,
}

/// Why no session could be started.
#[derive(Clone, Copy, Debug, PartialEq, Eq, Structural)]
pub enum DictionaryError {
    /// The word list yielded no five-letter word at all.
    Empty,
}

/// One play-through: the secret target word, the dictionary it was drawn
/// from, the accepted guesses in submission order, and every distinct letter
/// that occurs in them.
pub struct GameStruct {
    word: String,
    guessed_letters: Vec<char>,
    guesses: Vec<String>,
    dict: Vec<String>,
}

impl GameStruct {
    /// The target word.
    pub closed spec fn target(self) -> Seq<char> {
        self.word@
    }

    /// The accepted guesses, in submission order.
    pub closed spec fn history(self) -> Seq<Seq<char>> {
        words_view(self.guesses@)
    }

    /// The words a guess is checked against.
    pub closed spec fn dictionary(self) -> Seq<Seq<char>> {
        words_view(self.dict@)
    }

    /// The distinct letters guessed so far.
    pub closed spec fn letters(self) -> Seq<char> {
        self.guessed_letters@
    }

    /// The session's invariant: the target is a five-letter dictionary word,
    /// every accepted guess is five ASCII uppercase letters from the
    /// dictionary, earlier guesses never equal the target, no more guesses
    /// were accepted than the game allows, and the recorded letters are
    /// exactly those of the history, each once.
    pub open spec fn wf(self) -> bool {
        &&& self.target().len() == WORD_SIZE
        &&& self.dictionary().contains(self.target())
        &&& forall|k: int|
            0 <= k < self.history().len() ==> (#[trigger] self.history()[k]).len() == WORD_SIZE
        &&& forall|k: int|
            0 <= k < self.history().len() ==> all_letters(#[trigger] self.history()[k])
        &&& forall|k: int|
            0 <= k < self.history().len() ==> self.dictionary().contains(
                #[trigger] self.history()[k],
            )
        &&& forall|k: int|
            0 <= k < self.history().len() - 1 ==> #[trigger] self.history()[k] != self.target()
        &&& self.history().len() <= MAX_GUESSES
        &&& forall|i: int, j: int|
            0 <= i < j < self.letters().len() ==> self.letters()[i] != self.letters()[j]
        &&& forall|c: char|
            #[trigger] self.letters().contains(c) == guessed_in(self.history(), c)
    }

    /// The outcome the session stands at: a win as soon as the latest
    /// accepted guess equals the target, a loss once five guesses are in and
    /// the latest missed, and nothing while the game is still open.
    pub open spec fn spec_outcome(self) -> Option<GameResult> {
        if self.history().len() > 0 && self.history().last() == self.target() {
            Some(GameResult::Win)
        } else if self.history().len() >= MAX_GUESSES {
            Some(GameResult::Lose)
        } else {
            None
        }
    }

    /// Start a session over the words of a raw dictionary blob: the target
    /// is drawn from them, and the history starts empty. Fails exactly when
    /// the blob yields no word.
    pub fn new(raw: &str) -> (r: Result<GameStruct, DictionaryError>)
        ensures
            match r {
                Ok(g) => {
                    &&& g.wf()
                    &&& g.dictionary() == dict_of(raw@)
                    &&& g.history() == Seq::<Seq<char>>::empty()
                    &&& g.letters() == Seq::<char>::empty()
                },
                Err(e) => e == DictionaryError::Empty,
            },
            r is Err <==> dict_of(raw@).len() == 0,
    {
        let dict = parse_dictionary(raw);
        if dict.len() == 0 {
            return Err(DictionaryError::Empty);
        }
        let idx = rand_between(0, dict.len(), None);
        Ok(Self::with_target_index(raw, idx))
    }

    /// Start a session whose target is the dictionary word at the given
    /// index, with an empty history.
    pub fn with_target_index(raw: &str, idx: usize) -> (g: GameStruct)
        requires
            idx < dict_of(raw@).len(),
        ensures
            g.wf(),
            g.dictionary() == dict_of(raw@),
            g.target() == dict_of(raw@)[idx as int],
            g.history() == Seq::<Seq<char>>::empty(),
            g.letters() == Seq::<char>::empty(),
    {
        let dict = parse_dictionary(raw);
        let word = dict[idx].clone();
        proof {
            let cleaned = crate::dict::split_lines(raw@).map_values(
                |l: Seq<char>| crate::text::clean_of(l),
            );
            cleaned.lemma_filter_pred(|w: Seq<char>| crate::dict::is_word_len(w), idx as int);
            assert(words_view(dict@)[idx as int] == dict@[idx as int]@);
        }
        GameStruct {
            word,
            guessed_letters: Vec::new(),
            guesses: Vec::new(),
            dict,
        }
    }

    /// The outcome so far: `Win` when the latest accepted guess equals the
    /// target, else `Lose` when five guesses are in, else nothing.
    pub fn is_game_over(&self) -> (r: Option<GameResult>)
        ensures
            r == self.spec_outcome(),
    {
        if self.guesses.len() > 0 {
            let last = &self.guesses[self.guesses.len() - 1];
            proof {
                assert(self.history()[self.history().len() - 1] == self.guesses@[
                    self.guesses@.len() - 1
                ]@);
            }
            if *last == self.word {
                return Some(GameResult::Win);
            }
        }
        if self.guesses.len() >= MAX_GUESSES {
            return Some(GameResult::Lose);
        }
        None
    }

    /// Submit one raw line as a guess. The line is normalized like a
    /// dictionary line — uppercased, every character that is no ASCII letter
    /// dropped — and accepted exactly when the game is still open and what
    /// remains is a five-letter dictionary word. An accepted guess is
    /// appended to the history and returned; a rejected one leaves the
    /// session unchanged and says why it was refused.
    pub fn submit_guess(&mut self, raw: &str) -> (r: Result<String, GuessError>)
        requires
            old(self).wf(),
        ensures
            final(self).wf(),
            final(self).target() == old(self).target(),
            final(self).dictionary() == old(self).dictionary(),
            ({
                let w = clean_of(raw@);
                if old(self).spec_outcome() is Some {
                    r == Err::<String, GuessError>(GuessError::SessionClosed) && *final(self)
                        == *old(self)
                } else if w.len() != WORD_SIZE {
                    r == Err::<String, GuessError>(GuessError::WrongLength) && *final(self)
                        == *old(self)
                } else if !old(self).dictionary().contains(w) {
                    r == Err::<String, GuessError>(GuessError::NotInDictionary) && *final(self)
                        == *old(self)
                } else {
                    &&& r matches Ok(g) && g@ == w
                    &&& final(self).history() == old(self).history().push(w)
                }
            }),
    {
        if self.is_game_over().is_some() {
            return Err(GuessError::SessionClosed);
        }
        let w = clean_str(raw);
        if w.as_str().unicode_len() != WORD_SIZE {
            return Err(GuessError::WrongLength);
        }
        if !dict_contains(&self.dict, &w) {
            return Err(GuessError::NotInDictionary);
        }
        proof {
            lemma_clean_all_letters(raw@);
        }
        let ghost old_hist = self.history();
        let mut i: usize = 0;
        while i < WORD_SIZE
            invariant
                w@.len() == WORD_SIZE,
                i <= WORD_SIZE,
                self.word == old(self).word,
                self.guesses == old(self).guesses,
                self.dict == old(self).dict,
                old_hist == old(self).history(),
                forall|i2: int, j2: int|
                    0 <= i2 < j2 < self.letters().len() ==> self.letters()[i2]
                        != self.letters()[j2],
                forall|c: char|
                    #[trigger] self.letters().contains(c) == (guessed_in(old_hist, c)
                        || w@.take(i as int).contains(c)),
            decreases WORD_SIZE - i,
        {
            let c = w.as_str().get_char(i);
            let ghost pre_letters = self.letters();
            proof {
                assert(w@.take(i + 1) =~= w@.take(i as int).push(w@[i as int]));
            }
            if !letters_contain(&self.guessed_letters, c) {
                self.guessed_letters.push(c);
                proof {
                    assert(self.letters() == pre_letters.push(c));
                    assert forall|d: char| #[trigger]
                        self.letters().contains(d) == (guessed_in(old_hist, d) || w@.take(
                            i + 1,
                        ).contains(d)) by {
                        assert(pre_letters.push(c).contains(d) == (c == d || pre_letters.contains(
                            d,
                        )));
                        assert(w@.take(i as int).push(w@[i as int]).contains(d) == (w@[i as int]
                            == d || w@.take(i as int).contains(d)));
                    }
                    assert forall|i2: int, j2: int|
                        0 <= i2 < j2 < self.letters().len() implies self.letters()[i2]
                        != self.letters()[j2] by {
                        if j2 == pre_letters.len() {
                            assert(self.letters()[i2] == pre_letters[i2]);
                            assert(pre_letters.contains(pre_letters[i2]));
                        }
                    }
                }
            } else {
                proof {
                    assert forall|d: char| #[trigger]
                        self.letters().contains(d) == (guessed_in(old_hist, d) || w@.take(
                            i + 1,
                        ).contains(d)) by {
                        assert(w@.take(i as int).push(w@[i as int]).contains(d) == (w@[i as int]
                            == d || w@.take(i as int).contains(d)));
                        if d == c {
                            assert(self.letters().contains(c));
                        }
                    }
                }
            }
            i = i + 1;
        }
        proof {
            assert(w@.take(WORD_SIZE as int) =~= w@);
        }
        let ghost letters_now = self.letters();
        proof {
            assert forall|c: char| #[trigger]
                letters_now.contains(c) == (guessed_in(old_hist, c) || w@.contains(c)) by {
                assert(self.letters().contains(c) == (guessed_in(old_hist, c) || w@.take(
                    WORD_SIZE as int,
                ).contains(c)));
            }
        }
        let accepted = w.clone();
        self.guesses.push(w);
        proof {
            assert(self.letters() == letters_now);
            assert(self.history() =~= old_hist.push(accepted@));
            assert forall|c: char| #[trigger]
                self.letters().contains(c) == guessed_in(self.history(), c) by {
                lemma_guessed_push(old_hist, accepted@, c);
                assert(letters_now.contains(c) == (guessed_in(old_hist, c) || accepted@.contains(
                    c,
                )));
            }
        }
        Ok(accepted)
    }

    /// The best-known status of one letter across every guess so far:
    /// `Green` if it ever stood in its right position, else `Yellow` if the
    /// target contains it, else `Red`; nothing if it was never guessed.
    pub fn get_color_for_ltr(&self, ltr: char) -> (r: Option<Color>)
        requires
            self.wf(),
        ensures
            r == board_status(self.target(), self.history(), ltr),
    {
        let mut seen = false;
        let mut k: usize = 0;
        while k < self.guesses.len()
            invariant
                self.wf(),
                k <= self.guesses.len(),
                seen ==> guessed_in(self.history(), ltr),
                !seen ==> forall|k2: int|
                    0 <= k2 < k ==> !(#[trigger] self.history()[k2]).contains(ltr),
                forall|k2: int|
                    0 <= k2 < k ==> !green_in_guess(
                        self.target(),
                        #[trigger] self.history()[k2],
                        ltr,
                    ),
            decreases self.guesses.len() - k,
        {
            let g = &self.guesses[k];
            proof {
                assert(self.history()[k as int] == self.guesses@[k as int]@);
            }
            let mut i: usize = 0;
            while i < g.as_str().unicode_len()
                invariant
                    self.wf(),
                    k < self.guesses.len(),
                    g == &self.guesses[k as int],
                    g@ == self.history()[k as int],
                    i <= g@.len(),
                    seen ==> guessed_in(self.history(), ltr),
                    !seen ==> forall|k2: int|
                        0 <= k2 < k ==> !(#[trigger] self.history()[k2]).contains(ltr),
                    !seen ==> forall|i2: int| 0 <= i2 < i ==> g@[i2] != ltr,
                    forall|k2: int|
                        0 <= k2 < k ==> !green_in_guess(
                            self.target(),
                            #[trigger] self.history()[k2],
                            ltr,
                        ),
                    forall|i2: int|
                        0 <= i2 < i ==> !(g@[i2] == ltr && i2 < self.target().len()
                            && self.target()[i2] == ltr),
                decreases g@.len() - i,
            {
                let c = g.as_str().get_char(i);
                if c == ltr {
                    proof {
                        assert(self.history()[k as int].contains(ltr));
                    }
                    seen = true;
                    if i < WORD_SIZE && self.word.as_str().get_char(i) == ltr {
                        proof {
                            assert(green_in_guess(self.target(), self.history()[k as int], ltr));
                            assert(any_green(self.target(), self.history(), ltr));
                        }
                        return Some(Color::Green);
                    }
                }
                i = i + 1;
            }
            proof {
                if !seen {
                    assert(!self.history()[k as int].contains(ltr));
                }
                assert(!green_in_guess(self.target(), self.history()[k as int], ltr));
            }
            k = k + 1;
        }
        if !seen {
            proof {
                assert(!guessed_in(self.history(), ltr));
            }
            return None;
        }
        proof {
            assert(!any_green(self.target(), self.history(), ltr));
        }
        if str_contains_char(self.word.as_str(), ltr) {
            Some(Color::Yellow)
        } else {
            Some(Color::Red)
        }
    }

    /// The whole status board: one entry per distinct guessed letter, in
    /// first-guessed order, each carrying its best-known status.
    pub fn current_board(&self) -> (r: Vec<(char, Color)>)
        requires
            self.wf(),
        ensures
            r@.len() == self.letters().len(),
            forall|i: int|
                0 <= i < r@.len() ==> (#[trigger] r@[i]).0 == self.letters()[i] && Some(r@[i].1)
                    == board_status(self.target(), self.history(), self.letters()[i]),
    {
        let mut r: Vec<(char, Color)> = Vec::new();
        let mut i: usize = 0;
        while i < self.guessed_letters.len()
            invariant
                self.wf(),
                i <= self.letters().len(),
                r@.len() == i,
                forall|j: int|
                    0 <= j < i ==> (#[trigger] r@[j]).0 == self.letters()[j] && Some(r@[j].1)
                        == board_status(self.target(), self.history(), self.letters()[j]),
            decreases self.letters().len() - i,
        {
            let c = self.guessed_letters[i];
            proof {
                assert(self.letters().contains(self.letters()[i as int]));
            }
            let col = match self.get_color_for_ltr(c) {
                Some(col) => col,
                None => {
                    proof {
                        assert(false);
                    }
                    Color::Red
                },
            };
            r.push((c, col));
            i = i + 1;
        }
        r
    }

    /// The target word.
    pub fn word(&self) -> (r: &String)
        ensures
            r@ == self.target(),
    {
        &self.word
    }

    /// The accepted guesses, in submission order.
    pub fn guesses(&self) -> (r: &Vec<String>)
        ensures
            words_view(r@) == self.history(),
    {
        &self.guesses
    }

    /// The distinct letters guessed so far, in first-guessed order.
    pub fn guessed_letters(&self) -> (r: &Vec<char>)
        ensures
            r@ == self.letters(),
    {
        &self.guessed_letters
    }
}

/// Law: a session stands at a win exactly when its latest accepted guess
/// equals the target; at a loss exactly when five guesses were accepted and
/// none of them equals the target; and open otherwise. Together with
/// `submit_guess`'s contract, a lost session refuses a sixth guess.
pub proof fn lemma_outcome_characterization(g: GameStruct)
    requires
        g.wf(),
    ensures
        (g.spec_outcome() == Some(GameResult::Win)) == (g.history().len() > 0
            && g.history().last() == g.target()),
        (g.spec_outcome() == Some(GameResult::Lose)) == (g.history().len() == MAX_GUESSES
            && forall|k: int| 0 <= k < g.history().len() ==> g.history()[k] != g.target()),
{
    if g.spec_outcome() == Some(GameResult::Lose) {
        assert(g.history()[g.history().len() - 1] != g.target());
    }
    if g.history().len() == MAX_GUESSES && (forall|k: int|
        0 <= k < g.history().len() ==> g.history()[k] != g.target()) {
        assert(g.history()[g.history().len() - 1] != g.target());
    }
}

/// Whether a letter was already recorded.
fn letters_contain(v: &Vec<char>, c: char) -> (r: bool)
    ensures
        r == v@.contains(c),
{
    let mut i: usize = 0;
    while i < v.len()
        invariant
            i <= v@.len(),
            forall|j: int| 0 <= j < i ==> v@[j] != c,
        decreases v@.len() - i,
    {
        if v[i] == c {
            return true;
        }
        i = i + 1;
    }
    false
}

/// A random index in `[start, end)`, avoiding `exclude` when the range
/// offers an alternative.
fn rand_between(start: usize, end: usize, exclude: Option<usize>) -> (r: usize)
    requires
        start < end,
        (exclude matches Some(x) && start <= x < end) ==> end - start >= 2,
    ensures
        start <= r < end,
        exclude matches Some(x) ==> r != x,
{
    match exclude {
        None => gen_range_usize(start, end),
        Some(x) => {
            if x < start || x >= end {
                gen_range_usize(start, end)
            } else {
                let r = gen_range_usize(start, end - 1);
                if r >= x {
                    r + 1
                } else {
                    r
                }
            }
        },
    }
}

/// Relies on `rand::thread_rng` and `rand::Rng::gen_range`: a uniformly
/// random value drawn from the given half-open range, which must not be
/// empty.
#[verifier::external_body]
fn gen_range_usize(start: usize, end: usize) -> (r: usize)
    requires
        start < end,
    ensures
        start <= r < end,
{
    rand::thread_rng().gen_range(start..end)
}

} // verus!
