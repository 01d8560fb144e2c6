use wordle::color::{Color, GameResult};
use wordle::game::{DictionaryError, GameStruct, GuessError};

const DICT: &str = "crane\ntrace\nround\nstone\nplumb\nfjord\nglyph\n";

fn crane_game() -> GameStruct {
    GameStruct::with_target_index(DICT, 0)
}

#[test]
fn new_rejects_empty_blob() {
    assert!(matches!(GameStruct::new(""), Err(DictionaryError::Empty)));
    assert!(matches!(GameStruct::new("hi\nbye\n"), Err(DictionaryError::Empty)));
}

#[test]
fn new_draws_target_from_dictionary() {
    let game = GameStruct::new("crane\ntrace\n").unwrap();
    let word = game.word().as_str();
    assert!(word == "CRANE" || word == "TRACE");
}

#[test]
fn new_on_single_word_dictionary_fixes_target() {
    let game = GameStruct::new("crane\n").unwrap();
    assert_eq!(game.word().as_str(), "CRANE");
}

#[test]
fn with_target_index_picks_that_word() {
    let game = GameStruct::with_target_index(DICT, 1);
    assert_eq!(game.word().as_str(), "TRACE");
}

#[test]
fn exact_match_wins() {
    let mut game = crane_game();
    let accepted = game.submit_guess("crane\n").unwrap();
    assert_eq!(accepted, "CRANE");
    assert_eq!(game.is_game_over(), Some(GameResult::Win));
}

#[test]
fn game_in_progress_before_any_guess() {
    let game = crane_game();
    assert_eq!(game.is_game_over(), None);
}

#[test]
fn game_in_progress_after_missed_guess() {
    let mut game = crane_game();
    game.submit_guess("trace").unwrap();
    assert_eq!(game.is_game_over(), None);
}

#[test]
fn short_guess_rejected() {
    let mut game = crane_game();
    assert_eq!(game.submit_guess("cane"), Err(GuessError::WrongLength));
    assert_eq!(game.guesses().len(), 0);
}

#[test]
fn long_guess_rejected() {
    let mut game = crane_game();
    assert_eq!(game.submit_guess("cranes"), Err(GuessError::WrongLength));
}

#[test]
fn stray_characters_are_stripped_from_guesses() {
    let mut game = crane_game();
    assert_eq!(game.submit_guess("tr.ace!").unwrap(), "TRACE");
    assert_eq!(game.guesses().len(), 1);
}

#[test]
fn inner_whitespace_is_stripped_from_guesses() {
    let mut game = crane_game();
    assert_eq!(game.submit_guess("cr ane").unwrap(), "CRANE");
    assert_eq!(game.is_game_over(), Some(GameResult::Win));
}

#[test]
fn guess_too_short_after_stripping_rejected() {
    let mut game = crane_game();
    assert_eq!(game.submit_guess("cr4ne"), Err(GuessError::WrongLength));
    assert_eq!(game.submit_guess("c-r-a-n"), Err(GuessError::WrongLength));
    assert_eq!(game.guesses().len(), 0);
}

#[test]
fn unknown_word_rejected() {
    let mut game = crane_game();
    assert_eq!(game.submit_guess("zzzzz"), Err(GuessError::NotInDictionary));
    assert_eq!(game.guesses().len(), 0);
}

#[test]
fn guess_is_normalized_before_checking() {
    let mut game = crane_game();
    assert_eq!(game.submit_guess("  trace \n").unwrap(), "TRACE");
}

#[test]
fn no_sixth_guess_after_five_misses() {
    let mut game = crane_game();
    for miss in ["trace", "round", "stone", "plumb", "fjord"] {
        game.submit_guess(miss).unwrap();
    }
    assert_eq!(game.is_game_over(), Some(GameResult::Lose));
    assert_eq!(game.submit_guess("glyph"), Err(GuessError::SessionClosed));
    assert_eq!(game.guesses().len(), 5);
}

#[test]
fn win_on_fifth_guess_counts_as_win() {
    let mut game = crane_game();
    for guess in ["trace", "round", "stone", "plumb", "crane"] {
        game.submit_guess(guess).unwrap();
    }
    assert_eq!(game.is_game_over(), Some(GameResult::Win));
}

#[test]
fn no_guess_accepted_after_win() {
    let mut game = crane_game();
    game.submit_guess("crane").unwrap();
    assert_eq!(game.submit_guess("trace"), Err(GuessError::SessionClosed));
}

#[test]
fn board_after_single_guess() {
    let mut game = crane_game();
    game.submit_guess("trace").unwrap();
    assert_eq!(game.get_color_for_ltr('T'), Some(Color::Red));
    assert_eq!(game.get_color_for_ltr('R'), Some(Color::Green));
    assert_eq!(game.get_color_for_ltr('A'), Some(Color::Green));
    assert_eq!(game.get_color_for_ltr('C'), Some(Color::Yellow));
    assert_eq!(game.get_color_for_ltr('E'), Some(Color::Green));
}

#[test]
fn unguessed_letter_has_no_board_entry() {
    let mut game = crane_game();
    game.submit_guess("trace").unwrap();
    assert_eq!(game.get_color_for_ltr('Z'), None);
    assert_eq!(game.get_color_for_ltr('N'), None);
}

#[test]
fn later_weaker_guess_does_not_downgrade() {
    // R scores Yellow in ROUND (wrong position), then Green in TRACE; the
    // board must keep the stronger finding whatever the order.
    let mut game = crane_game();
    game.submit_guess("round").unwrap();
    assert_eq!(game.get_color_for_ltr('R'), Some(Color::Yellow));
    game.submit_guess("trace").unwrap();
    assert_eq!(game.get_color_for_ltr('R'), Some(Color::Green));

    let mut game2 = crane_game();
    game2.submit_guess("trace").unwrap();
    game2.submit_guess("round").unwrap();
    assert_eq!(game2.get_color_for_ltr('R'), Some(Color::Green));
}

#[test]
fn current_board_lists_letters_in_first_guessed_order() {
    let mut game = crane_game();
    game.submit_guess("trace").unwrap();
    let board = game.current_board();
    let expect = vec![
        ('T', Color::Red),
        ('R', Color::Green),
        ('A', Color::Green),
        ('C', Color::Yellow),
        ('E', Color::Green),
    ];
    assert_eq!(board, expect);
}

#[test]
fn current_board_has_one_entry_per_distinct_letter() {
    let mut game = crane_game();
    game.submit_guess("trace").unwrap();
    game.submit_guess("round").unwrap();
    let board = game.current_board();
    assert_eq!(board.len(), 9); // TRACE brings 5 letters, ROUND adds O, U, N, D
    let letters: Vec<char> = board.iter().map(|e| e.0).collect();
    assert_eq!(letters, vec!['T', 'R', 'A', 'C', 'E', 'O', 'U', 'N', 'D']);
}
