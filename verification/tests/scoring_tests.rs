use wordle::color::Color;
use wordle::dict::parse_dictionary;
use wordle::scoring::score;
use wordle::text::clean_str;

#[test]
fn score_of_target_against_itself_is_all_green() {
    let colors = score("CRANE", "CRANE");
    assert_eq!(colors, vec![Color::Green; 5]);
}

#[test]
fn score_has_one_color_per_position() {
    assert_eq!(score("TRACE", "CRANE").len(), 5);
    assert_eq!(score("ZZZZZ", "CRANE").len(), 5);
}

#[test]
fn score_trace_against_crane() {
    // T is absent from CRANE; R, A and E stand in their right positions;
    // C occurs in CRANE but in another position.
    let colors = score("TRACE", "CRANE");
    let expect = vec![Color::Red, Color::Green, Color::Green, Color::Yellow, Color::Green];
    assert_eq!(colors, expect);
}

#[test]
fn score_all_absent() {
    assert_eq!(score("GLYPH", "CRANE"), vec![Color::Red; 5]);
}

#[test]
fn duplicate_letters_are_scored_independently() {
    // CRANE holds one E; both E positions of EERIE are scored on their own:
    // no occurrence is used up by another.
    let colors = score("EERIE", "CRANE");
    let expect = vec![Color::Yellow, Color::Yellow, Color::Yellow, Color::Red, Color::Green];
    assert_eq!(colors, expect);
}

#[test]
fn clean_str_uppercases_and_strips() {
    assert_eq!(clean_str(" crane\r"), "CRANE");
    assert_eq!(clean_str("a1b-2c "), "ABC");
    assert_eq!(clean_str(""), "");
    assert_eq!(clean_str("42\t"), "");
}

#[test]
fn clean_str_strips_inner_stray_characters() {
    assert_eq!(clean_str("cr ane"), "CRANE");
    assert_eq!(clean_str("tr.ace!"), "TRACE");
    assert_eq!(clean_str("cr4ne"), "CRNE");
}

#[test]
fn parse_dictionary_keeps_five_letter_words() {
    let dict = parse_dictionary("crane\nhi\ntrace\nhello!\nsevenletters\n");
    assert_eq!(dict, vec!["CRANE", "TRACE", "HELLO"]);
}

#[test]
fn parse_dictionary_handles_crlf_lines() {
    let dict = parse_dictionary("apple\r\nbeach\r\n");
    assert_eq!(dict, vec!["APPLE", "BEACH"]);
}

#[test]
fn parse_dictionary_of_empty_blob_is_empty() {
    assert_eq!(parse_dictionary(""), Vec::<String>::new());
    assert_eq!(parse_dictionary("\n\n"), Vec::<String>::new());
}
