//! Tests of the copyable score text.

use paudle::{decimal_string, generate_score_copy, generate_unicode_block, CellValue};

fn win_row() -> Vec<CellValue> {
    vec![
        CellValue::Correct('p'),
        CellValue::Correct('a'),
        CellValue::Correct('u'),
        CellValue::Correct('s'),
        CellValue::Correct('e'),
    ]
}

fn mixed_row() -> Vec<CellValue> {
    vec![
        CellValue::Absent('m'),
        CellValue::Present('o'),
        CellValue::Absent('i'),
        CellValue::Correct('s'),
        CellValue::Absent('t'),
    ]
}

#[test]
fn glyphs_follow_the_verdicts() {
    assert_eq!(CellValue::Empty.score_char(), '⬜');
    assert_eq!(CellValue::Typing('a').score_char(), '⬜');
    assert_eq!(CellValue::Absent('a').score_char(), '⬜');
    assert_eq!(CellValue::Present('a').score_char(), '🟨');
    assert_eq!(CellValue::Correct('a').score_char(), '🟩');
}

#[test]
fn block_joins_rows_with_line_breaks() {
    let block = generate_unicode_block(&vec![mixed_row(), win_row()]);
    assert_eq!(block, "⬜🟨⬜🟩⬜\n🟩🟩🟩🟩🟩");
}

#[test]
fn block_of_no_rows_is_empty() {
    assert_eq!(generate_unicode_block(&vec![]), "");
}

#[test]
fn score_copy_of_a_won_game() {
    let text = generate_score_copy(true, 6, &vec![mixed_row(), win_row()], "");
    assert_eq!(text, "Paudle 2/6\n\n⬜🟨⬜🟩⬜\n🟩🟩🟩🟩🟩");
}

#[test]
fn score_copy_of_a_lost_game_shows_an_x() {
    let text = generate_score_copy(false, 6, &vec![mixed_row()], "");
    assert_eq!(text, "Paudle X/6\n\n⬜🟨⬜🟩⬜");
}

#[test]
fn score_copy_marks_random_games() {
    let text = generate_score_copy(true, 6, &vec![win_row()], "r");
    assert_eq!(text, "Paudle 1/6r\n\n🟩🟩🟩🟩🟩");
}

#[test]
fn decimal_rendering() {
    assert_eq!(decimal_string(0), "0");
    assert_eq!(decimal_string(6), "6");
    assert_eq!(decimal_string(10), "10");
    assert_eq!(decimal_string(123), "123");
    assert_eq!(decimal_string(1000), "1000");
}
