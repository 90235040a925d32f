//! Tests of the game history and its win and streak statistics.

use paudle::{CellValue, GameHistory, GameMode, SaveState};

fn winner(ts: i64) -> SaveState {
    SaveState {
        word: "pauls".into(),
        guesses: vec![vec![
            CellValue::Correct('p'),
            CellValue::Correct('a'),
            CellValue::Correct('u'),
            CellValue::Correct('l'),
            CellValue::Correct('s'),
        ]],
        game_mode: GameMode::Daily(ts),
    }
}

fn loser(ts: i64) -> SaveState {
    SaveState {
        word: "pauls".into(),
        guesses: vec![vec![
            CellValue::Correct('s'),
            CellValue::Correct('l'),
            CellValue::Correct('u'),
            CellValue::Correct('a'),
            CellValue::Correct('p'),
        ]],
        game_mode: GameMode::Daily(ts),
    }
}

#[test]
fn test_streak() {
    let day1 = chrono::NaiveDate::from_ymd(1987, 11, 11).and_hms(0, 0, 0);

    let mut history = GameHistory::default();

    let ts = |days| (day1 + chrono::Duration::days(days)).timestamp();

    assert_eq!(history.current_streak(), 0);

    history.record(ts(0), winner(ts(0)));

    assert_eq!(history.current_streak(), 1);

    history.record(ts(1), loser(ts(1)));
    history.record(ts(2), winner(ts(2)));
    history.record(ts(3), winner(ts(3)));
    history.record(ts(4), winner(ts(4)));

    assert_eq!(history.current_streak(), 3);

    history.record(ts(5), loser(ts(5)));

    assert_eq!(history.current_streak(), 0);

    history.record(ts(6), loser(ts(6)));

    assert_eq!(history.current_streak(), 0);

    history.record(ts(7), winner(ts(7)));

    // missed day 8
    history.record(ts(9), winner(ts(9)));
    assert_eq!(history.current_streak(), 1);
}

#[test]
fn max_streak_survives_later_losses() {
    let day0: i64 = 563587200; // 1987-11-11 local midnight, as epoch seconds
    let ts = |days: i64| day0 + days * 86400;
    let mut history = GameHistory::default();
    history.record(ts(0), winner(ts(0)));
    history.record(ts(1), loser(ts(1)));
    history.record(ts(2), winner(ts(2)));
    history.record(ts(3), winner(ts(3)));
    history.record(ts(4), winner(ts(4)));
    history.record(ts(5), loser(ts(5)));
    assert_eq!(history.max_streak(), 3);
    assert_eq!(history.current_streak(), 0);
}

#[test]
fn a_skipped_day_breaks_a_run() {
    let ts = |days: i64| days * 86400;
    let mut history = GameHistory::default();
    history.record(ts(0), winner(ts(0)));
    history.record(ts(1), winner(ts(1)));
    // day 2 skipped
    history.record(ts(3), winner(ts(3)));
    history.record(ts(4), winner(ts(4)));
    assert_eq!(history.max_streak(), 2);
    assert_eq!(history.current_streak(), 2);
}

#[test]
fn wins_and_won_last() {
    let ts = |days: i64| days * 86400;
    let mut history = GameHistory::default();
    assert_eq!(history.wins(), 0);
    assert!(!history.won_last());
    history.record(ts(0), winner(ts(0)));
    history.record(ts(1), loser(ts(1)));
    history.record(ts(2), winner(ts(2)));
    assert_eq!(history.wins(), 2);
    assert!(history.won_last());
    assert_eq!(history.len(), 3);
}

#[test]
fn win_rate_of_an_empty_history_is_zero() {
    let history = GameHistory::default();
    assert_eq!(history.win_rate_percent(), 0);
}

#[test]
fn win_rate_rounds_down() {
    let ts = |days: i64| days * 86400;
    let mut history = GameHistory::default();
    history.record(ts(0), winner(ts(0)));
    history.record(ts(1), loser(ts(1)));
    history.record(ts(2), winner(ts(2)));
    assert_eq!(history.win_rate_percent(), 66);
}

#[test]
fn recording_a_day_again_replaces_its_entry() {
    let ts: i64 = 12 * 86400;
    let mut history = GameHistory::default();
    history.record(ts, loser(ts));
    assert_eq!(history.wins(), 0);
    history.record(ts, winner(ts));
    assert_eq!(history.wins(), 1);
    assert_eq!(history.len(), 1);
    assert!(history.get(ts).is_some());
    assert!(history.get(ts + 1).is_none());
}

#[test]
fn out_of_order_days_are_walked_by_day_key() {
    let ts = |days: i64| days * 86400;
    let mut history = GameHistory::default();
    history.record(ts(5), winner(ts(5)));
    history.record(ts(3), winner(ts(3)));
    history.record(ts(4), winner(ts(4)));
    assert_eq!(history.current_streak(), 3);
    assert_eq!(history.max_streak(), 3);
}

#[test]
fn was_won_compares_the_last_row_to_the_word() {
    assert!(winner(0).was_won());
    assert!(!loser(0).was_won());
}

#[test]
fn guess_distribution_counts_wins_by_guesses_used() {
    let ts = |days: i64| days * 86400;
    let two_guess_win = SaveState {
        word: "pauls".into(),
        guesses: vec![
            vec![
                CellValue::Absent('c'),
                CellValue::Absent('r'),
                CellValue::Absent('e'),
                CellValue::Absent('d'),
                CellValue::Absent('o'),
            ],
            vec![
                CellValue::Correct('p'),
                CellValue::Correct('a'),
                CellValue::Correct('u'),
                CellValue::Correct('l'),
                CellValue::Correct('s'),
            ],
        ],
        game_mode: GameMode::Daily(ts(2)),
    };
    let mut history = GameHistory::default();
    history.record(ts(0), winner(ts(0)));
    history.record(ts(1), loser(ts(1)));
    history.record(ts(2), two_guess_win);
    let distribution = history.guess_distribution(6);
    assert_eq!(distribution, vec![1, 1, 0, 0, 0, 0]);
}
