//! Tests of the cumulative keyboard-status aggregation.

use paudle::{CellValue, KeyStatus, KeyboardStatus};

#[test]
fn unused_until_seen() {
    let kb = KeyboardStatus::new();
    assert_eq!(kb.get_status('a').status, KeyStatus::Unused);
    assert_eq!(kb.get_status('a').letter, 'a');
}

#[test]
fn lookup_ignores_case() {
    let mut kb = KeyboardStatus::new();
    kb.update_status(&vec![CellValue::Correct('q')]);
    let key = kb.get_status('Q');
    assert_eq!(key.status, KeyStatus::Correct);
    assert_eq!(key.letter, 'Q');
}

#[test]
fn correct_always_wins() {
    let mut kb = KeyboardStatus::new();
    kb.update_status(&vec![CellValue::Absent('a')]);
    assert_eq!(kb.get_status('a').status, KeyStatus::Absent);
    kb.update_status(&vec![CellValue::Present('a')]);
    assert_eq!(kb.get_status('a').status, KeyStatus::Present);
    kb.update_status(&vec![CellValue::Correct('a')]);
    assert_eq!(kb.get_status('a').status, KeyStatus::Correct);
}

#[test]
fn present_never_downgrades_correct() {
    let mut kb = KeyboardStatus::new();
    kb.update_status(&vec![CellValue::Correct('e')]);
    kb.update_status(&vec![CellValue::Present('e')]);
    assert_eq!(kb.get_status('e').status, KeyStatus::Correct);
}

#[test]
fn absent_never_overwrites_an_existing_entry() {
    let mut kb = KeyboardStatus::new();
    kb.update_status(&vec![CellValue::Present('s')]);
    kb.update_status(&vec![CellValue::Absent('s')]);
    assert_eq!(kb.get_status('s').status, KeyStatus::Present);

    kb.update_status(&vec![CellValue::Correct('t')]);
    kb.update_status(&vec![CellValue::Absent('t')]);
    assert_eq!(kb.get_status('t').status, KeyStatus::Correct);
}

#[test]
fn unscored_cells_change_nothing() {
    let mut kb = KeyboardStatus::new();
    kb.update_status(&vec![CellValue::Empty, CellValue::Typing('z')]);
    assert_eq!(kb.get_status('z').status, KeyStatus::Unused);
}

#[test]
fn applying_the_same_guess_twice_changes_nothing() {
    let guess = vec![
        CellValue::Correct('p'),
        CellValue::Present('a'),
        CellValue::Absent('u'),
        CellValue::Present('a'),
        CellValue::Absent('p'),
    ];
    let mut once = KeyboardStatus::new();
    once.update_status(&guess);
    let mut twice = KeyboardStatus::new();
    twice.update_status(&guess);
    twice.update_status(&guess);
    for c in 'a'..='z' {
        assert_eq!(once.get_status(c).status, twice.get_status(c).status);
    }
}

#[test]
fn status_never_weakens_across_updates() {
    fn rank(s: &KeyStatus) -> u32 {
        match s {
            KeyStatus::Unused => 0,
            KeyStatus::Absent => 1,
            KeyStatus::Present => 2,
            KeyStatus::Correct => 3,
        }
    }
    let updates = vec![
        vec![CellValue::Absent('a'), CellValue::Present('b'), CellValue::Correct('c')],
        vec![CellValue::Present('a'), CellValue::Absent('b'), CellValue::Present('c')],
        vec![CellValue::Correct('a'), CellValue::Correct('b'), CellValue::Absent('c')],
        vec![CellValue::Absent('a'), CellValue::Absent('b'), CellValue::Absent('c')],
    ];
    let mut kb = KeyboardStatus::new();
    for update in updates {
        let before: Vec<u32> = ('a'..='z').map(|c| rank(&kb.get_status(c).status)).collect();
        kb.update_status(&update);
        let after: Vec<u32> = ('a'..='z').map(|c| rank(&kb.get_status(c).status)).collect();
        for (b, a) in before.iter().zip(after.iter()) {
            assert!(a >= b);
        }
    }
}
