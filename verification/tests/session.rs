//! Tests of the game session: typing, submitting, persistence planning and
//! the save/restore round trip.

use paudle::{
    keypress_to_msg, CellValue, GameMode, GameState, KeyStatus, Paudle, PaudleMsg, SavePlan,
    SaveState, UpdateAction,
};

fn type_word(game: &mut Paudle, word: &str) {
    for c in word.chars() {
        assert_eq!(game.update(PaudleMsg::TypeLetter(c), false), UpdateAction::Render);
    }
}

#[test]
fn winning_game_in_one_guess() {
    let mut game = Paudle::with_word("pause".to_string(), GameMode::Random);
    assert_eq!(game.game_state(), GameState::InProgress);
    type_word(&mut game, "pause");
    assert_eq!(game.current_guess(), "pause");
    let action = game.update(PaudleMsg::Submit, true);
    assert_eq!(action, UpdateAction::PersistAndFinish);
    assert_eq!(game.game_state(), GameState::Won);
    assert_eq!(game.current_guess(), "");
    assert_eq!(game.guesses().len(), 1);
    assert_eq!(
        game.guesses()[0],
        vec![
            CellValue::Correct('p'),
            CellValue::Correct('a'),
            CellValue::Correct('u'),
            CellValue::Correct('s'),
            CellValue::Correct('e'),
        ]
    );
    assert_eq!(game.key_status('p').status, KeyStatus::Correct);
    assert_eq!(game.key_status('z').status, KeyStatus::Unused);
}

#[test]
fn typed_letters_are_lowercased() {
    let mut game = Paudle::with_word("pause".to_string(), GameMode::Random);
    type_word(&mut game, "PAUSE");
    assert_eq!(game.current_guess(), "pause");
}

#[test]
fn losing_after_six_wrong_guesses() {
    let mut game = Paudle::with_word("pause".to_string(), GameMode::Random);
    for _ in 0..6 {
        type_word(&mut game, "moist");
        let action = game.update(PaudleMsg::Submit, true);
        assert!(matches!(action, UpdateAction::Persist | UpdateAction::PersistAndFinish));
    }
    assert_eq!(game.game_state(), GameState::Lost);
    assert_eq!(game.guesses().len(), 6);
}

#[test]
fn words_not_in_the_list_are_rejected_without_a_trace() {
    let mut game = Paudle::with_word("pause".to_string(), GameMode::Random);
    type_word(&mut game, "zzzzz");
    let action = game.update(PaudleMsg::Submit, false);
    assert_eq!(action, UpdateAction::RejectWord);
    assert_eq!(game.guesses().len(), 0);
    assert_eq!(game.current_guess(), "zzzzz");
    assert_eq!(game.game_state(), GameState::InProgress);
}

#[test]
fn short_guesses_cannot_be_submitted() {
    let mut game = Paudle::with_word("pause".to_string(), GameMode::Random);
    type_word(&mut game, "pau");
    assert_eq!(game.update(PaudleMsg::Submit, true), UpdateAction::NoChange);
    assert_eq!(game.guesses().len(), 0);
}

#[test]
fn backspace_takes_letters_back() {
    let mut game = Paudle::with_word("pause".to_string(), GameMode::Random);
    type_word(&mut game, "pa");
    assert_eq!(game.update(PaudleMsg::Backspace, false), UpdateAction::Render);
    assert_eq!(game.current_guess(), "p");
    assert_eq!(game.update(PaudleMsg::Backspace, false), UpdateAction::Render);
    assert_eq!(game.update(PaudleMsg::Backspace, false), UpdateAction::Render);
    assert_eq!(game.current_guess(), "");
}

#[test]
fn typing_past_the_word_length_is_ignored() {
    let mut game = Paudle::with_word("pause".to_string(), GameMode::Random);
    type_word(&mut game, "moist");
    assert_eq!(game.update(PaudleMsg::TypeLetter('x'), false), UpdateAction::NoChange);
    assert_eq!(game.current_guess(), "moist");
}

#[test]
fn a_random_game_can_only_start_once_the_game_ended() {
    let mut game = Paudle::with_word("pause".to_string(), GameMode::Random);
    assert_eq!(game.update(PaudleMsg::StartRandom, false), UpdateAction::NoChange);
    type_word(&mut game, "pause");
    game.update(PaudleMsg::Submit, true);
    assert_eq!(game.update(PaudleMsg::StartRandom, false), UpdateAction::NewRandomGame);
    assert_eq!(game.update(PaudleMsg::Escape, false), UpdateAction::Dismiss);
}

#[test]
fn a_finished_game_ignores_typing() {
    let mut game = Paudle::with_word("pause".to_string(), GameMode::Random);
    type_word(&mut game, "pause");
    game.update(PaudleMsg::Submit, true);
    assert_eq!(game.update(PaudleMsg::TypeLetter('a'), false), UpdateAction::NoChange);
    assert_eq!(game.update(PaudleMsg::Backspace, false), UpdateAction::NoChange);
    assert_eq!(game.update(PaudleMsg::Submit, true), UpdateAction::NoChange);
    assert_eq!(game.current_guess(), "");
    assert_eq!(game.guesses().len(), 1);
}

#[test]
fn save_plans_follow_state_and_mode() {
    let mut daily = Paudle::with_word("pause".to_string(), GameMode::Daily(86400));
    assert_eq!(daily.save_plan(), SavePlan::StoreCurrent);
    type_word(&mut daily, "pause");
    daily.update(PaudleMsg::Submit, true);
    assert_eq!(daily.save_plan(), SavePlan::RecordDaily(86400));

    let mut random = Paudle::with_word("pause".to_string(), GameMode::Random);
    type_word(&mut random, "pause");
    random.update(PaudleMsg::Submit, true);
    assert_eq!(random.save_plan(), SavePlan::ClearOnly);
}

#[test]
fn board_rows_show_guesses_typing_and_empty_rows() {
    let mut game = Paudle::with_word("pause".to_string(), GameMode::Random);
    type_word(&mut game, "moist");
    game.update(PaudleMsg::Submit, true);
    type_word(&mut game, "pa");
    let rows = game.board_rows();
    assert_eq!(rows.len(), 6);
    assert_eq!(rows[0], *game.guesses().first().unwrap());
    assert_eq!(
        rows[1],
        vec![
            CellValue::Typing('p'),
            CellValue::Typing('a'),
            CellValue::Typing(' '),
            CellValue::Typing(' '),
            CellValue::Typing(' '),
        ]
    );
    for row in rows.iter().skip(2) {
        assert_eq!(*row, vec![CellValue::Empty; 5]);
    }
}

#[test]
fn saving_and_restoring_keeps_the_game_equivalent() {
    let mut game = Paudle::with_word("pause".to_string(), GameMode::Daily(86400));
    type_word(&mut game, "moist");
    game.update(PaudleMsg::Submit, true);
    type_word(&mut game, "plaza");
    game.update(PaudleMsg::Submit, true);

    let saved = SaveState::from_live(&game);
    assert_eq!(saved.word, "pause");
    assert_eq!(saved.game_mode, GameMode::Daily(86400));

    let restored = Paudle::from_saved(saved);
    assert_eq!(restored.word(), game.word());
    assert_eq!(restored.guesses(), game.guesses());
    assert_eq!(restored.game_state(), game.game_state());
    assert_eq!(restored.game_mode(), game.game_mode());
    assert_eq!(restored.current_guess(), "");
    for c in 'a'..='z' {
        assert_eq!(restored.key_status(c).status, game.key_status(c).status);
    }
}

#[test]
fn keypresses_map_to_messages() {
    assert_eq!(keypress_to_msg("Escape", false, false, false, false), Some(PaudleMsg::Escape));
    assert_eq!(
        keypress_to_msg("Backspace", false, false, false, false),
        Some(PaudleMsg::Backspace)
    );
    assert_eq!(keypress_to_msg("Enter", false, false, false, false), Some(PaudleMsg::Submit));
    // special keys act even with a modifier held
    assert_eq!(keypress_to_msg("Enter", true, false, false, false), Some(PaudleMsg::Submit));
    assert_eq!(
        keypress_to_msg("a", false, false, false, false),
        Some(PaudleMsg::TypeLetter('a'))
    );
    assert_eq!(
        keypress_to_msg("Q", false, false, false, false),
        Some(PaudleMsg::TypeLetter('Q'))
    );
    assert_eq!(keypress_to_msg("1", false, false, false, false), None);
    assert_eq!(keypress_to_msg("a", true, false, false, false), None);
    assert_eq!(keypress_to_msg("a", false, false, true, false), None);
    assert_eq!(keypress_to_msg("F5", false, false, false, false), None);
    assert_eq!(keypress_to_msg("", false, false, false, false), None);
}
