//! The game session: the secret word, the guesses so far, the keyboard
//! state and the outcome, driven by a single update function over player
//! messages.
//!
//! The session keeps two derived pieces of state in step with the list of
//! scored guesses: the keyboard feedback is always the fold of all guesses
//! over an unused keyboard, and the game state is always the fold of the
//! win/loss rule over all guesses. Saving and restoring a session
//! preserves both.

use vstd::prelude::*;

use crate::board::CellValue;
use crate::evaluate::{evaluate_guess, spec_evaluate};
use crate::keyboard::{apply_guess, KeyStatus, KeyValue, KeyboardStatus};
use crate::save::SaveState;
use crate::text::{
    char_is_alphabetic, is_alphabetic_char, lower_seq, pop_char, push_char, spec_to_lower,
    str_eq, to_lower_char,
};

verus! {

/// Whether the game is a shared daily game, keyed by the day it belongs
/// to, or a free play against a randomly chosen word.
#[derive(Debug, PartialEq, Eq, Structural, Clone, Copy)]
pub enum GameMode {
    Daily(i64),
    Random,
}

/// Where the game stands.
#[derive(Debug, PartialEq, Eq, Structural, Clone, Copy)]
pub enum GameState {
    InProgress,
    Won,
    Lost,
}

/// One player action, as delivered by the input layer.
#[derive(Debug, PartialEq, Eq, Structural, Clone, Copy)]
pub enum PaudleMsg {
    TypeLetter(char),
    Backspace,
    Submit,
    StartRandom,
    Escape,
}

/// What the caller of `update` should do next, beside redrawing.
#[derive(Debug, PartialEq, Eq, Structural, Clone, Copy)]
pub enum UpdateAction {
    /// The session changed; redraw.
    Render,
    /// Nothing happened.
    NoChange,
    /// The submitted word was not accepted; show a notice.
    RejectWord,
    /// A guess was scored and the game goes on; persist the session.
    Persist,
    /// A guess was scored and ended the game; persist and show the score.
    PersistAndFinish,
    /// The player asked for a fresh random game; start one.
    NewRandomGame,
    /// Close any open overlay.
    Dismiss,
}

/// The views of a list of guess rows.
pub open spec fn rows_view(v: Seq<Vec<CellValue>>) -> Seq<Seq<CellValue>> {
    Seq::new(v.len(), |i: int| v[i]@)
}

/// Whether every cell of a scored row is a correct mark.
pub open spec fn all_correct(g: Seq<CellValue>) -> bool {
    forall|i: int| 0 <= i < g.len() ==> g[i] is Correct
}

/// The game state after one more scored guess lands: an all-correct guess
/// wins, a guess that fills the last row loses, anything else leaves the
/// state alone. `count` is the number of guesses including the new one.
pub open spec fn step_state(prev: GameState, g: Seq<CellValue>, count: int, max: int) -> GameState {
    if all_correct(g) {
        GameState::Won
    } else if count == max {
        GameState::Lost
    } else {
        prev
    }
}

/// The game state after the first `n` guesses of `gs` have landed in turn
/// on a fresh game.
pub open spec fn fold_state(gs: Seq<Seq<CellValue>>, max: int, n: int) -> GameState
    decreases n,
{
    if n <= 0 {
        GameState::InProgress
    } else {
        step_state(fold_state(gs, max, n - 1), gs[n - 1], n, max)
    }
}

/// The keyboard status of the letter `c` after the first `n` guesses of
/// `gs` have been folded onto an unused keyboard.
pub open spec fn kb_after(gs: Seq<Seq<CellValue>>, c: char, n: int) -> KeyStatus
    decreases n,
{
    if n <= 0 {
        KeyStatus::Unused
    } else {
        apply_guess(kb_after(gs, c, n - 1), gs[n - 1], c)
    }
}

/// Within one game the keyboard feedback of a letter never weakens: as
/// guess after guess is folded in, its status only moves up the strength
/// order.
pub proof fn lemma_keyboard_never_weakens(gs: Seq<Seq<CellValue>>, c: char, n1: int, n2: int)
    requires
        0 <= n1 <= n2,
    ensures
        crate::keyboard::status_rank(kb_after(gs, c, n1)) <= crate::keyboard::status_rank(
            kb_after(gs, c, n2),
        ),
    decreases n2 - n1,
{
    if n1 < n2 {
        lemma_keyboard_never_weakens(gs, c, n1, n2 - 1);
        crate::keyboard::lemma_apply_guess_monotonic(kb_after(gs, c, n2 - 1), gs[n2 - 1], c);
    }
}

/// Folding the game state depends only on the guesses already landed.
proof fn lemma_fold_state_prefix(gs1: Seq<Seq<CellValue>>, gs2: Seq<Seq<CellValue>>, max: int, n: int)
    requires
        forall|i: int| 0 <= i < n ==> gs1[i] == gs2[i],
    ensures
        fold_state(gs1, max, n) == fold_state(gs2, max, n),
    decreases n,
{
    if n > 0 {
        lemma_fold_state_prefix(gs1, gs2, max, n - 1);
    }
}

/// Folding the keyboard depends only on the guesses already landed.
proof fn lemma_kb_after_prefix(gs1: Seq<Seq<CellValue>>, gs2: Seq<Seq<CellValue>>, c: char, n: int)
    requires
        forall|i: int| 0 <= i < n ==> gs1[i] == gs2[i],
    ensures
        kb_after(gs1, c, n) == kb_after(gs2, c, n),
    decreases n,
{
    if n > 0 {
        lemma_kb_after_prefix(gs1, gs2, c, n - 1);
    }
}

/// One running game: the secret word, what has been guessed and typed so
/// far, the keyboard feedback, and where the game stands.
pub struct Paudle {
    pub(crate) word: String,
    pub(crate) guesses: Vec<Vec<CellValue>>,
    pub(crate) keyboard_status: KeyboardStatus,
    pub(crate) current_guess: String,
    pub(crate) word_length: usize,
    pub(crate) max_guesses: usize,
    pub(crate) game_state: GameState,
    pub(crate) game_mode: GameMode,
}

/// Whether two sessions agree on everything a player can observe.
pub open spec fn same_session(a: Paudle, b: Paudle) -> bool {
    &&& a.spec_word() == b.spec_word()
    &&& a.spec_guesses() == b.spec_guesses()
    &&& a.spec_current_guess() == b.spec_current_guess()
    &&& a.spec_word_length() == b.spec_word_length()
    &&& a.spec_max_guesses() == b.spec_max_guesses()
    &&& a.spec_game_state() == b.spec_game_state()
    &&& a.spec_game_mode() == b.spec_game_mode()
    &&& forall|c: char| a.spec_key_status(c) == b.spec_key_status(c)
}

impl Paudle {
    /// The secret word.
    pub closed spec fn spec_word(&self) -> Seq<char> {
        self.word@
    }

    /// The scored guesses so far, most recent last.
    pub closed spec fn spec_guesses(&self) -> Seq<Seq<CellValue>> {
        rows_view(self.guesses@)
    }

    /// The letters typed towards the next guess.
    pub closed spec fn spec_current_guess(&self) -> Seq<char> {
        self.current_guess@
    }

    /// The length every guess must have.
    pub closed spec fn spec_word_length(&self) -> int {
        self.word_length as int
    }

    /// How many guesses the game allows.
    pub closed spec fn spec_max_guesses(&self) -> int {
        self.max_guesses as int
    }

    /// Where the game stands.
    pub closed spec fn spec_game_state(&self) -> GameState {
        self.game_state
    }

    /// Daily or random play.
    pub closed spec fn spec_game_mode(&self) -> GameMode {
        self.game_mode
    }

    /// The keyboard feedback recorded for the letter `c`.
    pub closed spec fn spec_key_status(&self, c: char) -> KeyStatus {
        self.keyboard_status.spec_status(c)
    }

    /// The keyboard map's own invariant.
    pub closed spec fn spec_keyboard_wf(&self) -> bool {
        self.keyboard_status.wf()
    }

    /// A session is well formed when the word fills the board width, the
    /// typed letters fit on one row, and the game state and keyboard
    /// feedback are exactly the folds of the scored guesses.
    pub open spec fn wf(&self) -> bool {
        &&& self.spec_word().len() == self.spec_word_length()
        &&& self.spec_current_guess().len() <= self.spec_word_length()
        &&& self.spec_game_state() == fold_state(
            self.spec_guesses(),
            self.spec_max_guesses(),
            self.spec_guesses().len() as int,
        )
        &&& self.spec_keyboard_wf()
        &&& forall|c: char|
            self.spec_key_status(c) == kb_after(
                self.spec_guesses(),
                c,
                self.spec_guesses().len() as int,
            )
    }

    /// A fresh game on the given five-letter word: an empty board, an
    /// unused keyboard, six guesses allowed.
    pub fn with_word(word: String, game_mode: GameMode) -> (r: Paudle)
        requires
            word@.len() == 5,
        ensures
            r.wf(),
            r.spec_word() == word@,
            r.spec_guesses() == Seq::<Seq<CellValue>>::empty(),
            r.spec_current_guess() == Seq::<char>::empty(),
            r.spec_word_length() == 5,
            r.spec_max_guesses() == 6,
            r.spec_game_state() == GameState::InProgress,
            r.spec_game_mode() == game_mode,
            forall|c: char| r.spec_key_status(c) == KeyStatus::Unused,
    {
        let r = Paudle {
            word,
            guesses: Vec::new(),
            keyboard_status: KeyboardStatus::new(),
            current_guess: String::new(),
            word_length: 5,
            max_guesses: 6,
            game_state: GameState::InProgress,
            game_mode,
        };
        proof {
            assert(r.spec_guesses() =~= Seq::<Seq<CellValue>>::empty());
        }
        r
    }

    /// Land one scored guess: fold it into the keyboard, append it to the
    /// board, and move the game state along.
    pub fn add_guess(&mut self, new_guess: Vec<CellValue>)
        requires
            old(self).wf(),
        ensures
            final(self).wf(),
            final(self).spec_guesses() == old(self).spec_guesses().push(new_guess@),
            final(self).spec_word() == old(self).spec_word(),
            final(self).spec_current_guess() == old(self).spec_current_guess(),
            final(self).spec_word_length() == old(self).spec_word_length(),
            final(self).spec_max_guesses() == old(self).spec_max_guesses(),
            final(self).spec_game_mode() == old(self).spec_game_mode(),
            final(self).spec_game_state() == step_state(
                old(self).spec_game_state(),
                new_guess@,
                old(self).spec_guesses().len() as int + 1,
                old(self).spec_max_guesses(),
            ),
            forall|c: char|
                final(self).spec_key_status(c) == apply_guess(
                    old(self).spec_key_status(c),
                    new_guess@,
                    c,
                ),
    {
        let ghost old_rows = self.spec_guesses();
        let ghost g = new_guess@;
        self.keyboard_status.update_status(&new_guess);
        let n = new_guess.len();
        let mut correct = true;
        for i in 0..n
            invariant
                n == g.len(),
                new_guess@ == g,
                correct <==> (forall|j: int| 0 <= j < i ==> g[j] is Correct),
        {
            match new_guess[i] {
                CellValue::Correct(_) => {},
                _ => {
                    correct = false;
                },
            }
        }
        self.guesses.push(new_guess);
        proof {
            assert(self.spec_guesses() =~= old_rows.push(g));
            let count = old_rows.len() as int + 1;
            lemma_fold_state_prefix(self.spec_guesses(), old_rows, self.spec_max_guesses(), count - 1);
            assert forall|c: char|
                kb_after(self.spec_guesses(), c, count) == apply_guess(
                    kb_after(old_rows, c, count - 1),
                    g,
                    c,
                ) by {
                lemma_kb_after_prefix(self.spec_guesses(), old_rows, c, count - 1);
            }
        }
        if correct {
            self.game_state = GameState::Won;
        } else if self.guesses.len() == self.max_guesses {
            self.game_state = GameState::Lost;
        }
        proof {
            let count = old_rows.len() as int + 1;
            assert(self.spec_guesses() == old_rows.push(g));
            assert(self.spec_guesses().len() as int == count);
            assert(self.spec_game_state() == step_state(
                old(self).spec_game_state(),
                g,
                count,
                self.spec_max_guesses(),
            ));
            assert(self.spec_game_state() == fold_state(
                self.spec_guesses(),
                self.spec_max_guesses(),
                count,
            ));
            assert forall|c: char|
                self.spec_key_status(c) == kb_after(self.spec_guesses(), c, count) by {
                assert(self.spec_key_status(c) == apply_guess(old(self).spec_key_status(c), g, c));
            }
        }
    }

    /// Score a raw guess against the secret word, lowercasing it first,
    /// and land the result.
    pub fn eval_and_add_guess(&mut self, guess: &str)
        requires
            old(self).wf(),
            guess@.len() == old(self).spec_word().len(),
        ensures
            final(self).wf(),
            final(self).spec_guesses() == old(self).spec_guesses().push(
                spec_evaluate(old(self).spec_word(), lower_seq(guess@)),
            ),
            final(self).spec_word() == old(self).spec_word(),
            final(self).spec_current_guess() == old(self).spec_current_guess(),
            final(self).spec_word_length() == old(self).spec_word_length(),
            final(self).spec_max_guesses() == old(self).spec_max_guesses(),
            final(self).spec_game_mode() == old(self).spec_game_mode(),
            final(self).spec_game_state() == step_state(
                old(self).spec_game_state(),
                spec_evaluate(old(self).spec_word(), lower_seq(guess@)),
                old(self).spec_guesses().len() as int + 1,
                old(self).spec_max_guesses(),
            ),
            forall|c: char|
                final(self).spec_key_status(c) == apply_guess(
                    old(self).spec_key_status(c),
                    spec_evaluate(old(self).spec_word(), lower_seq(guess@)),
                    c,
                ),
    {
        let n = guess.unicode_len();
        let mut low = String::new();
        for i in 0..n
            invariant
                n == guess@.len(),
                low@.len() == i,
                forall|k: int| 0 <= k < i ==> low@[k] == spec_to_lower(guess@[k]),
        {
            push_char(&mut low, to_lower_char(guess.get_char(i)));
        }
        proof {
            assert(low@ =~= lower_seq(guess@));
        }
        let new_guess = evaluate_guess(self.word.as_str(), low.as_str());
        self.add_guess(new_guess);
    }

    /// Drive the session by one player message.
    ///
    /// The word-list check is the caller's: `guess_in_word_list` says
    /// whether the currently typed word is an accepted guess, and is
    /// consulted only when a full row is submitted.
    pub fn update(&mut self, msg: PaudleMsg, guess_in_word_list: bool) -> (r: UpdateAction)
        requires
            old(self).wf(),
        ensures
            final(self).wf(),
            final(self).spec_word() == old(self).spec_word(),
            final(self).spec_word_length() == old(self).spec_word_length(),
            final(self).spec_max_guesses() == old(self).spec_max_guesses(),
            final(self).spec_game_mode() == old(self).spec_game_mode(),
            // a letter typed into a running game lands, lowercased, on the
            // current row while there is room
            msg matches PaudleMsg::TypeLetter(c) ==> ((old(self).spec_game_state()
                == GameState::InProgress && old(self).spec_current_guess().len() < old(
                self,
            ).spec_word_length()) ==> {
                &&& final(self).spec_current_guess() == old(self).spec_current_guess().push(
                    spec_to_lower(c),
                )
                &&& final(self).spec_guesses() == old(self).spec_guesses()
                &&& final(self).spec_game_state() == old(self).spec_game_state()
                &&& (forall|c2: char|
                    final(self).spec_key_status(c2) == old(self).spec_key_status(c2))
                &&& r == UpdateAction::Render
            }),
            // a letter typed onto a full row is dropped
            (old(self).spec_game_state() == GameState::InProgress && msg is TypeLetter && old(
                self,
            ).spec_current_guess().len() >= old(self).spec_word_length()) ==> {
                &&& same_session(*old(self), *final(self))
                &&& r == UpdateAction::NoChange
            },
            // backspace takes the last typed letter back
            (old(self).spec_game_state() == GameState::InProgress && msg is Backspace) ==> {
                &&& final(self).spec_current_guess() == if old(self).spec_current_guess().len()
                    > 0 {
                    old(self).spec_current_guess().drop_last()
                } else {
                    old(self).spec_current_guess()
                }
                &&& final(self).spec_guesses() == old(self).spec_guesses()
                &&& final(self).spec_game_state() == old(self).spec_game_state()
                &&& (forall|c2: char|
                    final(self).spec_key_status(c2) == old(self).spec_key_status(c2))
                &&& r == UpdateAction::Render
            },
            // a full row whose word the caller rejects is refused untouched
            (old(self).spec_game_state() == GameState::InProgress && msg is Submit && old(
                self,
            ).spec_current_guess().len() == old(self).spec_word_length()
                && !guess_in_word_list) ==> {
                &&& same_session(*old(self), *final(self))
                &&& r == UpdateAction::RejectWord
            },
            // a full, accepted row is scored and lands; the caller is told
            // to persist, and to show the score when the game just ended
            (old(self).spec_game_state() == GameState::InProgress && msg is Submit && old(
                self,
            ).spec_current_guess().len() == old(self).spec_word_length() && guess_in_word_list)
                ==> {
                let verdicts = spec_evaluate(
                    old(self).spec_word(),
                    lower_seq(old(self).spec_current_guess()),
                );
                &&& final(self).spec_guesses() == old(self).spec_guesses().push(verdicts)
                &&& final(self).spec_current_guess().len() == 0
                &&& final(self).spec_game_state() == step_state(
                    GameState::InProgress,
                    verdicts,
                    old(self).spec_guesses().len() as int + 1,
                    old(self).spec_max_guesses(),
                )
                &&& (forall|c2: char|
                    final(self).spec_key_status(c2) == apply_guess(
                        old(self).spec_key_status(c2),
                        verdicts,
                        c2,
                    ))
                &&& r == if final(self).spec_game_state() == GameState::InProgress {
                    UpdateAction::Persist
                } else {
                    UpdateAction::PersistAndFinish
                }
            },
            // an incomplete row cannot be submitted
            (old(self).spec_game_state() == GameState::InProgress && msg is Submit && old(
                self,
            ).spec_current_guess().len() != old(self).spec_word_length()) ==> {
                &&& same_session(*old(self), *final(self))
                &&& r == UpdateAction::NoChange
            },
            // a new random game can only be asked for once the game ended
            (msg is StartRandom) ==> {
                &&& same_session(*old(self), *final(self))
                &&& r == if old(self).spec_game_state() == GameState::InProgress {
                    UpdateAction::NoChange
                } else {
                    UpdateAction::NewRandomGame
                }
            },
            // escape only dismisses whatever overlay is up
            (msg is Escape) ==> {
                &&& same_session(*old(self), *final(self))
                &&& r == UpdateAction::Dismiss
            },
            // a finished game ignores typing
            (old(self).spec_game_state() != GameState::InProgress && !(msg is StartRandom) && !(
            msg is Escape)) ==> {
                &&& same_session(*old(self), *final(self))
                &&& r == UpdateAction::NoChange
            },
    {
        let in_progress = self.game_state == GameState::InProgress;
        match msg {
            PaudleMsg::TypeLetter(c) => {
                if in_progress && self.current_guess.as_str().unicode_len() < self.word_length {
                    push_char(&mut self.current_guess, to_lower_char(c));
                    proof {
                        assert forall|c2: char|
                            self.spec_key_status(c2) == kb_after(
                                self.spec_guesses(),
                                c2,
                                self.spec_guesses().len() as int,
                            ) by {
                            assert(old(self).spec_key_status(c2) == kb_after(
                                old(self).spec_guesses(),
                                c2,
                                old(self).spec_guesses().len() as int,
                            ));
                        }
                    }
                    UpdateAction::Render
                } else {
                    UpdateAction::NoChange
                }
            },
            PaudleMsg::Backspace => {
                if in_progress {
                    let _ = pop_char(&mut self.current_guess);
                    proof {
                        assert forall|c2: char|
                            self.spec_key_status(c2) == kb_after(
                                self.spec_guesses(),
                                c2,
                                self.spec_guesses().len() as int,
                            ) by {
                            assert(old(self).spec_key_status(c2) == kb_after(
                                old(self).spec_guesses(),
                                c2,
                                old(self).spec_guesses().len() as int,
                            ));
                        }
                    }
                    UpdateAction::Render
                } else {
                    UpdateAction::NoChange
                }
            },
            PaudleMsg::Submit => {
                if in_progress && self.current_guess.as_str().unicode_len() == self.word_length {
                    if !guess_in_word_list {
                        UpdateAction::RejectWord
                    } else {
                        let submitted = self.current_guess.clone();
                        self.current_guess = String::new();
                        proof {
                            assert forall|c2: char|
                                self.spec_key_status(c2) == kb_after(
                                    self.spec_guesses(),
                                    c2,
                                    self.spec_guesses().len() as int,
                                ) by {
                                assert(old(self).spec_key_status(c2) == kb_after(
                                    old(self).spec_guesses(),
                                    c2,
                                    old(self).spec_guesses().len() as int,
                                ));
                            }
                        }
                        self.eval_and_add_guess(submitted.as_str());
                        if self.game_state == GameState::InProgress {
                            UpdateAction::Persist
                        } else {
                            UpdateAction::PersistAndFinish
                        }
                    }
                } else {
                    UpdateAction::NoChange
                }
            },
            PaudleMsg::StartRandom => {
                if in_progress {
                    UpdateAction::NoChange
                } else {
                    UpdateAction::NewRandomGame
                }
            },
            PaudleMsg::Escape => UpdateAction::Dismiss,
        }
    }

    /// What the persistence layer should do with this session: keep an
    /// unfinished game under the current-game key; fold a finished daily
    /// game into the history; merely clear the current-game key for a
    /// finished random game.
    pub fn save_plan(&self) -> (r: SavePlan)
        ensures
            self.spec_game_state() == GameState::InProgress ==> r == SavePlan::StoreCurrent,
            self.spec_game_mode() matches GameMode::Daily(ts) ==> (self.spec_game_state()
                != GameState::InProgress ==> r == SavePlan::RecordDaily(ts)),
            self.spec_game_state() != GameState::InProgress && self.spec_game_mode()
                == GameMode::Random ==> r == SavePlan::ClearOnly,
    {
        if self.game_state == GameState::InProgress {
            SavePlan::StoreCurrent
        } else {
            match self.game_mode {
                GameMode::Daily(ts) => SavePlan::RecordDaily(ts),
                GameMode::Random => SavePlan::ClearOnly,
            }
        }
    }
}

/// One cell of the row being typed: the letter entered at that position,
/// or a blank typing cell past the end of the entry.
pub open spec fn typing_cell(cur: Seq<char>, j: int) -> CellValue {
    if j < cur.len() {
        CellValue::Typing(cur[j])
    } else {
        CellValue::Typing(' ')
    }
}

/// The board row still being typed: the letters entered so far, padded
/// with blank typing cells to the board width.
pub open spec fn typing_row(cur: Seq<char>, width: int) -> Seq<CellValue> {
    Seq::new(width as nat, |j: int| typing_cell(cur, j))
}

/// A board row nothing has been typed into.
pub open spec fn empty_row(width: int) -> Seq<CellValue> {
    Seq::new(width as nat, |j: int| CellValue::Empty)
}

impl Paudle {
    /// The full grid the board shows: the scored guesses, then, while the
    /// game still takes guesses, the row being typed, then empty rows up
    /// to the allowed number of guesses.
    pub fn board_rows(&self) -> (rows: Vec<Vec<CellValue>>)
        requires
            self.spec_guesses().len() <= self.spec_max_guesses(),
        ensures
            rows@.len() == self.spec_max_guesses(),
            forall|i: int|
                0 <= i < self.spec_guesses().len() ==> rows@[i]@ == self.spec_guesses()[i],
            self.spec_guesses().len() < self.spec_max_guesses() ==> rows@[self.spec_guesses().len() as int]@
                == typing_row(self.spec_current_guess(), self.spec_word_length()),
            forall|i: int|
                self.spec_guesses().len() < i < self.spec_max_guesses() ==> rows@[i]@ == empty_row(
                    self.spec_word_length(),
                ),
    {
        let filled = self.guesses.len();
        let width = self.word_length;
        let cur = self.current_guess.as_str();
        let cur_n = cur.unicode_len();
        let mut rows: Vec<Vec<CellValue>> = Vec::new();
        for r in 0..self.max_guesses
            invariant
                filled == self.spec_guesses().len(),
                filled <= self.spec_max_guesses(),
                width as int == self.spec_word_length(),
                cur@ == self.spec_current_guess(),
                cur_n == cur@.len(),
                rows@.len() == r,
                forall|i: int| 0 <= i < r && i < filled ==> rows@[i]@ == self.spec_guesses()[i],
                filled < r ==> rows@[filled as int]@ == typing_row(cur@, width as int),
                forall|i: int| filled < i < r ==> rows@[i]@ == empty_row(width as int),
        {
            if r < filled {
                let src = &self.guesses[r];
                let m = src.len();
                let mut row: Vec<CellValue> = Vec::new();
                for j in 0..m
                    invariant
                        m == src@.len(),
                        row@ == src@.subrange(0, j as int),
                {
                    row.push(src[j]);
                    proof {
                        assert(row@ =~= src@.subrange(0, j + 1 as int));
                    }
                }
                proof {
                    assert(row@ =~= self.spec_guesses()[r as int]);
                }
                rows.push(row);
            } else if r == filled {
                let mut row: Vec<CellValue> = Vec::new();
                for j in 0..width
                    invariant
                        cur@ == self.spec_current_guess(),
                        cur_n == cur@.len(),
                        row@.len() == j,
                        forall|k: int| 0 <= k < j ==> row@[k] == typing_row(cur@, width as int)[k],
                {
                    if j < cur_n {
                        row.push(CellValue::Typing(cur.get_char(j)));
                    } else {
                        row.push(CellValue::Typing(' '));
                    }
                    proof {
                        assert(row@[j as int] == typing_cell(cur@, j as int));
                    }
                }
                proof {
                    assert(row@ =~= typing_row(cur@, width as int));
                }
                rows.push(row);
            } else {
                let mut row: Vec<CellValue> = Vec::new();
                for j in 0..width
                    invariant
                        row@.len() == j,
                        forall|k: int| 0 <= k < j ==> row@[k] == CellValue::Empty,
                {
                    row.push(CellValue::Empty);
                }
                proof {
                    assert(row@ =~= empty_row(width as int));
                }
                rows.push(row);
            }
        }
        rows
    }

    /// The secret word.
    pub fn word(&self) -> (r: &String)
        ensures
            r@ == self.spec_word(),
    {
        &self.word
    }

    /// The scored guesses so far.
    pub fn guesses(&self) -> (r: &Vec<Vec<CellValue>>)
        ensures
            rows_view(r@) == self.spec_guesses(),
    {
        &self.guesses
    }

    /// The letters typed towards the next guess.
    pub fn current_guess(&self) -> (r: &String)
        ensures
            r@ == self.spec_current_guess(),
    {
        &self.current_guess
    }

    /// The length every guess must have.
    pub fn word_length(&self) -> (r: usize)
        ensures
            r as int == self.spec_word_length(),
    {
        self.word_length
    }

    /// How many guesses the game allows.
    pub fn max_guesses(&self) -> (r: usize)
        ensures
            r as int == self.spec_max_guesses(),
    {
        self.max_guesses
    }

    /// Where the game stands.
    pub fn game_state(&self) -> (r: GameState)
        ensures
            r == self.spec_game_state(),
    {
        self.game_state
    }

    /// Daily or random play.
    pub fn game_mode(&self) -> (r: GameMode)
        ensures
            r == self.spec_game_mode(),
    {
        self.game_mode
    }

    /// The key shown for `letter` on the on-screen keyboard.
    pub fn key_status(&self, letter: char) -> (r: KeyValue)
        ensures
            r.letter == letter,
            r.status == self.spec_key_status(spec_to_lower(letter)),
    {
        self.keyboard_status.get_status(letter)
    }

    /// Rebuild a session from a saved record: start a fresh game on the
    /// saved word and replay every saved guess, so that the keyboard
    /// feedback and the game state are derived anew.
    pub fn from_saved(saved: SaveState) -> (r: Paudle)
        requires
            saved.word@.len() == 5,
        ensures
            r.wf(),
            r.spec_word() == saved.word@,
            r.spec_game_mode() == saved.game_mode,
            r.spec_guesses() == rows_view(saved.guesses@),
            r.spec_current_guess().len() == 0,
            r.spec_word_length() == 5,
            r.spec_max_guesses() == 6,
    {
        let SaveState { word, guesses, game_mode } = saved;
        let ghost w = word@;
        let mut p = Paudle::with_word(word, game_mode);
        let n = guesses.len();
        for i in 0..n
            invariant
                n == guesses@.len(),
                p.wf(),
                p.spec_word() == w,
                p.spec_game_mode() == game_mode,
                p.spec_current_guess().len() == 0,
                p.spec_word_length() == 5,
                p.spec_max_guesses() == 6,
                p.spec_guesses().len() == i,
                forall|j: int| 0 <= j < i ==> p.spec_guesses()[j] == guesses@[j]@,
        {
            let src = &guesses[i];
            let m = src.len();
            let mut row: Vec<CellValue> = Vec::new();
            for j in 0..m
                invariant
                    m == src@.len(),
                    row@ == src@.subrange(0, j as int),
            {
                row.push(src[j]);
                proof {
                    assert(row@ =~= src@.subrange(0, j + 1 as int));
                }
            }
            proof {
                assert(row@ =~= guesses@[i as int]@);
            }
            p.add_guess(row);
        }
        proof {
            assert(p.spec_guesses() =~= rows_view(guesses@));
        }
        p
    }
}

impl SaveState {
    /// The persistable copy of a running session: its word, guesses and
    /// mode.
    pub fn from_live(from: &Paudle) -> (r: SaveState)
        ensures
            r.word@ == from.spec_word(),
            rows_view(r.guesses@) == from.spec_guesses(),
            r.game_mode == from.spec_game_mode(),
    {
        let n = from.guesses.len();
        let mut guesses: Vec<Vec<CellValue>> = Vec::new();
        for i in 0..n
            invariant
                n == from.guesses@.len(),
                guesses@.len() == i,
                forall|j: int| 0 <= j < i ==> guesses@[j]@ == from.guesses@[j]@,
        {
            let src = &from.guesses[i];
            let m = src.len();
            let mut row: Vec<CellValue> = Vec::new();
            for j in 0..m
                invariant
                    m == src@.len(),
                    row@ == src@.subrange(0, j as int),
            {
                row.push(src[j]);
                proof {
                    assert(row@ =~= src@.subrange(0, j + 1 as int));
                }
            }
            proof {
                assert(row@ =~= from.guesses@[i as int]@);
            }
            guesses.push(row);
        }
        let r = SaveState { word: from.word.clone(), guesses, game_mode: from.game_mode };
        proof {
            assert(rows_view(r.guesses@) =~= from.spec_guesses());
        }
        r
    }
}

/// Turn one raw keyboard event into a player message: the escape,
/// backspace and enter keys map to their messages whatever modifiers are
/// held; any other single alphabetic character is typed; everything else,
/// and any character struck with a modifier held, is ignored.
pub fn keypress_to_msg(key: &str, ctrl: bool, alt: bool, meta: bool, shift: bool) -> (r: Option<
    PaudleMsg,
>)
    ensures
        key@ == "Escape"@ ==> r == Some(PaudleMsg::Escape),
        key@ != "Escape"@ && key@ == "Backspace"@ ==> r == Some(PaudleMsg::Backspace),
        key@ != "Escape"@ && key@ != "Backspace"@ && key@ == "Enter"@ ==> r == Some(
            PaudleMsg::Submit,
        ),
        (key@ != "Escape"@ && key@ != "Backspace"@ && key@ != "Enter"@ && key@.len() > 1) ==> r
            is None,
        (key@ != "Escape"@ && key@ != "Backspace"@ && key@ != "Enter"@ && key@.len() <= 1 && (ctrl
            || alt || meta || shift)) ==> r is None,
        (key@ != "Escape"@ && key@ != "Backspace"@ && key@ != "Enter"@ && key@.len() == 1 && !ctrl
            && !alt && !meta && !shift) ==> r == if char_is_alphabetic(key@[0]) {
            Some(PaudleMsg::TypeLetter(key@[0]))
        } else {
            None::<PaudleMsg>
        },
        (key@.len() == 0 && !ctrl && !alt && !meta && !shift) ==> r is None,
{
    proof {
        reveal_strlit("Escape");
        reveal_strlit("Backspace");
        reveal_strlit("Enter");
    }
    if str_eq(key, "Escape") {
        return Some(PaudleMsg::Escape);
    }
    if str_eq(key, "Backspace") {
        return Some(PaudleMsg::Backspace);
    }
    if str_eq(key, "Enter") {
        return Some(PaudleMsg::Submit);
    }
    if key.unicode_len() > 1 {
        return None;
    }
    if ctrl || alt || meta || shift {
        return None;
    }
    if key.unicode_len() == 1 {
        let c = key.get_char(0);
        if is_alphabetic_char(c) {
            Some(PaudleMsg::TypeLetter(c))
        } else {
            None
        }
    } else {
        None
    }
}

/// A session saved and then restored is equivalent to the original: the
/// same word, the same guesses, and therefore the same derived keyboard
/// feedback and the same outcome.
pub proof fn lemma_save_restore_equivalent(p: Paudle, s: SaveState, q: Paudle)
    requires
        p.wf(),
        s.word@ == p.spec_word(),
        rows_view(s.guesses@) == p.spec_guesses(),
        s.game_mode == p.spec_game_mode(),
        q.wf(),
        q.spec_word() == s.word@,
        q.spec_game_mode() == s.game_mode,
        q.spec_guesses() == rows_view(s.guesses@),
        q.spec_max_guesses() == p.spec_max_guesses(),
    ensures
        q.spec_word() == p.spec_word(),
        q.spec_game_mode() == p.spec_game_mode(),
        q.spec_guesses() == p.spec_guesses(),
        q.spec_game_state() == p.spec_game_state(),
        forall|c: char| q.spec_key_status(c) == p.spec_key_status(c),
{
    assert forall|c: char| q.spec_key_status(c) == p.spec_key_status(c) by {
        assert(p.spec_key_status(c) == kb_after(
            p.spec_guesses(),
            c,
            p.spec_guesses().len() as int,
        ));
        assert(q.spec_key_status(c) == kb_after(
            q.spec_guesses(),
            c,
            q.spec_guesses().len() as int,
        ));
    }
}

/// What the persistence layer is asked to do after a session change.
#[derive(Debug, PartialEq, Eq, Structural, Clone, Copy)]
pub enum SavePlan {
    /// Store the running game under the current-game key.
    StoreCurrent,
    /// Record the finished game in the history under this day key, store
    /// the history, and clear the current-game key.
    RecordDaily(i64),
    /// Only clear the current-game key.
    ClearOnly,
}

} // verus!

