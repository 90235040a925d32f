//! Cumulative per-letter feedback for the on-screen keyboard.
//!
//! Each letter carries the strongest feedback seen for it so far, under the
//! order unused < absent < present < correct. The update policy is
//! deliberately monotone, not last-write-wins: a correct mark is permanent,
//! a present mark never downgrades a correct one, and an absent mark is
//! recorded only for letters that have no entry yet.

use std::collections::HashMap;

use vstd::prelude::*;

use crate::board::CellValue;
use crate::text::{spec_to_lower, to_lower_char};

verus! {

broadcast use vstd::std_specs::hash::group_hash_axioms;

/// Feedback strength for one key, ordered `Unused < Absent < Present <
/// Correct`.
#[derive(Debug, PartialEq, Eq, Structural, Clone, Copy)]
pub enum KeyStatus {
    Unused,
    Absent,
    Present,
    Correct,
}

/// The position of a status in the strength order.
pub open spec fn status_rank(s: KeyStatus) -> int {
    match s {
        KeyStatus::Unused => 0,
        KeyStatus::Absent => 1,
        KeyStatus::Present => 2,
        KeyStatus::Correct => 3,
    }
}

/// A key of the on-screen keyboard: the letter it shows and the strongest
/// feedback recorded for it.
#[derive(Debug, PartialEq, Eq, Structural, Clone, Copy)]
pub struct KeyValue {
    pub status: KeyStatus,
    pub letter: char,
}

/// How one scored cell updates the status of the letter `c`:
/// a correct mark for `c` always wins; a present mark for `c` wins unless
/// the status is already correct; an absent mark for `c` is taken only
/// when nothing is recorded yet; cells for other letters, and unscored
/// cells, change nothing.
pub open spec fn apply_cell(st: KeyStatus, v: CellValue, c: char) -> KeyStatus {
    match v {
        CellValue::Correct(x) => if x == c {
            KeyStatus::Correct
        } else {
            st
        },
        CellValue::Present(x) => if x == c && st != KeyStatus::Correct {
            KeyStatus::Present
        } else {
            st
        },
        CellValue::Absent(x) => if x == c && st == KeyStatus::Unused {
            KeyStatus::Absent
        } else {
            st
        },
        CellValue::Empty | CellValue::Typing(_) => st,
    }
}

/// The status of the letter `c` after the first `n` cells of a scored
/// guess have been folded, in order, into the starting status `st`.
pub open spec fn apply_guess_prefix(st: KeyStatus, g: Seq<CellValue>, c: char, n: int) -> KeyStatus
    decreases n,
{
    if n <= 0 {
        st
    } else {
        apply_cell(apply_guess_prefix(st, g, c, n - 1), g[n - 1], c)
    }
}

/// The status of the letter `c` after a whole scored guess.
pub open spec fn apply_guess(st: KeyStatus, g: Seq<CellValue>, c: char) -> KeyStatus {
    apply_guess_prefix(st, g, c, g.len() as int)
}

/// Whether one of the first `n` cells marks `c` correct.
spec fn has_correct_mark(g: Seq<CellValue>, c: char, n: int) -> bool
    decreases n,
{
    n > 0 && (g[n - 1] == CellValue::Correct(c) || has_correct_mark(g, c, n - 1))
}

/// Whether one of the first `n` cells marks `c` present.
spec fn has_present_mark(g: Seq<CellValue>, c: char, n: int) -> bool
    decreases n,
{
    n > 0 && (g[n - 1] == CellValue::Present(c) || has_present_mark(g, c, n - 1))
}

/// Whether one of the first `n` cells marks `c` absent.
spec fn has_absent_mark(g: Seq<CellValue>, c: char, n: int) -> bool
    decreases n,
{
    n > 0 && (g[n - 1] == CellValue::Absent(c) || has_absent_mark(g, c, n - 1))
}

/// Folding a guess depends only on which marks it contains, not on their
/// order: a correct mark wins, then an already-correct status stays, then a
/// present mark, then an absent mark onto an unused key.
spec fn folded_status(st: KeyStatus, correct: bool, present: bool, absent: bool) -> KeyStatus {
    if correct {
        KeyStatus::Correct
    } else if st == KeyStatus::Correct {
        KeyStatus::Correct
    } else if present {
        KeyStatus::Present
    } else if absent && st == KeyStatus::Unused {
        KeyStatus::Absent
    } else {
        st
    }
}

proof fn lemma_apply_guess_closed_form(st: KeyStatus, g: Seq<CellValue>, c: char, n: int)
    requires
        0 <= n <= g.len(),
    ensures
        apply_guess_prefix(st, g, c, n) == folded_status(
            st,
            has_correct_mark(g, c, n),
            has_present_mark(g, c, n),
            has_absent_mark(g, c, n),
        ),
    decreases n,
{
    if n > 0 {
        lemma_apply_guess_closed_form(st, g, c, n - 1);
    }
}

/// Folding the same scored guess a second time changes nothing: the
/// keyboard update is idempotent.
pub proof fn lemma_apply_guess_idempotent(st: KeyStatus, g: Seq<CellValue>, c: char)
    ensures
        apply_guess(apply_guess(st, g, c), g, c) == apply_guess(st, g, c),
{
    let n = g.len() as int;
    lemma_apply_guess_closed_form(st, g, c, n);
    lemma_apply_guess_closed_form(apply_guess(st, g, c), g, c, n);
}

/// Folding a scored guess never weakens a letter's status: across
/// successive updates the status only moves up the strength order.
pub proof fn lemma_apply_guess_monotonic(st: KeyStatus, g: Seq<CellValue>, c: char)
    ensures
        status_rank(apply_guess(st, g, c)) >= status_rank(st),
{
    lemma_apply_guess_closed_form(st, g, c, g.len() as int);
}

/// Distinct characters have distinct code points.
proof fn lemma_char_u32_injective(a: char, b: char)
    requires
        a as u32 == b as u32,
    ensures
        a == b,
{
    vstd::utf8::char_u32_cast(a, a as u32);
    vstd::utf8::char_u32_cast(b, b as u32);
}

/// The strongest feedback recorded so far for each letter, keyed by the
/// letter's code point.
pub struct KeyboardStatus {
    keys: HashMap<u32, KeyStatus>,
}

impl KeyboardStatus {
    /// The map never stores `Unused`: a letter with no entry is unused.
    pub closed spec fn wf(&self) -> bool {
        forall|u: u32| self.keys@.dom().contains(u) ==> self.keys@[u] != KeyStatus::Unused
    }

    /// The status recorded for the (already lowercased) letter `c`.
    pub closed spec fn spec_status(&self, c: char) -> KeyStatus {
        if self.keys@.dom().contains(c as u32) {
            self.keys@[c as u32]
        } else {
            KeyStatus::Unused
        }
    }

    /// A keyboard with every letter unused.
    pub fn new() -> (r: Self)
        ensures
            r.wf(),
            forall|c: char| r.spec_status(c) == KeyStatus::Unused,
    {
        KeyboardStatus { keys: HashMap::new() }
    }

    /// The key shown for `letter`: the letter itself, with the status
    /// recorded for its lowercase form.
    pub fn get_status(&self, letter: char) -> (r: KeyValue)
        ensures
            r.letter == letter,
            r.status == self.spec_status(spec_to_lower(letter)),
    {
        let low = to_lower_char(letter);
        let status = match self.keys.get(&(low as u32)) {
            Some(s) => *s,
            None => KeyStatus::Unused,
        };
        KeyValue { status, letter }
    }

    /// Fold one scored guess into the keyboard, cell by cell.
    pub fn update_status(&mut self, guess: &Vec<CellValue>)
        requires
            old(self).wf(),
        ensures
            final(self).wf(),
            forall|c: char|
                final(self).spec_status(c) == apply_guess(old(self).spec_status(c), guess@, c),
    {
        let n = guess.len();
        for i in 0..n
            invariant
                n == guess@.len(),
                self.wf(),
                forall|c: char|
                    self.spec_status(c) == apply_guess_prefix(
                        old(self).spec_status(c),
                        guess@,
                        c,
                        i as int,
                    ),
        {
            let ghost prev = *self;
            match guess[i] {
                CellValue::Absent(x) => {
                    if !self.keys.contains_key(&(x as u32)) {
                        self.keys.insert(x as u32, KeyStatus::Absent);
                    }
                },
                CellValue::Present(x) => {
                    let cur = self.keys.get(&(x as u32));
                    let is_correct = match cur {
                        Some(s) => *s == KeyStatus::Correct,
                        None => false,
                    };
                    if !is_correct {
                        self.keys.insert(x as u32, KeyStatus::Present);
                    }
                },
                CellValue::Correct(x) => {
                    self.keys.insert(x as u32, KeyStatus::Correct);
                },
                CellValue::Empty | CellValue::Typing(_) => {},
            }
            proof {
                let cell = guess@[i as int];
                assert forall|c: char|
                    self.spec_status(c) == apply_cell(prev.spec_status(c), cell, c) by {
                    match cell {
                        CellValue::Absent(x) | CellValue::Present(x) | CellValue::Correct(x) => {
                            if c as u32 == x as u32 {
                                lemma_char_u32_injective(c, x);
                            }
                        },
                        CellValue::Empty | CellValue::Typing(_) => {},
                    }
                }
            }
        }
    }
}

} // verus!
