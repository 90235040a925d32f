//! Saved games and the history of completed daily games, with the win and
//! streak statistics derived from it.
//!
//! The history maps each day key (the epoch second of that day's local
//! midnight) to the record of the game played that day. A streak is a run
//! of consecutive winning days where consecutive means the day keys are at
//! most one day apart; a lost game or a fully skipped day breaks the run.

use vstd::prelude::*;

use crate::board::CellValue;
use crate::session::GameMode;

verus! {

/// The character a cell holds; an empty cell reads as a space.
pub open spec fn cell_letter(v: CellValue) -> char {
    match v {
        CellValue::Typing(c) | CellValue::Absent(c) | CellValue::Present(c) | CellValue::Correct(
            c,
        ) => c,
        CellValue::Empty => ' ',
    }
}

/// The word a row of cells spells.
pub open spec fn row_letters(g: Seq<CellValue>) -> Seq<char> {
    Seq::new(g.len(), |i: int| cell_letter(g[i]))
}

/// A finished or in-progress game as it is persisted: the secret word,
/// the scored guesses so far, and the mode it was played in.
#[derive(Debug, Clone)]
pub struct SaveState {
    pub word: String,
    pub guesses: Vec<Vec<CellValue>>,
    pub game_mode: GameMode,
}

impl SaveState {
    /// A record counts as won when its last guess spells the secret word.
    pub open spec fn spec_was_won(self) -> bool
        recommends
            self.guesses@.len() > 0,
    {
        row_letters(self.guesses@.last()@) == self.word@
    }

    /// Whether the final guess of this record spells the secret word.
    pub fn was_won(&self) -> (r: bool)
        requires
            self.guesses.len() > 0,
        ensures
            r == self.spec_was_won(),
    {
        let last = &self.guesses[self.guesses.len() - 1];
        let n = last.len();
        if n != self.word.unicode_len() {
            return false;
        }
        for i in 0..n
            invariant
                n == last@.len() == self.word@.len(),
                last == self.guesses@.last(),
                forall|k: int| 0 <= k < i ==> cell_letter(last@[k]) == self.word@[k],
        {
            let c = match last[i] {
                CellValue::Typing(c) | CellValue::Absent(c) | CellValue::Present(c)
                | CellValue::Correct(c) => c,
                CellValue::Empty => ' ',
            };
            if c != self.word.get_char(i) {
                return false;
            }
        }
        assert(row_letters(self.guesses@.last()@) =~= self.word@);
        true
    }
}

/// A row produced by the evaluator spells the guess it scored, so a
/// record whose last row spells the secret word is exactly one whose last
/// guess was fully correct.
pub proof fn lemma_won_means_all_correct(secret: Seq<char>, guess: Seq<char>)
    requires
        secret.len() == guess.len(),
    ensures
        row_letters(crate::evaluate::spec_evaluate(secret, guess)) == guess,
        row_letters(crate::evaluate::spec_evaluate(secret, guess)) == secret
            <==> crate::session::all_correct(crate::evaluate::spec_evaluate(secret, guess)),
{
    let vs = crate::evaluate::spec_evaluate(secret, guess);
    assert forall|i: int| 0 <= i < vs.len() implies cell_letter(vs[i]) == guess[i] by {}
    assert(row_letters(vs) =~= guess);
    if row_letters(vs) == secret {
        assert forall|i: int| 0 <= i < vs.len() implies vs[i] is Correct by {
            assert(guess[i] == secret[i]);
        }
    }
    if crate::session::all_correct(vs) {
        assert forall|i: int| 0 <= i < guess.len() implies guess[i] == secret[i] by {
            assert(vs[i] is Correct);
        }
        assert(guess =~= secret);
    }
}

/// The record stored for day key `k`, if any: entries nearer the end of
/// the list shadow earlier ones with the same key.
pub open spec fn spec_lookup(s: Seq<(i64, SaveState)>, k: i64) -> Option<SaveState>
    decreases s.len(),
{
    if s.len() == 0 {
        None
    } else if s.last().0 == k {
        Some(s.last().1)
    } else {
        spec_lookup(s.drop_last(), k)
    }
}

/// The history after recording `v` under day key `k`: an existing entry
/// for `k` is replaced, otherwise the new entry is placed so that the day
/// keys stay in increasing order.
pub open spec fn spec_record(s: Seq<(i64, SaveState)>, k: i64, v: SaveState) -> Seq<
    (i64, SaveState),
>
    decreases s.len(),
{
    if s.len() == 0 {
        seq![(k, v)]
    } else if s.last().0 < k {
        s.push((k, v))
    } else if s.last().0 == k {
        s.drop_last().push((k, v))
    } else {
        spec_record(s.drop_last(), k, v).push(s.last())
    }
}

/// Recording under key `k` stores `v` there and leaves every other key's
/// entry alone.
pub proof fn lemma_record_lookup(s: Seq<(i64, SaveState)>, k: i64, v: SaveState)
    ensures
        spec_lookup(spec_record(s, k, v), k) == Some(v),
        forall|k2: i64| k2 != k ==> spec_lookup(spec_record(s, k, v), k2) == spec_lookup(s, k2),
    decreases s.len(),
{
    let r = spec_record(s, k, v);
    if s.len() == 0 {
        assert forall|k2: i64| k2 != k implies spec_lookup(r, k2) == spec_lookup(s, k2) by {
            assert(r.drop_last() =~= s);
        }
    } else if s.last().0 < k {
        assert(r.drop_last() =~= s);
    } else if s.last().0 == k {
        assert(r.drop_last() =~= s.drop_last());
        assert forall|k2: i64| k2 != k implies spec_lookup(r, k2) == spec_lookup(s, k2) by {
            assert(spec_lookup(r, k2) == spec_lookup(s.drop_last(), k2));
            assert(spec_lookup(s, k2) == spec_lookup(s.drop_last(), k2));
        }
    } else {
        lemma_record_lookup(s.drop_last(), k, v);
        assert(r.drop_last() =~= spec_record(s.drop_last(), k, v));
        assert forall|k2: i64| k2 != k implies spec_lookup(r, k2) == spec_lookup(s, k2) by {
            if s.last().0 != k2 {
                assert(spec_lookup(r, k2) == spec_lookup(spec_record(s.drop_last(), k, v), k2));
                assert(spec_lookup(s, k2) == spec_lookup(s.drop_last(), k2));
            }
        }
    }
}

/// Every entry of a recording is either the new entry or one of the old
/// ones.
proof fn lemma_record_entries(s: Seq<(i64, SaveState)>, k: i64, v: SaveState)
    ensures
        forall|i: int|
            0 <= i < spec_record(s, k, v).len() ==> #[trigger] spec_record(s, k, v)[i] == (k, v)
                || exists|j: int| 0 <= j < s.len() && s[j] == spec_record(s, k, v)[i],
    decreases s.len(),
{
    if s.len() == 0 {
    } else if s.last().0 < k {
    } else if s.last().0 == k {
    } else {
        lemma_record_entries(s.drop_last(), k, v);
        assert forall|i: int| 0 <= i < spec_record(s, k, v).len() implies #[trigger] spec_record(
            s,
            k,
            v,
        )[i] == (k, v) || exists|j: int| 0 <= j < s.len() && s[j] == spec_record(s, k, v)[i] by {
            let r = spec_record(s, k, v);
            if i == r.len() - 1 {
                assert(s[s.len() - 1] == r[i]);
            } else {
                let rr = spec_record(s.drop_last(), k, v);
                assert(rr[i] == r[i]);
                if rr[i] != (k, v) {
                    let j = choose|j: int| 0 <= j < s.drop_last().len() && s.drop_last()[j] == rr[i];
                    assert(s[j] == r[i]);
                }
            }
        }
    }
}

/// Sorted day keys stay sorted across a recording.
proof fn lemma_record_sorted(s: Seq<(i64, SaveState)>, k: i64, v: SaveState)
    requires
        forall|i: int, j: int| 0 <= i < j < s.len() ==> s[i].0 < s[j].0,
    ensures
        forall|i: int, j: int|
            0 <= i < j < spec_record(s, k, v).len() ==> spec_record(s, k, v)[i].0 < spec_record(
                s,
                k,
                v,
            )[j].0,
    decreases s.len(),
{
    if s.len() == 0 {
    } else if s.last().0 < k {
    } else if s.last().0 == k {
    } else {
        assert(forall|i: int, j: int|
            0 <= i < j < s.drop_last().len() ==> s.drop_last()[i].0 < s.drop_last()[j].0);
        lemma_record_sorted(s.drop_last(), k, v);
        let r = spec_record(s, k, v);
        let rr = spec_record(s.drop_last(), k, v);
        lemma_record_keys_bounded(s.drop_last(), k, v);
        assert forall|i: int, j: int| 0 <= i < j < r.len() implies r[i].0 < r[j].0 by {
            if j < r.len() - 1 {
                assert(rr[i].0 < rr[j].0);
            } else {
                assert(r[j] == s.last());
            }
        }
    }
}

/// Every key of a recording is bounded by the largest of `k` and the old
/// keys.
proof fn lemma_record_keys_bounded(s: Seq<(i64, SaveState)>, k: i64, v: SaveState)
    ensures
        forall|i: int|
            0 <= i < spec_record(s, k, v).len() ==> #[trigger] spec_record(s, k, v)[i].0 == k
                || exists|j: int| 0 <= j < s.len() && s[j].0 == spec_record(s, k, v)[i].0,
    decreases s.len(),
{
    lemma_record_entries(s, k, v);
    assert forall|i: int| 0 <= i < spec_record(s, k, v).len() implies #[trigger] spec_record(
        s,
        k,
        v,
    )[i].0 == k || exists|j: int| 0 <= j < s.len() && s[j].0 == spec_record(s, k, v)[i].0 by {
        let r = spec_record(s, k, v);
        if r[i] != (k, v) {
            let j = choose|j: int| 0 <= j < s.len() && s[j] == r[i];
            assert(s[j].0 == r[i].0);
        }
    }
}

/// One day, in seconds: the largest gap between the day keys of two games
/// that still counts as consecutive play.
pub const ONE_DAY_SECONDS: i64 = 86400;

/// The gap bound as a mathematical integer.
pub open spec fn spec_one_day() -> int {
    ONE_DAY_SECONDS as int
}

/// The length of the run of consecutive winning days that ends at entry
/// `i` of a history sorted by day key: zero if that day was lost, and
/// otherwise one more than the run ending at the previous entry, provided
/// that entry is at most one day earlier.
pub open spec fn run_ending_at(s: Seq<(i64, SaveState)>, i: int) -> int
    decreases i,
{
    if !s[i].1.spec_was_won() {
        0
    } else if i > 0 && s[i].0 - s[i - 1].0 <= spec_one_day() {
        1 + run_ending_at(s, i - 1)
    } else {
        1
    }
}

/// The streak the player is currently on: the run ending at the most
/// recent day, but only if that day was won.
pub open spec fn spec_current_streak(s: Seq<(i64, SaveState)>) -> int {
    if s.len() > 0 && s.last().1.spec_was_won() {
        run_ending_at(s, s.len() - 1)
    } else {
        0
    }
}

/// The longest run ending at any of the first `n` entries.
pub open spec fn spec_max_streak_prefix(s: Seq<(i64, SaveState)>, n: int) -> int
    decreases n,
{
    if n <= 0 {
        0
    } else if run_ending_at(s, n - 1) > spec_max_streak_prefix(s, n - 1) {
        run_ending_at(s, n - 1)
    } else {
        spec_max_streak_prefix(s, n - 1)
    }
}

/// The longest streak anywhere in the history.
pub open spec fn spec_max_streak(s: Seq<(i64, SaveState)>) -> int {
    spec_max_streak_prefix(s, s.len() as int)
}

/// How many of the first `n` entries were won.
pub open spec fn spec_wins_prefix(s: Seq<(i64, SaveState)>, n: int) -> int
    decreases n,
{
    if n <= 0 {
        0
    } else {
        spec_wins_prefix(s, n - 1) + if s[n - 1].1.spec_was_won() {
            1int
        } else {
            0int
        }
    }
}

/// How many of the first `n` entries were won in exactly `used` guesses.
pub open spec fn spec_wins_with_guesses(s: Seq<(i64, SaveState)>, used: int, n: int) -> int
    decreases n,
{
    if n <= 0 {
        0
    } else {
        spec_wins_with_guesses(s, used, n - 1) + if s[n - 1].1.spec_was_won() && s[n
            - 1].1.guesses@.len() == used {
            1int
        } else {
            0int
        }
    }
}

/// A history never holds more wins than games.
proof fn lemma_wins_bounded(s: Seq<(i64, SaveState)>, n: int)
    requires
        n >= 0,
    ensures
        0 <= spec_wins_prefix(s, n) <= n,
    decreases n,
{
    if n > 0 {
        lemma_wins_bounded(s, n - 1);
    }
}

/// The history of completed daily games, ordered by day key.
#[derive(Debug)]
pub struct GameHistory {
    scores: Vec<(i64, SaveState)>,
}

impl View for GameHistory {
    type V = Seq<(i64, SaveState)>;

    closed spec fn view(&self) -> Seq<(i64, SaveState)> {
        self.scores@
    }
}

impl Default for GameHistory {
    /// An empty history.
    fn default() -> (r: Self)
        ensures
            r@ == Seq::<(i64, SaveState)>::empty(),
            r.wf(),
    {
        GameHistory { scores: Vec::new() }
    }
}

impl GameHistory {
    /// Day keys strictly increase, and every stored record has at least
    /// one guess: only finished games are recorded.
    pub open spec fn wf(&self) -> bool {
        &&& forall|i: int, j: int| 0 <= i < j < self@.len() ==> self@[i].0 < self@[j].0
        &&& forall|i: int| 0 <= i < self@.len() ==> self@[i].1.guesses@.len() > 0
    }

    /// How many games the history holds.
    pub fn len(&self) -> (r: usize)
        ensures
            r == self@.len(),
    {
        self.scores.len()
    }

    /// Every recorded game with its day key, ordered by day key.
    pub fn entries(&self) -> (r: &Vec<(i64, SaveState)>)
        ensures
            r@ == self@,
    {
        &self.scores
    }

    /// The record stored for `day_key`, if any.
    pub fn get(&self, day_key: i64) -> (r: Option<&SaveState>)
        ensures
            match r {
                Some(v) => spec_lookup(self@, day_key) == Some(*v),
                None => spec_lookup(self@, day_key) is None,
            },
    {
        let n = self.scores.len();
        let mut i = n;
        proof {
            assert(self@.subrange(0, n as int) =~= self@);
        }
        while i > 0
            invariant
                i <= n == self@.len(),
                spec_lookup(self@, day_key) == spec_lookup(
                    self@.subrange(0, i as int),
                    day_key,
                ),
            decreases i,
        {
            proof {
                assert(self@.subrange(0, i as int).drop_last() =~= self@.subrange(0, i - 1));
            }
            if self.scores[i - 1].0 == day_key {
                return Some(&self.scores[i - 1].1);
            }
            i = i - 1;
        }
        None
    }

    /// Store `save` under `day_key`, replacing any record already there.
    pub fn record(&mut self, day_key: i64, save: SaveState)
        requires
            old(self).wf(),
            save.guesses.len() > 0,
        ensures
            final(self)@ == spec_record(old(self)@, day_key, save),
            final(self).wf(),
            spec_lookup(final(self)@, day_key) == Some(save),
            forall|k2: i64|
                k2 != day_key ==> spec_lookup(final(self)@, k2) == spec_lookup(old(self)@, k2),
    {
        let ghost s = self@;
        let n = self.scores.len();
        let mut i = n;
        proof {
            assert(s.subrange(0, n as int) =~= s);
            assert(spec_record(s.subrange(0, n as int), day_key, save) + s.subrange(
                n as int,
                n as int,
            ) =~= spec_record(s, day_key, save));
        }
        while i > 0 && self.scores[i - 1].0 > day_key
            invariant
                i <= n == s.len(),
                self@ == s,
                forall|j: int| i <= j < n ==> s[j].0 > day_key,
                spec_record(s, day_key, save) == spec_record(s.subrange(0, i as int), day_key, save)
                    + s.subrange(i as int, n as int),
            decreases i,
        {
            proof {
                let pre = s.subrange(0, i as int);
                assert(pre.last() == s[i - 1]);
                assert(pre.drop_last() =~= s.subrange(0, i - 1));
                assert(spec_record(pre, day_key, save) == spec_record(
                    s.subrange(0, i - 1),
                    day_key,
                    save,
                ).push(s[i - 1]));
                assert(spec_record(s.subrange(0, i - 1), day_key, save).push(s[i - 1])
                    + s.subrange(i as int, n as int) =~= spec_record(
                    s.subrange(0, i - 1),
                    day_key,
                    save,
                ) + s.subrange(i - 1, n as int));
            }
            i = i - 1;
        }
        proof {
            let pre = s.subrange(0, i as int);
            if i > 0 {
                assert(pre.last() == s[i - 1]);
                assert(pre.drop_last() =~= s.subrange(0, i - 1));
            }
            lemma_record_lookup(s, day_key, save);
            lemma_record_entries(s, day_key, save);
            lemma_record_sorted(s, day_key, save);
        }
        if i > 0 && self.scores[i - 1].0 == day_key {
            self.scores.set(i - 1, (day_key, save));
            proof {
                assert(self@ =~= spec_record(s.subrange(0, i as int), day_key, save) + s.subrange(
                    i as int,
                    n as int,
                ));
            }
        } else {
            self.scores.insert(i, (day_key, save));
            proof {
                assert(self@ =~= spec_record(s.subrange(0, i as int), day_key, save) + s.subrange(
                    i as int,
                    n as int,
                ));
            }
        }
        proof {
            assert forall|i2: int| 0 <= i2 < self@.len() implies self@[i2].1.guesses@.len() > 0 by {
                if self@[i2] != (day_key, save) {
                    let j = choose|j: int| 0 <= j < s.len() && s[j] == self@[i2];
                }
            }
        }
    }

    /// How many recorded games were won.
    pub fn wins(&self) -> (r: usize)
        requires
            self.wf(),
        ensures
            r as int == spec_wins_prefix(self@, self@.len() as int),
    {
        let n = self.scores.len();
        let mut count: usize = 0;
        for i in 0..n
            invariant
                n == self@.len(),
                self.wf(),
                count <= i,
                count as int == spec_wins_prefix(self@, i as int),
        {
            if self.scores[i].1.was_won() {
                count = count + 1;
            }
        }
        count
    }

    /// The share of recorded games that were won, in whole percent,
    /// rounded down; a history with no games has a win rate of zero.
    pub fn win_rate_percent(&self) -> (r: usize)
        requires
            self.wf(),
        ensures
            self@.len() == 0 ==> r == 0,
            self@.len() > 0 ==> r as int == spec_wins_prefix(self@, self@.len() as int) * 100
                / self@.len() as int,
    {
        let total = self.scores.len();
        if total == 0 {
            return 0;
        }
        let won = self.wins();
        let percent = (won as u128 * 100) / (total as u128);
        proof {
            lemma_wins_bounded(self@, self@.len() as int);
            assert(percent <= 100) by (nonlinear_arith)
                requires
                    won <= total,
                    total > 0,
                    percent as int == (won as int * 100) / (total as int),
            {}
        }
        percent as usize
    }

    /// Whether the most recent recorded game was won.
    pub fn won_last(&self) -> (r: bool)
        requires
            self.wf(),
        ensures
            r == (self@.len() > 0 && self@.last().1.spec_was_won()),
    {
        let n = self.scores.len();
        if n == 0 {
            return false;
        }
        self.scores[n - 1].1.was_won()
    }

    /// The streak the player is currently on: the length of the run of
    /// winning days ending at the most recent game, zero if that game was
    /// lost.
    pub fn current_streak(&self) -> (r: usize)
        requires
            self.wf(),
        ensures
            r as int == spec_current_streak(self@),
    {
        let n = self.scores.len();
        let mut run: usize = 0;
        for i in 0..n
            invariant
                n == self@.len(),
                self.wf(),
                run <= i,
                i > 0 ==> run as int == run_ending_at(self@, i - 1),
                i == 0 ==> run == 0,
        {
            let won = self.scores[i].1.was_won();
            if !won {
                run = 0;
            } else if i > 0 && self.scores[i].0 as i128 - self.scores[i - 1].0 as i128 <= ONE_DAY_SECONDS as i128 {
                run = run + 1;
            } else {
                run = 1;
            }
        }
        run
    }

    /// The longest streak anywhere in the history.
    pub fn max_streak(&self) -> (r: usize)
        requires
            self.wf(),
        ensures
            r as int == spec_max_streak(self@),
    {
        let n = self.scores.len();
        let mut run: usize = 0;
        let mut longest: usize = 0;
        for i in 0..n
            invariant
                n == self@.len(),
                self.wf(),
                run <= i,
                longest <= i,
                i > 0 ==> run as int == run_ending_at(self@, i - 1),
                i == 0 ==> run == 0,
                longest as int == spec_max_streak_prefix(self@, i as int),
        {
            let won = self.scores[i].1.was_won();
            if !won {
                run = 0;
            } else if i > 0 && self.scores[i].0 as i128 - self.scores[i - 1].0 as i128 <= ONE_DAY_SECONDS as i128 {
                run = run + 1;
            } else {
                run = 1;
            }
            if run > longest {
                longest = run;
            }
        }
        longest
    }

    /// For winning games only, how many were won in 1, 2, ... guesses:
    /// bucket `b` of the result counts the wins that used `b + 1` guesses.
    pub fn guess_distribution(&self, max_guesses: usize) -> (r: Vec<usize>)
        requires
            self.wf(),
        ensures
            r@.len() == max_guesses,
            forall|b: int|
                0 <= b < max_guesses ==> r@[b] as int == spec_wins_with_guesses(
                    self@,
                    b + 1,
                    self@.len() as int,
                ),
    {
        let n = self.scores.len();
        let mut r: Vec<usize> = Vec::new();
        for b in 0..max_guesses
            invariant
                n == self@.len(),
                self.wf(),
                r@.len() == b,
                forall|b2: int|
                    0 <= b2 < b ==> r@[b2] as int == spec_wins_with_guesses(
                        self@,
                        b2 + 1,
                        self@.len() as int,
                    ),
        {
            let mut count: usize = 0;
            for i in 0..n
                invariant
                    n == self@.len(),
                    self.wf(),
                    b < max_guesses,
                    count <= i,
                    count as int == spec_wins_with_guesses(self@, b + 1, i as int),
            {
                let entry = &self.scores[i].1;
                if entry.guesses.len() == b + 1 && entry.was_won() {
                    count = count + 1;
                }
            }
            r.push(count);
        }
        r
    }
}

} // verus!
