//! Scoring of a submitted guess against the secret word.
//!
//! A guess is scored in two passes: letters in the right place are marked
//! correct first, each consuming one occurrence of that letter in the
//! secret; the remaining positions are then marked present, left to right,
//! while unconsumed occurrences are left, and absent afterwards.

use vstd::prelude::*;

use crate::board::CellValue;

verus! {

/// How many of the first `n` characters of `s` equal `c`.
pub open spec fn count_in_prefix(s: Seq<char>, c: char, n: int) -> int
    decreases n,
{
    if n <= 0 {
        0
    } else {
        count_in_prefix(s, c, n - 1) + if s[n - 1] == c {
            1int
        } else {
            0int
        }
    }
}

/// Occurrences of `c` among the first `n` positions of the secret that are
/// not matched in place by the guess: these are available for `Present`
/// marks.
pub open spec fn avail_in_prefix(secret: Seq<char>, guess: Seq<char>, c: char, n: int) -> int
    decreases n,
{
    if n <= 0 {
        0
    } else {
        avail_in_prefix(secret, guess, c, n - 1) + if secret[n - 1] == c && guess[n - 1] != secret[
            n - 1
        ] {
            1int
        } else {
            0int
        }
    }
}

/// Occurrences of `c` among the first `n` positions of the guess that are
/// not matched in place: positions competing for the available occurrences.
pub open spec fn pending_in_prefix(secret: Seq<char>, guess: Seq<char>, c: char, n: int) -> int
    decreases n,
{
    if n <= 0 {
        0
    } else {
        pending_in_prefix(secret, guess, c, n - 1) + if guess[n - 1] == c && guess[n - 1] != secret[
            n - 1
        ] {
            1int
        } else {
            0int
        }
    }
}

/// The verdict of position `i`: correct when matched in place; otherwise
/// present exactly when the unmatched positions with the same letter to its
/// left have not yet used up the letter's unmatched occurrences in the
/// secret; absent otherwise.
pub open spec fn verdict_at(secret: Seq<char>, guess: Seq<char>, i: int) -> CellValue {
    if guess[i] == secret[i] {
        CellValue::Correct(guess[i])
    } else if pending_in_prefix(secret, guess, guess[i], i) < avail_in_prefix(
        secret,
        guess,
        guess[i],
        secret.len() as int,
    ) {
        CellValue::Present(guess[i])
    } else {
        CellValue::Absent(guess[i])
    }
}

/// The whole verdict row for a guess.
pub open spec fn spec_evaluate(secret: Seq<char>, guess: Seq<char>) -> Seq<CellValue> {
    Seq::new(guess.len(), |i: int| verdict_at(secret, guess, i))
}

/// Whether a verdict credits the letter `c` with an occurrence in the
/// secret: it does exactly when it marks `c` correct or present.
pub open spec fn cell_scores(v: CellValue, c: char) -> bool {
    v == CellValue::Correct(c) || v == CellValue::Present(c)
}

/// How many of the first `n` verdicts credit the letter `c`.
pub open spec fn scored_in_prefix(vs: Seq<CellValue>, c: char, n: int) -> int
    decreases n,
{
    if n <= 0 {
        0
    } else {
        scored_in_prefix(vs, c, n - 1) + if cell_scores(vs[n - 1], c) {
            1int
        } else {
            0int
        }
    }
}

/// Positions among the first `n` where `c` is matched in place.
spec fn correct_in_prefix(secret: Seq<char>, guess: Seq<char>, c: char, n: int) -> int
    decreases n,
{
    if n <= 0 {
        0
    } else {
        correct_in_prefix(secret, guess, c, n - 1) + if secret[n - 1] == c && guess[n - 1]
            == secret[n - 1] {
            1int
        } else {
            0int
        }
    }
}

/// Positions among the first `n` whose verdict is `Present(c)`.
spec fn present_in_prefix(secret: Seq<char>, guess: Seq<char>, c: char, n: int) -> int
    decreases n,
{
    if n <= 0 {
        0
    } else {
        present_in_prefix(secret, guess, c, n - 1) + if verdict_at(secret, guess, n - 1)
            == CellValue::Present(c) {
            1int
        } else {
            0int
        }
    }
}

proof fn lemma_counts_nonneg(secret: Seq<char>, guess: Seq<char>, c: char, n: int)
    ensures
        avail_in_prefix(secret, guess, c, n) >= 0,
        pending_in_prefix(secret, guess, c, n) >= 0,
    decreases n,
{
    if n > 0 {
        lemma_counts_nonneg(secret, guess, c, n - 1);
    }
}

/// The presents among the first `n` positions are exactly the smaller of
/// the pending occurrences of `c` there and the occurrences the secret has
/// to give: a pending position is marked present precisely while some
/// availability is left.
proof fn lemma_present_is_min(secret: Seq<char>, guess: Seq<char>, c: char, n: int)
    requires
        secret.len() == guess.len(),
        0 <= n <= guess.len(),
    ensures
        present_in_prefix(secret, guess, c, n) == if pending_in_prefix(secret, guess, c, n)
            <= avail_in_prefix(secret, guess, c, secret.len() as int) {
            pending_in_prefix(secret, guess, c, n)
        } else {
            avail_in_prefix(secret, guess, c, secret.len() as int)
        },
    decreases n,
{
    lemma_counts_nonneg(secret, guess, c, secret.len() as int);
    if n > 0 {
        lemma_present_is_min(secret, guess, c, n - 1);
        lemma_counts_nonneg(secret, guess, c, n - 1);
    }
}

proof fn lemma_correct_plus_avail(secret: Seq<char>, guess: Seq<char>, c: char, n: int)
    ensures
        correct_in_prefix(secret, guess, c, n) + avail_in_prefix(secret, guess, c, n)
            == count_in_prefix(secret, c, n),
    decreases n,
{
    if n > 0 {
        lemma_correct_plus_avail(secret, guess, c, n - 1);
    }
}

proof fn lemma_scored_split(
    secret: Seq<char>,
    guess: Seq<char>,
    verdicts: Seq<CellValue>,
    c: char,
    n: int,
)
    requires
        secret.len() == guess.len(),
        verdicts.len() == guess.len(),
        0 <= n <= verdicts.len(),
        forall|i: int| 0 <= i < verdicts.len() ==> verdicts[i] == verdict_at(secret, guess, i),
    ensures
        scored_in_prefix(verdicts, c, n) == correct_in_prefix(secret, guess, c, n)
            + present_in_prefix(secret, guess, c, n),
    decreases n,
{
    if n > 0 {
        lemma_scored_split(secret, guess, verdicts, c, n - 1);
    }
}

/// Verdicts never credit a letter with more correct-or-present marks than
/// that letter has occurrences in the secret.
pub proof fn lemma_scores_bounded_by_secret(
    secret: Seq<char>,
    guess: Seq<char>,
    verdicts: Seq<CellValue>,
    c: char,
)
    requires
        secret.len() == guess.len(),
        verdicts.len() == guess.len(),
        forall|i: int| 0 <= i < verdicts.len() ==> verdicts[i] == verdict_at(secret, guess, i),
    ensures
        scored_in_prefix(verdicts, c, verdicts.len() as int) <= count_in_prefix(
            secret,
            c,
            secret.len() as int,
        ),
{
    let n = guess.len() as int;
    lemma_present_is_min(secret, guess, c, n);
    lemma_correct_plus_avail(secret, guess, c, n);
    lemma_scored_split(secret, guess, verdicts, c, n);
    lemma_counts_nonneg(secret, guess, c, n);
}

/// Collect the characters of `s` into a vector.
fn chars_vec(s: &str) -> (v: Vec<char>)
    ensures
        v@ == s@,
{
    let n = s.unicode_len();
    let mut v: Vec<char> = Vec::new();
    for i in 0..n
        invariant
            n == s@.len(),
            v@ == s@.subrange(0, i as int),
    {
        v.push(s.get_char(i));
        assert(v@ =~= s@.subrange(0, i + 1 as int));
    }
    assert(v@ =~= s@);
    v
}

/// Score `guess` against `word`, position by position.
pub fn evaluate_guess(word: &str, guess: &str) -> (r: Vec<CellValue>)
    requires
        word@.len() == guess@.len(),
    ensures
        r@.len() == guess@.len(),
        forall|i: int| 0 <= i < r@.len() ==> r@[i] == verdict_at(word@, guess@, i),
        r@ == spec_evaluate(word@, guess@),
{
    let w = chars_vec(word);
    let g = chars_vec(guess);
    let n = w.len();
    let mut vals: Vec<CellValue> = Vec::new();
    for i in 0..n
        invariant
            n == w.len() == g.len(),
            w@ == word@,
            g@ == guess@,
            vals@.len() == i,
            forall|k: int| 0 <= k < i ==> vals@[k] == verdict_at(word@, guess@, k),
    {
        if g[i] == w[i] {
            vals.push(CellValue::Correct(g[i]));
        } else {
            let c = g[i];
            let mut avail: usize = 0;
            for j in 0..n
                invariant
                    n == w.len() == g.len(),
                    w@ == word@,
                    g@ == guess@,
                    i < n,
                    c == guess@[i as int],
                    avail <= j,
                    avail == avail_in_prefix(word@, guess@, c, j as int),
            {
                if w[j] == c && w[j] != g[j] {
                    avail = avail + 1;
                }
            }
            let mut pend: usize = 0;
            for j in 0..i
                invariant
                    n == w.len() == g.len(),
                    w@ == word@,
                    g@ == guess@,
                    i < n,
                    c == guess@[i as int],
                    pend <= j,
                    pend == pending_in_prefix(word@, guess@, c, j as int),
                    avail == avail_in_prefix(word@, guess@, c, n as int),
            {
                if g[j] == c && g[j] != w[j] {
                    pend = pend + 1;
                }
            }
            if pend < avail {
                vals.push(CellValue::Present(c));
            } else {
                vals.push(CellValue::Absent(c));
            }
        }
        assert(vals@[i as int] == verdict_at(word@, guess@, i as int));
    }
    assert(vals@ =~= spec_evaluate(word@, guess@));
    vals
}

} // verus!
