//! The one-way text export of a finished game: one glyph per cell, one
//! line per guess, headed by the score.

use vstd::prelude::*;

use crate::board::{spec_score_char, CellValue};
use crate::session::rows_view;
use crate::text::push_char;

verus! {

/// The glyph line of one scored row.
pub open spec fn row_glyphs(g: Seq<CellValue>) -> Seq<char> {
    Seq::new(g.len(), |i: int| spec_score_char(g[i]))
}

/// The glyph lines of the first `n` rows, joined by line breaks.
pub open spec fn block_glyphs(gss: Seq<Seq<CellValue>>, n: int) -> Seq<char>
    decreases n,
{
    if n <= 0 {
        Seq::empty()
    } else if n == 1 {
        row_glyphs(gss[0])
    } else {
        block_glyphs(gss, n - 1) + seq!['\n'] + row_glyphs(gss[n - 1])
    }
}

/// The decimal digit `d` as a character.
pub open spec fn digit_char(d: int) -> char {
    if d == 0 {
        '0'
    } else if d == 1 {
        '1'
    } else if d == 2 {
        '2'
    } else if d == 3 {
        '3'
    } else if d == 4 {
        '4'
    } else if d == 5 {
        '5'
    } else if d == 6 {
        '6'
    } else if d == 7 {
        '7'
    } else if d == 8 {
        '8'
    } else {
        '9'
    }
}

/// The decimal digits of `n`, most significant first.
pub open spec fn spec_decimal(n: int) -> Seq<char>
    decreases n,
{
    if n < 10 {
        seq![digit_char(n)]
    } else {
        spec_decimal(n / 10).push(digit_char(n % 10))
    }
}

/// One decimal digit as a character.
fn digit_char_exec(d: usize) -> (r: char)
    requires
        d < 10,
    ensures
        r == digit_char(d as int),
{
    if d == 0 {
        '0'
    } else if d == 1 {
        '1'
    } else if d == 2 {
        '2'
    } else if d == 3 {
        '3'
    } else if d == 4 {
        '4'
    } else if d == 5 {
        '5'
    } else if d == 6 {
        '6'
    } else if d == 7 {
        '7'
    } else if d == 8 {
        '8'
    } else {
        '9'
    }
}

/// Render a number in decimal.
pub fn decimal_string(n: usize) -> (r: String)
    ensures
        r@ == spec_decimal(n as int),
{
    let mut digits: Vec<char> = Vec::new();
    let mut m = n;
    proof {
        assert(spec_decimal(n as int) =~= spec_decimal(m as int) + digits@);
    }
    while m >= 10
        invariant
            spec_decimal(n as int) == spec_decimal(m as int) + digits@,
        decreases m,
    {
        let ghost pre = digits@;
        let d = m % 10;
        digits.insert(0, digit_char_exec(d));
        proof {
            assert(spec_decimal(m as int) + pre =~= spec_decimal(m as int / 10) + digits@);
        }
        m = m / 10;
    }
    digits.insert(0, digit_char_exec(m));
    proof {
        assert(spec_decimal(m as int) + digits@.drop_first() =~= digits@);
        assert(digits@ =~= spec_decimal(n as int));
    }
    let mut out = String::new();
    let k = digits.len();
    for j in 0..k
        invariant
            k == digits@.len(),
            out@ == digits@.subrange(0, j as int),
    {
        push_char(&mut out, digits[j]);
        proof {
            assert(out@ =~= digits@.subrange(0, j + 1 as int));
        }
    }
    proof {
        assert(out@ =~= digits@);
    }
    out
}

/// One line of glyphs per guess, joined by line breaks.
pub fn generate_unicode_block(guesses: &Vec<Vec<CellValue>>) -> (r: String)
    ensures
        r@ == block_glyphs(rows_view(guesses@), guesses@.len() as int),
{
    let n = guesses.len();
    let ghost gss = rows_view(guesses@);
    let mut out = String::new();
    for i in 0..n
        invariant
            n == guesses@.len(),
            gss == rows_view(guesses@),
            out@ == block_glyphs(gss, i as int),
    {
        if i > 0 {
            out.append("\n");
            proof {
                reveal_strlit("\n");
                assert(out@ =~= block_glyphs(gss, i as int) + seq!['\n']);
            }
        }
        let row = &guesses[i];
        let m = row.len();
        let ghost line_start = out@;
        proof {
            assert(gss[i as int] == guesses@[i as int]@);
            assert(row_glyphs(gss[i as int]).len() == m);
        }
        for j in 0..m
            invariant
                i < n == guesses@.len(),
                m == row@.len(),
                row@ == guesses@[i as int]@,
                gss == rows_view(guesses@),
                out@ == line_start + row_glyphs(gss[i as int]).subrange(0, j as int),
        {
            let glyph = row[j].score_char();
            push_char(&mut out, glyph);
            proof {
                assert(gss[i as int] == guesses@[i as int]@);
                assert(row_glyphs(gss[i as int])[j as int] == glyph);
                assert(out@ =~= line_start + row_glyphs(gss[i as int]).subrange(0, j + 1 as int));
            }
        }
        proof {
            assert(row_glyphs(gss[i as int]).subrange(0, m as int) =~= row_glyphs(gss[i as int]));
            if i == 0 {
                assert(out@ =~= block_glyphs(gss, i + 1 as int));
            } else {
                assert(out@ =~= block_glyphs(gss, i + 1 as int));
            }
        }
    }
    proof {
        assert(out@ =~= block_glyphs(gss, n as int));
    }
    out
}

/// The full share text: the game name, the guesses used out of those
/// allowed (an X for a loss), any mode markers, a blank line, and the
/// glyph block.
pub open spec fn spec_score_copy(
    won: bool,
    max_guesses: int,
    gss: Seq<Seq<CellValue>>,
    modifiers: Seq<char>,
) -> Seq<char> {
    "Paudle "@ + (if won {
        spec_decimal(gss.len() as int)
    } else {
        "X"@
    }) + "/"@ + spec_decimal(max_guesses) + modifiers + "\n\n"@ + block_glyphs(
        gss,
        gss.len() as int,
    )
}

/// The copyable score text of a finished game.
pub fn generate_score_copy(
    won: bool,
    max_guesses: usize,
    guesses: &Vec<Vec<CellValue>>,
    modifiers: &str,
) -> (r: String)
    ensures
        r@ == spec_score_copy(won, max_guesses as int, rows_view(guesses@), modifiers@),
{
    let mut out = String::from_str("Paudle ");
    if won {
        let score = decimal_string(guesses.len());
        out.append(score.as_str());
    } else {
        out.append("X");
    }
    out.append("/");
    let allowed = decimal_string(max_guesses);
    out.append(allowed.as_str());
    out.append(modifiers);
    out.append("\n\n");
    let block = generate_unicode_block(guesses);
    out.append(block.as_str());
    proof {
        assert(rows_view(guesses@).len() == guesses@.len());
        assert(out@ =~= spec_score_copy(won, max_guesses as int, rows_view(guesses@), modifiers@));
    }
    out
}

} // verus!
