use crate::font::CharBitmap;
use crate::image::{grid_view, BlockSample, LUM_MAX};
use vstd::arithmetic::div_mod::lemma_fundamental_div_mod_converse;
use vstd::prelude::*;

verus! {

/// Relies on `String::push`: the char is appended at the end.
#[verifier::external_body]
fn push_char(s: &mut String, c: char)
    ensures
        final(s)@ == old(s)@.push(c),
{
    s.push(c)
}

/// The characters of a glyph table, in its order.
pub open spec fn table_chars(table: Seq<CharBitmap>) -> Seq<char> {
    table.map_values(|e: CharBitmap| e.ch)
}

/// Position on an `n`-entry ramp for a luminance:
/// `round(lum / 255 * (n - 1))`, halves rounded up.
pub open spec fn ramp_index(lum: int, n: int) -> int {
    (2 * lum * (n - 1) + LUM_MAX) / (2 * LUM_MAX)
}

/// The character for a luminance: a space on an empty table, else the entry
/// at the luminance's position on the table taken as a dark-to-light ramp.
pub open spec fn match_char_spec(lum: int, chars: Seq<char>) -> char {
    if chars.len() == 0 {
        ' '
    } else {
        chars[ramp_index(lum, chars.len() as int)]
    }
}

/// The decimal digit `d` as a character.
pub open spec fn digit(d: int) -> char {
    ((48 + d) as u8) as char
}

/// The decimal digits of a byte, without leading zeros.
pub open spec fn decimal(n: u8) -> Seq<char> {
    if n >= 100 {
        seq![digit(n as int / 100), digit((n as int / 10) % 10), digit(n as int % 10)]
    } else if n >= 10 {
        seq![digit(n as int / 10), digit(n as int % 10)]
    } else {
        seq![digit(n as int)]
    }
}

/// The escape that sets a 24-bit foreground colour.
pub open spec fn color_prefix(r: u8, g: u8, b: u8) -> Seq<char> {
    seq!['\x1b', '[', '3', '8', ';', '2', ';'] + decimal(r) + seq![';'] + decimal(g) + seq![';']
        + decimal(b) + seq!['m']
}

/// The escape that resets all attributes.
pub open spec fn color_reset() -> Seq<char> {
    seq!['\x1b', '[', '0', 'm']
}

/// The text of one block drawn as `c`.
pub open spec fn cell_text(s: BlockSample, c: char, color: bool) -> Seq<char> {
    if color {
        color_prefix(s.r, s.g, s.b) + seq![c] + color_reset()
    } else {
        seq![c]
    }
}

pub open spec fn row_text(row: Seq<BlockSample>, chars: Seq<char>, color: bool) -> Seq<char>
    decreases row.len(),
{
    if row.len() == 0 {
        Seq::empty()
    } else {
        row_text(row.drop_last(), chars, color) + cell_text(
            row.last(),
            match_char_spec(row.last().lum as int, chars),
            color,
        )
    }
}

/// The text of a block grid: each row's cells, then a line feed.
pub open spec fn render_text(rows: Seq<Seq<BlockSample>>, chars: Seq<char>, color: bool) -> Seq<
    char,
>
    decreases rows.len(),
{
    if rows.len() == 0 {
        Seq::empty()
    } else {
        render_text(rows.drop_last(), chars, color) + row_text(rows.last(), chars, color) + seq![
            '\n',
        ]
    }
}

/// Picks the character for a luminance (in units of 1/10000) from a table
/// ordered dark to light; a space when the table is empty.
pub fn match_char(intensity: u32, charset: &[CharBitmap]) -> (c: char)
    requires
        intensity <= LUM_MAX,
    ensures
        c == match_char_spec(intensity as int, table_chars(charset@)),
{
    if charset.len() == 0 {
        return ' ';
    }
    let n: u128 = charset.len() as u128;
    proof {
        let (l, m) = (intensity as int, n as int);
        assert(2 * l * (m - 1) <= 2 * 2550000 * 0xffff_ffff_ffff_ffffu64) by (nonlinear_arith)
            requires
                0 <= l <= 2550000,
                1 <= m <= 0xffff_ffff_ffff_ffff,
        ;
        assert((2 * l * (m - 1) + 2550000) / (2 * 2550000int) < m) by (nonlinear_arith)
            requires
                0 <= l <= 2550000,
                1 <= m,
        ;
    }
    let idx = ((2 * intensity as u128 * (n - 1) + LUM_MAX as u128) / (2 * LUM_MAX as u128)) as usize;
    charset[idx].ch
}

fn push_decimal(s: &mut String, n: u8)
    ensures
        final(s)@ == old(s)@ + decimal(n),
{
    if n >= 100 {
        push_char(s, ((48 + n / 100) as u8) as char);
    }
    if n >= 10 {
        push_char(s, ((48 + (n / 10) % 10) as u8) as char);
    }
    push_char(s, ((48 + n % 10) as u8) as char);
    assert(final(s)@ =~= old(s)@ + decimal(n));
}

fn push_cell(s: &mut String, sample: BlockSample, c: char, color: bool)
    ensures
        final(s)@ == old(s)@ + cell_text(sample, c, color),
{
    if color {
        push_char(s, '\x1b');
        push_char(s, '[');
        push_char(s, '3');
        push_char(s, '8');
        push_char(s, ';');
        push_char(s, '2');
        push_char(s, ';');
        push_decimal(s, sample.r);
        push_char(s, ';');
        push_decimal(s, sample.g);
        push_char(s, ';');
        push_decimal(s, sample.b);
        push_char(s, 'm');
        push_char(s, c);
        push_char(s, '\x1b');
        push_char(s, '[');
        push_char(s, '0');
        push_char(s, 'm');
    } else {
        push_char(s, c);
    }
    assert(final(s)@ =~= old(s)@ + cell_text(sample, c, color));
}

/// Draws a block grid row by row: each block becomes the character that its
/// luminance picks, wrapped in a 24-bit colour escape of the block's colour
/// when `color_enabled`; each row ends with a line feed.
pub fn render(blocks: Vec<Vec<BlockSample>>, charset: &[CharBitmap], color_enabled: bool) -> (r:
    String)
    requires
        forall|i: int, j: int|
            0 <= i < blocks@.len() && 0 <= j < blocks@[i]@.len() ==> #[trigger] blocks@[i]@[j].lum
                <= LUM_MAX,
    ensures
        r@ == render_text(grid_view(blocks@), table_chars(charset@), color_enabled),
{
    let ghost rows = grid_view(blocks@);
    let ghost chars = table_chars(charset@);
    let mut out = String::new();
    let mut i: usize = 0;
    while i < blocks.len()
        invariant
            i <= blocks@.len(),
            rows == grid_view(blocks@),
            chars == table_chars(charset@),
            forall|a: int, b: int|
                0 <= a < blocks@.len() && 0 <= b < blocks@[a]@.len() ==> #[trigger] blocks@[a]@[b].lum
                    <= LUM_MAX,
            out@ == render_text(rows.take(i as int), chars, color_enabled),
        decreases blocks@.len() - i,
    {
        let row = &blocks[i];
        let ghost before = out@;
        let mut j: usize = 0;
        while j < row.len()
            invariant
                i < blocks@.len(),
                j <= row@.len(),
                row@ == rows[i as int],
                row == blocks@[i as int],
                chars == table_chars(charset@),
                forall|a: int, b: int|
                    0 <= a < blocks@.len() && 0 <= b < blocks@[a]@.len() ==> #[trigger] blocks@[a]@[b].lum
                        <= LUM_MAX,
                out@ == before + row_text(row@.take(j as int), chars, color_enabled),
            decreases row@.len() - j,
        {
            let sample = row[j];
            assert(sample.lum <= LUM_MAX);
            let c = match_char(sample.lum, charset);
            assert(row@.take(j as int + 1).drop_last() =~= row@.take(j as int));
            push_cell(&mut out, sample, c, color_enabled);
            j = j + 1;
        }
        assert(row@.take(j as int) =~= row@);
        push_char(&mut out, '\n');
        assert(rows.take(i as int + 1).drop_last() =~= rows.take(i as int));
        i = i + 1;
    }
    assert(rows.take(i as int) =~= rows);
    out
}

/// The ends of the ramp: an empty table always gives a space; a one-entry
/// table gives its entry at every luminance; otherwise black (0) picks the
/// first entry and white (`LUM_MAX`) the last.
pub proof fn lemma_match_char_ends(chars: Seq<char>, lum: int)
    requires
        0 <= lum <= LUM_MAX,
    ensures
        chars.len() == 0 ==> match_char_spec(lum, chars) == ' ',
        chars.len() == 1 ==> match_char_spec(lum, chars) == chars[0],
        chars.len() > 0 ==> match_char_spec(0, chars) == chars[0],
        chars.len() > 0 ==> match_char_spec(LUM_MAX as int, chars) == chars[chars.len() - 1],
{
    let n = chars.len() as int;
    if n > 0 {
        lemma_fundamental_div_mod_converse(LUM_MAX as int, 2 * LUM_MAX, 0, LUM_MAX as int);
        assert(2 * 0 * (n - 1) == 0) by (nonlinear_arith);
        assert(ramp_index(0, n) == 0);
        if n == 1 {
            assert(2 * lum * (n - 1) == 0) by (nonlinear_arith)
                requires
                    n == 1,
            ;
        }
        lemma_fundamental_div_mod_converse(
            2 * LUM_MAX * (n - 1) + LUM_MAX,
            2 * LUM_MAX,
            n - 1,
            LUM_MAX as int,
        );
        assert(2 * LUM_MAX * (n - 1) == (n - 1) * (2 * LUM_MAX)) by (nonlinear_arith);
    }
}

} // verus!
