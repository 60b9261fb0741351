use vstd::prelude::*;

verus! {

/// The 8x8 glyph that font8x8's basic Latin table holds for a character.
pub uninterp spec fn basic_glyph(c: char) -> Seq<u8>;

/// The 8x8 glyph that font8x8's block-element table holds for a character.
pub uninterp spec fn block_glyph(c: char) -> Seq<u8>;

/// Relies on font8x8's `BASIC_FONTS.get`: its table holds one glyph, eight
/// row bytes, for each char of U+0000..=U+007F and none for any other.
#[verifier::external_body]
fn basic_lookup(c: char) -> (r: Option<[u8; 8]>)
    ensures
        r is Some <==> (c as u32) < 0x80,
        r matches Some(g) ==> g@ == basic_glyph(c),
{
    font8x8::UnicodeFonts::get(&font8x8::BASIC_FONTS, c)
}

/// Relies on font8x8's `BLOCK_FONTS.get`: its table holds one glyph, eight
/// row bytes, for each char of U+2580..=U+259F and none for any other.
#[verifier::external_body]
fn block_lookup(c: char) -> (r: Option<[u8; 8]>)
    ensures
        r is Some <==> 0x2580 <= (c as u32) <= 0x259f,
        r matches Some(g) ==> g@ == block_glyph(c),
{
    font8x8::UnicodeFonts::get(&font8x8::BLOCK_FONTS, c)
}

/// The glyph of `c`: basic Latin first, block elements as the fallback.
pub open spec fn glyph_of(c: char) -> Option<Seq<u8>> {
    if (c as u32) < 0x80 {
        Some(basic_glyph(c))
    } else if 0x2580 <= (c as u32) <= 0x259f {
        Some(block_glyph(c))
    } else {
        None
    }
}

/// Bit `x` of a glyph row byte as a cell: 255 when set, 0 when clear.
pub open spec fn cell_value(byte: u8, x: u8) -> u8 {
    if (byte >> x) & 1u8 == 1u8 {
        255
    } else {
        0
    }
}

/// The 8x8 cell grid of a glyph: row `y`, column `x` is bit `x` of byte `y`.
pub open spec fn bitmap_of(glyph: Seq<u8>) -> Seq<Seq<u8>> {
    Seq::new(8, |y: int| Seq::new(8, |x: int| cell_value(glyph[y], x as u8)))
}

pub open spec fn row_total(row: Seq<u8>) -> int
    decreases row.len(),
{
    if row.len() == 0 {
        0
    } else {
        row_total(row.drop_last()) + row.last()
    }
}

pub open spec fn grid_total(rows: Seq<Seq<u8>>) -> int
    decreases rows.len(),
{
    if rows.len() == 0 {
        0
    } else {
        grid_total(rows.drop_last()) + row_total(rows.last())
    }
}

/// The characters of `cs` that have a glyph, in their order.
pub open spec fn found(cs: Seq<char>) -> Seq<char>
    decreases cs.len(),
{
    if cs.len() == 0 {
        Seq::empty()
    } else if glyph_of(cs.last()) is Some {
        found(cs.drop_last()).push(cs.last())
    } else {
        found(cs.drop_last())
    }
}

/// The characters of `cs` that have no glyph, in their order.
pub open spec fn unfound(cs: Seq<char>) -> Seq<char>
    decreases cs.len(),
{
    if cs.len() == 0 {
        Seq::empty()
    } else if glyph_of(cs.last()) is Some {
        unfound(cs.drop_last())
    } else {
        unfound(cs.drop_last()).push(cs.last())
    }
}

/// A character with its 8x8 bitmap of 0 and 255 cells.
///
/// `intensity` is the sum of the 64 cells, so the mean brightness of the
/// glyph, from 0 to 255, is `intensity / 64`.
#[derive(Clone, Debug)]
pub struct CharBitmap {
    pub ch: char,
    pub bitmap: Vec<Vec<u8>>,
    pub intensity: u32,
}

pub open spec fn rows_view(rows: Seq<Vec<u8>>) -> Seq<Seq<u8>> {
    rows.map_values(|r: Vec<u8>| r@)
}

impl CharBitmap {
    /// This entry is `c` drawn with `glyph`.
    pub open spec fn is_entry(&self, c: char, glyph: Seq<u8>) -> bool {
        &&& self.ch == c
        &&& rows_view(self.bitmap@) == bitmap_of(glyph)
        &&& self.intensity == grid_total(bitmap_of(glyph))
    }
}

/// The glyph table of a character sequence, in its order.
pub open spec fn is_table_of(table: Seq<CharBitmap>, cs: Seq<char>) -> bool {
    &&& table.len() == found(cs).len()
    &&& forall|i: int|
        0 <= i < table.len() ==> #[trigger] table[i].is_entry(
            found(cs)[i],
            glyph_of(found(cs)[i])->0,
        )
}

/// The glyph of `c`, if the font has one.
fn lookup_glyph(c: char) -> (r: Option<[u8; 8]>)
    ensures
        r is Some <==> glyph_of(c) is Some,
        r matches Some(g) ==> g@ == glyph_of(c)->0,
{
    match basic_lookup(c) {
        Some(g) => Some(g),
        None => block_lookup(c),
    }
}

/// The 8x8 cells of a glyph.
fn glyph_bitmap(glyph: &[u8; 8]) -> (rows: Vec<Vec<u8>>)
    ensures
        rows_view(rows@) == bitmap_of(glyph@),
{
    let ghost cells = bitmap_of(glyph@);
    let mut rows: Vec<Vec<u8>> = Vec::new();
    let mut y: usize = 0;
    while y < 8
        invariant
            y <= 8,
            rows.len() == y,
            cells == bitmap_of(glyph@),
            forall|k: int| 0 <= k < y ==> #[trigger] rows@[k]@ == cells[k],
        decreases 8 - y,
    {
        let byte = glyph[y];
        let mut row: Vec<u8> = Vec::new();
        let mut x: u8 = 0;
        while x < 8
            invariant
                x <= 8,
                y < 8,
                row.len() == x,
                cells == bitmap_of(glyph@),
                byte == glyph@[y as int],
                forall|k: int| 0 <= k < x ==> #[trigger] row@[k] == cells[y as int][k],
            decreases 8 - x,
        {
            let v: u8 = if (byte >> x) & 1u8 == 1u8 {
                255
            } else {
                0
            };
            row.push(v);
            x = x + 1;
        }
        assert(row@ =~= cells[y as int]);
        rows.push(row);
        y = y + 1;
    }
    assert(rows_view(rows@) =~= cells);
    rows
}

proof fn lemma_row_total_bound(row: Seq<u8>)
    ensures
        0 <= row_total(row) <= 255 * row.len(),
    decreases row.len(),
{
    if row.len() > 0 {
        lemma_row_total_bound(row.drop_last());
    }
}

/// Sum of the cells of a bitmap of at most eight rows of at most eight cells.
pub fn compute_intensity(bitmap: &[Vec<u8>]) -> (r: u32)
    requires
        bitmap@.len() <= 8,
        forall|y: int| 0 <= y < bitmap@.len() ==> #[trigger] bitmap@[y]@.len() <= 8,
    ensures
        r == grid_total(rows_view(bitmap@)),
{
    let ghost rows = rows_view(bitmap@);
    let mut sum: u32 = 0;
    let mut y: usize = 0;
    while y < bitmap.len()
        invariant
            y <= bitmap@.len() <= 8,
            forall|k: int| 0 <= k < bitmap@.len() ==> #[trigger] bitmap@[k]@.len() <= 8,
            rows == rows_view(bitmap@),
            sum == grid_total(rows.take(y as int)),
            sum <= 2040 * (y as int),
        decreases bitmap@.len() - y,
    {
        let row = &bitmap[y];
        assert(bitmap@[y as int]@.len() <= 8);
        assert(rows[y as int] == row@);
        let mut x: usize = 0;
        let ghost before = sum as int;
        while x < row.len()
            invariant
                x <= row@.len() <= 8,
                y < bitmap@.len() <= 8,
                row@ == rows[y as int],
                before <= 2040 * (y as int),
                y < 8,
                sum == before + row_total(row@.take(x as int)),
                sum <= before + 255 * (x as int),
            decreases row@.len() - x,
        {
            assert(row@.take(x as int + 1).drop_last() =~= row@.take(x as int));
            sum = sum + row[x] as u32;
            x = x + 1;
        }
        assert(row@.take(x as int) =~= row@);
        assert(rows.take(y as int + 1).drop_last() =~= rows.take(y as int));
        y = y + 1;
    }
    assert(rows.take(y as int) =~= rows);
    sum
}

/// The glyph table of `charset`: one entry for each character that the font
/// draws, in the order given; a character without a glyph is left out.
pub fn build_charset(charset: &str) -> (table: Vec<CharBitmap>)
    ensures
        is_table_of(table@, charset@),
{
    let ghost cs = charset@;
    let n = charset.unicode_len();
    let mut table: Vec<CharBitmap> = Vec::new();
    let mut i: usize = 0;
    while i < n
        invariant
            i <= n == cs.len(),
            cs == charset@,
            is_table_of(table@, cs.take(i as int)),
        decreases n - i,
    {
        let c = charset.get_char(i);
        let ghost prev = table@;
        assert(cs.take(i as int + 1).drop_last() =~= cs.take(i as int));
        if let Some(glyph) = lookup_glyph(c) {
            let bitmap = glyph_bitmap(&glyph);
            assert(rows_view(bitmap@).len() == bitmap@.len());
            assert forall|y: int| 0 <= y < bitmap@.len() implies #[trigger] bitmap@[y]@.len()
                <= 8 by {
                assert(rows_view(bitmap@)[y] == bitmap@[y]@);
            }
            let intensity = compute_intensity(bitmap.as_slice());
            table.push(CharBitmap { ch: c, bitmap, intensity });
            assert forall|k: int| 0 <= k < table@.len() implies #[trigger] table@[k].is_entry(
                found(cs.take(i as int + 1))[k],
                glyph_of(found(cs.take(i as int + 1))[k])->0,
            ) by {
                if k < prev.len() {
                    assert(table@[k] == prev[k]);
                }
            }
        }
        i = i + 1;
    }
    assert(cs.take(n as int) =~= cs);
    table
}

/// The characters of `charset` that the font cannot draw, in their order.
pub fn missing_glyphs(charset: &str) -> (r: Vec<char>)
    ensures
        r@ == unfound(charset@),
{
    let ghost cs = charset@;
    let n = charset.unicode_len();
    let mut r: Vec<char> = Vec::new();
    let mut i: usize = 0;
    while i < n
        invariant
            i <= n == cs.len(),
            cs == charset@,
            r@ == unfound(cs.take(i as int)),
        decreases n - i,
    {
        let c = charset.get_char(i);
        assert(cs.take(i as int + 1).drop_last() =~= cs.take(i as int));
        if lookup_glyph(c).is_none() {
            r.push(c);
        }
        i = i + 1;
    }
    assert(cs.take(n as int) =~= cs);
    r
}

/// A character without a glyph is dropped and the order of the others is
/// kept: of one character the font draws and one it does not, in either
/// order, only the first remains.
pub proof fn lemma_unknown_dropped(known: char, unknown: char)
    requires
        glyph_of(known) is Some,
        glyph_of(unknown) is None,
    ensures
        found(seq![known, unknown]) == seq![known],
        found(seq![unknown, known]) == seq![known],
        unfound(seq![known, unknown]) == seq![unknown],
{
    reveal_with_fuel(found, 3);
    reveal_with_fuel(unfound, 3);
    assert(seq![known, unknown].drop_last() =~= seq![known]);
    assert(seq![unknown, known].drop_last() =~= seq![unknown]);
    assert(seq![known].drop_last() =~= Seq::<char>::empty());
    assert(seq![unknown].drop_last() =~= Seq::<char>::empty());
    assert(found(seq![known]) =~= seq![known]);
    assert(found(seq![unknown, known]) =~= seq![known]);
    assert(unfound(seq![known, unknown]) =~= seq![unknown]);
}

} // verus!
