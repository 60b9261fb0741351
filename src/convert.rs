use crate::ascii::{render, render_text, table_chars};
use crate::font::{build_charset, found, glyph_of};
use crate::image::{
    block_height_spec, block_width_spec, compute_block_size, grid_view, lemma_grid_lum_bounded,
    sample_grid, sample_image_blocks, AspectRatio, RgbImage, LUM_MAX,
};
use vstd::prelude::*;

verus! {

/// A built-in character ramp, dark to light.
#[derive(Debug, Clone, Copy, PartialEq, Eq)]
pub enum CharsetPreset {
    Default,
    Dense,
    Blocks,
}

impl CharsetPreset {
    pub open spec fn chars_spec(&self) -> Seq<char> {
        match self {
            CharsetPreset::Default => "@%#*+=-:. "@,
            CharsetPreset::Dense => "@M#W$9876543210?!abc;:+=-,._ "@,
            CharsetPreset::Blocks => "█▓▒░ "@,
        }
    }

    /// The characters of the ramp, dark to light.
    pub fn chars(&self) -> (r: &'static str)
        ensures
            r@ == self.chars_spec(),
    {
        match self {
            CharsetPreset::Default => "@%#*+=-:. ",
            CharsetPreset::Dense => "@M#W$9876543210?!abc;:+=-,._ ",
            CharsetPreset::Blocks => "█▓▒░ ",
        }
    }
}

impl Default for CharsetPreset {
    fn default() -> (r: Self)
        ensures
            r == CharsetPreset::Default,
    {
        CharsetPreset::Default
    }
}

/// What a conversion needs besides the image.
#[derive(Debug, Clone)]
pub struct AsciiOptions {
    /// Characters per output row.
    pub width: u32,
    /// Character height over character width.
    pub aspect: AspectRatio,
    pub invert: bool,
    pub color: bool,
    /// A ramp of one's own, dark to light; it wins over `charset_preset`.
    pub charset: Option<String>,
    pub charset_preset: CharsetPreset,
}

impl Default for AsciiOptions {
    /// A hundred characters wide, characters twice as tall as wide, no
    /// inversion, no colour, the default ramp.
    fn default() -> (r: Self)
        ensures
            r.width == 100,
            r.aspect == (AspectRatio { num: 1, den: 2 }),
            !r.invert,
            !r.color,
            r.charset is None,
            r.charset_preset == CharsetPreset::Default,
    {
        AsciiOptions {
            width: 100,
            aspect: AspectRatio { num: 1, den: 2 },
            invert: false,
            color: false,
            charset: None,
            charset_preset: CharsetPreset::Default,
        }
    }
}

impl AsciiOptions {
    pub open spec fn resolved_charset_spec(&self) -> Seq<char> {
        match self.charset {
            Some(s) => s@,
            None => self.charset_preset.chars_spec(),
        }
    }

    /// The ramp in use: the custom one if given, else the preset's.
    pub fn resolved_charset(&self) -> (r: String)
        ensures
            r@ == self.resolved_charset_spec(),
    {
        match &self.charset {
            Some(s) => s.clone(),
            None => String::from_str(self.charset_preset.chars()),
        }
    }
}

/// The text rendering of `img` under `options`.
pub open spec fn image_to_ascii_spec(img: RgbImage, options: AsciiOptions) -> Seq<char> {
    let bw = block_width_spec(img.width_spec() as int, options.width as int);
    let bh = block_height_spec(bw, options.aspect);
    render_text(
        sample_grid(
            img,
            bw,
            bh,
            img.width_spec() as int,
            img.height_spec() as int,
            options.invert,
        ),
        found(options.resolved_charset_spec()),
        options.color,
    )
}

/// Converts an image to text: blocks sized for `options.width` characters
/// and `options.aspect`, each drawn with the character of its luminance.
pub fn image_to_ascii(img: &RgbImage, options: &AsciiOptions) -> (r: String)
    requires
        img.wf(),
        options.width > 0,
        options.aspect.is_positive_spec(),
    ensures
        r@ == image_to_ascii_spec(*img, *options),
{
    let (block_w, block_h) = compute_block_size(
        img.width(),
        img.height(),
        options.width,
        options.aspect,
    );
    let blocks = sample_image_blocks(
        img,
        block_w,
        block_h,
        img.width(),
        img.height(),
        options.invert,
    );
    let charset = options.resolved_charset();
    let char_bitmap = build_charset(charset.as_str());
    proof {
        lemma_grid_lum_bounded(
            *img,
            block_w as int,
            block_h as int,
            img.width_spec() as int,
            img.height_spec() as int,
            options.invert,
        );
        assert forall|i: int, j: int|
            0 <= i < blocks@.len() && 0 <= j < blocks@[i]@.len() implies #[trigger] blocks@[i]@[j].lum
            <= LUM_MAX by {
            assert(grid_view(blocks@)[i] == blocks@[i]@);
        }
        let cs = found(charset@);
        assert forall|k: int| 0 <= k < char_bitmap@.len() implies #[trigger] table_chars(
            char_bitmap@,
        )[k] == cs[k] by {
            assert(char_bitmap@[k].is_entry(cs[k], glyph_of(cs[k])->0));
        }
        assert(table_chars(char_bitmap@) =~= cs);
    }
    render(blocks, char_bitmap.as_slice(), options.color)
}

} // verus!
