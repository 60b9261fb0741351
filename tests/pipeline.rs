use pixel2ascii::ascii::{match_char, render};
use pixel2ascii::cli::{CharsetPreset, Cli};
use pixel2ascii::font::{build_charset, compute_intensity, missing_glyphs, CharBitmap};
use pixel2ascii::image::{
    block_color, compute_block_size, sample_image_blocks, AspectRatio, BlockSample, RgbImage,
    LUM_MAX,
};
use pixel2ascii::{image_to_ascii, AsciiOptions};

fn uniform_image(width: u32, height: u32, r: u8, g: u8, b: u8) -> RgbImage {
    let mut data = Vec::new();
    for _ in 0..(width * height) {
        data.push(r);
        data.push(g);
        data.push(b);
    }
    RgbImage::from_raw(width, height, data).unwrap()
}

fn entry(ch: char) -> CharBitmap {
    CharBitmap { ch, bitmap: vec![vec![0u8; 8]; 8], intensity: 0 }
}

fn ratio(num: u32, den: u32) -> AspectRatio {
    AspectRatio { num, den }
}

fn options(width: u32, aspect: AspectRatio, invert: bool, color: bool, charset: &str) -> AsciiOptions {
    AsciiOptions {
        width,
        aspect,
        invert,
        color,
        charset: Some(charset.to_string()),
        charset_preset: CharsetPreset::Default,
    }
}

#[test]
fn from_raw_wants_three_bytes_per_pixel() {
    assert!(RgbImage::from_raw(2, 2, vec![0u8; 11]).is_none());
    assert!(RgbImage::from_raw(2, 2, vec![0u8; 13]).is_none());
    let img = RgbImage::from_raw(2, 1, vec![1, 2, 3, 4, 5, 6]).unwrap();
    assert_eq!(img.width(), 2);
    assert_eq!(img.height(), 1);
    assert_eq!(img.get_pixel(1, 0), (4, 5, 6));
}

#[test]
fn block_width_is_rounded_ratio() {
    assert_eq!(compute_block_size(100, 50, 10, ratio(1, 2)), (10, 20));
    assert_eq!(compute_block_size(15, 15, 10, ratio(1, 1)), (2, 2));
    assert_eq!(compute_block_size(14, 14, 10, ratio(1, 1)), (1, 1));
    assert_eq!(compute_block_size(25, 25, 10, ratio(1, 1)), (3, 3));
}

#[test]
fn block_size_is_at_least_one() {
    assert_eq!(compute_block_size(3, 3, 10, ratio(1, 1)), (1, 1));
    assert_eq!(compute_block_size(0, 0, 7, ratio(4, 1)), (1, 1));
    assert_eq!(compute_block_size(10, 10, 10, ratio(3, 1)), (1, 1));
}

#[test]
fn block_height_follows_aspect() {
    assert_eq!(compute_block_size(40, 40, 10, ratio(1, 2)), (4, 8));
    assert_eq!(compute_block_size(40, 40, 10, ratio(2, 1)), (4, 2));
    assert_eq!(compute_block_size(30, 30, 10, ratio(2, 1)), (3, 2));
    assert_eq!(compute_block_size(10, 10, 1, ratio(1, 1)), (10, 10));
}

#[test]
fn block_height_saturates() {
    assert_eq!(compute_block_size(8, 8, 1, ratio(1, u32::MAX)), (8, u32::MAX));
}

#[test]
fn grid_counts_partial_blocks() {
    let img = uniform_image(5, 3, 9, 9, 9);
    let grid = sample_image_blocks(&img, 2, 2, 5, 3, false);
    assert_eq!(grid.len(), 2);
    for row in grid.iter() {
        assert_eq!(row.len(), 3);
    }
    let grid = sample_image_blocks(&img, 5, 3, 5, 3, false);
    assert_eq!(grid.len(), 1);
    assert_eq!(grid[0].len(), 1);
}

#[test]
fn block_average_truncates() {
    // Two pixels: red 1 and 2 average to 1, green 255 and 0 to 127.
    let img = RgbImage::from_raw(2, 1, vec![1, 255, 10, 2, 0, 11]).unwrap();
    let s = block_color(&img, 0, 0, 2, 1, false);
    assert_eq!((s.r, s.g, s.b), (1, 127, 10));
    assert_eq!(s.lum, 2126 * 1 + 7152 * 127 + 722 * 10);
}

#[test]
fn partial_block_averages_remaining_pixels() {
    let img = RgbImage::from_raw(3, 1, vec![0, 0, 0, 0, 0, 0, 90, 60, 30]).unwrap();
    let grid = sample_image_blocks(&img, 2, 1, 3, 1, false);
    assert_eq!(grid[0].len(), 2);
    let last = grid[0][1];
    assert_eq!((last.r, last.g, last.b), (90, 60, 30));
    let first = grid[0][0];
    assert_eq!((first.r, first.g, first.b), (0, 0, 0));
}

#[test]
fn uniform_block_luminance() {
    let img = uniform_image(4, 4, 10, 20, 30);
    let s = block_color(&img, 0, 0, 4, 4, false);
    assert_eq!((s.r, s.g, s.b), (10, 20, 30));
    assert_eq!(s.lum, 185960);
    let t = block_color(&img, 0, 0, 4, 4, true);
    assert_eq!(t.lum, LUM_MAX - 185960);
}

#[test]
fn white_and_black_luminance() {
    let white = uniform_image(1, 1, 255, 255, 255);
    assert_eq!(block_color(&white, 0, 0, 1, 1, false).lum, LUM_MAX);
    assert_eq!(block_color(&white, 0, 0, 1, 1, true).lum, 0);
    let black = uniform_image(1, 1, 0, 0, 0);
    assert_eq!(block_color(&black, 0, 0, 1, 1, false).lum, 0);
    assert_eq!(block_color(&black, 0, 0, 1, 1, true).lum, LUM_MAX);
}

#[test]
fn match_char_on_empty_table_is_space() {
    assert_eq!(match_char(0, &[]), ' ');
    assert_eq!(match_char(LUM_MAX, &[]), ' ');
}

#[test]
fn match_char_on_single_entry() {
    let t = vec![entry('#')];
    assert_eq!(match_char(0, &t), '#');
    assert_eq!(match_char(1234567, &t), '#');
    assert_eq!(match_char(LUM_MAX, &t), '#');
}

#[test]
fn match_char_ends_and_middle() {
    let t = vec![entry('a'), entry('b'), entry('c'), entry('d'), entry('e')];
    assert_eq!(match_char(0, &t), 'a');
    assert_eq!(match_char(LUM_MAX, &t), 'e');
    // 127.5 / 255 * 4 = 2.
    assert_eq!(match_char(1275000, &t), 'c');
    // 0.5 rounds up: 31.875 / 255 * 4 = 0.5.
    assert_eq!(match_char(318750, &t), 'b');
    assert_eq!(match_char(318749, &t), 'a');
}

#[test]
fn match_char_follows_table_order() {
    let t = vec![entry(' '), entry('@')];
    assert_eq!(match_char(0, &t), ' ');
    assert_eq!(match_char(LUM_MAX, &t), '@');
}

#[test]
fn build_charset_drops_unknown_characters() {
    let t = build_charset("a\u{e9}");
    assert_eq!(t.len(), 1);
    assert_eq!(t[0].ch, 'a');
    let t = build_charset("\u{e9}a");
    assert_eq!(t.len(), 1);
    assert_eq!(t[0].ch, 'a');
    assert_eq!(missing_glyphs("a\u{e9}b\u{3b1}"), vec!['\u{e9}', '\u{3b1}']);
}

#[test]
fn build_charset_keeps_order() {
    let t = build_charset("@%#*+=-:. ");
    let chars: Vec<char> = t.iter().map(|e| e.ch).collect();
    assert_eq!(chars, "@%#*+=-:. ".chars().collect::<Vec<char>>());
    assert!(missing_glyphs("@%#*+=-:. ").is_empty());
}

#[test]
fn build_charset_empty() {
    assert!(build_charset("").is_empty());
    assert!(build_charset("\u{e9}\u{e8}").is_empty());
}

#[test]
fn block_glyphs_come_from_block_table() {
    let t = build_charset("\u{2588}\u{2580}");
    assert_eq!(t.len(), 2);
    assert_eq!(t[0].ch, '\u{2588}');
    assert_eq!(t[0].intensity, 16320);
    assert!(t[0].bitmap.iter().all(|row| row.len() == 8 && row.iter().all(|&v| v == 255)));
    assert_eq!(t[1].intensity, 8160);
    assert!(t[1].bitmap[0].iter().all(|&v| v == 255));
    assert!(t[1].bitmap[7].iter().all(|&v| v == 0));
}

#[test]
fn glyph_cells_match_intensity() {
    for e in build_charset("@M#W$9876543210?!abc;:+=-,._ ").iter() {
        assert_eq!(e.bitmap.len(), 8);
        let mut sum = 0u32;
        for row in e.bitmap.iter() {
            assert_eq!(row.len(), 8);
            for &v in row.iter() {
                assert!(v == 0 || v == 255);
                sum += v as u32;
            }
        }
        assert_eq!(e.intensity, sum);
    }
}

#[test]
fn intensity_sums_cells() {
    assert_eq!(compute_intensity(&vec![vec![255u8; 8]; 8]), 16320);
    assert_eq!(compute_intensity(&vec![vec![0u8; 8]; 8]), 0);
    let mut half = vec![vec![0u8; 8]; 8];
    half[3][5] = 255;
    half[0][0] = 255;
    assert_eq!(compute_intensity(&half), 510);
}

#[test]
fn white_image_maps_to_space() {
    let img = uniform_image(2, 2, 255, 255, 255);
    let out = image_to_ascii(&img, &options(1, ratio(1, 1), false, false, "@ "));
    assert_eq!(out, " \n");
}

#[test]
fn inverted_white_image_maps_to_dark() {
    let img = uniform_image(2, 2, 255, 255, 255);
    let out = image_to_ascii(&img, &options(1, ratio(1, 1), true, false, "@ "));
    assert_eq!(out, "@\n");
}

#[test]
fn color_cell_escape() {
    let blocks = vec![vec![BlockSample { r: 255, g: 0, b: 0, lum: 542130 }]];
    let out = render(blocks, &[entry('X')], true);
    assert_eq!(out, "\x1b[38;2;255;0;0mX\x1b[0m\n");
}

#[test]
fn color_digits_without_leading_zeros() {
    let blocks = vec![vec![
        BlockSample { r: 7, g: 42, b: 100, lum: 0 },
        BlockSample { r: 0, g: 10, b: 9, lum: LUM_MAX },
    ]];
    let out = render(blocks, &[entry('a'), entry('b')], true);
    assert_eq!(out, "\x1b[38;2;7;42;100ma\x1b[0m\x1b[38;2;0;10;9mb\x1b[0m\n");
}

#[test]
fn render_plain_rows() {
    let dark = BlockSample { r: 0, g: 0, b: 0, lum: 0 };
    let light = BlockSample { r: 255, g: 255, b: 255, lum: LUM_MAX };
    let out = render(vec![vec![dark, light], vec![light, dark]], &[entry('#'), entry('.')], false);
    assert_eq!(out, "#.\n.#\n");
    assert_eq!(render(vec![], &[entry('#')], false), "");
    assert_eq!(render(vec![vec![dark]], &[], false), " \n");
}

#[test]
fn image_to_ascii_grid_shape() {
    let img = uniform_image(5, 3, 0, 0, 0);
    let out = image_to_ascii(&img, &options(3, ratio(1, 1), false, false, "#."));
    // block 2x2: 3 columns, 2 rows.
    assert_eq!(out, "###\n###\n");
}

#[test]
fn image_to_ascii_color() {
    let img = uniform_image(1, 1, 255, 0, 0);
    let out = image_to_ascii(&img, &options(1, ratio(1, 1), false, true, "X"));
    assert_eq!(out, "\x1b[38;2;255;0;0mX\x1b[0m\n");
}

#[test]
fn unknown_charset_renders_spaces() {
    let img = uniform_image(2, 1, 40, 80, 120);
    let out = image_to_ascii(&img, &options(2, ratio(1, 1), false, false, "\u{e9}\u{e8}"));
    assert_eq!(out, "  \n");
}

#[test]
fn presets_and_options() {
    assert_eq!(CharsetPreset::Default.chars(), "@%#*+=-:. ");
    assert_eq!(CharsetPreset::Dense.chars(), "@M#W$9876543210?!abc;:+=-,._ ");
    assert_eq!(CharsetPreset::Blocks.chars(), "█▓▒░ ");
    assert_eq!(CharsetPreset::default(), CharsetPreset::Default);
    let o = AsciiOptions::default();
    assert_eq!(o.width, 100);
    assert_eq!(o.aspect, ratio(1, 2));
    assert!(!o.invert && !o.color && o.charset.is_none());
    assert_eq!(o.resolved_charset(), "@%#*+=-:. ");
    let custom = options(10, ratio(1, 1), false, false, "ab");
    assert_eq!(custom.resolved_charset(), "ab");
    let blocks = AsciiOptions { charset_preset: CharsetPreset::Blocks, ..AsciiOptions::default() };
    assert_eq!(blocks.resolved_charset(), "█▓▒░ ");
}

fn cli() -> Cli {
    Cli {
        input: "in.png".to_string(),
        width: 100,
        aspect: ratio(1, 2),
        no_aspect: false,
        invert: false,
        color: false,
        bg: false,
        no_color: false,
        charset: None,
        charset_preset: CharsetPreset::Default,
        output: None,
        quiet: false,
    }
}

#[test]
fn cli_accepts_defaults() {
    assert_eq!(cli().validate(), Ok(()));
    let mut c = cli();
    c.width = 5000;
    c.charset = Some(" ab ".to_string());
    assert_eq!(c.validate(), Ok(()));
}

#[test]
fn cli_rejects_bad_width() {
    let mut c = cli();
    c.width = 0;
    assert_eq!(c.validate(), Err("--width must be > 0".to_string()));
    c.width = 5001;
    assert_eq!(c.validate(), Err("--width is unreasonably large; maximum is 5000".to_string()));
}

#[test]
fn cli_rejects_bad_aspect() {
    let mut c = cli();
    c.aspect = ratio(0, 1);
    assert_eq!(c.validate(), Err("--aspect must be > 0".to_string()));
}

#[test]
fn cli_rejects_bg_without_color() {
    let mut c = cli();
    c.bg = true;
    assert_eq!(c.validate(), Err("--bg requires --color to be set".to_string()));
    c.color = true;
    assert_eq!(c.validate(), Ok(()));
}

#[test]
fn cli_rejects_short_charset() {
    let msg = Err("--charset must contain at least 2 non-whitespace characters".to_string());
    let mut c = cli();
    c.charset = Some("  a \n".to_string());
    assert_eq!(c.validate(), msg);
    c.charset = Some("   ".to_string());
    assert_eq!(c.validate(), msg);
    c.charset = Some(String::new());
    assert_eq!(c.validate(), msg);
    c.charset = Some(" a b ".to_string());
    assert_eq!(c.validate(), Ok(()));
}

#[test]
fn cli_first_error_wins() {
    let mut c = cli();
    c.width = 0;
    c.aspect = ratio(0, 1);
    c.bg = true;
    assert_eq!(c.validate(), Err("--width must be > 0".to_string()));
}

#[test]
fn cli_resolves_charset_and_switches() {
    let mut c = cli();
    assert_eq!(c.resolved_charset(), "@%#*+=-:. ".chars().collect::<Vec<char>>());
    c.charset_preset = CharsetPreset::Dense;
    assert_eq!(c.resolved_charset(), "@M#W$9876543210?!abc;:+=-,._ ".chars().collect::<Vec<char>>());
    c.charset = Some("xy".to_string());
    assert_eq!(c.resolved_charset(), vec!['x', 'y']);
    c.color = true;
    assert!(c.color_enabled());
    c.no_color = true;
    assert!(!c.color_enabled());
    assert_eq!(c.effective_aspect(), ratio(1, 2));
    c.no_aspect = true;
    assert_eq!(c.effective_aspect(), ratio(1, 1));
}
