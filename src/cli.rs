use crate::image::AspectRatio;
use vstd::prelude::*;

pub use crate::convert::CharsetPreset;

verus! {

/// The widest rendering that the command accepts, in characters.
pub const MAX_WIDTH: u32 = 5000;

/// Whether a character has Unicode's White_Space property.
pub uninterp spec fn white_space(c: char) -> bool;

/// Relies on `char::is_whitespace`: true exactly for the characters with
/// Unicode's White_Space property, among them the space and the line feed.
#[verifier::external_body]
fn is_white_space(c: char) -> (r: bool)
    ensures
        r == white_space(c),
        c == ' ' || c == '\n' ==> r,
{
    c.is_whitespace()
}

/// Index of the first non-whitespace character of `s` at or after `i`.
pub open spec fn lead(s: Seq<char>, i: int) -> int
    decreases s.len() - i,
{
    if 0 <= i < s.len() && white_space(s[i]) {
        lead(s, i + 1)
    } else {
        i
    }
}

/// Index just past the last non-whitespace character of `s` before `j`.
pub open spec fn trail(s: Seq<char>, j: int) -> int
    decreases j,
{
    if 0 < j <= s.len() && white_space(s[j - 1]) {
        trail(s, j - 1)
    } else {
        j
    }
}

/// Number of characters of `s` once whitespace is cut from both ends.
pub open spec fn trimmed_len(s: Seq<char>) -> int {
    let (i, j) = (lead(s, 0), trail(s, s.len() as int));
    if i >= j {
        0
    } else {
        j - i
    }
}

/// The command's settings, as plain values.
#[derive(Debug, Clone)]
pub struct Cli {
    /// Path of the input image.
    pub input: String,
    /// Characters per output row.
    pub width: u32,
    /// Character height over width; a ratio that is not positive is held
    /// with `num == 0`.
    pub aspect: AspectRatio,
    /// Square blocks, whatever `aspect` says.
    pub no_aspect: bool,
    pub invert: bool,
    pub color: bool,
    /// Background colour mode; needs `color`.
    pub bg: bool,
    /// Grey output, whatever `color` says.
    pub no_color: bool,
    pub charset: Option<String>,
    pub charset_preset: CharsetPreset,
    /// Path of the output file; standard output when absent.
    pub output: Option<String>,
    pub quiet: bool,
}

/// The characters of a string, in order.
fn chars_of(s: &str) -> (r: Vec<char>)
    ensures
        r@ == s@,
{
    let n = s.unicode_len();
    let mut r: Vec<char> = Vec::new();
    let mut i: usize = 0;
    while i < n
        invariant
            i <= n == s@.len(),
            r@ == s@.take(i as int),
        decreases n - i,
    {
        r.push(s.get_char(i));
        assert(r@ =~= s@.take(i as int + 1));
        i = i + 1;
    }
    assert(s@.take(n as int) =~= s@);
    r
}

/// How many characters are left of `s` once whitespace is cut from both ends.
fn trimmed_char_count(s: &str) -> (r: usize)
    ensures
        r == trimmed_len(s@),
{
    let ghost t = s@;
    let n = s.unicode_len();
    let mut i: usize = 0;
    loop
        invariant
            i <= n == t.len(),
            t == s@,
            lead(t, i as int) == lead(t, 0),
        ensures
            i == lead(t, 0),
        decreases n - i,
    {
        if i == n {
            break;
        }
        if !is_white_space(s.get_char(i)) {
            break;
        }
        i = i + 1;
    }
    let mut j: usize = n;
    loop
        invariant
            j <= n == t.len(),
            t == s@,
            trail(t, j as int) == trail(t, n as int),
        ensures
            j == trail(t, n as int),
        decreases j,
    {
        if j == 0 {
            break;
        }
        if !is_white_space(s.get_char(j - 1)) {
            break;
        }
        j = j - 1;
    }
    if i >= j {
        0
    } else {
        j - i
    }
}

impl Cli {
    /// The first setting that is wrong, of those that need no file system,
    /// as its message: a width of 1 to `MAX_WIDTH`, a positive aspect, `bg`
    /// only with `color`, and a custom ramp of at least two characters once
    /// whitespace is cut from its ends.
    pub open spec fn settings_error(&self) -> Option<Seq<char>> {
        if self.width == 0 {
            Some("--width must be > 0"@)
        } else if self.width > MAX_WIDTH {
            Some("--width is unreasonably large; maximum is 5000"@)
        } else if !self.aspect.is_positive_spec() {
            Some("--aspect must be > 0"@)
        } else if self.bg && !self.color {
            Some("--bg requires --color to be set"@)
        } else if self.charset matches Some(s) && trimmed_len(s@) < 2 {
            Some("--charset must contain at least 2 non-whitespace characters"@)
        } else {
            None
        }
    }

    /// Checks the settings: `Err` with the message of the first one that is
    /// wrong, `Ok` when all hold.
    pub fn validate(&self) -> (r: Result<(), String>)
        ensures
            match r {
                Ok(()) => self.settings_error() is None,
                Err(e) => self.settings_error() == Some(e@),
            },
    {
        if self.width == 0 {
            return Err(String::from_str("--width must be > 0"));
        }
        if self.width > MAX_WIDTH {
            return Err(String::from_str("--width is unreasonably large; maximum is 5000"));
        }
        if !self.aspect.is_positive() {
            return Err(String::from_str("--aspect must be > 0"));
        }
        if self.bg && !self.color {
            return Err(String::from_str("--bg requires --color to be set"));
        }
        if let Some(s) = &self.charset {
            if trimmed_char_count(s.as_str()) < 2 {
                return Err(
                    String::from_str("--charset must contain at least 2 non-whitespace characters"),
                );
            }
        }
        Ok(())
    }

    pub open spec fn resolved_charset_spec(&self) -> Seq<char> {
        match self.charset {
            Some(s) => s@,
            None => self.charset_preset.chars_spec(),
        }
    }

    /// The ramp in use: the custom one if given, else the preset's.
    pub fn resolved_charset(&self) -> (r: Vec<char>)
        ensures
            r@ == self.resolved_charset_spec(),
    {
        match &self.charset {
            Some(s) => chars_of(s.as_str()),
            None => chars_of(self.charset_preset.chars()),
        }
    }

    /// Colour is on when asked for and not switched off.
    pub fn color_enabled(&self) -> (r: bool)
        ensures
            r == (self.color && !self.no_color),
    {
        self.color && !self.no_color
    }

    /// The aspect in use: square blocks under `no_aspect`.
    pub fn effective_aspect(&self) -> (r: AspectRatio)
        ensures
            r == (if self.no_aspect {
                AspectRatio { num: 1, den: 1 }
            } else {
                self.aspect
            }),
    {
        if self.no_aspect {
            AspectRatio { num: 1, den: 1 }
        } else {
            self.aspect
        }
    }
}

} // verus!
