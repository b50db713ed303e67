//! HUD chrome colours and the theme palette read from the resolver's output: parsing a
//! `#rrggbb` colour, the fallback look, and the colours the HUD paints with.

use vstd::prelude::*;
use crate::credits::TextColor;
use crate::text::chars_of;

verus! {

/// The HUD chrome colours: panel background, foreground (text and borders) and accent,
/// each `(r, g, b)`.
#[derive(Clone, Copy, Debug, PartialEq, Eq)]
pub struct HudColors {
    pub background: (u8, u8, u8),
    pub foreground: (u8, u8, u8),
    pub accent: (u8, u8, u8),
}

impl HudColors {
    /// Flat black panels, flat white text/borders, a light-blue accent — the pre-theming
    /// look, used whenever the theme can't be read.
    pub fn fallback() -> (r: HudColors)
        ensures
            r.background == (0u8, 0u8, 0u8),
            r.foreground == (255u8, 255u8, 255u8),
            r.accent == (140u8, 217u8, 255u8),
    {
        HudColors { background: (0, 0, 0), foreground: (255, 255, 255), accent: (140, 217, 255) }
    }
}

/// The theme keys of the eight paint colours, in the decal factory's order: red, green,
/// blue, yellow, purple, cyan, orange, pink (`bright_magenta` stands in for pink).
pub const PAINT_COLOR_KEYS: [&'static str; 8] = [
    "red",
    "green",
    "blue",
    "yellow",
    "purple",
    "cyan",
    "orange",
    "bright_magenta",
];

/// `char::is_whitespace`: the Unicode `White_Space` property.
pub open spec fn is_white_space(c: char) -> bool {
    let u = c as u32;
    (0x09 <= u <= 0x0D) || u == 0x20 || u == 0x85 || u == 0xA0 || u == 0x1680 || (0x2000 <= u
        <= 0x200A) || u == 0x2028 || u == 0x2029 || u == 0x202F || u == 0x205F || u == 0x3000
}

/// How many whitespace characters `s` starts with.
pub open spec fn leading_white(s: Seq<char>) -> nat
    decreases s.len(),
{
    if s.len() > 0 && is_white_space(s[0]) {
        1 + leading_white(s.drop_first())
    } else {
        0
    }
}

/// How many whitespace characters `s` ends with.
pub open spec fn trailing_white(s: Seq<char>) -> nat
    decreases s.len(),
{
    if s.len() > 0 && is_white_space(s.last()) {
        1 + trailing_white(s.drop_last())
    } else {
        0
    }
}

/// `str::trim`: `s` without its leading and trailing whitespace.
pub open spec fn trimmed(s: Seq<char>) -> Seq<char> {
    if leading_white(s) == s.len() {
        Seq::empty()
    } else {
        s.subrange(leading_white(s) as int, s.len() - trailing_white(s))
    }
}

/// An ASCII hexadecimal digit.
pub open spec fn is_hex_digit(c: char) -> bool {
    ('0' <= c <= '9') || ('a' <= c <= 'f') || ('A' <= c <= 'F')
}

/// The value of a hexadecimal digit.
pub open spec fn hex_value(c: char) -> int {
    if '0' <= c <= '9' {
        c as int - '0' as int
    } else if 'a' <= c <= 'f' {
        c as int - 'a' as int + 10
    } else {
        c as int - 'A' as int + 10
    }
}

/// The byte two hex digits spell, high digit first.
pub open spec fn hex_byte(hi: char, lo: char) -> u8 {
    (hex_value(hi) * 16 + hex_value(lo)) as u8
}

/// `#rrggbb` → the three channel bytes; `None` for anything else (missing `#`, wrong
/// length, a non-hex digit).
pub open spec fn parse_hex_rgb_spec(s: Seq<char>) -> Option<(u8, u8, u8)> {
    if s.len() == 7 && s[0] == '#' && (forall|i: int| 1 <= i < 7 ==> is_hex_digit(#[trigger] s[i])) {
        Some((hex_byte(s[1], s[2]), hex_byte(s[3], s[4]), hex_byte(s[5], s[6])))
    } else {
        None
    }
}

fn hex_digit_value(c: char) -> (r: Option<u8>)
    ensures
        is_hex_digit(c) ==> r == Some(hex_value(c) as u8) && hex_value(c) < 16,
        !is_hex_digit(c) ==> r is None,
{
    if '0' <= c && c <= '9' {
        Some((c as u32 - '0' as u32) as u8)
    } else if 'a' <= c && c <= 'f' {
        Some((c as u32 - 'a' as u32 + 10) as u8)
    } else if 'A' <= c && c <= 'F' {
        Some((c as u32 - 'A' as u32 + 10) as u8)
    } else {
        None
    }
}

fn hex_pair(hi: char, lo: char) -> (r: Option<u8>)
    ensures
        (is_hex_digit(hi) && is_hex_digit(lo)) ==> r == Some(hex_byte(hi, lo)),
        !(is_hex_digit(hi) && is_hex_digit(lo)) ==> r is None,
{
    let h = hex_digit_value(hi)?;
    let l = hex_digit_value(lo)?;
    Some(h * 16 + l)
}

/// Parses `#rrggbb` (either case) into its three channel bytes.
pub fn parse_hex_rgb(text: &Vec<char>) -> (r: Option<(u8, u8, u8)>)
    ensures
        r == parse_hex_rgb_spec(text@),
{
    if text.len() != 7 || text[0] != '#' {
        return None;
    }
    let red = hex_pair(text[1], text[2]);
    let green = hex_pair(text[3], text[4]);
    let blue = hex_pair(text[5], text[6]);
    match (red, green, blue) {
        (Some(r), Some(g), Some(b)) => {
            assert forall|i: int| 1 <= i < 7 implies is_hex_digit(#[trigger] text@[i]) by {
                if i == 1 || i == 2 {
                } else if i == 3 || i == 4 {
                } else {
                }
            }
            Some((r, g, b))
        },
        _ => None,
    }
}

/// The characters of `s` without leading and trailing whitespace.
pub fn trim_chars(s: &Vec<char>) -> (r: Vec<char>)
    ensures
        r@ == trimmed(s@),
{
    let n = s.len();
    let mut start: usize = 0;
    assert(s@.subrange(0, n as int) =~= s@);
    while start < n && is_white_space_exec(s[start])
        invariant
            0 <= start <= n,
            n == s@.len(),
            leading_white(s@) >= start,
            leading_white(s@.subrange(start as int, n as int)) + start == leading_white(s@),
        decreases n - start,
    {
        proof {
            lemma_leading_white_step(s@.subrange(start as int, n as int));
            assert(s@.subrange(start as int, n as int).drop_first() =~= s@.subrange(start + 1, n as int));
        }
        start = start + 1;
    }
    proof {
        if start < n {
            assert(s@.subrange(start as int, n as int)[0] == s@[start as int]);
        }
        assert(leading_white(s@) == start);
    }
    if start == n {
        return Vec::new();
    }
    let mut end: usize = n;
    assert(s@.subrange(0, n as int) =~= s@);
    assert(!is_white_space(s@[start as int]));
    while end > start && is_white_space_exec(s[end - 1])
        invariant
            start < n,
            start < end <= n,
            n == s@.len(),
            leading_white(s@) == start,
            trailing_white(s@.subrange(0, end as int)) + (n - end) == trailing_white(s@),
            !is_white_space(s@[start as int]),
        decreases end,
    {
        proof {
            lemma_trailing_white_step(s@.subrange(0, end as int));
            assert(s@.subrange(0, end as int).drop_last() =~= s@.subrange(0, end - 1));
        }
        end = end - 1;
    }
    proof {
        if end > start {
            assert(s@.subrange(0, end as int).last() == s@[end - 1]);
        }
        lemma_trailing_white_bound(s@.subrange(0, end as int), start as int);
        assert(end == n - trailing_white(s@));
        assert(trimmed(s@) == s@.subrange(start as int, end as int));
    }
    let mut out: Vec<char> = Vec::new();
    let mut i = start;
    while i < end
        invariant
            start <= i <= end,
            end <= n,
            n == s@.len(),
            out@ == s@.subrange(start as int, i as int),
        decreases end - i,
    {
        out.push(s[i]);
        assert(out@ =~= s@.subrange(start as int, i + 1));
        i = i + 1;
    }
    out
}

fn is_white_space_exec(c: char) -> (r: bool)
    ensures
        r == is_white_space(c),
{
    let u = c as u32;
    (0x09 <= u && u <= 0x0D) || u == 0x20 || u == 0x85 || u == 0xA0 || u == 0x1680 || (0x2000 <= u
        && u <= 0x200A) || u == 0x2028 || u == 0x2029 || u == 0x202F || u == 0x205F || u == 0x3000
}

proof fn lemma_leading_white_step(s: Seq<char>)
    requires
        s.len() > 0,
        is_white_space(s[0]),
    ensures
        leading_white(s) == 1 + leading_white(s.drop_first()),
{
}

proof fn lemma_trailing_white_step(s: Seq<char>)
    requires
        s.len() > 0,
        is_white_space(s.last()),
    ensures
        trailing_white(s) == 1 + trailing_white(s.drop_last()),
{
}

/// When `s` ends in a non-whitespace character (or at a non-whitespace character at
/// `start`), its trailing whitespace is exactly what lies after `s`'s own length.
proof fn lemma_trailing_white_bound(s: Seq<char>, start: int)
    requires
        0 <= start <= s.len(),
        start == s.len() ==> true,
        s.len() > start ==> !is_white_space(s.last()),
    ensures
        s.len() > start ==> trailing_white(s) == 0,
{
}

/// The colour the resolver printed for one key: its output with surrounding whitespace
/// removed, read as `#rrggbb`.
pub fn query_color_u8(output: &str) -> (r: Option<(u8, u8, u8)>)
    ensures
        r == parse_hex_rgb_spec(trimmed(output@)),
{
    let chars = chars_of(output);
    let t = trim_chars(&chars);
    parse_hex_rgb(&t)
}

/// The HUD colours from the resolver's output for `background`, `foreground` and
/// `accent` (`None` where it could not run or failed) — all or nothing, so themed and
/// default chrome are never mixed.
pub fn read_hud_colors(background: Option<&str>, foreground: Option<&str>, accent: Option<&str>) -> (r: Option<HudColors>)
    ensures
        r is Some <==> (background matches Some(b) && parse_hex_rgb_spec(trimmed(b@)) is Some)
            && (foreground matches Some(f) && parse_hex_rgb_spec(trimmed(f@)) is Some)
            && (accent matches Some(a) && parse_hex_rgb_spec(trimmed(a@)) is Some),
        r matches Some(c) ==> {
            &&& Some(c.background) == parse_hex_rgb_spec(trimmed(background->0@))
            &&& Some(c.foreground) == parse_hex_rgb_spec(trimmed(foreground->0@))
            &&& Some(c.accent) == parse_hex_rgb_spec(trimmed(accent->0@))
        },
{
    let bg = query_color_u8(background?)?;
    let fg = query_color_u8(foreground?)?;
    let ac = query_color_u8(accent?)?;
    Some(HudColors { background: bg, foreground: fg, accent: ac })
}

/// A HUD colour with the given alpha, as RGBA bytes.
pub fn hud_rgba_arr(color: (u8, u8, u8), alpha: u8) -> (r: [u8; 4])
    ensures
        r@ == seq![color.0, color.1, color.2, alpha],
{
    let r = [color.0, color.1, color.2, alpha];
    assert(r@ =~= seq![color.0, color.1, color.2, alpha]);
    r
}

/// The RGBA a credits line of the given colour is drawn in: full-strength foreground,
/// dimmed foreground (alpha 158), or the accent.
pub fn credits_text_color(color: TextColor, hud_colors: &HudColors) -> (r: [u8; 4])
    ensures
        r@ == match color {
            TextColor::White => seq![hud_colors.foreground.0, hud_colors.foreground.1, hud_colors.foreground.2, 255u8],
            TextColor::Dim => seq![hud_colors.foreground.0, hud_colors.foreground.1, hud_colors.foreground.2, 158u8],
            TextColor::Accent => seq![hud_colors.accent.0, hud_colors.accent.1, hud_colors.accent.2, 255u8],
        },
{
    match color {
        TextColor::White => hud_rgba_arr(hud_colors.foreground, 255),
        TextColor::Dim => hud_rgba_arr(hud_colors.foreground, 158),
        TextColor::Accent => hud_rgba_arr(hud_colors.accent, 255),
    }
}

} // verus!
