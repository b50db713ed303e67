use hakai_core::credits::TextColor;
use hakai_core::theme::{
    credits_text_color, hud_rgba_arr, parse_hex_rgb, query_color_u8, read_hud_colors, HudColors,
    PAINT_COLOR_KEYS,
};

fn chars(s: &str) -> Vec<char> {
    s.chars().collect()
}

#[test]
fn eight_keys_in_decal_factory_order() {
    assert_eq!(PAINT_COLOR_KEYS.len(), 8);
}

#[test]
fn fallback_hud_colors_match_the_pre_theming_hardcoded_look() {
    assert_eq!(HudColors::fallback().background, (0, 0, 0));
    assert_eq!(HudColors::fallback().foreground, (255, 255, 255));
    assert_eq!(HudColors::fallback().accent, (140, 217, 255));
}

#[test]
fn hex_rgb_parses_a_well_formed_colour() {
    assert_eq!(parse_hex_rgb(&chars("#f7768e")), Some((0xf7, 0x76, 0x8e)));
}

#[test]
fn hex_rgb_accepts_either_case() {
    assert_eq!(parse_hex_rgb(&chars("#AABBCC")), parse_hex_rgb(&chars("#aabbcc")));
    assert_eq!(parse_hex_rgb(&chars("#AABBCC")), Some((0xaa, 0xbb, 0xcc)));
}

#[test]
fn hex_rgb_rejects_malformed_input() {
    assert_eq!(parse_hex_rgb(&chars("f7768e")), None);
    assert_eq!(parse_hex_rgb(&chars("#f7768")), None);
    assert_eq!(parse_hex_rgb(&chars("#f7768ez")), None);
    assert_eq!(parse_hex_rgb(&chars("#gggggg")), None);
    assert_eq!(parse_hex_rgb(&chars("")), None);
}

#[test]
fn resolver_output_is_trimmed_before_parsing() {
    assert_eq!(query_color_u8("  #1a1b26\n"), Some((0x1a, 0x1b, 0x26)));
    assert_eq!(query_color_u8("\n"), None);
    assert_eq!(query_color_u8("# 1a1b26"), None);
}

#[test]
fn hud_colours_are_all_or_nothing() {
    let all = read_hud_colors(Some("#1a1b26\n"), Some("#c0caf5\n"), Some("#7aa2f7\n"));
    assert_eq!(
        all,
        Some(HudColors { background: (0x1a, 0x1b, 0x26), foreground: (0xc0, 0xca, 0xf5), accent: (0x7a, 0xa2, 0xf7) })
    );
    assert_eq!(read_hud_colors(None, Some("#c0caf5"), Some("#7aa2f7")), None);
    assert_eq!(read_hud_colors(Some("#1a1b26"), Some("oops"), Some("#7aa2f7")), None);
    assert_eq!(read_hud_colors(Some("#1a1b26"), Some("#c0caf5"), None), None);
}

#[test]
fn credits_colours_follow_the_hud_palette() {
    let colors = HudColors { background: (1, 2, 3), foreground: (10, 20, 30), accent: (100, 110, 120) };
    assert_eq!(credits_text_color(TextColor::White, &colors), [10, 20, 30, 255]);
    assert_eq!(credits_text_color(TextColor::Dim, &colors), [10, 20, 30, 158]);
    assert_eq!(credits_text_color(TextColor::Accent, &colors), [100, 110, 120, 255]);
    assert_eq!(hud_rgba_arr((4, 5, 6), 7), [4, 5, 6, 7]);
}
