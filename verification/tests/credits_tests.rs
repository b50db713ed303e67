use hakai_core::credits::{
    build_from, license_url, license_url_for_lowercase, packed, paragraph, short_title,
    CreditsLine, SoundEntry, TextColor,
};

#[test]
fn paragraph_wraps_long_text_to_the_column_budget() {
    let mut out = Vec::new();
    let text = "This is a long sentence that should wrap across several lines once it exceeds the column budget given to it.";
    paragraph(&mut out, text, 30, TextColor::Dim);
    assert!(out.len() > 1, "a sentence this long should wrap into multiple lines at 30 columns");
    for line in &out {
        assert!(line.text.chars().count() <= 30, "line {:?} is {} chars, over the 30-column budget", line.text, line.text.chars().count());
    }
    let rejoined = out.iter().map(|l| l.text.as_str()).collect::<Vec<_>>().join(" ");
    assert_eq!(rejoined, text);
}

#[test]
fn packed_wraps_many_items_to_the_column_budget() {
    let mut out = Vec::new();
    let items: Vec<String> = (1..=20).map(|i| format!("Item {i}")).collect();
    packed(&mut out, &items, 30, TextColor::Dim);
    assert!(out.len() > 1, "20 items should need more than one line at 30 columns");
    for line in &out {
        assert!(line.text.chars().count() <= 30, "line {:?} is {} chars, over the 30-column budget", line.text, line.text.chars().count());
    }
}

#[test]
fn short_title_strips_the_file_prefix_extension_and_parenthetical() {
    assert_eq!(short_title("File:Hollow stick hit 2 (Gravity Sound).wav"), "Hollow stick hit 2");
    assert_eq!(short_title("Drip.wav"), "Drip");
}

#[test]
fn short_title_keeps_what_it_has_no_rule_for() {
    assert_eq!(short_title("plain"), "plain");
    assert_eq!(short_title("a.b.c"), "a.b");
    assert_eq!(short_title("File:x (y) z.ogg"), "x (y) z");
    assert_eq!(short_title("broken).wav"), "broken)");
    assert_eq!(short_title("  spaced  .wav"), "spaced");
}

#[test]
fn paragraph_lines_are_small_dim_and_gapless() {
    let mut out = Vec::new();
    paragraph(&mut out, "one two three", 7, TextColor::Dim);
    let texts: Vec<&str> = out.iter().map(|l| l.text.as_str()).collect();
    assert_eq!(texts, ["one two", "three"]);
    for line in &out {
        assert_eq!((line.size, line.color, line.gap_before), (11, TextColor::Dim, 0));
    }
}

#[test]
fn an_overlong_word_gets_a_line_of_its_own() {
    let mut out = Vec::new();
    paragraph(&mut out, "abcdef", 3, TextColor::White);
    let texts: Vec<&str> = out.iter().map(|l| l.text.as_str()).collect();
    assert_eq!(texts, ["", "abcdef"]);
}

#[test]
fn packed_lines_are_indented_and_separated() {
    let mut out = Vec::new();
    let items = vec!["Drip".to_string(), "Knock".to_string(), "Crash".to_string()];
    packed(&mut out, &items, 18, TextColor::Dim);
    let texts: Vec<&str> = out.iter().map(|l| l.text.as_str()).collect();
    assert_eq!(texts, ["  Drip  ·  Knock", "  Crash"]);
}

#[test]
fn packing_nothing_adds_nothing() {
    let mut out = Vec::new();
    packed(&mut out, &[], 30, TextColor::Dim);
    assert!(out.is_empty());
}

#[test]
fn licence_pages_are_found_in_any_case() {
    assert_eq!(license_url("CC BY 4.0"), Some("creativecommons.org/licenses/by/4.0/"));
    assert_eq!(license_url("cc by 3.0"), Some("creativecommons.org/licenses/by/3.0/"));
    assert_eq!(license_url("CC0"), Some("creativecommons.org/publicdomain/zero/1.0/"));
    assert_eq!(license_url("Public domain"), Some("en.wikipedia.org/wiki/Public_domain"));
    assert_eq!(license_url("GPL"), None);
    assert_eq!(license_url_for_lowercase(&"cc0".chars().collect()), Some("creativecommons.org/publicdomain/zero/1.0/"));
    assert_eq!(license_url_for_lowercase(&"CC0".chars().collect()), None);
}

fn entry(origin: &str, license: &str, author: &str, title: Option<&str>, modified: Option<&str>) -> SoundEntry {
    SoundEntry {
        origin: origin.to_string(),
        license: license.to_string(),
        author: author.to_string(),
        source_title: title.map(|t| t.to_string()),
        modified: modified.map(|m| m.to_string()),
    }
}

fn sample() -> Vec<(String, SoundEntry)> {
    vec![
        ("drip".to_string(), entry("commons", "CC BY 4.0", "Zed", Some("File:Drip (Zed).wav"), Some("trimmed"))),
        ("hum".to_string(), entry("synth", "CC0", "hakai", None, None)),
        ("knock".to_string(), entry("commons", "CC BY 4.0", "Amy", Some("Knock.wav"), Some("trimmed"))),
        ("pop".to_string(), entry("commons", "Public domain", "Bob", Some("Pop.ogg"), None)),
    ]
}

fn texts(lines: &[CreditsLine]) -> Vec<String> {
    lines.iter().map(|l| l.text.clone()).collect()
}

#[test]
fn credits_start_with_the_title_and_end_with_the_close_hint() {
    let lines = build_from(&sample(), 60);
    assert_eq!(lines.first().unwrap().text, "Acknowledgements");
    assert_eq!(lines.first().unwrap().size, 18);
    assert_eq!(lines.last().unwrap().text, "Press C to close");
}

#[test]
fn credits_group_by_licence_in_sorted_order() {
    let lines = texts(&build_from(&sample(), 60));
    let expected = [
        "Acknowledgements",
        "GRAPHICS",
        "Every decal, tool icon, sprite and this app's own icon is",
        "generated procedurally while it runs.",
        "There are no third-party image assets.",
        "AUDIO  —  4 sounds, mono 44.1 kHz 16-bit",
        "CC BY 4.0  ·  creativecommons.org/licenses/by/4.0/",
        "2 sounds by Amy, Zed, from Wikimedia Commons.",
        "Modified: trimmed",
        "  Drip  ·  Knock",
        "CC0  ·  creativecommons.org/publicdomain/zero/1.0/",
        "1 sounds by hakai, synthesised in tools/synth_sounds.py.",
        "  hum",
        "Public domain  ·  en.wikipedia.org/wiki/Public_domain",
        "1 sounds by Bob, from Wikimedia Commons.",
        "  Pop",
        "THE ORIGINAL",
        "Behaviour derived from Desktop Destroyer by Miroslav Němeček",
        "(breatharian.eu/Petr). This is an independent implementation;",
        "no asset from the original is included.",
        "Per-file source links are in this app's bundled sound manifest,",
        "and in CREDITS.md in the source repository.",
        "Press C to close",
    ];
    assert_eq!(lines, expected);
}

#[test]
fn every_licence_of_the_sample_is_represented() {
    let lines = texts(&build_from(&sample(), 60));
    assert!(lines.iter().any(|t| t.starts_with("CC BY 4.0")));
    assert!(lines.iter().any(|t| t.starts_with("CC0")));
    assert!(lines.iter().any(|t| t.starts_with("Public domain")));
}

#[test]
fn an_unknown_licence_has_a_bare_heading() {
    let sounds = vec![("x".to_string(), entry("commons", "Custom", "Eve", None, None))];
    let lines = build_from(&sounds, 60);
    assert_eq!(lines[6].text, "Custom");
    assert_eq!((lines[6].size, lines[6].color, lines[6].gap_before), (12, TextColor::Accent, 12));
}

#[test]
fn a_narrower_budget_gives_the_sample_at_least_as_many_lines() {
    let narrow = build_from(&sample(), 12).len();
    let wide = build_from(&sample(), 120).len();
    assert!(narrow >= wide);
}
