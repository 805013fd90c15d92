use imp_orter::host::HostKind;
use imp_orter::text::{
    char_is_separator, char_is_whitespace, chars_of, find_final_component,
    has_wad_suffix, same_text, split_lines, to_ascii_lower,
};

fn chars(text: &str) -> Vec<char> {
    text.chars().collect()
}

#[test]
fn chars_of_keeps_order() {
    assert_eq!(chars_of("a.W"), vec!['a', '.', 'W']);
    assert_eq!(chars_of(""), Vec::<char>::new());
    assert_eq!(chars_of("é/ß"), vec!['é', '/', 'ß']);
}

#[test]
fn ascii_lower_changes_only_ascii_capitals() {
    assert_eq!(to_ascii_lower('A'), 'a');
    assert_eq!(to_ascii_lower('Z'), 'z');
    assert_eq!(to_ascii_lower('W'), 'w');
    assert_eq!(to_ascii_lower('w'), 'w');
    assert_eq!(to_ascii_lower('@'), '@');
    assert_eq!(to_ascii_lower('['), '[');
    assert_eq!(to_ascii_lower('É'), 'É');
    for code in 0u32..0x3000 {
        if let Some(c) = char::from_u32(code) {
            assert_eq!(to_ascii_lower(c), c.to_ascii_lowercase());
        }
    }
}

#[test]
fn whitespace_is_what_trim_removes() {
    for code in 0u32..0x11000 {
        if let Some(c) = char::from_u32(code) {
            assert_eq!(char_is_whitespace(c), c.is_whitespace(), "U+{:04X}", code);
        }
    }
}

#[test]
fn wad_suffix_ignores_ascii_case() {
    assert!(has_wad_suffix("brutal.wad"));
    assert!(has_wad_suffix("BRUTAL.WAD"));
    assert!(has_wad_suffix("maps/Brutal.WaD"));
    assert!(has_wad_suffix(".wad"));
    assert!(!has_wad_suffix("wad"));
    assert!(!has_wad_suffix("brutal.wad/"));
    assert!(!has_wad_suffix("brutal.wad "));
    assert!(!has_wad_suffix("brutalwad"));
    assert!(!has_wad_suffix("brutal.pk3"));
    assert!(!has_wad_suffix(""));
    assert!(!has_wad_suffix("brutal.w\u{e4}d"));
}

#[test]
fn same_text_compares_characters() {
    assert!(same_text("", ""));
    assert!(same_text("GZDoom", "GZDoom"));
    assert!(!same_text("GZDoom", "gzdoom"));
    assert!(!same_text("GZDoom", "GZDoom "));
    assert!(!same_text("a", "b"));
}

#[test]
fn final_component_starts_behind_last_separator() {
    for host in [HostKind::UnixLike, HostKind::MacOs, HostKind::Windows] {
        assert_eq!(find_final_component(&chars("maps/brutal.wad"), host), 5);
        assert_eq!(find_final_component(&chars("brutal.wad"), host), 0);
        assert_eq!(find_final_component(&chars("a/b/"), host), 4);
        assert_eq!(find_final_component(&chars("/"), host), 1);
        assert_eq!(find_final_component(&chars(""), host), 0);
    }
    assert_eq!(find_final_component(&chars("a\\b"), HostKind::UnixLike), 0);
    assert_eq!(find_final_component(&chars("a\\b"), HostKind::MacOs), 0);
    assert_eq!(find_final_component(&chars("a\\b"), HostKind::Windows), 2);
    assert_eq!(find_final_component(&chars("a/b\\c"), HostKind::Windows), 4);
    assert_eq!(find_final_component(&chars("C:x"), HostKind::Windows), 2);
    assert_eq!(find_final_component(&chars("C:x"), HostKind::UnixLike), 0);
}

#[test]
fn separators_by_host() {
    for host in [HostKind::UnixLike, HostKind::MacOs, HostKind::Windows] {
        assert!(char_is_separator('/', host));
        assert!(!char_is_separator('.', host));
        assert!(!char_is_separator('w', host));
    }
    assert!(char_is_separator('\\', HostKind::Windows));
    assert!(char_is_separator(':', HostKind::Windows));
    assert!(!char_is_separator('\\', HostKind::UnixLike));
    assert!(!char_is_separator(':', HostKind::MacOs));
}

#[test]
fn split_lines_matches_lines() {
    for text in [
        "",
        "\n",
        "a",
        "a\n",
        "a\nb",
        "a\r\nb\r\n",
        "a\r",
        "a\r\n",
        "\r\n",
        "\r",
        "a\n\nb",
        "\n\n",
        "a\rb\n\r\nc",
        "x = 1\ny = 2\n\n",
    ] {
        let expected: Vec<String> = text.lines().map(|line| line.to_string()).collect();
        assert_eq!(split_lines(text), expected, "{:?}", text);
    }
}
