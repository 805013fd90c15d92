use imp_orter::config::{
    check_config_file, key_of, line_sets_key, parse_setting, read_config, store_choice,
    update_gzdoom_path, update_wad_directory, update_wad_path, value_is_unset, ConfigOption,
    ConfigSnapshot, Setting,
};

const DEFAULT: &str = "gzDoom_Path = empty\nwad_Path = empty\nmods_Directory = empty";

#[test]
fn missing_file_gets_default_text() {
    assert_eq!(check_config_file(None), (DEFAULT.to_string(), true));
}

#[test]
fn existing_file_is_kept() {
    assert_eq!(
        check_config_file(Some("wad_Path = /games/DOOM2.WAD\n".to_string())),
        ("wad_Path = /games/DOOM2.WAD\n".to_string(), false)
    );
    assert_eq!(check_config_file(Some(String::new())), (String::new(), false));
}

#[test]
fn default_text_has_every_option_unset() {
    let config = read_config(DEFAULT);
    for option in [ConfigOption::EnginePath, ConfigOption::IwadPath, ConfigOption::ModDirectory] {
        assert_eq!(config.option(option), "empty");
        assert!(value_is_unset(&config.option(option)));
    }
}

#[test]
fn unset_values() {
    assert!(value_is_unset("empty"));
    assert!(value_is_unset(""));
    assert!(!value_is_unset("Empty"));
    assert!(!value_is_unset(" "));
    assert!(!value_is_unset("empty "));
    assert!(!value_is_unset("/mods"));
}

#[test]
fn keys_of_options() {
    assert_eq!(key_of(ConfigOption::EnginePath), "gzDoom_Path");
    assert_eq!(key_of(ConfigOption::IwadPath), "wad_Path");
    assert_eq!(key_of(ConfigOption::ModDirectory), "mods_Directory");
}

#[test]
fn line_is_split_at_first_equals_sign() {
    assert_eq!(
        parse_setting("  key\t=  a = b  "),
        Some(Setting { key: "key".to_string(), value: "a = b".to_string() })
    );
    assert_eq!(
        parse_setting("="),
        Some(Setting { key: String::new(), value: String::new() })
    );
    assert_eq!(
        parse_setting("k=\u{a0}v\u{3000}"),
        Some(Setting { key: "k".to_string(), value: "v".to_string() })
    );
    assert_eq!(parse_setting("no separator here"), None);
    assert_eq!(parse_setting(""), None);
}

#[test]
fn line_parts_are_trimmed_like_trim() {
    for text in ["", " ", "  a b \t", "a", "\u{2003}x\u{85}", "\r x y \r", "h\u{e9}llo \u{1680}"] {
        let line = format!("{}={}", text, text);
        let expected = Setting { key: text.trim().to_string(), value: text.trim().to_string() };
        assert_eq!(parse_setting(&line), Some(expected), "{:?}", text);
    }
}

#[test]
fn read_config_ignores_lines_without_equals_sign() {
    let config = read_config("# comment\ngzDoom_Path = /opt/gz/gzdoom\r\n\nwad_Path=/games/DOOM2.WAD\n");
    assert_eq!(config.get("gzDoom_Path"), Some("/opt/gz/gzdoom".to_string()));
    assert_eq!(config.get("wad_Path"), Some("/games/DOOM2.WAD".to_string()));
    assert_eq!(config.get("mods_Directory"), None);
    assert_eq!(config.get("# comment"), None);
    assert_eq!(config.option(ConfigOption::ModDirectory), "");
}

#[test]
fn read_config_last_line_wins() {
    let config = read_config("wad_Path = first\nwad_Path = second");
    assert_eq!(config.get("wad_Path"), Some("second".to_string()));
}

#[test]
fn read_config_of_empty_text() {
    let config = read_config("");
    assert_eq!(config.get("gzDoom_Path"), None);
    assert_eq!(
        config.snapshot(),
        ConfigSnapshot {
            engine_path: String::new(),
            iwad_path: String::new(),
            mod_directory: String::new(),
        }
    );
}

#[test]
fn snapshot_holds_the_three_paths() {
    let config = read_config("mods_Directory = /mods\ngzDoom_Path = /opt/gz/gzdoom\nwad_Path = empty\nother = 1");
    assert_eq!(
        config.snapshot(),
        ConfigSnapshot {
            engine_path: "/opt/gz/gzdoom".to_string(),
            iwad_path: "empty".to_string(),
            mod_directory: "/mods".to_string(),
        }
    );
}

#[test]
fn update_rewrites_only_its_own_line() {
    assert_eq!(
        update_gzdoom_path(DEFAULT, "/opt/gz/gzdoom"),
        "gzDoom_Path = /opt/gz/gzdoom\nwad_Path = empty\nmods_Directory = empty"
    );
    assert_eq!(
        update_wad_path(DEFAULT, "/games/DOOM2.WAD"),
        "gzDoom_Path = empty\nwad_Path = /games/DOOM2.WAD\nmods_Directory = empty"
    );
    assert_eq!(
        update_wad_directory(DEFAULT, "/mods"),
        "gzDoom_Path = empty\nwad_Path = empty\nmods_Directory = /mods"
    );
}

#[test]
fn update_keeps_unknown_keys() {
    assert_eq!(
        update_wad_path("theme = dark\nwad_Path = old\n\nnot a setting", "new"),
        "theme = dark\nwad_Path = new\n\nnot a setting"
    );
}

#[test]
fn update_keeps_line_endings() {
    assert_eq!(
        update_wad_path("a = 1\r\nwad_Path = x\r\n", "y"),
        "a = 1\r\nwad_Path = y\r\n"
    );
    assert_eq!(update_wad_path("wad_Path = x\n", "y"), "wad_Path = y\n");
    assert_eq!(update_wad_path("wad_Path = x\r", "y"), "wad_Path = y\r");
    assert_eq!(update_wad_path("wad_Path = x\n\r\n\n", "y"), "wad_Path = y\n\r\n\n");
    for text in ["", "\n", "\n\n", "x\n\n", "a\r\r\n", "no key\r\nat all", "\r"] {
        assert_eq!(update_wad_path(text, "y"), text, "{:?}", text);
    }
}

#[test]
fn update_keeps_the_number_of_lines() {
    for text in [
        "",
        "\n",
        "wad_Path = x",
        "wad_Path = x\n\n",
        "a\n\nwad_Path=1\r\n\r\nwad_Path_old=2\n",
        DEFAULT,
    ] {
        let updated = update_wad_path(text, "/new");
        let before: Vec<&str> = text.lines().collect();
        let after: Vec<&str> = updated.lines().collect();
        assert_eq!(after.len(), before.len(), "{:?}", text);
        for (old, new) in before.iter().zip(after.iter()) {
            if line_sets_key(old, "wad_Path") {
                assert_eq!(*new, "wad_Path = /new");
            } else {
                assert_eq!(new, old);
            }
        }
    }
}

#[test]
fn update_keeps_keys_that_only_begin_with_the_option() {
    assert_eq!(
        update_wad_path("wad_Path = /a\nwad_Path_old = /b", "/c"),
        "wad_Path = /c\nwad_Path_old = /b"
    );
    assert_eq!(update_gzdoom_path("gzDoom_PathX = 1", "/opt/gz"), "gzDoom_PathX = 1");
    assert_eq!(update_wad_directory("mods_Directory2=x", "/mods"), "mods_Directory2=x");
    assert_eq!(update_wad_path("wad_Path_old = x", "y"), "wad_Path_old = x");
}

#[test]
fn update_goes_by_the_key_of_the_line() {
    assert_eq!(update_wad_path(" wad_Path\t=x", "y"), "wad_Path = y");
    assert_eq!(update_wad_path("wad_Path=", "y"), "wad_Path = y");
    assert_eq!(update_wad_path("wad_Path = a = b", "y"), "wad_Path = y");
    assert_eq!(update_wad_path("wad_path = x", "y"), "wad_path = x");
    assert_eq!(update_wad_path("wad_Path", "y"), "wad_Path");
    assert_eq!(update_wad_path("wad_Path x = 1", "y"), "wad_Path x = 1");
    assert_eq!(update_wad_path("other = wad_Path = 1", "y"), "other = wad_Path = 1");
    assert_eq!(update_wad_path("wad_Path = 1\nwad_Path = 2", "y"), "wad_Path = y\nwad_Path = y");
}

#[test]
fn line_sets_key_by_its_parsed_key() {
    assert!(line_sets_key("wad_Path = x", "wad_Path"));
    assert!(line_sets_key("  wad_Path=", "wad_Path"));
    assert!(!line_sets_key("wad_Path_old = x", "wad_Path"));
    assert!(!line_sets_key("wad_Path", "wad_Path"));
    assert!(!line_sets_key("", "wad_Path"));
    assert!(line_sets_key("= x", ""));
}

#[test]
fn update_changes_one_value_and_no_other_key() {
    let before = "theme = dark\nwad_Path = /a\nwad_Path_old = /b\n# note\ngzDoom_Path = /gz";
    let after = update_wad_path(before, "/c");
    let old = read_config(before);
    let new = read_config(&after);
    assert_eq!(new.get("wad_Path"), Some("/c".to_string()));
    for key in ["theme", "wad_Path_old", "gzDoom_Path", "mods_Directory", "# note"] {
        assert_eq!(new.get(key), old.get(key), "{}", key);
    }
    assert_eq!(after.lines().count(), before.lines().count());
}

#[test]
fn cancelled_choice_changes_nothing() {
    assert_eq!(store_choice(DEFAULT, ConfigOption::IwadPath, ""), None);
    assert_eq!(store_choice(DEFAULT, ConfigOption::EnginePath, "empty"), None);
    assert_eq!(
        store_choice(DEFAULT, ConfigOption::IwadPath, "/games/DOOM2.WAD"),
        Some("gzDoom_Path = empty\nwad_Path = /games/DOOM2.WAD\nmods_Directory = empty".to_string())
    );
    assert_eq!(
        store_choice(DEFAULT, ConfigOption::EnginePath, "/opt/gz/GZDoom"),
        Some(update_gzdoom_path(DEFAULT, "/opt/gz/GZDoom"))
    );
    assert_eq!(
        store_choice(DEFAULT, ConfigOption::ModDirectory, "/mods"),
        Some(update_wad_directory(DEFAULT, "/mods"))
    );
}

#[test]
fn update_then_read_gives_new_value() {
    let updated = update_wad_directory(DEFAULT, "/home/me/my mods");
    assert_eq!(read_config(&updated).option(ConfigOption::ModDirectory), "/home/me/my mods");
    assert_eq!(read_config(&updated).option(ConfigOption::EnginePath), "empty");
}
