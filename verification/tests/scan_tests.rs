use imp_orter::host::HostKind;
use imp_orter::scan::{get_wad_files_in_folder, listing_needed, names_collide, DirChild, ModEntry};

fn file(path: &str) -> DirChild {
    DirChild { path: Some(path.to_string()), is_file: true }
}

fn directory(path: &str) -> DirChild {
    DirChild { path: Some(path.to_string()), is_file: false }
}

fn entry(name: &str, path: &str) -> ModEntry {
    ModEntry { display_name: name.to_string(), absolute_path: path.to_string() }
}

#[test]
fn scan_empty_config() {
    let listing = vec![file("/mods/brutal.wad")];
    assert!(!listing_needed("empty"));
    assert!(!listing_needed(""));
    assert_eq!(get_wad_files_in_folder("empty", None, HostKind::UnixLike).entries(), &Vec::<ModEntry>::new());
    assert_eq!(get_wad_files_in_folder("", None, HostKind::UnixLike).entries(), &Vec::<ModEntry>::new());
    assert!(get_wad_files_in_folder("empty", Some(listing.clone()), HostKind::UnixLike).is_empty());
    assert!(get_wad_files_in_folder("", Some(listing), HostKind::UnixLike).is_empty());
}

#[test]
fn set_directory_needs_listing() {
    assert!(listing_needed("/mods"));
    assert!(listing_needed("Empty"));
    assert!(listing_needed(" "));
}

#[test]
fn unreadable_directory_gives_empty_index() {
    let index = get_wad_files_in_folder("/mods", None, HostKind::UnixLike);
    assert!(index.is_empty());
    assert_eq!(index.len(), 0);
}

#[test]
fn scan_keeps_regular_wad_files_only() {
    let listing = vec![
        file("/mods/readme.txt"),
        file("/mods/brutal.wad"),
        directory("/mods/maps.wad"),
        file("/mods/SIGIL.WAD"),
        file("/mods/wad"),
        file("/mods/cover.png"),
        DirChild { path: None, is_file: true },
    ];
    let index = get_wad_files_in_folder("/mods", Some(listing), HostKind::UnixLike);
    assert_eq!(
        index.entries(),
        &vec![entry("brutal.wad", "/mods/brutal.wad"), entry("SIGIL.WAD", "/mods/SIGIL.WAD")]
    );
    assert_eq!(index.len(), 2);
    assert_eq!(index.path_of("brutal.wad"), Some("/mods/brutal.wad".to_string()));
    assert_eq!(index.path_of("SIGIL.WAD"), Some("/mods/SIGIL.WAD".to_string()));
    assert_eq!(index.path_of("sigil.wad"), None);
    assert_eq!(index.path_of("readme.txt"), None);
    assert_eq!(index.path_of("maps.wad"), None);
}

#[test]
fn scan_of_empty_directory() {
    assert!(get_wad_files_in_folder("/mods", Some(Vec::new()), HostKind::UnixLike).is_empty());
}

#[test]
fn colliding_names_last_wins() {
    let listing = vec![
        file("/mods/Brutal.wad"),
        file("/mods/other.wad"),
        file("/mods/brutal.WAD"),
    ];
    let index = get_wad_files_in_folder("/mods", Some(listing), HostKind::UnixLike);
    assert_eq!(index.len(), 2);
    assert_eq!(index.path_of("brutal.WAD"), Some("/mods/brutal.WAD".to_string()));
    assert_eq!(index.path_of("Brutal.wad"), None);
    assert_eq!(index.path_of("other.wad"), Some("/mods/other.wad".to_string()));
}

#[test]
fn scan_twice_gives_equal_index() {
    let listing = vec![
        file("/mods/b.wad"),
        file("/mods/a.wad"),
        directory("/mods/sub"),
    ];
    let first = get_wad_files_in_folder("/mods", Some(listing.clone()), HostKind::UnixLike);
    let second = get_wad_files_in_folder("/mods", Some(listing), HostKind::UnixLike);
    assert_eq!(first, second);
}

#[test]
fn scan_in_another_order_gives_same_mapping() {
    let first = get_wad_files_in_folder(
        "/mods",
        Some(vec![file("/mods/b.wad"), file("/mods/a.wad")]),
        HostKind::UnixLike,
    );
    let second = get_wad_files_in_folder(
        "/mods",
        Some(vec![file("/mods/a.wad"), file("/mods/b.wad")]),
        HostKind::UnixLike,
    );
    for name in ["a.wad", "b.wad", "c.wad"] {
        assert_eq!(first.path_of(name), second.path_of(name));
    }
    assert_eq!(first.len(), second.len());
}

#[test]
fn names_collide_but_for_ascii_case() {
    assert!(names_collide("Brutal.WAD", "brutal.wad"));
    assert!(names_collide("", ""));
    assert!(!names_collide("brutal.wad", "brutal2.wad"));
    assert!(!names_collide("a.wad", "b.wad"));
    assert!(!names_collide("\u{c4}.wad", "\u{e4}.wad"));
}

#[test]
fn display_name_is_base_name_of_path() {
    let listing = vec![
        file("/mods/good.wad"),
        file("/mods/deep.wad/inner"),
        file("/mods/dir.wad/"),
        file("bare.wad"),
        file("/mods\\back.wad"),
        file("/mods/.wad"),
    ];
    let index = get_wad_files_in_folder("/mods", Some(listing), HostKind::UnixLike);
    assert_eq!(
        index.entries(),
        &vec![
            entry("good.wad", "/mods/good.wad"),
            entry("bare.wad", "bare.wad"),
            entry("mods\\back.wad", "/mods\\back.wad"),
            entry(".wad", "/mods/.wad"),
        ]
    );
    assert_eq!(index.host(), HostKind::UnixLike);
}

#[test]
fn base_name_goes_by_the_separators_of_the_host() {
    let listing = vec![
        file("C:\\mods\\brutal.wad"),
        file("C:/mods/sigil.wad"),
        file("D:drive.wad"),
    ];
    let index = get_wad_files_in_folder("C:\\mods", Some(listing.clone()), HostKind::Windows);
    assert_eq!(
        index.entries(),
        &vec![
            entry("brutal.wad", "C:\\mods\\brutal.wad"),
            entry("sigil.wad", "C:/mods/sigil.wad"),
            entry("drive.wad", "D:drive.wad"),
        ]
    );
    let index = get_wad_files_in_folder("C:\\mods", Some(listing), HostKind::MacOs);
    assert_eq!(
        index.entries(),
        &vec![
            entry("C:\\mods\\brutal.wad", "C:\\mods\\brutal.wad"),
            entry("sigil.wad", "C:/mods/sigil.wad"),
            entry("D:drive.wad", "D:drive.wad"),
        ]
    );
}
