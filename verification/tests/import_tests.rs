use imp_orter::host::{import_mode, HostKind};
use imp_orter::import::{
    classify_entry, extract_and_move_wad, EntryClass, ImportAction, ImportEvent, ImportOp,
    ImportStep, Importer, Outcome,
};
use std::collections::BTreeMap;
use std::io::Write;

fn archive(entries: &[(&str, &[u8])]) -> Vec<u8> {
    let mut writer = zip::ZipWriter::new(std::io::Cursor::new(Vec::new()));
    let options = zip::write::SimpleFileOptions::default()
        .compression_method(zip::CompressionMethod::Stored);
    for (name, content) in entries {
        if name.ends_with('/') {
            writer.add_directory(*name, options).unwrap();
        } else {
            writer.start_file(*name, options).unwrap();
            writer.write_all(content).unwrap();
        }
    }
    writer.finish().unwrap().into_inner()
}

/// Starts an import and hands it the archive.
fn load(host: HostKind, bytes: Vec<u8>) -> ImportStep {
    let (importer, first) = extract_and_move_wad(host);
    assert_eq!(first, ImportAction::PickArchive { extensions: vec!["zip".to_string()] });
    let step = importer.step(ImportEvent::ArchivePicked(Some("/downloads/mod.zip".to_string())));
    let importer = match step {
        ImportStep::Continue(importer, action) => {
            assert_eq!(action, ImportAction::ReadArchive { path: "/downloads/mod.zip".to_string() });
            importer
        }
        ImportStep::Done(outcome) => panic!("ended with {:?}", outcome),
    };
    importer.step(ImportEvent::ArchiveLoaded(bytes))
}

/// Runs an import against a directory held in memory; the modes set are
/// recorded beside the contents.
fn import(
    host: HostKind,
    bytes: Vec<u8>,
    dir: &mut BTreeMap<String, Vec<u8>>,
    modes: &mut Vec<(String, Option<u32>)>,
) -> Outcome {
    let mut step = load(host, bytes);
    loop {
        let (importer, action) = match step {
            ImportStep::Done(outcome) => return outcome,
            ImportStep::Continue(importer, action) => (importer, action),
        };
        let event = match action {
            ImportAction::ProbeDestination { file_name } => {
                ImportEvent::Probed(dir.contains_key(&file_name))
            }
            ImportAction::WriteFile { file_name, payload, mode } => {
                assert!(!dir.contains_key(&file_name), "asked to overwrite {}", file_name);
                dir.insert(file_name.clone(), payload);
                modes.push((file_name, mode));
                ImportEvent::Written
            }
            other => panic!("unexpected request {:?}", other),
        };
        step = importer.step(event);
    }
}

fn expect_continue(step: ImportStep) -> (Importer, ImportAction) {
    match step {
        ImportStep::Continue(importer, action) => (importer, action),
        ImportStep::Done(outcome) => panic!("ended with {:?}", outcome),
    }
}

fn expect_failure(step: ImportStep) -> (ImportOp, String) {
    match step {
        ImportStep::Done(Outcome::IoError { op, cause }) => (op, cause),
        other => panic!("expected a failure, got {:?}", other),
    }
}

#[test]
fn import_with_one_wad() {
    let bytes = archive(&[
        ("readme.txt", b"read me"),
        ("maps/brutal.wad", b"PWAD brutal"),
        ("cover.png", b"\x89PNG"),
    ]);
    let mut dir = BTreeMap::new();
    let mut modes = Vec::new();
    let outcome = import(HostKind::UnixLike, bytes, &mut dir, &mut modes);
    assert_eq!(outcome, Outcome::Imported(vec!["brutal.wad".to_string()]));
    assert_eq!(dir.len(), 1);
    assert_eq!(dir.get("brutal.wad"), Some(&b"PWAD brutal".to_vec()));
    assert_eq!(modes, vec![("brutal.wad".to_string(), Some(0o644))]);
}

#[test]
fn import_collision() {
    let bytes = archive(&[("brutal.wad", b"new content")]);
    let mut dir = BTreeMap::new();
    dir.insert("brutal.wad".to_string(), b"X".to_vec());
    let mut modes = Vec::new();
    let outcome = import(HostKind::UnixLike, bytes, &mut dir, &mut modes);
    assert_eq!(outcome, Outcome::NoWadInArchive);
    assert_eq!(dir.len(), 1);
    assert_eq!(dir.get("brutal.wad"), Some(&b"X".to_vec()));
    assert!(modes.is_empty());
}

#[test]
fn import_goes_on_after_collision() {
    let bytes = archive(&[
        ("a/first.wad", b"1"),
        ("docs/", b""),
        ("b/SECOND.WAD", b"22"),
        ("c/first.wad", b"333"),
        ("third.Wad", b""),
    ]);
    let mut dir = BTreeMap::new();
    dir.insert("SECOND.WAD".to_string(), b"old".to_vec());
    dir.insert("notes.txt".to_string(), b"keep".to_vec());
    let mut modes = Vec::new();
    let outcome = import(HostKind::MacOs, bytes, &mut dir, &mut modes);
    assert_eq!(outcome, Outcome::Imported(vec!["first.wad".to_string(), "third.Wad".to_string()]));
    assert_eq!(dir.get("first.wad"), Some(&b"1".to_vec()));
    assert_eq!(dir.get("SECOND.WAD"), Some(&b"old".to_vec()));
    assert_eq!(dir.get("third.Wad"), Some(&Vec::new()));
    assert_eq!(dir.get("notes.txt"), Some(&b"keep".to_vec()));
    assert_eq!(dir.len(), 4);
}

#[test]
fn import_keeps_existing_files_and_adds_only_wads() {
    let bytes = archive(&[
        ("x.wad", b"x"),
        ("y.txt", b"y"),
        ("dir.wad/", b""),
        ("deep/er/z.WAD", b"z"),
        ("x.wad.bak", b"b"),
    ]);
    let mut dir = BTreeMap::new();
    dir.insert("x.wad".to_string(), b"mine".to_vec());
    dir.insert("y.txt".to_string(), b"mine too".to_vec());
    let before = dir.clone();
    let mut modes = Vec::new();
    import(HostKind::Windows, bytes, &mut dir, &mut modes);
    for (name, content) in &before {
        assert_eq!(dir.get(name), Some(content));
    }
    for (name, content) in &dir {
        if !before.contains_key(name) {
            assert!(name.to_ascii_lowercase().ends_with(".wad"));
            assert_eq!((name.as_str(), content.as_slice()), ("z.WAD", b"z".as_slice()));
        }
    }
    assert_eq!(modes, vec![("z.WAD".to_string(), None)]);
}

#[test]
fn import_of_archive_without_wad() {
    let bytes = archive(&[("readme.txt", b"read me"), ("maps/", b"")]);
    let mut dir = BTreeMap::new();
    let mut modes = Vec::new();
    assert_eq!(import(HostKind::UnixLike, bytes, &mut dir, &mut modes), Outcome::NoWadInArchive);
    assert!(dir.is_empty());
    let mut dir = BTreeMap::new();
    assert_eq!(
        import(HostKind::UnixLike, archive(&[]), &mut dir, &mut modes),
        Outcome::NoWadInArchive
    );
}

#[test]
fn no_archive_chosen() {
    let (importer, first) = extract_and_move_wad(HostKind::UnixLike);
    assert_eq!(first, ImportAction::PickArchive { extensions: vec!["zip".to_string()] });
    match importer.step(ImportEvent::ArchivePicked(None)) {
        ImportStep::Done(outcome) => assert_eq!(outcome, Outcome::NoArchiveChosen),
        other => panic!("expected the end, got {:?}", other),
    }
}

#[test]
fn unreadable_archive_file() {
    let (importer, _) = extract_and_move_wad(HostKind::UnixLike);
    let (importer, _) =
        expect_continue(importer.step(ImportEvent::ArchivePicked(Some("/x.zip".to_string()))));
    let failure = expect_failure(importer.step(ImportEvent::ArchiveUnreadable("permission denied".to_string())));
    assert_eq!(failure, (ImportOp::ReadArchive, "permission denied".to_string()));
}

#[test]
fn bytes_that_are_no_archive() {
    let (op, cause) = expect_failure(load(HostKind::UnixLike, b"this is not a zip file".to_vec()));
    assert_eq!(op, ImportOp::OpenArchive);
    assert!(!cause.is_empty());
    let (op, _) = expect_failure(load(HostKind::UnixLike, Vec::new()));
    assert_eq!(op, ImportOp::OpenArchive);
}

#[test]
fn write_failure_ends_import() {
    let bytes = archive(&[("a.wad", b"a"), ("b.wad", b"b")]);
    let (importer, action) = expect_continue(load(HostKind::UnixLike, bytes));
    assert_eq!(action, ImportAction::ProbeDestination { file_name: "a.wad".to_string() });
    let (importer, action) = expect_continue(importer.step(ImportEvent::Probed(false)));
    assert_eq!(
        action,
        ImportAction::WriteFile {
            file_name: "a.wad".to_string(),
            payload: b"a".to_vec(),
            mode: Some(0o644),
        }
    );
    let failure = expect_failure(importer.step(ImportEvent::WriteFailed("disk full".to_string())));
    assert_eq!(failure, (ImportOp::WriteFile, "disk full".to_string()));
}

#[test]
fn write_is_requested_only_after_absent_probe() {
    let bytes = archive(&[("a.wad", b"a"), ("b.wad", b"b")]);
    let (importer, action) = expect_continue(load(HostKind::UnixLike, bytes));
    assert_eq!(action, ImportAction::ProbeDestination { file_name: "a.wad".to_string() });
    let (importer, action) = expect_continue(importer.step(ImportEvent::Probed(true)));
    assert_eq!(action, ImportAction::ProbeDestination { file_name: "b.wad".to_string() });
    let (importer, action) = expect_continue(importer.step(ImportEvent::Probed(false)));
    assert_eq!(
        action,
        ImportAction::WriteFile {
            file_name: "b.wad".to_string(),
            payload: b"b".to_vec(),
            mode: Some(0o644),
        }
    );
    match importer.step(ImportEvent::Written) {
        ImportStep::Done(outcome) => {
            assert_eq!(outcome, Outcome::Imported(vec!["b.wad".to_string()]))
        }
        other => panic!("expected the end, got {:?}", other),
    }
}

#[test]
fn unexpected_event_ends_import() {
    let (importer, _) = extract_and_move_wad(HostKind::UnixLike);
    let (op, _) = expect_failure(importer.step(ImportEvent::Written));
    assert_eq!(op, ImportOp::PickArchive);

    let (importer, _) = extract_and_move_wad(HostKind::UnixLike);
    let (importer, _) =
        expect_continue(importer.step(ImportEvent::ArchivePicked(Some("/x.zip".to_string()))));
    let (op, _) = expect_failure(importer.step(ImportEvent::Probed(false)));
    assert_eq!(op, ImportOp::ReadArchive);

    let bytes = archive(&[("a.wad", b"a")]);
    let (importer, _) = expect_continue(load(HostKind::UnixLike, bytes.clone()));
    let (op, _) = expect_failure(importer.step(ImportEvent::Written));
    assert_eq!(op, ImportOp::ProbeDestination);

    let (importer, _) = expect_continue(load(HostKind::UnixLike, bytes));
    let (importer, _) = expect_continue(importer.step(ImportEvent::Probed(false)));
    let (op, _) = expect_failure(importer.step(ImportEvent::Probed(false)));
    assert_eq!(op, ImportOp::WriteFile);
}

#[test]
fn truncated_entry_cannot_be_read() {
    let mut bytes = archive(&[("a.wad", b"0123456789")]);
    let at = bytes.windows(10).position(|window| window == b"0123456789").unwrap();
    bytes[at] = b'X';
    let (importer, action) = expect_continue(load(HostKind::UnixLike, bytes));
    assert_eq!(action, ImportAction::ProbeDestination { file_name: "a.wad".to_string() });
    let (op, cause) = expect_failure(importer.step(ImportEvent::Probed(false)));
    assert_eq!(op, ImportOp::ReadEntry);
    assert!(!cause.is_empty());
}

#[test]
fn file_mode_by_host() {
    assert_eq!(import_mode(HostKind::UnixLike), Some(0o644));
    assert_eq!(import_mode(HostKind::MacOs), Some(0o644));
    assert_eq!(import_mode(HostKind::Windows), None);
    assert_eq!(import_mode(HostKind::UnixLike), Some(420));
}

#[test]
fn classify_entry_by_name() {
    for host in [HostKind::UnixLike, HostKind::MacOs, HostKind::Windows] {
        assert_eq!(classify_entry("readme.txt", host), EntryClass::Skip);
        assert_eq!(classify_entry("maps/", host), EntryClass::Skip);
        assert_eq!(classify_entry("maps.wad/", host), EntryClass::Skip);
        assert_eq!(classify_entry("", host), EntryClass::Skip);
        assert_eq!(classify_entry("wad", host), EntryClass::Skip);
        assert_eq!(classify_entry("brutal.wad", host), EntryClass::Wad("brutal.wad".to_string()));
        assert_eq!(
            classify_entry("maps/brutal.wad", host),
            EntryClass::Wad("brutal.wad".to_string())
        );
        assert_eq!(classify_entry("/abs/a/b/C.WAD", host), EntryClass::Wad("C.WAD".to_string()));
        assert_eq!(classify_entry("../up.wad", host), EntryClass::Wad("up.wad".to_string()));
        assert_eq!(classify_entry("maps/.wad", host), EntryClass::Wad(".wad".to_string()));
        assert_eq!(classify_entry(".wad", host), EntryClass::Wad(".wad".to_string()));
    }
}

#[test]
fn destination_name_has_no_separator_of_the_host() {
    assert_eq!(
        classify_entry("a\\b.wad", HostKind::UnixLike),
        EntryClass::Wad("a\\b.wad".to_string())
    );
    assert_eq!(
        classify_entry("..\\..\\up.wad", HostKind::Windows),
        EntryClass::Wad("up.wad".to_string())
    );
    assert_eq!(
        classify_entry("C:up.wad", HostKind::Windows),
        EntryClass::Wad("up.wad".to_string())
    );
    assert_eq!(
        classify_entry("C:up.wad", HostKind::MacOs),
        EntryClass::Wad("C:up.wad".to_string())
    );
    assert_eq!(
        classify_entry("maps/sub\\deep.wad", HostKind::Windows),
        EntryClass::Wad("deep.wad".to_string())
    );
}

#[test]
fn compressed_entries_are_inflated() {
    let content: Vec<u8> = b"PWAD".iter().chain([7u8; 4000].iter()).copied().collect();
    let mut writer = zip::ZipWriter::new(std::io::Cursor::new(Vec::new()));
    let options = zip::write::SimpleFileOptions::default()
        .compression_method(zip::CompressionMethod::Deflated);
    writer.start_file("pack/big.wad", options).unwrap();
    writer.write_all(&content).unwrap();
    let bytes = writer.finish().unwrap().into_inner();
    assert!(bytes.len() < content.len());
    let mut dir = BTreeMap::new();
    let mut modes = Vec::new();
    let outcome = import(HostKind::UnixLike, bytes, &mut dir, &mut modes);
    assert_eq!(outcome, Outcome::Imported(vec!["big.wad".to_string()]));
    assert_eq!(dir.get("big.wad"), Some(&content));
}

#[test]
fn outcome_messages() {
    assert_eq!(Outcome::NoArchiveChosen.message(), "No ZIP file selected.");
    assert_eq!(Outcome::NoWadInArchive.message(), "No .wad file found in the ZIP.");
    assert_eq!(
        Outcome::Imported(vec!["a.wad".to_string()]).message(),
        "WAD extracted successfully."
    );
    assert_eq!(
        Outcome::IoError { op: ImportOp::WriteFile, cause: "disk full".to_string() }.message(),
        "Failed to extract WAD: disk full"
    );
}
