//! Importing WAD files from a ZIP archive into the mod directory.
//!
//! The import is a state machine. The library decides; its caller does the
//! outside work: it performs each [`ImportAction`] and hands back the
//! [`ImportEvent`] that tells how it went. An import starts with
//! [`extract_and_move_wad`] and goes on with [`Importer::step`] until a step
//! yields an [`Outcome`].

use crate::archive::{
    archive_source, entry_count, entry_name, entry_payload, open_archive, zip_entry_count,
    zip_entry_name, zip_entry_payload, zip_error_text, zip_opens,
};
use crate::dialog::{extension_hints, extensions_for, Picker};
use crate::host::{import_mode, posix_mode, HostKind};
use crate::text::{
    chars_are_wad_name, chars_of, final_component, final_component_start, find_final_component,
    is_plain_name, is_separator, is_wad_name, lemma_final_component_start_bounds, string_views,
    substring,
};
use std::io::Cursor;
use vstd::prelude::*;
use zip::read::ZipArchive;

verus! {

/// The operation during which an import failed.
#[derive(Clone, Copy, Debug, PartialEq, Eq, Structural)]
pub enum ImportOp {
    /// Asking the user for an archive.
    PickArchive,
    /// Reading the chosen archive file.
    ReadArchive,
    /// Opening the bytes as a ZIP archive.
    OpenArchive,
    /// Decoding the name of an entry.
    EntryName,
    /// Testing whether the destination exists.
    ProbeDestination,
    /// Reading the content of an entry.
    ReadEntry,
    /// Writing the destination file.
    WriteFile,
}

/// How an import ended.
#[derive(Clone, Debug, PartialEq, Eq)]
pub enum Outcome {
    /// The user chose no archive.
    NoArchiveChosen,
    /// Nothing was written: the archive holds no WAD, or each one was already there.
    NoWadInArchive,
    /// The names of the files written, in the order of their entries.
    Imported(Vec<String>),
    /// The import stopped at a failure. Files written before it stay.
    IoError { op: ImportOp, cause: String },
}

/// [`Outcome`] as a mathematical value.
pub enum OutcomeView {
    NoArchiveChosen,
    NoWadInArchive,
    Imported(Seq<Seq<char>>),
    IoError { op: ImportOp, cause: Seq<char> },
}

impl View for Outcome {
    type V = OutcomeView;

    open spec fn view(&self) -> OutcomeView {
        match *self {
            Outcome::NoArchiveChosen => OutcomeView::NoArchiveChosen,
            Outcome::NoWadInArchive => OutcomeView::NoWadInArchive,
            Outcome::Imported(names) => OutcomeView::Imported(string_views(names@)),
            Outcome::IoError { op, cause } => OutcomeView::IoError { op, cause: cause@ },
        }
    }
}

impl Outcome {
    /// The one-line diagnostic of the outcome.
    pub fn message(&self) -> (text: String)
        ensures
            match *self {
                Outcome::NoArchiveChosen => text@ == "No ZIP file selected."@,
                Outcome::NoWadInArchive => text@ == "No .wad file found in the ZIP."@,
                Outcome::Imported(_) => text@ == "WAD extracted successfully."@,
                Outcome::IoError { op, cause } => text@ == "Failed to extract WAD: "@ + cause@,
            },
    {
        match self {
            Outcome::NoArchiveChosen => "No ZIP file selected.".to_owned(),
            Outcome::NoWadInArchive => "No .wad file found in the ZIP.".to_owned(),
            Outcome::Imported(_) => "WAD extracted successfully.".to_owned(),
            Outcome::IoError { op, cause } => {
                let mut text = "Failed to extract WAD: ".to_owned();
                text.append(cause.as_str());
                text
            },
        }
    }
}

/// What the importer asks its caller to do next.
#[derive(Clone, Debug, PartialEq, Eq)]
pub enum ImportAction {
    /// Ask the user for a file with one of `extensions` and answer with
    /// [`ImportEvent::ArchivePicked`].
    PickArchive { extensions: Vec<String> },
    /// Read the file at `path` and answer with [`ImportEvent::ArchiveLoaded`] or
    /// [`ImportEvent::ArchiveUnreadable`].
    ReadArchive { path: String },
    /// Test whether `file_name` exists in the mod directory and answer with
    /// [`ImportEvent::Probed`].
    ProbeDestination { file_name: String },
    /// Create `file_name` in the mod directory with the content `payload`, then
    /// set `mode` on it if there is one; answer with [`ImportEvent::Written`] or
    /// [`ImportEvent::WriteFailed`].
    WriteFile { file_name: String, payload: Vec<u8>, mode: Option<u32> },
}

/// [`ImportAction`] as a mathematical value.
pub enum ActionView {
    PickArchive { extensions: Seq<Seq<char>> },
    ReadArchive { path: Seq<char> },
    ProbeDestination { file_name: Seq<char> },
    WriteFile { file_name: Seq<char>, payload: Seq<u8>, mode: Option<u32> },
}

impl View for ImportAction {
    type V = ActionView;

    open spec fn view(&self) -> ActionView {
        match *self {
            ImportAction::PickArchive { extensions } => ActionView::PickArchive {
                extensions: string_views(extensions@),
            },
            ImportAction::ReadArchive { path } => ActionView::ReadArchive { path: path@ },
            ImportAction::ProbeDestination { file_name } => ActionView::ProbeDestination {
                file_name: file_name@,
            },
            ImportAction::WriteFile { file_name, payload, mode } => ActionView::WriteFile {
                file_name: file_name@,
                payload: payload@,
                mode,
            },
        }
    }
}

/// What the caller reports back after an [`ImportAction`].
#[derive(Clone, Debug, PartialEq, Eq)]
pub enum ImportEvent {
    /// The path the user chose, or `None` if the dialog was cancelled.
    ArchivePicked(Option<String>),
    /// The bytes of the archive file.
    ArchiveLoaded(Vec<u8>),
    /// The archive file could not be read, with the cause.
    ArchiveUnreadable(String),
    /// Whether the destination exists.
    Probed(bool),
    /// The destination file was written.
    Written,
    /// The destination file could not be written, with the cause.
    WriteFailed(String),
}

/// [`ImportEvent`] as a mathematical value.
pub enum EventView {
    ArchivePicked(Option<Seq<char>>),
    ArchiveLoaded(Seq<u8>),
    ArchiveUnreadable(Seq<char>),
    Probed(bool),
    Written,
    WriteFailed(Seq<char>),
}

impl View for ImportEvent {
    type V = EventView;

    open spec fn view(&self) -> EventView {
        match *self {
            ImportEvent::ArchivePicked(choice) => EventView::ArchivePicked(
                match choice {
                    Some(path) => Some(path@),
                    None => None,
                },
            ),
            ImportEvent::ArchiveLoaded(bytes) => EventView::ArchiveLoaded(bytes@),
            ImportEvent::ArchiveUnreadable(cause) => EventView::ArchiveUnreadable(cause@),
            ImportEvent::Probed(exists) => EventView::Probed(exists),
            ImportEvent::Written => EventView::Written,
            ImportEvent::WriteFailed(cause) => EventView::WriteFailed(cause@),
        }
    }
}

/// What the importer does with an archive entry, judged by its name.
#[derive(Clone, Debug, PartialEq, Eq)]
pub enum EntryClass {
    /// Not a WAD file: a directory marker, or a name that does not end in `.wad`.
    Skip,
    /// A WAD file, with the name it gets in the mod directory.
    Wad(String),
}

/// [`EntryClass`] as a mathematical value.
pub enum EntryClassView {
    Skip,
    Wad(Seq<char>),
}

impl View for EntryClass {
    type V = EntryClassView;

    open spec fn view(&self) -> EntryClassView {
        match *self {
            EntryClass::Skip => EntryClassView::Skip,
            EntryClass::Wad(file_name) => EntryClassView::Wad(file_name@),
        }
    }
}

/// The class of an entry named `name` on `host`. An entry is skipped if its
/// name ends in `/` or does not end in `.wad` (ASCII case-insensitive);
/// otherwise its destination name is the final path component of `name`, by
/// the separators of the host, so that it names a file in the mod directory
/// itself.
pub open spec fn classify(name: Seq<char>, host: HostKind) -> EntryClassView {
    if name.len() > 0 && name.last() == '/' {
        EntryClassView::Skip
    } else if !is_wad_name(name) {
        EntryClassView::Skip
    } else {
        EntryClassView::Wad(final_component(name, host))
    }
}

/// A destination name can be derived from every WAD entry: the final component
/// of a name that ends in `.wad` holds at least these four characters, ends in
/// `.wad` itself, and holds no separator.
pub proof fn lemma_wad_destination(name: Seq<char>, host: HostKind)
    requires
        classify(name, host) is Wad,
    ensures
        final_component(name, host).len() >= 4,
        is_wad_name(final_component(name, host)),
        is_plain_name(final_component(name, host), host),
{
    lemma_final_component_start_bounds(name, host);
    let start = final_component_start(name, host);
    let n = name.len() as int;
    if start > n - 4 {
        assert(is_separator(name[start - 1], host));
    }
    let base = final_component(name, host);
    assert(base.len() == n - start);
    assert(base[base.len() - 4] == name[n - 4]);
    assert(base[base.len() - 3] == name[n - 3]);
    assert(base[base.len() - 2] == name[n - 2]);
    assert(base[base.len() - 1] == name[n - 1]);
}

/// Computes [`classify`].
pub fn classify_entry(name: &str, host: HostKind) -> (class: EntryClass)
    ensures
        class@ == classify(name@, host),
{
    let chars = chars_of(name);
    let n = chars.len();
    if n > 0 && chars[n - 1] == '/' {
        return EntryClass::Skip;
    }
    if !chars_are_wad_name(&chars) {
        return EntryClass::Skip;
    }
    let start = find_final_component(&chars, host);
    let file_name = substring(name, start, n);
    proof {
        assert(name@.subrange(start as int, n as int) =~= final_component(name@, host));
    }
    EntryClass::Wad(file_name)
}

/// What the importer is waiting for.
#[derive(Clone, Copy, Debug, PartialEq, Eq, Structural)]
pub enum Phase {
    /// The user's choice of an archive.
    Choosing,
    /// The bytes of the chosen archive.
    Loading,
    /// Whether the destination of the current entry exists.
    Probing,
    /// The writing of the current entry.
    Writing,
}

/// An import in progress.
#[derive(Debug)]
pub struct Importer {
    host: HostKind,
    phase: Phase,
    archive: Option<ZipArchive<Cursor<Vec<u8>>>>,
    entry: usize,
    pending: String,
    imported: Vec<String>,
}

/// [`Importer`] as a mathematical value.
pub struct ImporterView {
    /// The host that the import runs on.
    pub host: HostKind,
    /// What the importer is waiting for.
    pub phase: Phase,
    /// The bytes of the archive, once it is open.
    pub source: Option<Seq<u8>>,
    /// The index of the entry that is probed or written.
    pub entry: int,
    /// The destination name of that entry.
    pub pending: Seq<char>,
    /// The names of the files written so far.
    pub imported: Seq<Seq<char>>,
}

impl View for Importer {
    type V = ImporterView;

    closed spec fn view(&self) -> ImporterView {
        ImporterView {
            host: self.host,
            phase: self.phase,
            source: match self.archive {
                Some(archive) => Some(archive_source(archive)),
                None => None,
            },
            entry: self.entry as int,
            pending: self.pending@,
            imported: string_views(self.imported@),
        }
    }
}

/// The result of one step of an import.
#[derive(Debug)]
pub enum ImportStep {
    /// The import goes on: perform the action and hand its event to the importer.
    Continue(Importer, ImportAction),
    /// The import is over.
    Done(Outcome),
}

/// [`ImportStep`] as a mathematical value.
pub enum StepView {
    Continue(ImporterView, ActionView),
    Done(OutcomeView),
}

impl View for ImportStep {
    type V = StepView;

    open spec fn view(&self) -> StepView {
        match *self {
            ImportStep::Continue(importer, action) => StepView::Continue(importer@, action@),
            ImportStep::Done(outcome) => StepView::Done(outcome@),
        }
    }
}

/// The state in which an import starts: waiting for the user's choice.
pub open spec fn initial_state(host: HostKind) -> ImporterView {
    ImporterView {
        host,
        phase: Phase::Choosing,
        source: None,
        entry: 0,
        pending: Seq::empty(),
        imported: Seq::empty(),
    }
}

/// The outcome of an import that reached the end of its archive: `Imported` if
/// at least one file was written.
pub open spec fn finished(imported: Seq<Seq<char>>) -> OutcomeView {
    if imported.len() > 0 {
        OutcomeView::Imported(imported)
    } else {
        OutcomeView::NoWadInArchive
    }
}

/// Whether `op` is done by the archive reader.
pub open spec fn is_archive_op(op: ImportOp) -> bool {
    op == ImportOp::OpenArchive || op == ImportOp::EntryName || op == ImportOp::ReadEntry
}

/// The failure of the archive reader in `op`. Its cause is a text of the
/// reader's own, which this value leaves empty and [`agrees`] leaves open.
pub open spec fn archive_failure(op: ImportOp) -> OutcomeView {
    OutcomeView::IoError { op, cause: Seq::empty() }
}

/// Whether the step `actual` is the step `expected`, but for the cause of a
/// failure of the archive reader: there the operation is the same, and the
/// cause is whatever text the reader gave.
pub open spec fn agrees(actual: StepView, expected: StepView) -> bool {
    match expected {
        StepView::Done(OutcomeView::IoError { op, cause }) => if is_archive_op(op) && cause.len()
            == 0 {
            match actual {
                StepView::Done(OutcomeView::IoError { op: told, .. }) => told == op,
                _ => false,
            }
        } else {
            actual == expected
        },
        _ => actual == expected,
    }
}

/// The operation that an importer in `phase` has asked for.
pub open spec fn awaited_op(phase: Phase) -> ImportOp {
    match phase {
        Phase::Choosing => ImportOp::PickArchive,
        Phase::Loading => ImportOp::ReadArchive,
        Phase::Probing => ImportOp::ProbeDestination,
        Phase::Writing => ImportOp::WriteFile,
    }
}

/// Goes through the entries of the open archive from index `from`, in archive
/// order, up to the first WAD entry: its destination is then to be probed. An
/// entry whose name cannot be decoded ends the import with a failure; the end
/// of the archive ends it with [`finished`].
pub open spec fn scan_from(
    host: HostKind,
    source: Seq<u8>,
    imported: Seq<Seq<char>>,
    from: int,
) -> StepView
    decreases zip_entry_count(source) - from,
{
    if from < 0 || from >= zip_entry_count(source) {
        StepView::Done(finished(imported))
    } else {
        match zip_entry_name(source, from) {
            None => StepView::Done(archive_failure(ImportOp::EntryName)),
            Some(name) => match classify(name, host) {
                EntryClassView::Skip => scan_from(host, source, imported, from + 1),
                EntryClassView::Wad(file_name) => StepView::Continue(
                    ImporterView {
                        host,
                        phase: Phase::Probing,
                        source: Some(source),
                        entry: from,
                        pending: file_name,
                        imported,
                    },
                    ActionView::ProbeDestination { file_name },
                ),
            },
        }
    }
}

/// One step of an import: what the importer in state `s` does on `event`.
///
/// - The user's choice: none ends the import; a path is to be read.
/// - The archive's bytes: if they open as a ZIP archive, its entries are gone
///   through from the first.
/// - The destination exists: the entry is skipped, and the entries after it are
///   gone through. It does not exist: the entry's content is to be written under
///   the destination name, with the host's file mode.
/// - The file was written: its name joins the imported ones, and the entries
///   after it are gone through.
/// - A failure reported by the caller, an archive or entry that cannot be read,
///   or an event that the importer did not ask for, ends the import. The cause
///   is the text that the caller gave, or a text of the library's; for a
///   failure of the archive reader see [`archive_failure`].
pub open spec fn step_spec(s: ImporterView, event: EventView) -> StepView {
    match (s.phase, event) {
        (Phase::Choosing, EventView::ArchivePicked(None)) => StepView::Done(
            OutcomeView::NoArchiveChosen,
        ),
        (Phase::Choosing, EventView::ArchivePicked(Some(path))) => StepView::Continue(
            ImporterView { phase: Phase::Loading, ..s },
            ActionView::ReadArchive { path },
        ),
        (Phase::Loading, EventView::ArchiveLoaded(bytes)) => if zip_opens(bytes) {
            scan_from(s.host, bytes, s.imported, 0)
        } else {
            StepView::Done(archive_failure(ImportOp::OpenArchive))
        },
        (Phase::Loading, EventView::ArchiveUnreadable(cause)) => StepView::Done(
            OutcomeView::IoError { op: ImportOp::ReadArchive, cause },
        ),
        (Phase::Probing, EventView::Probed(exists)) => if s.source is None {
            StepView::Done(
                OutcomeView::IoError { op: ImportOp::ReadEntry, cause: "no archive is open"@ },
            )
        } else if exists {
            scan_from(s.host, s.source->0, s.imported, s.entry + 1)
        } else {
            match zip_entry_payload(s.source->0, s.entry) {
                Some(payload) => StepView::Continue(
                    ImporterView { phase: Phase::Writing, ..s },
                    ActionView::WriteFile {
                        file_name: s.pending,
                        payload,
                        mode: posix_mode(s.host),
                    },
                ),
                None => StepView::Done(archive_failure(ImportOp::ReadEntry)),
            }
        },
        (Phase::Writing, EventView::Written) => if s.source is None {
            StepView::Done(
                OutcomeView::IoError { op: ImportOp::ReadEntry, cause: "no archive is open"@ },
            )
        } else {
            scan_from(s.host, s.source->0, s.imported.push(s.pending), s.entry + 1)
        },
        (Phase::Writing, EventView::WriteFailed(cause)) => StepView::Done(
            OutcomeView::IoError { op: ImportOp::WriteFile, cause },
        ),
        _ => StepView::Done(
            OutcomeView::IoError { op: awaited_op(s.phase), cause: "unexpected event"@ },
        ),
    }
}

/// Computes [`finished`].
fn finish(imported: Vec<String>) -> (outcome: Outcome)
    ensures
        outcome@ == finished(string_views(imported@)),
{
    if imported.len() > 0 {
        Outcome::Imported(imported)
    } else {
        Outcome::NoWadInArchive
    }
}

/// Computes [`scan_from`].
fn scan(
    host: HostKind,
    archive: ZipArchive<Cursor<Vec<u8>>>,
    imported: Vec<String>,
    from: usize,
) -> (step: ImportStep)
    ensures
        agrees(
            step@,
            scan_from(host, archive_source(archive), string_views(imported@), from as int),
        ),
{
    let ghost source = archive_source(archive);
    let ghost written = string_views(imported@);
    let n = entry_count(&archive);
    let mut i: usize = from;
    while i < n
        invariant
            n == zip_entry_count(source),
            from <= i,
            source == archive_source(archive),
            written == string_views(imported@),
            scan_from(host, source, written, from as int) == scan_from(
                host,
                source,
                written,
                i as int,
            ),
        decreases n - i,
    {
        match entry_name(&archive, i) {
            Some(Ok(name)) => {
                match classify_entry(name.as_str(), host) {
                    EntryClass::Skip => {},
                    EntryClass::Wad(file_name) => {
                        let importer = Importer {
                            host,
                            phase: Phase::Probing,
                            archive: Some(archive),
                            entry: i,
                            pending: file_name.clone(),
                            imported,
                        };
                        return ImportStep::Continue(
                            importer,
                            ImportAction::ProbeDestination { file_name },
                        );
                    },
                }
            },
            Some(Err(error)) => {
                return ImportStep::Done(
                    Outcome::IoError { op: ImportOp::EntryName, cause: zip_error_text(&error) },
                );
            },
            None => {
                return ImportStep::Done(
                    Outcome::IoError {
                        op: ImportOp::EntryName,
                        cause: "entry is missing".to_owned(),
                    },
                );
            },
        }
        i += 1;
    }
    ImportStep::Done(finish(imported))
}

/// Computes [`awaited_op`].
fn awaited(phase: Phase) -> (op: ImportOp)
    ensures
        op == awaited_op(phase),
{
    match phase {
        Phase::Choosing => ImportOp::PickArchive,
        Phase::Loading => ImportOp::ReadArchive,
        Phase::Probing => ImportOp::ProbeDestination,
        Phase::Writing => ImportOp::WriteFile,
    }
}

/// Goes on behind entry `entry`: [`scan_from`] at `entry + 1`.
fn scan_after(
    host: HostKind,
    archive: ZipArchive<Cursor<Vec<u8>>>,
    entry: usize,
    imported: Vec<String>,
) -> (step: ImportStep)
    ensures
        agrees(
            step@,
            scan_from(host, archive_source(archive), string_views(imported@), entry + 1),
        ),
{
    let n = entry_count(&archive);
    if entry >= n {
        ImportStep::Done(finish(imported))
    } else {
        scan(host, archive, imported, entry + 1)
    }
}

/// Starts an import on `host`: the importer, and its first request, which is for
/// the user's choice of a ZIP archive.
pub fn extract_and_move_wad(host: HostKind) -> (start: (Importer, ImportAction))
    ensures
        start.0@ == initial_state(host),
        start.1@ == (ActionView::PickArchive { extensions: extension_hints(Picker::Archive) }),
{
    let importer = Importer {
        host,
        phase: Phase::Choosing,
        archive: None,
        entry: 0,
        pending: String::new(),
        imported: Vec::new(),
    };
    proof {
        assert(string_views(importer.imported@) =~= Seq::<Seq<char>>::empty());
    }
    (importer, ImportAction::PickArchive { extensions: extensions_for(Picker::Archive) })
}

impl Importer {
    /// Takes the event that answers the importer's last request and says how
    /// the import goes on: [`step_spec`], but for the cause of a failure of the
    /// archive reader, which is the reader's text.
    pub fn step(self, event: ImportEvent) -> (step: ImportStep)
        ensures
            agrees(step@, step_spec(self@, event@)),
    {
        let Importer { host, phase, archive, entry, pending, imported } = self;
        match (phase, event) {
            (Phase::Choosing, ImportEvent::ArchivePicked(None)) => ImportStep::Done(
                Outcome::NoArchiveChosen,
            ),
            (Phase::Choosing, ImportEvent::ArchivePicked(Some(path))) => {
                let importer = Importer {
                    host,
                    phase: Phase::Loading,
                    archive,
                    entry,
                    pending,
                    imported,
                };
                ImportStep::Continue(importer, ImportAction::ReadArchive { path })
            },
            (Phase::Loading, ImportEvent::ArchiveLoaded(bytes)) => {
                match open_archive(bytes) {
                    Ok(opened) => scan(host, opened, imported, 0),
                    Err(error) => ImportStep::Done(
                        Outcome::IoError {
                            op: ImportOp::OpenArchive,
                            cause: zip_error_text(&error),
                        },
                    ),
                }
            },
            (Phase::Loading, ImportEvent::ArchiveUnreadable(cause)) => ImportStep::Done(
                Outcome::IoError { op: ImportOp::ReadArchive, cause },
            ),
            (Phase::Probing, ImportEvent::Probed(exists)) => {
                match archive {
                    None => ImportStep::Done(
                        Outcome::IoError {
                            op: ImportOp::ReadEntry,
                            cause: "no archive is open".to_owned(),
                        },
                    ),
                    Some(mut opened) => {
                        if exists {
                            scan_after(host, opened, entry, imported)
                        } else {
                            match entry_payload(&mut opened, entry) {
                                Ok(payload) => {
                                    let file_name = pending.clone();
                                    let importer = Importer {
                                        host,
                                        phase: Phase::Writing,
                                        archive: Some(opened),
                                        entry,
                                        pending,
                                        imported,
                                    };
                                    ImportStep::Continue(
                                        importer,
                                        ImportAction::WriteFile {
                                            file_name,
                                            payload,
                                            mode: import_mode(host),
                                        },
                                    )
                                },
                                Err(error) => ImportStep::Done(
                                    Outcome::IoError {
                                        op: ImportOp::ReadEntry,
                                        cause: zip_error_text(&error),
                                    },
                                ),
                            }
                        }
                    },
                }
            },
            (Phase::Writing, ImportEvent::Written) => {
                match archive {
                    None => ImportStep::Done(
                        Outcome::IoError {
                            op: ImportOp::ReadEntry,
                            cause: "no archive is open".to_owned(),
                        },
                    ),
                    Some(opened) => {
                        let mut imported = imported;
                        let ghost before = imported@;
                        imported.push(pending.clone());
                        proof {
                            assert(string_views(imported@) =~= string_views(before).push(
                                pending@,
                            ));
                        }
                        scan_after(host, opened, entry, imported)
                    },
                }
            },
            (Phase::Writing, ImportEvent::WriteFailed(cause)) => ImportStep::Done(
                Outcome::IoError { op: ImportOp::WriteFile, cause },
            ),
            (phase, _) => ImportStep::Done(
                Outcome::IoError { op: awaited(phase), cause: "unexpected event".to_owned() },
            ),
        }
    }
}

} // verus!
