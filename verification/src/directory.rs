//! What an import does to a mod directory.
//!
//! The directory is modelled as a map from file names to file contents, and the
//! caller of the importer as one that answers each request truthfully from that
//! map. Against this model the guarantees of the import are proved: it leaves
//! every file that was there as it was, every file it adds is a WAD taken from
//! the archive, it ends, and its outcome lists the files it added.

use crate::archive::{zip_entry_count, zip_entry_name, zip_entry_payload};
use crate::host::HostKind;
use crate::import::{
    classify, finished, lemma_wad_destination, scan_from, step_spec, ActionView, EntryClassView,
    EventView, ImporterView, OutcomeView, Phase, StepView,
};
use crate::text::{is_plain_name, is_wad_name};
use vstd::prelude::*;

verus! {

/// A mod directory: the content of each file in it, by name.
pub type Directory = Map<Seq<char>, Seq<u8>>;

/// The event with which the directory `dir` answers `action`: a probe is told
/// whether the name is in the directory, a write that it was done. The other
/// requests are not for the directory and get no answer.
pub open spec fn reply(dir: Directory, action: ActionView) -> Option<EventView> {
    match action {
        ActionView::ProbeDestination { file_name } => Some(
            EventView::Probed(dir.contains_key(file_name)),
        ),
        ActionView::WriteFile { file_name, payload, mode } => Some(EventView::Written),
        _ => None,
    }
}

/// The directory `dir` after `action`: a write puts the content under the name;
/// nothing else changes the directory.
pub open spec fn effect(dir: Directory, action: ActionView) -> Directory {
    match action {
        ActionView::WriteFile { file_name, payload, mode } => dir.insert(file_name, payload),
        _ => dir,
    }
}

/// The importer in state `s`, whose request `action` is outstanding, run
/// against `dir` for at most `steps` requests: the outcome, if the import ended
/// within them, and the directory afterwards. A request that is not for the
/// directory stops the run.
pub open spec fn run(s: ImporterView, action: ActionView, dir: Directory, steps: nat) -> (
    Option<OutcomeView>,
    Directory,
)
    decreases steps,
{
    if steps == 0 {
        (None, dir)
    } else {
        match reply(dir, action) {
            None => (None, dir),
            Some(event) => match step_spec(s, event) {
                StepView::Done(outcome) => (Some(outcome), effect(dir, action)),
                StepView::Continue(next, next_action) => run(
                    next,
                    next_action,
                    effect(dir, action),
                    (steps - 1) as nat,
                ),
            },
        }
    }
}

/// Whether no request of that run is a write under a name that the directory
/// holds by then.
pub open spec fn writes_only_new(
    s: ImporterView,
    action: ActionView,
    dir: Directory,
    steps: nat,
) -> bool
    decreases steps,
{
    if steps == 0 {
        true
    } else {
        &&& action matches ActionView::WriteFile { file_name, .. } ==> !dir.contains_key(file_name)
        &&& match reply(dir, action) {
            None => true,
            Some(event) => match step_spec(s, event) {
                StepView::Done(_) => true,
                StepView::Continue(next, next_action) => writes_only_new(
                    next,
                    next_action,
                    effect(dir, action),
                    (steps - 1) as nat,
                ),
            },
        }
    }
}

/// The state of an importer on `host` that waits for the bytes of the archive.
pub open spec fn loading(host: HostKind) -> ImporterView {
    ImporterView {
        host,
        phase: Phase::Loading,
        source: None,
        entry: 0,
        pending: Seq::empty(),
        imported: Seq::empty(),
    }
}

/// The import of the archive `bytes` into `dir` on `host`, from the moment the
/// bytes are loaded, for at most `steps` requests to the directory: the
/// outcome, if the import ended within them, and the directory afterwards.
pub open spec fn import_into(host: HostKind, bytes: Seq<u8>, dir: Directory, steps: nat) -> (
    Option<OutcomeView>,
    Directory,
) {
    match step_spec(loading(host), EventView::ArchiveLoaded(bytes)) {
        StepView::Done(outcome) => (Some(outcome), dir),
        StepView::Continue(next, action) => run(next, action, dir, steps),
    }
}

/// Every file of `before` is in `after` with the same content.
pub open spec fn keeps_files(before: Directory, after: Directory) -> bool {
    forall|name: Seq<char>| #[trigger]
        before.contains_key(name) ==> after.contains_key(name) && after[name] == before[name]
}

/// Entry `index` of the archive `bytes` is a WAD entry whose final name
/// component on `host` is `file_name` and whose content is `content`.
pub open spec fn entry_yields(
    host: HostKind,
    bytes: Seq<u8>,
    index: int,
    file_name: Seq<char>,
    content: Seq<u8>,
) -> bool {
    &&& 0 <= index < zip_entry_count(bytes)
    &&& zip_entry_name(bytes, index) matches Some(name)
    &&& classify(name, host) == EntryClassView::Wad(file_name)
    &&& zip_entry_payload(bytes, index) == Some(content)
}

/// Every file of `after` that is not in `before` has a name that ends in
/// `.wad`, holds no separator of the host, and is the final component of the
/// name of an entry of the archive `bytes`, whose content the file holds.
pub open spec fn adds_only_wads(
    host: HostKind,
    bytes: Seq<u8>,
    before: Directory,
    after: Directory,
) -> bool {
    forall|name: Seq<char>| #[trigger]
        after.contains_key(name) && !before.contains_key(name) ==> {
            &&& is_wad_name(name)
            &&& is_plain_name(name, host)
            &&& exists|index: int| entry_yields(host, bytes, index, name, after[name])
        }
}

/// `names` holds, each once, the names of the files of `after` that are not in
/// `before`.
pub open spec fn lists_added(names: Seq<Seq<char>>, before: Directory, after: Directory) -> bool {
    &&& names.no_duplicates()
    &&& forall|name: Seq<char>| #[trigger]
        names.contains(name) <==> after.contains_key(name) && !before.contains_key(name)
}

/// What the outcome of an import says of the directory: `Imported` lists the
/// files that were added, of which there is at least one; `NoWadInArchive` says
/// that the directory is as it was.
pub open spec fn outcome_fits(outcome: OutcomeView, before: Directory, after: Directory) -> bool {
    match outcome {
        OutcomeView::Imported(names) => names.len() > 0 && lists_added(names, before, after),
        OutcomeView::NoWadInArchive => after == before,
        _ => true,
    }
}

/// The state of an importer that goes through the archive `bytes` and whose
/// request `action` is outstanding fits together: the request is for the entry
/// the state speaks of, and a write is only outstanding for a name that `dir`
/// does not hold.
pub open spec fn consistent(
    s: ImporterView,
    action: ActionView,
    bytes: Seq<u8>,
    dir: Directory,
) -> bool {
    &&& s.source == Some(bytes)
    &&& 0 <= s.entry < zip_entry_count(bytes)
    &&& zip_entry_name(bytes, s.entry) matches Some(name)
    &&& classify(name, s.host) == EntryClassView::Wad(s.pending)
    &&& match action {
        ActionView::ProbeDestination { file_name } => s.phase == Phase::Probing && file_name
            == s.pending,
        ActionView::WriteFile { file_name, payload, mode } => {
            &&& s.phase == Phase::Writing
            &&& file_name == s.pending
            &&& zip_entry_payload(bytes, s.entry) == Some(payload)
            &&& !dir.contains_key(file_name)
        },
        _ => false,
    }
}

/// The number of requests within which an importer in state `s` ends: two for
/// each entry from the current one on, less the probe if it is done.
pub open spec fn requests_left(s: ImporterView, bytes: Seq<u8>) -> int {
    2 * (zip_entry_count(bytes) - s.entry) - if s.phase == Phase::Writing {
        1int
    } else {
        0int
    }
}

/// Going through the entries of `bytes` from `from` either ends the import,
/// with the files imported so far or with a failure, or stops at an entry at or
/// behind `from` whose destination is then probed, the imported files being the
/// same.
pub proof fn lemma_scan(
    host: HostKind,
    bytes: Seq<u8>,
    imported: Seq<Seq<char>>,
    from: int,
    dir: Directory,
)
    requires
        0 <= from,
    ensures
        match scan_from(host, bytes, imported, from) {
            StepView::Continue(next, action) => {
                &&& consistent(next, action, bytes, dir)
                &&& next.phase == Phase::Probing
                &&& from <= next.entry
                &&& next.imported == imported
                &&& next.host == host
            },
            StepView::Done(outcome) => outcome == finished(imported) || outcome is IoError,
        },
    decreases zip_entry_count(bytes) - from,
{
    if from < zip_entry_count(bytes) {
        match zip_entry_name(bytes, from) {
            None => {},
            Some(name) => {
                if classify(name, host) is Skip {
                    lemma_scan(host, bytes, imported, from + 1, dir);
                }
            },
        }
    }
}

/// Running a consistent importer against a directory keeps the directory's
/// files and adds only WADs of the archive, whatever the number of steps.
pub proof fn lemma_run_is_safe(
    s: ImporterView,
    action: ActionView,
    bytes: Seq<u8>,
    before: Directory,
    dir: Directory,
    steps: nat,
)
    requires
        consistent(s, action, bytes, dir),
        keeps_files(before, dir),
        adds_only_wads(s.host, bytes, before, dir),
    ensures
        keeps_files(before, run(s, action, dir, steps).1),
        adds_only_wads(s.host, bytes, before, run(s, action, dir, steps).1),
    decreases steps,
{
    if steps > 0 {
        let next_dir = effect(dir, action);
        let event = reply(dir, action)->0;
        let name = zip_entry_name(bytes, s.entry)->0;
        assert(keeps_files(before, next_dir)
            && adds_only_wads(s.host, bytes, before, next_dir)) by {
            match action {
                ActionView::WriteFile { file_name, payload, mode } => {
                    lemma_wad_destination(name, s.host);
                    assert forall|other: Seq<char>| #[trigger]
                        next_dir.contains_key(other) && !before.contains_key(
                            other,
                        ) implies is_wad_name(other) && is_plain_name(other, s.host) && exists|
                        index: int,
                    | entry_yields(s.host, bytes, index, other, next_dir[other]) by {
                        if other != file_name {
                            assert(dir.contains_key(other));
                            assert(next_dir[other] == dir[other]);
                            assert(exists|index: int|
                                entry_yields(s.host, bytes, index, other, dir[other]));
                        } else {
                            assert(next_dir[other] == payload);
                            assert(entry_yields(s.host, bytes, s.entry, other, payload));
                        }
                    }
                },
                _ => {},
            }
        }
        match step_spec(s, event) {
            StepView::Done(_) => {},
            StepView::Continue(next, next_action) => {
                lemma_step_stays_consistent(s, action, bytes, dir);
                lemma_run_is_safe(next, next_action, bytes, before, next_dir, (steps - 1) as nat);
            },
        }
    }
}

/// One request on, a consistent importer is consistent again, has fewer
/// requests left, and has imported what it had, and the file it wrote if it
/// wrote one.
pub proof fn lemma_step_stays_consistent(
    s: ImporterView,
    action: ActionView,
    bytes: Seq<u8>,
    dir: Directory,
)
    requires
        consistent(s, action, bytes, dir),
    ensures
        match step_spec(s, reply(dir, action)->0) {
            StepView::Continue(next, next_action) => {
                &&& consistent(next, next_action, bytes, effect(dir, action))
                &&& next.host == s.host
                &&& requests_left(next, bytes) < requests_left(s, bytes)
                &&& next.imported == if action is WriteFile {
                    s.imported.push(s.pending)
                } else {
                    s.imported
                }
            },
            StepView::Done(outcome) => outcome is IoError || outcome == finished(
                if action is WriteFile {
                    s.imported.push(s.pending)
                } else {
                    s.imported
                },
            ),
        },
{
    let next_dir = effect(dir, action);
    let event = reply(dir, action)->0;
    match action {
        ActionView::ProbeDestination { file_name } => {
            if dir.contains_key(file_name) {
                lemma_scan(s.host, bytes, s.imported, s.entry + 1, next_dir);
            }
        },
        ActionView::WriteFile { file_name, payload, mode } => {
            lemma_scan(s.host, bytes, s.imported.push(s.pending), s.entry + 1, next_dir);
        },
        _ => {},
    }
}

/// A consistent importer never writes under a name that the directory holds.
pub proof fn lemma_run_writes_only_new(
    s: ImporterView,
    action: ActionView,
    bytes: Seq<u8>,
    dir: Directory,
    steps: nat,
)
    requires
        consistent(s, action, bytes, dir),
    ensures
        writes_only_new(s, action, dir, steps),
    decreases steps,
{
    if steps > 0 {
        lemma_step_stays_consistent(s, action, bytes, dir);
        match step_spec(s, reply(dir, action)->0) {
            StepView::Done(_) => {},
            StepView::Continue(next, next_action) => {
                lemma_run_writes_only_new(
                    next,
                    next_action,
                    bytes,
                    effect(dir, action),
                    (steps - 1) as nat,
                );
            },
        }
    }
}

/// A consistent importer ends within the requests it has left.
pub proof fn lemma_run_ends(
    s: ImporterView,
    action: ActionView,
    bytes: Seq<u8>,
    dir: Directory,
    steps: nat,
)
    requires
        consistent(s, action, bytes, dir),
        steps >= requests_left(s, bytes),
    ensures
        run(s, action, dir, steps).0 is Some,
    decreases steps,
{
    let next_dir = effect(dir, action);
    let event = reply(dir, action)->0;
    lemma_step_stays_consistent(s, action, bytes, dir);
    match step_spec(s, event) {
        StepView::Done(_) => {},
        StepView::Continue(next, next_action) => {
            lemma_run_ends(next, next_action, bytes, next_dir, (steps - 1) as nat);
        },
    }
}

/// Where a consistent importer has imported the files that were added to the
/// directory so far, the outcome of its run fits the directory afterwards.
pub proof fn lemma_run_outcome_fits(
    s: ImporterView,
    action: ActionView,
    bytes: Seq<u8>,
    before: Directory,
    dir: Directory,
    steps: nat,
)
    requires
        consistent(s, action, bytes, dir),
        keeps_files(before, dir),
        lists_added(s.imported, before, dir),
    ensures
        run(s, action, dir, steps).0 matches Some(outcome) ==> outcome_fits(
            outcome,
            before,
            run(s, action, dir, steps).1,
        ),
    decreases steps,
{
    if steps > 0 {
        let next_dir = effect(dir, action);
        let event = reply(dir, action)->0;
        let now = if action is WriteFile {
            s.imported.push(s.pending)
        } else {
            s.imported
        };
        lemma_step_stays_consistent(s, action, bytes, dir);
        assert(keeps_files(before, next_dir));
        assert(lists_added(now, before, next_dir)) by {
            if action is WriteFile {
                assert(!s.imported.contains(s.pending));
                assert forall|name: Seq<char>| #[trigger]
                    now.contains(name) <==> next_dir.contains_key(name) && !before.contains_key(
                        name,
                    ) by {
                    if name == s.pending {
                        assert(now[now.len() - 1] == name);
                    } else {
                        if s.imported.contains(name) {
                            let i = choose|i: int|
                                0 <= i < s.imported.len() && s.imported[i] == name;
                            assert(now[i] == name);
                        }
                        if now.contains(name) {
                            let i = choose|i: int| 0 <= i < now.len() && now[i] == name;
                            assert(s.imported[i] == name);
                        }
                    }
                }
            }
        }
        match step_spec(s, event) {
            StepView::Done(outcome) => {
                if outcome == OutcomeView::NoWadInArchive {
                    assert(now.len() == 0);
                    assert forall|name: Seq<char>|
                        next_dir.contains_key(name) implies before.contains_key(name) by {
                        if !before.contains_key(name) {
                            assert(now.contains(name));
                        }
                    }
                    assert(next_dir =~= before);
                }
            },
            StepView::Continue(next, next_action) => {
                lemma_run_outcome_fits(
                    next,
                    next_action,
                    bytes,
                    before,
                    next_dir,
                    (steps - 1) as nat,
                );
            },
        }
    }
}

/// No overwrite: after an import of any archive into any directory, every file
/// that was in the directory is still there with the content it had; and no
/// request of the import was a write under a name that the directory held by
/// then, so that no such file was touched.
pub proof fn law_no_overwrite(host: HostKind, bytes: Seq<u8>, dir: Directory, steps: nat)
    ensures
        keeps_files(dir, import_into(host, bytes, dir, steps).1),
        step_spec(loading(host), EventView::ArchiveLoaded(bytes)) matches StepView::Continue(
            next,
            action,
        ) ==> writes_only_new(next, action, dir, steps),
{
    match step_spec(loading(host), EventView::ArchiveLoaded(bytes)) {
        StepView::Done(_) => {},
        StepView::Continue(next, action) => {
            lemma_scan(host, bytes, Seq::empty(), 0, dir);
            lemma_run_is_safe(next, action, bytes, dir, dir, steps);
            lemma_run_writes_only_new(next, action, bytes, dir, steps);
        },
    }
}

/// Selective extraction: after an import of any archive into any directory,
/// every file that was not in the directory before has a name that ends in
/// `.wad` (ASCII case-insensitive) and holds no separator, which is the final
/// component of the name of an entry of the archive, and holds that entry's
/// content.
pub proof fn law_selective_extraction(host: HostKind, bytes: Seq<u8>, dir: Directory, steps: nat)
    ensures
        adds_only_wads(host, bytes, dir, import_into(host, bytes, dir, steps).1),
{
    match step_spec(loading(host), EventView::ArchiveLoaded(bytes)) {
        StepView::Done(_) => {},
        StepView::Continue(next, action) => {
            lemma_scan(host, bytes, Seq::empty(), 0, dir);
            lemma_run_is_safe(next, action, bytes, dir, dir, steps);
        },
    }
}

/// An import ends within two requests to the directory for each entry of the
/// archive.
pub proof fn law_import_ends(host: HostKind, bytes: Seq<u8>, dir: Directory, steps: nat)
    requires
        steps >= 2 * zip_entry_count(bytes),
    ensures
        import_into(host, bytes, dir, steps).0 is Some,
{
    match step_spec(loading(host), EventView::ArchiveLoaded(bytes)) {
        StepView::Done(_) => {},
        StepView::Continue(next, action) => {
            lemma_scan(host, bytes, Seq::empty(), 0, dir);
            lemma_run_ends(next, action, bytes, dir, steps);
        },
    }
}

/// The outcome of an import tells what it did: `Imported` lists, each once,
/// the files that were added, of which there is at least one; after
/// `NoWadInArchive` the directory is as it was.
pub proof fn law_outcome_lists_added_files(
    host: HostKind,
    bytes: Seq<u8>,
    dir: Directory,
    steps: nat,
)
    ensures
        import_into(host, bytes, dir, steps).0 matches Some(outcome) ==> outcome_fits(
            outcome,
            dir,
            import_into(host, bytes, dir, steps).1,
        ),
{
    match step_spec(loading(host), EventView::ArchiveLoaded(bytes)) {
        StepView::Done(outcome) => {
            lemma_scan(host, bytes, Seq::empty(), 0, dir);
        },
        StepView::Continue(next, action) => {
            lemma_scan(host, bytes, Seq::empty(), 0, dir);
            lemma_run_outcome_fits(next, action, bytes, dir, dir, steps);
        },
    }
}

} // verus!
