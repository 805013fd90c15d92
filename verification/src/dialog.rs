//! What becomes of the user's choices in the file dialogs.
//!
//! The caller shows the dialogs; this module says which files each dialog
//! offers and turns the choice, or its absence, into the text that is shown and
//! stored.

use crate::text::{same_text, string_views};
use vstd::prelude::*;

verus! {

/// The dialogs that the launcher shows.
#[derive(Clone, Copy, Debug, PartialEq, Eq, Structural)]
pub enum Picker {
    /// The mod directory.
    Folder,
    /// The engine executable.
    Executable,
    /// The base game data.
    Wad,
    /// An archive to import from.
    Archive,
}

/// The file extensions that the dialog `picker` offers; none for the folder
/// dialog.
pub open spec fn extension_hints(picker: Picker) -> Seq<Seq<char>> {
    match picker {
        Picker::Folder => Seq::empty(),
        Picker::Executable => seq!["exe"@, "sh"@, "bin"@, "command"@, "app"@],
        Picker::Wad => seq!["wad"@],
        Picker::Archive => seq!["zip"@],
    }
}

/// Whether `file_name` is a name under which the engine executable goes.
pub open spec fn is_engine_name(file_name: Seq<char>) -> bool {
    file_name == "GZDoom"@ || file_name == "GZDoom.exe"@ || file_name == "GZDoom.app"@
}

/// The text that stands in place of a chosen executable that is not the engine.
pub open spec fn rejection_text() -> Seq<char> {
    "The executable selected is not GZDoom"@
}

/// What is kept of the chosen executable `path` whose file name is
/// `file_name`: the path if the file name is the engine's, else the rejection
/// text.
pub open spec fn verdict(path: Seq<char>, file_name: Option<Seq<char>>) -> Seq<char> {
    match file_name {
        Some(name) => if is_engine_name(name) {
            path
        } else {
            rejection_text()
        },
        None => rejection_text(),
    }
}

/// Calls `std::path::Path::file_name` on `path`: the final component of the
/// path by the host's rules, if it has one. Nothing is claimed of it.
#[verifier::external_body]
fn path_file_name(path: &str) -> (file_name: Option<String>)
{
    let file_name = std::path::Path::new(path).file_name();
    file_name.and_then(|name| name.to_str()).map(|name| name.to_owned())
}

/// Computes [`extension_hints`].
pub fn extensions_for(picker: Picker) -> (hints: Vec<String>)
    ensures
        string_views(hints@) == extension_hints(picker),
{
    let mut hints: Vec<String> = Vec::new();
    match picker {
        Picker::Folder => {},
        Picker::Executable => {
            hints.push("exe".to_owned());
            hints.push("sh".to_owned());
            hints.push("bin".to_owned());
            hints.push("command".to_owned());
            hints.push("app".to_owned());
        },
        Picker::Wad => {
            hints.push("wad".to_owned());
        },
        Picker::Archive => {
            hints.push("zip".to_owned());
        },
    }
    proof {
        assert(string_views(hints@) =~= extension_hints(picker));
    }
    hints
}

/// The text for the mod directory: the chosen folder, or nothing if the dialog
/// was cancelled.
pub fn get_folder_path(choice: Option<String>) -> (text: String)
    ensures
        match choice {
            Some(path) => text@ == path@,
            None => text@.len() == 0,
        },
{
    match choice {
        Some(path) => path,
        None => String::new(),
    }
}

/// The text for the base game data: the chosen file, or nothing if the dialog
/// was cancelled.
pub fn get_wad_path(choice: Option<String>) -> (text: String)
    ensures
        match choice {
            Some(path) => text@ == path@,
            None => text@.len() == 0,
        },
{
    match choice {
        Some(path) => path,
        None => String::new(),
    }
}

/// Computes [`verdict`].
pub fn executable_verdict(path: String, file_name: Option<String>) -> (text: String)
    ensures
        text@ == verdict(
            path@,
            match file_name {
                Some(name) => Some(name@),
                None => None,
            },
        ),
{
    match file_name {
        Some(name) => {
            if same_text(name.as_str(), "GZDoom") || same_text(name.as_str(), "GZDoom.exe")
                || same_text(name.as_str(), "GZDoom.app") {
                path
            } else {
                "The executable selected is not GZDoom".to_owned()
            }
        },
        None => "The executable selected is not GZDoom".to_owned(),
    }
}

/// The text for the engine executable: nothing if the dialog was cancelled;
/// else the chosen path if its file name, taken by the host's path rules, is
/// the engine's, and the rejection text if it is not.
pub fn select_executable(choice: Option<String>) -> (text: String)
    ensures
        match choice {
            Some(path) => text@ == path@ || text@ == rejection_text(),
            None => text@.len() == 0,
        },
{
    match choice {
        Some(path) => {
            let file_name = path_file_name(path.as_str());
            executable_verdict(path, file_name)
        },
        None => String::new(),
    }
}

} // verus!
