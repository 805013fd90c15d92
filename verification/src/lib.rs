//! The core of a desktop launcher for the GZDoom engine.
//!
//! The launcher keeps three paths in a configuration text (the engine, the
//! base game data, the directory of mods), lists the mods of that directory,
//! imports mods from ZIP archives, and starts the engine with or without a mod.
//! This library holds the decisions; files, dialogs and processes are the
//! caller's part, who hands the library what it read and performs what the
//! library answers.
//!
//! - [`config`]: the configuration text.
//! - [`dialog`]: what becomes of the user's choices in the file dialogs.
//! - [`scan`]: the index of the mods in the mod directory.
//! - [`import`]: the import of WAD files from a ZIP archive, step by step.
//! - [`directory`]: what an import does to the mod directory, proved on a model.
//! - [`launch`]: the validation of paths and the command line of the engine.
//! - [`host`]: the host platforms that are told apart.
//! - [`archive`]: the ZIP archive as the `zip` crate reads it.
//! - [`text`]: helpers on characters and lines.

pub mod archive;
pub mod config;
pub mod dialog;
pub mod directory;
pub mod host;
pub mod import;
pub mod launch;
pub mod scan;
pub mod text;
