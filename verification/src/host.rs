//! The host platform families that the launcher tells apart.

use crate::text::same_text;
use vstd::prelude::*;

verus! {

/// The operating-system family of the host, chosen once at startup.
#[derive(Clone, Copy, Debug, PartialEq, Eq, Structural)]
pub enum HostKind {
    /// macOS: GUI bundles are started through the system's `open` command.
    MacOs,
    /// Windows: the engine is started directly; files carry no POSIX mode.
    Windows,
    /// Any other host: the engine is started directly.
    UnixLike,
}

/// The host family that goes by the operating-system name `os`, as
/// `std::env::consts::OS` gives it: `macos`, `windows`, or any other.
pub open spec fn host_named(os: Seq<char>) -> HostKind {
    if os == "macos"@ {
        HostKind::MacOs
    } else if os == "windows"@ {
        HostKind::Windows
    } else {
        HostKind::UnixLike
    }
}

impl HostKind {
    /// Computes [`host_named`].
    pub fn from_os_name(os: &str) -> (host: HostKind)
        ensures
            host == host_named(os@),
    {
        if same_text(os, "macos") {
            HostKind::MacOs
        } else if same_text(os, "windows") {
            HostKind::Windows
        } else {
            HostKind::UnixLike
        }
    }
}

/// The POSIX mode given to an imported file, on hosts that have file modes.
pub open spec fn posix_mode(host: HostKind) -> Option<u32> {
    match host {
        HostKind::Windows => None,
        _ => Some(0o644u32),
    }
}

/// Computes [`posix_mode`].
pub fn import_mode(host: HostKind) -> (mode: Option<u32>)
    ensures
        mode == posix_mode(host),
{
    match host {
        HostKind::Windows => None,
        _ => Some(0o644),
    }
}

} // verus!
