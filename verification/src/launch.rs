//! Planning the launch of the engine: path validation and the command line.
//!
//! The caller probes the paths and spawns the process; this module decides
//! whether the launch may go ahead and which program is started with which
//! arguments on each host.

use crate::host::HostKind;
use crate::text::string_views;
use vstd::prelude::*;

verus! {

/// What a path is needed for in a launch.
#[derive(Clone, Copy, Debug, PartialEq, Eq, Structural)]
pub enum Role {
    /// The engine executable.
    Engine,
    /// The base game data.
    Iwad,
    /// The mod layered onto the base game data.
    Mod,
}

/// A path that a launch needs does not exist.
#[derive(Clone, Debug, PartialEq, Eq)]
pub struct NotFound {
    pub role: Role,
    pub path: String,
}

/// [`NotFound`] as a mathematical value.
pub struct NotFoundView {
    pub role: Role,
    pub path: Seq<char>,
}

impl View for NotFound {
    type V = NotFoundView;

    open spec fn view(&self) -> NotFoundView {
        NotFoundView { role: self.role, path: self.path@ }
    }
}

/// How a role is called where the path is named.
pub open spec fn subject(role: Role) -> Seq<char> {
    match role {
        Role::Engine => "GZDoom executable"@,
        Role::Iwad => "WAD file"@,
        Role::Mod => "Mod file"@,
    }
}

/// How a role is called in short.
pub open spec fn short_subject(role: Role) -> Seq<char> {
    match role {
        Role::Engine => "GZDoom"@,
        Role::Iwad => "WAD file"@,
        Role::Mod => "Mod file"@,
    }
}

impl NotFound {
    /// The failure in a few words: what was not found.
    pub fn message(&self) -> (text: String)
        ensures
            text@ == short_subject(self.role) + " not found"@,
    {
        let mut text = match self.role {
            Role::Engine => "GZDoom".to_owned(),
            Role::Iwad => "WAD file".to_owned(),
            Role::Mod => "Mod file".to_owned(),
        };
        text.append(" not found");
        text
    }

    /// The one-line diagnostic of the failure: what was not found, and where.
    pub fn diagnostic(&self) -> (text: String)
        ensures
            text@ == "Error: "@ + subject(self.role) + " not found at '"@ + self.path@ + "'"@,
    {
        let mut text = "Error: ".to_owned();
        match self.role {
            Role::Engine => text.append("GZDoom executable"),
            Role::Iwad => text.append("WAD file"),
            Role::Mod => text.append("Mod file"),
        }
        text.append(" not found at '");
        text.append(self.path.as_str());
        text.append("'");
        text
    }
}

/// A process to start: the program and its arguments.
#[derive(Clone, Debug, PartialEq, Eq)]
pub struct Invocation {
    pub program: String,
    pub args: Vec<String>,
}

/// [`Invocation`] as a mathematical value.
pub struct InvocationView {
    pub program: Seq<char>,
    pub args: Seq<Seq<char>>,
}

impl InvocationView {
    /// The argument vector of the process: the program, then its arguments.
    pub open spec fn argv(self) -> Seq<Seq<char>> {
        seq![self.program] + self.args
    }
}

impl View for Invocation {
    type V = InvocationView;

    open spec fn view(&self) -> InvocationView {
        InvocationView { program: self.program@, args: string_views(self.args@) }
    }
}

impl Invocation {
    /// The argument vector of the process: the program, then its arguments.
    pub fn argv(&self) -> (all: Vec<String>)
        ensures
            string_views(all@) == self@.argv(),
    {
        let mut all: Vec<String> = Vec::new();
        all.push(self.program.clone());
        let mut i: usize = 0;
        proof {
            assert(string_views(all@) =~= seq![self.program@] + string_views(self.args@).take(0));
        }
        while i < self.args.len()
            invariant
                i <= self.args.len(),
                string_views(all@) == seq![self.program@] + string_views(self.args@).take(
                    i as int,
                ),
            decreases self.args.len() - i,
        {
            let ghost before = string_views(all@);
            all.push(self.args[i].clone());
            proof {
                assert(string_views(all@) =~= before.push(self.args@[i as int]@));
                assert(string_views(self.args@).take(i + 1) =~= string_views(self.args@).take(
                    i as int,
                ).push(self.args@[i as int]@));
            }
            i += 1;
        }
        proof {
            assert(string_views(self.args@).take(self.args.len() as int) =~= string_views(
                self.args@,
            ));
        }
        all
    }
}

/// The arguments that the engine takes: `-iwad` with the base game data, then
/// `-file` with the mod if there is one.
pub open spec fn engine_args(iwad: Seq<char>, mod_path: Option<Seq<char>>) -> Seq<Seq<char>> {
    match mod_path {
        None => seq!["-iwad"@, iwad],
        Some(path) => seq!["-iwad"@, iwad, "-file"@, path],
    }
}

/// The process that starts the engine on `host`. On macOS the engine is handed
/// to `open` behind `-a`, and its own arguments follow `--args`; elsewhere the
/// engine is the program.
pub open spec fn invocation_for(
    host: HostKind,
    engine: Seq<char>,
    iwad: Seq<char>,
    mod_path: Option<Seq<char>>,
) -> InvocationView {
    match host {
        HostKind::MacOs => InvocationView {
            program: "open"@,
            args: seq!["-a"@, engine, "--args"@] + engine_args(iwad, mod_path),
        },
        _ => InvocationView { program: engine, args: engine_args(iwad, mod_path) },
    }
}

/// The first role, in the order engine, base game data, mod, whose path was
/// not found. `mod_found` is `None` for a launch without a mod.
pub open spec fn first_missing(
    engine_found: bool,
    iwad_found: bool,
    mod_found: Option<bool>,
) -> Option<Role> {
    if !engine_found {
        Some(Role::Engine)
    } else if !iwad_found {
        Some(Role::Iwad)
    } else if mod_found == Some(false) {
        Some(Role::Mod)
    } else {
        None
    }
}

/// The path that stands in `role`.
pub open spec fn path_of(
    role: Role,
    engine: Seq<char>,
    iwad: Seq<char>,
    mod_path: Option<Seq<char>>,
) -> Seq<char> {
    match role {
        Role::Engine => engine,
        Role::Iwad => iwad,
        Role::Mod => match mod_path {
            Some(path) => path,
            None => Seq::empty(),
        },
    }
}

/// The plan of a launch: the first missing path if there is one, else the
/// process to start.
pub open spec fn launch_plan(
    host: HostKind,
    engine: Seq<char>,
    iwad: Seq<char>,
    mod_path: Option<Seq<char>>,
    engine_found: bool,
    iwad_found: bool,
    mod_found: Option<bool>,
) -> Result<InvocationView, NotFoundView> {
    match first_missing(engine_found, iwad_found, mod_found) {
        Some(role) => Err(NotFoundView { role, path: path_of(role, engine, iwad, mod_path) }),
        None => Ok(invocation_for(host, engine, iwad, mod_path)),
    }
}

/// The outcome of a launch as a mathematical value.
pub open spec fn plan_view(plan: Result<Invocation, NotFound>) -> Result<
    InvocationView,
    NotFoundView,
> {
    match plan {
        Ok(invocation) => Ok(invocation@),
        Err(missing) => Err(missing@),
    }
}

/// The validating form of a path probe: `Ok` if the path exists, else the
/// absence of the path in its role.
pub fn require(role: Role, path: &str, exists: bool) -> (r: Result<(), NotFound>)
    ensures
        match r {
            Ok(_) => exists,
            Err(missing) => !exists && missing@ == (NotFoundView { role, path: path@ }),
        },
{
    if exists {
        Ok(())
    } else {
        Err(NotFound { role, path: path.to_owned() })
    }
}

/// The arguments for the engine itself: [`engine_args`].
fn build_engine_args(args: &mut Vec<String>, wad_path: &str, mod_path: Option<&str>)
    ensures
        string_views(final(args)@) == string_views(old(args)@) + engine_args(
            wad_path@,
            match mod_path {
                Some(path) => Some(path@),
                None => None,
            },
        ),
{
    let ghost before = string_views(args@);
    args.push("-iwad".to_owned());
    args.push(wad_path.to_owned());
    match mod_path {
        Some(path) => {
            args.push("-file".to_owned());
            args.push(path.to_owned());
            proof {
                assert(string_views(args@) =~= before + seq!["-iwad"@, wad_path@, "-file"@, path@]);
            }
        },
        None => {
            proof {
                assert(string_views(args@) =~= before + seq!["-iwad"@, wad_path@]);
            }
        },
    }
}

/// The process that starts the engine on `host`: [`invocation_for`].
pub fn build_invocation(
    host: HostKind,
    gzdoom_path: &str,
    wad_path: &str,
    mod_path: Option<&str>,
) -> (invocation: Invocation)
    ensures
        invocation@ == invocation_for(
            host,
            gzdoom_path@,
            wad_path@,
            match mod_path {
                Some(path) => Some(path@),
                None => None,
            },
        ),
{
    let mut args: Vec<String> = Vec::new();
    match host {
        HostKind::MacOs => {
            args.push("-a".to_owned());
            args.push(gzdoom_path.to_owned());
            args.push("--args".to_owned());
            proof {
                assert(string_views(args@) =~= seq!["-a"@, gzdoom_path@, "--args"@]);
            }
            build_engine_args(&mut args, wad_path, mod_path);
            Invocation { program: "open".to_owned(), args }
        },
        _ => {
            proof {
                assert(string_views(args@) =~= Seq::<Seq<char>>::empty());
            }
            build_engine_args(&mut args, wad_path, mod_path);
            proof {
                let tail = engine_args(
                    wad_path@,
                    match mod_path {
                        Some(path) => Some(path@),
                        None => None,
                    },
                );
                assert(Seq::<Seq<char>>::empty() + tail =~= tail);
            }
            Invocation { program: gzdoom_path.to_owned(), args }
        },
    }
}

/// Plans the launch of the engine with the base game data alone. The paths are
/// validated in the order engine, base game data, and the first one that was
/// not found is the error; if both were found, the result is the process to
/// start on `host`.
pub fn launch_gzdoom(
    gzdoom_path: &str,
    wad_path: &str,
    host: HostKind,
    engine_found: bool,
    iwad_found: bool,
) -> (plan: Result<Invocation, NotFound>)
    ensures
        plan_view(plan) == launch_plan(
            host,
            gzdoom_path@,
            wad_path@,
            None,
            engine_found,
            iwad_found,
            None,
        ),
        !engine_found ==> plan is Err && plan->Err_0@ == (NotFoundView {
            role: Role::Engine,
            path: gzdoom_path@,
        }),
{
    match require(Role::Engine, gzdoom_path, engine_found) {
        Err(missing) => {
            return Err(missing);
        },
        Ok(_) => {},
    }
    match require(Role::Iwad, wad_path, iwad_found) {
        Err(missing) => {
            return Err(missing);
        },
        Ok(_) => {},
    }
    Ok(build_invocation(host, gzdoom_path, wad_path, None))
}

/// Plans the launch of the engine with a mod. The paths are validated in the
/// order engine, base game data, mod, and the first one that was not found is
/// the error; if all were found, the result is the process to start on `host`.
pub fn launch_gzdoom_with_mod(
    gzdoom_path: &str,
    wad_path: &str,
    mod_path: &str,
    host: HostKind,
    engine_found: bool,
    iwad_found: bool,
    mod_found: bool,
) -> (plan: Result<Invocation, NotFound>)
    ensures
        plan_view(plan) == launch_plan(
            host,
            gzdoom_path@,
            wad_path@,
            Some(mod_path@),
            engine_found,
            iwad_found,
            Some(mod_found),
        ),
        !engine_found ==> plan is Err && plan->Err_0@ == (NotFoundView {
            role: Role::Engine,
            path: gzdoom_path@,
        }),
{
    match require(Role::Engine, gzdoom_path, engine_found) {
        Err(missing) => {
            return Err(missing);
        },
        Ok(_) => {},
    }
    match require(Role::Iwad, wad_path, iwad_found) {
        Err(missing) => {
            return Err(missing);
        },
        Ok(_) => {},
    }
    match require(Role::Mod, mod_path, mod_found) {
        Err(missing) => {
            return Err(missing);
        },
        Ok(_) => {},
    }
    Ok(build_invocation(host, gzdoom_path, wad_path, Some(mod_path)))
}

} // verus!
