//! Decisions over what the Windows registry holds: the names of installed
//! software, which path an entry points to, and how a leftover is reported.
use vstd::prelude::*;
use crate::appdata::names_view;
use crate::command::{spec_exec_path, try_extract_exec_path};
use crate::text::{spec_to_lowercase, str_eq, to_lowercase, trim_str, trim_ws};

verus! {

/// What an `Uninstall` subkey tells about installed software.
#[derive(Clone, Debug)]
pub struct UninstallKeyNames {
    /// The subkey's own name.
    pub key_name: String,
    /// Its `DisplayName` value, when it could be read.
    pub display_name: Option<String>,
    /// Its `Publisher` value, when it could be read.
    pub publisher: Option<String>,
}

/// The lowercased names one subkey contributes: display name, publisher
/// (each when present), then the subkey name.
pub open spec fn key_names(k: UninstallKeyNames) -> Seq<Seq<char>> {
    (match k.display_name {
        Some(d) => seq![spec_to_lowercase(d@)],
        None => seq![],
    }) + (match k.publisher {
        Some(p) => seq![spec_to_lowercase(p@)],
        None => seq![],
    }) + seq![spec_to_lowercase(k.key_name@)]
}

/// The lowercased names of installed software, subkey by subkey.
pub open spec fn installed_names(keys: Seq<UninstallKeyNames>) -> Seq<Seq<char>>
    decreases keys.len(),
{
    if keys.len() == 0 {
        seq![]
    } else {
        installed_names(keys.drop_last()) + key_names(keys.last())
    }
}

/// The lowercased names of installed software (`get_installed_apps` gathers
/// them from the `Uninstall` keys).
pub fn installed_app_names(keys: &Vec<UninstallKeyNames>) -> (r: Vec<String>)
    ensures
        names_view(r@) == installed_names(keys@),
{
    let mut names: Vec<String> = Vec::new();
    let n = keys.len();
    for i in 0..n
        invariant
            n == keys@.len(),
            names_view(names@) == installed_names(keys@.take(i as int)),
    {
        let k = &keys[i];
        let ghost before = names_view(names@);
        match &k.display_name {
            Some(d) => names.push(to_lowercase(d.as_str())),
            None => {},
        }
        match &k.publisher {
            Some(p) => names.push(to_lowercase(p.as_str())),
            None => {},
        }
        names.push(to_lowercase(k.key_name.as_str()));
        proof {
            assert(keys@.take(i + 1).drop_last() =~= keys@.take(i as int));
            assert(names_view(names@) =~= before + key_names(keys@[i as int]));
        }
    }
    assert(keys@.take(n as int) =~= keys@);
    names
}

/// Each name lowercased (`get_program_dirs` lowercases the folder names
/// under `Program Files`).
pub fn lowercase_names(names: &Vec<String>) -> (r: Vec<String>)
    ensures
        r@.len() == names@.len(),
        forall|i: int| 0 <= i < r@.len() ==> #[trigger] r@[i]@ == spec_to_lowercase(names@[i]@),
{
    let mut out: Vec<String> = Vec::new();
    let n = names.len();
    for i in 0..n
        invariant
            n == names@.len(),
            out@.len() == i,
            forall|j: int| 0 <= j < i ==> #[trigger] out@[j]@ == spec_to_lowercase(names@[j]@),
    {
        out.push(to_lowercase(names[i].as_str()));
    }
    out
}

/// What to do with a path that a registry entry names.
#[derive(Clone, Debug, PartialEq, Eq)]
pub enum CheckTarget {
    /// There is no path to check.
    Skip,
    /// Check that this path (before expansion) exists.
    Check(String),
    /// The executable path cannot be cut out of the command: the cut after
    /// the extension does not fall on a character boundary.
    Unextractable,
}

/// The view of a [`CheckTarget`].
pub open spec fn target_view(t: CheckTarget) -> Option<Option<Seq<char>>> {
    match t {
        CheckTarget::Skip => Some(None),
        CheckTarget::Check(p) => Some(Some(p@)),
        CheckTarget::Unextractable => None,
    }
}

/// For a command: the executable path to check, unless it is empty.
pub open spec fn spec_command_target(cmd: Seq<char>) -> Option<Option<Seq<char>>> {
    match spec_exec_path(cmd) {
        Some(p) => if p.len() == 0 {
            Some(None)
        } else {
            Some(Some(p))
        },
        None => None,
    }
}

/// For an `Uninstall` subkey: its trimmed `InstallLocation` when it has one
/// (nothing to check when that is blank); else the executable path of its
/// `UninstallString` when it has one; else nothing.
pub open spec fn spec_uninstall_target(
    install_location: Option<Seq<char>>,
    uninstall_string: Option<Seq<char>>,
) -> Option<Option<Seq<char>>> {
    match install_location {
        Some(loc) => if trim_ws(loc).len() == 0 {
            Some(None)
        } else {
            Some(Some(trim_ws(loc)))
        },
        None => match uninstall_string {
            Some(cmd) => spec_command_target(cmd),
            None => Some(None),
        },
    }
}

/// The install location takes precedence: with one, the uninstall string
/// plays no part; without one, the uninstall string is read as a command
/// line; with neither, nothing is checked. A command gives a path to check
/// exactly when its executable path is not empty.
pub proof fn lemma_uninstall_precedence(
    loc: Seq<char>,
    u1: Option<Seq<char>>,
    u2: Option<Seq<char>>,
    cmd: Seq<char>,
)
    ensures
        spec_uninstall_target(Some(loc), u1) == spec_uninstall_target(Some(loc), u2),
        spec_uninstall_target(None, Some(cmd)) == spec_command_target(cmd),
        spec_uninstall_target(None, None) == Some(None::<Seq<char>>),
        spec_command_target(cmd) matches Some(Some(p)) ==> p.len() > 0 && spec_exec_path(cmd)
            == Some(p),
        spec_command_target(cmd) == Some(None::<Seq<char>>) <==> spec_exec_path(cmd) == Some(
            Seq::<char>::empty(),
        ),
        spec_command_target(cmd) is None <==> spec_exec_path(cmd) is None,
{
    if let Some(p) = spec_exec_path(cmd) {
        if p.len() == 0 {
            assert(p =~= Seq::<char>::empty());
        }
    }
}

/// Every subkey contributes the lowercase of its name, and of its display
/// name and publisher when it has them.
pub proof fn lemma_installed_names_cover(keys: Seq<UninstallKeyNames>, i: int)
    requires
        0 <= i < keys.len(),
    ensures
        installed_names(keys).contains(spec_to_lowercase(keys[i].key_name@)),
        keys[i].display_name matches Some(d) ==> installed_names(keys).contains(
            spec_to_lowercase(d@),
        ),
        keys[i].publisher matches Some(p) ==> installed_names(keys).contains(spec_to_lowercase(p@)),
    decreases keys.len(),
{
    let front = installed_names(keys.drop_last());
    let kn = key_names(keys.last());
    assert(installed_names(keys) == front + kn);
    if i < keys.len() - 1 {
        lemma_installed_names_cover(keys.drop_last(), i);
        assert(keys.drop_last()[i] == keys[i]);
        let x = spec_to_lowercase(keys[i].key_name@);
        let j = choose|j: int| 0 <= j < front.len() && front[j] == x;
        assert((front + kn)[j] == x);
        if let Some(d) = keys[i].display_name {
            let y = spec_to_lowercase(d@);
            let j2 = choose|j: int| 0 <= j < front.len() && front[j] == y;
            assert((front + kn)[j2] == y);
        }
        if let Some(p) = keys[i].publisher {
            let y = spec_to_lowercase(p@);
            let j2 = choose|j: int| 0 <= j < front.len() && front[j] == y;
            assert((front + kn)[j2] == y);
        }
    } else {
        let k = keys.last();
        assert(kn[kn.len() - 1] == spec_to_lowercase(k.key_name@));
        assert((front + kn)[front.len() + kn.len() - 1] == spec_to_lowercase(k.key_name@));
        if let Some(d) = k.display_name {
            assert(kn[0] == spec_to_lowercase(d@));
            assert((front + kn)[front.len() as int] == spec_to_lowercase(d@));
        }
        if let Some(p) = k.publisher {
            let at = if k.display_name is Some {
                1int
            } else {
                0int
            };
            assert(kn[at] == spec_to_lowercase(p@));
            assert((front + kn)[front.len() + at] == spec_to_lowercase(p@));
        }
    }
}

/// The path that a `Run`/`RunOnce` command points to, to be expanded and
/// checked; `Skip` when its executable path is empty.
pub fn startup_target(command: &str) -> (r: CheckTarget)
    ensures
        target_view(r) == spec_command_target(command@),
{
    match try_extract_exec_path(command) {
        Some(p) => {
            if p.as_str().is_empty() {
                CheckTarget::Skip
            } else {
                CheckTarget::Check(p)
            }
        },
        None => CheckTarget::Unextractable,
    }
}

/// The path that an `Uninstall` subkey points to, to be expanded and checked
/// (see [`spec_uninstall_target`]).
pub fn uninstall_target(install_location: Option<&str>, uninstall_string: Option<&str>) -> (r:
    CheckTarget)
    ensures
        target_view(r) == spec_uninstall_target(
            match install_location {
                Some(s) => Some(s@),
                None => None,
            },
            match uninstall_string {
                Some(s) => Some(s@),
                None => None,
            },
        ),
{
    match install_location {
        Some(loc) => {
            let t = trim_str(loc);
            if t.is_empty() {
                CheckTarget::Skip
            } else {
                CheckTarget::Check(t.to_owned())
            }
        },
        None => match uninstall_string {
            Some(cmd) => startup_target(cmd),
            None => CheckTarget::Skip,
        },
    }
}

/// An `Uninstall` subkey whose software is gone.
#[derive(Clone, Debug)]
pub struct RegistryUninstallJunk {
    /// The hive's name.
    pub hive: String,
    /// The subkey's path under the hive.
    pub key_path: String,
    /// The software's display name (the subkey name when it has none).
    pub display_name: String,
    /// The path that does not exist.
    pub invalid_path: String,
}

/// The report of a leftover `Uninstall` subkey: its path is the parent key's
/// path, a backslash and its name; its display name defaults to its name.
pub fn uninstall_junk(
    hive_name: &str,
    parent_path: &str,
    key_name: &str,
    display_name: Option<String>,
    invalid_path: String,
) -> (r: RegistryUninstallJunk)
    ensures
        r.hive@ == hive_name@,
        r.key_path@ == parent_path@ + seq!['\\'] + key_name@,
        r.display_name@ == match display_name {
            Some(d) => d@,
            None => key_name@,
        },
        r.invalid_path@ == invalid_path@,
{
    proof {
        reveal_strlit("\\");
    }
    let mut key_path = parent_path.to_owned();
    key_path.append("\\");
    key_path.append(key_name);
    let display = match display_name {
        Some(d) => d,
        None => key_name.to_owned(),
    };
    RegistryUninstallJunk {
        hive: hive_name.to_owned(),
        key_path,
        display_name: display,
        invalid_path,
    }
}

/// The registry hives whose values can be deleted.
#[derive(Clone, Copy, Debug, PartialEq, Eq)]
pub enum Hive {
    /// `HKEY_CURRENT_USER`.
    CurrentUser,
    /// `HKEY_LOCAL_MACHINE`.
    LocalMachine,
}

/// The hive a name designates: exactly `HKEY_CURRENT_USER` or
/// `HKEY_LOCAL_MACHINE`; any other name is refused.
pub fn parse_hive(name: &str) -> (r: Option<Hive>)
    ensures
        r == (if name@ == "HKEY_CURRENT_USER"@ {
            Some(Hive::CurrentUser)
        } else if name@ == "HKEY_LOCAL_MACHINE"@ {
            Some(Hive::LocalMachine)
        } else {
            None
        }),
{
    if str_eq(name, "HKEY_CURRENT_USER") {
        Some(Hive::CurrentUser)
    } else if str_eq(name, "HKEY_LOCAL_MACHINE") {
        Some(Hive::LocalMachine)
    } else {
        None
    }
}

} // verus!
