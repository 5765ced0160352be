//! Which folders under `AppData` are leftovers of uninstalled software.
use vstd::prelude::*;
use crate::sizes::SizeKey;
use crate::text::{occurs_in, spec_to_lowercase, str_contains, str_eq, to_lowercase};

verus! {

/// Folders older than this many days may be leftovers.
pub const LEFTOVER_MIN_AGE_DAYS: u64 = 15;

/// Seconds in a day.
pub const SECONDS_PER_DAY: u64 = 86400;

/// Number of folder names that are never reported.
pub const EXCLUDED_COUNT: usize = 26;

/// The `k`-th folder name (lowercase) that is never reported: system,
/// vendor and developer-tool folders.
pub open spec fn excluded_name(k: int) -> Seq<char> {
    if k == 0 {
        "microsoft"@
    } else if k == 1 {
        "packages"@
    } else if k == 2 {
        "temp"@
    } else if k == 3 {
        "google"@
    } else if k == 4 {
        "mozilla"@
    } else if k == 5 {
        "github"@
    } else if k == 6 {
        "git"@
    } else if k == 7 {
        "npm"@
    } else if k == 8 {
        "yarn"@
    } else if k == 9 {
        "rustup"@
    } else if k == 10 {
        "cargo"@
    } else if k == 11 {
        ".gemini"@
    } else if k == 12 {
        "antigravity-ide"@
    } else if k == 13 {
        "adobe"@
    } else if k == 14 {
        "intel"@
    } else if k == 15 {
        "nvidia"@
    } else if k == 16 {
        "dropbox"@
    } else if k == 17 {
        "onedrive"@
    } else if k == 18 {
        "apple"@
    } else if k == 19 {
        "apple computer"@
    } else if k == 20 {
        "spotify"@
    } else if k == 21 {
        "assembly"@
    } else if k == 22 {
        "com_microsoft_visualstudio_telemetry"@
    } else if k == 23 {
        "d3dscache"@
    } else if k == 24 {
        "identities"@
    } else {
        "virtualstore"@
    }
}

/// The lowercase folder name is one that is never reported.
pub open spec fn is_excluded(name: Seq<char>) -> bool {
    exists|k: int| 0 <= k < EXCLUDED_COUNT && name == #[trigger] excluded_name(k)
}

/// The names held by a list of strings.
pub open spec fn names_view(v: Seq<String>) -> Seq<Seq<char>> {
    v.map_values(|s: String| s@)
}

/// Some listed name contains `name`, or is contained in it.
pub open spec fn overlaps_any(name: Seq<char>, names: Seq<Seq<char>>) -> bool {
    exists|i: int|
        0 <= i < names.len() && (occurs_in(name, #[trigger] names[i]) || occurs_in(names[i], name))
}

/// The lowercase folder name belongs to installed software: it is a program
/// folder or installed application name, or one of those contains it or is
/// contained in it.
pub open spec fn is_installed(
    name: Seq<char>,
    program_dirs: Seq<Seq<char>>,
    installed_apps: Seq<Seq<char>>,
) -> bool {
    ||| program_dirs.contains(name)
    ||| installed_apps.contains(name)
    ||| overlaps_any(name, program_dirs)
    ||| overlaps_any(name, installed_apps)
}

/// A folder is reported as a leftover: its lowercased name is not excluded,
/// it is a directory, it does not belong to installed software, and it is
/// older than [`LEFTOVER_MIN_AGE_DAYS`] days.
pub open spec fn spec_is_leftover(
    name: Seq<char>,
    is_dir: bool,
    age_days: u64,
    program_dirs: Seq<Seq<char>>,
    installed_apps: Seq<Seq<char>>,
) -> bool {
    let lower = spec_to_lowercase(name);
    &&& !is_excluded(lower)
    &&& is_dir
    &&& !is_installed(lower, program_dirs, installed_apps)
    &&& age_days > LEFTOVER_MIN_AGE_DAYS
}

/// A leftover folder found under `AppData`.
#[derive(Clone, Debug)]
pub struct AppDataLeftover {
    /// The folder's name.
    pub name: String,
    /// The folder's full path.
    pub path: String,
    /// The bytes of all files below it.
    pub size_bytes: u64,
    /// When it was last modified, as shown to the user.
    pub last_modified: String,
    /// Whole days since it was last modified.
    pub age_days: u64,
}

impl SizeKey for AppDataLeftover {
    open spec fn size_key(&self) -> u64 {
        self.size_bytes
    }

    fn size(&self) -> (r: u64) {
        self.size_bytes
    }
}

/// The `k`-th excluded folder name.
fn excluded_name_at(k: usize) -> (r: &'static str)
    requires
        k < EXCLUDED_COUNT,
    ensures
        r@ == excluded_name(k as int),
{
    if k == 0 {
        "microsoft"
    } else if k == 1 {
        "packages"
    } else if k == 2 {
        "temp"
    } else if k == 3 {
        "google"
    } else if k == 4 {
        "mozilla"
    } else if k == 5 {
        "github"
    } else if k == 6 {
        "git"
    } else if k == 7 {
        "npm"
    } else if k == 8 {
        "yarn"
    } else if k == 9 {
        "rustup"
    } else if k == 10 {
        "cargo"
    } else if k == 11 {
        ".gemini"
    } else if k == 12 {
        "antigravity-ide"
    } else if k == 13 {
        "adobe"
    } else if k == 14 {
        "intel"
    } else if k == 15 {
        "nvidia"
    } else if k == 16 {
        "dropbox"
    } else if k == 17 {
        "onedrive"
    } else if k == 18 {
        "apple"
    } else if k == 19 {
        "apple computer"
    } else if k == 20 {
        "spotify"
    } else if k == 21 {
        "assembly"
    } else if k == 22 {
        "com_microsoft_visualstudio_telemetry"
    } else if k == 23 {
        "d3dscache"
    } else if k == 24 {
        "identities"
    } else {
        "virtualstore"
    }
}

/// Whether a lowercase folder name is one that is never reported.
pub fn is_excluded_appdata_dir(name_lower: &str) -> (r: bool)
    ensures
        r == is_excluded(name_lower@),
        r == (name_lower@ == "microsoft"@
            || name_lower@ == "packages"@
            || name_lower@ == "temp"@
            || name_lower@ == "google"@
            || name_lower@ == "mozilla"@
            || name_lower@ == "github"@
            || name_lower@ == "git"@
            || name_lower@ == "npm"@
            || name_lower@ == "yarn"@
            || name_lower@ == "rustup"@
            || name_lower@ == "cargo"@
            || name_lower@ == ".gemini"@
            || name_lower@ == "antigravity-ide"@
            || name_lower@ == "adobe"@
            || name_lower@ == "intel"@
            || name_lower@ == "nvidia"@
            || name_lower@ == "dropbox"@
            || name_lower@ == "onedrive"@
            || name_lower@ == "apple"@
            || name_lower@ == "apple computer"@
            || name_lower@ == "spotify"@
            || name_lower@ == "assembly"@
            || name_lower@ == "com_microsoft_visualstudio_telemetry"@
            || name_lower@ == "d3dscache"@
            || name_lower@ == "identities"@
            || name_lower@ == "virtualstore"@),
{
    proof {
        if name_lower@ == "microsoft"@ {
            assert(name_lower@ == excluded_name(0));
        }
        if name_lower@ == "packages"@ {
            assert(name_lower@ == excluded_name(1));
        }
        if name_lower@ == "temp"@ {
            assert(name_lower@ == excluded_name(2));
        }
        if name_lower@ == "google"@ {
            assert(name_lower@ == excluded_name(3));
        }
        if name_lower@ == "mozilla"@ {
            assert(name_lower@ == excluded_name(4));
        }
        if name_lower@ == "github"@ {
            assert(name_lower@ == excluded_name(5));
        }
        if name_lower@ == "git"@ {
            assert(name_lower@ == excluded_name(6));
        }
        if name_lower@ == "npm"@ {
            assert(name_lower@ == excluded_name(7));
        }
        if name_lower@ == "yarn"@ {
            assert(name_lower@ == excluded_name(8));
        }
        if name_lower@ == "rustup"@ {
            assert(name_lower@ == excluded_name(9));
        }
        if name_lower@ == "cargo"@ {
            assert(name_lower@ == excluded_name(10));
        }
        if name_lower@ == ".gemini"@ {
            assert(name_lower@ == excluded_name(11));
        }
        if name_lower@ == "antigravity-ide"@ {
            assert(name_lower@ == excluded_name(12));
        }
        if name_lower@ == "adobe"@ {
            assert(name_lower@ == excluded_name(13));
        }
        if name_lower@ == "intel"@ {
            assert(name_lower@ == excluded_name(14));
        }
        if name_lower@ == "nvidia"@ {
            assert(name_lower@ == excluded_name(15));
        }
        if name_lower@ == "dropbox"@ {
            assert(name_lower@ == excluded_name(16));
        }
        if name_lower@ == "onedrive"@ {
            assert(name_lower@ == excluded_name(17));
        }
        if name_lower@ == "apple"@ {
            assert(name_lower@ == excluded_name(18));
        }
        if name_lower@ == "apple computer"@ {
            assert(name_lower@ == excluded_name(19));
        }
        if name_lower@ == "spotify"@ {
            assert(name_lower@ == excluded_name(20));
        }
        if name_lower@ == "assembly"@ {
            assert(name_lower@ == excluded_name(21));
        }
        if name_lower@ == "com_microsoft_visualstudio_telemetry"@ {
            assert(name_lower@ == excluded_name(22));
        }
        if name_lower@ == "d3dscache"@ {
            assert(name_lower@ == excluded_name(23));
        }
        if name_lower@ == "identities"@ {
            assert(name_lower@ == excluded_name(24));
        }
        if name_lower@ == "virtualstore"@ {
            assert(name_lower@ == excluded_name(25));
        }
        if is_excluded(name_lower@) {
            let k = choose|k: int| 0 <= k < EXCLUDED_COUNT && name_lower@ == #[trigger] excluded_name(k);
            assert(name_lower@ == excluded_name(k));
        }
    }
    let mut k: usize = 0;
    while k < EXCLUDED_COUNT
        invariant
            k <= EXCLUDED_COUNT,
            forall|j: int| 0 <= j < k ==> name_lower@ != #[trigger] excluded_name(j),
        decreases EXCLUDED_COUNT - k,
    {
        if str_eq(name_lower, excluded_name_at(k)) {
            return true;
        }
        k = k + 1;
    }
    false
}

/// Whether `names` holds `name`.
fn list_contains(names: &Vec<String>, name: &str) -> (r: bool)
    ensures
        r == names_view(names@).contains(name@),
{
    let n = names.len();
    for i in 0..n
        invariant
            n == names@.len(),
            forall|j: int| 0 <= j < i ==> #[trigger] names@[j]@ != name@,
    {
        if str_eq(names[i].as_str(), name) {
            assert(names_view(names@)[i as int] == name@);
            return true;
        }
    }
    assert forall|j: int| 0 <= j < names_view(names@).len() implies #[trigger] names_view(
        names@,
    )[j] != name@ by {
        assert(names_view(names@)[j] == names@[j]@);
    }
    false
}

/// Whether some name in `names` contains `name` or is contained in it.
fn list_overlaps(names: &Vec<String>, name: &str) -> (r: bool)
    ensures
        r == overlaps_any(name@, names_view(names@)),
{
    let n = names.len();
    for i in 0..n
        invariant
            n == names@.len(),
            forall|j: int|
                0 <= j < i ==> !occurs_in(name@, #[trigger] names_view(names@)[j]) && !occurs_in(
                    names_view(names@)[j],
                    name@,
                ),
    {
        let d = names[i].as_str();
        let hit = str_contains(d, name) || str_contains(name, d);
        assert(names_view(names@)[i as int] == names@[i as int]@);
        if hit {
            return true;
        }
    }
    false
}

/// Whether a lowercase folder name belongs to installed software (see
/// [`is_installed`]).
pub fn is_installed_name(
    name_lower: &str,
    program_dirs: &Vec<String>,
    installed_apps: &Vec<String>,
) -> (r: bool)
    ensures
        r == is_installed(name_lower@, names_view(program_dirs@), names_view(installed_apps@)),
{
    list_contains(program_dirs, name_lower) || list_contains(installed_apps, name_lower)
        || list_overlaps(program_dirs, name_lower) || list_overlaps(installed_apps, name_lower)
}

/// Whole days in an elapsed time in seconds; a time that is not known (a
/// folder modified in the future, or without a modification time) counts
/// as 0 days.
pub fn age_in_days(elapsed_secs: Option<u64>) -> (r: u64)
    ensures
        r == match elapsed_secs {
            Some(s) => s / SECONDS_PER_DAY,
            None => 0,
        },
        r == match elapsed_secs {
            Some(s) => s / 86400,
            None => 0,
        },
{
    match elapsed_secs {
        Some(s) => s / SECONDS_PER_DAY,
        None => 0,
    }
}

/// Whether a folder under `AppData` is reported as a leftover (see
/// [`spec_is_leftover`]); the name is lowercased before it is compared.
pub fn is_appdata_leftover(
    name: &str,
    is_dir: bool,
    age_days: u64,
    program_dirs: &Vec<String>,
    installed_apps: &Vec<String>,
) -> (r: bool)
    ensures
        r == spec_is_leftover(
            name@,
            is_dir,
            age_days,
            names_view(program_dirs@),
            names_view(installed_apps@),
        ),
{
    let lower = to_lowercase(name);
    if is_excluded_appdata_dir(lower.as_str()) {
        return false;
    }
    if !is_dir {
        return false;
    }
    if is_installed_name(lower.as_str(), program_dirs, installed_apps) {
        return false;
    }
    age_days > LEFTOVER_MIN_AGE_DAYS
}

/// A folder is a leftover exactly when its lowercased name is not excluded,
/// it is a directory older than 15 days, and no Program Files folder name
/// and no installed application name equals it, contains it or is
/// contained in it.
pub proof fn lemma_leftover_iff(
    name: Seq<char>,
    is_dir: bool,
    age_days: u64,
    program_dirs: Seq<Seq<char>>,
    installed_apps: Seq<Seq<char>>,
)
    ensures
        spec_is_leftover(name, is_dir, age_days, program_dirs, installed_apps) <==> ({
            let lower = spec_to_lowercase(name);
            &&& !is_excluded(lower)
            &&& is_dir
            &&& age_days > 15
            &&& forall|i: int|
                0 <= i < program_dirs.len() ==> #[trigger] program_dirs[i] != lower && !occurs_in(
                    lower,
                    program_dirs[i],
                ) && !occurs_in(program_dirs[i], lower)
            &&& forall|i: int|
                0 <= i < installed_apps.len() ==> #[trigger] installed_apps[i] != lower
                    && !occurs_in(lower, installed_apps[i]) && !occurs_in(installed_apps[i], lower)
        }),
{
    let lower = spec_to_lowercase(name);
    lemma_installed_is_overlap(lower, program_dirs, installed_apps);
    assert(lower.subrange(0, 0int + lower.len()) =~= lower);
    if !is_installed(lower, program_dirs, installed_apps) {
        assert forall|i: int| 0 <= i < installed_apps.len() implies #[trigger] installed_apps[i]
            != lower by {
            if installed_apps[i] == lower {
                assert(installed_apps.contains(lower));
            }
        }
        assert forall|i: int| 0 <= i < program_dirs.len() implies #[trigger] program_dirs[i]
            != lower by {
            if program_dirs[i] == lower {
                assert(program_dirs.contains(lower));
            }
        }
    }
}

/// Membership in the lists adds nothing to the overlap test: a folder
/// belongs to installed software exactly when some program folder or
/// installed application name contains its name or is contained in it.
pub proof fn lemma_installed_is_overlap(
    name: Seq<char>,
    program_dirs: Seq<Seq<char>>,
    installed_apps: Seq<Seq<char>>,
)
    ensures
        is_installed(name, program_dirs, installed_apps) == (overlaps_any(name, program_dirs)
            || overlaps_any(name, installed_apps)),
{
    assert(name.subrange(0, name.len() as int) =~= name);
    if program_dirs.contains(name) {
        let i = choose|i: int| 0 <= i < program_dirs.len() && program_dirs[i] == name;
        assert(program_dirs[i].subrange(0int, 0int + name.len()) == name);
        assert(occurs_in(name, program_dirs[i]));
    }
    if installed_apps.contains(name) {
        let i = choose|i: int| 0 <= i < installed_apps.len() && installed_apps[i] == name;
        assert(installed_apps[i].subrange(0int, 0int + name.len()) == name);
        assert(occurs_in(name, installed_apps[i]));
    }
}

} // verus!
