//! Directory listings: large entries, what a folder's contents reveal about
//! the tools that made it, and obsolete downloads.
use vstd::prelude::*;
use crate::sizes::{SizeKey, is_sorted_by_size, lemma_sort_by_size, sort_by_size, sort_by_size_desc};
use crate::text::{ascii_lower_char, lemma_lowercase_fixed, spec_to_lowercase, str_eq, to_lowercase};
use vstd::utf8::is_ascii_chars;

verus! {

/// Bytes in one mebibyte.
pub const BYTES_PER_MB: u64 = 1048576;

/// The smallest size reported when the caller names none, in mebibytes.
pub const DEFAULT_MIN_SIZE_MB: u64 = 100;

/// Downloads older than this many days may be obsolete.
pub const DOWNLOAD_MIN_AGE_DAYS: u64 = 30;

/// Number of extensions of obsolete downloads.
pub const OBSOLETE_EXTENSION_COUNT: usize = 11;

/// A large file or folder found directly in a scanned folder.
#[derive(Clone, Debug)]
pub struct DirectoryHotspot {
    /// The entry's name.
    pub name: String,
    /// The entry's full path.
    pub path: String,
    /// Its size in bytes (a folder's: the bytes of all files below it).
    pub size_bytes: u64,
}

impl SizeKey for DirectoryHotspot {
    open spec fn size_key(&self) -> u64 {
        self.size_bytes
    }

    fn size(&self) -> (r: u64) {
        self.size_bytes
    }
}

/// An entry of an inspected folder.
#[derive(Clone, Debug)]
pub struct FileDetail {
    /// The entry's name.
    pub name: String,
    /// Its size in bytes.
    pub size_bytes: u64,
    /// It is a folder.
    pub is_dir: bool,
    /// When it was last modified, as shown to the user.
    pub last_modified: String,
}

impl SizeKey for FileDetail {
    open spec fn size_key(&self) -> u64 {
        self.size_bytes
    }

    fn size(&self) -> (r: u64) {
        self.size_bytes
    }
}

/// A downloaded installer or archive that is old enough to remove.
#[derive(Clone, Debug)]
pub struct DownloadCandidate {
    /// The file's name.
    pub name: String,
    /// The file's full path.
    pub path: String,
    /// Its size in bytes.
    pub size_bytes: u64,
    /// When it was last modified, as shown to the user.
    pub last_modified: String,
    /// Whole days since it was last modified.
    pub age_days: u64,
}

impl SizeKey for DownloadCandidate {
    open spec fn size_key(&self) -> u64 {
        self.size_bytes
    }

    fn size(&self) -> (r: u64) {
        self.size_bytes
    }
}

/// The threshold in bytes for a size in mebibytes (100 when none is given).
pub open spec fn spec_min_bytes(min_size_mb: Option<u64>) -> int {
    (match min_size_mb {
        Some(m) => m,
        None => DEFAULT_MIN_SIZE_MB,
    }) * BYTES_PER_MB
}

/// The threshold in bytes from which an entry is reported.
pub fn min_hotspot_bytes(min_size_mb: Option<u64>) -> (r: u64)
    requires
        spec_min_bytes(min_size_mb) <= u64::MAX,
    ensures
        r == spec_min_bytes(min_size_mb),
        r == match min_size_mb {
            Some(m) => m * 1048576,
            None => 104857600,
        },
{
    let mb = match min_size_mb {
        Some(m) => m,
        None => DEFAULT_MIN_SIZE_MB,
    };
    mb * BYTES_PER_MB
}

/// The entries of at least `min_bytes`, largest first (entries of equal size
/// in the order in which they were listed).
pub open spec fn spec_hotspots(items: Seq<DirectoryHotspot>, min_bytes: u64) -> Seq<
    DirectoryHotspot,
> {
    sort_by_size(items.filter(|h: DirectoryHotspot| h.size_bytes >= min_bytes))
}

/// Keeps the entries of at least `min_bytes` and orders them largest first.
pub fn select_hotspots(items: Vec<DirectoryHotspot>, min_bytes: u64) -> (r: Vec<DirectoryHotspot>)
    ensures
        r@ == spec_hotspots(items@, min_bytes),
{
    let ghost orig = items@;
    let ghost pred = |h: DirectoryHotspot| h.size_bytes >= min_bytes;
    let mut rest = items;
    let mut kept: Vec<DirectoryHotspot> = Vec::new();
    let n = rest.len();
    let mut i: usize = 0;
    proof {
        reveal(Seq::filter);
        assert(orig.take(0) =~= Seq::<DirectoryHotspot>::empty());
    }
    while i < n
        invariant
            n == orig.len(),
            i <= n,
            pred == (|h: DirectoryHotspot| h.size_bytes >= min_bytes),
            rest@ == orig.skip(i as int),
            kept@ == orig.take(i as int).filter(pred),
        decreases n - i,
    {
        let h = rest.remove(0);
        proof {
            reveal(Seq::filter);
            assert(orig.take(i + 1).drop_last() =~= orig.take(i as int));
            assert(orig.take(i + 1).last() == h);
            assert(rest@ =~= orig.skip(i + 1));
        }
        if h.size_bytes >= min_bytes {
            kept.push(h);
        }
        i = i + 1;
    }
    assert(orig.take(n as int) =~= orig);
    sort_by_size_desc(kept)
}

/// The listing holds exactly the entries of at least `min_bytes` (as a
/// multiset), each at least that large, largest first.
pub proof fn lemma_hotspots(items: Seq<DirectoryHotspot>, min_bytes: u64)
    ensures
        is_sorted_by_size(spec_hotspots(items, min_bytes)),
        spec_hotspots(items, min_bytes).to_multiset() == items.filter(
            |h: DirectoryHotspot| h.size_bytes >= min_bytes,
        ).to_multiset(),
        forall|i: int|
            0 <= i < spec_hotspots(items, min_bytes).len() ==> #[trigger] spec_hotspots(
                items,
                min_bytes,
            )[i].size_bytes >= min_bytes,
{
    broadcast use vstd::seq_lib::group_seq_properties;

    let pred = |h: DirectoryHotspot| h.size_bytes >= min_bytes;
    let f = items.filter(pred);
    let r = spec_hotspots(items, min_bytes);
    lemma_sort_by_size(f);
    assert forall|i: int| 0 <= i < r.len() implies #[trigger] r[i].size_bytes >= min_bytes by {
        r.to_multiset_ensures();
        f.to_multiset_ensures();
        assert(r.contains(r[i]));
        assert(f.to_multiset().count(r[i]) > 0);
        assert(f.contains(r[i]));
        let k = choose|k: int| 0 <= k < f.len() && f[k] == r[i];
        items.lemma_filter_pred(pred, k);
    }
}

/// The build tools whose traces a folder holds.
#[derive(Clone, Copy, Debug, PartialEq, Eq)]
pub struct TechSignatures {
    /// A `node_modules` folder (Node.js).
    pub node_modules: bool,
    /// A `target` folder (Rust Cargo).
    pub cargo_target: bool,
    /// A `.git` folder.
    pub git: bool,
    /// A `.gradle` folder.
    pub gradle: bool,
    /// A `bazel-bin` or `bazel-out` folder.
    pub bazel: bool,
}

/// Some folder among `entries` has the name `name`.
pub open spec fn has_dir_named(entries: Seq<FileDetail>, name: Seq<char>) -> bool {
    exists|i: int| 0 <= i < entries.len() && #[trigger] entries[i].is_dir && entries[i].name@ == name
}

/// The signatures that a folder's entries show.
pub open spec fn spec_signatures(entries: Seq<FileDetail>) -> TechSignatures {
    TechSignatures {
        node_modules: has_dir_named(entries, "node_modules"@),
        cargo_target: has_dir_named(entries, "target"@),
        git: has_dir_named(entries, ".git"@),
        gradle: has_dir_named(entries, ".gradle"@),
        bazel: has_dir_named(entries, "bazel-bin"@) || has_dir_named(entries, "bazel-out"@),
    }
}

/// The build-tool signatures among the folders of an inspected folder.
pub fn detect_signatures(entries: &Vec<FileDetail>) -> (r: TechSignatures)
    ensures
        r == spec_signatures(entries@),
        r.node_modules == (exists|i: int|
            0 <= i < entries@.len() && #[trigger] entries@[i].is_dir && entries@[i].name@ == "node_modules"@),
        r.cargo_target == (exists|i: int|
            0 <= i < entries@.len() && #[trigger] entries@[i].is_dir && entries@[i].name@ == "target"@),
        r.git == (exists|i: int|
            0 <= i < entries@.len() && #[trigger] entries@[i].is_dir && entries@[i].name@ == ".git"@),
        r.gradle == (exists|i: int|
            0 <= i < entries@.len() && #[trigger] entries@[i].is_dir && entries@[i].name@ == ".gradle"@),
        r.bazel == (exists|i: int|
            0 <= i < entries@.len() && #[trigger] entries@[i].is_dir && (entries@[i].name@
                == "bazel-bin"@ || entries@[i].name@ == "bazel-out"@)),
{
    let mut sig = TechSignatures {
        node_modules: false,
        cargo_target: false,
        git: false,
        gradle: false,
        bazel: false,
    };
    let n = entries.len();
    for i in 0..n
        invariant
            n == entries@.len(),
            sig == spec_signatures(entries@.take(i as int)),
    {
        let e = &entries[i];
        let ghost prefix = entries@.take(i as int);
        let ghost next = entries@.take(i + 1);
        proof {
            assert forall|name: Seq<char>| #[trigger]
                has_dir_named(next, name) == (has_dir_named(prefix, name) || (e.is_dir && e.name@
                    == name)) by {
                if has_dir_named(next, name) {
                    let k = choose|k: int|
                        0 <= k < next.len() && #[trigger] next[k].is_dir && next[k].name@ == name;
                    if k < i {
                        assert(prefix[k] == next[k]);
                    }
                }
                if has_dir_named(prefix, name) {
                    let k = choose|k: int|
                        0 <= k < prefix.len() && #[trigger] prefix[k].is_dir && prefix[k].name@
                            == name;
                    assert(next[k] == prefix[k]);
                }
                if e.is_dir && e.name@ == name {
                    assert(next[i as int] == *e);
                }
            }
        }
        if e.is_dir {
            let name = e.name.as_str();
            if str_eq(name, "node_modules") {
                sig.node_modules = true;
            }
            if str_eq(name, "target") {
                sig.cargo_target = true;
            }
            if str_eq(name, ".git") {
                sig.git = true;
            }
            if str_eq(name, ".gradle") {
                sig.gradle = true;
            }
            if str_eq(name, "bazel-bin") || str_eq(name, "bazel-out") {
                sig.bazel = true;
            }
        }
    }
    assert(entries@.take(n as int) =~= entries@);
    proof {
        let e = entries@;
        if exists|i: int| 0 <= i < e.len() && #[trigger] e[i].is_dir && (e[i].name@ == "bazel-bin"@
            || e[i].name@ == "bazel-out"@) {
            let i = choose|i: int| 0 <= i < e.len() && #[trigger] e[i].is_dir && (e[i].name@
                == "bazel-bin"@ || e[i].name@ == "bazel-out"@);
            if e[i].name@ == "bazel-bin"@ {
                assert(has_dir_named(e, "bazel-bin"@));
            } else {
                assert(has_dir_named(e, "bazel-out"@));
            }
        }
    }
    sig
}

/// The labels of the signatures found, in a fixed order.
pub open spec fn signature_labels(sig: TechSignatures) -> Seq<Seq<char>> {
    (if sig.node_modules {
        seq!["Node.js (node_modules)"@]
    } else {
        seq![]
    }) + (if sig.cargo_target {
        seq!["Rust Cargo (target)"@]
    } else {
        seq![]
    }) + (if sig.git {
        seq!["Git Repository (.git)"@]
    } else {
        seq![]
    }) + (if sig.gradle {
        seq!["Gradle (.gradle)"@]
    } else {
        seq![]
    }) + (if sig.bazel {
        seq!["Bazel Build (bazel-*)"@]
    } else {
        seq![]
    })
}

/// The labels joined with `", "`.
pub open spec fn join_labels(labels: Seq<Seq<char>>) -> Seq<char>
    decreases labels.len(),
{
    if labels.len() == 0 {
        seq![]
    } else if labels.len() == 1 {
        labels[0]
    } else {
        join_labels(labels.drop_last()) + ", "@ + labels.last()
    }
}

/// The one-line summary of an inspection: a fixed sentence when no
/// signature was found, else a sentence followed by the labels found.
pub open spec fn spec_summary(sig: TechSignatures) -> Seq<char> {
    let labels = signature_labels(sig);
    if labels.len() == 0 {
        "Dossier standard ou inconnu"@
    } else {
        "Dossier contenant des signatures de technologies de d\u{e9}veloppement : "@ + join_labels(
            labels,
        )
    }
}

/// Appends a label to a `", "`-joined list.
fn push_label(out: &mut String, count: &mut usize, label: &str, ghost_labels: Ghost<Seq<Seq<char>>>)
    requires
        old(out)@ == join_labels(ghost_labels@),
        *old(count) == ghost_labels@.len(),
        *old(count) < usize::MAX,
    ensures
        final(out)@ == join_labels(ghost_labels@.push(label@)),
        *final(count) == *old(count) + 1,
{
    let ghost labels = ghost_labels@;
    assert(labels.push(label@).drop_last() =~= labels);
    if *count > 0 {
        out.append(", ");
    } else {
        assert(labels.push(label@) =~= seq![label@]);
        assert(old(out)@ =~= Seq::<char>::empty());
    }
    out.append(label);
    *count = *count + 1;
}

/// The one-line summary of an inspection (see [`spec_summary`]).
pub fn signature_summary(sig: &TechSignatures) -> (r: String)
    ensures
        r@ == spec_summary(*sig),
        !sig.node_modules && !sig.cargo_target && !sig.git && !sig.gradle && !sig.bazel ==> r@
            == "Dossier standard ou inconnu"@,
        sig.node_modules && !sig.cargo_target && !sig.git && !sig.gradle && !sig.bazel ==> r@ == "Dossier contenant des signatures de technologies de d\u{e9}veloppement : "@
            + "Node.js (node_modules)"@,
        !sig.node_modules && sig.cargo_target && !sig.git && !sig.gradle && !sig.bazel ==> r@ == "Dossier contenant des signatures de technologies de d\u{e9}veloppement : "@
            + "Rust Cargo (target)"@,
        !sig.node_modules && !sig.cargo_target && sig.git && !sig.gradle && !sig.bazel ==> r@ == "Dossier contenant des signatures de technologies de d\u{e9}veloppement : "@
            + "Git Repository (.git)"@,
        !sig.node_modules && !sig.cargo_target && !sig.git && sig.gradle && !sig.bazel ==> r@ == "Dossier contenant des signatures de technologies de d\u{e9}veloppement : "@
            + "Gradle (.gradle)"@,
        !sig.node_modules && !sig.cargo_target && !sig.git && !sig.gradle && sig.bazel ==> r@ == "Dossier contenant des signatures de technologies de d\u{e9}veloppement : "@
            + "Bazel Build (bazel-*)"@,
{
    let mut joined = String::new();
    let mut count: usize = 0;
    let ghost mut labels: Seq<Seq<char>> = seq![];
    assert(joined@ =~= join_labels(labels));
    if sig.node_modules {
        push_label(&mut joined, &mut count, "Node.js (node_modules)", Ghost(labels));
        proof {
            labels = labels.push("Node.js (node_modules)"@);
        }
    }
    if sig.cargo_target {
        push_label(&mut joined, &mut count, "Rust Cargo (target)", Ghost(labels));
        proof {
            labels = labels.push("Rust Cargo (target)"@);
        }
    }
    if sig.git {
        push_label(&mut joined, &mut count, "Git Repository (.git)", Ghost(labels));
        proof {
            labels = labels.push("Git Repository (.git)"@);
        }
    }
    if sig.gradle {
        push_label(&mut joined, &mut count, "Gradle (.gradle)", Ghost(labels));
        proof {
            labels = labels.push("Gradle (.gradle)"@);
        }
    }
    if sig.bazel {
        push_label(&mut joined, &mut count, "Bazel Build (bazel-*)", Ghost(labels));
        proof {
            labels = labels.push("Bazel Build (bazel-*)"@);
        }
    }
    assert(labels =~= signature_labels(*sig));
    if count == 0 {
        "Dossier standard ou inconnu".to_owned()
    } else {
        let mut s = "Dossier contenant des signatures de technologies de d\u{e9}veloppement : ".to_owned();
        s.append(joined.as_str());
        s
    }
}

/// The sizes of `entries` added up.
pub open spec fn details_bytes(entries: Seq<FileDetail>) -> nat
    decreases entries.len(),
{
    if entries.len() == 0 {
        0
    } else {
        details_bytes(entries.drop_last()) + entries.last().size_bytes as nat
    }
}

/// Sizes add up over a concatenation, and a single entry adds its own size.
pub proof fn lemma_details_bytes_additive(a: Seq<FileDetail>, b: Seq<FileDetail>, e: FileDetail)
    ensures
        details_bytes(a + b) == details_bytes(a) + details_bytes(b),
        details_bytes(seq![e]) == e.size_bytes as nat,
    decreases b.len(),
{
    let s = seq![e];
    assert(s.drop_last() =~= Seq::<FileDetail>::empty());
    assert(details_bytes(s.drop_last()) == 0);
    if b.len() == 0 {
        assert(a + b =~= a);
    } else {
        lemma_details_bytes_additive(a, b.drop_last(), e);
        assert((a + b).drop_last() =~= a + b.drop_last());
        assert((a + b).last() == b.last());
    }
}

/// A prefix adds up to no more than the whole.
proof fn lemma_details_bytes_prefix(entries: Seq<FileDetail>, i: int)
    requires
        0 <= i <= entries.len(),
    ensures
        details_bytes(entries.take(i)) <= details_bytes(entries),
    decreases entries.len() - i,
{
    if i < entries.len() {
        lemma_details_bytes_prefix(entries, i + 1);
        assert(entries.take(i + 1).drop_last() =~= entries.take(i));
    } else {
        assert(entries.take(i) =~= entries);
    }
}

/// The total size of an inspected folder's entries.
pub fn total_size(entries: &Vec<FileDetail>) -> (r: u64)
    requires
        details_bytes(entries@) <= u64::MAX,
    ensures
        r == details_bytes(entries@),
{
    let mut total: u64 = 0;
    let n = entries.len();
    for i in 0..n
        invariant
            n == entries@.len(),
            details_bytes(entries@) <= u64::MAX,
            total == details_bytes(entries@.take(i as int)),
    {
        proof {
            assert(entries@.take(i + 1).drop_last() =~= entries@.take(i as int));
            lemma_details_bytes_prefix(entries@, i + 1);
        }
        total = total + entries[i].size_bytes;
    }
    assert(entries@.take(n as int) =~= entries@);
    total
}

/// The `k`-th extension (lowercase, without the dot) of an obsolete
/// download: installers and archives.
pub open spec fn obsolete_extension(k: int) -> Seq<char> {
    if k == 0 {
        "exe"@
    } else if k == 1 {
        "msi"@
    } else if k == 2 {
        "zip"@
    } else if k == 3 {
        "rar"@
    } else if k == 4 {
        "7z"@
    } else if k == 5 {
        "tar"@
    } else if k == 6 {
        "gz"@
    } else if k == 7 {
        "cab"@
    } else if k == 8 {
        "iso"@
    } else if k == 9 {
        "dmg"@
    } else {
        "pkg"@
    }
}

/// A download is obsolete: its lowercased extension is one of an installer
/// or an archive, and it is older than [`DOWNLOAD_MIN_AGE_DAYS`] days.
pub open spec fn spec_is_obsolete_download(extension: Seq<char>, age_days: u64) -> bool {
    &&& exists|k: int|
        0 <= k < OBSOLETE_EXTENSION_COUNT && spec_to_lowercase(extension)
            == #[trigger] obsolete_extension(k)
    &&& age_days > DOWNLOAD_MIN_AGE_DAYS
}

/// The `k`-th obsolete extension.
fn obsolete_extension_at(k: usize) -> (r: &'static str)
    requires
        k < OBSOLETE_EXTENSION_COUNT,
    ensures
        r@ == obsolete_extension(k as int),
{
    if k == 0 {
        "exe"
    } else if k == 1 {
        "msi"
    } else if k == 2 {
        "zip"
    } else if k == 3 {
        "rar"
    } else if k == 4 {
        "7z"
    } else if k == 5 {
        "tar"
    } else if k == 6 {
        "gz"
    } else if k == 7 {
        "cab"
    } else if k == 8 {
        "iso"
    } else if k == 9 {
        "dmg"
    } else {
        "pkg"
    }
}

/// Whether a download with this extension (empty when it has none) and age
/// is obsolete (see [`spec_is_obsolete_download`]).
pub fn is_obsolete_download(extension: &str, age_days: u64) -> (r: bool)
    ensures
        r == spec_is_obsolete_download(extension@, age_days),
        extension@ == "exe"@ || extension@ == "msi"@ || extension@ == "zip"@ || extension@ == "rar"@ || extension@ == "7z"@ || extension@ == "tar"@ || extension@ == "gz"@ || extension@ == "cab"@ || extension@ == "iso"@ || extension@ == "dmg"@ || extension@ == "pkg"@ ==> r == (age_days > 30),
        !(age_days > 30) ==> !r,
        r ==> (spec_to_lowercase(extension@) == "exe"@
            || spec_to_lowercase(extension@) == "msi"@
            || spec_to_lowercase(extension@) == "zip"@
            || spec_to_lowercase(extension@) == "rar"@
            || spec_to_lowercase(extension@) == "7z"@
            || spec_to_lowercase(extension@) == "tar"@
            || spec_to_lowercase(extension@) == "gz"@
            || spec_to_lowercase(extension@) == "cab"@
            || spec_to_lowercase(extension@) == "iso"@
            || spec_to_lowercase(extension@) == "dmg"@
            || spec_to_lowercase(extension@) == "pkg"@),
{
    let lower = to_lowercase(extension);
    proof {
        if extension@ == "exe"@ {
            reveal_strlit("exe");
            lemma_lowercase_fixed(extension@);
            assert(extension@ == obsolete_extension(0));
        }
        if extension@ == "msi"@ {
            reveal_strlit("msi");
            lemma_lowercase_fixed(extension@);
            assert(extension@ == obsolete_extension(1));
        }
        if extension@ == "zip"@ {
            reveal_strlit("zip");
            lemma_lowercase_fixed(extension@);
            assert(extension@ == obsolete_extension(2));
        }
        if extension@ == "rar"@ {
            reveal_strlit("rar");
            lemma_lowercase_fixed(extension@);
            assert(extension@ == obsolete_extension(3));
        }
        if extension@ == "7z"@ {
            reveal_strlit("7z");
            lemma_lowercase_fixed(extension@);
            assert(extension@ == obsolete_extension(4));
        }
        if extension@ == "tar"@ {
            reveal_strlit("tar");
            lemma_lowercase_fixed(extension@);
            assert(extension@ == obsolete_extension(5));
        }
        if extension@ == "gz"@ {
            reveal_strlit("gz");
            lemma_lowercase_fixed(extension@);
            assert(extension@ == obsolete_extension(6));
        }
        if extension@ == "cab"@ {
            reveal_strlit("cab");
            lemma_lowercase_fixed(extension@);
            assert(extension@ == obsolete_extension(7));
        }
        if extension@ == "iso"@ {
            reveal_strlit("iso");
            lemma_lowercase_fixed(extension@);
            assert(extension@ == obsolete_extension(8));
        }
        if extension@ == "dmg"@ {
            reveal_strlit("dmg");
            lemma_lowercase_fixed(extension@);
            assert(extension@ == obsolete_extension(9));
        }
        if extension@ == "pkg"@ {
            reveal_strlit("pkg");
            lemma_lowercase_fixed(extension@);
            assert(extension@ == obsolete_extension(10));
        }
        if spec_is_obsolete_download(extension@, age_days) {
            let k = choose|k: int|
                0 <= k < OBSOLETE_EXTENSION_COUNT && spec_to_lowercase(extension@)
                    == #[trigger] obsolete_extension(k);
            assert(spec_to_lowercase(extension@) == obsolete_extension(k));
        }
    }
    let mut k: usize = 0;
    while k < OBSOLETE_EXTENSION_COUNT
        invariant
            k <= OBSOLETE_EXTENSION_COUNT,
            lower@ == spec_to_lowercase(extension@),
            is_ascii_chars(extension@) ==> lower@ == extension@.map_values(|c: char| ascii_lower_char(c)),
            forall|j: int| 0 <= j < k ==> lower@ != #[trigger] obsolete_extension(j),
        decreases OBSOLETE_EXTENSION_COUNT - k,
    {
        if str_eq(lower.as_str(), obsolete_extension_at(k)) {
            return age_days > DOWNLOAD_MIN_AGE_DAYS;
        }
        k = k + 1;
    }
    false
}

} // verus!
