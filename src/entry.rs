//! Directory entries as the filesystem reports them, their classification,
//! and the listing of one directory: sorted by name, then filtered.
use vstd::prelude::*;
use vstd::multiset::Multiset;
use crate::order::{name_le, name_precedes, lemma_name_le_total, lemma_name_le_transitive};
use crate::pattern::{ExclusionPattern, PatternModel, model_excludes, models};
use crate::text::{begins_with, join, join_path, split, split_on, starts_with_char};

verus! {

/// Settings of a walk, fixed for its whole run.
#[derive(Clone, Copy, Debug, PartialEq, Eq, Structural)]
pub struct Config {
    /// How many directory levels below the root are listed; `None` for no
    /// limit.
    pub max_depth: Option<usize>,
    /// Whether entries whose name begins with `.` are listed.
    pub show_hidden: bool,
}

/// What the filesystem reports of an entry, read without following links.
pub struct EntryMeta {
    /// The entry is a symbolic link.
    pub is_symlink: bool,
    /// The entry's path names a directory.
    pub is_dir: bool,
    /// The POSIX permission bits.
    pub mode: u32,
    /// The link's target, where it is a link whose target could be read.
    pub link_target: Option<String>,
}

/// One entry of a directory listing.
pub struct RawEntry {
    /// The entry's base name.
    pub name: String,
    /// Its metadata; `None` where it could not be read.
    pub meta: Option<EntryMeta>,
}

/// Presentation hint of a regular file, chosen by its extension.
#[derive(Clone, Copy, Debug, PartialEq, Eq, Structural)]
pub enum Tint {
    /// `svg`, `png`, `jpg`.
    Magenta,
    /// `pdf`, `zip`, `tar`.
    Red,
    /// `yaml`, `yml`.
    Yellow,
    /// Any other file.
    Plain,
}

/// The category of a listed entry.
pub enum EntryKind {
    /// A symbolic link, with the text shown for its target.
    Symlink(String),
    /// A directory.
    Directory,
    /// A regular file with some execute bit set.
    Executable,
    /// Any other file, with its presentation hint.
    Regular(Tint),
}

/// The text shown for a link whose target cannot be read.
pub open spec fn unreadable_target() -> Seq<char> {
    seq!['u', 'n', 'r', 'e', 'a', 'd', 'a', 'b', 'l', 'e']
}

/// The text after the last `.` of `name`, or the whole name if it has none.
pub open spec fn extension(name: Seq<char>) -> Seq<char> {
    split_on(name, '.').last()
}

/// The presentation hint for a file named `name`.
pub open spec fn tint_for(name: Seq<char>) -> Tint {
    let e = extension(name);
    if e == seq!['s', 'v', 'g'] || e == seq!['p', 'n', 'g'] || e == seq!['j', 'p', 'g'] {
        Tint::Magenta
    } else if e == seq!['p', 'd', 'f'] || e == seq!['z', 'i', 'p'] || e == seq!['t', 'a', 'r'] {
        Tint::Red
    } else if e == seq!['y', 'a', 'm', 'l'] || e == seq!['y', 'm', 'l'] {
        Tint::Yellow
    } else {
        Tint::Plain
    }
}

/// Whether some execute bit is set in `mode`.
pub open spec fn executable_mode(mode: u32) -> bool {
    mode & 0o111u32 != 0
}

/// Whether `k` is the kind that an entry named `name` with metadata `m` is
/// classified as: a link first (whatever it points to), then a directory,
/// then an executable, else a regular file.
pub open spec fn is_kind_of(k: EntryKind, name: Seq<char>, m: EntryMeta) -> bool {
    if m.is_symlink {
        k matches EntryKind::Symlink(t) && t@ == match m.link_target {
            Some(s) => s@,
            None => unreadable_target(),
        }
    } else if m.is_dir {
        k is Directory
    } else if executable_mode(m.mode) {
        k is Executable
    } else {
        k == EntryKind::Regular(tint_for(name))
    }
}

/// Whether two texts are the same.
fn same_text(a: &str, b: &str) -> (r: bool)
    ensures
        r == (a@ == b@),
{
    let n = a.unicode_len();
    if n != b.unicode_len() {
        return false;
    }
    let mut i: usize = 0;
    while i < n
        invariant
            n == a@.len(),
            n == b@.len(),
            i <= n,
            forall|k: int| 0 <= k < i ==> a@[k] == b@[k],
        decreases n - i,
    {
        if a.get_char(i) != b.get_char(i) {
            return false;
        }
        i = i + 1;
    }
    assert(a@ =~= b@);
    true
}

/// The presentation hint for a file named `name`.
pub fn tint_of(name: &str) -> (r: Tint)
    ensures
        r == tint_for(name@),
{
    let pieces = split(name, '.');
    proof {
        crate::text::lemma_split_nonempty(name@, '.');
        reveal_strlit("svg");
        reveal_strlit("png");
        reveal_strlit("jpg");
        reveal_strlit("pdf");
        reveal_strlit("zip");
        reveal_strlit("tar");
        reveal_strlit("yaml");
        reveal_strlit("yml");
    }
    let e = pieces[pieces.len() - 1].as_str();
    assert(e@ == extension(name@));
    assert("svg"@ =~= seq!['s', 'v', 'g']);
    assert("png"@ =~= seq!['p', 'n', 'g']);
    assert("jpg"@ =~= seq!['j', 'p', 'g']);
    assert("pdf"@ =~= seq!['p', 'd', 'f']);
    assert("zip"@ =~= seq!['z', 'i', 'p']);
    assert("tar"@ =~= seq!['t', 'a', 'r']);
    assert("yaml"@ =~= seq!['y', 'a', 'm', 'l']);
    assert("yml"@ =~= seq!['y', 'm', 'l']);
    if same_text(e, "svg") || same_text(e, "png") || same_text(e, "jpg") {
        Tint::Magenta
    } else if same_text(e, "pdf") || same_text(e, "zip") || same_text(e, "tar") {
        Tint::Red
    } else if same_text(e, "yaml") || same_text(e, "yml") {
        Tint::Yellow
    } else {
        Tint::Plain
    }
}

/// Classifies the entry named `name` from its metadata `m`.
pub fn classify(name: &str, m: &EntryMeta) -> (r: EntryKind)
    ensures
        is_kind_of(r, name@, *m),
{
    if m.is_symlink {
        match &m.link_target {
            Some(t) => EntryKind::Symlink(t.clone()),
            None => {
                let t = "unreadable".to_string();
                proof {
                    reveal_strlit("unreadable");
                }
                assert(t@ =~= unreadable_target());
                EntryKind::Symlink(t)
            },
        }
    } else if m.is_dir {
        EntryKind::Directory
    } else if m.mode & 0o111u32 != 0 {
        EntryKind::Executable
    } else {
        EntryKind::Regular(tint_of(name))
    }
}

/// Whether the entry named `name` in the directory `dir` is left out of the
/// listing: a hidden name while hidden entries are not shown, or a name or
/// path that some pattern matches.
pub open spec fn entry_excluded(
    config: Config,
    pats: Seq<PatternModel>,
    dir: Seq<char>,
    name: Seq<char>,
) -> bool {
    (!config.show_hidden && begins_with(name, '.')) || exists|k: int|
        0 <= k < pats.len() && #[trigger] model_excludes(pats[k], join_path(dir, name), name)
}

/// The entries of `s` that are not excluded, in the order of `s`.
pub open spec fn visible(
    config: Config,
    pats: Seq<PatternModel>,
    dir: Seq<char>,
    s: Seq<RawEntry>,
) -> Seq<RawEntry>
    decreases s.len(),
{
    if s.len() == 0 {
        seq![]
    } else {
        let rest = visible(config, pats, dir, s.drop_last());
        if entry_excluded(config, pats, dir, s.last().name@) {
            rest
        } else {
            rest.push(s.last())
        }
    }
}

/// Whether the entries of `s` are in listing order.
pub open spec fn sorted_by_name(s: Seq<RawEntry>) -> bool {
    forall|i: int, j: int| 0 <= i < j < s.len() ==> name_le(s[i].name@, s[j].name@)
}

/// Whether the entry named `name` in the directory `dir` is left out of the
/// listing.
pub fn is_excluded(config: &Config, patterns: &Vec<ExclusionPattern>, dir: &str, name: &str) -> (r:
    bool)
    ensures
        r == entry_excluded(*config, models(patterns@), dir@, name@),
{
    if !config.show_hidden && starts_with_char(name, '.') {
        return true;
    }
    let full = join(dir, name);
    let mut k: usize = 0;
    while k < patterns.len()
        invariant
            k <= patterns@.len(),
            full@ == join_path(dir@, name@),
            config.show_hidden || !begins_with(name@, '.'),
            forall|j: int|
                0 <= j < k ==> !model_excludes(
                    #[trigger] models(patterns@)[j],
                    join_path(dir@, name@),
                    name@,
                ),
        decreases patterns@.len() - k,
    {
        if patterns[k].matches(full.as_str(), name) {
            assert(model_excludes(models(patterns@)[k as int], join_path(dir@, name@), name@));
            return true;
        }
        k = k + 1;
    }
    false
}

/// The listing of the directory `dir` from its raw entries: the entries that
/// are not excluded, sorted by name.
pub fn listing(
    dir: &str,
    entries: Vec<RawEntry>,
    config: &Config,
    patterns: &Vec<ExclusionPattern>,
) -> (r: Vec<RawEntry>)
    ensures
        sorted_by_name(r@),
        r@.to_multiset() == visible(*config, models(patterns@), dir@, entries@).to_multiset(),
{
    broadcast use vstd::seq_lib::to_multiset_build, vstd::seq_lib::to_multiset_insert, vstd::seq_lib::to_multiset_len, vstd::multiset::group_multiset_axioms, vstd::multiset::lemma_multiset_empty_len;

    let ghost pats = models(patterns@);
    let ghost orig = entries@;
    let mut entries = entries;
    let mut out: Vec<RawEntry> = Vec::new();
    assert(out@.to_multiset().len() == 0);
    assert(out@.to_multiset() =~= Multiset::empty());
    while entries.len() > 0
        invariant
            pats == models(patterns@),
            sorted_by_name(out@),
            out@.to_multiset().add(visible(*config, pats, dir@, entries@).to_multiset())
                == visible(*config, pats, dir@, orig).to_multiset(),
        decreases entries@.len(),
    {
        let ghost before = entries@;
        let e = entries.pop().unwrap();
        assert(before.drop_last() == entries@);
        assert(before.last() == e);
        let ghost vis_new = visible(*config, pats, dir@, entries@);
        let ghost out_old = out@;
        if !is_excluded(config, patterns, dir, e.name.as_str()) {
            assert(visible(*config, pats, dir@, before) == vis_new.push(e));
            let mut j: usize = 0;
            while j < out.len() && !name_precedes(e.name.as_str(), out[j].name.as_str())
                invariant
                    j <= out@.len(),
                    forall|k: int| 0 <= k < j ==> !name_le(e.name@, #[trigger] out@[k].name@),
                decreases out@.len() - j,
            {
                j = j + 1;
            }
            let ghost prev = out@;
            let ghost ge = e;
            assert(j < prev.len() ==> name_le(ge.name@, prev[j as int].name@));
            assert(prev == out_old);
            out.insert(j, e);
            assert forall|a: int, b: int| 0 <= a < b < out@.len() implies name_le(
                out@[a].name@,
                out@[b].name@,
            ) by {
                if a < j && b == j {
                    lemma_name_le_total(e.name@, prev[a].name@);
                } else if a < j && b > j {
                    lemma_name_le_total(e.name@, prev[a].name@);
                    if (j as int) < prev.len() {
                        lemma_name_le_transitive(prev[a].name@, e.name@, prev[j as int].name@);
                    }
                } else if a == j && b > j + 1 {
                    lemma_name_le_transitive(e.name@, prev[j as int].name@, prev[b - 1].name@);
                }
            }
            assert(out@ == out_old.insert(j as int, ge));
            proof {
                vstd::seq_lib::to_multiset_insert(out_old, j as int, ge);
                vstd::seq_lib::to_multiset_build(vis_new, ge);
            }
            assert(out@.to_multiset().add(vis_new.to_multiset()) =~= out_old.to_multiset().add(
                vis_new.push(ge).to_multiset(),
            ));
        } else {
            assert(visible(*config, pats, dir@, before) == vis_new);
        }
    }
    assert(out@.to_multiset().add(Multiset::empty()) =~= out@.to_multiset());
    out
}

/// A hidden entry is left out whenever hidden entries are not shown,
/// whatever the patterns.
pub proof fn lemma_hidden_excluded(
    config: Config,
    pats: Seq<PatternModel>,
    dir: Seq<char>,
    name: Seq<char>,
)
    requires
        !config.show_hidden,
        begins_with(name, '.'),
    ensures
        entry_excluded(config, pats, dir, name),
{
}

/// When hidden entries are shown, a hidden name is left out only where a
/// pattern matches it.
pub proof fn lemma_hidden_shown(config: Config, pats: Seq<PatternModel>, dir: Seq<char>, name: Seq<char>)
    requires
        config.show_hidden,
    ensures
        entry_excluded(config, pats, dir, name) <==> exists|k: int|
            0 <= k < pats.len() && #[trigger] model_excludes(pats[k], join_path(dir, name), name),
{
}

/// A name-anchored pattern gives the same verdict on an entry's name in any
/// directory, at any depth.
pub proof fn lemma_name_anchored_any_depth(
    m: PatternModel,
    dir1: Seq<char>,
    dir2: Seq<char>,
    name: Seq<char>,
)
    requires
        !m.0,
    ensures
        model_excludes(m, join_path(dir1, name), name) == model_excludes(
            m,
            join_path(dir2, name),
            name,
        ),
{
}

/// Whether no two entries of `s` share a name, as in any directory.
pub open spec fn distinct_names(s: Seq<RawEntry>) -> bool {
    forall|i: int, j: int| 0 <= i < j < s.len() ==> s[i].name@ != s[j].name@
}

/// The listing order is total: two orderings by name of the same entries,
/// no two of which share a name, are the same sequence.
pub proof fn lemma_sorted_unique(a: Seq<RawEntry>, b: Seq<RawEntry>)
    requires
        sorted_by_name(a),
        sorted_by_name(b),
        distinct_names(a),
        distinct_names(b),
        a.to_multiset() == b.to_multiset(),
    ensures
        a == b,
    decreases a.len(),
{
    vstd::seq_lib::to_multiset_len(a);
    vstd::seq_lib::to_multiset_len(b);
    if a.len() == 0 {
        assert(b.len() == 0);
        assert(a =~= b);
    } else {
        assert(b.len() > 0);
        assert(a.contains(a[0]));
        vstd::seq_lib::to_multiset_contains(a, a[0]);
        vstd::seq_lib::to_multiset_contains(b, a[0]);
        vstd::seq_lib::to_multiset_contains(a, b[0]);
        vstd::seq_lib::to_multiset_contains(b, b[0]);
        assert(b.contains(a[0]));
        let kb = choose|k: int| 0 <= k < b.len() && b[k] == a[0];
        assert(b.contains(b[0]));
        assert(a.contains(b[0]));
        let ka = choose|k: int| 0 <= k < a.len() && a[k] == b[0];
        if a[0] != b[0] {
            assert(name_le(b[0].name@, b[kb].name@));
            assert(name_le(a[0].name@, a[ka].name@));
            crate::order::lemma_name_le_antisymmetric(a[0].name@, b[0].name@);
            assert(a[0].name@ == a[ka].name@);
        }
        assert(a[0] == b[0]);
        vstd::seq_lib::to_multiset_remove(a, 0);
        vstd::seq_lib::to_multiset_remove(b, 0);
        assert(a.remove(0) =~= a.drop_first());
        assert(b.remove(0) =~= b.drop_first());
        lemma_sorted_unique(a.drop_first(), b.drop_first());
        assert(a =~= seq![a[0]] + a.drop_first());
        assert(b =~= seq![b[0]] + b.drop_first());
    }
}

} // verus!
