//! The walk as a state machine. The caller reads directories and prints;
//! the walker decides, one step at a time, which line comes next, how its
//! branch prefix is drawn, which directory to list next, and keeps the
//! counts.
use vstd::prelude::*;
use crate::entry::{
    Config, EntryKind, EntryMeta, RawEntry, classify, is_kind_of, listing, sorted_by_name,
    visible,
};
use crate::pattern::{ExclusionPattern, PatternModel, models};
use crate::stats::Stats;
use crate::text::{join, join_path};

verus! {

/// The indentation drawn for one ancestor level: blank below a last sibling,
/// a vertical bar below any other.
pub open spec fn segment(last: bool) -> Seq<char> {
    if last {
        seq![' ', ' ', ' ', ' ']
    } else {
        seq!['│', ' ', ' ', ' ']
    }
}

/// The connector drawn before an entry: a corner for the last sibling, a
/// branch for any other.
pub open spec fn corner(last: bool) -> Seq<char> {
    if last {
        seq!['└', '─', '─', ' ']
    } else {
        seq!['├', '─', '─', ' ']
    }
}

/// The indentation for the ancestor levels `ancestors`, outermost first.
pub open spec fn indent(ancestors: Seq<bool>) -> Seq<char>
    decreases ancestors.len(),
{
    if ancestors.len() == 0 {
        Seq::empty()
    } else {
        indent(ancestors.drop_last()) + segment(ancestors.last())
    }
}

/// The prefix of the line of an entry below the ancestor levels `ancestors`.
pub open spec fn line_prefix(ancestors: Seq<bool>, is_last: bool) -> Seq<char> {
    indent(ancestors) + corner(is_last)
}

/// Whether a directory `depth` levels below the root is listed.
pub open spec fn within_depth(config: Config, depth: int) -> bool {
    match config.max_depth {
        Some(m) => depth < m,
        None => true,
    }
}

/// The branch prefix of an entry's line. `ancestors` holds, outermost first,
/// whether each enclosing directory was the last of its siblings.
pub fn render_prefix(ancestors: &Vec<bool>, is_last: bool) -> (r: String)
    ensures
        r@ == line_prefix(ancestors@, is_last),
{
    proof {
        reveal_strlit("    ");
        reveal_strlit("│   ");
        reveal_strlit("└── ");
        reveal_strlit("├── ");
    }
    assert("    "@ =~= segment(true));
    assert("│   "@ =~= segment(false));
    assert("└── "@ =~= corner(true));
    assert("├── "@ =~= corner(false));
    let mut s = String::new();
    let mut i: usize = 0;
    assert(ancestors@.take(0) =~= Seq::<bool>::empty());
    while i < ancestors.len()
        invariant
            i <= ancestors@.len(),
            s@ == indent(ancestors@.take(i as int)),
            "    "@ == segment(true),
            "│   "@ == segment(false),
        decreases ancestors@.len() - i,
    {
        assert(ancestors@.take(i + 1).drop_last() =~= ancestors@.take(i as int));
        if ancestors[i] {
            s.append("    ");
        } else {
            s.append("│   ");
        }
        i = i + 1;
    }
    assert(ancestors@.take(ancestors@.len() as int) =~= ancestors@);
    if is_last {
        s.append("└── ");
    } else {
        s.append("├── ");
    }
    s
}

/// Whether a directory `depth` levels below the root is listed.
pub fn depth_allowed(config: &Config, depth: usize) -> (r: bool)
    ensures
        r == within_depth(*config, depth as int),
{
    match config.max_depth {
        Some(m) => depth < m,
        None => true,
    }
}

/// Whether a directory one level below `depth` is listed.
fn child_depth_allowed(config: &Config, depth: usize) -> (r: bool)
    ensures
        r == within_depth(*config, depth + 1),
{
    match config.max_depth {
        Some(m) => m > 0 && depth < m - 1,
        None => true,
    }
}

/// A copy of a sequence of flags.
fn copy_flags(v: &Vec<bool>) -> (r: Vec<bool>)
    ensures
        r@ == v@,
{
    let mut r: Vec<bool> = Vec::new();
    let mut i: usize = 0;
    while i < v.len()
        invariant
            i <= v@.len(),
            r@ == v@.take(i as int),
        decreases v@.len() - i,
    {
        r.push(v[i]);
        i = i + 1;
        assert(r@ =~= v@.take(i as int));
    }
    assert(v@.take(v@.len() as int) =~= v@);
    r
}

/// One rendered line: the branch prefix, the entry's name, and its kind.
pub struct Line {
    pub prefix: String,
    pub name: String,
    pub kind: EntryKind,
}

/// What the caller does after a step.
pub enum Action {
    /// Print this line.
    Show(Line),
    /// Nothing to print; step again.
    Skip,
    /// The walk is over.
    Done,
}

/// A directory being listed: its path, the last-sibling flags of its
/// ancestor levels, its visible entries in listing order, and the index of
/// the next entry to render.
pub struct Frame {
    pub dir: String,
    pub ancestors: Vec<bool>,
    pub entries: Vec<RawEntry>,
    pub next: usize,
    /// The directory's entries as they were read, before filtering.
    pub raw: Ghost<Seq<RawEntry>>,
}

/// Whether the frame `f` is the listing of its directory under `config` and
/// the patterns `pats`, at a depth that is listed.
pub open spec fn frame_wf(config: Config, pats: Seq<PatternModel>, f: Frame) -> bool {
    &&& f.next <= f.entries@.len()
    &&& sorted_by_name(f.entries@)
    &&& f.entries@.to_multiset() == visible(config, pats, f.dir@, f.raw@).to_multiset()
    &&& within_depth(config, f.ancestors@.len() as int)
}

/// The state of a depth-first walk.
pub struct Walker {
    config: Config,
    patterns: Vec<ExclusionPattern>,
    stack: Vec<Frame>,
    pending: Option<(String, Vec<bool>)>,
    stats: Stats,
    shown: Ghost<nat>,
}

impl Walker {
    /// The walk's settings.
    pub closed spec fn config(&self) -> Config {
        self.config
    }

    /// The walk's exclusion patterns.
    pub closed spec fn pattern_models(&self) -> Seq<PatternModel> {
        models(self.patterns@)
    }

    /// The directories being listed, outermost first.
    pub closed spec fn frames(&self) -> Seq<Frame> {
        self.stack@
    }

    /// The directory whose listing is owed next, with the last-sibling flags
    /// of its ancestor levels.
    pub closed spec fn pending(&self) -> Option<(Seq<char>, Seq<bool>)> {
        match self.pending {
            Some((d, a)) => Some((d@, a@)),
            None => None,
        }
    }

    /// The counts so far.
    pub closed spec fn counts(&self) -> Stats {
        self.stats
    }

    /// The number of lines shown so far.
    pub closed spec fn shown(&self) -> nat {
        self.shown@
    }

    /// The walker's invariant: every line shown was counted exactly once,
    /// every frame is its directory's listing, and no directory beyond the
    /// depth limit is listed or owed.
    pub open spec fn wf(&self) -> bool {
        &&& self.counts().directories + self.counts().files == self.shown()
        &&& forall|k: int|
            0 <= k < self.frames().len() ==> frame_wf(
                self.config(),
                self.pattern_models(),
                #[trigger] self.frames()[k],
            )
        &&& self.pending() matches Some((d, a)) ==> within_depth(self.config(), a.len() as int)
    }

    /// A walk of the directory `root`. Its listing is owed first, unless the
    /// depth limit is zero.
    pub fn new(root: String, config: Config, patterns: Vec<ExclusionPattern>) -> (w: Walker)
        ensures
            w.wf(),
            w.config() == config,
            w.pattern_models() == models(patterns@),
            w.frames().len() == 0,
            w.counts() == Stats::zero_value(),
            w.shown() == 0,
            w.pending() == if within_depth(config, 0) {
                Some((root@, Seq::<bool>::empty()))
            } else {
                None
            },
    {
        let pending = if depth_allowed(&config, 0) {
            Some((root, Vec::new()))
        } else {
            None
        };
        Walker {
            config,
            patterns,
            stack: Vec::new(),
            pending,
            stats: Stats::zero(),
            shown: Ghost(0),
        }
    }

    /// The path of the directory whose listing is owed, if any.
    pub fn pending_dir(&self) -> (r: Option<String>)
        ensures
            match self.pending() {
                Some((d, _)) => r matches Some(p) && p@ == d,
                None => r is None,
            },
    {
        match &self.pending {
            Some((d, _)) => Some(d.clone()),
            None => None,
        }
    }

    /// The counts so far.
    pub fn stats(&self) -> (r: Stats)
        ensures
            r == self.counts(),
    {
        self.stats
    }

    /// Hands over the listing owed: the entries of the pending directory, or
    /// `None` where it could not be read, which leaves that directory empty.
    pub fn enter(&mut self, entries: Option<Vec<RawEntry>>)
        requires
            old(self).wf(),
            old(self).pending() is Some,
        ensures
            final(self).wf(),
            final(self).pending() is None,
            final(self).config() == old(self).config(),
            final(self).pattern_models() == old(self).pattern_models(),
            final(self).counts() == old(self).counts(),
            final(self).shown() == old(self).shown(),
            match entries {
                None => final(self).frames() == old(self).frames(),
                Some(v) => {
                    let f = final(self).frames().last();
                    &&& final(self).frames().len() == old(self).frames().len() + 1
                    &&& final(self).frames().drop_last() == old(self).frames()
                    &&& old(self).pending() == Some((f.dir@, f.ancestors@))
                    &&& f.next == 0
                    &&& f.raw@ == v@
                },
            },
    {
        let ghost old_pending = self.pending();
        let ghost pats = self.pattern_models();
        let ghost frames0 = self.frames();
        assert(forall|k: int|
            0 <= k < frames0.len() ==> frame_wf(self.config(), pats, #[trigger] frames0[k]));
        let p = self.pending.take();
        assert(self.frames() == frames0);
        match p {
            Some((dir, ancestors)) => {
                match entries {
                    Some(v) => {
                        let ghost raw = v@;
                        let shown = listing(dir.as_str(), v, &self.config, &self.patterns);
                        let f = Frame { dir, ancestors, entries: shown, next: 0, raw: Ghost(raw) };
                        let ghost gf = f;
                        assert(old_pending == Some((gf.dir@, gf.ancestors@)));
                        assert(frame_wf(self.config, pats, gf));
                        let ghost old_stack = self.stack@;
                        self.stack.push(f);
                        assert(self.stack@.drop_last() == old_stack);
                        assert forall|k: int| 0 <= k < self.frames().len() implies frame_wf(
                            self.config(),
                            self.pattern_models(),
                            #[trigger] self.frames()[k],
                        ) by {
                            if k < old_stack.len() {
                                assert(self.frames()[k] == frames0[k]);
                            } else {
                                assert(self.frames()[k] == gf);
                            }
                        }
                    },
                    None => {},
                }
            },
            None => {},
        }
    }
}

impl Walker {
    /// One step of the walk. With no directory left, the walk is over. When
    /// the innermost directory has no entry left, it is closed. Otherwise its
    /// next entry is taken: one whose metadata could not be read is passed
    /// over; any other is shown, with the branch prefix for its position
    /// among the visible entries, and counted once, as a directory or as a
    /// file. A directory (never a link) within the depth limit then has its
    /// listing owed.
    pub fn next(&mut self) -> (r: Action)
        requires
            old(self).wf(),
            old(self).pending() is None,
            old(self).counts().directories + old(self).counts().files < usize::MAX,
        ensures
            final(self).wf(),
            final(self).config() == old(self).config(),
            final(self).pattern_models() == old(self).pattern_models(),
            old(self).frames().len() == 0 ==> {
                &&& r is Done
                &&& final(self).frames() == old(self).frames()
                &&& final(self).counts() == old(self).counts()
                &&& final(self).shown() == old(self).shown()
                &&& final(self).pending() is None
            },
            old(self).frames().len() > 0 ==> {
                let f = old(self).frames().last();
                let n = f.entries@.len();
                if f.next == n {
                    &&& r is Skip
                    &&& final(self).frames() == old(self).frames().drop_last()
                    &&& final(self).counts() == old(self).counts()
                    &&& final(self).shown() == old(self).shown()
                    &&& final(self).pending() is None
                } else {
                    let e = f.entries@[f.next as int];
                    let is_last = f.next == n - 1;
                    &&& final(self).frames() == old(self).frames().drop_last().push(
                        Frame { next: (f.next + 1) as usize, ..f },
                    )
                    &&& match e.meta {
                        None => {
                            &&& r is Skip
                            &&& final(self).counts() == old(self).counts()
                            &&& final(self).shown() == old(self).shown()
                            &&& final(self).pending() is None
                        },
                        Some(m) => {
                            &&& r matches Action::Show(line)
                            &&& line.prefix@ == line_prefix(f.ancestors@, is_last)
                            &&& line.name@ == e.name@
                            &&& is_kind_of(line.kind, e.name@, m)
                            &&& final(self).shown() == old(self).shown() + 1
                            &&& if line.kind is Directory {
                                &&& final(self).counts().directories
                                    == old(self).counts().directories + 1
                                &&& final(self).counts().files == old(self).counts().files
                            } else {
                                &&& final(self).counts().directories
                                    == old(self).counts().directories
                                &&& final(self).counts().files == old(self).counts().files + 1
                            }
                            &&& final(self).pending() == if line.kind is Directory
                                && within_depth(old(self).config(), f.ancestors@.len() + 1int) {
                                Some((join_path(f.dir@, e.name@), f.ancestors@.push(is_last)))
                            } else {
                                None
                            }
                        },
                    }
                }
            },
    {
        if self.stack.len() == 0 {
            return Action::Done;
        }
        let ghost pats = self.pattern_models();
        let ghost frames0 = self.frames();
        assert(forall|k: int|
            0 <= k < frames0.len() ==> frame_wf(self.config(), pats, #[trigger] frames0[k]));
        let mut f = self.stack.pop().unwrap();
        let ghost f0 = f;
        assert(frames0.last() == f0);
        assert(self.frames() == frames0.drop_last());
        let n = f.entries.len();
        if f.next == n {
            assert forall|k: int| 0 <= k < self.frames().len() implies frame_wf(
                self.config(),
                self.pattern_models(),
                #[trigger] self.frames()[k],
            ) by {
                assert(self.frames()[k] == frames0[k]);
            }
            return Action::Skip;
        }
        let i = f.next;
        let is_last = i == n - 1;
        f.next = i + 1;
        let action = match &f.entries[i].meta {
            None => Action::Skip,
            Some(m) => {
                let kind = classify(f.entries[i].name.as_str(), m);
                let prefix = render_prefix(&f.ancestors, is_last);
                let name = f.entries[i].name.clone();
                let is_dir = match kind {
                    EntryKind::Directory => true,
                    _ => false,
                };
                if is_dir {
                    self.stats.directories = self.stats.directories + 1;
                } else {
                    self.stats.files = self.stats.files + 1;
                }
                self.shown = Ghost(self.shown@ + 1);
                if is_dir && child_depth_allowed(&self.config, f.ancestors.len()) {
                    let mut a = copy_flags(&f.ancestors);
                    a.push(is_last);
                    let d = join(f.dir.as_str(), f.entries[i].name.as_str());
                    self.pending = Some((d, a));
                }
                Action::Show(Line { prefix, name, kind })
            },
        };
        let ghost f1 = f;
        assert(f1 == Frame { next: (f0.next + 1) as usize, ..f0 });
        assert(frame_wf(self.config(), pats, f1));
        self.stack.push(f);
        assert forall|k: int| 0 <= k < self.frames().len() implies frame_wf(
            self.config(),
            self.pattern_models(),
            #[trigger] self.frames()[k],
        ) by {
            if k < frames0.len() - 1 {
                assert(self.frames()[k] == frames0[k]);
            } else {
                assert(self.frames()[k] == f1);
            }
        }
        action
    }
}

/// Every line shown is counted exactly once: the directories and files
/// counted add up to the lines shown, at every point of a walk.
pub proof fn lemma_counts_match_lines(w: Walker)
    requires
        w.wf(),
    ensures
        w.counts().directories + w.counts().files == w.shown(),
{
}

/// With a depth limit of one, the root is listed and none of its
/// subdirectories is.
pub proof fn lemma_depth_one(config: Config)
    requires
        config.max_depth == Some(1usize),
    ensures
        within_depth(config, 0),
        !within_depth(config, 1),
{
}

/// A link is never a directory to the walk, whatever it points to: its line
/// is a leaf, and no listing is owed for it.
pub proof fn lemma_link_is_leaf(k: EntryKind, name: Seq<char>, m: EntryMeta)
    requires
        m.is_symlink,
        is_kind_of(k, name, m),
    ensures
        k is Symlink,
        !(k is Directory),
{
}

} // verus!
