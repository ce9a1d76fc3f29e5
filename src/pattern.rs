//! Exclusion patterns: glob patterns anchored either at the traversal root
//! (matched against an entry's full path) or at an entry's name (matched
//! against its base name, at every depth).
use vstd::prelude::*;
use crate::text::{begins_with, join_path, split, split_on, starts_with_char, strip_leading, join, trim, trim_leading, trimmed};

verus! {

/// Whether `glob` accepts `text` as a well-formed pattern.
pub uninterp spec fn glob_accepts(text: Seq<char>) -> bool;

/// Whether the glob pattern written as `text` matches the string `s`.
pub uninterp spec fn glob_matches(text: Seq<char>, s: Seq<char>) -> bool;

/// `glob::Pattern`, a compiled glob pattern, carried as an opaque value.
#[verifier::external_type_specification]
#[verifier::external_body]
pub struct ExGlobPattern(glob::Pattern);

/// A compiled glob pattern together with the text it was compiled from.
/// Values are only made by `compile_glob`, so `compiled` is always the
/// compilation of `text`.
pub struct GlobPattern {
    text: String,
    compiled: glob::Pattern,
}

impl View for GlobPattern {
    type V = Seq<char>;

    closed spec fn view(&self) -> Seq<char> {
        self.text@
    }
}

/// Relies on `glob::Pattern::new`: it succeeds exactly on the patterns that
/// glob accepts, and does not panic.
#[verifier::external_body]
fn compile_glob(text: &str) -> (r: Option<GlobPattern>)
    ensures
        r is Some <==> glob_accepts(text@),
        r matches Some(p) ==> p@ == text@,
{
    match glob::Pattern::new(text) {
        Ok(compiled) => Some(GlobPattern { text: text.to_string(), compiled }),
        Err(_) => None,
    }
}

/// Relies on `glob::Pattern::matches` with glob's default options; the result
/// depends only on the pattern's text and on `s`.
#[verifier::external_body]
fn glob_match(p: &GlobPattern, s: &str) -> (r: bool)
    ensures
        r == glob_matches(p@, s@),
{
    p.compiled.matches(s)
}

impl GlobPattern {
    /// The text the pattern was compiled from.
    pub fn as_str(&self) -> (r: &str)
        ensures
            r@ == self@,
    {
        self.text.as_str()
    }
}

/// A rule that removes matching entries from the tree.
pub enum ExclusionPattern {
    /// Matched against an entry's full path.
    RootAnchored(GlobPattern),
    /// Matched against an entry's base name, at any depth.
    NameAnchored(GlobPattern),
}

/// A pattern as data: whether it is root-anchored, and its text.
pub type PatternModel = (bool, Seq<char>);

impl View for ExclusionPattern {
    type V = PatternModel;

    open spec fn view(&self) -> PatternModel {
        match self {
            ExclusionPattern::RootAnchored(p) => (true, p@),
            ExclusionPattern::NameAnchored(p) => (false, p@),
        }
    }
}

/// Whether the pattern `m` excludes the entry at `full_path` named `name`.
pub open spec fn model_excludes(m: PatternModel, full_path: Seq<char>, name: Seq<char>) -> bool {
    if m.0 {
        glob_matches(m.1, full_path)
    } else {
        glob_matches(m.1, name)
    }
}

impl ExclusionPattern {
    /// Whether this pattern excludes the entry at `full_path` whose base name
    /// is `name`.
    pub fn matches(&self, full_path: &str, name: &str) -> (r: bool)
        ensures
            r == model_excludes(self@, full_path@, name@),
    {
        match self {
            ExclusionPattern::RootAnchored(p) => glob_match(p, full_path),
            ExclusionPattern::NameAnchored(p) => glob_match(p, name),
        }
    }

    /// Whether this pattern is matched against full paths.
    pub fn is_root_anchored(&self) -> (r: bool)
        ensures
            r == self@.0,
    {
        match self {
            ExclusionPattern::RootAnchored(_) => true,
            ExclusionPattern::NameAnchored(_) => false,
        }
    }

    /// The pattern's glob text.
    pub fn as_str(&self) -> (r: &str)
        ensures
            r@ == self@.1,
    {
        match self {
            ExclusionPattern::RootAnchored(p) => p.as_str(),
            ExclusionPattern::NameAnchored(p) => p.as_str(),
        }
    }
}

/// The views of a sequence of patterns.
pub open spec fn models(v: Seq<ExclusionPattern>) -> Seq<PatternModel> {
    v.map_values(|p: ExclusionPattern| p@)
}

/// The patterns that the user's pieces compile to, in order: a piece that
/// begins with `/` is root-anchored, any other is name-anchored, and a piece
/// that glob does not accept is dropped.
pub open spec fn user_models(pieces: Seq<Seq<char>>) -> Seq<PatternModel>
    decreases pieces.len(),
{
    if pieces.len() == 0 {
        seq![]
    } else {
        let rest = user_models(pieces.drop_last());
        let t = pieces.last();
        if glob_accepts(t) {
            rest.push((begins_with(t, '/'), t))
        } else {
            rest
        }
    }
}

/// The pattern that one ignore-file line contributes under the root `root`,
/// if any.
pub open spec fn ignore_line_model(root: Seq<char>, line: Seq<char>) -> Option<PatternModel> {
    let t = trimmed(line);
    if t.len() == 0 || t[0] == '#' {
        None
    } else if t[0] == '/' {
        let full = join_path(root, strip_leading(t, '/'));
        if glob_accepts(full) {
            Some((true, full))
        } else {
            None
        }
    } else if glob_accepts(t) {
        Some((false, t))
    } else {
        None
    }
}

/// The patterns of an ignore file's lines under the root `root`, in order.
pub open spec fn ignore_models(root: Seq<char>, lines: Seq<Seq<char>>) -> Seq<PatternModel>
    decreases lines.len(),
{
    if lines.len() == 0 {
        seq![]
    } else {
        let rest = ignore_models(root, lines.drop_last());
        match ignore_line_model(root, lines.last()) {
            Some(m) => rest.push(m),
            None => rest,
        }
    }
}

/// The patterns written in `text`, separated by `|`. A pattern that begins
/// with `/` is matched against full paths, any other against base names; a
/// malformed one is dropped.
pub fn user_patterns(text: &str) -> (r: Vec<ExclusionPattern>)
    ensures
        models(r@) == user_models(split_on(text@, '|')),
{
    let pieces = split(text, '|');
    let ghost ps = split_on(text@, '|');
    let mut out: Vec<ExclusionPattern> = Vec::new();
    let mut i: usize = 0;
    assert(ps.take(0) =~= Seq::<Seq<char>>::empty());
    while i < pieces.len()
        invariant
            pieces@.len() == ps.len(),
            forall|k: int| 0 <= k < pieces@.len() ==> #[trigger] pieces@[k]@ == ps[k],
            i <= pieces@.len(),
            models(out@) == user_models(ps.take(i as int)),
        decreases pieces@.len() - i,
    {
        let piece = pieces[i].as_str();
        assert(ps.take(i + 1).drop_last() =~= ps.take(i as int));
        assert(ps.take(i + 1).last() == piece@);
        match compile_glob(piece) {
            Some(p) => {
                if starts_with_char(piece, '/') {
                    out.push(ExclusionPattern::RootAnchored(p));
                } else {
                    out.push(ExclusionPattern::NameAnchored(p));
                }
                assert(models(out@) =~= user_models(ps.take(i as int)).push(
                    (begins_with(piece@, '/'), piece@),
                ));
            },
            None => {},
        }
        i = i + 1;
    }
    assert(ps.take(pieces@.len() as int) =~= ps);
    out
}

/// The pattern that the ignore-file line `line` contributes under `root`.
pub fn ignore_line_pattern(root: &str, line: &str) -> (r: Option<ExclusionPattern>)
    ensures
        match r {
            Some(p) => ignore_line_model(root@, line@) == Some(p@),
            None => ignore_line_model(root@, line@) is None,
        },
{
    let t = trim(line);
    let ts = t.as_str();
    if ts.unicode_len() == 0 || ts.get_char(0) == '#' {
        None
    } else if ts.get_char(0) == '/' {
        let rest = trim_leading(ts, '/');
        let full = join(root, rest.as_str());
        match compile_glob(full.as_str()) {
            Some(p) => Some(ExclusionPattern::RootAnchored(p)),
            None => None,
        }
    } else {
        match compile_glob(ts) {
            Some(p) => Some(ExclusionPattern::NameAnchored(p)),
            None => None,
        }
    }
}

/// The patterns of an ignore file whose lines are `lines`, for a walk rooted
/// at `root`. Blank lines and `#` comments contribute nothing; a line that
/// begins with `/` becomes a root-anchored pattern on `root`; any other line
/// a name-anchored one; a malformed pattern is dropped.
pub fn ignore_file_patterns(root: &str, lines: &Vec<String>) -> (r: Vec<ExclusionPattern>)
    ensures
        models(r@) == ignore_models(root@, lines@.map_values(|l: String| l@)),
{
    let ghost ls = lines@.map_values(|l: String| l@);
    let mut out: Vec<ExclusionPattern> = Vec::new();
    let mut i: usize = 0;
    assert(ls.take(0) =~= Seq::<Seq<char>>::empty());
    while i < lines.len()
        invariant
            ls == lines@.map_values(|l: String| l@),
            i <= lines@.len(),
            models(out@) == ignore_models(root@, ls.take(i as int)),
        decreases lines@.len() - i,
    {
        let line = lines[i].as_str();
        assert(ls.take(i + 1).drop_last() =~= ls.take(i as int));
        assert(ls.take(i + 1).last() == line@);
        match ignore_line_pattern(root, line) {
            Some(p) => {
                out.push(p);
                assert(models(out@) =~= ignore_models(root@, ls.take(i as int)).push(p@));
            },
            None => {},
        }
        i = i + 1;
    }
    assert(ls.take(lines@.len() as int) =~= ls);
    out
}

/// The whole set of exclusion patterns of a walk rooted at `root`: those
/// written in `user_text`, if given, then those of the ignore file whose
/// lines are `ignore_lines`, if one was read.
pub fn load_patterns(
    root: &str,
    user_text: Option<&str>,
    ignore_lines: Option<&Vec<String>>,
) -> (r: Vec<ExclusionPattern>)
    ensures
        models(r@) == (match user_text {
            Some(s) => user_models(split_on(s@, '|')),
            None => Seq::empty(),
        }) + (match ignore_lines {
            Some(ls) => ignore_models(root@, ls@.map_values(|l: String| l@)),
            None => Seq::empty(),
        }),
{
    let mut r = match user_text {
        Some(s) => user_patterns(s),
        None => Vec::new(),
    };
    let mut more = match ignore_lines {
        Some(ls) => ignore_file_patterns(root, ls),
        None => Vec::new(),
    };
    let ghost a = r@;
    let ghost b = more@;
    r.append(&mut more);
    assert(models(r@) =~= models(a) + models(b));
    r
}

} // verus!
