//! Selection of source files among the entries of a directory walk: the
//! files under the root whose path relative to the root matches one of a
//! set of glob patterns.
use globset::{Glob, GlobSet, GlobSetBuilder};
use vstd::prelude::*;
use vstd::string::{StrSliceExecFns, StringExecFns};

verus! {

#[verifier::external_type_specification]
#[verifier::external_body]
pub struct ExGlob(Glob);

#[verifier::external_type_specification]
#[verifier::external_body]
pub struct ExGlobSet(GlobSet);

#[verifier::external_type_specification]
#[verifier::external_body]
pub struct ExGlobSetBuilder(GlobSetBuilder);

#[verifier::external_type_specification]
#[verifier::external_body]
pub struct ExGlobError(globset::Error);

/// `pattern` is a valid glob.
pub uninterp spec fn glob_valid(pattern: Seq<char>) -> bool;

/// A glob set can be built from `patterns`.
pub uninterp spec fn glob_set_builds(patterns: Seq<Seq<char>>) -> bool;

/// One of the globs `patterns` matches `path`.
pub uninterp spec fn glob_match(patterns: Seq<Seq<char>>, path: Seq<char>) -> bool;

/// A compiled glob with its pattern. Made only by `compile_glob`.
pub struct CompiledGlob {
    glob: Glob,
    pattern: Ghost<Seq<char>>,
}

/// A glob set under construction with the patterns added so far. Made only
/// by `glob_set_builder`; grown only by `add_glob`.
pub struct PatternBuilder {
    builder: GlobSetBuilder,
    patterns: Ghost<Seq<Seq<char>>>,
}

/// A glob set with the patterns it was built from. Made only by
/// `build_glob_set`.
pub struct GlobMatcher {
    set: GlobSet,
    patterns: Ghost<Seq<Seq<char>>>,
}

impl GlobMatcher {
    /// The patterns that the matcher was built from.
    pub closed spec fn patterns(&self) -> Seq<Seq<char>> {
        self.patterns@
    }
}

/// Relies on `globset::GlobSetBuilder::new`: a builder without globs.
#[verifier::external_body]
fn glob_set_builder() -> (r: PatternBuilder)
    ensures
        r.patterns@ == Seq::<Seq<char>>::empty(),
{
    PatternBuilder { builder: GlobSetBuilder::new(), patterns: Ghost(Seq::empty()) }
}

/// Relies on `globset::Glob::new`: the compiled pattern, or why it is not a
/// valid glob; which of the two depends on the pattern alone.
#[verifier::external_body]
fn compile_glob(pattern: &str) -> (r: Result<CompiledGlob, globset::Error>)
    ensures
        r is Ok <==> glob_valid(pattern@),
        r matches Ok(g) ==> g.pattern@ == pattern@,
{
    match Glob::new(pattern) {
        Ok(glob) => Ok(CompiledGlob { glob, pattern: Ghost(pattern@) }),
        Err(e) => Err(e),
    }
}

/// Relies on `globset::GlobSetBuilder::add`.
#[verifier::external_body]
fn add_glob(builder: &mut PatternBuilder, glob: CompiledGlob)
    ensures
        final(builder).patterns@ == old(builder).patterns@.push(glob.pattern@),
{
    builder.builder.add(glob.glob);
    builder.patterns = Ghost(builder.patterns@.push(glob.pattern@));
}

/// Relies on `globset::GlobSetBuilder::build`: the set of the added globs,
/// or why it cannot be built; which of the two depends on the patterns alone.
#[verifier::external_body]
fn build_glob_set(builder: &PatternBuilder) -> (r: Result<GlobMatcher, globset::Error>)
    ensures
        r is Ok <==> glob_set_builds(builder.patterns@),
        r matches Ok(m) ==> m.patterns@ == builder.patterns@,
{
    match builder.builder.build() {
        Ok(set) => Ok(GlobMatcher { set, patterns: Ghost(builder.patterns@) }),
        Err(e) => Err(e),
    }
}

/// Relies on `globset::GlobSet::is_match`: whether a glob of the set matches
/// the path, which depends on the patterns and the path alone.
#[verifier::external_body]
fn glob_set_matches(m: &GlobMatcher, path: &str) -> (r: bool)
    ensures
        r == glob_match(m.patterns@, path@),
{
    m.set.is_match(path)
}

/// The texts of a sequence of strings.
pub open spec fn pattern_texts(v: Seq<String>) -> Seq<Seq<char>> {
    v.map_values(|p: String| p@)
}

/// A matcher for any of `patterns`: `Ok` exactly where every pattern is a
/// valid glob and the set can be built.
pub fn build_glob_matcher(patterns: &Vec<String>) -> (r: Result<GlobMatcher, globset::Error>)
    ensures
        r is Ok <==> (forall|i: int| 0 <= i < patterns@.len() ==> glob_valid(#[trigger] patterns@[i]@))
            && glob_set_builds(pattern_texts(patterns@)),
        r matches Ok(m) ==> m.patterns() == pattern_texts(patterns@),
{
    let mut builder = glob_set_builder();
    let mut k: usize = 0;
    assert(pattern_texts(patterns@).take(0) =~= Seq::<Seq<char>>::empty());
    while k < patterns.len()
        invariant
            k <= patterns@.len(),
            builder.patterns@ == pattern_texts(patterns@).take(k as int),
            forall|i: int| 0 <= i < k ==> glob_valid(#[trigger] patterns@[i]@),
        decreases patterns@.len() - k,
    {
        match compile_glob(patterns[k].as_str()) {
            Ok(glob) => {
                add_glob(&mut builder, glob);
                assert(pattern_texts(patterns@).take(k + 1) =~= pattern_texts(patterns@).take(k as int).push(
                    patterns@[k as int]@,
                ));
            },
            Err(e) => {
                return Err(e);
            },
        }
        k = k + 1;
    }
    assert(pattern_texts(patterns@).take(k as int) =~= pattern_texts(patterns@));
    build_glob_set(&builder)
}

/// An entry found by a directory walk.
pub struct WalkEntry {
    /// The entry's absolute path.
    pub path: String,
    /// Whether the entry is a regular file.
    pub is_file: bool,
}

/// `path` relative to the directory `root`: what follows `root` and a
/// separator; `None` where `path` does not lie under `root`.
pub open spec fn relative_path(root: Seq<char>, path: Seq<char>) -> Option<Seq<char>> {
    let cut = if root.len() > 0 && root.last() == '/' {
        root.len() as int
    } else {
        root.len() + 1int
    };
    if cut <= path.len() && path.subrange(0, root.len() as int) == root && (cut == root.len() || path[
    root.len() as int] == '/') {
        Some(path.subrange(cut, path.len() as int))
    } else {
        None
    }
}

/// `path` relative to the directory `root`.
pub fn relative_to(root: &str, path: &str) -> (r: Option<String>)
    ensures
        r is Some <==> relative_path(root@, path@) is Some,
        r matches Some(s) ==> relative_path(root@, path@) == Some(s@),
{
    let lr = root.unicode_len();
    let lp = path.unicode_len();
    if lr > lp {
        return None;
    }
    let mut i: usize = 0;
    while i < lr
        invariant
            lr == root@.len(),
            lp == path@.len(),
            lr <= lp,
            i <= lr,
            forall|j: int| 0 <= j < i ==> root@[j] == path@[j],
        decreases lr - i,
    {
        if root.get_char(i) != path.get_char(i) {
            assert(path@.subrange(0, lr as int)[i as int] != root@[i as int]);
            return None;
        }
        i = i + 1;
    }
    assert(path@.subrange(0, lr as int) =~= root@);
    let cut = if lr > 0 && root.get_char(lr - 1) == '/' {
        lr
    } else {
        if lr == lp || path.get_char(lr) != '/' {
            return None;
        }
        lr + 1
    };
    Some(String::from_str(path.substring_char(cut, lp)))
}

/// The paths of the first `k` entries that are files under `root` whose
/// path relative to `root` one of `patterns` matches, in walk order.
pub open spec fn selected(root: Seq<char>, entries: Seq<WalkEntry>, patterns: Seq<Seq<char>>, k: int) -> Seq<Seq<char>>
    decreases k,
{
    if k <= 0 {
        Seq::empty()
    } else {
        let prev = selected(root, entries, patterns, k - 1);
        let e = entries[k - 1];
        match relative_path(root, e.path@) {
            Some(rel) => if e.is_file && glob_match(patterns, rel) {
                prev.push(e.path@)
            } else {
                prev
            },
            None => prev,
        }
    }
}

/// The paths of the entries that are files under `root` and whose path
/// relative to `root` the matcher matches, in walk order.
pub fn select_files(root: &String, entries: &Vec<WalkEntry>, matcher: &GlobMatcher) -> (r: Vec<String>)
    ensures
        pattern_texts(r@) == selected(root@, entries@, matcher.patterns(), entries@.len() as int),
{
    let mut r: Vec<String> = Vec::new();
    let mut i: usize = 0;
    while i < entries.len()
        invariant
            i <= entries@.len(),
            pattern_texts(r@) == selected(root@, entries@, matcher.patterns(), i as int),
        decreases entries@.len() - i,
    {
        let entry = &entries[i];
        let ghost before = r@;
        if entry.is_file {
            match relative_to(root.as_str(), entry.path.as_str()) {
                Some(rel) => {
                    if glob_set_matches(matcher, rel.as_str()) {
                        r.push(entry.path.clone());
                        assert(pattern_texts(r@) =~= pattern_texts(before).push(entry.path@));
                    }
                },
                None => {},
            }
        }
        i = i + 1;
    }
    r
}

} // verus!
