//! Which walked entries a traversal reports, and what each match captures.
use vstd::prelude::*;
use vstd::utf8::{encode_utf8, is_char_boundary};
use crate::actions::{join, join_spec};

verus! {

/// Options of a traversal.
#[derive(Debug)]
pub struct TraverseOptions {
    /// Directory to traverse.
    root: String,
    /// Pattern that paths are matched against; every path matches without one.
    pattern: Option<String>,
    /// Whether directory entries themselves are left out (their contents are
    /// still walked). Defaults to `false`.
    ignore_dirs: bool,
    /// Whether a directory's contents come before it. Defaults to `false`.
    contents_first: bool,
}

/// Builder and filter of a traversal.
#[derive(Debug)]
pub struct Traverser {
    options: TraverseOptions,
}

/// A reported entry.
#[derive(Debug)]
pub struct Match {
    /// Full path.
    pub path: String,
    /// The part of the path from the pattern's first wildcard on.
    pub captured: String,
}

/// What `glob_match::glob_match_with_captures` gives: `None` when the path
/// does not match, else the byte offset at which the first capture starts
/// (0 when there is none).
pub uninterp spec fn glob_capture_start(glob: Seq<char>, path: Seq<char>) -> Option<nat>;

/// Relies on `glob_match::glob_match_with_captures`: whether `path` matches
/// `glob`, and where its first capture starts.
#[verifier::external_body]
fn glob_first_capture(glob: &str, path: &str) -> (r: Option<usize>)
    ensures
        r matches Some(s) ==> glob_capture_start(glob@, path@) == Some(s as nat),
        r is None ==> glob_capture_start(glob@, path@) is None,
{
    glob_match::glob_match_with_captures(glob, path).map(|caps| caps.first().map_or(0, |c| c.start))
}

impl Traverser {
    pub closed spec fn root_spec(&self) -> Seq<char> {
        self.options.root@
    }

    pub closed spec fn pattern_spec(&self) -> Option<Seq<char>> {
        match self.options.pattern {
            Some(p) => Some(p@),
            None => None,
        }
    }

    pub closed spec fn ignore_dirs_spec(&self) -> bool {
        self.options.ignore_dirs
    }

    pub closed spec fn contents_first_spec(&self) -> bool {
        self.options.contents_first
    }

    /// A traversal of `root` that reports every entry.
    pub fn new(root: &str) -> (r: Traverser)
        ensures
            r.root_spec() == root@,
            r.pattern_spec() is None,
            !r.ignore_dirs_spec(),
            !r.contents_first_spec(),
    {
        Traverser {
            options: TraverseOptions {
                root: root.to_owned(),
                pattern: None,
                ignore_dirs: false,
                contents_first: false,
            },
        }
    }

    /// Sets the pattern to match paths against, relative to the root.
    pub fn pattern(self, pattern: &str) -> (r: Traverser)
        ensures
            r.pattern_spec() == Some(pattern@),
            r.root_spec() == self.root_spec(),
            r.ignore_dirs_spec() == self.ignore_dirs_spec(),
            r.contents_first_spec() == self.contents_first_spec(),
    {
        let mut t = self;
        t.options.pattern = Some(pattern.to_owned());
        t
    }

    /// Sets whether directory entries themselves are left out.
    pub fn ignore_dirs(self, ignore_dirs: bool) -> (r: Traverser)
        ensures
            r.ignore_dirs_spec() == ignore_dirs,
            r.root_spec() == self.root_spec(),
            r.pattern_spec() == self.pattern_spec(),
            r.contents_first_spec() == self.contents_first_spec(),
    {
        let mut t = self;
        t.options.ignore_dirs = ignore_dirs;
        t
    }

    /// Sets whether a directory's contents come before it.
    pub fn contents_first(self, contents_first: bool) -> (r: Traverser)
        ensures
            r.contents_first_spec() == contents_first,
            r.root_spec() == self.root_spec(),
            r.pattern_spec() == self.pattern_spec(),
            r.ignore_dirs_spec() == self.ignore_dirs_spec(),
    {
        let mut t = self;
        t.options.contents_first = contents_first;
        t
    }

    /// The directory to walk.
    pub fn root(&self) -> (r: &String)
        ensures
            r@ == self.root_spec(),
    {
        &self.options.root
    }

    /// Whether a directory's contents come before it.
    pub fn is_contents_first(&self) -> (r: bool)
        ensures
            r == self.contents_first_spec(),
    {
        self.options.contents_first
    }

    /// Decides whether a walked entry is reported, and what it captures.
    /// Directories are left out when asked; without a pattern every entry
    /// matches and captures its whole path; with one, the entry must match the
    /// pattern joined to the root, and captures the path from the pattern's
    /// first capture on.
    pub fn check(&self, path: &str, is_dir: bool) -> (r: Option<Match>)
        ensures
            self.ignore_dirs_spec() && is_dir ==> r is None,
            !(self.ignore_dirs_spec() && is_dir) ==> match self.pattern_spec() {
                None => r matches Some(m) && m.path@ == path@ && m.captured@ == path@,
                Some(p) => match glob_capture_start(join_spec(self.root_spec(), p), path@) {
                    None => r is None,
                    Some(s) => r matches Some(m) && m.path@ == path@ && (
                        if is_char_boundary(encode_utf8(path@), s as int) {
                            encode_utf8(m.captured@) == encode_utf8(path@).subrange(s as int, encode_utf8(path@).len() as int)
                        } else {
                            m.captured@ == path@
                        }),
                },
            },
    {
        if self.options.ignore_dirs && is_dir {
            return None;
        }
        match &self.options.pattern {
            None => Some(Match { path: path.to_owned(), captured: path.to_owned() }),
            Some(p) => {
                let full = join(self.options.root.as_str(), p.as_str());
                match glob_first_capture(full.as_str(), path) {
                    None => None,
                    Some(s) => {
                        let captured = if path.is_char_boundary(s) {
                            let (_, rest) = path.split_at(s);
                            rest.to_owned()
                        } else {
                            path.to_owned()
                        };
                        Some(Match { path: path.to_owned(), captured })
                    },
                }
            },
        }
    }
}

} // verus!
