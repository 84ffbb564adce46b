//! A file-system path held as plain values, and the outside calls that read
//! the file system or the environment.
use vstd::prelude::*;
use crate::text::{chars_of, string_from_chars, string_views};

verus! {

/// A path, held as the sequence of its components as `Path::iter` yields them
/// (`"/"` for the root, `".."` for a parent step, a name otherwise); the path
/// it stands for is the one built by pushing the components in order.
#[derive(Clone, Debug, PartialEq, Eq)]
pub struct FsPath {
    pub segments: Vec<String>,
}

impl View for FsPath {
    type V = Seq<Seq<char>>;

    open spec fn view(&self) -> Seq<Seq<char>> {
        string_views(self.segments@)
    }
}

/// The name of the file or directory a path ends in, as `Path::file_name`
/// gives it: none for a path that ends in the root, `.` or `..`.
pub open spec fn file_name_of(p: Seq<Seq<char>>) -> Option<Seq<char>> {
    if p.len() == 0 || p.last() == seq!['/'] || p.last() == seq!['.'] || p.last() == seq![
        '.',
        '.',
    ] {
        None
    } else {
        Some(p.last())
    }
}

/// The position of the last `.` in `name`, if any.
pub open spec fn last_dot(name: Seq<char>) -> Option<int> {
    if exists|i: int| 0 <= i < name.len() && name[i] == '.' {
        Some(choose|i: int|
            0 <= i < name.len() && name[i] == '.' && forall|j: int|
                i < j < name.len() ==> name[j] != '.')
    } else {
        None
    }
}

/// The extension of a file name, as `Path::extension` gives it: the part
/// after the last `.`, unless that dot is the first character.
pub open spec fn extension_of_name(name: Seq<char>) -> Option<Seq<char>> {
    match last_dot(name) {
        Some(i) => if i == 0 {
            None
        } else {
            Some(name.skip(i + 1))
        },
        None => None,
    }
}

/// The stem of a file name, as `Path::file_stem` gives it: the part before
/// the last `.`, or the whole name where there is no extension.
pub open spec fn stem_of_name(name: Seq<char>) -> Seq<char> {
    match last_dot(name) {
        Some(i) => if i == 0 {
            name
        } else {
            name.take(i)
        },
        None => name,
    }
}

/// `Path::extension`.
pub open spec fn extension_of(p: Seq<Seq<char>>) -> Option<Seq<char>> {
    match file_name_of(p) {
        Some(n) => if n == seq!['.', '.'] {
            None
        } else {
            extension_of_name(n)
        },
        None => None,
    }
}

/// `Path::file_stem`.
pub open spec fn stem_of(p: Seq<Seq<char>>) -> Option<Seq<char>> {
    match file_name_of(p) {
        Some(n) => Some(stem_of_name(n)),
        None => None,
    }
}

fn is_one(s: &Vec<char>, c: char) -> (r: bool)
    ensures
        r == (s@ == seq![c]),
{
    if s.len() == 1 && s[0] == c {
        assert(s@ =~= seq![c]);
        true
    } else {
        false
    }
}

fn is_dot_dot(s: &Vec<char>) -> (r: bool)
    ensures
        r == (s@ == seq!['.', '.']),
{
    if s.len() == 2 && s[0] == '.' && s[1] == '.' {
        assert(s@ =~= seq!['.', '.']);
        true
    } else {
        false
    }
}

/// Finds the last `.` in `name`.
fn find_last_dot(name: &Vec<char>) -> (r: Option<usize>)
    ensures
        r matches Some(i) ==> i < name@.len(),
        r matches Some(i) ==> last_dot(name@) == Some(i as int),
        r is None ==> last_dot(name@) is None,
{
    let mut i: usize = name.len();
    while i > 0
        invariant
            i <= name.len(),
            forall|j: int| i <= j < name.len() ==> name@[j] != '.',
        decreases i,
    {
        if name[i - 1] == '.' {
            let k = i - 1;
            assert(0 <= k < name@.len() && name@[k as int] == '.');
            let ghost c = choose|c: int|
                0 <= c < name@.len() && name@[c] == '.' && forall|j: int|
                    c < j < name@.len() ==> name@[j] != '.';
            assert(c == k) by {
                if c < k {
                    assert(name@[k as int] != '.');
                } else if c > k {
                }
            }
            return Some(k);
        }
        i = i - 1;
    }
    None
}

impl FsPath {
    /// `Path::join` with one more component.
    pub fn join(&self, segment: &str) -> (r: FsPath)
        ensures
            r@ == self@.push(segment@),
    {
        let mut segments = self.segments.clone();
        segments.push(segment.to_owned());
        let r = FsPath { segments };
        proof {
            assert(string_views(r.segments@) =~= string_views(self.segments@).push(segment@));
        }
        r
    }

    /// `Path::file_name`.
    pub fn file_name(&self) -> (r: Option<String>)
        ensures
            r matches Some(s) ==> file_name_of(self@) == Some(s@),
            r is None ==> file_name_of(self@) is None,
    {
        let n = self.segments.len();
        if n == 0 {
            return None;
        }
        let last = chars_of(self.segments[n - 1].as_str());
        proof {
            assert(self@.last() == self.segments@[n - 1]@);
        }
        if is_one(&last, '/') || is_one(&last, '.') || is_dot_dot(&last) {
            None
        } else {
            Some(self.segments[n - 1].clone())
        }
    }

    /// `Path::extension`.
    pub fn extension(&self) -> (r: Option<String>)
        ensures
            r matches Some(s) ==> extension_of(self@) == Some(s@),
            r is None ==> extension_of(self@) is None,
    {
        match self.file_name() {
            None => None,
            Some(n) => {
                let name = chars_of(n.as_str());
                if is_dot_dot(&name) {
                    return None;
                }
                match name_extension(&name) {
                    None => None,
                    Some(e) => Some(string_from_chars(e.as_slice())),
                }
            },
        }
    }

    /// `Path::file_stem`.
    pub fn file_stem(&self) -> (r: Option<String>)
        ensures
            r matches Some(s) ==> stem_of(self@) == Some(s@),
            r is None ==> stem_of(self@) is None,
    {
        match self.file_name() {
            None => None,
            Some(n) => {
                let name = chars_of(n.as_str());
                let stem = name_stem(&name);
                Some(string_from_chars(stem.as_slice()))
            },
        }
    }
}

/// The extension of a file name.
fn name_extension(name: &Vec<char>) -> (r: Option<Vec<char>>)
    ensures
        r matches Some(e) ==> extension_of_name(name@) == Some(e@),
        r is None ==> extension_of_name(name@) is None,
{
    match find_last_dot(name) {
        None => None,
        Some(i) => {
            if i == 0 {
                None
            } else {
                let mut ext: Vec<char> = Vec::new();
                assert(i < name.len());
                let mut k: usize = i + 1;
                while k < name.len()
                    invariant
                        i < name.len(),
                        i + 1 <= k <= name.len(),
                        ext@ == name@.subrange(i + 1, k as int),
                    decreases name.len() - k,
                {
                    ext.push(name[k]);
                    k = k + 1;
                    proof { assert(ext@ =~= name@.subrange(i + 1, k as int)); }
                }
                assert(ext@ =~= name@.skip(i + 1));
                Some(ext)
            }
        },
    }
}

/// The stem of a file name.
fn name_stem(name: &Vec<char>) -> (r: Vec<char>)
    ensures
        r@ == stem_of_name(name@),
{
    match find_last_dot(name) {
        None => name.clone(),
        Some(i) => {
            if i == 0 {
                name.clone()
            } else {
                let mut stem: Vec<char> = Vec::new();
                let mut k: usize = 0;
                while k < i
                    invariant
                        k <= i < name.len(),
                        stem@ == name@.take(k as int),
                    decreases i - k,
                {
                    stem.push(name[k]);
                    k = k + 1;
                    proof { assert(stem@ =~= name@.take(k as int)); }
                }
                stem
            }
        },
    }
}


/// The text that `Path::display` shows for a path, a function of its components.
pub uninterp spec fn displayed(p: Seq<Seq<char>>) -> Seq<char>;

/// `Path::display` turned into a `String`. Claimed: the text depends on the
/// components alone; how it is spelled is not restated.
#[verifier::external_body]
pub(crate) fn display(p: &FsPath) -> (r: String)
    ensures
        r@ == displayed(p@),
{
    p.segments.iter().collect::<std::path::PathBuf>().display().to_string()
}

/// `Path::exists`: asks the file system, so nothing is claimed of the answer.
#[verifier::external_body]
pub(crate) fn path_exists(p: &FsPath) -> bool {
    p.segments.iter().collect::<std::path::PathBuf>().exists()
}

/// `Path::is_file`: asks the file system, so nothing is claimed of the answer.
#[verifier::external_body]
pub(crate) fn path_is_file(p: &FsPath) -> bool {
    p.segments.iter().collect::<std::path::PathBuf>().is_file()
}

/// The components of the path written as `s`, as `Path::iter` yields them.
pub uninterp spec fn parsed_path(s: Seq<char>) -> Seq<Seq<char>>;

/// `Path::new(s).iter()`: the components of a path written as text. Claimed:
/// a function of the text alone.
#[verifier::external_body]
pub(crate) fn path_from_str(s: &str) -> (r: FsPath)
    ensures
        r@ == parsed_path(s@),
{
    FsPath {
        segments: std::path::Path::new(s).iter().map(|c| c.to_string_lossy().into_owned()).collect(),
    }
}

/// `same_file::is_same_file`: whether two paths name the same file on disk;
/// `None` where either cannot be opened. Nothing is claimed of the answer.
#[verifier::external_body]
pub(crate) fn is_same_file(a: &FsPath, b: &FsPath) -> Option<bool> {
    same_file::is_same_file(
        a.segments.iter().collect::<std::path::PathBuf>(),
        b.segments.iter().collect::<std::path::PathBuf>(),
    ).ok()
}

/// What `pathdiff::diff_paths` returns for two paths, a function of their components.
pub uninterp spec fn relative_path(path: Seq<Seq<char>>, base: Seq<Seq<char>>) -> Option<
    Seq<Seq<char>>,
>;

/// `pathdiff::diff_paths`: `path` written relative to `base`. Claimed: the
/// result depends on the two paths alone (the crate computes it from their
/// components without touching the file system).
#[verifier::external_body]
pub(crate) fn diff_paths(path: &FsPath, base: &FsPath) -> (r: Option<FsPath>)
    ensures
        r matches Some(p) ==> relative_path(path@, base@) == Some(p@),
        r is None ==> relative_path(path@, base@) is None,
{
    pathdiff::diff_paths(
        path.segments.iter().collect::<std::path::PathBuf>(),
        base.segments.iter().collect::<std::path::PathBuf>(),
    ).map(|d| FsPath { segments: d.iter().map(|c| c.to_string_lossy().into_owned()).collect() })
}

/// `dirs::home_dir`: read from the environment, so nothing is claimed of it.
#[verifier::external_body]
pub(crate) fn home_dir() -> Option<FsPath> {
    dirs::home_dir().map(|d| FsPath { segments: d.iter().map(|c| c.to_string_lossy().into_owned()).collect() })
}

/// `dirs::config_dir`: read from the environment, so nothing is claimed of it.
#[verifier::external_body]
pub(crate) fn config_dir() -> Option<FsPath> {
    dirs::config_dir().map(|d| FsPath { segments: d.iter().map(|c| c.to_string_lossy().into_owned()).collect() })
}


/// Whether the file system has something at `p`. The answer comes from the
/// disk; contracts elsewhere tie their results to the answers it gave.
pub fn path_taken(p: &FsPath) -> bool {
    path_exists(p)
}

/// Whether `p` is a regular file on disk; `false` where it is missing.
pub fn regular_file(p: &FsPath) -> bool {
    path_is_file(p)
}

/// Whether `a` and `b` name the same file on disk; `None` where either
/// cannot be opened.
pub fn names_same_file(a: &FsPath, b: &FsPath) -> Option<bool> {
    is_same_file(a, b)
}

/// The user's home directory, where the environment tells one.
pub fn home_directory() -> Option<FsPath> {
    home_dir()
}

/// The system's configuration directory, where the environment tells one.
pub fn config_directory() -> Option<FsPath> {
    config_dir()
}
} // verus!
