//! Showing paths to the user as briefly as possible.
use vstd::prelude::*;
use vstd::utf8::encode_utf8;
use crate::path::{FsPath, diff_paths, display, displayed, home_directory, relative_path};
use crate::text::{append_chars, chars_of, string_from_chars};

verus! {

/// The length in bytes of the UTF-8 text `s`, as `str::len` reports it.
pub open spec fn byte_len(s: Seq<char>) -> usize {
    encode_utf8(s).len() as usize
}

/// `path` written relative to `base` after `prefix`, where it can be.
pub open spec fn relative_repr(
    path: Seq<Seq<char>>,
    base: Seq<Seq<char>>,
    prefix: Seq<char>,
) -> Option<Seq<char>> {
    match relative_path(path, base) {
        Some(d) => Some(prefix + displayed(d)),
        None => None,
    }
}

/// `candidate` where it is strictly shorter (in bytes) than `current`.
pub open spec fn shorter(current: Seq<char>, candidate: Option<Seq<char>>) -> Seq<char> {
    match candidate {
        Some(c) => if byte_len(c) < byte_len(current) {
            c
        } else {
            current
        },
        None => current,
    }
}

/// The shortest of: the path as displayed, the path relative to the home
/// directory `home` (after `~/`), and relative to the working directory `cwd`
/// (after `./`); on a tie the earlier one.
pub open spec fn shortest_repr(
    path: Seq<Seq<char>>,
    home: Option<Seq<Seq<char>>>,
    cwd: Option<Seq<Seq<char>>>,
) -> Seq<char> {
    let from_home = match home {
        Some(h) => relative_repr(path, h, "~/"@),
        None => None,
    };
    let from_cwd = match cwd {
        Some(c) => relative_repr(path, c, "./"@),
        None => None,
    };
    shorter(shorter(displayed(path), from_home), from_cwd)
}

/// The view of an optional path.
pub open spec fn opt_path_view(p: Option<FsPath>) -> Option<Seq<Seq<char>>> {
    match p {
        Some(x) => Some(x@),
        None => None,
    }
}

/// `path` relative to `base`, written after `prefix`; `None` where
/// `pathdiff` cannot relate them.
pub fn relative_to(path: &FsPath, base: &FsPath, prefix: &str) -> (r: Option<String>)
    ensures
        r.deep_view() == relative_repr(path@, base@, prefix@),
{
    match diff_paths(path, base) {
        Some(d) => {
            let mut v = chars_of(prefix);
            append_chars(&mut v, &chars_of(display(&d).as_str()));
            Some(string_from_chars(v.as_slice()))
        },
        None => None,
    }
}

/// `path` relative to the home directory, as `~/<relative path>`.
pub fn path_relative_home(path: &FsPath) -> (r: Option<String>)
    ensures
        exists|h: Option<FsPath>|
            call_ensures(home_directory, (), h) && r.deep_view() == match h {
                Some(home) => relative_repr(path@, home@, "~/"@),
                None => None,
            },
{
    let h = home_directory();
    let r = match &h {
        Some(home) => relative_to(path, home, "~/"),
        None => None,
    };
    assert(call_ensures(home_directory, (), h));
    r
}

/// `path` relative to the working directory `cwd`, as `./<relative path>`.
pub fn path_relative_cwd(path: &FsPath, cwd: &FsPath) -> (r: Option<String>)
    ensures
        r.deep_view() == relative_repr(path@, cwd@, "./"@),
{
    relative_to(path, cwd, "./")
}

/// The shortest way to write `path`, given the home directory and the
/// working directory where they are known.
pub fn shortest_path_repr(path: &FsPath, home: &Option<FsPath>, cwd: &Option<FsPath>) -> (r:
    String)
    ensures
        r@ == shortest_repr(path@, opt_path_view(*home), opt_path_view(*cwd)),
{
    let mut result = display(path);
    if let Some(h) = home {
        if let Some(p) = relative_to(path, h, "~/") {
            if p.as_str().len() < result.as_str().len() {
                result = p;
            }
        }
    }
    if let Some(c) = cwd {
        if let Some(p) = relative_to(path, c, "./") {
            if p.as_str().len() < result.as_str().len() {
                result = p;
            }
        }
    }
    result
}

/// Tries to represent `path` in as short a string as possible: as displayed,
/// relative to the home directory, or relative to the working directory `cwd`
/// (where it is known), whichever is shortest.
pub fn path_shortest_repr(path: &FsPath, cwd: &Option<FsPath>) -> (r: String)
    ensures
        exists|h: Option<FsPath>|
            call_ensures(home_directory, (), h) && r@ == shortest_repr(
                path@,
                opt_path_view(h),
                opt_path_view(*cwd),
            ),
        byte_len(r@) <= byte_len(displayed(path@)),
{
    let home = home_directory();
    let r = shortest_path_repr(path, &home, cwd);
    assert(call_ensures(home_directory, (), home));
    r
}

} // verus!
