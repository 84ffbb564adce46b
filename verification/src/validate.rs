//! Checks on what the user types at the prompts: handles, e-mail addresses,
//! passwords, template aliases and template paths.
use vstd::prelude::*;
use email_address::EmailAddress;
use regex::Regex;
use crate::cmd::contains_string;
use crate::config::{Template, TemplateScripts};
use crate::path::{
    FsPath, display, displayed, home_directory, path_from_str, path_taken, parsed_path, regular_file,
};
use crate::text::{chars_of, string_views};
use crate::utils::byte_len;

verus! {

/// The verdict on a typed-in value.
#[derive(Clone, Debug, PartialEq, Eq)]
pub enum Validation {
    /// The value is accepted.
    Valid,
    /// The value is refused, with the reason to show.
    Invalid(String),
}

/// `None` for an accepted value, else the reason it is refused.
pub open spec fn verdict(v: Validation) -> Option<Seq<char>> {
    match v {
        Validation::Valid => None,
        Validation::Invalid(m) => Some(m@),
    }
}

/// Whether `EmailAddress::is_valid` accepts `s`: a function of `s` alone.
pub uninterp spec fn valid_email(s: Seq<char>) -> bool;

/// `email_address::EmailAddress::is_valid`, which parses `s` as an e-mail
/// address with the default options. The answer is named, not restated.
#[verifier::external_body]
fn is_valid_email(s: &str) -> (r: bool)
    ensures
        r == valid_email(s@),
{
    EmailAddress::is_valid(s)
}

/// What `Regex::new(pattern)` and then `Regex::is_match(text)` answer; `None`
/// where `pattern` does not compile. A function of the two texts alone.
pub uninterp spec fn regex_match(pattern: Seq<char>, text: Seq<char>) -> Option<bool>;

/// `regex::Regex::new` and `Regex::is_match`. The answer is named, not
/// restated.
#[verifier::external_body]
fn pattern_matches(pattern: &str, text: &str) -> (r: Option<bool>)
    ensures
        r == regex_match(pattern@, text@),
{
    Regex::new(pattern).ok().map(|re| re.is_match(text))
}

/// The pattern for handles and aliases: word characters and dashes only.
pub open spec fn name_pattern() -> Seq<char> {
    "^[\\w-]+$"@
}

/// `s` is made of word characters and dashes only.
pub open spec fn is_name(s: Seq<char>) -> bool {
    regex_match(name_pattern(), s) == Some(true)
}

fn matches_name(s: &str) -> (r: bool)
    ensures
        r == is_name(s@),
{
    match pattern_matches("^[\\w-]+$", s) {
        Some(b) => b,
        None => false,
    }
}

/// Why a handle or e-mail address entered to log in is refused, if it is.
pub open spec fn handle_or_email_check(s: Seq<char>) -> Option<Seq<char>> {
    if valid_email(s) {
        None
    } else if s.len() == 0 {
        Some("Field should not be empty."@)
    } else if is_name(s) {
        None
    } else {
        Some("Field should contain only Latin letters, digits, underscore or dash characters."@)
    }
}

/// Accepts an e-mail address, or a handle of word characters and dashes (what
/// the site allows at registration).
pub fn validate_handle_or_email(input: &str) -> (r: Validation)
    ensures
        verdict(r) == handle_or_email_check(input@),
{
    if is_valid_email(input) {
        Validation::Valid
    } else if input.is_empty() {
        Validation::Invalid("Field should not be empty.".to_owned())
    } else if matches_name(input) {
        Validation::Valid
    } else {
        Validation::Invalid(
            "Field should contain only Latin letters, digits, underscore or dash characters.".to_owned(),
        )
    }
}

/// Why a password is refused, if it is: it needs at least five bytes.
pub open spec fn password_check(s: Seq<char>) -> Option<Seq<char>> {
    if byte_len(s) < 5 {
        Some("Field should contain at least 5 characters."@)
    } else {
        None
    }
}

/// Accepts a password of at least five bytes.
pub fn validate_password(input: &str) -> (r: Validation)
    ensures
        verdict(r) == password_check(input@),
{
    if input.len() < 5 {
        Validation::Invalid("Field should contain at least 5 characters.".to_owned())
    } else {
        Validation::Valid
    }
}

/// Why the alias of a new template is refused, if it is, given the aliases in use.
pub open spec fn alias_check(s: Seq<char>, existing: Seq<Seq<char>>) -> Option<Seq<char>> {
    if s.len() == 0 {
        Some("Alias should not be empty."@)
    } else if is_name(s) {
        if existing.contains(s) {
            Some("You already have a template with this alias."@)
        } else {
            None
        }
    } else {
        Some("Alias may only contain alphanumberic characters, underscores or dashes."@)
    }
}

/// Accepts a new alias: not empty, word characters and dashes only, and not
/// among `existing`.
pub fn validate_alias(input: &str, existing: &Vec<String>) -> (r: Validation)
    ensures
        verdict(r) == alias_check(input@, string_views(existing@)),
{
    if input.is_empty() {
        Validation::Invalid("Alias should not be empty.".to_owned())
    } else if matches_name(input) {
        if contains_string(existing, input) {
            Validation::Invalid("You already have a template with this alias.".to_owned())
        } else {
            Validation::Valid
        }
    } else {
        Validation::Invalid(
            "Alias may only contain alphanumberic characters, underscores or dashes.".to_owned(),
        )
    }
}

/// What expanding a leading `~` of `s` gives, where `home` is the home
/// directory's text if there is one: a `~` alone or before `/` becomes the
/// home directory; a `~` before a backslash does so only on Windows; anything else
/// is left as it is, and so is everything without a home directory.
pub open spec fn tilde_expands(s: Seq<char>, home: Option<Seq<char>>, t: Seq<char>) -> bool {
    if s.len() > 0 && s[0] == '~' {
        match home {
            Some(h) => if s.len() == 1 || s[1] == '/' {
                t == h + s.drop_first()
            } else if s[1] == '\\' {
                t == h + s.drop_first() || t == s
            } else {
                t == s
            },
            None => t == s,
        }
    } else {
        t == s
    }
}

/// `shellexpand::tilde_with_context` with `home` as the home directory: a
/// leading `~` alone or before `/` (or a backslash on Windows) is replaced by it;
/// all else is kept.
#[verifier::external_body]
fn expand_tilde_with(s: &str, home: Option<String>) -> (r: String)
    ensures
        tilde_expands(s@, home.deep_view(), r@),
{
    shellexpand::tilde_with_context(s, move || home).into_owned()
}

/// The text of an optional directory, as displayed.
pub open spec fn home_text(home: Option<FsPath>) -> Option<Seq<char>> {
    match home {
        Some(h) => Some(displayed(h@)),
        None => None,
    }
}

/// The path of a template file typed in, with `home` as the home directory:
/// the text after `~` expansion, read as a path.
pub fn template_path_in(input: &str, home: &Option<FsPath>) -> (p: FsPath)
    ensures
        exists|t: Seq<char>| tilde_expands(input@, home_text(*home), t) && p@ == parsed_path(t),
{
    let text = match home {
        Some(h) => Some(display(h)),
        None => None,
    };
    let expanded = expand_tilde_with(input, text);
    path_from_str(expanded.as_str())
}

/// Why a template path is refused, if it is, from whether it exists and whether it is a file.
pub open spec fn path_check(exists: bool, is_file: bool) -> Option<Seq<char>> {
    if !exists {
        Some("Path does not exist."@)
    } else if !is_file {
        Some("Path does not point to file."@)
    } else {
        None
    }
}

/// The verdict on a template path that exists or not and is a file or not.
pub fn path_validation(exists: bool, is_file: bool) -> (r: Validation)
    ensures
        verdict(r) == path_check(exists, is_file),
{
    if !exists {
        Validation::Invalid("Path does not exist.".to_owned())
    } else if !is_file {
        Validation::Invalid("Path does not point to file.".to_owned())
    } else {
        Validation::Valid
    }
}

/// `p` is the path the template path typed as `input` stands for, with the
/// home directory the environment gave.
pub open spec fn template_path_of(input: Seq<char>, p: Seq<Seq<char>>) -> bool {
    exists|h: Option<FsPath>, t: Seq<char>|
        call_ensures(home_directory, (), h) && tilde_expands(input, home_text(h), t) && p
            == parsed_path(t)
}

/// The path of a template file typed in: the text after `~` expansion with
/// the user's home directory, read as a path.
pub fn template_path_for(input: &str) -> (p: FsPath)
    ensures
        template_path_of(input@, p@),
{
    let home = home_directory();
    let p = template_path_in(input, &home);
    let ghost t = choose|t: Seq<char>| tilde_expands(input@, home_text(home), t) && p@ == parsed_path(t);
    assert(call_ensures(home_directory, (), home) && tilde_expands(input@, home_text(home), t) && p@
        == parsed_path(t));
    p
}

/// The verdict on a template path typed as `input`, where `present` and
/// `is_file` answer about a path: `template_path_for(input)` is asked whether
/// it exists and, if so, whether it is a file.
pub fn validate_template_path_with<E: Fn(&FsPath) -> bool, G: Fn(&FsPath) -> bool>(
    input: &str,
    present: E,
    is_file: G,
) -> (r: Validation)
    requires
        forall|q: &FsPath| call_requires(present, (q,)),
        forall|q: &FsPath| call_requires(is_file, (q,)),
    ensures
        exists|p: FsPath, e: bool, f: bool|
            template_path_of(input@, p@) && call_ensures(present, (&p,), e) && (e ==> call_ensures(
                is_file,
                (&p,),
                f,
            )) && (!e ==> !f) && verdict(r) == path_check(e, f),
{
    let path = template_path_for(input);
    let e = present(&path);
    let f = if e {
        is_file(&path)
    } else {
        false
    };
    let r = path_validation(e, f);
    assert(template_path_of(input@, path@) && call_ensures(present, (&path,), e) && (e
        ==> call_ensures(is_file, (&path,), f)) && (!e ==> !f) && verdict(r) == path_check(e, f));
    r
}

/// Accepts a path (after `~` expansion) to an existing file: the disk is
/// asked whether `template_path_for(input)` exists and, if so, whether it is
/// a file, and the verdict is `path_validation`'s for its answers.
pub fn validate_template_path(input: &str) -> (r: Validation)
    ensures
        exists|p: FsPath, e: bool, f: bool|
            template_path_of(input@, p@) && call_ensures(path_taken, (&p,), e) && (e ==> call_ensures(
                regular_file,
                (&p,),
                f,
            )) && (!e ==> !f) && verdict(r) == path_check(e, f),
{
    validate_template_path_with(input, path_taken, regular_file)
}

/// A new template from what was typed in: its file is the path typed, after
/// `~` expansion; it has no suffixes.
pub fn new_template(
    lang_id: u8,
    path_input: &str,
    before: Option<String>,
    execute: String,
    after: Option<String>,
) -> (r: Template)
    ensures
        r.lang_id == lang_id,
        template_path_of(path_input@, r.path@),
        r.suffix@.len() == 0,
        r.scripts == (TemplateScripts { before, execute, after }),
{
    let path = template_path_for(path_input);
    Template {
        lang_id,
        path,
        suffix: Vec::new(),
        scripts: TemplateScripts { before, execute, after },
    }
}

} // verus!
