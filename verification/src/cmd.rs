//! The decisions behind the commands: which templates to act on, which files
//! to use, and what to report.
use vstd::prelude::*;
use crate::cf::contest_type_name;
use crate::cli::{ContestArgs, TemplateArgs, flags_contest_type};
use crate::config::{Config, Template};
use crate::path::{FsPath, extension_of, file_name_of, stem_of, path_taken, path_from_str, parsed_path};
use crate::text::{
    chars_of, str_eq, string_from_chars, string_views, push_decimal, decimal, sort_strings,
    sorted_strings, lowercase, to_lowercase,
};

verus! {

/// The project's page, which `source` opens.
pub const PROJECT_URL: &'static str = "https://www.github.com/kriepiekrollie/cf-tool";

/// What `template delete` does next.
#[derive(Clone, Debug, PartialEq, Eq)]
pub enum DeleteAction {
    /// There are no templates to delete.
    NoTemplates,
    /// The alias given names no template.
    UnknownAlias(String),
    /// Delete the templates with these aliases.
    Delete(Vec<String>),
    /// Ask the user which of these aliases to delete.
    Choose(Vec<String>),
}

/// What `template set` does next.
#[derive(Clone, Debug, PartialEq, Eq)]
pub enum SetDefaultAction {
    /// There are no templates to choose from.
    NoTemplates,
    /// Make this alias the default (if a template is called that).
    MakeDefault(String),
    /// Ask the user which of these aliases to make the default; the current
    /// default is shown first.
    Choose(Option<String>, Vec<String>),
}

/// The aliases are exactly the templates of `conf`, each once.
pub open spec fn lists_all_aliases(conf: &Config, aliases: Seq<String>) -> bool {
    &&& forall|k: Seq<char>|
        conf.templates@.dom().contains(k) <==> string_views(aliases).contains(k)
    &&& string_views(aliases).no_duplicates()
}

/// Decides what `template delete` does with the alias given, if any.
pub fn template_delete(conf: &Config, args: &TemplateArgs) -> (r: DeleteAction)
    ensures
        conf.templates@.dom().len() == 0 <==> r is NoTemplates,
        conf.templates@.dom().len() > 0 ==> match args.alias {
            Some(a) => if conf.templates@.dom().contains(a@) {
                r matches DeleteAction::Delete(v) && v@ == seq![a]
            } else {
                r == DeleteAction::UnknownAlias(a)
            },
            None => r matches DeleteAction::Choose(v) && lists_all_aliases(conf, v@),
        },
{
    if conf.templates.len() == 0 {
        return DeleteAction::NoTemplates;
    }
    match &args.alias {
        Some(alias) => {
            if !conf.templates.contains_key(alias.as_str()) {
                DeleteAction::UnknownAlias(alias.clone())
            } else {
                let mut v: Vec<String> = Vec::new();
                v.push(alias.clone());
                assert(v@ =~= seq![*alias]);
                DeleteAction::Delete(v)
            }
        },
        None => DeleteAction::Choose(conf.templates.keys()),
    }
}

/// Decides what `template set` does with the alias given, if any.
pub fn template_set_default(conf: &Config, args: &TemplateArgs) -> (r: SetDefaultAction)
    ensures
        conf.templates@.dom().len() == 0 <==> r is NoTemplates,
        conf.templates@.dom().len() > 0 ==> match args.alias {
            Some(a) => r == SetDefaultAction::MakeDefault(a),
            None => r matches SetDefaultAction::Choose(cur, v) && cur == conf.default
                && lists_all_aliases(conf, v@),
        },
{
    if conf.templates.len() == 0 {
        return SetDefaultAction::NoTemplates;
    }
    match &args.alias {
        Some(alias) => SetDefaultAction::MakeDefault(alias.clone()),
        None => SetDefaultAction::Choose(conf.default.clone(), conf.templates.keys()),
    }
}


/// What `gen` does next.
#[derive(Clone, Debug, PartialEq, Eq)]
pub enum GenAction {
    /// There are no templates to generate from.
    NoTemplates,
    /// Generate from the template with this alias.
    Generate(String),
    /// No alias was given and no default is set: ask which of these to use.
    NoDefault(Vec<String>),
}

/// Decides which template `gen` uses: the alias given, else the default,
/// else the user is asked.
pub fn gen_template_choice(conf: &Config, args: &TemplateArgs) -> (r: GenAction)
    ensures
        conf.templates@.dom().len() == 0 <==> r is NoTemplates,
        conf.templates@.dom().len() > 0 ==> match args.alias {
            Some(a) => r == GenAction::Generate(a),
            None => match conf.default {
                Some(d) => r == GenAction::Generate(d),
                None => r matches GenAction::NoDefault(v) && lists_all_aliases(conf, v@),
            },
        },
{
    if conf.templates.len() == 0 {
        return GenAction::NoTemplates;
    }
    match &args.alias {
        Some(alias) => GenAction::Generate(alias.clone()),
        None => match &conf.default {
            Some(d) => GenAction::Generate(d.clone()),
            None => GenAction::NoDefault(conf.templates.keys()),
        },
    }
}

/// The name `gen` gives its `i`-th candidate file: `<name><i>.<ext>`, where
/// the number is left out for the first candidate.
pub open spec fn generated_name(name: Seq<char>, i: nat, ext: Seq<char>) -> Seq<char> {
    name + (if i == 0 {
        Seq::<char>::empty()
    } else {
        decimal(i)
    }) + seq!['.'] + ext
}

/// The `i`-th candidate file name of `gen`.
pub fn generated_file_name(name: &str, i: usize, ext: &str) -> (r: String)
    ensures
        r@ == generated_name(name@, i as nat, ext@),
{
    let mut v = chars_of(name);
    if i > 0 {
        push_decimal(i, &mut v);
    }
    v.push('.');
    let e = chars_of(ext);
    crate::text::append_chars(&mut v, &e);
    assert(v@ =~= generated_name(name@, i as nat, ext@));
    string_from_chars(v.as_slice())
}

/// The `i`-th candidate file of `gen` in `dir`: `<dir>/<name><i>.<ext>`.
pub open spec fn candidate(dir: Seq<Seq<char>>, name: Seq<char>, ext: Seq<char>, i: nat) -> Seq<
    Seq<char>,
> {
    dir.push(generated_name(name, i, ext))
}

/// Asked about the `i`-th candidate, `taken` answered that it is taken.
pub open spec fn found_taken<F: Fn(&FsPath) -> bool>(
    taken: F,
    dir: Seq<Seq<char>>,
    name: Seq<char>,
    ext: Seq<char>,
    i: nat,
) -> bool {
    exists|q: FsPath| q@ == candidate(dir, name, ext, i) && call_ensures(taken, (&q,), true)
}

/// The least candidate `<dir>/<name><i>.<ext>` that `taken` says is free,
/// asking about the candidates in order from `i = 0` (the name without a
/// number); `None` when the counter runs out with every candidate taken.
pub fn first_free_path<F: Fn(&FsPath) -> bool>(
    dir: &FsPath,
    name: &str,
    ext: &str,
    taken: F,
) -> (r: Option<(FsPath, String)>)
    requires
        forall|q: &FsPath| call_requires(taken, (q,)),
    ensures
        match r {
            Some((p, f)) => exists|i: nat|
                i <= 0x7fff_ffff && f@ == generated_name(name@, i, ext@) && p@ == dir@.push(f@)
                    && call_ensures(taken, (&p,), false) && forall|j: nat|
                    j < i ==> #[trigger] found_taken(taken, dir@, name@, ext@, j),
            None => forall|j: nat|
                j <= 0x7fff_ffff ==> #[trigger] found_taken(taken, dir@, name@, ext@, j),
        },
{
    let mut i: usize = 0;
    while i <= 0x7fff_ffff
        invariant
            i <= 0x8000_0000,
            forall|q: &FsPath| call_requires(taken, (q,)),
            forall|j: nat| j < i ==> #[trigger] found_taken(taken, dir@, name@, ext@, j),
        decreases 0x8000_0000 - i,
    {
        let f = generated_file_name(name, i, ext);
        let p = dir.join(f.as_str());
        let t = taken(&p);
        if !t {
            assert(f@ == generated_name(name@, i as nat, ext@));
            return Some((p, f));
        }
        proof {
            assert(p@ == candidate(dir@, name@, ext@, i as nat));
            assert(call_ensures(taken, (&p,), true));
            assert(found_taken(taken, dir@, name@, ext@, i as nat));
        }
        i = i + 1;
    }
    None
}

/// The first candidate file `<dir>/<name><i>.<ext>` that does not exist yet,
/// trying `i = 0, 1, 2, ...` in order, with its file name; `None` if the
/// counter runs out. Which candidates exist is the disk's answer.
pub fn free_file_path(dir: &FsPath, name: &str, ext: &str) -> (r: Option<(FsPath, String)>)
    ensures
        match r {
            Some((p, f)) => exists|i: nat|
                i <= 0x7fff_ffff && f@ == generated_name(name@, i, ext@) && p@ == dir@.push(f@)
                    && call_ensures(path_taken, (&p,), false) && forall|j: nat|
                    j < i ==> #[trigger] found_taken(path_taken, dir@, name@, ext@, j),
            None => forall|j: nat|
                j <= 0x7fff_ffff ==> #[trigger] found_taken(path_taken, dir@, name@, ext@, j),
        },
{
    first_free_path(dir, name, ext, path_taken)
}

/// The extensions of the templates' files, in storage order, skipping
/// templates whose file has none.
pub open spec fn ext_list(s: Seq<(String, Template)>) -> Seq<Seq<char>>
    decreases s.len(),
{
    if s.len() == 0 {
        Seq::<Seq<char>>::empty()
    } else {
        let rest = ext_list(s.drop_last());
        match extension_of(s.last().1.path@) {
            Some(e) => rest.push(e),
            None => rest,
        }
    }
}

/// The extensions of the templates' files.
pub fn template_extensions(conf: &Config) -> (r: Vec<String>)
    ensures
        string_views(r@) == ext_list(conf.templates.entry_seq()),
{
    let entries = conf.templates.entries();
    let mut r: Vec<String> = Vec::new();
    let mut i: usize = 0;
    while i < entries.len()
        invariant
            i <= entries.len(),
            entries@ == conf.templates.entry_seq(),
            string_views(r@) == ext_list(entries@.take(i as int)),
        decreases entries.len() - i,
    {
        proof { assert(entries@.take(i + 1).drop_last() =~= entries@.take(i as int)); }
        match entries[i].1.path.extension() {
            Some(e) => {
                r.push(e);
                proof { assert(string_views(r@) =~= ext_list(entries@.take(i + 1))); }
            },
            None => {},
        }
        i = i + 1;
    }
    assert(entries@.take(entries.len() as int) =~= entries@);
    r
}

/// Does one of the strings have the characters `s`?
pub(crate) fn contains_string(v: &Vec<String>, s: &str) -> (r: bool)
    ensures
        r == string_views(v@).contains(s@),
{
    let mut i: usize = 0;
    while i < v.len()
        invariant
            i <= v.len(),
            forall|k: int| 0 <= k < i ==> v@[k]@ != s@,
        decreases v.len() - i,
    {
        if str_eq(v[i].as_str(), s) {
            assert(string_views(v@)[i as int] == s@);
            return true;
        }
        i = i + 1;
    }
    assert(!string_views(v@).contains(s@)) by {
        if string_views(v@).contains(s@) {
            let k = choose|k: int| 0 <= k < v@.len() && string_views(v@)[k] == s@;
            assert(v@[k]@ == s@);
        }
    }
    false
}

/// The names of the files whose extension is one of `exts`, in order.
pub open spec fn source_names(files: Seq<FsPath>, exts: Seq<Seq<char>>) -> Seq<Seq<char>>
    decreases files.len(),
{
    if files.len() == 0 {
        Seq::<Seq<char>>::empty()
    } else {
        let rest = source_names(files.drop_last(), exts);
        match (extension_of(files.last()@), file_name_of(files.last()@)) {
            (Some(e), Some(n)) => if exts.contains(e) {
                rest.push(n)
            } else {
                rest
            },
            _ => rest,
        }
    }
}

/// The files that a template could have made: those whose extension is one
/// of `exts`, by name.
pub fn source_files(files: &Vec<FsPath>, exts: &Vec<String>) -> (r: Vec<String>)
    ensures
        string_views(r@) == source_names(files@, string_views(exts@)),
{
    let mut r: Vec<String> = Vec::new();
    let mut i: usize = 0;
    while i < files.len()
        invariant
            i <= files.len(),
            string_views(r@) == source_names(files@.take(i as int), string_views(exts@)),
        decreases files.len() - i,
    {
        proof { assert(files@.take(i + 1).drop_last() =~= files@.take(i as int)); }
        match files[i].extension() {
            Some(e) => {
                if contains_string(exts, e.as_str()) {
                    match files[i].file_name() {
                        Some(n) => {
                            r.push(n);
                            proof {
                                assert(string_views(r@) =~= source_names(
                                    files@.take(i + 1),
                                    string_views(exts@),
                                ));
                            }
                        },
                        None => {},
                    }
                }
            },
            None => {},
        }
        i = i + 1;
    }
    assert(files@.take(files.len() as int) =~= files@);
    r
}

/// The stems of the files with extension `ext`, in order.
pub open spec fn stems_with(files: Seq<FsPath>, ext: Seq<char>) -> Seq<Seq<char>>
    decreases files.len(),
{
    if files.len() == 0 {
        Seq::<Seq<char>>::empty()
    } else {
        let rest = stems_with(files.drop_last(), ext);
        match (extension_of(files.last()@), stem_of(files.last()@)) {
            (Some(e), Some(n)) => if e == ext {
                rest.push(n)
            } else {
                rest
            },
            _ => rest,
        }
    }
}

/// The stems of the files whose extension is `ext`.
#[verifier::spinoff_prover]
#[verifier::rlimit(40)]
pub fn stems_with_extension(files: &Vec<FsPath>, ext: &str) -> (r: Vec<String>)
    ensures
        string_views(r@) == stems_with(files@, ext@),
{
    let mut r: Vec<String> = Vec::new();
    let mut i: usize = 0;
    while i < files.len()
        invariant
            i <= files.len(),
            string_views(r@) == stems_with(files@.take(i as int), ext@),
        decreases files.len() - i,
    {
        proof { assert(files@.take(i + 1).drop_last() =~= files@.take(i as int)); }
        match files[i].extension() {
            Some(e) => {
                if str_eq(e.as_str(), ext) {
                    match files[i].file_stem() {
                        Some(n) => {
                            r.push(n);
                            proof {
                                assert(string_views(r@) =~= stems_with(files@.take(i + 1), ext@));
                            }
                        },
                        None => {},
                    }
                }
            },
            None => {},
        }
        i = i + 1;
    }
    assert(files@.take(files.len() as int) =~= files@);
    r
}

/// The sample tests among `files`: the stems `s` with both `s.in` and
/// `s.out`, sorted.
pub fn sample_tests(files: &Vec<FsPath>) -> (r: Vec<String>)
    ensures
        sorted_strings(r@),
        forall|s: Seq<char>|
            string_views(r@).contains(s) <==> stems_with(files@, "in"@).contains(s)
                && stems_with(files@, "out"@).contains(s),
        stems_with(files@, "in"@).no_duplicates() ==> string_views(r@).no_duplicates(),
{
    let inputs = stems_with_extension(files, "in");
    let outputs = stems_with_extension(files, "out");
    let mut both: Vec<String> = Vec::new();
    let mut i: usize = 0;
    while i < inputs.len()
        invariant
            i <= inputs.len(),
            forall|s: Seq<char>|
                string_views(both@).contains(s) <==> string_views(inputs@).take(i as int).contains(s)
                    && string_views(outputs@).contains(s),
            string_views(inputs@).take(i as int).no_duplicates() ==> string_views(both@).no_duplicates(),
        decreases inputs.len() - i,
    {
        let ghost before = both@;
        if contains_string(&outputs, inputs[i].as_str()) {
            both.push(inputs[i].clone());
            proof {
                let t = string_views(inputs@).take(i + 1);
                if t.no_duplicates() {
                    let x = inputs@[i as int]@;
                    assert(string_views(inputs@).take(i as int).no_duplicates()) by {
                        assert forall|a: int, b: int|
                            0 <= a < i && 0 <= b < i && a != b implies string_views(inputs@).take(
                            i as int,
                        )[a] != string_views(inputs@).take(i as int)[b] by {
                            assert(t[a] == string_views(inputs@).take(i as int)[a]);
                            assert(t[b] == string_views(inputs@).take(i as int)[b]);
                        }
                    }
                    assert(!string_views(before).contains(x)) by {
                        if string_views(before).contains(x) {
                            assert(string_views(inputs@).take(i as int).contains(x));
                            let k = choose|k: int|
                                0 <= k < i && string_views(inputs@).take(i as int)[k] == x;
                            assert(t[k] == x && t[i as int] == x);
                        }
                    }
                    assert(string_views(both@) =~= string_views(before).push(x));
                    assert forall|a: int, b: int|
                        0 <= a < both@.len() && 0 <= b < both@.len() && a != b implies string_views(
                        both@,
                    )[a] != string_views(both@)[b] by {
                        if a < before.len() && b < before.len() {
                            assert(string_views(both@)[a] == string_views(before)[a]);
                            assert(string_views(both@)[b] == string_views(before)[b]);
                        } else if a < before.len() {
                            assert(string_views(both@)[a] == string_views(before)[a]);
                        } else if b < before.len() {
                            assert(string_views(both@)[b] == string_views(before)[b]);
                        }
                    }
                }
            }
        } else {
            proof {
                if string_views(inputs@).take(i + 1).no_duplicates() {
                    let t = string_views(inputs@).take(i + 1);
                    assert forall|a: int, b: int|
                        0 <= a < i && 0 <= b < i && a != b implies string_views(inputs@).take(
                        i as int,
                    )[a] != string_views(inputs@).take(i as int)[b] by {
                        assert(t[a] == string_views(inputs@).take(i as int)[a]);
                        assert(t[b] == string_views(inputs@).take(i as int)[b]);
                    }
                }
            }
        }
        proof {
            assert(string_views(inputs@).take(i + 1) =~= string_views(inputs@).take(i as int).push(
                inputs@[i as int]@,
            ));
            assert forall|s: Seq<char>|
                string_views(both@).contains(s) <==> string_views(inputs@).take(i + 1).contains(s)
                    && string_views(outputs@).contains(s) by {
                if string_views(both@).contains(s) && !string_views(before).contains(s) {
                    let k = choose|k: int| 0 <= k < both@.len() && string_views(both@)[k] == s;
                    if k < before.len() {
                        assert(both@[k] == before[k]);
                        assert(string_views(before)[k] == s);
                    }
                    assert(k == before.len());
                    assert(string_views(inputs@).take(i + 1)[i as int] == s);
                }
                if string_views(before).contains(s) {
                    let k = choose|k: int| 0 <= k < before.len() && string_views(before)[k] == s;
                    assert(string_views(both@)[k] == s);
                }
                if string_views(inputs@).take(i + 1).contains(s) && string_views(outputs@).contains(s) {
                    let k = choose|k: int| 0 <= k < i + 1 && #[trigger] string_views(inputs@).take(i + 1)[k] == s;
                    if k == i {
                        assert(string_views(both@)[both@.len() - 1] == s);
                    } else {
                        assert(string_views(inputs@).take(i as int)[k] == s);
                    }
                }
            }
        }
        i = i + 1;
    }
    assert(string_views(inputs@).take(inputs.len() as int) =~= string_views(inputs@));
    let ghost unsorted = both@;
    assert forall|s: Seq<char>|
        string_views(unsorted).contains(s) <==> string_views(inputs@).contains(s)
            && string_views(outputs@).contains(s) by {
        assert(string_views(inputs@).take(inputs.len() as int) == string_views(inputs@));
    }
    let r = sort_strings(both);
    proof {
        crate::text::lemma_multiset_map_views(r@, unsorted);
        if stems_with(files@, "in"@).no_duplicates() {
            assert(string_views(inputs@).take(inputs.len() as int) == string_views(inputs@));
            string_views(unsorted).lemma_multiset_has_no_duplicates();
            string_views(r@).lemma_multiset_has_no_duplicates_conv();
        }
        assert forall|s: Seq<char>| string_views(r@).contains(s) <==> string_views(unsorted).contains(s) by {
            broadcast use vstd::seq_lib::group_to_multiset_ensures;
            assert(string_views(r@).contains(s) <==> string_views(r@).to_multiset().count(s) > 0);
            assert(string_views(unsorted).contains(s) <==> string_views(unsorted).to_multiset().count(s) > 0);
        }
        assert(string_views(inputs@) == stems_with(files@, "in"@));
        assert(string_views(outputs@) == stems_with(files@, "out"@));
        assert forall|s: Seq<char>|
            string_views(r@).contains(s) <==> stems_with(files@, "in"@).contains(s)
                && stems_with(files@, "out"@).contains(s) by {
            assert(string_views(r@).contains(s) <==> string_views(unsorted).contains(s));
            assert(string_views(unsorted).contains(s) <==> string_views(inputs@).contains(s)
                && string_views(outputs@).contains(s));
        }
    }
    r
}


/// What to do with a list of candidates.
#[derive(Clone, Debug, PartialEq, Eq)]
pub enum Choice {
    /// There is none.
    Nothing,
    /// There is exactly this one.
    One(String),
    /// There are several: ask the user.
    Several(Vec<String>),
}

/// Nothing, the only candidate, or all of them to choose from.
pub fn choice_of(v: Vec<String>) -> (r: Choice)
    ensures
        v@.len() == 0 <==> r is Nothing,
        v@.len() == 1 ==> r == Choice::One(v@[0]),
        v@.len() > 1 ==> (r matches Choice::Several(w) && w@ == v@),
{
    if v.len() == 0 {
        Choice::Nothing
    } else if v.len() == 1 {
        let mut v = v;
        let only = v.pop().unwrap();
        Choice::One(only)
    } else {
        Choice::Several(v)
    }
}

/// The aliases of the templates whose file has extension `ext`, in storage
/// order.
pub open spec fn aliases_with_ext(s: Seq<(String, Template)>, ext: Seq<char>) -> Seq<Seq<char>>
    decreases s.len(),
{
    if s.len() == 0 {
        Seq::<Seq<char>>::empty()
    } else {
        let rest = aliases_with_ext(s.drop_last(), ext);
        if extension_of(s.last().1.path@) == Some(ext) {
            rest.push(s.last().0@)
        } else {
            rest
        }
    }
}

/// The templates that a source file with extension `ext` can belong to.
pub fn matching_templates(conf: &Config, ext: &str) -> (r: Vec<String>)
    ensures
        string_views(r@) == aliases_with_ext(conf.templates.entry_seq(), ext@),
{
    let entries = conf.templates.entries();
    let mut r: Vec<String> = Vec::new();
    let mut i: usize = 0;
    while i < entries.len()
        invariant
            i <= entries.len(),
            entries@ == conf.templates.entry_seq(),
            string_views(r@) == aliases_with_ext(entries@.take(i as int), ext@),
        decreases entries.len() - i,
    {
        proof {
            assert(entries@.take(i + 1).drop_last() =~= entries@.take(i as int));
        }
        let same = match entries[i].1.path.extension() {
            Some(e) => str_eq(e.as_str(), ext),
            None => false,
        };
        if same {
            r.push(entries[i].0.clone());
            proof {
                assert(string_views(r@) =~= aliases_with_ext(entries@.take(i + 1), ext@));
            }
        }
        i = i + 1;
    }
    assert(entries@.take(entries.len() as int) =~= entries@);
    r
}

/// What `test` does with the files of the working directory.
#[derive(Clone, Debug, PartialEq, Eq)]
pub enum TestPlan {
    /// No file has a template's extension.
    NoSources,
    /// No `.in` file has a matching `.out` file; the flag says whether there
    /// were `.in` or `.out` files at all.
    NoSamples(bool),
    /// Test one of these source files on these sample tests.
    Ready(Vec<String>, Vec<String>),
}

/// Decides what `test` does, from the files of the working directory and the
/// templates' extensions.
pub fn test_plan(files: &Vec<FsPath>, exts: &Vec<String>) -> (r: TestPlan)
    ensures
        source_names(files@, string_views(exts@)).len() == 0 <==> r is NoSources,
        r matches TestPlan::NoSamples(unpaired) ==> unpaired == (stems_with(files@, "in"@).len() > 0
            || stems_with(files@, "out"@).len() > 0),
        r matches TestPlan::Ready(sources, samples) ==> (string_views(sources@) == source_names(
            files@,
            string_views(exts@),
        ) && samples@.len() > 0 && sorted_strings(samples@) && forall|s: Seq<char>|
            string_views(samples@).contains(s) <==> stems_with(files@, "in"@).contains(s)
                && stems_with(files@, "out"@).contains(s)) && (stems_with(files@, "in"@).no_duplicates()
            ==> string_views(samples@).no_duplicates()),
        r is NoSamples ==> forall|s: Seq<char>|
            !(stems_with(files@, "in"@).contains(s) && stems_with(files@, "out"@).contains(s)),
{
    let sources = source_files(files, exts);
    if sources.len() == 0 {
        return TestPlan::NoSources;
    }
    let samples = sample_tests(files);
    if samples.len() == 0 {
        let inputs = stems_with_extension(files, "in");
        let outputs = stems_with_extension(files, "out");
        proof {
            assert forall|s: Seq<char>|
                !(stems_with(files@, "in"@).contains(s) && stems_with(files@, "out"@).contains(s)) by {
                if stems_with(files@, "in"@).contains(s) && stems_with(files@, "out"@).contains(s) {
                    assert(string_views(samples@).contains(s));
                }
            }
        }
        return TestPlan::NoSamples(inputs.len() > 0 || outputs.len() > 0);
    }
    TestPlan::Ready(sources, samples)
}

/// The stem and the extension of a source file's name, where it has both.
pub fn source_name_parts(source_file: &str) -> (r: Option<(String, String)>)
    ensures
        match r {
            Some((n, e)) => stem_of(parsed_path(source_file@)) == Some(n@) && extension_of(
                parsed_path(source_file@),
            ) == Some(e@),
            None => stem_of(parsed_path(source_file@)) is None || extension_of(
                parsed_path(source_file@),
            ) is None,
        },
{
    let p = path_from_str(source_file);
    match (p.file_stem(), p.extension()) {
        (Some(n), Some(e)) => Some((n, e)),
        _ => None,
    }
}

/// The directory of a problem inside its contest's directory: the problem
/// identifier, lower-cased.
pub fn problem_dir(contest_dir: &FsPath, problem_id: &str) -> (r: FsPath)
    ensures
        r@ == contest_dir@.push(lowercase(problem_id@)),
{
    let lower = to_lowercase(problem_id);
    contest_dir.join(lower.as_str())
}

/// The names of the files of the `i`-th sample test: `<i>.in` and `<i>.out`.
pub fn sample_file_names(i: usize) -> (r: (String, String))
    ensures
        r.0@ == decimal(i as nat) + ".in"@,
        r.1@ == decimal(i as nat) + ".out"@,
{
    let mut a: Vec<char> = Vec::new();
    push_decimal(i, &mut a);
    let mut b: Vec<char> = Vec::new();
    push_decimal(i, &mut b);
    crate::text::append_chars(&mut a, &chars_of(".in"));
    crate::text::append_chars(&mut b, &chars_of(".out"));
    (string_from_chars(a.as_slice()), string_from_chars(b.as_slice()))
}

/// The report on one parsed problem.
pub open spec fn parsed_report(problem_id: Seq<char>, count: nat) -> Seq<char> {
    "Problem "@ + problem_id + ": parsed "@ + decimal(count) + " sample testcase"@ + (if count
        == 1 {
        ""@
    } else {
        "s"@
    }) + "."@
}

/// `Problem <id>: parsed <count> sample testcase(s).`
pub fn parsed_message(problem_id: &str, count: usize) -> (r: String)
    ensures
        r@ == parsed_report(problem_id@, count as nat),
{
    let mut v = chars_of("Problem ");
    crate::text::append_chars(&mut v, &chars_of(problem_id));
    crate::text::append_chars(&mut v, &chars_of(": parsed "));
    push_decimal(count, &mut v);
    crate::text::append_chars(&mut v, &chars_of(" sample testcase"));
    if count != 1 {
        crate::text::append_chars(&mut v, &chars_of("s"));
    }
    crate::text::append_chars(&mut v, &chars_of("."));
    proof {
        reveal_strlit("");
    }
    assert(v@ =~= parsed_report(problem_id@, count as nat));
    string_from_chars(v.as_slice())
}

/// The directory where a contest's sample tests are stored:
/// `<root>/<type>/<contest id>`.
pub fn contest_dir(root: &FsPath, args: &ContestArgs) -> (r: FsPath)
    ensures
        r@ == root@.push(contest_type_name(flags_contest_type(args.contest, args.gym))).push(
            args.contest_id@,
        ),
{
    let t = args.contest_type();
    t.get_path(root).join(args.contest_id.as_str())
}


/// Why `gen` cannot pick a file to write.
#[derive(Clone, Copy, Debug, PartialEq, Eq, Structural)]
pub enum GenError {
    /// The working directory has no name to name the file after.
    NoName,
    /// The template's file has no extension.
    NoExtension,
    /// Every candidate name is taken.
    NoFreeName,
}

/// What to tell the user when `gen` cannot pick a file.
pub open spec fn gen_error_text(e: GenError) -> Seq<char> {
    match e {
        GenError::NoName => "Failed to deduce name from current directory."@,
        GenError::NoExtension => "Failed to decude extension from template path:"@,
        GenError::NoFreeName => "Failed to find a free file name."@,
    }
}

impl GenError {
    /// What to tell the user.
    pub fn message(&self) -> (r: String)
        ensures
            r@ == gen_error_text(*self),
    {
        match self {
            GenError::NoName => "Failed to deduce name from current directory.".to_owned(),
            GenError::NoExtension => "Failed to decude extension from template path:".to_owned(),
            GenError::NoFreeName => "Failed to find a free file name.".to_owned(),
        }
    }
}

/// The file `gen` writes from `template` in the directory `cwd`, with its file
/// name, where `taken` says which candidates are taken: named after the
/// directory, with the template's extension, and numbered with the least
/// number whose candidate is free (no number first).
pub fn gen_target_with<F: Fn(&FsPath) -> bool>(cwd: &FsPath, template: &Template, taken: F) -> (r:
    Result<(FsPath, String), GenError>)
    requires
        forall|q: &FsPath| call_requires(taken, (q,)),
    ensures
        r == Err::<(FsPath, String), GenError>(GenError::NoName) <==> file_name_of(cwd@) is None,
        r == Err::<(FsPath, String), GenError>(GenError::NoExtension) <==> (file_name_of(cwd@) is Some
            && extension_of(template.path@) is None),
        r == Err::<(FsPath, String), GenError>(GenError::NoFreeName) ==> forall|j: nat|
            j <= 0x7fff_ffff ==> #[trigger] found_taken(
                taken,
                cwd@,
                file_name_of(cwd@).unwrap(),
                extension_of(template.path@).unwrap(),
                j,
            ),
        r matches Ok((p, f)) ==> exists|i: nat|
            i <= 0x7fff_ffff && f@ == generated_name(
                file_name_of(cwd@).unwrap(),
                i,
                extension_of(template.path@).unwrap(),
            ) && p@ == cwd@.push(f@) && call_ensures(taken, (&p,), false) && forall|j: nat|
                j < i ==> #[trigger] found_taken(
                    taken,
                    cwd@,
                    file_name_of(cwd@).unwrap(),
                    extension_of(template.path@).unwrap(),
                    j,
                ),
{
    let name = match cwd.file_name() {
        Some(n) => n,
        None => return Err(GenError::NoName),
    };
    let ext = match template.path.extension() {
        Some(e) => e,
        None => return Err(GenError::NoExtension),
    };
    let ghost n = file_name_of(cwd@).unwrap();
    let ghost e = extension_of(template.path@).unwrap();
    assert(name@ == n && ext@ == e);
    match first_free_path(cwd, name.as_str(), ext.as_str(), taken) {
        Some(found) => {
            proof {
                let i = choose|i: nat|
                    i <= 0x7fff_ffff && found.1@ == generated_name(name@, i, ext@) && found.0@
                        == cwd@.push(found.1@) && call_ensures(taken, (&found.0,), false)
                        && forall|j: nat| j < i ==> #[trigger] found_taken(taken, cwd@, name@, ext@, j);
                assert(i <= 0x7fff_ffff && found.1@ == generated_name(n, i, e) && found.0@ == cwd@.push(
                    found.1@,
                ) && call_ensures(taken, (&found.0,), false) && forall|j: nat|
                    j < i ==> #[trigger] found_taken(taken, cwd@, n, e, j));
            }
            Ok(found)
        },
        None => Err(GenError::NoFreeName),
    }
}

/// The file `gen` writes from `template` in the directory `cwd`: named after
/// the directory, with the template's extension, numbered to avoid existing
/// files; with its file name. Which files exist is the disk's answer.
pub fn gen_target(cwd: &FsPath, template: &Template) -> (r: Result<(FsPath, String), GenError>)
    ensures
        r == Err::<(FsPath, String), GenError>(GenError::NoName) <==> file_name_of(cwd@) is None,
        r == Err::<(FsPath, String), GenError>(GenError::NoExtension) <==> (file_name_of(cwd@) is Some
            && extension_of(template.path@) is None),
        r == Err::<(FsPath, String), GenError>(GenError::NoFreeName) ==> forall|j: nat|
            j <= 0x7fff_ffff ==> #[trigger] found_taken(
                path_taken,
                cwd@,
                file_name_of(cwd@).unwrap(),
                extension_of(template.path@).unwrap(),
                j,
            ),
        r matches Ok((p, f)) ==> exists|i: nat|
            i <= 0x7fff_ffff && f@ == generated_name(
                file_name_of(cwd@).unwrap(),
                i,
                extension_of(template.path@).unwrap(),
            ) && p@ == cwd@.push(f@) && call_ensures(path_taken, (&p,), false) && forall|j: nat|
                j < i ==> #[trigger] found_taken(
                    path_taken,
                    cwd@,
                    file_name_of(cwd@).unwrap(),
                    extension_of(template.path@).unwrap(),
                    j,
                ),
{
    gen_target_with(cwd, template, path_taken)
}

/// The decimal form of a number is not empty and has no dot.
proof fn lemma_decimal_has_no_dot(n: nat)
    ensures
        decimal(n).len() >= 1,
        forall|k: int| 0 <= k < decimal(n).len() ==> decimal(n)[k] != '.',
    decreases n,
{
    if n >= 10 {
        lemma_decimal_has_no_dot(n / 10);
    }
}

/// The name `<number>.<ext>`, for an extension without dots, has that
/// number as its stem and that extension.
proof fn lemma_numbered_name(dir: Seq<Seq<char>>, n: nat, ext: Seq<char>)
    requires
        forall|k: int| 0 <= k < ext.len() ==> ext[k] != '.',
    ensures
        stem_of(dir.push(decimal(n) + seq!['.'] + ext)) == Some(decimal(n)),
        extension_of(dir.push(decimal(n) + seq!['.'] + ext)) == Some(ext),
{
    lemma_decimal_has_no_dot(n);
    let d = decimal(n);
    let name = d + seq!['.'] + ext;
    let l = d.len() as int;
    assert(name[l] == '.');
    assert(forall|j: int| l < j < name.len() ==> name[j] == ext[j - l - 1]);
    assert(exists|i: int| 0 <= i < name.len() && name[i] == '.');
    let c = choose|i: int|
        0 <= i < name.len() && name[i] == '.' && forall|j: int| i < j < name.len() ==> name[j] != '.';
    assert(0 <= l < name.len() && name[l] == '.' && forall|j: int| l < j < name.len() ==> name[j] != '.');
    if c < l {
        assert(name[c] == d[c]);
    }
    assert(c == l);
    assert(name.skip(l + 1) =~= ext);
    assert(name.take(l) =~= d);
    assert(name.len() >= 2);
    assert(name != seq!['/']);
    assert(name != seq!['.']);
    if name == seq!['.', '.'] {
        assert(name[0] == d[0]);
    }
    assert(dir.push(name).last() == name);
}

/// What `parse` writes for a sample test, `test` finds again: the files
/// `<i>.in` and `<i>.out` in any directory both have the stem `<i>`, and the
/// extensions `in` and `out`.
pub proof fn lemma_written_samples_are_found(dir: Seq<Seq<char>>, i: nat)
    ensures
        stem_of(dir.push(decimal(i) + ".in"@)) == Some(decimal(i)),
        extension_of(dir.push(decimal(i) + ".in"@)) == Some("in"@),
        stem_of(dir.push(decimal(i) + ".out"@)) == Some(decimal(i)),
        extension_of(dir.push(decimal(i) + ".out"@)) == Some("out"@),
{
    reveal_strlit(".in");
    reveal_strlit(".out");
    reveal_strlit("in");
    reveal_strlit("out");
    assert(decimal(i) + ".in"@ =~= decimal(i) + seq!['.'] + "in"@);
    assert(decimal(i) + ".out"@ =~= decimal(i) + seq!['.'] + "out"@);
    lemma_numbered_name(dir, i, "in"@);
    lemma_numbered_name(dir, i, "out"@);
}
} // verus!
