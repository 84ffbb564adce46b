//! The user's configuration: templates by alias, the default template and
//! the root directory for contests.
use vstd::prelude::*;
use crate::path::{FsPath, home_directory, path_taken};
use crate::text::{str_eq, string_views};

verus! {

/// The scripts run when testing a solution made from a template.
#[derive(Clone, Debug, PartialEq, Eq)]
pub struct TemplateScripts {
    pub before: Option<String>,
    pub execute: String,
    pub after: Option<String>,
}

/// A template: the language it is submitted in, the file it is copied from,
/// and how to run what is made from it.
#[derive(Clone, Debug, PartialEq, Eq)]
pub struct Template {
    pub lang_id: u8,
    pub path: FsPath,
    pub suffix: Vec<String>,
    pub scripts: TemplateScripts,
}

/// Details entered to log in.
#[derive(Clone, Debug, PartialEq, Eq)]
pub struct LoginDetails {
    pub handle_or_email: String,
    pub password: String,
    pub remember: bool,
}

/// No two entries share a key.
pub open spec fn keys_distinct(s: Seq<(String, Template)>) -> bool {
    forall|i: int, j: int| 0 <= i < j < s.len() ==> #[trigger] s[i].0@ != #[trigger] s[j].0@
}

/// The map that a list of entries stands for.
pub open spec fn entries_map(s: Seq<(String, Template)>) -> Map<Seq<char>, Template>
    decreases s.len(),
{
    if s.len() == 0 {
        Map::empty()
    } else {
        entries_map(s.drop_last()).insert(s.last().0@, s.last().1)
    }
}

/// The keys of a list of entries, in order.
pub open spec fn entry_keys(s: Seq<(String, Template)>) -> Seq<Seq<char>> {
    s.map_values(|e: (String, Template)| e.0@)
}

/// A key is in the map of entries exactly when some entry carries it, and
/// with distinct keys the map holds that entry's value.
pub proof fn lemma_entries_map(s: Seq<(String, Template)>)
    requires
        keys_distinct(s),
    ensures
        forall|k: Seq<char>|
            #[trigger] entries_map(s).dom().contains(k) <==> exists|i: int|
                0 <= i < s.len() && s[i].0@ == k,
        forall|i: int| 0 <= i < s.len() ==> #[trigger] entries_map(s)[s[i].0@] == s[i].1,
        entries_map(s).dom().finite(),
        entries_map(s).dom().len() == s.len(),
    decreases s.len(),
{
    if s.len() > 0 {
        let t = s.drop_last();
        lemma_entries_map(t);
        assert forall|k: Seq<char>| #[trigger] entries_map(s).dom().contains(k) <==> exists|i: int|
            0 <= i < s.len() && s[i].0@ == k by {
            if entries_map(s).dom().contains(k) && k != s.last().0@ {
                assert(entries_map(t).dom().contains(k));
                let i = choose|i: int| 0 <= i < t.len() && t[i].0@ == k;
                assert(s[i].0@ == k);
            }
            if exists|i: int| 0 <= i < s.len() && s[i].0@ == k {
                let i = choose|i: int| 0 <= i < s.len() && s[i].0@ == k;
                if i < s.len() - 1 {
                    assert(t[i].0@ == k);
                }
            }
        }
        assert forall|i: int| 0 <= i < s.len() implies #[trigger] entries_map(s)[s[i].0@]
            == s[i].1 by {
            if i < s.len() - 1 {
                assert(t[i] == s[i]);
                assert(s[i].0@ != s[s.len() - 1].0@);
            }
        }
        assert(!entries_map(t).dom().contains(s.last().0@)) by {
            if entries_map(t).dom().contains(s.last().0@) {
                let i = choose|i: int| 0 <= i < t.len() && t[i].0@ == s.last().0@;
                assert(s[i].0@ == s[s.len() - 1].0@);
            }
        }
    } else {
        assert(entries_map(s).dom() =~= Set::empty());
    }
}

/// The map of any list of entries has finitely many keys.
proof fn lemma_entries_map_finite(s: Seq<(String, Template)>)
    ensures
        entries_map(s).dom().finite(),
    decreases s.len(),
{
    if s.len() > 0 {
        lemma_entries_map_finite(s.drop_last());
    } else {
        assert(entries_map(s).dom() =~= Set::empty());
    }
}

/// Templates by alias; no alias occurs twice.
pub struct TemplateMap {
    entries: Vec<(String, Template)>,
}

impl TemplateMap {
    #[verifier::type_invariant]
    spec fn distinct(self) -> bool {
        keys_distinct(self.entries@)
    }

    /// The entries in storage order.
    pub closed spec fn entry_seq(self) -> Seq<(String, Template)> {
        self.entries@
    }
}

/// A template map holds finitely many templates.
pub proof fn lemma_templates_finite(m: TemplateMap)
    ensures
        m@.dom().finite(),
{
    lemma_entries_map_finite(m.entries@);
}

impl View for TemplateMap {
    type V = Map<Seq<char>, Template>;

    closed spec fn view(&self) -> Map<Seq<char>, Template> {
        entries_map(self.entries@)
    }
}

impl TemplateMap {
    /// An empty map.
    pub fn new() -> (r: Self)
        ensures
            r@ == Map::<Seq<char>, Template>::empty(),
    {
        let r = TemplateMap { entries: Vec::new() };
        assert(r@ =~= Map::<Seq<char>, Template>::empty());
        r
    }

    /// The number of templates.
    pub fn len(&self) -> (r: usize)
        ensures
            r == self@.dom().len(),
            self@.dom().finite(),
    {
        proof {
            use_type_invariant(&*self);
            lemma_entries_map(self.entries@);
        }
        self.entries.len()
    }

    /// Where the entry for `key` is stored, if any.
    fn position(&self, key: &str) -> (r: Option<usize>)
        ensures
            r matches Some(i) ==> i < self.entries@.len() && self.entries@[i as int].0@ == key@,
            r is None ==> forall|i: int|
                0 <= i < self.entries@.len() ==> self.entries@[i].0@ != key@,
    {
        let mut i: usize = 0;
        while i < self.entries.len()
            invariant
                i <= self.entries.len(),
                forall|k: int| 0 <= k < i ==> self.entries@[k].0@ != key@,
            decreases self.entries.len() - i,
        {
            if str_eq(self.entries[i].0.as_str(), key) {
                return Some(i);
            }
            i = i + 1;
        }
        None
    }

    /// Is there a template called `key`?
    pub fn contains_key(&self, key: &str) -> (r: bool)
        ensures
            r == self@.dom().contains(key@),
    {
        proof {
            use_type_invariant(&*self);
            lemma_entries_map(self.entries@);
        }
        self.position(key).is_some()
    }

    /// The template called `key`, if any.
    pub fn get(&self, key: &str) -> (r: Option<&Template>)
        ensures
            r matches Some(t) ==> self@.dom().contains(key@) && *t == self@[key@],
            r is None ==> !self@.dom().contains(key@),
    {
        proof {
            use_type_invariant(&*self);
            lemma_entries_map(self.entries@);
        }
        match self.position(key) {
            Some(i) => Some(&self.entries[i].1),
            None => None,
        }
    }

    /// The aliases, in storage order.
    pub fn keys(&self) -> (r: Vec<String>)
        ensures
            string_views(r@) == entry_keys(self.entry_seq()),
            forall|k: Seq<char>|
                self@.dom().contains(k) <==> string_views(r@).contains(k),
            string_views(r@).no_duplicates(),
    {
        proof {
            use_type_invariant(&*self);
            lemma_entries_map(self.entries@);
        }
        let mut r: Vec<String> = Vec::new();
        let mut i: usize = 0;
        while i < self.entries.len()
            invariant
                i <= self.entries.len(),
                r@.len() == i,
                forall|k: int| 0 <= k < i ==> #[trigger] r@[k]@ == self.entries@[k].0@,
            decreases self.entries.len() - i,
        {
            r.push(self.entries[i].0.clone());
            i = i + 1;
        }
        proof {
            assert(string_views(r@) =~= entry_keys(self.entry_seq()));
            assert forall|k: Seq<char>| self@.dom().contains(k) <==> r@.map_values(
                |s: String| s@,
            ).contains(k) by {
                if self@.dom().contains(k) {
                    let i = choose|i: int|
                        0 <= i < self.entry_seq().len() && self.entry_seq()[i].0@ == k;
                    assert(string_views(r@)[i] == k);
                }
                if string_views(r@).contains(k) {
                    let i = choose|i: int|
                        0 <= i < r@.len() && #[trigger] string_views(r@)[i] == k;
                    assert(self.entry_seq()[i].0@ == k);
                }
            }
        }
        r
    }

    /// The entries, in storage order.
    pub fn entries(&self) -> (r: &Vec<(String, Template)>)
        ensures
            r@ == self.entry_seq(),
            keys_distinct(r@),
            entries_map(r@) == self@,
    {
        proof {
            use_type_invariant(&*self);
        }
        &self.entries
    }

    /// Adds or replaces the template called `key`.
    pub fn insert(&mut self, key: String, value: Template)
        ensures
            final(self)@ == old(self)@.insert(key@, value),
    {
        proof {
            use_type_invariant(&*self);
            lemma_entries_map(self.entries@);
        }
        let ghost old_map = self@;
        let pos = self.position(key.as_str());
        let mut entries: Vec<(String, Template)> = Vec::new();
        std::mem::swap(&mut entries, &mut self.entries);
        let ghost old_entries = entries@;
        let ghost k = key@;
        match pos {
            Some(i) => {
                let _gone = entries.remove(i);
                entries.insert(i, (key, value));
                proof {
                    assert(entries@ =~= old_entries.update(i as int, entries@[i as int]));
                    assert forall|a: int, b: int| 0 <= a < b < entries@.len() implies #[trigger] entries@[a].0@
                        != #[trigger] entries@[b].0@ by {
                        assert(old_entries[a].0@ != old_entries[b].0@);
                    }
                    lemma_entries_map(entries@);
                    assert forall|x: Seq<char>| #[trigger] entries_map(entries@).dom().contains(x)
                        <==> old_map.insert(k, value).dom().contains(x) by {
                        if old_map.dom().contains(x) {
                            let j = choose|j: int| 0 <= j < old_entries.len() && old_entries[j].0@ == x;
                            if j != i {
                                assert(entries@[j].0@ == x);
                            }
                        }
                        if entries_map(entries@).dom().contains(x) {
                            let j = choose|j: int| 0 <= j < entries@.len() && entries@[j].0@ == x;
                            if j != i {
                                assert(old_entries[j].0@ == x);
                            }
                        }
                    }
                    assert forall|x: Seq<char>| #[trigger] entries_map(entries@).dom().contains(x)
                        implies entries_map(entries@)[x] == old_map.insert(k, value)[x] by {
                        let j = choose|j: int| 0 <= j < entries@.len() && entries@[j].0@ == x;
                        if j != i {
                            assert(old_entries[j] == entries@[j]);
                        }
                    }
                    assert(entries_map(entries@) =~= old_map.insert(k, value));
                }
            },
            None => {
                entries.push((key, value));
                proof {
                    assert(entries@.drop_last() =~= old_entries);
                    assert forall|a: int, b: int| 0 <= a < b < entries@.len() implies #[trigger] entries@[a].0@
                        != #[trigger] entries@[b].0@ by {
                        if b < old_entries.len() {
                            assert(old_entries[a].0@ != old_entries[b].0@);
                        }
                    }
                }
            },
        }
        self.entries = entries;
    }

    /// Removes the template called `key`, if there is one.
    pub fn remove(&mut self, key: &str)
        ensures
            final(self)@ == old(self)@.remove(key@),
    {
        proof {
            use_type_invariant(&*self);
            lemma_entries_map(self.entries@);
        }
        let ghost old_map = self@;
        let pos = self.position(key);
        match pos {
            Some(i) => {
                let mut entries: Vec<(String, Template)> = Vec::new();
                std::mem::swap(&mut entries, &mut self.entries);
                let ghost old_entries = entries@;
                let _gone = entries.remove(i);
                proof {
                    assert forall|a: int, b: int| 0 <= a < b < entries@.len() implies #[trigger] entries@[a].0@
                        != #[trigger] entries@[b].0@ by {
                        let a0 = if a < i { a } else { a + 1 };
                        let b0 = if b < i { b } else { b + 1 };
                        assert(entries@[a] == old_entries[a0]);
                        assert(entries@[b] == old_entries[b0]);
                        assert(old_entries[a0].0@ != old_entries[b0].0@);
                    }
                    lemma_entries_map(entries@);
                    assert forall|x: Seq<char>| #[trigger] entries_map(entries@).dom().contains(x)
                        <==> old_map.remove(key@).dom().contains(x) by {
                        if old_map.remove(key@).dom().contains(x) {
                            let j = choose|j: int| 0 <= j < old_entries.len() && old_entries[j].0@ == x;
                            assert(j != i);
                            let j1 = if j < i { j } else { j - 1 };
                            assert(entries@[j1] == old_entries[j]);
                        }
                        if entries_map(entries@).dom().contains(x) {
                            let j = choose|j: int| 0 <= j < entries@.len() && entries@[j].0@ == x;
                            let j0 = if j < i { j } else { j + 1 };
                            assert(entries@[j] == old_entries[j0]);
                            assert(old_entries[j0].0@ != old_entries[i as int].0@);
                        }
                    }
                    assert forall|x: Seq<char>| #[trigger] entries_map(entries@).dom().contains(x)
                        implies entries_map(entries@)[x] == old_map.remove(key@)[x] by {
                        let j = choose|j: int| 0 <= j < entries@.len() && entries@[j].0@ == x;
                        let j0 = if j < i { j } else { j + 1 };
                        assert(entries@[j] == old_entries[j0]);
                    }
                    assert(entries_map(entries@) =~= old_map.remove(key@));
                }
                self.entries = entries;
            },
            None => {
                proof {
                    assert(!old_map.dom().contains(key@));
                    assert(old_map.remove(key@) =~= old_map);
                }
            },
        }
    }
}


/// The user's configuration.
pub struct Config {
    pub templates: TemplateMap,
    pub default: Option<String>,
    pub cf_root: FsPath,
}

/// The default template, where one is set, is one of the templates.
pub open spec fn default_valid(c: &Config) -> bool {
    match c.default {
        Some(d) => c.templates@.dom().contains(d@),
        None => true,
    }
}

/// The aliases named in `aliases`, as a set of character sequences.
pub open spec fn alias_set(aliases: Seq<String>) -> Set<Seq<char>> {
    string_views(aliases).to_set()
}

impl Config {
    /// A fresh configuration: no templates, no default, and contests kept
    /// under `~/cf`. `None` where the home directory cannot be found.
    pub fn new() -> (r: Option<Self>)
        ensures
            exists|h: Option<FsPath>|
                call_ensures(home_directory, (), h) && match h {
                    Some(home) => r matches Some(c) && fresh_for(c, home@),
                    None => r is None,
                },
    {
        let h = home_directory();
        let r = match &h {
            Some(home) => Some(Self::with_home(home)),
            None => None,
        };
        assert(call_ensures(home_directory, (), h));
        r
    }

    /// A fresh configuration for the home directory `home`.
    pub fn with_home(home: &FsPath) -> (r: Self)
        ensures
            r.templates@ == Map::<Seq<char>, Template>::empty(),
            r.default is None,
            r.cf_root@ == home@.push("cf"@),
    {
        Config { templates: TemplateMap::new(), default: None, cf_root: home.join("cf") }
    }

    /// Makes `alias` the default template, if there is a template called
    /// that; reports whether it did.
    pub fn set_default(&mut self, alias: &str) -> (r: bool)
        ensures
            r == old(self).templates@.dom().contains(alias@),
            final(self).templates@ == old(self).templates@,
            final(self).cf_root == old(self).cf_root,
            r ==> (final(self).default matches Some(d) && d@ == alias@),
            !r ==> final(self).default == old(self).default,
            default_valid(old(self)) ==> default_valid(final(self)),
    {
        if self.templates.contains_key(alias) {
            self.default = Some(alias.to_owned());
            true
        } else {
            false
        }
    }

    /// Removes the templates named in `aliases`. The default is left as it
    /// is, even where it named one of them.
    pub fn delete_templates(&mut self, aliases: &Vec<String>)
        ensures
            final(self).templates@ == old(self).templates@.remove_keys(alias_set(aliases@)),
            final(self).default == old(self).default,
            final(self).cf_root == old(self).cf_root,
    {
        let ghost orig = self.templates@;
        let mut i: usize = 0;
        assert(orig.remove_keys(alias_set(aliases@.take(0))) =~= orig);
        while i < aliases.len()
            invariant
                i <= aliases.len(),
                self.templates@ == orig.remove_keys(alias_set(aliases@.take(i as int))),
                self.default == old(self).default,
                self.cf_root == old(self).cf_root,
            decreases aliases.len() - i,
        {
            self.templates.remove(aliases[i].as_str());
            proof {
                assert(aliases@.take(i + 1) =~= aliases@.take(i as int).push(aliases@[i as int]));
                assert(string_views(aliases@.take(i + 1)) =~= string_views(aliases@.take(i as int)).push(
                    aliases@[i as int]@,
                ));
                string_views(aliases@.take(i as int)).lemma_push_to_set_commute(aliases@[i as int]@);
                assert(alias_set(aliases@.take(i + 1)) =~= alias_set(aliases@.take(i as int)).insert(
                    aliases@[i as int]@,
                ));
                assert(self.templates@ =~= orig.remove_keys(alias_set(aliases@.take(i + 1))));
            }
            i = i + 1;
        }
        assert(aliases@.take(aliases.len() as int) =~= aliases@);
    }

    /// Whether adding a template asks the user about making it the default:
    /// only when a default is set already; with none, the new one becomes it.
    pub fn asks_for_default(&self) -> (r: bool)
        ensures
            r == self.default is Some,
    {
        self.default.is_some()
    }

    /// Adds (or replaces) the template `alias`. It becomes the default when
    /// no default is set yet, or when the user confirmed it (`confirmed`);
    /// otherwise the default stays.
    pub fn add_template(&mut self, alias: String, template: Template, confirmed: bool)
        ensures
            final(self).templates@ == old(self).templates@.insert(alias@, template),
            final(self).templates@.dom().contains(alias@),
            final(self).templates@[alias@] == template,
            (old(self).default is None || confirmed) ==> final(self).default == Some(alias),
            !(old(self).default is None || confirmed) ==> final(self).default == old(self).default,
            final(self).cf_root == old(self).cf_root,
            default_valid(old(self)) ==> default_valid(final(self)),
    {
        if self.default.is_none() || confirmed {
            self.default = Some(alias.clone());
        }
        self.templates.insert(alias, template);
    }
}


/// Where the configuration comes from.
pub enum ConfigSource {
    /// From the file where it is kept.
    Stored,
    /// A fresh configuration, to be saved where it is kept.
    Fresh(Config),
}

/// `c` is a fresh configuration for the home directory `home`.
pub open spec fn fresh_for(c: Config, home: Seq<Seq<char>>) -> bool {
    &&& c.templates@ == Map::<Seq<char>, Template>::empty()
    &&& c.default is None
    &&& c.cf_root@ == home.push("cf"@)
}

impl Config {
    /// Where the configuration comes from, given whether its file exists and
    /// the home directory, if known: the file if it exists, else a fresh
    /// configuration, which needs a home directory.
    pub fn source_for(exists: bool, home: &Option<FsPath>) -> (r: Option<ConfigSource>)
        ensures
            exists ==> r matches Some(ConfigSource::Stored),
            !exists ==> match home {
                Some(h) => r matches Some(ConfigSource::Fresh(c)) && fresh_for(c, h@),
                None => r is None,
            },
    {
        if exists {
            Some(ConfigSource::Stored)
        } else {
            match home {
                Some(h) => Some(ConfigSource::Fresh(Self::with_home(h))),
                None => None,
            }
        }
    }

    /// Decides where the configuration kept at `path` comes from: the file
    /// when it exists; otherwise a fresh configuration, which the caller saves
    /// at `path`. `None` when a fresh one is needed and there is no home
    /// directory.
    pub fn load_or_new(path: &FsPath) -> (r: Option<ConfigSource>)
        ensures
            exists|e: bool|
                call_ensures(path_taken, (path,), e) && (e ==> r matches Some(ConfigSource::Stored))
                    && (!e ==> exists|h: Option<FsPath>|
                    call_ensures(home_directory, (), h) && match h {
                        Some(home) => r matches Some(ConfigSource::Fresh(c)) && fresh_for(c, home@),
                        None => r is None,
                    }),
    {
        let exists = path_taken(path);
        if exists {
            return Self::source_for(exists, &None);
        }
        let home = home_directory();
        let r = Self::source_for(exists, &home);
        assert(call_ensures(home_directory, (), home));
        r
    }
}

/// Adding a template under a new alias and then deleting that alias leaves
/// the templates as they were.
pub proof fn lemma_add_then_delete(
    templates: Map<Seq<char>, Template>,
    alias: Seq<char>,
    template: Template,
)
    requires
        !templates.dom().contains(alias),
    ensures
        templates.insert(alias, template).remove_keys(set![alias]) == templates,
{
    assert(templates.insert(alias, template).remove_keys(set![alias]) =~= templates);
}
} // verus!
