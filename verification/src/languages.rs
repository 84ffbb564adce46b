//! The languages a solution can be submitted in, with the site's identifiers.
use vstd::prelude::*;
use crate::text::{sort_strings, sorted_strings, str_eq, string_views};

verus! {

/// Language names with the identifiers the site gives them.
pub struct Languages {
    pub id_map: Vec<(String, u8)>,
}

/// The entries of a language table as character sequences and identifiers.
pub open spec fn table_view(v: Seq<(String, u8)>) -> Seq<(Seq<char>, u8)> {
    v.map_values(|e: (String, u8)| (e.0@, e.1))
}

/// The languages the tool knows, in the order they are listed.
pub open spec fn known_languages() -> Seq<(Seq<char>, u8)> {
    seq![
        ("GNU GCC C11 5.1.0"@, 43u8),
        ("GNU G++14 6.4.0"@, 50u8),
        ("GNU G++17 7.3.0"@, 54u8),
        ("GNU G++20 13.2 (64 bit, winlibs)"@, 89u8),
        ("C# 8, .NET Core 3.1"@, 65u8),
        ("C# 10, .NET SDK 6.0"@, 79u8),
        ("C# Mono 6.8"@, 9u8),
        ("D DMD32 v2.105.0"@, 28u8),
        ("Go 1.22.2"@, 32u8),
        ("Haskell GHC 8.10.1"@, 12u8),
        ("Java 21 64bit"@, 87u8),
        ("Java 8 32bit"@, 36u8),
        ("Kotlin 1.7.20"@, 83u8),
        ("Kotlin 1.9.21"@, 88u8),
        ("OCaml 4.02.1"@, 19u8),
        ("Delphi 7"@, 3u8),
        ("Free Pascal 3.2.2"@, 4u8),
        ("PascalABC.NET 3.8.3"@, 51u8),
        ("Perl 5.20.1"@, 13u8),
        ("PHP 8.1.7"@, 6u8),
        ("Python 2.7.18"@, 7u8),
        ("Python 3.8.10"@, 31u8),
        ("PyPy 2.7.13 (7.3.0)"@, 40u8),
        ("PyPy 3.6.9 (7.3.0)"@, 41u8),
        ("PyPy 3.10 (7.3.15, 64bit)"@, 70u8),
        ("Ruby 3.2.2"@, 67u8),
    ]
}

/// No two entries of a table have the same name.
pub open spec fn names_distinct(t: Seq<(Seq<char>, u8)>) -> bool {
    forall|i: int, j: int| 0 <= i < j < t.len() ==> #[trigger] t[i].0 != #[trigger] t[j].0
}

/// A short summary of a name: its length, its first character and its
/// thirteenth character (a space where it is shorter).
pub open spec fn name_key(n: Seq<char>) -> (nat, char, char) {
    (n.len(), if n.len() > 0 { n[0] } else { ' ' }, if n.len() > 12 { n[12] } else { ' ' })
}

/// No entry of `t` has a name with the summary `k`.
pub open spec fn none_keyed(t: Seq<(Seq<char>, u8)>, k: (nat, char, char)) -> bool
    decreases t.len(),
{
    t.len() == 0 || (name_key(t[0].0) != k && none_keyed(t.drop_first(), k))
}

/// Each entry's name has a summary unlike those of the entries after it.
pub open spec fn keys_all_different(t: Seq<(Seq<char>, u8)>) -> bool
    decreases t.len(),
{
    t.len() == 0 || (none_keyed(t.drop_first(), name_key(t[0].0)) && keys_all_different(
        t.drop_first(),
    ))
}

proof fn lemma_none_keyed(t: Seq<(Seq<char>, u8)>, k: (nat, char, char))
    requires
        none_keyed(t, k),
    ensures
        forall|m: int| 0 <= m < t.len() ==> name_key(t[m].0) != k,
    decreases t.len(),
{
    if t.len() > 0 {
        lemma_none_keyed(t.drop_first(), k);
        assert forall|m: int| 0 <= m < t.len() implies name_key(t[m].0) != k by {
            if m > 0 {
                assert(t[m] == t.drop_first()[m - 1]);
            }
        }
    }
}

/// Names whose summaries all differ are all different.
proof fn lemma_keys_all_different(t: Seq<(Seq<char>, u8)>)
    requires
        keys_all_different(t),
    ensures
        names_distinct(t),
    decreases t.len(),
{
    if t.len() > 0 {
        let r = t.drop_first();
        lemma_keys_all_different(r);
        lemma_none_keyed(r, name_key(t[0].0));
        assert forall|i: int, j: int| 0 <= i < j < t.len() implies #[trigger] t[i].0 != #[trigger] t[j].0 by {
            assert(t[j] == r[j - 1]);
            if i > 0 {
                assert(t[i] == r[i - 1]);
            } else {
                assert(name_key(t[j].0) != name_key(t[0].0));
            }
        }
    }
}

/// The identifier the first entry named `name` carries, if any.
pub open spec fn lookup(t: Seq<(Seq<char>, u8)>, name: Seq<char>) -> Option<u8>
    decreases t.len(),
{
    if t.len() == 0 {
        None
    } else if t[0].0 == name {
        Some(t[0].1)
    } else {
        lookup(t.drop_first(), name)
    }
}

/// No two languages of the table share a name.
proof fn lemma_known_distinct()
    ensures
        names_distinct(known_languages()),
{
    reveal_strlit("GNU GCC C11 5.1.0");
    reveal_strlit("GNU G++14 6.4.0");
    reveal_strlit("GNU G++17 7.3.0");
    reveal_strlit("GNU G++20 13.2 (64 bit, winlibs)");
    reveal_strlit("C# 8, .NET Core 3.1");
    reveal_strlit("C# 10, .NET SDK 6.0");
    reveal_strlit("C# Mono 6.8");
    reveal_strlit("D DMD32 v2.105.0");
    reveal_strlit("Go 1.22.2");
    reveal_strlit("Haskell GHC 8.10.1");
    reveal_strlit("Java 21 64bit");
    reveal_strlit("Java 8 32bit");
    reveal_strlit("Kotlin 1.7.20");
    reveal_strlit("Kotlin 1.9.21");
    reveal_strlit("OCaml 4.02.1");
    reveal_strlit("Delphi 7");
    reveal_strlit("Free Pascal 3.2.2");
    reveal_strlit("PascalABC.NET 3.8.3");
    reveal_strlit("Perl 5.20.1");
    reveal_strlit("PHP 8.1.7");
    reveal_strlit("Python 2.7.18");
    reveal_strlit("Python 3.8.10");
    reveal_strlit("PyPy 2.7.13 (7.3.0)");
    reveal_strlit("PyPy 3.6.9 (7.3.0)");
    reveal_strlit("PyPy 3.10 (7.3.15, 64bit)");
    reveal_strlit("Ruby 3.2.2");
    reveal_with_fuel(keys_all_different, 27);
    reveal_with_fuel(none_keyed, 27);
    assert(keys_all_different(known_languages()));
    lemma_keys_all_different(known_languages());
}

/// With distinct names, looking up an entry's name finds that entry.
proof fn lemma_lookup_distinct(t: Seq<(Seq<char>, u8)>, i: int)
    requires
        names_distinct(t),
        0 <= i < t.len(),
    ensures
        lookup(t, t[i].0) == Some(t[i].1),
    decreases i,
{
    if i > 0 {
        assert(t[0].0 != t[i].0);
        let r = t.drop_first();
        assert forall|a: int, b: int| 0 <= a < b < r.len() implies #[trigger] r[a].0 != #[trigger] r[b].0 by {
            assert(r[a] == t[a + 1] && r[b] == t[b + 1]);
        }
        assert(r[i - 1] == t[i]);
        lemma_lookup_distinct(r, i - 1);
    }
}

/// The table gives every language the identifier the site uses for it.
pub proof fn lemma_language_ids()
    ensures
        lookup(known_languages(), "GNU GCC C11 5.1.0"@) == Some(43u8),
        lookup(known_languages(), "GNU G++14 6.4.0"@) == Some(50u8),
        lookup(known_languages(), "GNU G++17 7.3.0"@) == Some(54u8),
        lookup(known_languages(), "GNU G++20 13.2 (64 bit, winlibs)"@) == Some(89u8),
        lookup(known_languages(), "C# 8, .NET Core 3.1"@) == Some(65u8),
        lookup(known_languages(), "C# 10, .NET SDK 6.0"@) == Some(79u8),
        lookup(known_languages(), "C# Mono 6.8"@) == Some(9u8),
        lookup(known_languages(), "D DMD32 v2.105.0"@) == Some(28u8),
        lookup(known_languages(), "Go 1.22.2"@) == Some(32u8),
        lookup(known_languages(), "Haskell GHC 8.10.1"@) == Some(12u8),
        lookup(known_languages(), "Java 21 64bit"@) == Some(87u8),
        lookup(known_languages(), "Java 8 32bit"@) == Some(36u8),
        lookup(known_languages(), "Kotlin 1.7.20"@) == Some(83u8),
        lookup(known_languages(), "Kotlin 1.9.21"@) == Some(88u8),
        lookup(known_languages(), "OCaml 4.02.1"@) == Some(19u8),
        lookup(known_languages(), "Delphi 7"@) == Some(3u8),
        lookup(known_languages(), "Free Pascal 3.2.2"@) == Some(4u8),
        lookup(known_languages(), "PascalABC.NET 3.8.3"@) == Some(51u8),
        lookup(known_languages(), "Perl 5.20.1"@) == Some(13u8),
        lookup(known_languages(), "PHP 8.1.7"@) == Some(6u8),
        lookup(known_languages(), "Python 2.7.18"@) == Some(7u8),
        lookup(known_languages(), "Python 3.8.10"@) == Some(31u8),
        lookup(known_languages(), "PyPy 2.7.13 (7.3.0)"@) == Some(40u8),
        lookup(known_languages(), "PyPy 3.6.9 (7.3.0)"@) == Some(41u8),
        lookup(known_languages(), "PyPy 3.10 (7.3.15, 64bit)"@) == Some(70u8),
        lookup(known_languages(), "Ruby 3.2.2"@) == Some(67u8),
{
    lemma_known_distinct();
    lemma_lookup_distinct(known_languages(), 0);
    lemma_lookup_distinct(known_languages(), 1);
    lemma_lookup_distinct(known_languages(), 2);
    lemma_lookup_distinct(known_languages(), 3);
    lemma_lookup_distinct(known_languages(), 4);
    lemma_lookup_distinct(known_languages(), 5);
    lemma_lookup_distinct(known_languages(), 6);
    lemma_lookup_distinct(known_languages(), 7);
    lemma_lookup_distinct(known_languages(), 8);
    lemma_lookup_distinct(known_languages(), 9);
    lemma_lookup_distinct(known_languages(), 10);
    lemma_lookup_distinct(known_languages(), 11);
    lemma_lookup_distinct(known_languages(), 12);
    lemma_lookup_distinct(known_languages(), 13);
    lemma_lookup_distinct(known_languages(), 14);
    lemma_lookup_distinct(known_languages(), 15);
    lemma_lookup_distinct(known_languages(), 16);
    lemma_lookup_distinct(known_languages(), 17);
    lemma_lookup_distinct(known_languages(), 18);
    lemma_lookup_distinct(known_languages(), 19);
    lemma_lookup_distinct(known_languages(), 20);
    lemma_lookup_distinct(known_languages(), 21);
    lemma_lookup_distinct(known_languages(), 22);
    lemma_lookup_distinct(known_languages(), 23);
    lemma_lookup_distinct(known_languages(), 24);
    lemma_lookup_distinct(known_languages(), 25);
}

impl Default for Languages {
    fn default() -> (r: Self)
        ensures
            table_view(r.id_map@) == known_languages(),
            names_distinct(table_view(r.id_map@)),
    {
        let mut id_map: Vec<(String, u8)> = Vec::new();
        id_map.push(("GNU GCC C11 5.1.0".to_owned(), 43));
        id_map.push(("GNU G++14 6.4.0".to_owned(), 50));
        id_map.push(("GNU G++17 7.3.0".to_owned(), 54));
        id_map.push(("GNU G++20 13.2 (64 bit, winlibs)".to_owned(), 89));
        id_map.push(("C# 8, .NET Core 3.1".to_owned(), 65));
        id_map.push(("C# 10, .NET SDK 6.0".to_owned(), 79));
        id_map.push(("C# Mono 6.8".to_owned(), 9));
        id_map.push(("D DMD32 v2.105.0".to_owned(), 28));
        id_map.push(("Go 1.22.2".to_owned(), 32));
        id_map.push(("Haskell GHC 8.10.1".to_owned(), 12));
        id_map.push(("Java 21 64bit".to_owned(), 87));
        id_map.push(("Java 8 32bit".to_owned(), 36));
        id_map.push(("Kotlin 1.7.20".to_owned(), 83));
        id_map.push(("Kotlin 1.9.21".to_owned(), 88));
        id_map.push(("OCaml 4.02.1".to_owned(), 19));
        id_map.push(("Delphi 7".to_owned(), 3));
        id_map.push(("Free Pascal 3.2.2".to_owned(), 4));
        id_map.push(("PascalABC.NET 3.8.3".to_owned(), 51));
        id_map.push(("Perl 5.20.1".to_owned(), 13));
        id_map.push(("PHP 8.1.7".to_owned(), 6));
        id_map.push(("Python 2.7.18".to_owned(), 7));
        id_map.push(("Python 3.8.10".to_owned(), 31));
        id_map.push(("PyPy 2.7.13 (7.3.0)".to_owned(), 40));
        id_map.push(("PyPy 3.6.9 (7.3.0)".to_owned(), 41));
        id_map.push(("PyPy 3.10 (7.3.15, 64bit)".to_owned(), 70));
        id_map.push(("Ruby 3.2.2".to_owned(), 67));
        assert(table_view(id_map@) =~= known_languages());
        proof {
            lemma_known_distinct();
        }
        Languages { id_map }
    }
}

impl Languages {
    /// The identifier of the language called `name`, if it is known.
    pub fn get(&self, name: &str) -> (r: Option<u8>)
        ensures
            r == lookup(table_view(self.id_map@), name@),
    {
        let mut i: usize = 0;
        assert(table_view(self.id_map@).skip(0) =~= table_view(self.id_map@));
        while i < self.id_map.len()
            invariant
                i <= self.id_map.len(),
                lookup(table_view(self.id_map@), name@) == lookup(
                    table_view(self.id_map@).skip(i as int),
                    name@,
                ),
            decreases self.id_map.len() - i,
        {
            proof {
                assert(table_view(self.id_map@).skip(i as int).drop_first() =~= table_view(
                    self.id_map@,
                ).skip(i + 1));
            }
            if str_eq(self.id_map[i].0.as_str(), name) {
                return Some(self.id_map[i].1);
            }
            i = i + 1;
        }
        None
    }

    /// The language names in lexicographic order, as offered for choosing.
    pub fn sorted_names(&self) -> (r: Vec<String>)
        ensures
            sorted_strings(r@),
            string_views(r@).to_multiset() == self.id_map@.map_values(
                |e: (String, u8)| e.0@,
            ).to_multiset(),
    {
        let mut names: Vec<String> = Vec::new();
        let mut i: usize = 0;
        while i < self.id_map.len()
            invariant
                i <= self.id_map.len(),
                names@.len() == i,
                forall|k: int| 0 <= k < i ==> #[trigger] names@[k]@ == self.id_map@[k].0@,
            decreases self.id_map.len() - i,
        {
            names.push(self.id_map[i].0.clone());
            i = i + 1;
        }
        let ghost before = names@;
        let r = sort_strings(names);
        proof {
            assert(string_views(before) =~= self.id_map@.map_values(
                |e: (String, u8)| e.0@,
            ));
            crate::text::lemma_multiset_map_views(r@, before);
        }
        r
    }
}

} // verus!
