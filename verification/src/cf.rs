//! Codeforces notions: contests, problems, titles and submissions.
use vstd::prelude::*;
use crate::path::{FsPath, names_same_file};
use crate::text::str_eq;

verus! {

/// The two kinds of contest the site hosts.
#[derive(Clone, Copy, Debug, PartialEq, Eq, Structural)]
pub enum ContestType {
    Contest,
    Gym,
}

/// The name of a contest type, as it appears in URLs and directory names.
pub open spec fn contest_type_name(t: ContestType) -> Seq<char> {
    match t {
        ContestType::Contest => "contest"@,
        ContestType::Gym => "gym"@,
    }
}

/// The contest type a name stands for, if any.
pub open spec fn contest_type_named(s: Seq<char>) -> Option<ContestType> {
    if s == "contest"@ {
        Some(ContestType::Contest)
    } else if s == "gym"@ {
        Some(ContestType::Gym)
    } else {
        None
    }
}

impl Default for ContestType {
    fn default() -> (r: Self)
        ensures
            r == ContestType::Contest,
    {
        ContestType::Contest
    }
}

impl ContestType {
    /// The name of the contest type: `"contest"` or `"gym"`.
    pub fn to_string(&self) -> (r: String)
        ensures
            r@ == contest_type_name(*self),
    {
        match self {
            ContestType::Contest => "contest".to_owned(),
            ContestType::Gym => "gym".to_owned(),
        }
    }

    /// The directory of this contest type under `root`.
    pub fn get_path(&self, root: &FsPath) -> (r: FsPath)
        ensures
            r@ == root@.push(contest_type_name(*self)),
    {
        let name = self.to_string();
        root.join(name.as_str())
    }

    /// Reads a contest type from its name.
    pub fn from_string(s: &String) -> (r: Option<Self>)
        ensures
            r == contest_type_named(s@),
    {
        Self::from_str(s.as_str())
    }

    /// Reads a contest type from its name: `"contest"` or `"gym"`.
    pub fn from_str(s: &str) -> (r: Option<Self>)
        ensures
            r == contest_type_named(s@),
    {
        if str_eq(s, "contest") {
            Some(ContestType::Contest)
        } else if str_eq(s, "gym") {
            Some(ContestType::Gym)
        } else {
            None
        }
    }
}


impl ContestType {
    /// The contest type of a directory `<root>/<type>`, where `same_file`
    /// answers whether two paths name the same file: the last component of
    /// `path` names the type, and `same_file` is asked whether `path` is
    /// `root` joined with that name. A path without components is no
    /// contest type, and nothing is asked.
    pub fn from_path_with<F: Fn(&FsPath, &FsPath) -> Option<bool>>(
        path: &FsPath,
        root: &FsPath,
        same_file: F,
    ) -> (r: Option<Self>)
        requires
            forall|a: &FsPath, b: &FsPath| call_requires(same_file, (a, b)),
        ensures
            path@.len() == 0 ==> r is None,
            path@.len() >= 1 ==> exists|t: FsPath, same: Option<bool>|
                t@ == root@.push(path@.last()) && call_ensures(same_file, (path, &t), same) && r == (
                if same == Some(true) {
                    contest_type_named(path@.last())
                } else {
                    None
                }),
    {
        let n: usize = path.segments.len();
        if n == 0 {
            return None;
        }
        let test_path = root.join(path.segments[n - 1].as_str());
        proof {
            assert(path@.last() == path.segments@[n - 1]@);
        }
        let same = same_file(path, &test_path);
        let r = Self::from_checked_path(path, same);
        assert(test_path@ == root@.push(path@.last()) && call_ensures(same_file, (path, &test_path), same));
        r
    }

    /// The contest type of a directory `<root>/<type>`: the last component of
    /// `path` names it, and `root` joined with that name must be the same
    /// directory on disk.
    pub fn from_path(path: &FsPath, root: &FsPath) -> (r: Option<Self>)
        ensures
            path@.len() == 0 ==> r is None,
            path@.len() >= 1 ==> exists|t: FsPath, same: Option<bool>|
                t@ == root@.push(path@.last()) && call_ensures(names_same_file, (path, &t), same)
                    && r == (if same == Some(true) {
                    contest_type_named(path@.last())
                } else {
                    None
                }),
    {
        Self::from_path_with(path, root, names_same_file)
    }

    /// What `from_path` decides once the disk has answered whether `path` is
    /// `<root>/<last component of path>`.
    pub fn from_checked_path(path: &FsPath, same_file: Option<bool>) -> (r: Option<Self>)
        ensures
            r == (if path@.len() >= 1 && same_file == Some(true) {
                contest_type_named(path@.last())
            } else {
                None
            }),
    {
        let n: usize = path.segments.len();
        if n == 0 {
            return None;
        }
        match same_file {
            Some(true) => {
                assert(path@.last() == path.segments@[n - 1]@);
                Self::from_str(path.segments[n - 1].as_str())
            },
            _ => None,
        }
    }
}

/// `r` is the contest read from the components `path` once the disk has
/// answered `same` (whether `path` is `<root>/<type>/<id>` for its last two
/// components): the contest there exactly when the answer is yes and the
/// type is known.
pub open spec fn contest_read(r: Option<ContestInfo>, path: Seq<Seq<char>>, same: Option<bool>) -> bool {
    &&& (r is Some <==> path.len() >= 2 && same == Some(true) && contest_type_named(
        path[path.len() - 2],
    ) is Some)
    &&& (r matches Some(c) ==> Some(c.typ) == contest_type_named(path[path.len() - 2]) && c.id@
        == path.last())
}

/// `r` is the problem read from the components `path` once the disk has
/// answered `same` (whether `path` is `<root>/<type>/<contest id>/<problem
/// id>` for its last three components).
pub open spec fn problem_read(r: Option<ProblemInfo>, path: Seq<Seq<char>>, same: Option<bool>) -> bool {
    &&& (r is Some <==> path.len() >= 3 && same == Some(true) && contest_type_named(
        path[path.len() - 3],
    ) is Some)
    &&& (r matches Some(p) ==> Some(p.contest.typ) == contest_type_named(path[path.len() - 3])
        && p.contest.id@ == path[path.len() - 2] && p.id@ == path.last())
}

/// A contest: its type and its identifier.
#[derive(Clone, Debug, PartialEq, Eq)]
pub struct ContestInfo {
    pub typ: ContestType,
    pub id: String,
}

impl ContestInfo {
    /// The contest of a directory `<root>/<type>/<id>`, where `same_file`
    /// answers whether two paths name the same file: it is asked whether
    /// `path` is `root` joined with the last two components of `path`. A path
    /// of fewer than two components is no contest, and nothing is asked.
    pub fn from_path_with<F: Fn(&FsPath, &FsPath) -> Option<bool>>(
        path: &FsPath,
        root: &FsPath,
        same_file: F,
    ) -> (r: Option<Self>)
        requires
            forall|a: &FsPath, b: &FsPath| call_requires(same_file, (a, b)),
        ensures
            path@.len() < 2 ==> r is None,
            path@.len() >= 2 ==> exists|t: FsPath, same: Option<bool>|
                t@ == root@.push(path@[path@.len() - 2]).push(path@.last()) && call_ensures(
                    same_file,
                    (path, &t),
                    same,
                ) && contest_read(r, path@, same),
    {
        let n: usize = path.segments.len();
        if n < 2 {
            return None;
        }
        let test_path = root.join(path.segments[n - 2].as_str()).join(
            path.segments[n - 1].as_str(),
        );
        proof {
            assert(path@[n - 2] == path.segments@[n - 2]@);
            assert(path@.last() == path.segments@[n - 1]@);
        }
        let same = same_file(path, &test_path);
        let r = Self::from_checked_path(path, same);
        assert(test_path@ == root@.push(path@[path@.len() - 2]).push(path@.last()) && call_ensures(
            same_file,
            (path, &test_path),
            same,
        ) && contest_read(r, path@, same));
        r
    }

    /// The contest of a directory `<root>/<type>/<id>`, checked on disk.
    pub fn from_path(path: &FsPath, root: &FsPath) -> (r: Option<Self>)
        ensures
            path@.len() < 2 ==> r is None,
            path@.len() >= 2 ==> exists|t: FsPath, same: Option<bool>|
                t@ == root@.push(path@[path@.len() - 2]).push(path@.last()) && call_ensures(
                    names_same_file,
                    (path, &t),
                    same,
                ) && contest_read(r, path@, same),
    {
        Self::from_path_with(path, root, names_same_file)
    }

    /// What `from_path` decides once the disk has answered whether `path` is
    /// `<root>/<type>/<id>` for its last two components.
    pub fn from_checked_path(path: &FsPath, same_file: Option<bool>) -> (r: Option<Self>)
        ensures
            contest_read(r, path@, same_file),
    {
        let n: usize = path.segments.len();
        if n < 2 {
            return None;
        }
        match same_file {
            Some(true) => {
                assert(path@[n - 2] == path.segments@[n - 2]@);
                assert(path@.last() == path.segments@[n - 1]@);
                match ContestType::from_str(path.segments[n - 2].as_str()) {
                    Some(typ) => Some(ContestInfo { typ, id: path.segments[n - 1].clone() }),
                    None => None,
                }
            },
            _ => None,
        }
    }

    /// The directory of this contest under `root`: `<root>/<type>/<id>`.
    pub fn get_path(&self, root: &FsPath) -> (r: FsPath)
        ensures
            r@ == root@.push(contest_type_name(self.typ)).push(self.id@),
    {
        self.typ.get_path(root).join(self.id.as_str())
    }
}

/// A problem: its contest and its identifier within the contest.
#[derive(Clone, Debug, PartialEq, Eq)]
pub struct ProblemInfo {
    pub contest: ContestInfo,
    pub id: String,
}

impl ProblemInfo {
    /// The problem of a directory `<root>/<type>/<contest id>/<problem id>`,
    /// where `same_file` answers whether two paths name the same file: it is
    /// asked whether `path` is `root` joined with the last three components
    /// of `path`. A path of fewer than three components is no problem, and
    /// nothing is asked.
    pub fn from_path_with<F: Fn(&FsPath, &FsPath) -> Option<bool>>(
        path: &FsPath,
        root: &FsPath,
        same_file: F,
    ) -> (r: Option<Self>)
        requires
            forall|a: &FsPath, b: &FsPath| call_requires(same_file, (a, b)),
        ensures
            path@.len() < 3 ==> r is None,
            path@.len() >= 3 ==> exists|t: FsPath, same: Option<bool>|
                t@ == root@.push(path@[path@.len() - 3]).push(path@[path@.len() - 2]).push(
                    path@.last(),
                ) && call_ensures(same_file, (path, &t), same) && problem_read(r, path@, same),
    {
        let n: usize = path.segments.len();
        if n < 3 {
            return None;
        }
        let test_path = root.join(path.segments[n - 3].as_str()).join(
            path.segments[n - 2].as_str(),
        ).join(path.segments[n - 1].as_str());
        proof {
            assert(path@[n - 3] == path.segments@[n - 3]@);
            assert(path@[n - 2] == path.segments@[n - 2]@);
            assert(path@.last() == path.segments@[n - 1]@);
        }
        let same = same_file(path, &test_path);
        let r = Self::from_checked_path(path, same);
        assert(test_path@ == root@.push(path@[path@.len() - 3]).push(path@[path@.len() - 2]).push(
            path@.last(),
        ) && call_ensures(same_file, (path, &test_path), same) && problem_read(r, path@, same));
        r
    }

    /// The problem of a directory `<root>/<type>/<contest id>/<problem id>`,
    /// checked on disk.
    pub fn from_path(path: &FsPath, root: &FsPath) -> (r: Option<Self>)
        ensures
            path@.len() < 3 ==> r is None,
            path@.len() >= 3 ==> exists|t: FsPath, same: Option<bool>|
                t@ == root@.push(path@[path@.len() - 3]).push(path@[path@.len() - 2]).push(
                    path@.last(),
                ) && call_ensures(names_same_file, (path, &t), same) && problem_read(r, path@, same),
    {
        Self::from_path_with(path, root, names_same_file)
    }

    /// What `from_path` decides once the disk has answered whether `path` is
    /// `<root>/<type>/<contest id>/<problem id>` for its last three components.
    pub fn from_checked_path(path: &FsPath, same_file: Option<bool>) -> (r: Option<Self>)
        ensures
            problem_read(r, path@, same_file),
    {
        let n: usize = path.segments.len();
        if n < 3 {
            return None;
        }
        match same_file {
            Some(true) => {
                assert(path@[n - 3] == path.segments@[n - 3]@);
                assert(path@[n - 2] == path.segments@[n - 2]@);
                assert(path@.last() == path.segments@[n - 1]@);
                match ContestType::from_str(path.segments[n - 3].as_str()) {
                    Some(typ) => Some(
                        ProblemInfo {
                            contest: ContestInfo { typ, id: path.segments[n - 2].clone() },
                            id: path.segments[n - 1].clone(),
                        },
                    ),
                    None => None,
                }
            },
            _ => None,
        }
    }

    /// The directory of this problem under `root`:
    /// `<root>/<type>/<contest id>/<problem id>`.
    pub fn get_path(&self, root: &FsPath) -> (r: FsPath)
        ensures
            r@ == root@.push(contest_type_name(self.contest.typ)).push(self.contest.id@).push(
                self.id@,
            ),
    {
        self.contest.get_path(root).join(self.id.as_str())
    }
}

/// A contest type's name reads back as that contest type.
pub proof fn lemma_contest_type_name_round_trip(t: ContestType)
    ensures
        contest_type_named(contest_type_name(t)) == Some(t),
{
    reveal_strlit("contest");
    reveal_strlit("gym");
    assert("contest"@.len() != "gym"@.len());
}

/// Law: the directory built for a problem is recognised as that problem once
/// the disk confirms it is the directory `root` leads to.
pub proof fn lemma_problem_path_round_trip(p: ProblemInfo, root: FsPath, path: FsPath)
    requires
        path@ == root@.push(contest_type_name(p.contest.typ)).push(p.contest.id@).push(p.id@),
    ensures
        ({
            let n = path@.len();
            &&& n >= 3
            &&& contest_type_named(path@[n - 3]) == Some(p.contest.typ)
            &&& path@[n - 2] == p.contest.id@
            &&& path@.last() == p.id@
        }),
{
    lemma_contest_type_name_round_trip(p.contest.typ);
}

/// Law: the directory built for a contest is recognised as that contest once
/// the disk confirms it is the directory `root` leads to.
pub proof fn lemma_contest_path_round_trip(c: ContestInfo, root: FsPath, path: FsPath)
    requires
        path@ == root@.push(contest_type_name(c.typ)).push(c.id@),
    ensures
        ({
            let n = path@.len();
            &&& n >= 2
            &&& contest_type_named(path@[n - 2]) == Some(c.typ)
            &&& path@.last() == c.id@
        }),
{
    lemma_contest_type_name_round_trip(c.typ);
}


/// A user's title, from the rating.
#[derive(Clone, Copy, Debug, PartialEq, Eq, Structural)]
pub enum Title {
    Unrated,
    Newbie,
    Pupil,
    Apprentice,
    Specialist,
    Expert,
    CandidateMaster,
    Master,
    InternationalMaster,
    Grandmaster,
    InternationalGrandmaster,
    LegendaryGrandmaster,
}

/// A colour given by its red, green and blue parts.
#[derive(Clone, Copy, Debug, PartialEq, Eq, Structural)]
pub struct CustomColor {
    pub r: u8,
    pub g: u8,
    pub b: u8,
}

/// The title a rating earns; no rating earns `Unrated`.
pub open spec fn title_for(rating: Option<u16>) -> Title {
    match rating {
        None => Title::Unrated,
        Some(r) => if r < 1000 {
            Title::Newbie
        } else if r < 1200 {
            Title::Pupil
        } else if r < 1400 {
            Title::Apprentice
        } else if r < 1600 {
            Title::Specialist
        } else if r < 1800 {
            Title::Expert
        } else if r < 2000 {
            Title::CandidateMaster
        } else if r < 2200 {
            Title::Master
        } else if r < 2400 {
            Title::InternationalMaster
        } else if r < 2700 {
            Title::Grandmaster
        } else if r < 3000 {
            Title::InternationalGrandmaster
        } else {
            Title::LegendaryGrandmaster
        },
    }
}

/// The rank of a title, from `Unrated` (0) up to `LegendaryGrandmaster` (11).
pub open spec fn title_rank(t: Title) -> int {
    match t {
        Title::Unrated => 0,
        Title::Newbie => 1,
        Title::Pupil => 2,
        Title::Apprentice => 3,
        Title::Specialist => 4,
        Title::Expert => 5,
        Title::CandidateMaster => 6,
        Title::Master => 7,
        Title::InternationalMaster => 8,
        Title::Grandmaster => 9,
        Title::InternationalGrandmaster => 10,
        Title::LegendaryGrandmaster => 11,
    }
}

impl Title {
    /// The colour a title is shown in.
    pub fn to_customcolor(&self) -> (r: CustomColor)
        ensures
            r == (CustomColor { r: 0, g: 0, b: 0 }),
    {
        match self {
            Title::Unrated => CustomColor { r: 0, g: 0, b: 0 },
            Title::Newbie => CustomColor { r: 0, g: 0, b: 0 },
            Title::Pupil => CustomColor { r: 0, g: 0, b: 0 },
            Title::Apprentice => CustomColor { r: 0, g: 0, b: 0 },
            Title::Specialist => CustomColor { r: 0, g: 0, b: 0 },
            Title::Expert => CustomColor { r: 0, g: 0, b: 0 },
            Title::CandidateMaster => CustomColor { r: 0, g: 0, b: 0 },
            Title::Master => CustomColor { r: 0, g: 0, b: 0 },
            Title::InternationalMaster => CustomColor { r: 0, g: 0, b: 0 },
            Title::Grandmaster => CustomColor { r: 0, g: 0, b: 0 },
            Title::InternationalGrandmaster => CustomColor { r: 0, g: 0, b: 0 },
            Title::LegendaryGrandmaster => CustomColor { r: 0, g: 0, b: 0 },
        }
    }

    /// The title that a rating earns.
    pub fn from_rating(rating: Option<u16>) -> (r: Self)
        ensures
            r == title_for(rating),
    {
        match rating {
            None => Title::Unrated,
            Some(rating) => if rating < 1000 {
                Title::Newbie
            } else if rating < 1200 {
                Title::Pupil
            } else if rating < 1400 {
                Title::Apprentice
            } else if rating < 1600 {
                Title::Specialist
            } else if rating < 1800 {
                Title::Expert
            } else if rating < 2000 {
                Title::CandidateMaster
            } else if rating < 2200 {
                Title::Master
            } else if rating < 2400 {
                Title::InternationalMaster
            } else if rating < 2700 {
                Title::Grandmaster
            } else if rating < 3000 {
                Title::InternationalGrandmaster
            } else {
                Title::LegendaryGrandmaster
            },
        }
    }
}

/// Law: a higher rating never earns a lower title.
pub proof fn lemma_title_monotone(a: u16, b: u16)
    requires
        a <= b,
    ensures
        title_rank(title_for(Some(a))) <= title_rank(title_for(Some(b))),
{
}

/// Law: exactly the users without a rating are `Unrated`.
pub proof fn lemma_unrated_iff_no_rating(rating: Option<u16>)
    ensures
        (title_for(rating) == Title::Unrated) <==> rating is None,
{
}

/// A user: handle and rating, if rated.
#[derive(Clone, Debug, PartialEq, Eq)]
pub struct UserInfo {
    pub handle: String,
    pub rating: Option<u16>,
}

/// One row of a submissions table.
#[derive(Clone, Debug, PartialEq, Eq)]
pub struct SubmissionInfo {
    pub id: String,
    pub when: String,
    pub who: String,
    pub problem: String,
    pub lang: String,
    pub verdict: String,
    pub time: String,
    pub memory: String,
}

} // verus!
