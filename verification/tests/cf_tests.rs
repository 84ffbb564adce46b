use cf_tool::cf::{ContestInfo, ContestType, CustomColor, ProblemInfo, Title};
use cf_tool::path::FsPath;

fn path(parts: &[&str]) -> FsPath {
    FsPath { segments: parts.iter().map(|s| s.to_string()).collect() }
}

#[test]
fn contest_type_names_read_back() {
    assert_eq!(ContestType::Contest.to_string(), "contest");
    assert_eq!(ContestType::Gym.to_string(), "gym");
    assert_eq!(ContestType::from_str("contest"), Some(ContestType::Contest));
    assert_eq!(ContestType::from_str("gym"), Some(ContestType::Gym));
    assert_eq!(ContestType::from_str("Gym"), None);
    assert_eq!(ContestType::from_string(&"gym".to_string()), Some(ContestType::Gym));
    assert_eq!(ContestType::default(), ContestType::Contest);
}

#[test]
fn paths_under_the_root() {
    let root = path(&["/", "home", "u", "cf"]);
    assert_eq!(ContestType::Gym.get_path(&root), path(&["/", "home", "u", "cf", "gym"]));
    let contest = ContestInfo { typ: ContestType::Contest, id: "1976".to_string() };
    assert_eq!(contest.get_path(&root), path(&["/", "home", "u", "cf", "contest", "1976"]));
    let problem = ProblemInfo { contest, id: "a".to_string() };
    assert_eq!(problem.get_path(&root), path(&["/", "home", "u", "cf", "contest", "1976", "a"]));
}

#[test]
fn problem_path_is_read_back_when_it_is_the_same_file() {
    let root = path(&["/", "home", "u", "cf"]);
    let p = path(&["/", "home", "u", "cf", "gym", "105224", "b"]);
    let info = ProblemInfo::from_checked_path(&p, Some(true)).unwrap();
    assert_eq!(info.contest.typ, ContestType::Gym);
    assert_eq!(info.contest.id, "105224");
    assert_eq!(info.id, "b");
    assert_eq!(info.get_path(&root), p);
    assert!(ProblemInfo::from_checked_path(&p, Some(false)).is_none());
    assert!(ProblemInfo::from_checked_path(&p, None).is_none());
    let wrong_type = path(&["/", "home", "u", "cf", "blog", "105224", "b"]);
    assert!(ProblemInfo::from_checked_path(&wrong_type, Some(true)).is_none());
}

#[test]
fn contest_path_is_read_back() {
    let p = path(&["/", "cf", "contest", "2000"]);
    let info = ContestInfo::from_checked_path(&p, Some(true)).unwrap();
    assert_eq!(info.typ, ContestType::Contest);
    assert_eq!(info.id, "2000");
    assert_eq!(ContestType::from_checked_path(&path(&["/", "cf", "gym"]), Some(true)), Some(ContestType::Gym));
}

#[test]
fn titles_by_rating() {
    assert_eq!(Title::from_rating(None), Title::Unrated);
    assert_eq!(Title::from_rating(Some(0)), Title::Newbie);
    assert_eq!(Title::from_rating(Some(999)), Title::Newbie);
    assert_eq!(Title::from_rating(Some(1000)), Title::Pupil);
    assert_eq!(Title::from_rating(Some(1399)), Title::Apprentice);
    assert_eq!(Title::from_rating(Some(1400)), Title::Specialist);
    assert_eq!(Title::from_rating(Some(1600)), Title::Expert);
    assert_eq!(Title::from_rating(Some(1800)), Title::CandidateMaster);
    assert_eq!(Title::from_rating(Some(2000)), Title::Master);
    assert_eq!(Title::from_rating(Some(2200)), Title::InternationalMaster);
    assert_eq!(Title::from_rating(Some(2400)), Title::Grandmaster);
    assert_eq!(Title::from_rating(Some(2699)), Title::Grandmaster);
    assert_eq!(Title::from_rating(Some(2700)), Title::InternationalGrandmaster);
    assert_eq!(Title::from_rating(Some(3000)), Title::LegendaryGrandmaster);
    assert_eq!(Title::from_rating(Some(u16::MAX)), Title::LegendaryGrandmaster);
}

#[test]
fn higher_rating_never_lowers_the_title() {
    let order = [
        Title::Newbie, Title::Pupil, Title::Apprentice, Title::Specialist, Title::Expert,
        Title::CandidateMaster, Title::Master, Title::InternationalMaster, Title::Grandmaster,
        Title::InternationalGrandmaster, Title::LegendaryGrandmaster,
    ];
    let rank = |t: Title| order.iter().position(|x| *x == t).unwrap();
    let mut last = 0;
    for r in (0..4000u16).step_by(50) {
        let now = rank(Title::from_rating(Some(r)));
        assert!(now >= last);
        last = now;
    }
}

#[test]
fn title_colours() {
    assert_eq!(Title::Expert.to_customcolor(), CustomColor { r: 0, g: 0, b: 0 });
    assert_eq!(Title::Unrated.to_customcolor(), CustomColor { r: 0, g: 0, b: 0 });
}

#[test]
fn from_path_asks_about_the_root_joined_with_the_last_components() {
    let root = path(&["/", "home", "u", "cf"]);
    let p = path(&["/", "x", "contest", "1976", "a"]);
    let asked = std::cell::RefCell::new(Vec::new());
    let same = |a: &FsPath, b: &FsPath| {
        asked.borrow_mut().push((a.clone(), b.clone()));
        Some(true)
    };
    let info = ProblemInfo::from_path_with(&p, &root, same).unwrap();
    assert_eq!(info.id, "a");
    assert_eq!(asked.borrow().clone(), vec![(p.clone(), path(&["/", "home", "u", "cf", "contest", "1976", "a"]))]);
    let short = path(&["a", "b"]);
    assert!(ProblemInfo::from_path_with(&short, &root, |_: &FsPath, _: &FsPath| Some(true)).is_none());
    let c = ContestInfo::from_path_with(&path(&["/", "x", "gym", "7"]), &root, |_: &FsPath, b: &FsPath| {
        Some(b == &path(&["/", "home", "u", "cf", "gym", "7"]))
    });
    assert_eq!(c.unwrap().typ, ContestType::Gym);
    assert_eq!(
        ContestType::from_path_with(&path(&["/", "gym"]), &root, |_: &FsPath, _: &FsPath| None),
        None
    );
}
