use bangumiao::episode_order::{episode_before, library_groups, sort_episodes};
use bangumiao::library::{EpisodeItem, LibraryEntry};

fn ep(path: &str, number: Option<&str>) -> EpisodeItem {
    EpisodeItem {
        file_path: path.into(),
        episode_number: number.map(|n| n.to_string()),
        episode_title: path.into(),
        downloaded: true,
        watched: false,
        file_name: path.into(),
    }
}

fn paths(v: &[EpisodeItem]) -> Vec<String> {
    v.iter().map(|e| e.file_path.clone()).collect()
}

#[test]
fn episodes_sort_by_numeric_value() {
    let v = vec![
        ep("e10", Some("10")),
        ep("e2", Some("02")),
        ep("none", None),
        ep("e12.5", Some("12.5")),
        ep("e12", Some("12")),
        ep("e1", Some("1")),
    ];
    let s = sort_episodes(v);
    assert_eq!(paths(&s), vec!["none", "e1", "e2", "e10", "e12", "e12.5"]);
}

#[test]
fn equal_numbers_keep_scan_order() {
    let v = vec![
        ep("b", Some("3")),
        ep("a", Some("03")),
        ep("c", Some("3.0")),
        ep("x", None),
        ep("y", None),
    ];
    let s = sort_episodes(v);
    assert_eq!(paths(&s), vec!["x", "y", "b", "a", "c"]);
}

#[test]
fn episode_order_compares_fractions_by_value() {
    assert!(episode_before(&ep("a", Some("1.05")), &ep("b", Some("1.5"))));
    assert!(!episode_before(&ep("a", Some("1.50")), &ep("b", Some("1.5"))));
    assert!(episode_before(&ep("a", Some("9")), &ep("b", Some("10"))));
    assert!(episode_before(&ep("a", None), &ep("b", Some("0"))));
    assert!(!episode_before(&ep("a", Some("0")), &ep("b", None)));
}

#[test]
fn shown_library_sorts_each_group() {
    let entries = vec![
        LibraryEntry { group_title: "B".into(), item: ep("b2", Some("2")) },
        LibraryEntry { group_title: "A".into(), item: ep("a10", Some("10")) },
        LibraryEntry { group_title: "B".into(), item: ep("b1", Some("1")) },
        LibraryEntry { group_title: "A".into(), item: ep("a9", Some("9")) },
    ];
    let g = library_groups(entries);
    assert_eq!(g.len(), 2);
    assert_eq!(g[0].title, "A");
    assert_eq!(paths(&g[0].episodes), vec!["a9", "a10"]);
    assert_eq!(g[1].title, "B");
    assert_eq!(paths(&g[1].episodes), vec!["b1", "b2"]);
}
