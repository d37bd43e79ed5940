use bangumiao::library::{
    group_library, group_title, is_video_extension, is_watched, nesting_error,
    subscription_title_for, EpisodeItem, LibraryEntry,
};

fn item(path: &str) -> EpisodeItem {
    EpisodeItem {
        file_path: path.into(),
        episode_number: None,
        episode_title: path.into(),
        downloaded: true,
        watched: false,
        file_name: path.into(),
    }
}

#[test]
fn video_extensions() {
    assert!(is_video_extension("mkv"));
    assert!(is_video_extension("MP4"));
    assert!(is_video_extension("ts"));
    assert!(!is_video_extension("torrent"));
    assert!(!is_video_extension("aria2"));
}

#[test]
fn nesting_limit() {
    assert!(nesting_error(64, "d").is_none());
    assert_eq!(nesting_error(65, "D:/x").as_deref(), Some("library directory nesting exceeds 64 levels near D:/x"));
}

#[test]
fn last_record_wins() {
    let recs = vec![("a".to_string(), true), ("b".to_string(), true), ("a".to_string(), false)];
    assert!(!is_watched(&recs, "a"));
    assert!(is_watched(&recs, "b"));
    assert!(!is_watched(&recs, "c"));
    let rows = vec![("p".to_string(), "S1".to_string()), ("p".to_string(), "S2".to_string())];
    assert_eq!(subscription_title_for(&rows, "p").as_deref(), Some("S2"));
    assert_eq!(subscription_title_for(&rows, "q"), None);
}

#[test]
fn group_title_precedence() {
    assert_eq!(group_title(Some("Sub"), Some("Folder"), "Parsed"), "Sub");
    assert_eq!(group_title(None, Some("Folder"), "Parsed"), "Folder");
    assert_eq!(group_title(None, Some("download"), "Parsed"), "Parsed");
    assert_eq!(group_title(None, Some("手动下载"), ""), "未分类");
    assert_eq!(group_title(None, Some("."), "P"), "P");
    assert_eq!(group_title(None, None, "P"), "未分类");
}

#[test]
fn library_groups_sorted_by_title() {
    let entries = vec![
        LibraryEntry { group_title: "B".into(), item: item("b1") },
        LibraryEntry { group_title: "A".into(), item: item("a1") },
        LibraryEntry { group_title: "B".into(), item: item("b2") },
        LibraryEntry { group_title: "Ab".into(), item: item("ab1") },
        LibraryEntry { group_title: "A".into(), item: item("a2") },
    ];
    let groups = group_library(entries);
    let titles: Vec<&str> = groups.iter().map(|g| g.title.as_str()).collect();
    assert_eq!(titles, vec!["A", "Ab", "B"]);
    let paths: Vec<Vec<&str>> = groups
        .iter()
        .map(|g| g.episodes.iter().map(|e| e.file_path.as_str()).collect())
        .collect();
    assert_eq!(paths, vec![vec!["a1", "a2"], vec!["ab1"], vec!["b1", "b2"]]);
    assert!(group_library(vec![]).is_empty());
}

#[test]
fn library_sort_matches_string_order() {
    let names = ["葬送", "Zeta", "alpha", "Alpha", "ä", "a", "", "未分类"];
    let entries: Vec<LibraryEntry> = names
        .iter()
        .map(|n| LibraryEntry { group_title: n.to_string(), item: item(n) })
        .collect();
    let groups = group_library(entries);
    let mut expected: Vec<String> = names.iter().map(|s| s.to_string()).collect();
    expected.sort();
    let got: Vec<String> = groups.iter().map(|g| g.title.clone()).collect();
    assert_eq!(got, expected);
}
