use bangumiao::download::{control_action, ControlAction};
use bangumiao::aria2::{Aria2File, DownloadStatus};
use bangumiao::download::{
    active_update, choose_download_source, clean_label, clean_summary, first_file_path,
    manual_download_dir, pending_groups, removal_plan, should_clean, start_outcome, start_source,
    start_unreachable_message, stopped_status, stopped_update, sync_leftovers, sync_log_line,
    torrent_input, torrent_leftovers, unreachable_message, BatchState, DownloadSource, PendingKey,
    RetryState, RetryStep, TorrentInput,
};

fn file(path: &str) -> Aria2File {
    Aria2File {
        path: path.into(),
        length: "0".into(),
        completed_length: "0".into(),
        selected: "true".into(),
        uris: vec![],
    }
}

fn status(gid: &str, st: &str, done: &str, total: &str, files: Vec<Aria2File>) -> DownloadStatus {
    DownloadStatus {
        gid: gid.into(),
        status: st.into(),
        total_length: total.into(),
        completed_length: done.into(),
        download_speed: "0".into(),
        files,
    }
}

#[test]
fn stopped_states_map_to_episode_states() {
    assert_eq!(stopped_status("complete").as_deref(), Some("completed"));
    assert_eq!(stopped_status("paused").as_deref(), Some("paused"));
    assert_eq!(stopped_status("error").as_deref(), Some("failed"));
    assert_eq!(stopped_status("removed").as_deref(), Some("failed"));
    assert_eq!(stopped_status("waiting"), None);
}

#[test]
fn active_downloads_report_progress() {
    let d = status("g", "active", "50", "200", vec![file("D:/a.mkv")]);
    let u = active_update(&d, "active").unwrap();
    assert_eq!((u.completed, u.total), (50, 200));
    assert_eq!(u.file_path, "D:/a.mkv");
    assert!(active_update(&d, "paused").is_none());
    let d = status("g", "active", "x", "", vec![]);
    let u = active_update(&d, "pending").unwrap();
    assert_eq!((u.completed, u.total), (0, 1));
    assert_eq!(u.file_path, "");
}

#[test]
fn stopped_metadata_is_skipped() {
    let d = status("g", "complete", "1", "1", vec![file("[METADATA]abc")]);
    assert!(stopped_update(&d).is_none());
    let d = status("g", "error", "1", "1", vec![file("D:/x.mkv")]);
    let u = stopped_update(&d).unwrap();
    assert_eq!(u.status.as_deref(), Some("failed"));
    assert_eq!(first_file_path(&d.files), "D:/x.mkv");
}

#[test]
fn leftovers_and_log() {
    assert_eq!(torrent_leftovers("D:/dl", "abc"), vec!["D:/dl/abc.torrent", "D:/dl/abc.torrent.aria2"]);
    assert!(sync_leftovers("", "abc").is_empty());
    assert_eq!(sync_leftovers("d", "g").len(), 2);
    assert_eq!(sync_log_line("Active", 3), "Active: 3 tasks\n");
    assert_eq!(unreachable_message(6800), "aria2 is not reachable on port 6800");
    assert_eq!(
        start_unreachable_message(6800),
        "aria2c (port 6800) is not reachable. Please wait a moment and retry."
    );
}

#[test]
fn removal_cleans_files_inside_base() {
    let p = removal_plan("g", "D:/dl/a.mkv", "D:/dl/a.torrent", "D:/dl", true);
    assert!(p.stop_in_aria2);
    assert_eq!(p.files_within_base, vec!["D:/dl/a.mkv", "D:/dl/a.mkv.aria2", "D:/dl/a.torrent"]);
    assert_eq!(p.leftovers, vec!["D:/dl/g.torrent", "D:/dl/g.torrent.aria2"]);
    let p = removal_plan("", "", "https://x/a.torrent", "D:/dl", false);
    assert!(!p.stop_in_aria2);
    assert!(p.files_within_base.is_empty());
    assert!(p.leftovers.is_empty());
}

#[test]
fn sources_prefer_torrents() {
    match choose_download_source("a.torrent", "magnet:x") {
        Some(DownloadSource::Torrent(t)) => assert_eq!(t, "a.torrent"),
        _ => panic!(),
    }
    assert!(choose_download_source("", "").is_none());
    assert_eq!(start_source("", "").err().as_deref(), Some("No torrent URL or magnet URI available"));
    assert_eq!(start_outcome(Ok("g".into())), Ok("g".to_string()));
    assert_eq!(start_outcome(Ok(String::new())), Err("aria2 returned empty GID".to_string()));
    assert_eq!(start_outcome(Err("boom".into())), Err("aria2 RPC failed: boom".to_string()));
}

#[test]
fn manual_torrent_inputs() {
    assert_eq!(manual_download_dir("D:/dl"), "D:/dl/手动下载");
    assert!(matches!(torrent_input("magnet:?x", false), TorrentInput::Magnet));
    assert!(matches!(torrent_input("C:/a.torrent", true), TorrentInput::LocalFile));
    assert!(matches!(torrent_input("C:/a.torrent", false), TorrentInput::Remote));
    assert!(matches!(torrent_input("https://x/1", true), TorrentInput::Remote));
}

#[test]
fn retries_give_up_after_five_attempts() {
    let mut st = RetryState::new();
    assert!(matches!(st.step(Err("e1".into())), RetryStep::Retry { pause: true }));
    assert!(matches!(st.step(Ok(String::new())), RetryStep::Retry { pause: false }));
    assert!(matches!(st.step(Err("e3".into())), RetryStep::Retry { pause: true }));
    assert!(matches!(st.step(Err("e4".into())), RetryStep::Retry { pause: true }));
    match st.step(Err("last".into())) {
        RetryStep::GiveUp(m) => assert_eq!(m, "Failed after 5 retries: last"),
        _ => panic!(),
    }
    let mut st = RetryState::new();
    assert!(matches!(st.step(Err("e".into())), RetryStep::Retry { .. }));
    match st.step(Ok("gid".into())) {
        RetryStep::Done(g) => assert_eq!(g, "gid"),
        _ => panic!(),
    }
}

#[test]
fn batch_reports_errors_only_when_nothing_started() {
    let mut b = BatchState::new();
    b.record_error("e1", "aria2 not reachable");
    assert_eq!(b.record_add_result("e2", Ok(String::new())), None);
    assert_eq!(b.record_add_result("e3", Err("boom".into())), None);
    assert_eq!(b.finish(), Err("e1: aria2 not reachable; e2: empty GID; e3: boom".to_string()));
    let mut b = BatchState::new();
    b.record_error("e1", "x");
    assert_eq!(b.record_add_result("e2", Ok("g2".into())), Some("g2".to_string()));
    assert_eq!(b.finish(), Ok(vec!["g2".to_string()]));
    assert_eq!(BatchState::new().finish(), Ok(vec![]));
}

fn key(t: Option<&str>, id: Option<&str>) -> PendingKey {
    PendingKey { subscription_title: t.map(String::from), subscription_id: id.map(String::from) }
}

#[test]
fn pending_episodes_group_by_runs() {
    let keys = vec![
        key(None, Some("m")),
        key(Some("A"), Some("a1")),
        key(Some("A"), None),
        key(Some("B"), Some("b")),
        key(Some("A"), Some("a2")),
    ];
    let g = pending_groups(&keys);
    let got: Vec<(String, String, usize, usize)> = g
        .iter()
        .map(|s| (s.subscription_title.clone(), s.subscription_id.clone(), s.start, s.end))
        .collect();
    assert_eq!(
        got,
        vec![
            ("".to_string(), "m".to_string(), 0, 1),
            ("A".to_string(), "a1".to_string(), 1, 3),
            ("B".to_string(), "b".to_string(), 3, 4),
            ("A".to_string(), "a2".to_string(), 4, 5),
        ]
    );
    assert!(pending_groups(&vec![]).is_empty());
}

#[test]
fn cleaning_spares_active_torrents() {
    let active = vec!["abc123".to_string()];
    assert!(!should_clean("abc123.torrent", &active));
    assert!(!should_clean("abc123.torrent.aria2", &active));
    assert!(should_clean("def456.torrent", &active));
    assert!(!should_clean("movie.mkv.aria2", &active));
    assert!(should_clean("movie.mkv.aria2", &vec![]));
    assert!(!should_clean("movie.mkv", &vec![]));
    assert_eq!(clean_label("dl", "x.torrent"), "dl/x.torrent");
    assert_eq!(clean_summary(&vec!["a/x".into(), "b/y".into()]), "Cleaned 2 files: a/x, b/y");
    assert_eq!(clean_summary(&vec![]), "Cleaned 0 files: ");
}

#[test]
fn pause_and_resume_need_aria2_only_with_a_gid() {
    assert!(matches!(control_action("", 6800, false), ControlAction::UpdateOnly));
    assert!(matches!(control_action("abc", 6800, true), ControlAction::CallAria2));
    match control_action("abc", 6801, false) {
        ControlAction::Refuse(m) => assert_eq!(m, "aria2 is not reachable on port 6801"),
        _ => panic!("expected a refusal"),
    }
}

