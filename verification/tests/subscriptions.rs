use bangumiao::download::DownloadSource;
use bangumiao::rss::EpisodeInfo;
use bangumiao::subscriptions::{
    added_subscription, is_refreshable, sanitize_dir_name, wipe_summary, RefreshState,
};

#[test]
fn sanitize_replaces_illegal_characters() {
    assert_eq!(sanitize_dir_name("Re:Zero / 2nd?"), "Re_Zero _ 2nd_");
    assert_eq!(sanitize_dir_name("  ..Title..  "), "Title");
    assert_eq!(sanitize_dir_name("..."), "untitled");
    assert_eq!(sanitize_dir_name(""), "untitled");
    assert_eq!(sanitize_dir_name("a\tb"), "a_b");
    assert_eq!(sanitize_dir_name("葬送的芙莉莲"), "葬送的芙莉莲");
}

#[test]
fn sanitize_keeps_a_safe_name() {
    let n = "Frieren S2";
    assert_eq!(sanitize_dir_name(n), n);
}

#[test]
fn refreshable_subscriptions() {
    assert!(is_refreshable("abc", "https://mikanani.me/RSS/Bangumi?bangumiId=1"));
    assert!(!is_refreshable("manual", "https://x"));
    assert!(!is_refreshable("abc", "manual://"));
}

#[test]
fn added_subscription_is_enabled() {
    let s = added_subscription(
        "id".into(),
        "T".into(),
        "u".into(),
        "m".into(),
        false,
        "2024".into(),
    );
    assert!(s.enabled);
    assert!(!s.auto_download);
    assert_eq!(s.cover_url, "");
}

fn ep(torrent: &str, magnet: &str) -> EpisodeInfo {
    EpisodeInfo {
        title: "t".into(),
        torrent_url: torrent.into(),
        magnet_uri: magnet.into(),
        pub_date: String::new(),
        episode_number: None,
    }
}

#[test]
fn refresh_counts_new_and_started() {
    let mut st = RefreshState::new(vec!["old".to_string()]);
    assert!(RefreshState::download_source(false, &ep("a", "b")).is_none());
    match RefreshState::download_source(true, &ep("", "magnet:x")) {
        Some(DownloadSource::Magnet(m)) => assert_eq!(m, "magnet:x"),
        _ => panic!(),
    }
    match RefreshState::download_source(true, &ep("a.torrent", "magnet:x")) {
        Some(DownloadSource::Torrent(t)) => assert_eq!(t, "a.torrent"),
        _ => panic!(),
    }
    assert_eq!(st.record_episode("e1", Some(Ok("gid1".into()))), Some("gid1".to_string()));
    assert_eq!(st.record_episode("e2", Some(Ok(String::new()))), Some(String::new()));
    assert_eq!(st.record_episode("e3", Some(Err("x".into()))), None);
    assert_eq!(st.record_episode("e4", None), None);
    let r = st.result();
    assert_eq!(r.new_episodes, 4);
    assert_eq!(r.started_downloads, 1);
    assert_eq!(st.known_titles, vec!["old", "e1", "e2", "e3", "e4"]);
}

#[test]
fn wipe_report() {
    assert_eq!(wipe_summary(3, 1), "Cleared 3 episodes and 1 subscriptions");
    assert_eq!(wipe_summary(0, -2), "Cleared 0 episodes and -2 subscriptions");
}
