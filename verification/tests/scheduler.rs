use bangumiao::download::DownloadSource;
use bangumiao::rss::EpisodeInfo;
use bangumiao::scheduler::{
    initial_delay_secs, refresh_interval_minutes, scheduled_download, sleep_chunks, sleep_minutes,
    started_record, RefreshClock, ScheduleAction,
};

fn ep(torrent: &str, magnet: &str) -> EpisodeInfo {
    EpisodeInfo {
        title: "t".into(),
        torrent_url: torrent.into(),
        magnet_uri: magnet.into(),
        pub_date: String::new(),
        episode_number: None,
    }
}

#[test]
fn sleep_minutes_clamps_zero_to_one() {
    assert_eq!(sleep_minutes(0), 1);
    assert_eq!(sleep_minutes(15), 15);
}

#[test]
fn sleep_is_taken_in_ten_second_chunks() {
    assert_eq!(sleep_chunks(0), 6);
    assert_eq!(sleep_chunks(30), 180);
    assert_eq!(initial_delay_secs(0), 60);
    assert_eq!(initial_delay_secs(2), 120);
}

#[test]
fn refresh_interval_defaults_to_thirty() {
    assert_eq!(refresh_interval_minutes(&None), 30);
    assert_eq!(refresh_interval_minutes(&Some("45".to_string())), 45);
    assert_eq!(refresh_interval_minutes(&Some("+7".to_string())), 7);
    assert_eq!(refresh_interval_minutes(&Some("-5".to_string())), 30);
    assert_eq!(refresh_interval_minutes(&Some("abc".to_string())), 30);
    assert_eq!(refresh_interval_minutes(&Some("".to_string())), 30);
}

#[test]
fn scheduled_downloads_need_an_inserted_record() {
    let e = ep("http://x/a.torrent", "magnet:?b");
    match scheduled_download(Some("id1".into()), true, &e) {
        Some((id, DownloadSource::Torrent(u))) => {
            assert_eq!(id, "id1");
            assert_eq!(u, "http://x/a.torrent");
        }
        _ => panic!("expected a torrent download"),
    }
    assert!(scheduled_download(None, true, &e).is_none());
    assert!(scheduled_download(Some("id1".into()), false, &e).is_none());
    assert!(scheduled_download(Some("id1".into()), true, &ep("", "")).is_none());
    match scheduled_download(Some("id2".into()), true, &ep("", "magnet:?c")) {
        Some((_, DownloadSource::Magnet(u))) => assert_eq!(u, "magnet:?c"),
        _ => panic!("expected a magnet download"),
    }
}

#[test]
fn started_record_only_after_acceptance() {
    assert_eq!(started_record("e".into(), Ok("g".into())), Some(("e".to_string(), "g".to_string())));
    assert_eq!(started_record("e".into(), Err("no".into())), None);
}

#[test]
fn refresh_clock_waits_the_interval_between_refreshes() {
    let mut c = RefreshClock::new(2);
    assert!(matches!(c.next(), ScheduleAction::Sleep(120)));
    assert!(matches!(c.next(), ScheduleAction::Refresh));
    c.refreshed(0);
    let mut naps = 0;
    loop {
        match c.next() {
            ScheduleAction::Sleep(s) => {
                assert_eq!(s, 10);
                naps += 1;
            }
            ScheduleAction::Refresh => break,
        }
    }
    assert_eq!(naps, 6);
    c.refreshed(30);
    assert_eq!(c.due, 1800);
    assert_eq!(c.slept, 0);
}

