use bangumiao::settings::{
    default_auto_delete, default_close_to_tray, needs_aria2_restart, saved_settings,
    settings_from_stored, stored_max_concurrent, AppSettings, StoredSettings,
};

fn s(v: &str) -> Option<String> {
    Some(v.to_string())
}

#[test]
fn defaults_are_true() {
    assert!(default_auto_delete());
    assert!(default_close_to_tray());
}

#[test]
fn missing_settings_take_defaults() {
    let st = StoredSettings {
        download_dir: None,
        refresh_interval: None,
        aria2_port: None,
        max_concurrent_downloads: None,
        auto_delete_torrent: None,
        close_to_tray: None,
    };
    let a = settings_from_stored(&st);
    assert_eq!(a.download_dir, "");
    assert_eq!(a.refresh_interval, 30);
    assert_eq!(a.aria2_port, 6800);
    assert_eq!(a.max_concurrent_downloads, 3);
    assert!(a.auto_delete_torrent);
    assert!(a.close_to_tray);
}

#[test]
fn stored_settings_are_parsed() {
    let st = StoredSettings {
        download_dir: s("D:/anime"),
        refresh_interval: s("-15"),
        aria2_port: s("x"),
        max_concurrent_downloads: s("2147483648"),
        auto_delete_torrent: s("false"),
        close_to_tray: s("TRUE"),
    };
    let a = settings_from_stored(&st);
    assert_eq!(a.download_dir, "D:/anime");
    assert_eq!(a.refresh_interval, -15);
    assert_eq!(a.aria2_port, 6800);
    assert_eq!(a.max_concurrent_downloads, 3);
    assert!(!a.auto_delete_torrent);
    assert!(!a.close_to_tray);
}

#[test]
fn save_clamps_and_reads_back() {
    let a = AppSettings {
        download_dir: "D:/x".to_string(),
        refresh_interval: 0,
        aria2_port: 80,
        max_concurrent_downloads: 99,
        auto_delete_torrent: false,
        close_to_tray: true,
    };
    let saved = saved_settings(&a);
    assert_eq!(saved.refresh_interval, 1);
    assert_eq!(saved.aria2_port, 1024);
    assert_eq!(saved.max_concurrent_downloads, 10);
    assert_eq!(saved.refresh_interval_text, "1");
    assert_eq!(saved.aria2_port_text, "1024");
    assert_eq!(saved.max_concurrent_downloads_text, "10");
    assert_eq!(saved.auto_delete_torrent_text, "false");
    assert_eq!(saved.close_to_tray_text, "true");
    let back = settings_from_stored(&StoredSettings {
        download_dir: Some(saved.download_dir.clone()),
        refresh_interval: Some(saved.refresh_interval_text.clone()),
        aria2_port: Some(saved.aria2_port_text.clone()),
        max_concurrent_downloads: Some(saved.max_concurrent_downloads_text.clone()),
        auto_delete_torrent: Some(saved.auto_delete_torrent_text.clone()),
        close_to_tray: Some(saved.close_to_tray_text.clone()),
    });
    assert_eq!(back.download_dir, "D:/x");
    assert_eq!(back.refresh_interval, 1);
    assert_eq!(back.aria2_port, 1024);
    assert_eq!(back.max_concurrent_downloads, 10);
    assert!(!back.auto_delete_torrent);
    assert!(back.close_to_tray);
    let big = saved_settings(&AppSettings {
        download_dir: String::new(),
        refresh_interval: 5000,
        aria2_port: 70000,
        max_concurrent_downloads: 4,
        auto_delete_torrent: true,
        close_to_tray: false,
    });
    assert_eq!(big.refresh_interval_text, "1440");
    assert_eq!(big.aria2_port_text, "65535");
    assert_eq!(big.max_concurrent_downloads_text, "4");
}

#[test]
fn restart_and_old_limit() {
    assert_eq!(stored_max_concurrent(&None), 3);
    assert_eq!(stored_max_concurrent(&s("7")), 7);
    assert_eq!(stored_max_concurrent(&s("-1")), 3);
    assert!(!needs_aria2_restart(6800, 6800, false, 3, 3));
    assert!(needs_aria2_restart(6800, 6801, false, 3, 3));
    assert!(needs_aria2_restart(6800, 6800, true, 3, 3));
    assert!(needs_aria2_restart(6800, 6800, false, 3, 4));
}
