use bangumiao::app_state::{
    close_to_tray_on_exit, default_download_dir, resolve_download_dir, setting_u16, tray_action,
    AppState, StartupWait, TrayAction, WaitStep,
};
use bangumiao::db::{column_of_flag, flag_column, inserted_episode, new_episode_status, stored_gid};
use bangumiao::feedback::{feedback_body, feedback_mailto};

#[test]
fn download_dir_resolution() {
    let d = default_download_dir("/home/u/bangumiao/src-tauri");
    assert!(d.ends_with("download"));
    assert!(d == "/home/u/bangumiao/download" || d == "/home/u/bangumiao\\download");
    assert_eq!(default_download_dir("/src"), "/download");
    assert_eq!(default_download_dir("src"), "download");
    assert!(default_download_dir("C:/work/app/src").ends_with("download"));
    assert_eq!(resolve_download_dir(&Some("D:/anime".into()), "/x/y"), "D:/anime");
    assert!(resolve_download_dir(&Some(String::new()), "/x/y").ends_with("download"));
    assert!(resolve_download_dir(&None, "/x/y").ends_with("download"));
}

#[test]
fn startup_state() {
    let s = AppState::new("app".into(), "aria2c".into(), &Some("D:/dl".into()), &Some("6900".into()), "/m/src");
    assert_eq!(s.base_download_dir, "D:/dl");
    assert_eq!(s.aria2.port(), 6900);
    let s = AppState::new("app".into(), "aria2c".into(), &None, &Some("99999".into()), "/m/src");
    assert_eq!(s.aria2.port(), 6800);
    assert_eq!(setting_u16(&Some("3".into()), 5), 3);
    assert_eq!(setting_u16(&None, 5), 5);
}

#[test]
fn tray_and_close() {
    assert!(close_to_tray_on_exit(&None));
    assert!(close_to_tray_on_exit(&Some("true".into())));
    assert!(!close_to_tray_on_exit(&Some("false".into())));
    assert!(matches!(tray_action("show"), TrayAction::Show));
    assert!(matches!(tray_action("quit"), TrayAction::Quit));
    assert!(matches!(tray_action("other"), TrayAction::Ignore));
}

#[test]
fn episode_records() {
    assert_eq!(new_episode_status(None), "pending");
    assert_eq!(new_episode_status(Some("")), "pending");
    assert_eq!(new_episode_status(Some("g")), "active");
    assert_eq!(stored_gid(None), "");
    assert_eq!(stored_gid(Some("g")), "g");
    assert_eq!(inserted_episode(0, "id".into()), None);
    assert_eq!(inserted_episode(1, "id".into()), Some("id".to_string()));
    assert!(flag_column(2));
    assert!(!flag_column(0));
    assert_eq!(column_of_flag(true), 1);
    assert_eq!(column_of_flag(false), 0);
}

#[test]
fn feedback_mail() {
    let body = feedback_body("me", "broken", "");
    assert_eq!(body, "来自: me\n\n问题描述:\nbroken\n\n---\n请在此补充任何有助于定位问题的信息。\n");
    let body = feedback_body("me", "d", "log");
    assert_eq!(body, "来自: me\n\n问题描述:\nd\n\n--- 日志/错误信息 ---\nlog\n\n---\n请在此补充任何有助于定位问题的信息。\n");
    let m = feedback_mailto("a", "b", "");
    assert!(m.starts_with("mailto:eastz@pku.edu.cn?subject=%5Bbangumiao%20Bug%E5%8F%8D%E9%A6%88%5D&body="));
    assert!(m.ends_with("%E3%80%82%0A"));
}

#[test]
fn startup_waits_forty_checks_for_aria2() {
    let mut w = StartupWait::new();
    assert!(matches!(w.after_check(true), WaitStep::Ready));
    assert_eq!(w.checks, 0);
    for _ in 0..39 {
        assert!(matches!(w.after_check(false), WaitStep::Retry));
    }
    assert!(matches!(w.after_check(false), WaitStep::NotReady));
    assert_eq!(w.checks, 40);
}

