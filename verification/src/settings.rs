//! The application's settings: how stored values are read, and what a save
//! writes back.
use vstd::prelude::*;
use crate::decimal::{
    decimal_u64, lemma_parse_decimal, parse_i32, parse_u16, spec_decimal, spec_parse_in,
};
use crate::text::{chars_eq, chars_of, str_is, string_of};

verus! {

/// The settings that the settings page shows and edits.
pub struct AppSettings {
    pub download_dir: String,
    pub refresh_interval: i32,
    pub aria2_port: i32,
    pub max_concurrent_downloads: i32,
    pub auto_delete_torrent: bool,
    pub close_to_tray: bool,
}

/// Torrent files are deleted with their download unless the user says otherwise.
pub fn default_auto_delete() -> (r: bool)
    ensures
        r,
{
    true
}

/// Closing the main window hides it to the tray unless the user says otherwise.
pub fn default_close_to_tray() -> (r: bool)
    ensures
        r,
{
    true
}

/// The stored value of each setting, `None` where it could not be read.
pub struct StoredSettings {
    pub download_dir: Option<String>,
    pub refresh_interval: Option<String>,
    pub aria2_port: Option<String>,
    pub max_concurrent_downloads: Option<String>,
    pub auto_delete_torrent: Option<String>,
    pub close_to_tray: Option<String>,
}

/// A stored number, read as an `i32`; the default when it is missing or not a number.
pub open spec fn int_setting(v: Option<String>, default: int) -> int {
    match v {
        Some(t) => match spec_parse_in(t@, true, i32::MIN as int, i32::MAX as int) {
            Some(n) => n,
            None => default,
        },
        None => default,
    }
}

/// A stored flag: true when missing, else whether it reads `true`.
pub open spec fn flag_setting(v: Option<String>) -> bool {
    match v {
        Some(t) => t@ == "true"@,
        None => true,
    }
}

fn read_int_setting(v: &Option<String>, default: i32) -> (r: i32)
    ensures
        r == int_setting(*v, default as int),
{
    match v {
        Some(t) => {
            let c = chars_of(t.as_str());
            match parse_i32(&c) {
                Some(n) => n,
                None => default,
            }
        },
        None => default,
    }
}

/// Reads a stored flag: missing counts as `true`, else only the text `true` does.
pub fn read_flag_setting(v: &Option<String>) -> (r: bool)
    ensures
        r == flag_setting(*v),
{
    match v {
        Some(t) => str_is(t.as_str(), "true"),
        None => true,
    }
}

/// The settings as stored: the download directory (empty when missing), the
/// refresh interval (30), the aria2 port (6800) and the concurrent-download
/// limit (3) where a value is missing or not a number, and the two flags.
pub fn settings_from_stored(stored: &StoredSettings) -> (r: AppSettings)
    ensures
        r.download_dir@ == (match stored.download_dir {
            Some(d) => d@,
            None => Seq::<char>::empty(),
        }),
        r.refresh_interval == int_setting(stored.refresh_interval, 30),
        r.aria2_port == int_setting(stored.aria2_port, 6800),
        r.max_concurrent_downloads == int_setting(stored.max_concurrent_downloads, 3),
        r.auto_delete_torrent == flag_setting(stored.auto_delete_torrent),
        r.close_to_tray == flag_setting(stored.close_to_tray),
{
    let download_dir = match &stored.download_dir {
        Some(d) => string_of(&chars_of(d.as_str())),
        None => String::new(),
    };
    AppSettings {
        download_dir,
        refresh_interval: read_int_setting(&stored.refresh_interval, 30),
        aria2_port: read_int_setting(&stored.aria2_port, 6800),
        max_concurrent_downloads: read_int_setting(&stored.max_concurrent_downloads, 3),
        auto_delete_torrent: read_flag_setting(&stored.auto_delete_torrent),
        close_to_tray: read_flag_setting(&stored.close_to_tray),
    }
}

pub open spec fn clamp(v: int, lo: int, hi: int) -> int {
    if v < lo {
        lo
    } else if v > hi {
        hi
    } else {
        v
    }
}

/// The text a flag is stored as.
pub open spec fn flag_text(b: bool) -> Seq<char> {
    if b {
        "true"@
    } else {
        "false"@
    }
}

/// What saving settings writes: the refresh interval clamped to 1..=1440
/// minutes, the port to 1024..=65535, the concurrent-download limit to 1..=10,
/// each as decimal text, and the flags as `true`/`false`.
pub struct SavedSettings {
    pub download_dir: String,
    pub refresh_interval: u16,
    pub aria2_port: u16,
    pub max_concurrent_downloads: u16,
    pub refresh_interval_text: String,
    pub aria2_port_text: String,
    pub max_concurrent_downloads_text: String,
    pub auto_delete_torrent_text: String,
    pub close_to_tray_text: String,
}

fn clamp_i32(v: i32, lo: i32, hi: i32) -> (r: u16)
    requires
        0 <= lo <= hi <= 65535,
    ensures
        r == clamp(v as int, lo as int, hi as int),
{
    if v < lo {
        lo as u16
    } else if v > hi {
        hi as u16
    } else {
        v as u16
    }
}

fn flag_string(b: bool) -> (r: String)
    ensures
        r@ == flag_text(b),
{
    if b {
        string_of(&chars_of("true"))
    } else {
        string_of(&chars_of("false"))
    }
}

/// The values that saving `settings` writes.
pub fn saved_settings(settings: &AppSettings) -> (r: SavedSettings)
    ensures
        r.download_dir@ == settings.download_dir@,
        r.refresh_interval == clamp(settings.refresh_interval as int, 1, 1440),
        r.aria2_port == clamp(settings.aria2_port as int, 1024, 65535),
        r.max_concurrent_downloads == clamp(settings.max_concurrent_downloads as int, 1, 10),
        r.refresh_interval_text@ == spec_decimal(r.refresh_interval as nat),
        r.aria2_port_text@ == spec_decimal(r.aria2_port as nat),
        r.max_concurrent_downloads_text@ == spec_decimal(r.max_concurrent_downloads as nat),
        r.auto_delete_torrent_text@ == flag_text(settings.auto_delete_torrent),
        r.close_to_tray_text@ == flag_text(settings.close_to_tray),
{
    let refresh = clamp_i32(settings.refresh_interval, 1, 1440);
    let port = clamp_i32(settings.aria2_port, 1024, 65535);
    let max = clamp_i32(settings.max_concurrent_downloads, 1, 10);
    SavedSettings {
        download_dir: string_of(&chars_of(settings.download_dir.as_str())),
        refresh_interval: refresh,
        aria2_port: port,
        max_concurrent_downloads: max,
        refresh_interval_text: string_of(&decimal_u64(refresh as u64)),
        aria2_port_text: string_of(&decimal_u64(port as u64)),
        max_concurrent_downloads_text: string_of(&decimal_u64(max as u64)),
        auto_delete_torrent_text: flag_string(settings.auto_delete_torrent),
        close_to_tray_text: flag_string(settings.close_to_tray),
    }
}

/// The concurrent-download limit in force before a save: the stored value read
/// as a `u16`, 3 when it is missing or not such a number.
pub fn stored_max_concurrent(v: &Option<String>) -> (r: u16)
    ensures
        r == (match v {
            Some(t) => match spec_parse_in(t@, false, 0, u16::MAX as int) {
                Some(n) => n,
                None => 3,
            },
            None => 3,
        }),
{
    match v {
        Some(t) => {
            let c = chars_of(t.as_str());
            match parse_u16(&c) {
                Some(n) => n,
                None => 3,
            }
        },
        None => 3,
    }
}

/// aria2 is restarted after a save when its port, its download directory or
/// its concurrent-download limit changed.
pub fn needs_aria2_restart(
    old_port: u16,
    new_port: u16,
    dir_changed: bool,
    old_max: u16,
    new_max: u16,
) -> (r: bool)
    ensures
        r == (old_port != new_port || dir_changed || old_max != new_max),
{
    old_port != new_port || dir_changed || old_max != new_max
}

/// Settings read back after a save are the saved settings, with the numbers
/// clamped to their ranges.
pub proof fn lemma_saved_settings_read_back(settings: AppSettings, saved: SavedSettings)
    requires
        saved.download_dir@ == settings.download_dir@,
        saved.refresh_interval == clamp(settings.refresh_interval as int, 1, 1440),
        saved.aria2_port == clamp(settings.aria2_port as int, 1024, 65535),
        saved.max_concurrent_downloads == clamp(settings.max_concurrent_downloads as int, 1, 10),
        saved.refresh_interval_text@ == spec_decimal(saved.refresh_interval as nat),
        saved.aria2_port_text@ == spec_decimal(saved.aria2_port as nat),
        saved.max_concurrent_downloads_text@ == spec_decimal(saved.max_concurrent_downloads as nat),
        saved.auto_delete_torrent_text@ == flag_text(settings.auto_delete_torrent),
        saved.close_to_tray_text@ == flag_text(settings.close_to_tray),
    ensures
        int_setting(Some(saved.refresh_interval_text), 30) == clamp(
            settings.refresh_interval as int,
            1,
            1440,
        ),
        int_setting(Some(saved.aria2_port_text), 6800) == clamp(
            settings.aria2_port as int,
            1024,
            65535,
        ),
        int_setting(Some(saved.max_concurrent_downloads_text), 3) == clamp(
            settings.max_concurrent_downloads as int,
            1,
            10,
        ),
        flag_setting(Some(saved.auto_delete_torrent_text)) == settings.auto_delete_torrent,
        flag_setting(Some(saved.close_to_tray_text)) == settings.close_to_tray,
{
    lemma_parse_decimal(saved.refresh_interval as nat, true, i32::MIN as int, i32::MAX as int);
    lemma_parse_decimal(saved.aria2_port as nat, true, i32::MIN as int, i32::MAX as int);
    lemma_parse_decimal(
        saved.max_concurrent_downloads as nat,
        true,
        i32::MIN as int,
        i32::MAX as int,
    );
    reveal_strlit("true");
    reveal_strlit("false");
    assert("false"@.len() != "true"@.len());
    assert("false"@ != "true"@);
}

} // verus!
