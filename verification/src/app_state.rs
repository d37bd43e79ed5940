//! Where the application keeps its files, and the aria2 it starts.
use vstd::prelude::*;
use crate::aria2::{is_hyphenated_uuid, Aria2Manager};
use crate::decimal::{parse_u16, spec_parse_in};
use crate::text::{
    chars_of, occurs_at, spec_contains, spec_ends_with, spec_starts_with, str_copy, str_is,
    str_is_empty,
};

verus! {

/// A path written with `/` alone: not empty, with no `\\` or `:` (so no drive,
/// UNC or verbatim prefix on any platform), no empty component (no doubled or
/// trailing `/`) and no `.` component.
pub open spec fn is_slash_path(p: Seq<char>) -> bool {
    &&& p.len() > 0
    &&& forall|i: int| 0 <= i < p.len() ==> #[trigger] p[i] != '\\' && p[i] != ':'
    &&& p.last() != '/'
    &&& forall|i: int| 0 <= i < p.len() - 1 && #[trigger] p[i] == '/' ==> p[i + 1] != '/'
    &&& forall|i: int|
        0 <= i < p.len() && #[trigger] p[i] == '.' ==> !((i == 0 || p[i - 1] == '/') && (i + 1
            == p.len() || p[i + 1] == '/'))
}

/// The index of the last `/` in `p`, or -1 when there is none.
pub open spec fn last_slash(p: Seq<char>) -> int
    decreases p.len(),
{
    if p.len() == 0 {
        -1
    } else if p.last() == '/' {
        p.len() - 1
    } else {
        last_slash(p.drop_last())
    }
}

/// The parent of a path written with `/` alone: the text before its last `/`,
/// the root `/` when that is the first character, and the empty path when
/// there is no `/`.
pub open spec fn slash_parent(p: Seq<char>) -> Seq<char> {
    if last_slash(p) < 0 {
        Seq::empty()
    } else if last_slash(p) == 0 {
        seq!['/']
    } else {
        p.take(last_slash(p))
    }
}

/// `Path::new(p).parent()`, as a string: the path without its final
/// component. A parent is always a prefix of the path. For a path written
/// with `/` alone, whose components every platform reads the same way, it is
/// the text before the last `/` (`/` itself when that is the root, the empty
/// path when there is no `/`); of other paths the contract says no more.
#[verifier::external_body]
fn path_parent(p: &str) -> (r: Option<String>)
    ensures
        r is Some ==> spec_starts_with(p@, r->0@),
        is_slash_path(p@) ==> r is Some && r->0@ == slash_parent(p@),
{
    std::path::Path::new(p).parent().map(|q| q.to_string_lossy().to_string())
}

/// A name that every platform reads as one normal relative path component.
pub open spec fn is_plain_component(name: Seq<char>) -> bool {
    &&& name.len() > 0
    &&& name != seq!['.']
    &&& name != seq!['.', '.']
    &&& forall|i: int| 0 <= i < name.len() ==> #[trigger] name[i] != '/' && name[i] != '\\' && name[i] != ':'
}

/// A path separator on some platform: `/` everywhere, `\\` on Windows.
pub open spec fn is_separator(c: char) -> bool {
    c == '/' || c == '\\'
}

/// No character is `\\`, so no platform reads a verbatim prefix in the path.
pub open spec fn has_no_backslash(p: Seq<char>) -> bool {
    forall|i: int| 0 <= i < p.len() ==> #[trigger] p[i] != '\\'
}

/// No character is `:`, so no platform reads a drive prefix in the path (a
/// bare drive such as `C:` is joined on Windows without a separator).
pub open spec fn has_no_colon(p: Seq<char>) -> bool {
    forall|i: int| 0 <= i < p.len() ==> #[trigger] p[i] != ':'
}

/// `Path::new(base).join(name)`, as a string, for a plain relative name: it
/// ends with the name. When the base holds no `\\` (so it has no verbatim
/// prefix, under which Windows normalizes the joined path), the result starts
/// with the base and adds at most one character between. When the base holds
/// neither `\\` nor `:` (so it has no prefix at all), that character is a
/// separator (the platform's own, `/` or `\\`), present exactly when the base
/// is not empty and does not end with `/`.
#[verifier::external_body]
fn path_join(base: &str, name: &str) -> (r: String)
    requires
        is_plain_component(name@),
    ensures
        spec_ends_with(r@, name@),
        has_no_backslash(base@) ==> spec_starts_with(r@, base@),
        has_no_backslash(base@) ==> r@.len() <= base@.len() + name@.len() + 1,
        has_no_backslash(base@) && has_no_colon(base@) && base@.len() > 0 && base@.last() != '/'
            ==> r@ == base@ + seq![r@[base@.len() as int]] + name@,
        has_no_backslash(base@) && has_no_colon(base@) && base@.len() > 0 && base@.last() != '/'
            ==> is_separator(r@[base@.len() as int]),
        has_no_backslash(base@) && has_no_colon(base@) && base@.len() > 0 && base@.last() == '/'
            ==> r@ == base@ + name@,
{
    std::path::Path::new(base).join(name).to_string_lossy().to_string()
}

/// What the default download directory is for a source directory `m`: it ends
/// with `download`; for a path written with `/` alone it is the text before
/// the last `/`, one separator and `download`, or `/download` when that `/`
/// is the root.
pub open spec fn is_default_download_dir(r: Seq<char>, m: Seq<char>) -> bool {
    &&& spec_ends_with(r, "download"@)
    &&& is_slash_path(m) && last_slash(m) > 0 ==> r == m.take(last_slash(m)) + seq![
        r[last_slash(m)],
    ] + "download"@ && is_separator(r[last_slash(m)])
    &&& is_slash_path(m) && last_slash(m) == 0 ==> r == "/download"@
    &&& is_slash_path(m) && last_slash(m) < 0 ==> r.len() <= 9
}

proof fn lemma_last_slash_bounds(p: Seq<char>)
    ensures
        -1 <= last_slash(p) < p.len(),
        last_slash(p) >= 0 ==> p[last_slash(p)] == '/',
        forall|i: int| last_slash(p) < i < p.len() ==> #[trigger] p[i] != '/',
    decreases p.len(),
{
    if p.len() > 0 && p.last() != '/' {
        lemma_last_slash_bounds(p.drop_last());
        assert forall|i: int| last_slash(p) < i < p.len() implies #[trigger] p[i] != '/' by {
            if i < p.len() - 1 {
                assert(p.drop_last()[i] == p[i]);
            }
        }
    }
}

/// The default download directory: `download` beside the application's
/// source directory `manifest_dir` (in `.` when it has no parent).
pub fn default_download_dir(manifest_dir: &str) -> (r: String)
    ensures
        is_default_download_dir(r@, manifest_dir@),
{
    let base = match path_parent(manifest_dir) {
        Some(p) => p,
        None => str_copy("."),
    };
    proof {
        reveal_strlit("download");
        reveal_strlit(".");
        assert("download"@ =~= seq!['d', 'o', 'w', 'n', 'l', 'o', 'a', 'd']);
        let m = manifest_dir@;
        lemma_last_slash_bounds(m);
        if is_slash_path(m) {
            let k = last_slash(m);
            if k > 0 {
                assert(has_no_backslash(base@)) by {
                    assert forall|i: int| 0 <= i < base@.len() implies #[trigger] base@[i] != '\\' by {
                        assert(base@[i] == m[i]);
                    }
                }
                assert(has_no_colon(base@)) by {
                    assert forall|i: int| 0 <= i < base@.len() implies #[trigger] base@[i] != ':' by {
                        assert(base@[i] == m[i]);
                    }
                }
                assert(base@.last() == m[k - 1]);
                assert(m[k] == '/');
                if m[k - 1] == '/' {
                    assert(m[k - 1] == '/' ==> m[k] != '/');
                }
            } else if k == 0 {
                reveal_strlit("/download");
                assert("/download"@ =~= seq!['/'] + "download"@);
                assert(has_no_backslash(base@)) by {
                    assert forall|i: int| 0 <= i < base@.len() implies #[trigger] base@[i] != '\\' by {
                        assert(base@[i] == '/');
                    }
                }
                assert(has_no_colon(base@)) by {
                    assert forall|i: int| 0 <= i < base@.len() implies #[trigger] base@[i] != ':' by {
                        assert(base@[i] == '/');
                    }
                }
            } else {
                assert(base@ =~= Seq::<char>::empty());
                assert(has_no_backslash(base@));
                assert(has_no_colon(base@));
            }
        }
    }
    path_join(base.as_str(), "download")
}

/// The download directory: the stored setting when it is set and not empty,
/// else the default one.
pub fn resolve_download_dir(stored: &Option<String>, manifest_dir: &str) -> (r: String)
    ensures
        match stored {
            Some(d) => if d@.len() > 0 {
                r@ == d@
            } else {
                is_default_download_dir(r@, manifest_dir@)
            },
            None => is_default_download_dir(r@, manifest_dir@),
        },
{
    match stored {
        Some(d) => {
            if !str_is_empty(d.as_str()) {
                return str_copy(d.as_str());
            }
        },
        None => {},
    }
    default_download_dir(manifest_dir)
}

/// A stored number read as a `u16`; the default when it is missing or not
/// such a number.
pub fn setting_u16(stored: &Option<String>, default: u16) -> (r: u16)
    ensures
        r == (match stored {
            Some(t) => match spec_parse_in(t@, false, 0, u16::MAX as int) {
                Some(n) => n,
                None => default as int,
            },
            None => default as int,
        }),
{
    match stored {
        Some(t) => match parse_u16(&chars_of(t.as_str())) {
            Some(n) => n,
            None => default,
        },
        None => default,
    }
}

/// The application's directories and its aria2 client.
pub struct AppState {
    pub base_download_dir: String,
    pub app_dir: String,
    pub aria2_path: String,
    pub aria2: Aria2Manager,
}

impl AppState {
    /// The state at start-up: the download directory resolved from its
    /// setting, and an aria2 client on the stored port (6800 by default) with
    /// a fresh secret.
    pub fn new(
        app_dir: String,
        aria2_path: String,
        stored_download_dir: &Option<String>,
        stored_port: &Option<String>,
        manifest_dir: &str,
    ) -> (r: AppState)
        ensures
            r.app_dir == app_dir,
            r.aria2_path == aria2_path,
            match stored_download_dir {
                Some(d) => if d@.len() > 0 {
                    r.base_download_dir@ == d@
                } else {
                    is_default_download_dir(r.base_download_dir@, manifest_dir@)
                },
                None => is_default_download_dir(r.base_download_dir@, manifest_dir@),
            },
            r.aria2.spec_port() == (match stored_port {
                Some(t) => match spec_parse_in(t@, false, 0, u16::MAX as int) {
                    Some(n) => n,
                    None => 6800,
                },
                None => 6800,
            }),
            is_hyphenated_uuid(r.aria2.spec_secret()),
    {
        let base_download_dir = resolve_download_dir(stored_download_dir, manifest_dir);
        let port = setting_u16(stored_port, 6800);
        AppState { base_download_dir, app_dir, aria2_path, aria2: Aria2Manager::new(port) }
    }
}

/// How many times start-up checks that aria2's port is open, 250 ms apart.
pub const ARIA2_READY_CHECKS: u32 = 40;

/// What start-up does after a check of aria2's port.
pub enum WaitStep {
    /// The port is open: aria2 is ready.
    Ready,
    /// Not yet: pause, then check again.
    Retry,
    /// Not open at the last check: pause once more and go on without aria2.
    NotReady,
}

/// The start-up wait for aria2: the checks made so far.
pub struct StartupWait {
    pub checks: u32,
}

impl StartupWait {
    pub fn new() -> (r: StartupWait)
        ensures
            r.checks == 0,
    {
        StartupWait { checks: 0 }
    }

    /// Records a check: ready when the port is open; else another check
    /// follows until `ARIA2_READY_CHECKS` of them have failed.
    pub fn after_check(&mut self, port_open: bool) -> (r: WaitStep)
        requires
            old(self).checks < ARIA2_READY_CHECKS,
        ensures
            port_open ==> r is Ready && final(self).checks == old(self).checks,
            !port_open ==> final(self).checks == old(self).checks + 1,
            !port_open && final(self).checks < ARIA2_READY_CHECKS ==> r is Retry,
            !port_open && final(self).checks == ARIA2_READY_CHECKS ==> r is NotReady,
    {
        if port_open {
            WaitStep::Ready
        } else {
            self.checks = self.checks + 1;
            if self.checks < ARIA2_READY_CHECKS {
                WaitStep::Retry
            } else {
                WaitStep::NotReady
            }
        }
    }
}

/// Whether closing the main window hides it to the tray: the stored setting is
/// `true`, or it cannot be read.
pub fn close_to_tray_on_exit(stored: &Option<String>) -> (r: bool)
    ensures
        r == crate::settings::flag_setting(*stored),
{
    match stored {
        Some(v) => str_is(v.as_str(), "true"),
        None => true,
    }
}

/// What a tray-menu item does.
pub enum TrayAction {
    Show,
    Quit,
    Ignore,
}

pub fn tray_action(id: &str) -> (r: TrayAction)
    ensures
        id@ == "show"@ ==> r is Show,
        id@ == "quit"@ && id@ != "show"@ ==> r is Quit,
        id@ != "show"@ && id@ != "quit"@ ==> r is Ignore,
{
    if str_is(id, "show") {
        TrayAction::Show
    } else if str_is(id, "quit") {
        TrayAction::Quit
    } else {
        TrayAction::Ignore
    }
}

} // verus!
