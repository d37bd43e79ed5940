//! Download decisions: which source an episode is fetched from, how aria2's
//! report updates the episode table, retries, batches, pending groups and the
//! clean-up of leftover files.
use vstd::prelude::*;
use crate::aria2::{Aria2File, DownloadStatus};
use crate::decimal::{decimal_u64, parse_u64, spec_decimal, spec_parse_in};
use crate::text::{
    chars_of, spec_contains, spec_ends_with, spec_starts_with, str_concat, str_contains, str_copy,
    str_ends_with, str_is, str_is_empty, str_starts_with, string_of, chars_eq, join, spec_join, views,
    append, replace, spec_replace,
};

verus! {

/// Where aria2 fetches an episode from.
pub enum DownloadSource {
    /// A `.torrent` URL (or file), fetched and handed to aria2.
    Torrent(String),
    /// A magnet URI, handed to aria2 as a URI.
    Magnet(String),
}

/// The source of an episode: its torrent URL when it has one, else its magnet
/// URI when it has one, else none.
pub open spec fn spec_download_source(torrent_url: Seq<char>, magnet_uri: Seq<char>) -> Option<
    (bool, Seq<char>),
> {
    if torrent_url.len() > 0 {
        Some((true, torrent_url))
    } else if magnet_uri.len() > 0 {
        Some((false, magnet_uri))
    } else {
        None
    }
}

/// The view of a source: whether it is a torrent, and its address.
pub open spec fn source_view(s: DownloadSource) -> (bool, Seq<char>) {
    match s {
        DownloadSource::Torrent(u) => (true, u@),
        DownloadSource::Magnet(u) => (false, u@),
    }
}

pub fn choose_download_source(torrent_url: &str, magnet_uri: &str) -> (r: Option<DownloadSource>)
    ensures
        match r {
            Some(s) => spec_download_source(torrent_url@, magnet_uri@) == Some(source_view(s)),
            None => spec_download_source(torrent_url@, magnet_uri@) is None,
        },
{
    let t = chars_of(torrent_url);
    let m = chars_of(magnet_uri);
    if t.len() > 0 {
        Some(DownloadSource::Torrent(string_of(&t)))
    } else if m.len() > 0 {
        Some(DownloadSource::Magnet(string_of(&m)))
    } else {
        None
    }
}

} // verus!

verus! {

/// The state the episode table records for a download that aria2 lists as
/// stopped: `complete` → `completed`, `paused` → `paused`, `error` and
/// `removed` → `failed`; any other state leaves the record alone.
pub open spec fn spec_stopped_status(status: Seq<char>) -> Option<Seq<char>> {
    if status == "complete"@ {
        Some("completed"@)
    } else if status == "paused"@ {
        Some("paused"@)
    } else if status == "error"@ || status == "removed"@ {
        Some("failed"@)
    } else {
        None
    }
}

/// Only a finished, paused or failed download changes its record when aria2
/// lists it as stopped: `complete` records `completed`, `paused` records
/// `paused`, `error` and `removed` both record `failed`, and every other
/// state (such as `active` or `waiting`) records nothing.
pub proof fn lemma_stopped_states_recorded(status: Seq<char>)
    ensures
        status == "complete"@ ==> spec_stopped_status(status) == Some("completed"@),
        status == "paused"@ ==> spec_stopped_status(status) == Some("paused"@),
        status == "error"@ ==> spec_stopped_status(status) == Some("failed"@),
        status == "removed"@ ==> spec_stopped_status(status) == Some("failed"@),
        status != "complete"@ && status != "paused"@ && status != "error"@ && status
            != "removed"@ ==> spec_stopped_status(status) is None,
{
    reveal_strlit("complete");
    reveal_strlit("paused");
    reveal_strlit("error");
    reveal_strlit("removed");
    assert("paused"@.len() != "complete"@.len());
    assert("error"@[0] != "complete"@[0] && "error"@[0] != "paused"@[0]);
    assert("removed"@.len() != "complete"@.len() && "removed"@[0] != "paused"@[0]);
}

pub fn stopped_status(status: &str) -> (r: Option<String>)
    ensures
        match r {
            Some(s) => spec_stopped_status(status@) == Some(s@),
            None => spec_stopped_status(status@) is None,
        },
{
    if str_is(status, "complete") {
        Some(str_copy("completed"))
    } else if str_is(status, "paused") {
        Some(str_copy("paused"))
    } else if str_is(status, "error") || str_is(status, "removed") {
        Some(str_copy("failed"))
    } else {
        None
    }
}

/// The path of a download's first file, or the empty string.
pub open spec fn spec_first_file_path(files: Seq<Aria2File>) -> Seq<char> {
    if files.len() > 0 {
        files[0].path@
    } else {
        Seq::empty()
    }
}

pub fn first_file_path(files: &Vec<Aria2File>) -> (r: String)
    ensures
        r@ == spec_first_file_path(files@),
{
    if files.len() > 0 {
        str_copy(files[0].path.as_str())
    } else {
        String::new()
    }
}

/// The file recorded for a download is its first one: for a single file it
/// is that file's path, files listed after the first never change it, and
/// with no file it is empty.
pub proof fn lemma_first_file_is_recorded(f: Aria2File, files: Seq<Aria2File>, more: Seq<Aria2File>)
    ensures
        spec_first_file_path(seq![f]) == f.path@,
        files.len() > 0 ==> spec_first_file_path(files + more) == spec_first_file_path(files),
        spec_first_file_path(seq![f] + more) == f.path@,
        spec_first_file_path(Seq::<Aria2File>::empty()).len() == 0,
{
    if files.len() > 0 {
        assert((files + more)[0] == files[0]);
    }
    assert((seq![f] + more)[0] == f);
}

/// A size that aria2 reports as decimal text, read as a `u64`; `default`
/// when it is not such a number.
pub fn size_or(text: &str, default: u64) -> (r: u64)
    ensures
        r == (match spec_parse_in(text@, false, 0, u64::MAX as int) {
            Some(v) => v,
            None => default as int,
        }),
{
    match parse_u64(&chars_of(text)) {
        Some(v) => v,
        None => default,
    }
}

/// How an active download updates its episode: its progress as completed
/// over total bytes, and its file.
pub struct ActiveUpdate {
    pub completed: u64,
    pub total: u64,
    pub file_path: String,
}

/// The update for a download aria2 lists as active: none while the episode is
/// paused in the table; else the completed size (0 when unreadable), the total
/// size (1 when unreadable) and the first file.
pub fn active_update(d: &DownloadStatus, current_status: &str) -> (r: Option<ActiveUpdate>)
    ensures
        current_status@ == "paused"@ <==> r is None,
        r matches Some(u) ==> {
            &&& u.completed == (match spec_parse_in(
                d.completed_length@,
                false,
                0,
                u64::MAX as int,
            ) {
                Some(v) => v,
                None => 0,
            })
            &&& u.total == (match spec_parse_in(d.total_length@, false, 0, u64::MAX as int) {
                Some(v) => v,
                None => 1,
            })
            &&& u.file_path@ == spec_first_file_path(d.files@)
        },
{
    if str_is(current_status, "paused") {
        return None;
    }
    Some(
        ActiveUpdate {
            completed: size_or(d.completed_length.as_str(), 0),
            total: size_or(d.total_length.as_str(), 1),
            file_path: first_file_path(&d.files),
        },
    )
}

/// A download whose first file is torrent metadata that aria2 fetched for a
/// magnet link.
pub open spec fn is_metadata_path(file_path: Seq<char>) -> bool {
    spec_contains(file_path, "[METADATA]"@)
}

/// How a stopped download updates its episode.
pub struct StoppedUpdate {
    /// The new state, or none to leave the state alone.
    pub status: Option<String>,
    pub file_path: String,
}

/// The update for a download aria2 lists as stopped: none for metadata
/// downloads; else the mapped state and the first file.
pub fn stopped_update(d: &DownloadStatus) -> (r: Option<StoppedUpdate>)
    ensures
        is_metadata_path(spec_first_file_path(d.files@)) <==> r is None,
        r matches Some(u) ==> {
            &&& u.file_path@ == spec_first_file_path(d.files@)
            &&& match u.status {
                Some(s) => spec_stopped_status(d.status@) == Some(s@),
                None => spec_stopped_status(d.status@) is None,
            }
        },
{
    let file_path = first_file_path(&d.files);
    if str_contains(file_path.as_str(), "[METADATA]") {
        return None;
    }
    Some(StoppedUpdate { status: stopped_status(d.status.as_str()), file_path })
}

/// The `.torrent` and `.torrent.aria2` files that aria2 leaves in the download
/// directory for a download.
pub open spec fn spec_torrent_leftovers(download_dir: Seq<char>, gid: Seq<char>) -> Seq<Seq<char>> {
    seq![download_dir + "/"@ + gid + ".torrent"@, download_dir + "/"@ + gid + ".torrent.aria2"@]
}

pub fn torrent_leftovers(download_dir: &str, gid: &str) -> (r: Vec<String>)
    ensures
        r@.map_values(|s: String| s@) == spec_torrent_leftovers(download_dir@, gid@),
{
    let base = str_concat(str_concat(download_dir, "/").as_str(), gid);
    let mut r: Vec<String> = Vec::new();
    r.push(str_concat(base.as_str(), ".torrent"));
    r.push(str_concat(base.as_str(), ".torrent.aria2"));
    assert(r@.map_values(|s: String| s@) =~= spec_torrent_leftovers(download_dir@, gid@));
    r
}

/// The files a sync removes for a stopped download: its leftovers, when a
/// download directory is set.
pub fn sync_leftovers(download_dir: &str, gid: &str) -> (r: Vec<String>)
    ensures
        download_dir@.len() == 0 ==> r@.len() == 0,
        download_dir@.len() > 0 ==> r@.map_values(|s: String| s@) == spec_torrent_leftovers(
            download_dir@,
            gid@,
        ),
{
    if str_is_empty(download_dir) {
        Vec::new()
    } else {
        torrent_leftovers(download_dir, gid)
    }
}

/// A line of the sync log: `<label>: <n> tasks`.
pub fn sync_log_line(label: &str, n: usize) -> (r: String)
    ensures
        r@ == label@ + ": "@ + spec_decimal(n as nat) + " tasks\n"@,
{
    let a = str_concat(label, ": ");
    let b = str_concat(a.as_str(), string_of(&decimal_u64(n as u64)).as_str());
    str_concat(b.as_str(), " tasks\n")
}

/// The message for an aria2 that does not answer on its port.
pub fn unreachable_message(port: u16) -> (r: String)
    ensures
        r@ == "aria2 is not reachable on port "@ + spec_decimal(port as nat),
{
    str_concat("aria2 is not reachable on port ", string_of(&decimal_u64(port as u64)).as_str())
}

/// What pausing or resuming a download does before its record is updated.
pub enum ControlAction {
    /// It has no GID: only the record changes.
    UpdateOnly,
    /// Pause or resume it in aria2, then update the record.
    CallAria2,
    /// aria2 does not answer: refuse with this message and leave the record.
    Refuse(String),
}

/// The action for pausing or resuming a download with GID `gid`, where
/// `port_open` tells whether aria2 answers on `port` (it is only asked for a
/// download that has a GID).
pub fn control_action(gid: &str, port: u16, port_open: bool) -> (r: ControlAction)
    ensures
        gid@.len() == 0 ==> r is UpdateOnly,
        gid@.len() > 0 && port_open ==> r is CallAria2,
        gid@.len() > 0 && !port_open ==> (r matches ControlAction::Refuse(m) && m@
            == "aria2 is not reachable on port "@ + spec_decimal(port as nat)),
{
    if str_is_empty(gid) {
        ControlAction::UpdateOnly
    } else if port_open {
        ControlAction::CallAria2
    } else {
        ControlAction::Refuse(unreachable_message(port))
    }
}

} // verus!

verus! {

/// What removing a download cleans up, besides its episode record.
pub struct RemovalPlan {
    /// Whether to stop the download in aria2 and drop its result (when aria2 answers).
    pub stop_in_aria2: bool,
    /// Files to delete, each only if it lies inside the download directory.
    pub files_within_base: Vec<String>,
    /// Leftover torrent files to delete.
    pub leftovers: Vec<String>,
}

/// The clean-up after removing a download: stop it in aria2 when it has a
/// GID; delete its file and that file's `.aria2` control file when it has a
/// file; delete its `.torrent` when torrents are deleted automatically and its
/// torrent URL names one; delete its leftovers when both a download directory
/// and a GID are known.
pub fn removal_plan(
    gid: &str,
    file_path: &str,
    torrent_url: &str,
    download_dir: &str,
    auto_delete: bool,
) -> (r: RemovalPlan)
    ensures
        r.stop_in_aria2 == (gid@.len() > 0),
        r.files_within_base@.map_values(|s: String| s@) == (if file_path@.len() > 0 {
            seq![file_path@, file_path@ + ".aria2"@]
        } else {
            Seq::<Seq<char>>::empty()
        }) + (if auto_delete && torrent_url@.len() > 0 && spec_ends_with(
            torrent_url@,
            ".torrent"@,
        ) {
            seq![torrent_url@]
        } else {
            Seq::<Seq<char>>::empty()
        }),
        r.leftovers@.map_values(|s: String| s@) == (if download_dir@.len() > 0 && gid@.len() > 0 {
            spec_torrent_leftovers(download_dir@, gid@)
        } else {
            Seq::<Seq<char>>::empty()
        }),
{
    let mut files: Vec<String> = Vec::new();
    if !str_is_empty(file_path) {
        files.push(str_copy(file_path));
        files.push(str_concat(file_path, ".aria2"));
    }
    if auto_delete && !str_is_empty(torrent_url) && str_ends_with(torrent_url, ".torrent") {
        files.push(str_copy(torrent_url));
    }
    let leftovers = if !str_is_empty(download_dir) && !str_is_empty(gid) {
        torrent_leftovers(download_dir, gid)
    } else {
        Vec::new()
    };
    let r = RemovalPlan { stop_in_aria2: !str_is_empty(gid), files_within_base: files, leftovers };
    assert(r.files_within_base@.map_values(|s: String| s@) =~= (if file_path@.len() > 0 {
        seq![file_path@, file_path@ + ".aria2"@]
    } else {
        Seq::<Seq<char>>::empty()
    }) + (if auto_delete && torrent_url@.len() > 0 && spec_ends_with(torrent_url@, ".torrent"@) {
        seq![torrent_url@]
    } else {
        Seq::<Seq<char>>::empty()
    }));
    assert(r.leftovers@.map_values(|s: String| s@) =~= (if download_dir@.len() > 0 && gid@.len()
        > 0 {
        spec_torrent_leftovers(download_dir@, gid@)
    } else {
        Seq::<Seq<char>>::empty()
    }));
    r
}

/// How many times adding a torrent by hand is tried.
pub const DOWNLOAD_RETRY_ATTEMPTS: usize = 5;

/// The sub-directory that downloads added by hand go into.
pub fn manual_download_dir(download_dir: &str) -> (r: String)
    ensures
        r@ == download_dir@ + "/手动下载"@,
{
    str_concat(download_dir, "/手动下载")
}

/// How a torrent added by hand is handed to aria2.
pub enum TorrentInput {
    /// A magnet link, added as a URI.
    Magnet,
    /// A `.torrent` file on disk, read and added as bytes.
    LocalFile,
    /// A URL, fetched and added as a torrent.
    Remote,
}

/// A magnet link when it starts with `magnet:`; a local file when it ends in
/// `.torrent` and that file exists; a URL otherwise.
pub fn torrent_input(torrent_url: &str, file_exists: bool) -> (r: TorrentInput)
    ensures
        spec_starts_with(torrent_url@, "magnet:"@) ==> r is Magnet,
        !spec_starts_with(torrent_url@, "magnet:"@) && spec_ends_with(torrent_url@, ".torrent"@)
            && file_exists ==> r is LocalFile,
        !spec_starts_with(torrent_url@, "magnet:"@) && !(spec_ends_with(
            torrent_url@,
            ".torrent"@,
        ) && file_exists) ==> r is Remote,
{
    if str_starts_with(torrent_url, "magnet:") {
        TorrentInput::Magnet
    } else if str_ends_with(torrent_url, ".torrent") && file_exists {
        TorrentInput::LocalFile
    } else {
        TorrentInput::Remote
    }
}

/// What to do after an attempt to add a torrent.
pub enum RetryStep {
    /// aria2 accepted it under this GID.
    Done(String),
    /// Try again, after a pause when the attempt failed with an error.
    Retry { pause: bool },
    /// Every attempt failed; report this error.
    GiveUp(String),
}

/// The attempts made so far to add a torrent by hand, and the last error.
pub struct RetryState {
    pub attempts: usize,
    pub last_error: String,
}

impl RetryState {
    pub fn new() -> (r: RetryState)
        ensures
            r.attempts == 0,
            r.last_error@ == Seq::<char>::empty(),
    {
        RetryState { attempts: 0, last_error: String::new() }
    }

    /// Records the outcome of one attempt. A non-empty GID ends the retries;
    /// an empty GID or an error is remembered, and after the fifth attempt
    /// the retries end with `Failed after 5 retries: <last error>`. Only an
    /// error that leaves attempts to go asks for a pause.
    pub fn step(&mut self, outcome: Result<String, String>) -> (r: RetryStep)
        requires
            old(self).attempts < DOWNLOAD_RETRY_ATTEMPTS,
        ensures
            match outcome {
                Ok(g) if g@.len() > 0 => r == RetryStep::Done(g) && final(self).attempts
                    == old(self).attempts,
                _ => {
                    &&& final(self).attempts == old(self).attempts + 1
                    &&& final(self).last_error@ == (match outcome {
                        Ok(_) => "Empty GID"@,
                        Err(e) => e@,
                    })
                    &&& if final(self).attempts == DOWNLOAD_RETRY_ATTEMPTS {
                        r matches RetryStep::GiveUp(m) && m@ == "Failed after 5 retries: "@
                            + final(self).last_error@
                    } else {
                        r == RetryStep::Retry { pause: outcome is Err }
                    }
                },
            },
    {
        let is_err = outcome.is_err();
        match outcome {
            Ok(g) => {
                if !g.as_str().is_empty() {
                    return RetryStep::Done(g);
                }
                self.last_error = str_copy("Empty GID");
            },
            Err(e) => {
                self.last_error = e;
            },
        }
        self.attempts = self.attempts + 1;
        if self.attempts == DOWNLOAD_RETRY_ATTEMPTS {
            RetryStep::GiveUp(str_concat("Failed after 5 retries: ", self.last_error.as_str()))
        } else {
            RetryStep::Retry { pause: is_err }
        }
    }
}

/// The message when aria2 does not answer before a download is started.
pub fn start_unreachable_message(port: u16) -> (r: String)
    ensures
        r@ == "aria2c (port "@ + spec_decimal(port as nat)
            + ") is not reachable. Please wait a moment and retry."@,
{
    let a = str_concat("aria2c (port ", string_of(&decimal_u64(port as u64)).as_str());
    str_concat(a.as_str(), ") is not reachable. Please wait a moment and retry.")
}

/// The source a pending episode starts from, or the error when it has none.
pub fn start_source(torrent_url: &str, magnet_uri: &str) -> (r: Result<DownloadSource, String>)
    ensures
        match r {
            Ok(s) => spec_download_source(torrent_url@, magnet_uri@) == Some(source_view(s)),
            Err(e) => spec_download_source(torrent_url@, magnet_uri@) is None && e@
                == "No torrent URL or magnet URI available"@,
        },
{
    match choose_download_source(torrent_url, magnet_uri) {
        Some(s) => Ok(s),
        None => Err(str_copy("No torrent URL or magnet URI available")),
    }
}

/// The GID a started download is recorded under: an RPC error and an empty
/// GID are errors.
pub fn start_outcome(outcome: Result<String, String>) -> (r: Result<String, String>)
    ensures
        match outcome {
            Ok(g) => if g@.len() > 0 {
                r == Ok::<String, String>(g)
            } else {
                r matches Err(m) && m@ == "aria2 returned empty GID"@
            },
            Err(e) => r matches Err(m) && m@ == "aria2 RPC failed: "@ + e@,
        },
{
    match outcome {
        Ok(g) => if !g.as_str().is_empty() {
            Ok(g)
        } else {
            Err(str_copy("aria2 returned empty GID"))
        },
        Err(e) => Err(str_concat("aria2 RPC failed: ", e.as_str())),
    }
}

} // verus!

verus! {

/// The downloads a batch started and the errors it met, one per episode.
pub struct BatchState {
    pub started: Vec<String>,
    pub errors: Vec<String>,
}

impl BatchState {
    pub fn new() -> (r: BatchState)
        ensures
            r.started@.len() == 0,
            r.errors@.len() == 0,
    {
        BatchState { started: Vec::new(), errors: Vec::new() }
    }

    /// Records that episode `id` could not be started: `<id>: <message>`.
    pub fn record_error(&mut self, id: &str, message: &str)
        ensures
            final(self).started@ == old(self).started@,
            final(self).errors@.len() == old(self).errors@.len() + 1,
            final(self).errors@.drop_last() == old(self).errors@,
            final(self).errors@.last()@ == id@ + ": "@ + message@,
    {
        let line = str_concat(str_concat(id, ": ").as_str(), message);
        self.errors.push(line);
        assert(self.errors@.drop_last() =~= old(self).errors@);
    }

    /// Records what aria2 answered for episode `id`; returns the GID to store
    /// when it started: a non-empty GID is started, an empty one or an error
    /// is recorded as an error.
    pub fn record_add_result(&mut self, id: &str, outcome: Result<String, String>) -> (r: Option<
        String,
    >)
        ensures
            match outcome {
                Ok(g) => if g@.len() > 0 {
                    &&& r matches Some(c) && c@ == g@
                    &&& final(self).started@.len() == old(self).started@.len() + 1
                    &&& final(self).started@.drop_last() == old(self).started@
                    &&& final(self).started@.last()@ == g@
                    &&& final(self).errors@ == old(self).errors@
                } else {
                    &&& r is None
                    &&& final(self).started@ == old(self).started@
                    &&& final(self).errors@.drop_last() == old(self).errors@
                    &&& final(self).errors@.last()@ == id@ + ": empty GID"@
                    &&& final(self).errors@.len() == old(self).errors@.len() + 1
                },
                Err(e) => {
                    &&& r is None
                    &&& final(self).started@ == old(self).started@
                    &&& final(self).errors@.drop_last() == old(self).errors@
                    &&& final(self).errors@.last()@ == id@ + ": "@ + e@
                    &&& final(self).errors@.len() == old(self).errors@.len() + 1
                },
            },
    {
        match outcome {
            Ok(g) => {
                if !g.as_str().is_empty() {
                    let copy = str_copy(g.as_str());
                    self.started.push(g);
                    assert(self.started@.drop_last() =~= old(self).started@);
                    Some(copy)
                } else {
                    self.record_error(id, "empty GID");
                    assert(id@ + ": "@ + "empty GID"@ =~= id@ + ": empty GID"@) by {
                        reveal_strlit(": ");
                        reveal_strlit("empty GID");
                        reveal_strlit(": empty GID");
                    }
                    None
                }
            },
            Err(e) => {
                self.record_error(id, e.as_str());
                None
            },
        }
    }

    /// The batch's answer: the errors joined by `; ` when nothing started and
    /// something failed, else the GIDs started.
    pub fn finish(self) -> (r: Result<Vec<String>, String>)
        ensures
            self.started@.len() == 0 && self.errors@.len() > 0 ==> (r matches Err(m) && m@
                == spec_join(self.errors@.map_values(|s: String| s@), "; "@)),
            !(self.started@.len() == 0 && self.errors@.len() > 0) ==> r == Ok::<
                Vec<String>,
                String,
            >(self.started),
    {
        if self.started.len() == 0 && self.errors.len() > 0 {
            let mut lines: Vec<Vec<char>> = Vec::new();
            let mut i: usize = 0;
            while i < self.errors.len()
                invariant
                    i <= self.errors.len(),
                    views(lines@) == self.errors@.take(i as int).map_values(|s: String| s@),
                decreases self.errors.len() - i,
            {
                let ghost before = lines@;
                let line = chars_of(self.errors[i].as_str());
                lines.push(line);
                assert(views(lines@) =~= views(before).push(self.errors@[i as int]@));
                assert(self.errors@.take(i + 1).map_values(|s: String| s@) =~= self.errors@.take(
                    i as int,
                ).map_values(|s: String| s@).push(self.errors@[i as int]@));
                i += 1;
            }
            assert(self.errors@.take(self.errors.len() as int) =~= self.errors@);
            Err(string_of(&join(&lines, &chars_of("; "))))
        } else {
            Ok(self.started)
        }
    }
}

/// The keys of a pending episode that grouping looks at.
pub struct PendingKey {
    pub subscription_title: Option<String>,
    pub subscription_id: Option<String>,
}

/// A run of pending episodes of one subscription: `start..end` in the list.
pub struct PendingSpan {
    pub subscription_title: String,
    pub subscription_id: String,
    pub start: usize,
    pub end: usize,
}

pub open spec fn pending_title(k: PendingKey) -> Seq<char> {
    match k.subscription_title {
        Some(t) => t@,
        None => Seq::empty(),
    }
}

pub open spec fn pending_id(k: PendingKey) -> Seq<char> {
    match k.subscription_id {
        Some(t) => t@,
        None => Seq::empty(),
    }
}

/// `spans` cut the first `n` keys into the maximal runs of equal titles, in
/// order; each run carries its title and the subscription id of its first
/// episode.
pub open spec fn grouped_upto(keys: Seq<PendingKey>, spans: Seq<PendingSpan>, n: int) -> bool {
    &&& (n == 0 <==> spans.len() == 0)
    &&& spans.len() > 0 ==> spans[0].start == 0 && spans.last().end == n
    &&& forall|j: int| 0 <= j < spans.len() ==> #[trigger] spans[j].start < spans[j].end <= n
    &&& forall|j: int| 0 <= j < spans.len() - 1 ==> #[trigger] spans[j].end == spans[j + 1].start
    &&& forall|j: int, i: int|
        0 <= j < spans.len() && spans[j].start <= i < spans[j].end ==> pending_title(
            #[trigger] keys[i],
        ) == (#[trigger] spans[j]).subscription_title@
    &&& forall|j: int|
        0 <= j < spans.len() - 1 ==> (#[trigger] spans[j]).subscription_title@ != spans[j
            + 1].subscription_title@
    &&& forall|j: int|
        0 <= j < spans.len() ==> (#[trigger] spans[j]).subscription_id@ == pending_id(
            keys[spans[j].start as int],
        )
}

/// Groups pending episodes, listed by subscription title, into one group per
/// run of equal titles (a missing title counts as the empty one).
pub fn pending_groups(keys: &Vec<PendingKey>) -> (r: Vec<PendingSpan>)
    ensures
        grouped_upto(keys@, r@, keys@.len() as int),
{
    let mut spans: Vec<PendingSpan> = Vec::new();
    let mut i: usize = 0;
    while i < keys.len()
        invariant
            i <= keys.len(),
            grouped_upto(keys@, spans@, i as int),
        decreases keys.len() - i,
    {
        let title = match &keys[i].subscription_title {
            Some(t) => str_copy(t.as_str()),
            None => String::new(),
        };
        let n = spans.len();
        let same = n > 0 && chars_eq(
            &chars_of(spans[n - 1].subscription_title.as_str()),
            &chars_of(title.as_str()),
        );
        if same {
            let ghost before = spans@;
            let mut last = spans.pop().unwrap();
            last.end = i + 1;
            spans.push(last);
            assert(spans@.drop_last() =~= before.drop_last());
            assert forall|j: int, k: int|
                0 <= j < spans@.len() && spans@[j].start <= k < spans@[j].end implies pending_title(
                #[trigger] keys@[k],
            ) == (#[trigger] spans@[j]).subscription_title@ by {
                if j < spans@.len() - 1 {
                    assert(spans@[j] == before[j]);
                } else if k < i {
                    assert(before[j].start <= k < before[j].end);
                }
            }
        } else {
            let id = match &keys[i].subscription_id {
                Some(t) => str_copy(t.as_str()),
                None => String::new(),
            };
            let ghost before = spans@;
            spans.push(PendingSpan { subscription_title: title, subscription_id: id, start: i, end: i + 1 });
            assert forall|j: int, k: int|
                0 <= j < spans@.len() && spans@[j].start <= k < spans@[j].end implies pending_title(
                #[trigger] keys@[k],
            ) == (#[trigger] spans@[j]).subscription_title@ by {
                if j < spans@.len() - 1 {
                    assert(spans@[j] == before[j]);
                }
            }
        }
        i += 1;
    }
    spans
}

} // verus!

verus! {

/// The GID a leftover torrent file is named after: its name without
/// `.torrent.aria2` and `.torrent`.
pub open spec fn spec_leftover_stem(name: Seq<char>) -> Seq<char> {
    spec_replace(spec_replace(name, ".torrent.aria2"@, Seq::empty()), ".torrent"@, Seq::empty())
}

/// A name is among a list of strings.
pub open spec fn listed(list: Seq<String>, name: Seq<char>) -> bool {
    exists|i: int| 0 <= i < list.len() && #[trigger] list[i]@ == name
}

/// Whether cleaning the download directory deletes a file of this name:
/// `.torrent` and `.torrent.aria2` files unless they belong to a download that
/// is active, paused or pending; other `.aria2` control files only when no
/// download is.
pub open spec fn spec_should_clean(name: Seq<char>, active_gids: Seq<String>) -> bool {
    if spec_ends_with(name, ".torrent"@) || spec_ends_with(name, ".torrent.aria2"@) {
        !listed(active_gids, spec_leftover_stem(name))
    } else if spec_ends_with(name, ".aria2"@) {
        active_gids.len() == 0
    } else {
        false
    }
}

fn is_listed(list: &Vec<String>, name: &[char]) -> (b: bool)
    ensures
        b == listed(list@, name@),
{
    let mut i: usize = 0;
    while i < list.len()
        invariant
            i <= list.len(),
            forall|k: int| 0 <= k < i ==> list@[k]@ != name@,
        decreases list.len() - i,
    {
        if chars_eq(&chars_of(list[i].as_str()), name) {
            return true;
        }
        i += 1;
    }
    false
}

pub fn should_clean(name: &str, active_gids: &Vec<String>) -> (b: bool)
    ensures
        b == spec_should_clean(name@, active_gids@),
{
    if str_ends_with(name, ".torrent") || str_ends_with(name, ".torrent.aria2") {
        let v = chars_of(name);
        let a = chars_of(".torrent.aria2");
        let t = chars_of(".torrent");
        proof {
            reveal_strlit(".torrent.aria2");
            reveal_strlit(".torrent");
        }
        let empty: Vec<char> = Vec::new();
        let stem = replace(&replace(&v, &a, &empty), &t, &empty);
        !is_listed(active_gids, &stem)
    } else if str_ends_with(name, ".aria2") {
        active_gids.len() == 0
    } else {
        false
    }
}

/// How a cleaned file is reported: `<directory name>/<file name>`.
pub fn clean_label(dir_name: &str, name: &str) -> (r: String)
    ensures
        r@ == dir_name@ + "/"@ + name@,
{
    str_concat(str_concat(dir_name, "/").as_str(), name)
}

/// The report of a clean: `Cleaned <n> files: <labels joined by ", ">`.
pub fn clean_summary(labels: &Vec<String>) -> (r: String)
    ensures
        r@ == "Cleaned "@ + spec_decimal(labels@.len() as nat) + " files: "@ + spec_join(
            labels@.map_values(|s: String| s@),
            ", "@,
        ),
{
    let mut lines: Vec<Vec<char>> = Vec::new();
    let mut i: usize = 0;
    while i < labels.len()
        invariant
            i <= labels.len(),
            views(lines@) == labels@.take(i as int).map_values(|s: String| s@),
        decreases labels.len() - i,
    {
        let ghost before = lines@;
        lines.push(chars_of(labels[i].as_str()));
        assert(views(lines@) =~= views(before).push(labels@[i as int]@));
        assert(labels@.take(i + 1).map_values(|s: String| s@) =~= labels@.take(
            i as int,
        ).map_values(|s: String| s@).push(labels@[i as int]@));
        i += 1;
    }
    assert(labels@.take(labels.len() as int) =~= labels@);
    let mut v = chars_of("Cleaned ");
    append(&mut v, &decimal_u64(labels.len() as u64));
    append(&mut v, &chars_of(" files: "));
    append(&mut v, &join(&lines, &chars_of(", ")));
    assert(v@ =~= "Cleaned "@ + spec_decimal(labels@.len() as nat) + " files: "@ + spec_join(
        labels@.map_values(|s: String| s@),
        ", "@,
    ));
    string_of(&v)
}

} // verus!

verus! {

/// Every pending episode lands in exactly one group, and the groups are the
/// episodes' list cut in order: each episode lies inside one span and no other.
pub proof fn lemma_pending_groups_partition(keys: Seq<PendingKey>, spans: Seq<PendingSpan>, i: int)
    requires
        grouped_upto(keys, spans, keys.len() as int),
        0 <= i < keys.len(),
    ensures
        exists|j: int| 0 <= j < spans.len() && (#[trigger] spans[j]).start <= i < spans[j].end,
        forall|j: int, k: int|
            0 <= j < spans.len() && 0 <= k < spans.len() && (#[trigger] spans[j]).start <= i
                < spans[j].end && (#[trigger] spans[k]).start <= i < spans[k].end ==> j == k,
{
    lemma_spans_ordered(keys, spans);
    lemma_span_covers(keys, spans, i, spans.len() - 1);
}

proof fn lemma_spans_ordered(keys: Seq<PendingKey>, spans: Seq<PendingSpan>)
    requires
        grouped_upto(keys, spans, keys.len() as int),
    ensures
        forall|j: int, k: int|
            0 <= j < k < spans.len() ==> (#[trigger] spans[j]).end <= (#[trigger] spans[k]).start,
{
    assert forall|j: int, k: int| 0 <= j < k < spans.len() implies (
    #[trigger] spans[j]).end <= (#[trigger] spans[k]).start by {
        lemma_span_chain(keys, spans, j, k);
    }
}

proof fn lemma_span_chain(keys: Seq<PendingKey>, spans: Seq<PendingSpan>, j: int, k: int)
    requires
        grouped_upto(keys, spans, keys.len() as int),
        0 <= j < k < spans.len(),
    ensures
        spans[j].end <= spans[k].start,
    decreases k - j,
{
    assert(spans[k - 1].end == spans[k].start);
    if j < k - 1 {
        lemma_span_chain(keys, spans, j, k - 1);
        assert(spans[k - 1].start < spans[k - 1].end);
    }
}

proof fn lemma_span_covers(keys: Seq<PendingKey>, spans: Seq<PendingSpan>, i: int, m: int)
    requires
        grouped_upto(keys, spans, keys.len() as int),
        0 <= m < spans.len(),
        0 <= i < spans[m].end,
    ensures
        exists|j: int| 0 <= j <= m && (#[trigger] spans[j]).start <= i < spans[j].end,
    decreases m,
{
    if i < spans[m].start {
        assert(m > 0);
        assert(spans[m - 1].end == spans[m].start);
        lemma_span_covers(keys, spans, i, m - 1);
    }
}

/// Cleaning the download directory never deletes the torrent file, or its
/// control file, of a download that is still active, paused or pending (its
/// GID, a run of hexadecimal digits, holds no `.`).
pub proof fn lemma_clean_spares_active_leftovers(gid: Seq<char>, active_gids: Seq<String>)
    requires
        listed(active_gids, gid),
        forall|i: int| 0 <= i < gid.len() ==> #[trigger] gid[i] != '.',
    ensures
        !spec_should_clean(gid + ".torrent"@, active_gids),
        !spec_should_clean(gid + ".torrent.aria2"@, active_gids),
{
    reveal_strlit(".torrent");
    reveal_strlit(".torrent.aria2");
    let tor = ".torrent"@;
    let tora = ".torrent.aria2"@;
    let e = Seq::<char>::empty();
    let t = gid + tor;
    let ta = gid + tora;
    assert(t.subrange(t.len() - 8, t.len() as int) =~= tor);
    assert(ta.subrange(ta.len() - 14, ta.len() as int) =~= tora);
    // gid + ".torrent"
    lemma_replace_plain_prefix(gid, tor, tora);
    lemma_replace_short(tor, tora);
    lemma_replace_plain_prefix(gid, tor, tor);
    assert(tor.subrange(0, 8) =~= tor);
    assert(tor.subrange(8, 8) =~= e);
    assert(spec_starts_with(tor, tor));
    assert(spec_replace(e, tor, e) == e);
    assert(spec_replace(tor, tor, e) == e + spec_replace(e, tor, e));
    assert(spec_replace(tor, tor, e) =~= e);
    assert(gid + e =~= gid);
    assert(spec_leftover_stem(t) == gid);
    // gid + ".torrent.aria2"
    lemma_replace_plain_prefix(gid, tora, tora);
    assert(tora.subrange(0, 14) =~= tora);
    assert(tora.subrange(14, 14) =~= e);
    assert(spec_starts_with(tora, tora));
    assert(spec_replace(e, tora, e) == e);
    assert(spec_replace(tora, tora, e) == e + spec_replace(e, tora, e));
    assert(spec_replace(tora, tora, e) =~= e);
    lemma_replace_plain_prefix(gid, e, tor);
    assert(spec_leftover_stem(ta) == gid);
}

/// A piece without `.` is kept by replacing a pattern that begins with `.`.
proof fn lemma_replace_plain_prefix(gid: Seq<char>, tail: Seq<char>, pat: Seq<char>)
    requires
        pat.len() > 0,
        pat[0] == '.',
        forall|i: int| 0 <= i < gid.len() ==> #[trigger] gid[i] != '.',
    ensures
        spec_replace(gid + tail, pat, Seq::empty()) == gid + spec_replace(tail, pat, Seq::empty()),
    decreases gid.len(),
{
    if gid.len() > 0 {
        let s = gid + tail;
        assert(s[0] == gid[0]);
        assert(!spec_starts_with(s, pat)) by {
            if spec_starts_with(s, pat) {
                assert(s.subrange(0, pat.len() as int)[0] == pat[0]);
            }
        }
        assert(s.drop_first() =~= gid.drop_first() + tail);
        lemma_replace_plain_prefix(gid.drop_first(), tail, pat);
        assert(seq![gid[0]] + (gid.drop_first() + spec_replace(tail, pat, Seq::empty())) =~= gid
            + spec_replace(tail, pat, Seq::empty()));
    } else {
        assert(gid + tail =~= tail);
        assert(gid + spec_replace(tail, pat, Seq::empty()) =~= spec_replace(
            tail,
            pat,
            Seq::empty(),
        ));
    }
}

/// A text shorter than the pattern is left as it is.
proof fn lemma_replace_short(s: Seq<char>, pat: Seq<char>)
    requires
        s.len() < pat.len(),
    ensures
        spec_replace(s, pat, Seq::empty()) == s,
    decreases s.len(),
{
    if s.len() > 0 {
        lemma_replace_short(s.drop_first(), pat);
        assert(seq![s[0]] + s.drop_first() =~= s);
    }
}

} // verus!
