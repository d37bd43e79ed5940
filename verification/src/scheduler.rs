//! Timing of the background RSS refresh.
use vstd::prelude::*;
use crate::decimal::{parse_u64, spec_parse_in};
use crate::text::chars_of;
use crate::download::{source_view, spec_download_source, DownloadSource};
use crate::rss::EpisodeInfo;
use crate::subscriptions::RefreshState;

verus! {

/// The refresh interval in whole minutes, never less than one.
pub fn sleep_minutes(minutes: u64) -> (r: u64)
    ensures
        r == if minutes < 1 {
            1
        } else {
            minutes
        },
        r >= 1,
{
    if minutes < 1 {
        1
    } else {
        minutes
    }
}

/// How many ten-second naps an interval of `minutes` is slept as.
pub fn sleep_chunks(minutes: u64) -> (r: u64)
    requires
        minutes <= u64::MAX / 6,
    ensures
        r == 6 * sleep_minutes_spec(minutes),
{
    sleep_minutes(minutes) * 6
}

/// The seconds the scheduler waits before its first refresh.
pub fn initial_delay_secs(minutes: u64) -> (r: u64)
    requires
        minutes <= u64::MAX / 60,
    ensures
        r == 60 * sleep_minutes_spec(minutes),
{
    sleep_minutes(minutes) * 60
}

pub open spec fn sleep_minutes_spec(minutes: u64) -> int {
    if minutes < 1 {
        1
    } else {
        minutes as int
    }
}

/// The refresh interval setting read as minutes: 30 when it is missing or not
/// a `u64`.
pub fn refresh_interval_minutes(stored: &Option<String>) -> (r: u64)
    ensures
        r == (match stored {
            Some(t) => match spec_parse_in(t@, false, 0, u64::MAX as int) {
                Some(n) => n,
                None => 30,
            },
            None => 30,
        }),
{
    match stored {
        Some(t) => match parse_u64(&chars_of(t.as_str())) {
            Some(n) => n,
            None => 30,
        },
        None => 30,
    }
}

/// The refresh waits the interval, at least one minute, before its first
/// fetch and between fetches: the initial delay and the six ten-second naps
/// per minute between cycles both come to `60 * max(minutes, 1)` seconds.
pub proof fn lemma_refresh_spacing(minutes: u64)
    ensures
        10 * (6 * sleep_minutes_spec(minutes)) == 60 * sleep_minutes_spec(minutes),
        60 * sleep_minutes_spec(minutes) >= 60,
        sleep_minutes_spec(minutes) >= minutes,
{
}

/// What a scheduled refresh downloads for a new episode once its record was
/// tried: the episode's id and source, only when the record was inserted
/// (`Some(id)`), the subscription downloads automatically and the episode has
/// a torrent URL or a magnet URI.
pub fn scheduled_download(inserted: Option<String>, auto_download: bool, ep: &EpisodeInfo) -> (r:
    Option<(String, DownloadSource)>)
    ensures
        match r {
            Some((id, s)) => {
                &&& inserted == Some(id)
                &&& auto_download
                &&& spec_download_source(ep.torrent_url@, ep.magnet_uri@) == Some(source_view(s))
            },
            None => inserted is None || !auto_download || spec_download_source(
                ep.torrent_url@,
                ep.magnet_uri@,
            ) is None,
        },
{
    match inserted {
        Some(id) => match RefreshState::download_source(auto_download, ep) {
            Some(s) => Some((id, s)),
            None => None,
        },
        None => None,
    }
}

/// The episode record a scheduled download marks as started: the episode and
/// aria2's GID, only when aria2 accepted the download.
pub fn started_record(episode_id: String, added: Result<String, String>) -> (r: Option<
    (String, String),
>)
    ensures
        match added {
            Ok(g) => r == Some((episode_id, g)),
            Err(_) => r is None,
        },
{
    match added {
        Ok(g) => Some((episode_id, g)),
        Err(_) => None,
    }
}

/// What the background refresh does next.
pub enum ScheduleAction {
    /// Sleep this many seconds.
    Sleep(u64),
    /// Fetch every enabled subscription.
    Refresh,
}

/// The timing of the background refresh: the seconds slept since start-up or
/// since the last refresh, the seconds to sleep before the next one, and
/// whether the first refresh is still ahead.
pub struct RefreshClock {
    pub slept: u64,
    pub due: u64,
    pub first: bool,
}

/// One step of the clock as `RefreshClock::next` takes it: a sleep adds its
/// seconds and keeps what is due; a refresh happens only once all that is due
/// was slept, and changes nothing.
pub open spec fn clock_step(c: RefreshClock, a: ScheduleAction, d: RefreshClock) -> bool {
    match a {
        ScheduleAction::Sleep(s) => d.slept == c.slept + s && d.due == c.due,
        ScheduleAction::Refresh => c.slept >= c.due && d == c,
    }
}

/// The seconds slept over a run of actions.
pub open spec fn slept_total(actions: Seq<ScheduleAction>) -> int
    decreases actions.len(),
{
    if actions.len() == 0 {
        0
    } else {
        slept_total(actions.drop_last()) + match actions.last() {
            ScheduleAction::Sleep(s) => s as int,
            ScheduleAction::Refresh => 0int,
        }
    }
}

impl RefreshClock {
    /// The clock at start-up, with the stored interval: the first refresh
    /// waits the interval, at least one minute.
    pub fn new(minutes: u64) -> (r: RefreshClock)
        requires
            minutes <= u64::MAX / 60,
        ensures
            r.slept == 0,
            r.due == 60 * sleep_minutes_spec(minutes),
            r.first,
    {
        RefreshClock { slept: 0, due: initial_delay_secs(minutes), first: true }
    }

    /// The next action: before the first refresh, one sleep of all that is
    /// still due; later, naps of ten seconds (less only for a remainder);
    /// a refresh once all that is due was slept.
    pub fn next(&mut self) -> (r: ScheduleAction)
        requires
            old(self).slept <= old(self).due,
        ensures
            clock_step(*old(self), r, *final(self)),
            final(self).slept <= final(self).due,
            final(self).first == old(self).first,
            old(self).slept >= old(self).due <==> r is Refresh,
            old(self).slept < old(self).due && old(self).first ==> r == ScheduleAction::Sleep(
                (old(self).due - old(self).slept) as u64,
            ),
            old(self).slept < old(self).due && !old(self).first ==> r == ScheduleAction::Sleep(
                if old(self).due - old(self).slept < 10 {
                    (old(self).due - old(self).slept) as u64
                } else {
                    10u64
                },
            ),
    {
        if self.slept >= self.due {
            ScheduleAction::Refresh
        } else {
            let rest = self.due - self.slept;
            let s = if self.first || rest < 10 {
                rest
            } else {
                10
            };
            self.slept = self.slept + s;
            ScheduleAction::Sleep(s)
        }
    }

    /// After a refresh: the next one waits the interval read at the start of
    /// this refresh, at least one minute, slept in ten-second naps.
    pub fn refreshed(&mut self, minutes: u64)
        requires
            minutes <= u64::MAX / 60,
        ensures
            final(self).slept == 0,
            final(self).due == 60 * sleep_minutes_spec(minutes),
            final(self).due == 10 * (6 * sleep_minutes_spec(minutes)),
            !final(self).first,
    {
        self.slept = 0;
        self.due = initial_delay_secs(minutes);
        self.first = false;
    }
}

proof fn lemma_slept_so_far(clocks: Seq<RefreshClock>, actions: Seq<ScheduleAction>, k: int)
    requires
        clocks.len() == actions.len() + 1,
        forall|i: int|
            0 <= i < actions.len() ==> clock_step(clocks[i], #[trigger] actions[i], clocks[i + 1]),
        forall|i: int| 0 <= i < actions.len() - 1 ==> (#[trigger] actions[i]) is Sleep,
        0 <= k < actions.len(),
    ensures
        clocks[k].slept == clocks[0].slept + slept_total(actions.take(k)),
        clocks[k].due == clocks[0].due,
    decreases k,
{
    if k == 0 {
        assert(actions.take(0) =~= Seq::<ScheduleAction>::empty());
    } else {
        lemma_slept_so_far(clocks, actions, k - 1);
        assert(actions.take(k).drop_last() =~= actions.take(k - 1));
        assert(actions.take(k).last() == actions[k - 1]);
        assert(actions[k - 1] is Sleep);
        assert(clock_step(clocks[k - 1], actions[k - 1], clocks[k]));
    }
}

/// The refresh never comes early: from a clock that has slept nothing (at
/// start-up, or just after a refresh), the sleeps before the next refresh add
/// up to at least what was due, that is `60 * max(interval, 1)` seconds for the
/// interval the clock was set with.
pub proof fn lemma_refresh_waits_the_interval(
    clocks: Seq<RefreshClock>,
    actions: Seq<ScheduleAction>,
)
    requires
        clocks.len() == actions.len() + 1,
        clocks[0].slept == 0,
        forall|i: int|
            0 <= i < actions.len() ==> clock_step(clocks[i], #[trigger] actions[i], clocks[i + 1]),
        forall|i: int| 0 <= i < actions.len() - 1 ==> (#[trigger] actions[i]) is Sleep,
        actions.len() > 0,
        actions.last() is Refresh,
    ensures
        slept_total(actions.drop_last()) >= clocks[0].due,
{
    let n = actions.len() - 1;
    lemma_slept_so_far(clocks, actions, n);
    assert(actions.take(n) =~= actions.drop_last());
    assert(actions[n] == actions.last());
    assert(clock_step(clocks[n], actions[n], clocks[n + 1]));
}

} // verus!
