//! Playback controller: cached playback state and the clamping /
//! validation rules of every public player operation.
//!
//! The controller owns the cached volume, speed, gapless flag and the
//! "paused by the user" tag. Each operation validates and clamps its
//! input, updates the cached state, and returns a plan (a target state,
//! a seek target, a source locator) that the unverified shell carries
//! out against the media engine.

use vstd::prelude::*;

verus! {

/// Pipeline states the controller asks the engine to enter.
#[derive(Clone, Copy, PartialEq, Eq, Structural, Debug)]
pub enum EngineState {
    Ready,
    Playing,
    Paused,
    Stopped,
}

/// The media kinds a track can carry.
#[derive(Clone, Copy, PartialEq, Eq, Structural, Debug)]
pub enum MediaType {
    Music,
    Podcast,
    LiveRadio,
}

/// How a source locator must be handed to the engine: a local path
/// still to be converted to a `file://` URI, or a remote URL passed
/// through unchanged.
pub enum SourceSpec {
    LocalPath(String),
    RemoteUrl(String),
}

/// What `add_and_play` asks of the engine: go to `Ready`, set the
/// source if one was resolved, then go to `Playing`.
pub struct PlayPlan {
    pub source: Option<SourceSpec>,
}

/// A rate-changing seek, sent to the audio sink: play the segment
/// `[segment_start_ns, segment_stop_ns)` at `rate_tenths / 10`. A
/// positive rate plays forward from the current position with an
/// open-ended stop bound (`None`); a negative rate plays in reverse
/// over the segment from zero up to the current position.
pub struct RateSeekPlan {
    pub rate_tenths: i32,
    pub segment_start_ns: u64,
    pub segment_stop_ns: Option<u64>,
}

/// A position seek: mute, seek to `target_secs`, then restore the
/// cached volume `restore_volume`.
pub struct SeekPlan {
    pub target_secs: u64,
    pub restore_volume: u16,
}

/// A progress report: the position always, the duration only when the
/// engine could report it.
pub struct Progress {
    pub position_secs: u64,
    pub total_duration_secs: Option<u64>,
}

/// Volume as cached: clamped to `[0, 100]`.
pub open spec fn spec_clamped_volume(v: int) -> int {
    if v > 100 {
        100
    } else {
        v
    }
}

/// One volume step up: by 5, saturating at 100.
pub open spec fn spec_volume_up(v: int) -> int {
    if v + 5 > 100 {
        100
    } else {
        v + 5
    }
}

/// One volume step down: by 5, saturating at 0.
pub open spec fn spec_volume_down(v: int) -> int {
    if v - 5 < 0 {
        0
    } else {
        v - 5
    }
}

/// A playback rate in tenths is valid when it lies in
/// `[-30, -1] ∪ [1, 30]`: never zero.
pub open spec fn valid_speed(s: int) -> bool {
    -30 <= s && s <= 30 && s != 0
}

/// One speed step up: by 1, clamped into `[1, 30]`.
pub open spec fn spec_speed_up(s: int) -> int {
    if s + 1 > 30 {
        30
    } else if s + 1 < 1 {
        1
    } else {
        s + 1
    }
}

/// One speed step down: by 1, clamped below at 1.
pub open spec fn spec_speed_down(s: int) -> int {
    if s - 1 < 1 {
        1
    } else {
        s - 1
    }
}

/// A relative seek's target: the current position plus the offset,
/// clamped to `[0, duration - 6]`; the margin of 6 seconds keeps the
/// target out of the unstable zone at the end of the track. When the
/// track is shorter than the margin the target is 0.
pub open spec fn spec_seek_target(position: int, duration: int, offset: int) -> int {
    let upper = if duration >= 6 {
        duration - 6
    } else {
        0
    };
    let lowered = if position + offset < 0 {
        0
    } else {
        position + offset
    };
    if lowered > upper {
        upper
    } else {
        lowered
    }
}

/// A string is a remote locator when it starts with `http`.
pub open spec fn spec_is_remote(s: Seq<char>) -> bool {
    s.len() >= 4 && s[0] == 'h' && s[1] == 't' && s[2] == 't' && s[3] == 'p'
}

/// The cached playback state. Invariant: the volume stays in
/// `[0, 100]` and the speed is a valid rate, never zero.
pub struct PlaybackController {
    pub volume: u16,
    pub speed: i32,
    pub gapless: bool,
    pub paused_by_user: bool,
}

impl PlaybackController {
    /// The controller's invariant: volume in range, speed valid.
    pub open spec fn inv(&self) -> bool {
        self.volume <= 100 && valid_speed(self.speed as int)
    }

    /// Build a controller from the configured initial volume, speed
    /// and gapless flag; the volume is clamped into range.
    pub fn new(volume: u16, speed: i32, gapless: bool) -> (r: Self)
        requires
            valid_speed(speed as int),
        ensures
            r.volume as int == spec_clamped_volume(volume as int),
            r.speed == speed,
            r.gapless == gapless,
            !r.paused_by_user,
            r.inv(),
    {
        let v: u16 = if volume > 100 {
            100
        } else {
            volume
        };
        PlaybackController { volume: v, speed, gapless, paused_by_user: false }
    }

    /// The cached volume.
    pub fn volume(&self) -> (r: u16)
        ensures
            r == self.volume,
    {
        self.volume
    }

    /// Clamp `volume` to `[0, 100]`, cache it, and return the value
    /// the engine must be given (as a percentage to normalize).
    pub fn set_volume(&mut self, volume: u16) -> (r: u16)
        ensures
            final(self).volume as int == spec_clamped_volume(volume as int),
            r == final(self).volume,
            final(self).volume <= 100,
            final(self).speed == old(self).speed,
            final(self).gapless == old(self).gapless,
            final(self).paused_by_user == old(self).paused_by_user,
            old(self).inv() ==> final(self).inv(),
    {
        let v: u16 = if volume > 100 {
            100
        } else {
            volume
        };
        self.volume = v;
        v
    }

    /// Step the volume up by 5, saturating at 100.
    pub fn volume_up(&mut self) -> (r: u16)
        ensures
            final(self).volume as int == spec_volume_up(old(self).volume as int),
            r == final(self).volume,
            final(self).speed == old(self).speed,
            final(self).gapless == old(self).gapless,
            final(self).paused_by_user == old(self).paused_by_user,
            old(self).inv() ==> final(self).inv(),
    {
        let v: u16 = if self.volume > 95 {
            100
        } else {
            self.volume + 5
        };
        self.set_volume(v)
    }

    /// Step the volume down by 5, saturating at 0.
    pub fn volume_down(&mut self) -> (r: u16)
        requires
            old(self).inv(),
        ensures
            final(self).volume as int == spec_volume_down(old(self).volume as int),
            r == final(self).volume,
            final(self).speed == old(self).speed,
            final(self).gapless == old(self).gapless,
            final(self).paused_by_user == old(self).paused_by_user,
            old(self).inv() ==> final(self).inv(),
    {
        let v: u16 = if self.volume < 5 {
            0
        } else {
            self.volume - 5
        };
        self.set_volume(v)
    }

    /// The cached speed, in tenths of the playback rate.
    pub fn speed(&self) -> (r: i32)
        ensures
            r == self.speed,
    {
        self.speed
    }

    /// Commit `speed` to the cache and return the rate-changing seek
    /// to send. The cached value is committed before the engine is
    /// asked: a failed seek leaves the nominal speed in place, an
    /// intentional choice that keeps the displayed speed consistent.
    pub fn set_speed(&mut self, speed: i32, position_ns: u64) -> (r: RateSeekPlan)
        requires
            valid_speed(speed as int),
        ensures
            final(self).speed == speed,
            final(self).volume == old(self).volume,
            final(self).gapless == old(self).gapless,
            final(self).paused_by_user == old(self).paused_by_user,
            r.rate_tenths == speed,
            speed > 0 ==> r.segment_start_ns == position_ns && r.segment_stop_ns is None,
            speed < 0 ==> r.segment_start_ns == 0 && r.segment_stop_ns == Some(position_ns),
            old(self).inv() ==> final(self).inv(),
    {
        self.speed = speed;
        if speed > 0 {
            RateSeekPlan { rate_tenths: speed, segment_start_ns: position_ns, segment_stop_ns: None }
        } else {
            RateSeekPlan { rate_tenths: speed, segment_start_ns: 0, segment_stop_ns: Some(position_ns) }
        }
    }

    /// Step the speed up by one tenth, clamped into `[1, 30]`.
    pub fn speed_up(&mut self, position_ns: u64) -> (r: RateSeekPlan)
        ensures
            final(self).speed as int == spec_speed_up(old(self).speed as int),
            final(self).volume == old(self).volume,
            final(self).gapless == old(self).gapless,
            final(self).paused_by_user == old(self).paused_by_user,
            r.rate_tenths == final(self).speed,
            r.segment_start_ns == position_ns,
            r.segment_stop_ns is None,
            valid_speed(final(self).speed as int),
            old(self).inv() ==> final(self).inv(),
    {
        let s: i32 = if self.speed >= 30 {
            30
        } else if self.speed < 0 {
            1
        } else {
            self.speed + 1
        };
        self.set_speed(s, position_ns)
    }

    /// Step the speed down by one tenth, clamped below at 1.
    pub fn speed_down(&mut self, position_ns: u64) -> (r: RateSeekPlan)
        requires
            old(self).inv(),
        ensures
            final(self).speed as int == spec_speed_down(old(self).speed as int),
            final(self).volume == old(self).volume,
            final(self).gapless == old(self).gapless,
            final(self).paused_by_user == old(self).paused_by_user,
            r.rate_tenths == final(self).speed,
            r.segment_start_ns == position_ns,
            r.segment_stop_ns is None,
            final(self).inv(),
    {
        let s: i32 = if self.speed <= 1 {
            1
        } else {
            self.speed - 1
        };
        self.set_speed(s, position_ns)
    }

    /// Plan a relative seek: the target is the current position plus
    /// `offset_secs`, clamped to `[0, duration - 6]`; the shell mutes,
    /// seeks, and restores `restore_volume`.
    pub fn seek(&self, offset_secs: i64, position_secs: u64, duration_secs: u64) -> (r: SeekPlan)
        ensures
            r.target_secs as int == spec_seek_target(
                position_secs as int,
                duration_secs as int,
                offset_secs as int,
            ),
            r.restore_volume == self.volume,
    {
        let upper: u64 = if duration_secs >= 6 {
            duration_secs - 6
        } else {
            0
        };
        let want: i128 = position_secs as i128 + offset_secs as i128;
        let lowered: i128 = if want < 0 {
            0
        } else {
            want
        };
        let target: u64 = if lowered > upper as i128 {
            upper
        } else {
            lowered as u64
        };
        SeekPlan { target_secs: target, restore_volume: self.volume }
    }

    /// Plan an absolute seek to `position_secs`; the shell mutes,
    /// retries the seek until it succeeds, and restores the volume.
    pub fn seek_to(&self, position_secs: u64) -> (r: SeekPlan)
        ensures
            r.target_secs == position_secs,
            r.restore_volume == self.volume,
    {
        SeekPlan { target_secs: position_secs, restore_volume: self.volume }
    }

    /// A user pause: remember that the user asked, so that a later
    /// buffering-complete signal never overrides it.
    pub fn pause(&mut self) -> (r: EngineState)
        ensures
            r == EngineState::Paused,
            final(self).paused_by_user,
            final(self).volume == old(self).volume,
            final(self).speed == old(self).speed,
            final(self).gapless == old(self).gapless,
            old(self).inv() ==> final(self).inv(),
    {
        self.paused_by_user = true;
        EngineState::Paused
    }

    /// A user resume: clears the user-pause tag.
    pub fn resume(&mut self) -> (r: EngineState)
        ensures
            r == EngineState::Playing,
            !final(self).paused_by_user,
            final(self).volume == old(self).volume,
            final(self).speed == old(self).speed,
            final(self).gapless == old(self).gapless,
            old(self).inv() ==> final(self).inv(),
    {
        self.paused_by_user = false;
        EngineState::Playing
    }

    /// Stop is best-effort teardown: the engine goes to `Stopped`.
    pub fn stop(&self) -> (r: EngineState)
        ensures
            r == EngineState::Stopped,
    {
        EngineState::Stopped
    }

    /// Whether a buffering-complete `Play` signal may resume playback:
    /// never when the pause was the user's own.
    pub fn allow_buffering_resume(&self) -> (r: bool)
        ensures
            r == !self.paused_by_user,
    {
        !self.paused_by_user
    }

    /// The cached gapless flag.
    pub fn gapless(&self) -> (r: bool)
        ensures
            r == self.gapless,
    {
        self.gapless
    }

    /// Set the gapless flag.
    pub fn set_gapless(&mut self, to: bool) -> (r: bool)
        ensures
            final(self).gapless == to,
            final(self).volume == old(self).volume,
            final(self).speed == old(self).speed,
            final(self).paused_by_user == old(self).paused_by_user,
            r == to,
            old(self).inv() ==> final(self).inv(),
    {
        self.gapless = to;
        to
    }

    /// Start a new track: resolve its source — music is a local file,
    /// podcasts and live radio are remote URLs, a missing media kind
    /// or file leaves the source unset — and clear the user-pause
    /// tag, so that the new track's buffering signals can resume it.
    /// The shell puts the engine in `Ready`, sets the source, and
    /// sets it `Playing`.
    pub fn add_and_play(&mut self, media_type: Option<MediaType>, file: Option<String>) -> (r:
        PlayPlan)
        ensures
            match (media_type, file) {
                (Some(MediaType::Music), Some(f)) => r.source matches Some(
                    SourceSpec::LocalPath(p),
                ) && p == f,
                (Some(MediaType::Podcast), Some(f)) => r.source matches Some(
                    SourceSpec::RemoteUrl(u),
                ) && u == f,
                (Some(MediaType::LiveRadio), Some(f)) => r.source matches Some(
                    SourceSpec::RemoteUrl(u),
                ) && u == f,
                _ => r.source is None,
            },
            !final(self).paused_by_user,
            final(self).volume == old(self).volume,
            final(self).speed == old(self).speed,
            final(self).gapless == old(self).gapless,
            old(self).inv() ==> final(self).inv(),
    {
        self.paused_by_user = false;
        match (media_type, file) {
            (Some(MediaType::Music), Some(f)) => PlayPlan {
                source: Some(SourceSpec::LocalPath(f)),
            },
            (Some(MediaType::Podcast), Some(f)) => PlayPlan {
                source: Some(SourceSpec::RemoteUrl(f)),
            },
            (Some(MediaType::LiveRadio), Some(f)) => PlayPlan {
                source: Some(SourceSpec::RemoteUrl(f)),
            },
            _ => PlayPlan { source: None },
        }
    }
}

/// Map an engine state answer to "is paused": any state other than
/// `Playing` is conservatively reported as paused.
pub fn is_paused_state(state: EngineState) -> (r: bool)
    ensures
        r == (state != EngineState::Playing),
{
    match state {
        EngineState::Playing => false,
        _ => true,
    }
}

/// A position query that could not be answered counts as position 0.
pub fn position_from_query(q: Option<u64>) -> (r: u64)
    ensures
        r == (match q {
            Some(p) => p,
            None => 0u64,
        }),
{
    match q {
        Some(p) => p,
        None => 0,
    }
}

/// A duration query that could not be answered falls back to the
/// fixed placeholder of 99 seconds used while the pipeline warms up.
pub fn duration_from_query(q: Option<u64>) -> (r: u64)
    ensures
        r == (match q {
            Some(d) => d,
            None => 99u64,
        }),
{
    match q {
        Some(d) => d,
        None => 99,
    }
}

/// Combine the raw query answers into a progress report: the position
/// defaults to 0, the duration stays absent when the engine could not
/// report it.
pub fn progress_report(position: Option<u64>, duration: Option<u64>) -> (r: Progress)
    ensures
        r.position_secs == (match position {
            Some(p) => p,
            None => 0u64,
        }),
        r.total_duration_secs == duration,
{
    Progress { position_secs: position_from_query(position), total_duration_secs: duration }
}

/// The played share of the track in percent, capped at 100; absent
/// when the duration is zero and the share is undefined.
pub fn percent_progress(position_secs: u64, duration_secs: u64) -> (r: Option<u64>)
    ensures
        duration_secs == 0 ==> r is None,
        duration_secs > 0 ==> r == Some(
            (if position_secs as int * 100 / duration_secs as int > 100 {
                100int
            } else {
                position_secs as int * 100 / duration_secs as int
            }) as u64,
        ),
{
    if duration_secs == 0 {
        None
    } else {
        let p: u128 = position_secs as u128 * 100 / duration_secs as u128;
        if p > 100 {
            Some(100)
        } else {
            Some(p as u64)
        }
    }
}

/// Resolve the locator of the next track for gapless pre-buffering: a
/// string starting with `http` is a remote URL passed through, any
/// other is a local path for the shell to turn into a URI.
pub fn resolve_source(next_track: String) -> (r: SourceSpec)
    ensures
        spec_is_remote(next_track@) ==> (r matches SourceSpec::RemoteUrl(u) && u@ == next_track@),
        !spec_is_remote(next_track@) ==> (r matches SourceSpec::LocalPath(p) && p@
            == next_track@),
{
    let n = next_track.as_str().unicode_len();
    let remote: bool = if n >= 4 {
        let s = next_track.as_str();
        s.get_char(0) == 'h' && s.get_char(1) == 't' && s.get_char(2) == 't' && s.get_char(3)
            == 'p'
    } else {
        false
    };
    if remote {
        SourceSpec::RemoteUrl(next_track)
    } else {
        SourceSpec::LocalPath(next_track)
    }
}

/// The volume stays in range and equals the clamp of the request.
pub proof fn lemma_set_volume_clamps(v: int)
    ensures
        0 <= v ==> 0 <= spec_clamped_volume(v) <= 100,
        0 <= v <= 100 ==> spec_clamped_volume(v) == v,
{
}

/// A volume step up followed by a step down never leaves `[0, 100]`.
pub proof fn lemma_volume_up_down_in_range(v: int)
    requires
        0 <= v <= 100,
    ensures
        0 <= spec_volume_down(spec_volume_up(v)) <= 100,
{
}

/// `n` volume steps up from `v` reach `min(v + 5 n, 100)`.
pub proof fn lemma_volume_up_n_closed(v: int, n: nat)
    requires
        0 <= v <= 100,
    ensures
        spec_volume_up_n(v, n) == (if v + 5 * n > 100 {
            100int
        } else {
            v + 5 * n
        }),
    decreases n,
{
    if n > 0 {
        lemma_volume_up_n_closed(v, (n - 1) as nat);
    }
}

/// Iterated volume steps up.
pub open spec fn spec_volume_up_n(v: int, n: nat) -> int
    decreases n,
{
    if n == 0 {
        v
    } else {
        spec_volume_up(spec_volume_up_n(v, (n - 1) as nat))
    }
}

/// Enough volume steps up converge to exactly 100: saturation, not
/// wrap-around. Twenty steps suffice from any valid volume.
pub proof fn lemma_volume_up_converges(v: int, n: nat)
    requires
        0 <= v <= 100,
        n >= 20,
    ensures
        spec_volume_up_n(v, n) == 100,
{
    lemma_volume_up_n_closed(v, n);
}

/// Speed stepping saturates at the configured bounds: up from 30
/// stays at 30, down from 1 stays at 1.
pub proof fn lemma_speed_saturates()
    ensures
        spec_speed_up(30) == 30,
        spec_speed_down(1) == 1,
{
}

/// A relative seek's target never lies below 0 nor above
/// `duration - 6` (for any track at least as long as the margin).
pub proof fn lemma_seek_target_bounds(position: int, duration: int, offset: int)
    requires
        position >= 0,
        duration >= 0,
    ensures
        0 <= spec_seek_target(position, duration, offset),
        duration >= 6 ==> spec_seek_target(position, duration, offset) <= duration - 6,
        duration < 6 ==> spec_seek_target(position, duration, offset) == 0,
{
}

} // verus!
