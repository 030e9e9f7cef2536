use termusic_core::controller::{
    duration_from_query, is_paused_state, percent_progress, position_from_query, progress_report,
    resolve_source, EngineState, MediaType, PlaybackController, SourceSpec,
};

fn fresh() -> PlaybackController {
    PlaybackController::new(50, 10, false)
}

#[test]
fn set_volume_clamps_to_range() {
    let mut c = fresh();
    assert_eq!(c.set_volume(150), 100);
    assert_eq!(c.volume(), 100);
    assert_eq!(c.set_volume(70), 70);
    assert_eq!(c.volume(), 70);
    assert_eq!(c.set_volume(0), 0);
    assert_eq!(c.volume(), 0);
}

#[test]
fn volume_up_down_stays_in_range() {
    let mut c = fresh();
    c.set_volume(98);
    c.volume_up();
    assert_eq!(c.volume(), 100);
    c.volume_down();
    assert_eq!(c.volume(), 95);
    c.set_volume(2);
    c.volume_down();
    assert_eq!(c.volume(), 0);
    c.volume_down();
    assert_eq!(c.volume(), 0);
}

#[test]
fn volume_up_converges_to_hundred() {
    let mut c = fresh();
    c.set_volume(3);
    for _ in 0..20 {
        c.volume_up();
    }
    assert_eq!(c.volume(), 100);
    c.volume_up();
    assert_eq!(c.volume(), 100);
}

#[test]
fn speed_saturates_at_bounds() {
    let mut c = fresh();
    c.set_speed(30, 0);
    let plan = c.speed_up(0);
    assert_eq!(c.speed(), 30);
    assert_eq!(plan.rate_tenths, 30);
    c.set_speed(1, 0);
    c.speed_down(0);
    assert_eq!(c.speed(), 1);
}

#[test]
fn speed_steps_by_one_tenth() {
    let mut c = fresh();
    c.set_speed(10, 0);
    c.speed_up(0);
    assert_eq!(c.speed(), 11);
    c.speed_down(0);
    assert_eq!(c.speed(), 10);
}

#[test]
fn rate_seek_segment_follows_rate_sign() {
    let mut c = fresh();
    // forward: play on from the current position, stop bound open
    let fwd = c.set_speed(15, 777);
    assert_eq!(fwd.segment_start_ns, 777);
    assert_eq!(fwd.segment_stop_ns, None);
    // reverse: play the segment from zero up to the current position
    let back = c.set_speed(-15, 777);
    assert_eq!(back.segment_start_ns, 0);
    assert_eq!(back.segment_stop_ns, Some(777));
    assert_eq!(c.speed(), -15);
}

#[test]
fn seek_clamps_to_duration_margin() {
    let c = fresh();
    // position 10 s, duration 20 s, offset 100 s: clamp to 20 - 6 = 14
    let plan = c.seek(100, 10, 20);
    assert_eq!(plan.target_secs, 14);
    assert_eq!(plan.restore_volume, 50);
}

#[test]
fn seek_clamps_below_at_zero() {
    let c = fresh();
    let plan = c.seek(-100, 10, 20);
    assert_eq!(plan.target_secs, 0);
}

#[test]
fn seek_on_short_track_targets_zero() {
    let c = fresh();
    let plan = c.seek(2, 1, 4);
    assert_eq!(plan.target_secs, 0);
}

#[test]
fn seek_to_keeps_position_and_volume() {
    let mut c = fresh();
    c.set_volume(80);
    let plan = c.seek_to(123);
    assert_eq!(plan.target_secs, 123);
    assert_eq!(plan.restore_volume, 80);
}

#[test]
fn pause_is_remembered_and_resume_clears_it() {
    let mut c = fresh();
    assert_eq!(c.pause(), EngineState::Paused);
    assert!(!c.allow_buffering_resume());
    assert_eq!(c.resume(), EngineState::Playing);
    assert!(c.allow_buffering_resume());
}

#[test]
fn stop_asks_for_stopped() {
    let c = fresh();
    assert_eq!(c.stop(), EngineState::Stopped);
}

#[test]
fn gapless_flag_round_trips() {
    let mut c = fresh();
    assert!(!c.gapless());
    c.set_gapless(true);
    assert!(c.gapless());
}

#[test]
fn only_playing_counts_as_not_paused() {
    assert!(!is_paused_state(EngineState::Playing));
    assert!(is_paused_state(EngineState::Paused));
    assert!(is_paused_state(EngineState::Ready));
    assert!(is_paused_state(EngineState::Stopped));
}

#[test]
fn query_fallbacks() {
    assert_eq!(position_from_query(None), 0);
    assert_eq!(position_from_query(Some(42)), 42);
    assert_eq!(duration_from_query(None), 99);
    assert_eq!(duration_from_query(Some(240)), 240);
}

#[test]
fn progress_keeps_duration_optional() {
    let p = progress_report(None, None);
    assert_eq!(p.position_secs, 0);
    assert_eq!(p.total_duration_secs, None);
    let q = progress_report(Some(30), Some(120));
    assert_eq!(q.position_secs, 30);
    assert_eq!(q.total_duration_secs, Some(120));
}

#[test]
fn percent_progress_exact_values() {
    assert_eq!(percent_progress(30, 120), Some(25));
    assert_eq!(percent_progress(150, 120), Some(100));
    assert_eq!(percent_progress(0, 120), Some(0));
    assert_eq!(percent_progress(10, 0), None);
}

#[test]
fn remote_sources_pass_through() {
    match resolve_source("http://example.com/radio".to_string()) {
        SourceSpec::RemoteUrl(u) => assert_eq!(u, "http://example.com/radio"),
        SourceSpec::LocalPath(_) => panic!("expected a remote url"),
    }
    match resolve_source("/music/a.mp3".to_string()) {
        SourceSpec::LocalPath(p) => assert_eq!(p, "/music/a.mp3"),
        SourceSpec::RemoteUrl(_) => panic!("expected a local path"),
    }
}

#[test]
fn add_and_play_resolves_by_media_kind() {
    let mut c = fresh();
    let plan = c.add_and_play(Some(MediaType::Music), Some("/music/a.mp3".to_string()));
    match plan.source {
        Some(SourceSpec::LocalPath(p)) => assert_eq!(p, "/music/a.mp3"),
        _ => panic!("expected a local path"),
    }
    let plan = c.add_and_play(Some(MediaType::LiveRadio), Some("http://r".to_string()));
    match plan.source {
        Some(SourceSpec::RemoteUrl(u)) => assert_eq!(u, "http://r"),
        _ => panic!("expected a remote url"),
    }
    let plan = c.add_and_play(None, Some("/music/a.mp3".to_string()));
    assert!(plan.source.is_none());
    let plan = c.add_and_play(Some(MediaType::Music), None);
    assert!(plan.source.is_none());
}

#[test]
fn new_track_clears_user_pause() {
    let mut c = fresh();
    c.pause();
    assert!(!c.allow_buffering_resume());
    c.add_and_play(Some(MediaType::Music), Some("/music/b.mp3".to_string()));
    // the new track's buffering-complete signal may resume again
    assert!(c.allow_buffering_resume());
}
