use termusic_core::bridge::{
    now_playing_line, skip_one_command, EventBridge, PipelineMessage, PlayerCmd,
};

#[test]
fn stream_start_after_missed_eos_synthesizes_one() {
    let mut b = EventBridge::new();
    assert!(b.had_eos);
    // a first stream starts: nothing was missed
    let out = b.on_message(PipelineMessage::StreamStarted);
    assert_eq!(out.commands, vec![]);
    assert!(!b.had_eos);
    // gapless race: the next stream starts without an EOS in between
    let out = b.on_message(PipelineMessage::StreamStarted);
    assert_eq!(out.commands, vec![PlayerCmd::Eos]);
    assert!(!b.had_eos);
}

#[test]
fn stream_start_after_eos_synthesizes_none() {
    let mut b = EventBridge::new();
    b.on_message(PipelineMessage::StreamStarted);
    let out = b.on_message(PipelineMessage::EndOfStream);
    assert_eq!(out.commands, vec![PlayerCmd::Eos]);
    assert!(b.had_eos);
    let out = b.on_message(PipelineMessage::StreamStarted);
    assert_eq!(out.commands, vec![]);
}

#[test]
fn buffering_pauses_below_hundred_and_plays_at_hundred() {
    let mut b = EventBridge::new();
    let out = b.on_message(PipelineMessage::Buffering(37));
    assert_eq!(out.commands, vec![PlayerCmd::Pause]);
    let out = b.on_message(PipelineMessage::Buffering(100));
    assert_eq!(out.commands, vec![PlayerCmd::Play]);
}

#[test]
fn tag_updates_title_only() {
    let mut b = EventBridge::new();
    let out = b.on_message(PipelineMessage::TagTitle("Song Title".to_string()));
    assert_eq!(out.commands, vec![]);
    assert_eq!(out.title_update, Some("Song Title".to_string()));
}

#[test]
fn errors_and_warnings_are_swallowed() {
    let mut b = EventBridge::new();
    let out = b.on_message(PipelineMessage::ErrorMsg);
    assert_eq!(out.commands, vec![]);
    assert_eq!(out.title_update, None);
    let out = b.on_message(PipelineMessage::WarningMsg);
    assert_eq!(out.commands, vec![]);
}

#[test]
fn forwarding_marks_eos_and_drops_the_rest() {
    let mut b = EventBridge::new();
    b.on_message(PipelineMessage::StreamStarted);
    assert!(!b.had_eos);
    assert_eq!(b.forward_internal(PlayerCmd::Eos), Some(PlayerCmd::Eos));
    assert!(b.had_eos);
    assert_eq!(
        b.forward_internal(PlayerCmd::AboutToFinish),
        Some(PlayerCmd::AboutToFinish)
    );
    assert_eq!(b.forward_internal(PlayerCmd::Play), None);
    assert_eq!(b.forward_internal(PlayerCmd::Pause), None);
}

#[test]
fn skip_stands_in_for_eos() {
    assert_eq!(skip_one_command(), PlayerCmd::Eos);
}

#[test]
fn now_playing_line_prefixes_the_title() {
    assert_eq!(now_playing_line("Song Title"), "Current Playing: Song Title");
    assert_eq!(now_playing_line(""), "Current Playing: ");
}
