//! Event bridge and EOS/gapless arbiter.
//!
//! The bridge classifies every message of the engine's bus into the
//! commands that flow to the application loop, and keeps the one piece
//! of state that gapless playback needs: whether an end-of-stream has
//! been observed since the last stream start. When a new stream starts
//! without the previous one having reported EOS — the gapless race —
//! the bridge synthesizes exactly one `Eos` for the previous stream.

use vstd::prelude::*;

verus! {

/// The closed set of command tags that flow over the command channel
/// to the application loop.
#[derive(Clone, Copy, PartialEq, Eq, Structural, Debug)]
pub enum PlayerCmd {
    Eos,
    AboutToFinish,
    Play,
    Pause,
}

/// The normalized messages the engine's bus can deliver.
pub enum PipelineMessage {
    EndOfStream,
    StreamStarted,
    Buffering(i32),
    TagTitle(String),
    ErrorMsg,
    WarningMsg,
}

/// The EOS flag after a message: set on end-of-stream, cleared on a
/// stream start, untouched by anything else.
pub open spec fn spec_step_had_eos(had_eos: bool, m: PipelineMessage) -> bool {
    match m {
        PipelineMessage::EndOfStream => true,
        PipelineMessage::StreamStarted => false,
        _ => had_eos,
    }
}

/// The commands a message puts on the channel: `Eos` for an
/// end-of-stream; a synthesized `Eos` on a stream start whose previous
/// stream never reported one; `Pause` while buffering is below 100
/// percent and `Play` once it completes; nothing for tags, errors and
/// warnings.
pub open spec fn spec_step_commands(had_eos: bool, m: PipelineMessage) -> Seq<PlayerCmd> {
    match m {
        PipelineMessage::EndOfStream => seq![PlayerCmd::Eos],
        PipelineMessage::StreamStarted => if had_eos {
            Seq::<PlayerCmd>::empty()
        } else {
            seq![PlayerCmd::Eos]
        },
        PipelineMessage::Buffering(percent) => if percent < 100 {
            seq![PlayerCmd::Pause]
        } else {
            seq![PlayerCmd::Play]
        },
        _ => Seq::<PlayerCmd>::empty(),
    }
}

/// What a message handed by the bridge yields: the commands to
/// enqueue, and a now-playing title update when the message carried
/// one.
pub struct BridgeOutput {
    pub commands: Vec<PlayerCmd>,
    pub title_update: Option<String>,
}

/// The bridge's state: `had_eos` is true when an end-of-stream has
/// been seen (or nothing has played yet) since the last stream start.
/// The initial value is true: with no prior stream, nothing is
/// missing.
pub struct EventBridge {
    pub had_eos: bool,
}

impl EventBridge {
    /// A fresh bridge: no prior stream, so the EOS flag starts true.
    pub fn new() -> (r: Self)
        ensures
            r.had_eos,
    {
        EventBridge { had_eos: true }
    }

    /// Classify one bus message: update the EOS flag and return the
    /// commands to enqueue and any title update, exactly as the step
    /// functions state.
    pub fn on_message(&mut self, m: PipelineMessage) -> (r: BridgeOutput)
        ensures
            final(self).had_eos == spec_step_had_eos(old(self).had_eos, m),
            r.commands@ == spec_step_commands(old(self).had_eos, m),
            match m {
                PipelineMessage::TagTitle(t) => r.title_update matches Some(u) && u == t,
                _ => r.title_update is None,
            },
    {
        match m {
            PipelineMessage::EndOfStream => {
                self.had_eos = true;
                let mut commands: Vec<PlayerCmd> = Vec::new();
                commands.push(PlayerCmd::Eos);
                proof {
                    assert(commands@ =~= seq![PlayerCmd::Eos]);
                }
                BridgeOutput { commands, title_update: None }
            },
            PipelineMessage::StreamStarted => {
                let mut commands: Vec<PlayerCmd> = Vec::new();
                if !self.had_eos {
                    commands.push(PlayerCmd::Eos);
                    proof {
                        assert(commands@ =~= seq![PlayerCmd::Eos]);
                    }
                }
                self.had_eos = false;
                proof {
                    if old(self).had_eos {
                        assert(commands@ =~= Seq::<PlayerCmd>::empty());
                    }
                }
                BridgeOutput { commands, title_update: None }
            },
            PipelineMessage::Buffering(percent) => {
                let mut commands: Vec<PlayerCmd> = Vec::new();
                if percent < 100 {
                    commands.push(PlayerCmd::Pause);
                    proof {
                        assert(commands@ =~= seq![PlayerCmd::Pause]);
                    }
                } else {
                    commands.push(PlayerCmd::Play);
                    proof {
                        assert(commands@ =~= seq![PlayerCmd::Play]);
                    }
                }
                BridgeOutput { commands, title_update: None }
            },
            PipelineMessage::TagTitle(t) => {
                let commands: Vec<PlayerCmd> = Vec::new();
                proof {
                    assert(commands@ =~= Seq::<PlayerCmd>::empty());
                }
                BridgeOutput { commands, title_update: Some(t) }
            },
            PipelineMessage::ErrorMsg => {
                let commands: Vec<PlayerCmd> = Vec::new();
                proof {
                    assert(commands@ =~= Seq::<PlayerCmd>::empty());
                }
                BridgeOutput { commands, title_update: None }
            },
            PipelineMessage::WarningMsg => {
                let commands: Vec<PlayerCmd> = Vec::new();
                proof {
                    assert(commands@ =~= Seq::<PlayerCmd>::empty());
                }
                BridgeOutput { commands, title_update: None }
            },
        }
    }

    /// Forward a command of the internal channel to the application:
    /// an `Eos` (also sent by a manual skip) marks the EOS flag before
    /// it is forwarded, an `AboutToFinish` passes through, anything
    /// else is dropped.
    pub fn forward_internal(&mut self, cmd: PlayerCmd) -> (r: Option<PlayerCmd>)
        ensures
            cmd == PlayerCmd::Eos ==> final(self).had_eos && r == Some(PlayerCmd::Eos),
            cmd == PlayerCmd::AboutToFinish ==> final(self).had_eos == old(self).had_eos && r
                == Some(PlayerCmd::AboutToFinish),
            cmd != PlayerCmd::Eos && cmd != PlayerCmd::AboutToFinish ==> final(self).had_eos
                == old(self).had_eos && r is None,
    {
        match cmd {
            PlayerCmd::Eos => {
                self.had_eos = true;
                Some(PlayerCmd::Eos)
            },
            PlayerCmd::AboutToFinish => Some(PlayerCmd::AboutToFinish),
            _ => None,
        }
    }
}

/// The line the shared now-playing state holds for a tag's title.
pub fn now_playing_line(title: &str) -> (r: String)
    ensures
        r@ == "Current Playing: "@ + title@,
{
    let mut line = String::from_str("Current Playing: ");
    line.append(title);
    line
}

/// A manual skip feeds an `Eos` into the internal channel, standing in
/// for the end-of-stream the skipped track will not report.
pub fn skip_one_command() -> (r: PlayerCmd)
    ensures
        r == PlayerCmd::Eos,
{
    PlayerCmd::Eos
}

/// The gapless guarantee of the arbiter: a stream start whose previous
/// stream never reported EOS synthesizes exactly one `Eos` before the
/// new stream's state becomes active, while a stream start right after
/// an end-of-stream synthesizes none.
pub proof fn lemma_eos_synthesis(had_eos: bool)
    ensures
        spec_step_commands(false, PipelineMessage::StreamStarted) =~= seq![PlayerCmd::Eos],
        spec_step_commands(false, PipelineMessage::StreamStarted).len() == 1,
        !spec_step_had_eos(false, PipelineMessage::StreamStarted),
        spec_step_had_eos(had_eos, PipelineMessage::EndOfStream),
        spec_step_commands(
            spec_step_had_eos(had_eos, PipelineMessage::EndOfStream),
            PipelineMessage::StreamStarted,
        ).len() == 0,
{
}

} // verus!
