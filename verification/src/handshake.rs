//! The one-time configuration of the rangefinder over its serial link, as a
//! machine that says what to ask of the link next and takes what the link
//! answered.
//!
//! The link is set up for commands; the sensor is told to return to its
//! factory settings, to stop sending frames on its own, and to save that;
//! each command is acknowledged and the acknowledgement is checked; then the
//! link is set up for measurements. The first failure ends the handshake.

use crate::protocol::{seal, sealed, COMMAND_HEADER};
use vstd::prelude::*;

verus! {

/// Speed of the serial link, in bits per second.
pub const BAUD_RATE: u32 = 115_200;

/// How long a read waits while commands are exchanged, in seconds.
pub const COMMAND_TIMEOUT_SECS: u64 = 5;

/// Number of bytes that acknowledge a reset or a save.
pub const ACK_LENGTH: usize = 5;

/// Number of bytes that acknowledge a frame rate.
pub const RATE_ACK_LENGTH: usize = 6;

/// Number of bytes that a read waits for once the sensor is configured.
pub const MEASUREMENT_LENGTH: u8 = 9;

/// The acknowledgements by which the sensor reports success. They depend on
/// the sensor's firmware.
#[derive(Clone, Copy, Debug, PartialEq, Eq)]
pub struct AckPatterns {
    pub reset: [u8; 5],
    pub save: [u8; 5],
}

/// Why a handshake ended without success.
#[derive(Clone, Copy, Debug, PartialEq, Eq)]
pub enum HandshakeError {
    /// The link reported a fault.
    Transport,
    /// An acknowledgement was not the expected one.
    BadAck,
}

/// A command of the handshake.
#[derive(Clone, Copy, Debug, PartialEq, Eq)]
pub enum Command {
    /// Return to the factory settings.
    FactoryReset,
    /// Send frames only when asked.
    FrameRate,
    /// Save the settings.
    SaveSettings,
}

/// How far a handshake has come: what it asks for next.
#[derive(Clone, Copy, Debug, PartialEq, Eq)]
pub enum Stage {
    EnableWrite,
    SetBaudRate,
    SetCommandRead,
    SendReset,
    AwaitReset,
    SendFrameRate,
    AwaitFrameRate,
    SendSave,
    AwaitSave,
    SetMeasurementRead,
    Done,
    Failed(HandshakeError),
}

/// What the handshake asks of the link.
#[derive(Clone, Copy, Debug, PartialEq, Eq)]
pub enum Request {
    /// Make writes wait until the bytes are sent, or not.
    SetWriteMode { blocking: bool },
    /// Set the speed of the link.
    SetBaudRate { baud: u32 },
    /// Make reads wait for `min_length` bytes, for at most `timeout_secs`.
    SetReadMode { min_length: u8, timeout_secs: u64 },
    /// Send the frame of a command.
    Write { command: Command },
    /// Read `length` bytes.
    Read { length: usize },
    /// Nothing more: the handshake has ended, with this outcome.
    Finish { outcome: Result<(), HandshakeError> },
}

/// What the link answered.
#[derive(Clone, Debug, PartialEq, Eq)]
pub enum Reply {
    /// The setting was made, or the frame was sent.
    Completed,
    /// These bytes were read.
    Received(Vec<u8>),
    /// The link reported a fault.
    Fault,
}

/// What the link answered, with the bytes as a sequence.
pub enum ReplyView {
    Completed,
    Received(Seq<u8>),
    Fault,
}

impl View for Reply {
    type V = ReplyView;

    open spec fn view(&self) -> ReplyView {
        match self {
            Reply::Completed => ReplyView::Completed,
            Reply::Received(bytes) => ReplyView::Received(bytes@),
            Reply::Fault => ReplyView::Fault,
        }
    }
}

/// A handshake in progress.
pub struct Handshake {
    stage: Stage,
    patterns: AckPatterns,
}

/// The bytes of a command before its checksum.
pub open spec fn command_payload(command: Command) -> Seq<u8> {
    match command {
        Command::FactoryReset => seq![COMMAND_HEADER, 0x04u8, 0x10u8],
        Command::FrameRate => seq![COMMAND_HEADER, 0x06u8, 0x03u8, 0x00u8, 0x00u8],
        Command::SaveSettings => seq![COMMAND_HEADER, 0x04u8, 0x11u8],
    }
}

/// The frame of a command: its bytes and their checksum.
pub open spec fn command_frame(command: Command) -> Seq<u8> {
    sealed(command_payload(command))
}

/// What a handshake asks for at a stage.
pub open spec fn request_at(stage: Stage) -> Request {
    match stage {
        Stage::EnableWrite => Request::SetWriteMode { blocking: true },
        Stage::SetBaudRate => Request::SetBaudRate { baud: BAUD_RATE },
        Stage::SetCommandRead => Request::SetReadMode {
            min_length: 0,
            timeout_secs: COMMAND_TIMEOUT_SECS,
        },
        Stage::SendReset => Request::Write { command: Command::FactoryReset },
        Stage::AwaitReset => Request::Read { length: ACK_LENGTH },
        Stage::SendFrameRate => Request::Write { command: Command::FrameRate },
        Stage::AwaitFrameRate => Request::Read { length: RATE_ACK_LENGTH },
        Stage::SendSave => Request::Write { command: Command::SaveSettings },
        Stage::AwaitSave => Request::Read { length: ACK_LENGTH },
        Stage::SetMeasurementRead => Request::SetReadMode {
            min_length: MEASUREMENT_LENGTH,
            timeout_secs: 0,
        },
        Stage::Done => Request::Finish { outcome: Ok(()) },
        Stage::Failed(e) => Request::Finish { outcome: Err(e) },
    }
}

/// The stage that follows `stage` where the link did what was asked.
pub open spec fn following(stage: Stage) -> Stage {
    match stage {
        Stage::EnableWrite => Stage::SetBaudRate,
        Stage::SetBaudRate => Stage::SetCommandRead,
        Stage::SetCommandRead => Stage::SendReset,
        Stage::SendReset => Stage::AwaitReset,
        Stage::AwaitReset => Stage::SendFrameRate,
        Stage::SendFrameRate => Stage::AwaitFrameRate,
        Stage::AwaitFrameRate => Stage::SendSave,
        Stage::SendSave => Stage::AwaitSave,
        Stage::AwaitSave => Stage::SetMeasurementRead,
        Stage::SetMeasurementRead => Stage::Done,
        Stage::Done => Stage::Done,
        Stage::Failed(e) => Stage::Failed(e),
    }
}

/// The handshake has ended.
pub open spec fn is_final(stage: Stage) -> bool {
    stage is Done || stage is Failed
}

/// The stage waits for an acknowledgement.
pub open spec fn awaits_ack(stage: Stage) -> bool {
    stage is AwaitReset || stage is AwaitFrameRate || stage is AwaitSave
}

/// A frame rate was acknowledged: six bytes, of which the two that carry the
/// rate are zero.
pub open spec fn rate_ack_ok(bytes: Seq<u8>) -> bool {
    bytes.len() == RATE_ACK_LENGTH && bytes[3] == 0 && bytes[4] == 0
}

/// The bytes are the acknowledgement that the stage waits for.
pub open spec fn ack_ok(stage: Stage, patterns: AckPatterns, bytes: Seq<u8>) -> bool {
    match stage {
        Stage::AwaitReset => bytes == patterns.reset@,
        Stage::AwaitFrameRate => rate_ack_ok(bytes),
        Stage::AwaitSave => bytes == patterns.save@,
        _ => false,
    }
}

/// The stage after `stage` once the link has answered `reply`.
///
/// A handshake that has ended stays as it is. A fault of the link, and any
/// answer of the wrong kind, ends it with `Transport`; an acknowledgement
/// other than the expected one ends it with `BadAck`. Nothing is tried again.
pub open spec fn next_stage(stage: Stage, patterns: AckPatterns, reply: ReplyView) -> Stage {
    if is_final(stage) {
        stage
    } else if awaits_ack(stage) {
        match reply {
            ReplyView::Received(bytes) => if ack_ok(stage, patterns, bytes) {
                following(stage)
            } else {
                Stage::Failed(HandshakeError::BadAck)
            },
            _ => Stage::Failed(HandshakeError::Transport),
        }
    } else {
        match reply {
            ReplyView::Completed => following(stage),
            _ => Stage::Failed(HandshakeError::Transport),
        }
    }
}

/// The stage that a handshake reaches from `stage` over a series of answers.
pub open spec fn run(stage: Stage, patterns: AckPatterns, replies: Seq<ReplyView>) -> Stage
    decreases replies.len(),
{
    if replies.len() == 0 {
        stage
    } else {
        next_stage(run(stage, patterns, replies.drop_last()), patterns, replies.last())
    }
}

/// The answers of a link on which nothing goes wrong, where the sensor
/// acknowledges the frame rate with `rate_ack`.
pub open spec fn clean_replies(patterns: AckPatterns, rate_ack: Seq<u8>) -> Seq<ReplyView> {
    seq![
        ReplyView::Completed,
        ReplyView::Completed,
        ReplyView::Completed,
        ReplyView::Completed,
        ReplyView::Received(patterns.reset@),
        ReplyView::Completed,
        ReplyView::Received(rate_ack),
        ReplyView::Completed,
        ReplyView::Received(patterns.save@),
        ReplyView::Completed,
    ]
}

/// A handshake that has not ended fails on a fault of the link.
pub proof fn lemma_fault_ends_handshake(stage: Stage, patterns: AckPatterns)
    requires
        !is_final(stage),
    ensures
        next_stage(stage, patterns, ReplyView::Fault) == Stage::Failed(HandshakeError::Transport),
{
}

/// A handshake that waits for an acknowledgement fails on any other bytes.
pub proof fn lemma_wrong_ack_ends_handshake(stage: Stage, patterns: AckPatterns, bytes: Seq<u8>)
    requires
        awaits_ack(stage),
        !ack_ok(stage, patterns, bytes),
    ensures
        next_stage(stage, patterns, ReplyView::Received(bytes)) == Stage::Failed(
            HandshakeError::BadAck,
        ),
{
}

/// A handshake that has ended stays ended, with the same outcome, whatever
/// the link answers after that: nothing is tried again.
pub proof fn lemma_end_is_final(stage: Stage, patterns: AckPatterns, replies: Seq<ReplyView>)
    requires
        is_final(stage),
    ensures
        run(stage, patterns, replies) == stage,
    decreases replies.len(),
{
    if replies.len() > 0 {
        lemma_end_is_final(stage, patterns, replies.drop_last());
    }
}

/// On a link on which nothing goes wrong the handshake succeeds after ten
/// answers.
pub proof fn lemma_clean_run_succeeds(patterns: AckPatterns, rate_ack: Seq<u8>)
    requires
        rate_ack_ok(rate_ack),
    ensures
        run(Stage::EnableWrite, patterns, clean_replies(patterns, rate_ack)) == Stage::Done,
{
    let all = clean_replies(patterns, rate_ack);
    let start = Stage::EnableWrite;
    assert(run(start, patterns, all.take(0)) == start);
    assert(all.take(1).drop_last() =~= all.take(0));
    assert(run(start, patterns, all.take(1)) == Stage::SetBaudRate);
    assert(all.take(2).drop_last() =~= all.take(1));
    assert(run(start, patterns, all.take(2)) == Stage::SetCommandRead);
    assert(all.take(3).drop_last() =~= all.take(2));
    assert(run(start, patterns, all.take(3)) == Stage::SendReset);
    assert(all.take(4).drop_last() =~= all.take(3));
    assert(run(start, patterns, all.take(4)) == Stage::AwaitReset);
    assert(all.take(5).drop_last() =~= all.take(4));
    assert(run(start, patterns, all.take(5)) == Stage::SendFrameRate);
    assert(all.take(6).drop_last() =~= all.take(5));
    assert(run(start, patterns, all.take(6)) == Stage::AwaitFrameRate);
    assert(all.take(7).drop_last() =~= all.take(6));
    assert(run(start, patterns, all.take(7)) == Stage::SendSave);
    assert(all.take(8).drop_last() =~= all.take(7));
    assert(run(start, patterns, all.take(8)) == Stage::AwaitSave);
    assert(all.take(9).drop_last() =~= all.take(8));
    assert(run(start, patterns, all.take(9)) == Stage::SetMeasurementRead);
    assert(all.take(10).drop_last() =~= all.take(9));
    assert(all.take(10) =~= all);
}

/// Whether two runs of bytes are the same.
pub fn same_bytes(a: &[u8], b: &[u8]) -> (same: bool)
    ensures
        same == (a@ == b@),
{
    if a.len() != b.len() {
        return false;
    }
    let mut i: usize = 0;
    while i < a.len()
        invariant
            i <= a@.len(),
            a@.len() == b@.len(),
            forall|j: int| 0 <= j < i ==> a@[j] == b@[j],
        decreases a@.len() - i,
    {
        if a[i] != b[i] {
            return false;
        }
        i = i + 1;
    }
    proof {
        assert(a@ =~= b@);
    }
    true
}

impl AckPatterns {
    /// The given acknowledgements.
    pub fn new(reset: [u8; 5], save: [u8; 5]) -> (p: AckPatterns)
        ensures
            p.reset == reset,
            p.save == save,
    {
        AckPatterns { reset, save }
    }

    /// The acknowledgements of the firmware that answers a reset with
    /// `5A 05 10 00 6F` and a save with `5A 05 11 00 70`.
    pub fn standard() -> (p: AckPatterns)
        ensures
            p.reset@ == seq![0x5au8, 0x05u8, 0x10u8, 0x00u8, 0x6fu8],
            p.save@ == seq![0x5au8, 0x05u8, 0x11u8, 0x00u8, 0x70u8],
    {
        let p = AckPatterns {
            reset: [0x5a, 0x05, 0x10, 0x00, 0x6f],
            save: [0x5a, 0x05, 0x11, 0x00, 0x70],
        };
        proof {
            assert(p.reset@ =~= seq![0x5au8, 0x05u8, 0x10u8, 0x00u8, 0x6fu8]);
            assert(p.save@ =~= seq![0x5au8, 0x05u8, 0x11u8, 0x00u8, 0x70u8]);
        }
        p
    }
}

impl Command {
    /// The frame that carries the command: its bytes and their checksum.
    pub fn frame(self) -> (frame: Vec<u8>)
        ensures
            frame@ == command_frame(self),
    {
        match self {
            Command::FactoryReset => {
                let payload: [u8; 3] = [COMMAND_HEADER, 0x04, 0x10];
                proof {
                    assert(payload@ =~= command_payload(self));
                }
                seal(payload.as_slice())
            },
            Command::FrameRate => {
                let payload: [u8; 5] = [COMMAND_HEADER, 0x06, 0x03, 0x00, 0x00];
                proof {
                    assert(payload@ =~= command_payload(self));
                }
                seal(payload.as_slice())
            },
            Command::SaveSettings => {
                let payload: [u8; 3] = [COMMAND_HEADER, 0x04, 0x11];
                proof {
                    assert(payload@ =~= command_payload(self));
                }
                seal(payload.as_slice())
            },
        }
    }
}

/// The frames of the three commands, byte by byte.
pub proof fn lemma_command_frames()
    ensures
        command_frame(Command::FactoryReset) == seq![0x5au8, 0x04u8, 0x10u8, 0x6eu8],
        command_frame(Command::FrameRate) == seq![
            0x5au8,
            0x06u8,
            0x03u8,
            0x00u8,
            0x00u8,
            0x63u8,
        ],
        command_frame(Command::SaveSettings) == seq![0x5au8, 0x04u8, 0x11u8, 0x6fu8],
{
    reveal_with_fuel(crate::protocol::byte_sum, 6);
    let reset = command_payload(Command::FactoryReset);
    let rate = command_payload(Command::FrameRate);
    let save = command_payload(Command::SaveSettings);
    assert(crate::protocol::byte_sum(reset, 3) == 0x6e);
    assert(crate::protocol::byte_sum(rate, 5) == 0x63);
    assert(crate::protocol::byte_sum(save, 3) == 0x6f);
    assert(command_frame(Command::FactoryReset) =~= seq![0x5au8, 0x04u8, 0x10u8, 0x6eu8]);
    assert(command_frame(Command::FrameRate) =~= seq![
        0x5au8,
        0x06u8,
        0x03u8,
        0x00u8,
        0x00u8,
        0x63u8,
    ]);
    assert(command_frame(Command::SaveSettings) =~= seq![0x5au8, 0x04u8, 0x11u8, 0x6fu8]);
}

impl Handshake {
    /// The stage that the handshake is at.
    pub closed spec fn stage(self) -> Stage {
        self.stage
    }

    /// The acknowledgements that the handshake expects.
    pub closed spec fn patterns(self) -> AckPatterns {
        self.patterns
    }

    /// A handshake at its start.
    pub fn new(patterns: AckPatterns) -> (h: Handshake)
        ensures
            h.stage() == Stage::EnableWrite,
            h.patterns() == patterns,
    {
        Handshake { stage: Stage::EnableWrite, patterns }
    }

    /// The stage that the handshake is at.
    pub fn current(&self) -> (s: Stage)
        ensures
            s == self.stage(),
    {
        self.stage
    }

    /// Whether the handshake has ended.
    pub fn is_finished(&self) -> (done: bool)
        ensures
            done == is_final(self.stage()),
    {
        match self.stage {
            Stage::Done => true,
            Stage::Failed(_) => true,
            _ => false,
        }
    }

    /// What to ask of the link next.
    pub fn request(&self) -> (r: Request)
        ensures
            r == request_at(self.stage()),
    {
        match self.stage {
            Stage::EnableWrite => Request::SetWriteMode { blocking: true },
            Stage::SetBaudRate => Request::SetBaudRate { baud: BAUD_RATE },
            Stage::SetCommandRead => Request::SetReadMode {
                min_length: 0,
                timeout_secs: COMMAND_TIMEOUT_SECS,
            },
            Stage::SendReset => Request::Write { command: Command::FactoryReset },
            Stage::AwaitReset => Request::Read { length: ACK_LENGTH },
            Stage::SendFrameRate => Request::Write { command: Command::FrameRate },
            Stage::AwaitFrameRate => Request::Read { length: RATE_ACK_LENGTH },
            Stage::SendSave => Request::Write { command: Command::SaveSettings },
            Stage::AwaitSave => Request::Read { length: ACK_LENGTH },
            Stage::SetMeasurementRead => Request::SetReadMode {
                min_length: MEASUREMENT_LENGTH,
                timeout_secs: 0,
            },
            Stage::Done => Request::Finish { outcome: Ok(()) },
            Stage::Failed(e) => Request::Finish { outcome: Err(e) },
        }
    }

    /// Whether the bytes are the acknowledgement that the handshake waits
    /// for.
    pub fn accepts(&self, bytes: &[u8]) -> (ok: bool)
        ensures
            ok == ack_ok(self.stage(), self.patterns(), bytes@),
    {
        match self.stage {
            Stage::AwaitReset => same_bytes(bytes, self.patterns.reset.as_slice()),
            Stage::AwaitFrameRate => bytes.len() == RATE_ACK_LENGTH && bytes[3] == 0 && bytes[4]
                == 0,
            Stage::AwaitSave => same_bytes(bytes, self.patterns.save.as_slice()),
            _ => false,
        }
    }

    /// Takes the answer of the link to the last request and moves on.
    pub fn advance(&mut self, reply: &Reply)
        ensures
            final(self).stage() == next_stage(old(self).stage(), old(self).patterns(), reply@),
            final(self).patterns() == old(self).patterns(),
    {
        let next: Stage = match self.stage {
            Stage::Done => Stage::Done,
            Stage::Failed(e) => Stage::Failed(e),
            Stage::AwaitReset | Stage::AwaitFrameRate | Stage::AwaitSave => match reply {
                Reply::Received(bytes) => if self.accepts(bytes.as_slice()) {
                    successor(self.stage)
                } else {
                    Stage::Failed(HandshakeError::BadAck)
                },
                _ => Stage::Failed(HandshakeError::Transport),
            },
            _ => match reply {
                Reply::Completed => successor(self.stage),
                _ => Stage::Failed(HandshakeError::Transport),
            },
        };
        self.stage = next;
    }
}

/// The stage that follows `stage` where the link did what was asked.
pub fn successor(stage: Stage) -> (next: Stage)
    ensures
        next == following(stage),
{
    match stage {
        Stage::EnableWrite => Stage::SetBaudRate,
        Stage::SetBaudRate => Stage::SetCommandRead,
        Stage::SetCommandRead => Stage::SendReset,
        Stage::SendReset => Stage::AwaitReset,
        Stage::AwaitReset => Stage::SendFrameRate,
        Stage::SendFrameRate => Stage::AwaitFrameRate,
        Stage::AwaitFrameRate => Stage::SendSave,
        Stage::SendSave => Stage::AwaitSave,
        Stage::AwaitSave => Stage::SetMeasurementRead,
        Stage::SetMeasurementRead => Stage::Done,
        Stage::Done => Stage::Done,
        Stage::Failed(e) => Stage::Failed(e),
    }
}

} // verus!
