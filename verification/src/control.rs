//! Decides, fifty times a second, which command goes out to the motor
//! controller.
use crate::clock::elapsed;
use crate::playback::{
    command_at, in_force, in_order, law_polling_does_not_matter, law_recording_keeps_commands,
    law_replay_keeps_time, total, Sample, Tape,
};
use crate::recorder::{Recorder, RecorderAction, Recording, RecordStep};
use crate::recording::recorded_entries;
use crate::replayer::{Playback, Replayer};
use crate::state::{NavCommand, NavdContext, OverrideMode, OverrideShared, RcCommand, RobotState};
use crate::uart::{build_frame, frame, CMD_DRIVE, CMD_ESTOP, CMD_LIFT, CMD_STOP};
use crate::udp::{packet_handled, PacketOutcome, PACKET_DRIVE};
use vstd::prelude::*;

verus! {

/// A remote control that has not been heard from for longer than this is gone.
pub const RC_TIMEOUT_MS: u64 = 500;

/// The byte that carries `x`: its two's complement.
pub open spec fn byte_of(x: i8) -> u8 {
    if x >= 0 {
        x as u8
    } else {
        (x + 256) as u8
    }
}

fn to_byte(x: i8) -> (b: u8)
    ensures
        b == byte_of(x),
{
    assert(x >= 0 ==> x as u8 == x) by (bit_vector);
    assert(x < 0 ==> x as u8 == x + 256) by (bit_vector);
    #[verifier::truncate]
    (x as u8)
}

/// What the navigator's command goes out as.
pub open spec fn nav_output(nav: NavCommand) -> (u8, Seq<u8>) {
    (CMD_DRIVE, seq![byte_of(nav.left), byte_of(nav.right)])
}

/// What a remote-control command goes out as. Driving excludes lifting, and
/// the stop flag excludes both.
pub open spec fn rc_output(rc: RcCommand) -> (u8, Seq<u8>) {
    if rc.flags % 2 == 1 {
        (CMD_ESTOP, Seq::empty())
    } else if rc.left == 0 && rc.right == 0 && rc.lift != 0 {
        (CMD_LIFT, seq![byte_of(rc.lift)])
    } else {
        (CMD_DRIVE, seq![byte_of(rc.left), byte_of(rc.right)])
    }
}

/// The command for a state, where no replay is running.
pub open spec fn normal_output(ctx: NavdContext, state: RobotState, now: u64) -> (u8, Seq<u8>) {
    match state {
        RobotState::Panicking => (CMD_ESTOP, Seq::empty()),
        RobotState::RcOverride => if elapsed(now, ctx.rc.last_packet_ms) > RC_TIMEOUT_MS {
            (CMD_STOP, Seq::empty())
        } else {
            rc_output(ctx.rc@)
        },
        RobotState::Navigating => nav_output(ctx.nav@),
        RobotState::Yielding => (CMD_STOP, Seq::empty()),
        RobotState::Boot => (CMD_STOP, Seq::empty()),
    }
}

/// The command that `state` calls for at time `now_ms`.
pub fn get_normal_command(ctx: &NavdContext, state: RobotState, now_ms: u64) -> (command: (
    u8,
    Vec<u8>,
))
    ensures
        (command.0, command.1@) == normal_output(*ctx, state, now_ms),
{
    let mut out_cmd = CMD_STOP;
    let mut payload: Vec<u8> = Vec::new();
    if state == RobotState::Panicking {
        out_cmd = CMD_ESTOP;
    } else if state == RobotState::RcOverride {
        let last_packet = ctx.rc.last_packet_ms;
        if now_ms.saturating_sub(last_packet) > RC_TIMEOUT_MS {
            out_cmd = CMD_STOP;
        } else {
            let rc = ctx.rc.read();
            let flags = rc.flags;
            assert(flags & 0x01 == flags % 2) by (bit_vector);
            if (rc.flags & 0x01) != 0 {
                out_cmd = CMD_ESTOP;
            } else {
                // Lifting and driving exclude each other.
                let lift: i8 = if rc.left != 0 || rc.right != 0 {
                    0
                } else {
                    rc.lift
                };
                if lift != 0 {
                    out_cmd = CMD_LIFT;
                    payload.push(to_byte(lift));
                } else {
                    out_cmd = CMD_DRIVE;
                    payload.push(to_byte(rc.left));
                    payload.push(to_byte(rc.right));
                }
            }
        }
    } else if state == RobotState::Navigating {
        let nav = ctx.nav.read();
        out_cmd = CMD_DRIVE;
        payload.push(to_byte(nav.left));
        payload.push(to_byte(nav.right));
    }
    assert(payload@ =~= normal_output(*ctx, state, now_ms).1);
    (out_cmd, payload)
}

// ---------------------------------------------------------------------------
// One round of the control loop
// ---------------------------------------------------------------------------
/// The contents of an optional replayer.
pub open spec fn playback_of(replayer: Option<Replayer>) -> Option<Playback> {
    match replayer {
        Some(r) => Some(r@),
        None => None,
    }
}

/// The contents of an optional recorder.
pub open spec fn recording_of(recorder: Option<Recorder>) -> Option<Recording> {
    match recorder {
        Some(r) => Some(r@),
        None => None,
    }
}

/// A replay after the trigger has been looked at and the remote control has
/// had its say: a trigger starts it over, and taking over by remote control
/// ends it.
pub open spec fn heeded(p: Playback, trigger: bool, state: RobotState, now: u64) -> Playback {
    let triggered = if trigger {
        p.triggered(now)
    } else {
        p
    };
    if state == RobotState::RcOverride {
        triggered.aborted()
    } else {
        triggered
    }
}

/// The replay whose command goes out in this round, if one is running.
pub open spec fn running_replay(
    ctx: NavdContext,
    mode: OverrideMode,
    playback: Option<Playback>,
    now: u64,
) -> Option<Playback> {
    match playback {
        Some(p) => {
            let q = heeded(p, ctx.overrides.replay_trigger, ctx.state, now);
            if mode == OverrideMode::Replay && q.active() {
                Some(q.advanced(now))
            } else {
                None
            }
        },
        None => None,
    }
}

/// The command that goes out in this round.
pub open spec fn output(
    ctx: NavdContext,
    mode: OverrideMode,
    playback: Option<Playback>,
    now: u64,
) -> (u8, Seq<u8>) {
    match running_replay(ctx, mode, playback, now) {
        Some(p) => p.command(),
        None => normal_output(ctx, ctx.state, now),
    }
}

/// The replayer after this round.
pub open spec fn replayer_after(
    ctx: NavdContext,
    mode: OverrideMode,
    playback: Option<Playback>,
    now: u64,
) -> Option<Playback> {
    match playback {
        Some(p) => if mode != OverrideMode::Replay {
            Some(p)
        } else {
            match running_replay(ctx, mode, playback, now) {
                Some(q) => Some(q),
                None => Some(heeded(p, ctx.overrides.replay_trigger, ctx.state, now)),
            }
        },
        None => None,
    }
}

/// The recorder after this round, in which `sent` goes out.
pub open spec fn recorder_after(
    ctx: NavdContext,
    mode: OverrideMode,
    recording: Option<Recording>,
    sent: (u8, Seq<u8>),
    now: u64,
) -> Option<Recording> {
    match recording {
        Some(r) => if mode == OverrideMode::Record {
            Some(r.updated(ctx.overrides.is_recording, sent.0, sent.1, now))
        } else {
            Some(r)
        },
        None => None,
    }
}

/// What this round, in which `sent` goes out, asks of the recording's files.
pub open spec fn record_step(
    ctx: NavdContext,
    mode: OverrideMode,
    recording: Option<Recording>,
    sent: (u8, Seq<u8>),
    now: u64,
) -> RecordStep {
    match recording {
        Some(r) => if mode == OverrideMode::Record {
            r.step(ctx.overrides.is_recording, sent.0, sent.1, now)
        } else {
            RecordStep::Nothing
        },
        None => RecordStep::Nothing,
    }
}

/// What a round of the control loop has to report.
#[derive(Debug, Clone, Copy, PartialEq, Eq, Structural)]
pub struct ControlEvents {
    /// The remote control has the robot but has fallen silent.
    pub remote_timed_out: bool,
    /// A replay was started, or started over.
    pub replay_started: bool,
    /// A replay that was running, or was just started, was ended by the remote
    /// control.
    pub replay_aborted: bool,
}

/// What happens in this round. The remote control's silence is reported where
/// the robot's state decides the output, which under remote control it always
/// does.
pub open spec fn events_of(
    ctx: NavdContext,
    mode: OverrideMode,
    playback: Option<Playback>,
    now: u64,
) -> ControlEvents {
    let started = mode == OverrideMode::Replay && playback is Some && ctx.overrides.replay_trigger;
    ControlEvents {
        remote_timed_out: ctx.state == RobotState::RcOverride && elapsed(
            now,
            ctx.rc.last_packet_ms,
        ) > RC_TIMEOUT_MS,
        replay_started: started,
        replay_aborted: mode == OverrideMode::Replay && ctx.state == RobotState::RcOverride && (
        playback matches Some(p) && (if started {
            p.triggered(now)
        } else {
            p
        }).active()),
    }
}

/// Says what happens in the round that is about to be run.
pub fn control_events(
    ctx: &NavdContext,
    override_mode: OverrideMode,
    replayer: &Option<Replayer>,
    now_ms: u64,
) -> (events: ControlEvents)
    ensures
        events == events_of(*ctx, override_mode, playback_of(*replayer), now_ms),
{
    let overridden = ctx.state == RobotState::RcOverride;
    let mut events = ControlEvents {
        remote_timed_out: overridden && now_ms.saturating_sub(ctx.rc.last_packet_ms)
            > RC_TIMEOUT_MS,
        replay_started: false,
        replay_aborted: false,
    };
    if override_mode == OverrideMode::Replay {
        if let Some(rep) = replayer {
            events.replay_started = ctx.overrides.replay_trigger;
            let running = if events.replay_started {
                rep.entries.len() > 0
            } else {
                rep.is_active()
            };
            events.replay_aborted = overridden && running;
        }
    }
    events
}

/// What a round of the control loop asks for.
pub struct ControlOutput {
    /// The frame to send.
    pub frame: Vec<u8>,
    /// What to do with the recording's files.
    pub action: RecorderAction,
    /// What there is to report.
    pub events: ControlEvents,
}

/// One round of the control loop. `override_mode` is the mode that the loop was
/// started in. A pending trigger is used up where there is a replayer for it.
pub fn control_step(
    ctx: &mut NavdContext,
    override_mode: OverrideMode,
    replayer: &mut Option<Replayer>,
    recorder: &mut Option<Recorder>,
    now_ms: u64,
) -> (out: ControlOutput)
    ensures
        *final(ctx) == (NavdContext {
            overrides: OverrideShared {
                replay_trigger: old(ctx).overrides.replay_trigger && !(override_mode
                    == OverrideMode::Replay && *old(replayer) is Some),
                ..old(ctx).overrides
            },
            ..*old(ctx)
        }),
        old(ctx).well_formed() ==> final(ctx).well_formed(),
        ({
            let sent = output(*old(ctx), override_mode, playback_of(*old(replayer)), now_ms);
            &&& out.frame@ == frame(sent.0, sent.1)
            &&& recording_of(*final(recorder)) == recorder_after(
                *old(ctx),
                override_mode,
                recording_of(*old(recorder)),
                sent,
                now_ms,
            )
            &&& out.action.carries_out(
                record_step(
                    *old(ctx),
                    override_mode,
                    recording_of(*old(recorder)),
                    sent,
                    now_ms,
                ),
            )
        }),
        out.events == events_of(
            *old(ctx),
            override_mode,
            playback_of(*old(replayer)),
            now_ms,
        ),
        playback_of(*final(replayer)) == replayer_after(
            *old(ctx),
            override_mode,
            playback_of(*old(replayer)),
            now_ms,
        ),
{
    let events = control_events(ctx, override_mode, replayer, now_ms);
    let state = ctx.state;
    let mut replayed: Option<(u8, Vec<u8>)> = None;
    if override_mode == OverrideMode::Replay {
        if let Some(mut rep) = replayer.take() {
            if ctx.overrides.replay_trigger {
                ctx.overrides.replay_trigger = false;
                rep.trigger(now_ms);
            }
            if state == RobotState::RcOverride && rep.is_active() {
                rep.abort();
            }
            if rep.is_active() {
                replayed = Some(rep.get_command(now_ms));
            }
            *replayer = Some(rep);
        }
    }
    let (out_cmd, payload) = match replayed {
        Some(command) => command,
        None => get_normal_command(ctx, state, now_ms),
    };
    let mut action = RecorderAction::Nothing;
    if override_mode == OverrideMode::Record {
        let is_recording = ctx.overrides.is_recording;
        if let Some(mut rec) = recorder.take() {
            action = rec.update(is_recording, out_cmd, payload.as_slice(), now_ms);
            *recorder = Some(rec);
        }
    }
    ControlOutput { frame: build_frame(out_cmd, payload.as_slice()), action, events }
}

// ---------------------------------------------------------------------------
// What the robot may do when
// ---------------------------------------------------------------------------
/// The remote control never lifts while it drives: a lift command goes out
/// only with both drive inputs at zero, and with a drive input that is not zero
/// the output is a drive command for exactly these inputs, or an emergency stop.
pub proof fn law_lift_and_drive_exclude_each_other(rc: RcCommand)
    ensures
        rc_output(rc).0 == CMD_LIFT ==> rc.left == 0 && rc.right == 0,
        rc.left != 0 || rc.right != 0 ==> rc_output(rc) == (
            CMD_DRIVE,
            seq![byte_of(rc.left), byte_of(rc.right)],
        ) || rc_output(rc) == (CMD_ESTOP, Seq::<u8>::empty()),
{
}

/// While no replay is running, a panicking robot is sent the emergency stop.
pub proof fn law_panic_stops_the_motors(
    ctx: NavdContext,
    mode: OverrideMode,
    playback: Option<Playback>,
    now: u64,
)
    requires
        ctx.state == RobotState::Panicking,
        running_replay(ctx, mode, playback, now) is None,
    ensures
        output(ctx, mode, playback, now) == (CMD_ESTOP, Seq::<u8>::empty()),
{
}

/// A remote control that falls silent stops the robot it was driving.
pub proof fn law_silent_remote_stops_the_robot(
    ctx: NavdContext,
    mode: OverrideMode,
    playback: Option<Playback>,
    now: u64,
)
    requires
        ctx.state == RobotState::RcOverride,
        elapsed(now, ctx.rc.last_packet_ms) > RC_TIMEOUT_MS,
        playback matches Some(p) ==> p.entries.len() <= usize::MAX,
    ensures
        output(ctx, mode, playback, now) == (CMD_STOP, Seq::<u8>::empty()),
{
    law_remote_control_overrides_replay(ctx, mode, playback, now);
}

/// Taking over by remote control ends a replay at once: nothing of it goes out
/// any more, in replay mode none is left running, and without another trigger
/// none runs later either.
pub proof fn law_remote_control_overrides_replay(
    ctx: NavdContext,
    mode: OverrideMode,
    playback: Option<Playback>,
    now: u64,
)
    requires
        ctx.state == RobotState::RcOverride,
        playback matches Some(p) ==> p.entries.len() <= usize::MAX,
    ensures
        running_replay(ctx, mode, playback, now) is None,
        output(ctx, mode, playback, now) == normal_output(ctx, RobotState::RcOverride, now),
        mode == OverrideMode::Replay ==> (replayer_after(ctx, mode, playback, now) matches Some(p)
            ==> !p.active()),
        mode == OverrideMode::Replay ==> forall|later_ctx: NavdContext, later: u64|
            !later_ctx.overrides.replay_trigger ==> #[trigger] running_replay(
                later_ctx,
                mode,
                replayer_after(ctx, mode, playback, now),
                later,
            ) is None,
{
}

/// What is reported is what happens: a silent remote is reported exactly where
/// the command of remote control is a stop for that reason, and a replay is
/// reported as aborted exactly where the remote control takes away one that
/// would have gone on.
pub proof fn law_events_tell_what_happens(
    ctx: NavdContext,
    mode: OverrideMode,
    playback: Option<Playback>,
    now: u64,
)
    requires
        playback matches Some(p) ==> p.entries.len() <= usize::MAX,
    ensures
        ({
            let events = events_of(ctx, mode, playback, now);
            &&& events.remote_timed_out ==> output(ctx, mode, playback, now) == (
                CMD_STOP,
                Seq::<u8>::empty(),
            )
            &&& ctx.state == RobotState::RcOverride && !events.remote_timed_out ==> output(
                ctx,
                mode,
                playback,
                now,
            ) == rc_output(ctx.rc@)
            &&& events.replay_aborted <==> ctx.state == RobotState::RcOverride && running_replay(
                NavdContext { state: RobotState::Navigating, ..ctx },
                mode,
                playback,
                now,
            ) is Some
        }),
{
}

/// Nothing moves the motors but a replay, the navigator while navigating, and a
/// remote control that has been heard from and does not ask for a stop.
pub proof fn law_what_moves_the_motors(
    ctx: NavdContext,
    mode: OverrideMode,
    playback: Option<Playback>,
    now: u64,
)
    requires
        ({
            let cmd = output(ctx, mode, playback, now).0;
            cmd != CMD_STOP && cmd != CMD_ESTOP
        }),
    ensures
        ({
            ||| running_replay(ctx, mode, playback, now) is Some
            ||| ctx.state == RobotState::Navigating
            ||| ctx.state == RobotState::RcOverride && elapsed(now, ctx.rc.last_packet_ms)
                <= RC_TIMEOUT_MS && ctx.rc@.flags % 2 == 0
        }),
{
}

/// What a drive packet asks for goes out as it came, until the remote control
/// falls silent: the stop flag as an emergency stop, else the two drive bytes,
/// else the lift byte.
pub proof fn law_drive_packet_reaches_the_motors(
    before: NavdContext,
    buf: Seq<u8>,
    came: u64,
    after: NavdContext,
    outcome: PacketOutcome,
    now: u64,
)
    requires
        buf.len() == 8,
        buf[0] == PACKET_DRIVE,
        packet_handled(before, buf, came, after, outcome),
        elapsed(now, came) <= RC_TIMEOUT_MS,
    ensures
        after.state == RobotState::RcOverride,
        normal_output(after, after.state, now) == (if buf[3] % 2 == 1 {
            (CMD_ESTOP, Seq::empty())
        } else if buf[1] == 0 && buf[2] == 0 && buf[4] != 0 {
            (CMD_LIFT, seq![buf[4]])
        } else {
            (CMD_DRIVE, seq![buf[1], buf[2]])
        }),
{
}

// ---------------------------------------------------------------------------
// What goes out, byte by byte
// ---------------------------------------------------------------------------
/// What the navigator asks for goes out as it is: a navigating robot is sent
/// the drive command with exactly two bytes, the two's complements of the left
/// and the right speed, in this order.
pub proof fn law_navigator_command_reaches_the_motors(
    ctx: NavdContext,
    left: i8,
    right: i8,
    now: u64,
)
    requires
        ctx.nav@ == (NavCommand { left, right }),
    ensures
        ({
            let (cmd, payload) = normal_output(ctx, RobotState::Navigating, now);
            &&& cmd == 0x01
            &&& payload.len() == 2
            &&& payload[0] as int == (if left >= 0 {
                left as int
            } else {
                left + 256
            })
            &&& payload[1] as int == (if right >= 0 {
                right as int
            } else {
                right + 256
            })
        }),
{
}

/// What the remote control asks for goes out, for every command and every
/// time. After more than half a second of silence it is a stop. Else the lowest
/// flag is an emergency stop; else any drive input that is not zero is a drive
/// command for both inputs, whatever the lift input; else a lift input that is
/// not zero is a lift command; else it is a drive command at rest.
pub proof fn law_remote_command_reaches_the_motors(ctx: NavdContext, rc: RcCommand, now: u64)
    requires
        ctx.rc@ == rc,
    ensures
        ({
            let (cmd, payload) = normal_output(ctx, RobotState::RcOverride, now);
            let drives = rc.left != 0 || rc.right != 0;
            &&& now > ctx.rc.last_packet_ms + 500 ==> cmd == 0x02 && payload.len() == 0
            &&& now <= ctx.rc.last_packet_ms + 500 ==> {
                &&& rc.flags & 1 == 1 ==> cmd == 0x03 && payload.len() == 0
                &&& rc.flags & 1 == 0 && (drives || rc.lift == 0) ==> {
                    &&& cmd == 0x01
                    &&& payload.len() == 2
                    &&& payload[0] as int == (if rc.left >= 0 {
                        rc.left as int
                    } else {
                        rc.left + 256
                    })
                    &&& payload[1] as int == (if rc.right >= 0 {
                        rc.right as int
                    } else {
                        rc.right + 256
                    })
                }
                &&& rc.flags & 1 == 0 && !drives && rc.lift != 0 ==> {
                    &&& cmd == 0x05
                    &&& payload.len() == 1
                    &&& payload[0] as int == (if rc.lift >= 0 {
                        rc.lift as int
                    } else {
                        rc.lift + 256
                    })
                }
            }
        }),
{
    let flags = rc.flags;
    assert(flags & 1 == flags % 2) by (bit_vector);
}

/// A panicking robot is sent the emergency stop, and one that has booted or
/// yielded the stop, whatever else the context holds.
pub proof fn law_idle_states_stop_the_motors(ctx: NavdContext, now: u64)
    ensures
        normal_output(ctx, RobotState::Panicking, now) == (0x03u8, Seq::<u8>::empty()),
        normal_output(ctx, RobotState::Yielding, now) == (0x02u8, Seq::<u8>::empty()),
        normal_output(ctx, RobotState::Boot, now) == (0x02u8, Seq::<u8>::empty()),
{
}

/// In replay mode, in every state but that of remote control, a replay goes
/// out: from its first entry if it is triggered now, and else from where it is.
/// What is sent is its command at time `now`, and the replayer is left there.
/// Where there is nothing to replay, what the state calls for goes out.
pub proof fn law_replay_goes_out(ctx: NavdContext, p: Playback, now: u64)
    requires
        ctx.state != RobotState::RcOverride,
    ensures
        ({
            let from = if ctx.overrides.replay_trigger {
                Playback { entries: p.entries, index: 0, start: now }
            } else {
                p
            };
            let sent = output(ctx, OverrideMode::Replay, Some(p), now);
            let after = replayer_after(ctx, OverrideMode::Replay, Some(p), now);
            &&& 0 <= from.index < from.entries.len() ==> sent == from.advanced(now).command()
                && after == Some(from.advanced(now))
            &&& !(0 <= from.index < from.entries.len()) ==> sent == normal_output(
                ctx,
                ctx.state,
                now,
            ) && after == Some(from)
        }),
{
}

/// Without replay mode or without a recording, nothing is replayed: what goes
/// out is what the state calls for, and a replayer stays as it is.
pub proof fn law_no_replay_without_replay_mode(
    ctx: NavdContext,
    mode: OverrideMode,
    playback: Option<Playback>,
    now: u64,
)
    requires
        mode != OverrideMode::Replay || playback is None,
    ensures
        output(ctx, mode, playback, now) == normal_output(ctx, ctx.state, now),
        replayer_after(ctx, mode, playback, now) == playback,
{
}

/// Under remote control a replay is over, and what goes out is the remote
/// control's. The recording itself is kept.
pub proof fn law_remote_control_leaves_no_replay(ctx: NavdContext, p: Playback, now: u64)
    requires
        ctx.state == RobotState::RcOverride,
        p.entries.len() <= usize::MAX,
    ensures
        output(ctx, OverrideMode::Replay, Some(p), now) == normal_output(
            ctx,
            RobotState::RcOverride,
            now,
        ),
        replayer_after(ctx, OverrideMode::Replay, Some(p), now) matches Some(q) && q.entries
            == p.entries && !(0 <= q.index < q.entries.len()),
{
}

/// A recording is replayed over as many rounds as it takes. When a replay that
/// was triggered at `begin` has been run up to time `last`, and is not over, a
/// round at `now` without another trigger sends what the recording holds
/// `now - begin` milliseconds into it, or a stop if that is past its end, and
/// leaves the replay run up to `now`.
pub proof fn law_replay_goes_on_round_by_round(
    ctx: NavdContext,
    loaded: Playback,
    begin: u64,
    last: u64,
    now: u64,
)
    requires
        ctx.state != RobotState::RcOverride,
        !ctx.overrides.replay_trigger,
        begin <= last <= now,
        last - begin < total(loaded.entries),
    ensures
        ({
            let p = loaded.triggered(begin).advanced(last);
            let sent = output(ctx, OverrideMode::Replay, Some(p), now);
            &&& now - begin < total(loaded.entries) ==> command_at(loaded.entries, now - begin)
                == Some(sent)
            &&& now - begin >= total(loaded.entries) ==> sent == (0x02u8, Seq::<u8>::empty())
            &&& replayer_after(ctx, OverrideMode::Replay, Some(p), now) == Some(
                loaded.triggered(begin).advanced(now),
            )
        }),
{
    law_replay_keeps_time(loaded, begin, last);
    law_replay_keeps_time(loaded, begin, now);
    law_polling_does_not_matter(loaded.triggered(begin), last, now);
}

/// The round that triggers a replay sends what the recording begins with, from
/// every state but that of remote control.
pub proof fn law_trigger_sends_the_beginning(ctx: NavdContext, loaded: Playback, now: u64)
    requires
        ctx.state != RobotState::RcOverride,
        ctx.overrides.replay_trigger,
        total(loaded.entries) > 0,
    ensures
        command_at(loaded.entries, 0) == Some(
            output(ctx, OverrideMode::Replay, Some(loaded), now),
        ),
        replayer_after(ctx, OverrideMode::Replay, Some(loaded), now) == Some(
            loaded.triggered(now).advanced(now),
        ),
{
    law_replay_keeps_time(loaded, now, now);
}

/// In record mode the recorder is told every command that goes out, and in the
/// other modes none.
pub proof fn law_recorder_is_told_what_goes_out(
    ctx: NavdContext,
    mode: OverrideMode,
    r: Recording,
    sent: (u8, Seq<u8>),
    now: u64,
)
    ensures
        mode == OverrideMode::Record ==> {
            &&& recorder_after(ctx, mode, Some(r), sent, now) == Some(
                r.updated(ctx.overrides.is_recording, sent.0, sent.1, now),
            )
            &&& record_step(ctx, mode, Some(r), sent, now) == r.step(
                ctx.overrides.is_recording,
                sent.0,
                sent.1,
                now,
            )
        },
        mode != OverrideMode::Record ==> {
            &&& recorder_after(ctx, mode, Some(r), sent, now) == Some(r)
            &&& record_step(ctx, mode, Some(r), sent, now) is Nothing
        },
        recorder_after(ctx, mode, None, sent, now) is None,
        record_step(ctx, mode, None, sent, now) is Nothing,
{
}

/// What is reported, in terms of the inputs alone: silence for more than half a
/// second under remote control; a trigger that finds a recording in replay
/// mode; and remote control over a replay that is running or, if it has just
/// been triggered, is not empty.
pub proof fn law_reports(
    ctx: NavdContext,
    mode: OverrideMode,
    replayer: Option<Replayer>,
    now: u64,
)
    ensures
        ({
            let events = events_of(ctx, mode, playback_of(replayer), now);
            let overridden = ctx.state == RobotState::RcOverride;
            &&& events.remote_timed_out <==> overridden && now > ctx.rc.last_packet_ms + 500
            &&& events.replay_started <==> mode == OverrideMode::Replay && replayer is Some
                && ctx.overrides.replay_trigger
            &&& events.replay_aborted <==> mode == OverrideMode::Replay && overridden
                && replayer is Some && (if ctx.overrides.replay_trigger {
                replayer->0.entries@.len() > 0
            } else {
                replayer->0.index < replayer->0.entries@.len()
            })
        }),
{
}

/// An optional replayer or recorder is seen as it is.
pub proof fn law_optional_contents(replayer: Option<Replayer>, recorder: Option<Recorder>)
    ensures
        replayer matches Some(r) ==> playback_of(replayer) == Some(r@),
        replayer is None ==> playback_of(replayer) is None,
        recorder matches Some(r) ==> recording_of(recorder) == Some(r@),
        recorder is None ==> recording_of(recorder) is None,
{
}

/// A recording goes out again as it was made. When the file of `samples`, made
/// until `stop`, has been read back and triggered at `begin`, a round at `now`
/// sends the command that was in force equally long after recording began,
/// whether it is the round of the trigger or a later one of a replay that has
/// been run up to `last`.
pub proof fn law_recorded_commands_go_out_again(
    ctx: NavdContext,
    start: Tape,
    samples: Seq<Sample>,
    stop: Sample,
    loaded: Playback,
    begin: u64,
    last: u64,
    now: u64,
)
    requires
        ctx.state != RobotState::RcOverride,
        start.recorder.current is None,
        samples.len() > 0,
        in_order(samples, stop.now),
        loaded.entries == recorded_entries(start.recorded(samples).updated(false, stop).text),
        begin <= last <= now,
        now - begin < stop.now - samples[0].now,
    ensures
        ctx.overrides.replay_trigger && now == begin ==> in_force(samples, samples[0].now as int)
            == Some(output(ctx, OverrideMode::Replay, Some(loaded), now)),
        !ctx.overrides.replay_trigger ==> in_force(samples, samples[0].now + (now - begin)) == Some(
            output(
                ctx,
                OverrideMode::Replay,
                Some(loaded.triggered(begin).advanced(last)),
                now,
            ),
        ),
{
    law_recording_keeps_commands(start, samples, stop);
    let first = samples[0].now as int;
    let at = first + (now - begin);
    if ctx.overrides.replay_trigger && now == begin {
        law_trigger_sends_the_beginning(ctx, loaded, now);
        assert(command_at(loaded.entries, first - samples[0].now) == in_force(samples, first));
    }
    if !ctx.overrides.replay_trigger {
        law_replay_goes_on_round_by_round(ctx, loaded, begin, last, now);
        assert(command_at(loaded.entries, at - samples[0].now) == in_force(samples, at));
    }
}

} // verus!
