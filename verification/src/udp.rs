//! The remote control's datagrams: eight bytes each, a type, the two drive
//! inputs, flags, the lift input and three bytes in reserve.
use crate::state::{NavdContext, RcCommand, RobotState, VisionSnapshot};
use crate::vision::{AprilTagDetection, MAX_TAGS};
use vstd::prelude::*;

verus! {

pub const PACKET_LEN: usize = 8;

/// Type of a packet that drives the robot.
pub const PACKET_DRIVE: u8 = 0x01;

/// Type of a packet that hands the robot back to the navigator.
pub const PACKET_RESUME: u8 = 0x02;

/// What became of a packet.
#[derive(Debug, Clone, Copy, PartialEq, Eq, Structural)]
pub enum PacketOutcome {
    /// The inputs were taken over; `entered` tells whether the remote control
    /// took the robot over with this packet.
    Driven { entered: bool },
    /// The robot navigates again, for this goalpost.
    Resumed { goalpost: u16 },
    /// The robot stays with the remote control: this goalpost is not in sight.
    NotVisible { goalpost: u16 },
    /// The robot was not with the remote control in the first place.
    NotOverridden,
    /// A packet of no known type.
    Unknown { packet_type: u8 },
}

/// The number whose two's complement is `b`.
pub open spec fn signed(b: u8) -> int {
    if b < 128 {
        b as int
    } else {
        b - 256
    }
}

fn to_signed(b: u8) -> (x: i8)
    ensures
        x == signed(b),
{
    assert(b < 128 ==> b as i8 == b) by (bit_vector);
    assert(b >= 128 ==> b as i8 == b - 256) by (bit_vector);
    #[verifier::truncate]
    (b as i8)
}

/// Whether `cmd` is the command that a drive packet carries.
pub open spec fn carries(buf: Seq<u8>, cmd: RcCommand) -> bool {
    &&& cmd.left == signed(buf[1])
    &&& cmd.right == signed(buf[2])
    &&& cmd.flags == buf[3]
    &&& cmd.lift == signed(buf[4])
}

/// The second tag of the pair that begins with `goalpost`; tag numbers wrap.
pub open spec fn partner(goalpost: u16) -> int {
    (goalpost + 1) % 0x1_0000
}

/// Whether a tag belongs to the pair that begins with `goalpost`.
pub open spec fn belongs(tag: AprilTagDetection, goalpost: u16) -> bool {
    tag.id == goalpost || tag.id == partner(goalpost)
}

/// Whether either tag of the pair is among `tags`.
pub open spec fn pair_among(tags: Seq<AprilTagDetection>, goalpost: u16) -> bool {
    exists|i: int| 0 <= i < tags.len() && belongs(#[trigger] tags[i], goalpost)
}

/// Whether there is a snapshot with either tag of the pair in it.
pub open spec fn in_sight(snapshot: Option<VisionSnapshot>, goalpost: u16) -> bool {
    match snapshot {
        Some(snap) => pair_among(snap.active_tags(), goalpost),
        None => false,
    }
}

/// What becomes of a packet of type `packet_type`.
pub open spec fn outcome_of(ctx: NavdContext, packet_type: u8) -> PacketOutcome {
    let goalpost = ctx.nav.current_goalpost;
    if packet_type == PACKET_DRIVE {
        PacketOutcome::Driven { entered: ctx.state != RobotState::RcOverride }
    } else if packet_type == PACKET_RESUME {
        if ctx.state != RobotState::RcOverride {
            PacketOutcome::NotOverridden
        } else if in_sight(ctx.vision.snapshot, goalpost) {
            PacketOutcome::Resumed { goalpost }
        } else {
            PacketOutcome::NotVisible { goalpost }
        }
    } else {
        PacketOutcome::Unknown { packet_type }
    }
}

/// The robot's state after a packet.
pub open spec fn state_after_packet(state: RobotState, outcome: PacketOutcome) -> RobotState {
    match outcome {
        PacketOutcome::Driven { .. } => RobotState::RcOverride,
        PacketOutcome::Resumed { .. } => RobotState::Navigating,
        _ => state,
    }
}

/// What a packet that comes at time `now` does to the context: a drive packet
/// leaves its command and its time, the state follows from the outcome, and all
/// else stays.
pub open spec fn packet_handled(
    before: NavdContext,
    buf: Seq<u8>,
    now: u64,
    after: NavdContext,
    outcome: PacketOutcome,
) -> bool {
    &&& outcome == outcome_of(before, buf[0])
    &&& after.state == state_after_packet(before.state, outcome)
    &&& outcome is Driven ==> carries(buf, after.rc@) && after.rc.last_packet_ms == now
    &&& !(outcome is Driven) ==> after.rc == before.rc
    &&& after.vision == before.vision
    &&& after.nav == before.nav
    &&& after.sensors == before.sensors
    &&& after.overrides == before.overrides
}

fn goalpost_in_sight(snapshot: &Option<VisionSnapshot>, goalpost: u16) -> (seen: bool)
    requires
        snapshot matches Some(snap) ==> snap.well_formed(),
    ensures
        seen == in_sight(*snapshot, goalpost),
{
    match snapshot {
        Some(snap) => {
            let next: u16 = if goalpost == 0xFFFF {
                0
            } else {
                goalpost + 1
            };
            let mut i: usize = 0;
            while i < snap.tag_count as usize
                invariant
                    i <= snap.tag_count <= MAX_TAGS,
                    *snapshot == Some(*snap),
                    next == partner(goalpost),
                    forall|k: int|
                        0 <= k < i ==> !belongs(#[trigger] snap.active_tags()[k], goalpost),
                decreases snap.tag_count - i,
            {
                assert(snap.active_tags()[i as int] == snap.tags@[i as int]);
                let id = snap.tags[i].id;
                if id == goalpost || id == next {
                    assert(belongs(snap.active_tags()[i as int], goalpost));
                    return true;
                }
                i = i + 1;
            }
            false
        },
        None => false,
    }
}

/// Acts on a packet that came at time `now_ms`.
pub fn handle_packet(ctx: &mut NavdContext, buf: [u8; PACKET_LEN], now_ms: u64) -> (outcome:
    PacketOutcome)
    requires
        old(ctx).well_formed(),
    ensures
        final(ctx).well_formed(),
        packet_handled(*old(ctx), buf@, now_ms, *final(ctx), outcome),
{
    let packet_type = buf[0];
    if packet_type == PACKET_DRIVE {
        let entered = ctx.state != RobotState::RcOverride;
        if entered {
            ctx.state = RobotState::RcOverride;
        }
        let cmd = RcCommand {
            left: to_signed(buf[1]),
            right: to_signed(buf[2]),
            lift: to_signed(buf[4]),
            flags: buf[3],
        };
        ctx.rc.update(&cmd, now_ms);
        PacketOutcome::Driven { entered }
    } else if packet_type == PACKET_RESUME {
        if ctx.state != RobotState::RcOverride {
            return PacketOutcome::NotOverridden;
        }
        let goalpost = ctx.nav.current_goalpost;
        if goalpost_in_sight(&ctx.vision.snapshot, goalpost) {
            ctx.state = RobotState::Navigating;
            PacketOutcome::Resumed { goalpost }
        } else {
            PacketOutcome::NotVisible { goalpost }
        }
    } else {
        PacketOutcome::Unknown { packet_type }
    }
}

/// Acts on a datagram of which `size` bytes were received into `buf`. Shorter
/// ones change nothing and give `None`. A datagram longer than the buffer is
/// received cut to it, so it counts by its first bytes.
pub fn handle_datagram(
    ctx: &mut NavdContext,
    buf: [u8; PACKET_LEN],
    size: usize,
    now_ms: u64,
) -> (outcome: Option<PacketOutcome>)
    requires
        old(ctx).well_formed(),
    ensures
        final(ctx).well_formed(),
        size != PACKET_LEN ==> outcome is None && *final(ctx) == *old(ctx),
        size == PACKET_LEN ==> outcome is Some && packet_handled(
            *old(ctx),
            buf@,
            now_ms,
            *final(ctx),
            outcome->0,
        ),
{
    if size == PACKET_LEN {
        Some(handle_packet(ctx, buf, now_ms))
    } else {
        None
    }
}

/// The remote control can always take the robot over, whatever state it is in.
pub proof fn law_remote_can_always_take_over(ctx: NavdContext)
    ensures
        state_after_packet(ctx.state, outcome_of(ctx, PACKET_DRIVE)) == RobotState::RcOverride,
{
}

/// A packet makes the robot navigate only out of remote control and with its
/// goalpost in sight.
pub proof fn law_navigation_resumes_only_in_sight(ctx: NavdContext, packet_type: u8)
    requires
        ctx.state != RobotState::Navigating,
        state_after_packet(ctx.state, outcome_of(ctx, packet_type)) == RobotState::Navigating,
    ensures
        packet_type == PACKET_RESUME,
        ctx.state == RobotState::RcOverride,
        in_sight(ctx.vision.snapshot, ctx.nav.current_goalpost),
{
}

// ---------------------------------------------------------------------------
// What a packet does, byte by byte
// ---------------------------------------------------------------------------
/// A drive packet puts the robot under remote control out of every state and
/// leaves its inputs: bytes 1, 2 and 4 as two's complements for left, right and
/// lift, byte 3 as flags, and the time at which it came.
pub proof fn law_drive_packet_is_taken_over(
    before: NavdContext,
    buf: Seq<u8>,
    now: u64,
    after: NavdContext,
    outcome: PacketOutcome,
)
    requires
        buf.len() == 8,
        buf[0] == 0x01,
        packet_handled(before, buf, now, after, outcome),
    ensures
        after.state == RobotState::RcOverride,
        outcome == (PacketOutcome::Driven { entered: before.state != RobotState::RcOverride }),
        after.rc@.left as int == (if buf[1] < 128 {
            buf[1] as int
        } else {
            buf[1] - 256
        }),
        after.rc@.right as int == (if buf[2] < 128 {
            buf[2] as int
        } else {
            buf[2] - 256
        }),
        after.rc@.lift as int == (if buf[4] < 128 {
            buf[4] as int
        } else {
            buf[4] - 256
        }),
        after.rc@.flags == buf[3],
        after.rc.last_packet_ms == now,
{
}

/// A resume packet makes a robot under remote control navigate exactly if some
/// tag of the snapshot, at any position below its count, has the number of the
/// goalpost or the next one, where 0 is next to 65535. A robot in another state
/// is left alone, and the remote control's inputs stay.
pub proof fn law_resume_packet_needs_a_tag_of_the_pair(
    before: NavdContext,
    buf: Seq<u8>,
    now: u64,
    after: NavdContext,
    outcome: PacketOutcome,
)
    requires
        before.well_formed(),
        buf.len() == 8,
        buf[0] == 0x02,
        packet_handled(before, buf, now, after, outcome),
    ensures
        ({
            let g = before.nav.current_goalpost;
            let seen = before.vision.snapshot is Some && exists|i: int|
                0 <= i < before.vision.snapshot->0.tag_count && {
                    let id = (#[trigger] before.vision.snapshot->0.tags@[i]).id;
                    id == g || id == g + 1 || (g == 65535 && id == 0)
                };
            let overridden = before.state == RobotState::RcOverride;
            &&& overridden && seen ==> after.state == RobotState::Navigating && outcome == (
            PacketOutcome::Resumed { goalpost: g })
            &&& overridden && !seen ==> after.state == RobotState::RcOverride && outcome == (
            PacketOutcome::NotVisible { goalpost: g })
            &&& !overridden ==> after.state == before.state && outcome is NotOverridden
            &&& after.rc == before.rc
        }),
{
    if let Some(snap) = before.vision.snapshot {
        let g = before.nav.current_goalpost;
        let tags = snap.active_tags();
        assert(tags.len() == snap.tag_count);
        assert forall|i: int| 0 <= i < snap.tag_count implies #[trigger] snap.tags@[i] == tags[i]
            && belongs(tags[i], g) == (tags[i].id == g || tags[i].id == g + 1 || (g == 65535
            && tags[i].id == 0)) by {}
        if pair_among(tags, g) {
            let i = choose|i: int| 0 <= i < tags.len() && belongs(#[trigger] tags[i], g);
            assert(snap.tags@[i] == tags[i]);
        }
    }
}

/// A packet of any other type changes nothing.
pub proof fn law_unknown_packet_changes_nothing(
    before: NavdContext,
    buf: Seq<u8>,
    now: u64,
    after: NavdContext,
    outcome: PacketOutcome,
)
    requires
        buf.len() == 8,
        buf[0] != 0x01,
        buf[0] != 0x02,
        packet_handled(before, buf, now, after, outcome),
    ensures
        after == before,
        outcome == (PacketOutcome::Unknown { packet_type: buf[0] }),
{
}

/// No packet touches vision, the navigator's command, the sensors or the
/// controls for recording and replay.
pub proof fn law_packets_leave_the_rest_alone(
    before: NavdContext,
    buf: Seq<u8>,
    now: u64,
    after: NavdContext,
    outcome: PacketOutcome,
)
    requires
        packet_handled(before, buf, now, after, outcome),
    ensures
        after.vision == before.vision,
        after.nav == before.nav,
        after.sensors == before.sensors,
        after.overrides == before.overrides,
{
}

} // verus!
