//! The robot's states and what leads from one to another.
use crate::nav::{
    action_of, is_lost, sentinel_of, state_after_nav, Navigator, YIELD_DISTANCE_MM,
};
use crate::sensor::{is_collision, state_after_status, FrameScan};
use crate::single::below;
use crate::state::{NavdContext, RobotState};
use crate::udp::{in_sight, outcome_of, state_after_packet, PACKET_DRIVE, PACKET_RESUME};
use vstd::prelude::*;

verus! {

/// What can change the robot's state.
pub enum Event {
    /// A packet from the remote control.
    Packet { packet_type: u8 },
    /// The outcome of a sensor poll.
    Scan(FrameScan),
    /// A round of the navigator.
    Round { navigator: Navigator, now_ms: u64, now_us: u64 },
}

/// The state after an event.
pub open spec fn state_after(ctx: NavdContext, event: Event) -> RobotState {
    match event {
        Event::Packet { packet_type } => state_after_packet(
            ctx.state,
            outcome_of(ctx, packet_type),
        ),
        Event::Scan(FrameScan::Status { flags, .. }) => state_after_status(ctx.state, flags),
        Event::Scan(_) => ctx.state,
        Event::Round { navigator, now_ms, now_us } => state_after_nav(
            ctx.state,
            action_of(ctx, navigator, now_ms, now_us),
        ),
    }
}

/// Whether the sentinel is in the latest frame, near enough to yield.
pub open spec fn sentinel_near(ctx: NavdContext) -> bool {
    ctx.vision.snapshot matches Some(snap) && (sentinel_of(snap.active_tags()) matches Some(tag)
        && below(tag.distance_mm, YIELD_DISTANCE_MM as nat))
}

/// Every change of state has one of five causes. The robot navigates only when
/// the remote control hands it back with its goalpost in sight; it yields only
/// out of navigating, near the sentinel; it panics only out of navigating, for a
/// collision or for lost vision; the remote control takes it over out of any
/// state; and it never boots again.
pub proof fn law_causes_of_a_transition(ctx: NavdContext, event: Event)
    requires
        state_after(ctx, event) != ctx.state,
    ensures
        match state_after(ctx, event) {
            RobotState::Boot => false,
            RobotState::Navigating => {
                &&& ctx.state == RobotState::RcOverride
                &&& event == (Event::Packet { packet_type: PACKET_RESUME })
                &&& in_sight(ctx.vision.snapshot, ctx.nav.current_goalpost)
            },
            RobotState::Yielding => {
                &&& ctx.state == RobotState::Navigating
                &&& event is Round
                &&& sentinel_near(ctx)
            },
            RobotState::Panicking => {
                &&& ctx.state == RobotState::Navigating
                &&& match event {
                    Event::Packet { .. } => false,
                    Event::Scan(found) => found matches FrameScan::Status { flags, .. }
                        && is_collision(flags),
                    Event::Round { navigator, now_ms, .. } => is_lost(ctx, now_ms)
                        && !navigator.unsafe_navigation,
                }
            },
            RobotState::RcOverride => event == (Event::Packet { packet_type: PACKET_DRIVE }),
        },
{
}

/// A robot that panics, that has yielded or that has just booted waits for the
/// remote control: nothing else changes its state.
pub proof fn law_only_the_remote_wakes_the_robot(ctx: NavdContext, event: Event)
    requires
        ctx.state == RobotState::Panicking || ctx.state == RobotState::Yielding || ctx.state
            == RobotState::Boot,
    ensures
        state_after(ctx, event) == if event == (Event::Packet { packet_type: PACKET_DRIVE }) {
            RobotState::RcOverride
        } else {
            ctx.state
        },
{
}

/// A robot that is with the remote control stays with it, whatever its sensors
/// and its navigator find.
pub proof fn law_sensors_do_not_end_remote_control(ctx: NavdContext, event: Event)
    requires
        ctx.state == RobotState::RcOverride,
        !(event is Packet),
    ensures
        state_after(ctx, event) == RobotState::RcOverride,
{
}

} // verus!
