//! Decides, frame by frame, where the robot should head for.
use crate::clock::elapsed;
use crate::single::{
    below, law_below_by_bits, lemma_constants, less_than, EIGHTEEN_HUNDRED, FIVE_HUNDRED,
};
use crate::state::{NavCommand, NavdContext, RobotState, VisionSnapshot};
use crate::vision::{AprilTagDetection, MAX_TAGS};
use vstd::prelude::*;

verus! {

/// Vision that has not been heard from for longer than this is lost.
pub const T_LOST_MS: u64 = 1500;

/// A frame older than this is not steered by.
pub const MAX_FRAME_AGE_MS: u64 = 400;

/// The tag that marks the end of the course.
pub const SENTINEL_TAG_ID: u16 = 587;

/// How close to the sentinel the robot comes before it yields.
pub const YIELD_DISTANCE_MM: u32 = 500;

/// How close to a target the robot slows down.
pub const APPROACH_DISTANCE_MM: u32 = 1800;

pub const BASE_SPEED: i8 = 40;

pub const APPROACH_SPEED: i8 = 20;

// ---------------------------------------------------------------------------
// Which tag to head for
// ---------------------------------------------------------------------------
/// Whether the tag at `i` is the first sentinel among `tags`.
pub open spec fn is_sentinel(tags: Seq<AprilTagDetection>, i: int) -> bool {
    &&& 0 <= i < tags.len()
    &&& tags[i].id == SENTINEL_TAG_ID
    &&& forall|j: int| 0 <= j < i ==> (#[trigger] tags[j]).id != SENTINEL_TAG_ID
}

/// The first sentinel among `tags`.
pub open spec fn sentinel_of(tags: Seq<AprilTagDetection>) -> Option<AprilTagDetection> {
    if exists|i: int| is_sentinel(tags, i) {
        Some(tags[choose|i: int| is_sentinel(tags, i)])
    } else {
        None
    }
}

/// Whether the tag at `i` is the one to head for: of the tags that are no
/// sentinel the one with the smallest number, and the first of these.
pub open spec fn is_target(tags: Seq<AprilTagDetection>, i: int) -> bool {
    &&& 0 <= i < tags.len()
    &&& tags[i].id != SENTINEL_TAG_ID
    &&& forall|j: int|
        0 <= j < tags.len() && (#[trigger] tags[j]).id != SENTINEL_TAG_ID ==> {
            &&& tags[i].id <= tags[j].id
            &&& j < i ==> tags[i].id < tags[j].id
        }
}

/// The tag among `tags` to head for.
pub open spec fn target_of(tags: Seq<AprilTagDetection>) -> Option<AprilTagDetection> {
    if exists|i: int| is_target(tags, i) {
        Some(tags[choose|i: int| is_target(tags, i)])
    } else {
        None
    }
}

proof fn lemma_sentinel_unique(tags: Seq<AprilTagDetection>, i: int)
    requires
        is_sentinel(tags, i),
    ensures
        sentinel_of(tags) == Some(tags[i]),
{
    let k = choose|k: int| is_sentinel(tags, k);
    if k < i {
        assert(tags[k].id != SENTINEL_TAG_ID);
    }
    if i < k {
        assert(tags[i].id != SENTINEL_TAG_ID);
    }
}

proof fn lemma_target_unique(tags: Seq<AprilTagDetection>, i: int)
    requires
        is_target(tags, i),
    ensures
        target_of(tags) == Some(tags[i]),
{
    let k = choose|k: int| is_target(tags, k);
    assert(tags[i].id <= tags[k].id && tags[k].id <= tags[i].id);
}

fn find_sentinel(snap: &VisionSnapshot) -> (found: Option<AprilTagDetection>)
    requires
        snap.well_formed(),
    ensures
        found == sentinel_of(snap.active_tags()),
{
    let ghost tags = snap.active_tags();
    let mut i: usize = 0;
    while i < snap.tag_count as usize
        invariant
            i <= snap.tag_count <= MAX_TAGS,
            tags == snap.active_tags(),
            forall|j: int| 0 <= j < i ==> (#[trigger] tags[j]).id != SENTINEL_TAG_ID,
        decreases snap.tag_count - i,
    {
        assert(tags[i as int] == snap.tags@[i as int]);
        if snap.tags[i].id == SENTINEL_TAG_ID {
            proof {
                lemma_sentinel_unique(tags, i as int);
            }
            return Some(snap.tags[i]);
        }
        i = i + 1;
    }
    assert forall|k: int| !is_sentinel(tags, k) by {
        if is_sentinel(tags, k) {
            assert(tags[k].id != SENTINEL_TAG_ID);
        }
    }
    None
}

fn find_target(snap: &VisionSnapshot) -> (found: Option<AprilTagDetection>)
    requires
        snap.well_formed(),
    ensures
        found == target_of(snap.active_tags()),
{
    let ghost tags = snap.active_tags();
    let mut best: Option<usize> = None;
    let mut i: usize = 0;
    while i < snap.tag_count as usize
        invariant
            i <= snap.tag_count <= MAX_TAGS,
            tags == snap.active_tags(),
            match best {
                Some(b) => b < i && is_target(tags.take(i as int), b as int),
                None => forall|j: int| 0 <= j < i ==> (#[trigger] tags[j]).id == SENTINEL_TAG_ID,
            },
        decreases snap.tag_count - i,
    {
        let ghost seen = tags.take(i as int);
        let ghost next = tags.take(i + 1);
        assert(tags[i as int] == snap.tags@[i as int]);
        assert(next[i as int] == tags[i as int]);
        assert forall|j: int| 0 <= j < i implies #[trigger] next[j] == seen[j] && next[j]
            == tags[j] by {}
        let id = snap.tags[i].id;
        match best {
            Some(b) => {
                assert(seen[b as int] == snap.tags@[b as int]);
                assert(next[b as int] == seen[b as int]);
                if id != SENTINEL_TAG_ID && id < snap.tags[b].id {
                    best = Some(i);
                }
            },
            None => {
                if id != SENTINEL_TAG_ID {
                    best = Some(i);
                }
            },
        }
        i = i + 1;
    }
    assert(tags.take(i as int) =~= tags);
    match best {
        Some(b) => {
            proof {
                lemma_target_unique(tags, b as int);
            }
            Some(snap.tags[b])
        },
        None => {
            assert forall|k: int| !is_target(tags, k) by {
                if is_target(tags, k) {
                    assert(tags[k].id == SENTINEL_TAG_ID);
                }
            }
            None
        },
    }
}

// ---------------------------------------------------------------------------
// One round of the navigator
// ---------------------------------------------------------------------------
/// What the navigator keeps from round to round. `unsafe_navigation` makes it
/// wait for lost vision instead of panicking, and `logged_unsafe_lost` tells
/// whether that has been announced.
#[derive(Debug, Clone, Copy, PartialEq, Eq, Structural)]
pub struct Navigator {
    pub unsafe_navigation: bool,
    pub logged_unsafe_lost: bool,
}

/// What a round of the navigator comes to.
#[derive(Debug, Clone, Copy, PartialEq, Eq, Structural)]
pub enum NavAction {
    /// Vision is lost: the motors are stopped until it comes back. `announce`
    /// tells whether this is the first such round.
    Waiting { announce: bool },
    /// Vision is lost: the robot panics.
    Panicked,
    /// There has been no frame yet.
    NoFrame,
    /// The latest frame is this old: it is passed over.
    Stale { age_ms: u64 },
    /// The sentinel is near: the robot yields.
    Yielded { distance_mm: u32 },
    /// The robot does not navigate.
    NotNavigating,
    /// There is no tag to head for: the motors are stopped.
    NoTarget,
    /// Head for this tag at this speed.
    Steer { target: AprilTagDetection, base_speed: i8 },
}

/// The speed at which to head for a tag at a distance, given by its IEEE 754
/// bits.
pub open spec fn speed_at(distance_mm: u32) -> i8 {
    if below(distance_mm, APPROACH_DISTANCE_MM as nat) {
        APPROACH_SPEED
    } else {
        BASE_SPEED
    }
}

/// Whether a robot that navigates has lost its vision.
pub open spec fn is_lost(ctx: NavdContext, now_ms: u64) -> bool {
    ctx.state == RobotState::Navigating && elapsed(now_ms, ctx.vision.last_tag_seen_ms) > T_LOST_MS
}

/// What to do about a frame that is fresh enough.
pub open spec fn frame_action(state: RobotState, tags: Seq<AprilTagDetection>) -> NavAction {
    if state != RobotState::Navigating {
        NavAction::NotNavigating
    } else {
        match sentinel_of(tags) {
            Some(sentinel) if below(sentinel.distance_mm, YIELD_DISTANCE_MM as nat) => {
                NavAction::Yielded { distance_mm: sentinel.distance_mm }
            },
            _ => match target_of(tags) {
                Some(target) => NavAction::Steer {
                    target,
                    base_speed: speed_at(target.distance_mm),
                },
                None => NavAction::NoTarget,
            },
        }
    }
}

/// What a round comes to. The clock is read twice: `now_ms` before vision is
/// looked at, `now_us` before the frame is.
pub open spec fn action_of(
    ctx: NavdContext,
    navigator: Navigator,
    now_ms: u64,
    now_us: u64,
) -> NavAction {
    if is_lost(ctx, now_ms) {
        if navigator.unsafe_navigation {
            NavAction::Waiting { announce: !navigator.logged_unsafe_lost }
        } else {
            NavAction::Panicked
        }
    } else {
        match ctx.vision.snapshot {
            None => NavAction::NoFrame,
            Some(snap) => {
                let age_ms = elapsed(now_us, snap.timestamp_us) / 1000;
                if age_ms > MAX_FRAME_AGE_MS {
                    NavAction::Stale { age_ms: age_ms as u64 }
                } else {
                    frame_action(ctx.state, snap.active_tags())
                }
            },
        }
    }
}

/// The robot's state after a round.
pub open spec fn state_after_nav(state: RobotState, action: NavAction) -> RobotState {
    match action {
        NavAction::Panicked => RobotState::Panicking,
        NavAction::Yielded { .. } => RobotState::Yielding,
        _ => state,
    }
}

/// Whether a round stops the motors.
pub open spec fn stops(action: NavAction) -> bool {
    match action {
        NavAction::Waiting { .. } => true,
        NavAction::Panicked => true,
        NavAction::Yielded { .. } => true,
        NavAction::NoTarget => true,
        _ => false,
    }
}

/// The navigator after a round.
pub open spec fn navigator_after(navigator: Navigator, action: NavAction) -> Navigator {
    Navigator {
        logged_unsafe_lost: match action {
            NavAction::Waiting { .. } => true,
            NavAction::Panicked => navigator.logged_unsafe_lost,
            _ => false,
        },
        ..navigator
    }
}

fn is_near(distance_mm: u32) -> (near: bool)
    ensures
        near == below(distance_mm, YIELD_DISTANCE_MM as nat),
{
    proof {
        lemma_constants();
    }
    less_than(distance_mm, FIVE_HUNDRED)
}

/// Chooses the speed at which to head for a tag.
pub fn choose_speed(distance_mm: u32) -> (speed: i8)
    ensures
        speed == speed_at(distance_mm),
{
    proof {
        lemma_constants();
    }
    if less_than(distance_mm, EIGHTEEN_HUNDRED) {
        APPROACH_SPEED
    } else {
        BASE_SPEED
    }
}

impl Navigator {
    /// A navigator at the start of its loop.
    pub fn new(unsafe_navigation: bool) -> (navigator: Navigator)
        ensures
            navigator == (Navigator { unsafe_navigation, logged_unsafe_lost: false }),
    {
        Navigator { unsafe_navigation, logged_unsafe_lost: false }
    }

    /// One round of the navigator. Where it comes to [`NavAction::Steer`], the
    /// caller computes the two motor commands and hands them to the context.
    pub fn step(&mut self, ctx: &mut NavdContext, now_ms: u64, now_us: u64) -> (action: NavAction)
        requires
            old(ctx).well_formed(),
        ensures
            final(ctx).well_formed(),
            action == action_of(*old(ctx), *old(self), now_ms, now_us),
            *final(self) == navigator_after(*old(self), action),
            final(ctx).state == state_after_nav(old(ctx).state, action),
            stops(action) ==> final(ctx).nav@ == (NavCommand { left: 0, right: 0 })
                && final(ctx).nav.current_goalpost == old(ctx).nav.current_goalpost,
            !stops(action) ==> final(ctx).nav == old(ctx).nav,
            final(ctx).vision == old(ctx).vision,
            final(ctx).rc == old(ctx).rc,
            final(ctx).sensors == old(ctx).sensors,
            final(ctx).overrides == old(ctx).overrides,
    {
        let navigating = ctx.state == RobotState::Navigating;
        let last_seen = ctx.vision.last_tag_seen_ms;
        if navigating && now_ms.saturating_sub(last_seen) > T_LOST_MS {
            ctx.nav.update(0, 0);
            if self.unsafe_navigation {
                let announce = !self.logged_unsafe_lost;
                self.logged_unsafe_lost = true;
                return NavAction::Waiting { announce };
            }
            ctx.state = RobotState::Panicking;
            return NavAction::Panicked;
        }
        self.logged_unsafe_lost = false;
        match &ctx.vision.snapshot {
            None => NavAction::NoFrame,
            Some(snap) => {
                let age_ms = now_us.saturating_sub(snap.timestamp_us) / 1000;
                if age_ms > MAX_FRAME_AGE_MS {
                    return NavAction::Stale { age_ms };
                }
                if !navigating {
                    return NavAction::NotNavigating;
                }
                if let Some(sentinel) = find_sentinel(snap) {
                    if is_near(sentinel.distance_mm) {
                        ctx.state = RobotState::Yielding;
                        ctx.nav.update(0, 0);
                        return NavAction::Yielded { distance_mm: sentinel.distance_mm };
                    }
                }
                match find_target(snap) {
                    Some(target) => {
                        NavAction::Steer { target, base_speed: choose_speed(target.distance_mm) }
                    },
                    None => {
                        ctx.nav.update(0, 0);
                        NavAction::NoTarget
                    },
                }
            },
        }
    }
}

// ---------------------------------------------------------------------------
// What the navigator promises
// ---------------------------------------------------------------------------
/// There is a tag to head for exactly if there is one that is no sentinel; it
/// is one of them, and none has a smaller number.
pub proof fn law_target_is_smallest(tags: Seq<AprilTagDetection>)
    ensures
        target_of(tags) is Some <==> exists|i: int|
            0 <= i < tags.len() && (#[trigger] tags[i]).id != SENTINEL_TAG_ID,
        target_of(tags) matches Some(t) ==> {
            &&& tags.contains(t)
            &&& t.id != SENTINEL_TAG_ID
            &&& forall|j: int|
                0 <= j < tags.len() && (#[trigger] tags[j]).id != SENTINEL_TAG_ID ==> t.id
                    <= tags[j].id
        },
{
    if exists|i: int| 0 <= i < tags.len() && (#[trigger] tags[i]).id != SENTINEL_TAG_ID {
        lemma_target_exists(tags);
    }
    if exists|i: int| is_target(tags, i) {
        let i = choose|i: int| is_target(tags, i);
        assert(tags[i].id != SENTINEL_TAG_ID);
    }
}

proof fn lemma_target_exists(tags: Seq<AprilTagDetection>)
    requires
        exists|i: int| 0 <= i < tags.len() && (#[trigger] tags[i]).id != SENTINEL_TAG_ID,
    ensures
        exists|i: int| is_target(tags, i),
    decreases tags.len(),
{
    let before = tags.drop_last();
    let n = before.len() as int;
    assert forall|j: int| 0 <= j < n implies #[trigger] before[j] == tags[j] by {}
    if exists|i: int| 0 <= i < n && (#[trigger] before[i]).id != SENTINEL_TAG_ID {
        lemma_target_exists(before);
        let b = choose|i: int| is_target(before, i);
        assert(before[b] == tags[b]);
        if tags[n].id != SENTINEL_TAG_ID && tags[n].id < tags[b].id {
            assert forall|j: int|
                0 <= j < tags.len() && (#[trigger] tags[j]).id != SENTINEL_TAG_ID implies {
                &&& tags[n].id <= tags[j].id
                &&& j < n ==> tags[n].id < tags[j].id
            } by {
                if j < n {
                    assert(before[j] == tags[j]);
                }
            }
            assert(is_target(tags, n));
        } else {
            assert forall|j: int|
                0 <= j < tags.len() && (#[trigger] tags[j]).id != SENTINEL_TAG_ID implies {
                &&& tags[b].id <= tags[j].id
                &&& j < b ==> tags[b].id < tags[j].id
            } by {
                if j < n {
                    assert(before[j] == tags[j]);
                }
            }
            assert(is_target(tags, b));
        }
    } else {
        let i = choose|i: int| 0 <= i < tags.len() && (#[trigger] tags[i]).id != SENTINEL_TAG_ID;
        if i < n {
            assert(before[i] == tags[i]);
        }
        assert forall|j: int| 0 <= j < n implies (#[trigger] tags[j]).id == SENTINEL_TAG_ID by {
            assert(before[j] == tags[j]);
        }
        assert(is_target(tags, n));
    }
}

/// The navigator steers only a robot that navigates, whose vision is not lost
/// and whose latest frame is fresh.
pub proof fn law_steers_only_by_fresh_vision(
    ctx: NavdContext,
    navigator: Navigator,
    now_ms: u64,
    now_us: u64,
)
    requires
        action_of(ctx, navigator, now_ms, now_us) is Steer,
    ensures
        ctx.state == RobotState::Navigating,
        elapsed(now_ms, ctx.vision.last_tag_seen_ms) <= T_LOST_MS,
        ctx.vision.snapshot is Some,
        elapsed(now_us, ctx.vision.snapshot->0.timestamp_us) / 1000 <= MAX_FRAME_AGE_MS,
{
}

/// The navigator leaves alone every state but that of navigating, and out of
/// it leads nowhere but into panic, for lost vision, and into yielding.
pub proof fn law_navigator_transitions(
    ctx: NavdContext,
    navigator: Navigator,
    now_ms: u64,
    now_us: u64,
)
    ensures
        ({
            let action = action_of(ctx, navigator, now_ms, now_us);
            let after = state_after_nav(ctx.state, action);
            &&& ctx.state != RobotState::Navigating ==> after == ctx.state
            &&& ctx.state == RobotState::Navigating ==> after == RobotState::Navigating || after
                == RobotState::Panicking || after == RobotState::Yielding
            &&& after != ctx.state && after == RobotState::Panicking ==> is_lost(ctx, now_ms)
                && !navigator.unsafe_navigation
        }),
{
}

// ---------------------------------------------------------------------------
// What a round comes to, tag by tag
// ---------------------------------------------------------------------------
/// A robot that navigates and whose vision has been silent for more than a
/// second and a half stops its motors, whatever is in its last frame. It panics,
/// unless it is told to wait; then it keeps its state, and only the first such
/// round is announced.
pub proof fn law_lost_vision_stops_the_robot(
    ctx: NavdContext,
    navigator: Navigator,
    now_ms: u64,
    now_us: u64,
)
    requires
        ctx.state == RobotState::Navigating,
        now_ms > ctx.vision.last_tag_seen_ms + 1500,
    ensures
        ({
            let action = action_of(ctx, navigator, now_ms, now_us);
            let after = navigator_after(navigator, action);
            &&& stops(action)
            &&& navigator.unsafe_navigation ==> {
                &&& action == (NavAction::Waiting { announce: !navigator.logged_unsafe_lost })
                &&& state_after_nav(ctx.state, action) == RobotState::Navigating
                &&& after.logged_unsafe_lost
            }
            &&& !navigator.unsafe_navigation ==> {
                &&& action == NavAction::Panicked
                &&& state_after_nav(ctx.state, action) == RobotState::Panicking
                &&& after.logged_unsafe_lost == navigator.logged_unsafe_lost
            }
            &&& after.unsafe_navigation == navigator.unsafe_navigation
        }),
{
}

/// Where vision is not lost, or the robot does not navigate, a missing frame and
/// one more than 400 whole milliseconds old change nothing, nor does any frame
/// while the robot does not navigate; only the announcement of lost vision is
/// taken back.
pub proof fn law_without_a_fresh_frame_nothing_changes(
    ctx: NavdContext,
    navigator: Navigator,
    now_ms: u64,
    now_us: u64,
)
    requires
        ctx.state != RobotState::Navigating || now_ms <= ctx.vision.last_tag_seen_ms + 1500,
        ctx.vision.snapshot is None || ctx.state != RobotState::Navigating || now_us
            >= ctx.vision.snapshot->0.timestamp_us + 401_000,
    ensures
        ({
            let action = action_of(ctx, navigator, now_ms, now_us);
            let taken = ctx.vision.snapshot->0.timestamp_us;
            &&& ctx.vision.snapshot is None ==> action is NoFrame
            &&& ctx.vision.snapshot is Some && now_us >= taken + 401_000 ==> action == (
            NavAction::Stale { age_ms: ((now_us - taken) / 1000) as u64 })
            &&& ctx.vision.snapshot is Some && now_us < taken + 401_000 ==> action is NotNavigating
            &&& state_after_nav(ctx.state, action) == ctx.state
            &&& !stops(action)
            &&& navigator_after(navigator, action) == (Navigator {
                unsafe_navigation: navigator.unsafe_navigation,
                logged_unsafe_lost: false,
            })
        }),
{
}

/// A robot that navigates by a fresh frame yields and stops if the first tag
/// numbered 587, at position `k`, is nearer than 500 millimetres, by its bits,
/// whatever other tags are or are not in the frame.
pub proof fn law_robot_yields_near_the_sentinel(
    ctx: NavdContext,
    navigator: Navigator,
    snap: VisionSnapshot,
    now_ms: u64,
    now_us: u64,
    k: int,
)
    requires
        snap.tag_count <= 20,
        ctx.vision.snapshot == Some(snap),
        ctx.state == RobotState::Navigating,
        now_ms <= ctx.vision.last_tag_seen_ms + 1500,
        now_us < snap.timestamp_us + 401_000,
        0 <= k < snap.tag_count,
        snap.tags@[k].id == 587,
        forall|j: int| 0 <= j < k ==> (#[trigger] snap.tags@[j]).id != 587,
        snap.tags@[k].distance_mm < 0x43FA_0000 || 0x8000_0000 <= snap.tags@[k].distance_mm
            <= 0xFF80_0000,
    ensures
        ({
            let action = action_of(ctx, navigator, now_ms, now_us);
            &&& action == (NavAction::Yielded { distance_mm: snap.tags@[k].distance_mm })
            &&& state_after_nav(ctx.state, action) == RobotState::Yielding
            &&& stops(action)
            &&& navigator_after(navigator, action) == (Navigator {
                unsafe_navigation: navigator.unsafe_navigation,
                logged_unsafe_lost: false,
            })
        }),
{
    let tags = snap.active_tags();
    assert forall|j: int| 0 <= j < tags.len() implies #[trigger] tags[j] == snap.tags@[j] by {}
    assert(is_sentinel(tags, k));
    lemma_sentinel_unique(tags, k);
    law_below_by_bits(tags[k].distance_mm);
}

/// A robot that navigates by a fresh frame, with no near sentinel, heads for the
/// tag at `t` if none but those numbered 587 has a smaller number, or the same one
/// at an earlier position. It goes at 20 nearer than 1800 millimetres, by the
/// bits, and else at 40, and keeps its state.
pub proof fn law_robot_heads_for_the_smallest_tag(
    ctx: NavdContext,
    navigator: Navigator,
    snap: VisionSnapshot,
    now_ms: u64,
    now_us: u64,
    t: int,
)
    requires
        snap.tag_count <= 20,
        ctx.vision.snapshot == Some(snap),
        ctx.state == RobotState::Navigating,
        now_ms <= ctx.vision.last_tag_seen_ms + 1500,
        now_us < snap.timestamp_us + 401_000,
        forall|k: int|
            0 <= k < snap.tag_count && (#[trigger] snap.tags@[k]).id == 587 && (forall|j: int|
                0 <= j < k ==> (#[trigger] snap.tags@[j]).id != 587) ==> !(
            snap.tags@[k].distance_mm < 0x43FA_0000 || 0x8000_0000 <= snap.tags@[k].distance_mm
                <= 0xFF80_0000),
        0 <= t < snap.tag_count,
        snap.tags@[t].id != 587,
        forall|j: int|
            0 <= j < snap.tag_count && (#[trigger] snap.tags@[j]).id != 587 ==> snap.tags@[t].id
                < snap.tags@[j].id || (snap.tags@[t].id == snap.tags@[j].id && t <= j),
    ensures
        ({
            let action = action_of(ctx, navigator, now_ms, now_us);
            let bits = snap.tags@[t].distance_mm;
            let near = bits < 0x44E1_0000 || 0x8000_0000 <= bits <= 0xFF80_0000;
            &&& action == (NavAction::Steer {
                target: snap.tags@[t],
                base_speed: if near {
                    20
                } else {
                    40
                },
            })
            &&& state_after_nav(ctx.state, action) == RobotState::Navigating
            &&& !stops(action)
            &&& navigator_after(navigator, action) == (Navigator {
                unsafe_navigation: navigator.unsafe_navigation,
                logged_unsafe_lost: false,
            })
        }),
{
    let tags = snap.active_tags();
    assert forall|j: int| 0 <= j < tags.len() implies #[trigger] tags[j] == snap.tags@[j] by {}
    lemma_no_near_sentinel(snap);
    assert(is_target(tags, t)) by {
        assert forall|j: int| 0 <= j < tags.len() && (#[trigger] tags[j]).id != SENTINEL_TAG_ID implies {
            &&& tags[t].id <= tags[j].id
            &&& j < t ==> tags[t].id < tags[j].id
        } by {
            assert(tags[j] == snap.tags@[j]);
        }
    }
    lemma_target_unique(tags, t);
    law_below_by_bits(tags[t].distance_mm);
}

/// A robot that navigates by a fresh frame in which there is nothing but far
/// sentinels, or nothing at all, stops and keeps its state.
pub proof fn law_robot_stops_without_a_target(
    ctx: NavdContext,
    navigator: Navigator,
    snap: VisionSnapshot,
    now_ms: u64,
    now_us: u64,
)
    requires
        snap.tag_count <= 20,
        ctx.vision.snapshot == Some(snap),
        ctx.state == RobotState::Navigating,
        now_ms <= ctx.vision.last_tag_seen_ms + 1500,
        now_us < snap.timestamp_us + 401_000,
        forall|k: int| 0 <= k < snap.tag_count ==> (#[trigger] snap.tags@[k]).id == 587,
        snap.tag_count > 0 ==> !(snap.tags@[0].distance_mm < 0x43FA_0000 || 0x8000_0000
            <= snap.tags@[0].distance_mm <= 0xFF80_0000),
    ensures
        ({
            let action = action_of(ctx, navigator, now_ms, now_us);
            &&& action == NavAction::NoTarget
            &&& state_after_nav(ctx.state, action) == RobotState::Navigating
            &&& stops(action)
            &&& navigator_after(navigator, action) == (Navigator {
                unsafe_navigation: navigator.unsafe_navigation,
                logged_unsafe_lost: false,
            })
        }),
{
    let tags = snap.active_tags();
    assert forall|j: int| 0 <= j < tags.len() implies #[trigger] tags[j] == snap.tags@[j] by {}
    assert forall|k: int|
        0 <= k < snap.tag_count && (#[trigger] snap.tags@[k]).id == 587 && (forall|j: int|
            0 <= j < k ==> (#[trigger] snap.tags@[j]).id != 587) implies !(
    snap.tags@[k].distance_mm < 0x43FA_0000 || 0x8000_0000 <= snap.tags@[k].distance_mm
        <= 0xFF80_0000) by {
        if k > 0 {
            assert(snap.tags@[0].id != 587);
        }
    }
    lemma_no_near_sentinel(snap);
    assert forall|k: int| !is_target(tags, k) by {
        if is_target(tags, k) {
            assert(tags[k] == snap.tags@[k]);
        }
    }
}

proof fn lemma_no_near_sentinel(snap: VisionSnapshot)
    requires
        snap.well_formed(),
        forall|k: int|
            0 <= k < snap.tag_count && (#[trigger] snap.tags@[k]).id == 587 && (forall|j: int|
                0 <= j < k ==> (#[trigger] snap.tags@[j]).id != 587) ==> !(
            snap.tags@[k].distance_mm < 0x43FA_0000 || 0x8000_0000 <= snap.tags@[k].distance_mm
                <= 0xFF80_0000),
    ensures
        sentinel_of(snap.active_tags()) matches Some(s) ==> !below(s.distance_mm, 500),
{
    let tags = snap.active_tags();
    assert forall|j: int| 0 <= j < tags.len() implies #[trigger] tags[j] == snap.tags@[j] by {}
    if exists|i: int| is_sentinel(tags, i) {
        let k = choose|i: int| is_sentinel(tags, i);
        lemma_sentinel_unique(tags, k);
        assert(tags[k] == snap.tags@[k]);
        assert forall|j: int| 0 <= j < k implies (#[trigger] snap.tags@[j]).id != 587 by {
            assert(tags[j] == snap.tags@[j]);
        }
        law_below_by_bits(tags[k].distance_mm);
    }
}

} // verus!
