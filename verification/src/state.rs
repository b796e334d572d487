//! What the daemon's threads share: the robot's state and, per domain, the
//! latest values.
use crate::text::{chars_of, parse_unsigned, unsigned_value};
use crate::vision::{AprilTagDetection, MAX_TAGS};
use vstd::prelude::*;

verus! {

#[derive(Debug, Clone, Copy, PartialEq, Eq, Structural)]
pub enum RobotState {
    Boot,
    Navigating,
    Yielding,
    Panicking,
    RcOverride,
}

/// Which of the record and replay features is in use.
#[derive(Debug, Clone, Copy, PartialEq, Eq, Structural)]
pub enum OverrideMode {
    Normal,
    Record,
    Replay,
}

// ---------------
// Vision Domain
// ---------------
#[derive(Clone, Copy)]
pub struct VisionSnapshot {
    pub timestamp_us: u64,
    pub tag_count: u32,
    pub tags: [AprilTagDetection; MAX_TAGS],
}

impl VisionSnapshot {
    /// A snapshot counts at most as many tags as it has room for.
    pub open spec fn well_formed(&self) -> bool {
        self.tag_count <= MAX_TAGS
    }

    /// The tags that the frame really held.
    pub open spec fn active_tags(&self) -> Seq<AprilTagDetection> {
        self.tags@.take(self.tag_count as int)
    }
}

pub struct VisionShared {
    pub snapshot: Option<VisionSnapshot>,
    pub last_tag_seen_ms: u64,
}

impl VisionShared {
    pub open spec fn well_formed(&self) -> bool {
        self.snapshot matches Some(snap) ==> snap.well_formed()
    }

    /// Publishes a new snapshot. The vision process counts as heard from when
    /// the frame was taken, not when it arrives here.
    pub fn update(&mut self, new_data: VisionSnapshot)
        ensures
            final(self).snapshot == Some(new_data),
            final(self).last_tag_seen_ms == new_data.timestamp_us / 1000,
            new_data.well_formed() ==> final(self).well_formed(),
    {
        let capture_time_ms = new_data.timestamp_us / 1000;
        self.snapshot = Some(new_data);
        self.last_tag_seen_ms = capture_time_ms;
    }
}

// -------------------------
// Navigation & RC Domains
// -------------------------
#[derive(Debug, Clone, Copy, PartialEq, Eq, Structural)]
pub struct NavCommand {
    pub left: i8,
    pub right: i8,
}

/// The navigator's latest drive command, packed into one word, and the first
/// tag of the pair that it is heading for.
pub struct NavShared {
    pub cmd: u16,
    pub current_goalpost: u16,
}

/// A drive command as one word, the left side in the high byte.
pub open spec fn packed_nav(cmd: NavCommand) -> u16 {
    ((cmd.left as u8 as u16) << 8) | (cmd.right as u8 as u16)
}

/// The drive command that a word holds.
pub open spec fn unpacked_nav(word: u16) -> NavCommand {
    NavCommand { left: (word >> 8) as i8, right: (word & 0xFF) as i8 }
}

/// Packing a drive command loses nothing, and every word is a packed command.
pub proof fn law_nav_word_round_trip(cmd: NavCommand, word: u16)
    ensures
        unpacked_nav(packed_nav(cmd)) == cmd,
        packed_nav(unpacked_nav(word)) == word,
{
    let (left, right) = (cmd.left, cmd.right);
    let packed = packed_nav(cmd);
    assert((packed >> 8) as i8 == left && (packed & 0xFF) as i8 == right) by (bit_vector)
        requires
            packed == ((left as u8 as u16) << 8) | (right as u8 as u16),
    ;
    assert((((word >> 8) as i8) as u8 as u16) << 8 | (((word & 0xFF) as i8) as u8 as u16) == word)
        by (bit_vector);
}

impl View for NavShared {
    type V = NavCommand;

    open spec fn view(&self) -> NavCommand {
        unpacked_nav(self.cmd)
    }
}

impl NavShared {
    pub fn update(&mut self, left: i8, right: i8)
        ensures
            final(self)@ == (NavCommand { left, right }),
            final(self).cmd == packed_nav(NavCommand { left, right }),
            final(self).current_goalpost == old(self).current_goalpost,
    {
        let packed: u16 = ((left as u8 as u16) << 8) | (right as u8 as u16);
        proof {
            law_nav_word_round_trip(NavCommand { left, right }, packed);
        }
        self.cmd = packed;
    }

    pub fn read(&self) -> (command: NavCommand)
        ensures
            command == self@,
    {
        let packed = self.cmd;
        NavCommand {
            left: #[verifier::truncate]
            ((packed >> 8) as i8),
            right: #[verifier::truncate]
            ((packed & 0xFF) as i8),
        }
    }
}

#[derive(Debug, Clone, Copy, PartialEq, Eq, Structural)]
pub struct RcCommand {
    pub left: i8,
    pub right: i8,
    pub lift: i8,
    pub flags: u8,
}

/// The remote control's latest command, packed into one word, and when it came.
pub struct RcShared {
    pub cmd: u32,
    pub last_packet_ms: u64,
}

/// A remote-control command as one word: left, right, lift and flags, from the
/// high byte down.
pub open spec fn packed_rc(cmd: RcCommand) -> u32 {
    ((cmd.left as u8 as u32) << 24) | ((cmd.right as u8 as u32) << 16) | ((cmd.lift as u8 as u32)
        << 8) | (cmd.flags as u32)
}

/// The remote-control command that a word holds.
pub open spec fn unpacked_rc(word: u32) -> RcCommand {
    RcCommand {
        left: (word >> 24) as i8,
        right: ((word >> 16) & 0xFF) as i8,
        lift: ((word >> 8) & 0xFF) as i8,
        flags: (word & 0xFF) as u8,
    }
}

/// Packing a remote-control command loses nothing, and every word is a packed
/// command.
pub proof fn law_rc_word_round_trip(cmd: RcCommand, word: u32)
    ensures
        unpacked_rc(packed_rc(cmd)) == cmd,
        packed_rc(unpacked_rc(word)) == word,
{
    let (left, right, lift, flags) = (cmd.left, cmd.right, cmd.lift, cmd.flags);
    let packed = packed_rc(cmd);
    assert((packed >> 24) as i8 == left && ((packed >> 16) & 0xFF) as i8 == right && ((packed >> 8)
        & 0xFF) as i8 == lift && (packed & 0xFF) as u8 == flags) by (bit_vector)
        requires
            packed == ((left as u8 as u32) << 24) | ((right as u8 as u32) << 16) | ((
            lift as u8 as u32) << 8) | (flags as u32),
    ;
    assert(((((word >> 24) as i8) as u8 as u32) << 24) | (((((word >> 16) & 0xFF) as i8) as u8
        as u32) << 16) | (((((word >> 8) & 0xFF) as i8) as u8 as u32) << 8) | ((word
        & 0xFF) as u8 as u32) == word) by (bit_vector);
}

impl View for RcShared {
    type V = RcCommand;

    open spec fn view(&self) -> RcCommand {
        unpacked_rc(self.cmd)
    }
}

impl RcShared {
    pub fn update(&mut self, cmd: &RcCommand, time_ms: u64)
        ensures
            final(self)@ == *cmd,
            final(self).cmd == packed_rc(*cmd),
            final(self).last_packet_ms == time_ms,
    {
        let (left, right, lift, flags) = (cmd.left, cmd.right, cmd.lift, cmd.flags);
        let packed: u32 = ((left as u8 as u32) << 24) | ((right as u8 as u32) << 16) | ((
        lift as u8 as u32) << 8) | (flags as u32);
        proof {
            law_rc_word_round_trip(*cmd, packed);
        }
        self.cmd = packed;
        self.last_packet_ms = time_ms;
    }

    pub fn read(&self) -> (command: RcCommand)
        ensures
            command == self@,
    {
        let packed = self.cmd;
        RcCommand {
            left: #[verifier::truncate]
            ((packed >> 24) as i8),
            right: #[verifier::truncate]
            (((packed >> 16) & 0xFF) as i8),
            lift: #[verifier::truncate]
            (((packed >> 8) & 0xFF) as i8),
            flags: #[verifier::truncate]
            ((packed & 0xFF) as u8),
        }
    }
}

// ---------------
// Sensor Domain
// ---------------
/// The latest sensor status. The heading is a single-precision number, held by
/// its IEEE 754 bits.
pub struct SensorShared {
    pub flags: u8,
    pub heading_bits: u32,
}

impl SensorShared {
    pub fn update(&mut self, flags: u8, heading_bits: u32)
        ensures
            final(self).flags == flags,
            final(self).heading_bits == heading_bits,
    {
        self.heading_bits = heading_bits;
        self.flags = flags;
    }
}

// ---------------------------
// Record and Replay Controls
// ---------------------------
pub struct OverrideShared {
    pub mode: OverrideMode,
    pub is_recording: bool,
    pub replay_trigger: bool,
}

// ----------------
// Global Context
// ----------------
pub struct NavdContext {
    pub state: RobotState,
    pub vision: VisionShared,
    pub nav: NavShared,
    pub rc: RcShared,
    pub sensors: SensorShared,
    pub overrides: OverrideShared,
}

/// The goalpost to start with: 0 for the smallest pair there is; else the odd
/// member of the pair that `start_pair` names; else 1, also where the text is
/// no 16-bit number or names 0.
pub open spec fn initial_goalpost(smallest: bool, start_pair: Option<Seq<char>>) -> int {
    if smallest {
        0
    } else {
        match start_pair {
            Some(text) => match unsigned_value(text, 0xFFFF) {
                Some(p) => if p == 0 {
                    1
                } else if p % 2 == 0 {
                    p - 1
                } else {
                    p as int
                },
                None => 1,
            },
            None => 1,
        }
    }
}

impl NavdContext {
    pub open spec fn well_formed(&self) -> bool {
        self.vision.well_formed()
    }

    /// A fresh context. `start_smallest_pair` tells whether the smallest pair
    /// was asked for, `start_pair` is the pair that was asked for by number.
    pub fn new(start_smallest_pair: bool, start_pair: Option<&str>) -> (ctx: NavdContext)
        ensures
            ctx.well_formed(),
            ctx.state == RobotState::Boot,
            ctx.vision.snapshot is None,
            ctx.vision.last_tag_seen_ms == 0,
            ctx.nav@ == (NavCommand { left: 0, right: 0 }),
            ctx.nav.current_goalpost == initial_goalpost(
                start_smallest_pair,
                match start_pair {
                    Some(text) => Some(text@),
                    None => None,
                },
            ),
            ctx.rc@ == (RcCommand { left: 0, right: 0, lift: 0, flags: 0 }),
            ctx.rc.last_packet_ms == 0,
            ctx.sensors == (SensorShared { flags: 0, heading_bits: 0 }),
            ctx.overrides == (OverrideShared {
                mode: OverrideMode::Normal,
                is_recording: false,
                replay_trigger: false,
            }),
    {
        let start_pair: u16 = if start_smallest_pair {
            0
        } else if let Some(val) = start_pair {
            let mut p: u16 = match parse_unsigned(&chars_of(val), 0xFFFF) {
                Some(p) => p as u16,
                None => 1,
            };
            if p == 0 {
                p = 1;
            } else if p % 2 == 0 {
                p = p - 1;
            }
            p
        } else {
            1
        };
        assert((0u16 >> 8) as i8 == 0 && (0u16 & 0xFF) as i8 == 0) by (bit_vector);
        assert((0u32 >> 24) as i8 == 0 && ((0u32 >> 16) & 0xFF) as i8 == 0 && ((0u32 >> 8)
            & 0xFF) as i8 == 0 && (0u32 & 0xFF) as u8 == 0) by (bit_vector);
        NavdContext {
            state: RobotState::Boot,
            vision: VisionShared { snapshot: None, last_tag_seen_ms: 0 },
            nav: NavShared { cmd: 0, current_goalpost: start_pair },
            rc: RcShared { cmd: 0, last_packet_ms: 0 },
            sensors: SensorShared { flags: 0, heading_bits: 0 },
            overrides: OverrideShared {
                mode: OverrideMode::Normal,
                is_recording: false,
                replay_trigger: false,
            },
        }
    }
}

/// Unless the smallest pair is asked for, the robot starts for the odd member
/// of a pair.
pub proof fn law_start_is_odd(start_pair: Option<Seq<char>>)
    ensures
        initial_goalpost(false, start_pair) % 2 == 1,
        1 <= initial_goalpost(false, start_pair) <= 0xFFFF,
{
}

/// The first goalpost, in terms of the number that was asked for: an odd one is
/// taken as it is, of an even one the one before, and 0 and what is no 16-bit
/// number count as 1.
pub proof fn law_first_goalpost(text: Seq<char>, n: nat, start_pair: Option<Seq<char>>)
    ensures
        initial_goalpost(true, start_pair) == 0,
        initial_goalpost(false, None) == 1,
        unsigned_value(text, 65535) is None ==> initial_goalpost(false, Some(text)) == 1,
        unsigned_value(text, 65535) == Some(n) ==> {
            let g = initial_goalpost(false, Some(text));
            &&& g % 2 == 1
            &&& n > 0 ==> n - 1 <= g <= n
            &&& n == 0 ==> g == 1
        },
{
}

/// Which byte of a packed word holds what: the left speed in the high byte and
/// the right one in the low byte, and of a remote-control command left, right,
/// lift and flags from the high byte down, each as a two's complement.
pub proof fn law_packed_bytes(nav: NavCommand, rc: RcCommand)
    ensures
        packed_nav(nav) / 256 == (nav.left + 256) % 256,
        packed_nav(nav) % 256 == (nav.right + 256) % 256,
        packed_rc(rc) / 0x100_0000 == (rc.left + 256) % 256,
        packed_rc(rc) / 0x1_0000 % 256 == (rc.right + 256) % 256,
        packed_rc(rc) / 0x100 % 256 == (rc.lift + 256) % 256,
        packed_rc(rc) % 256 == rc.flags,
{
    let (l, r) = (nav.left, nav.right);
    let w = packed_nav(nav);
    assert(w / 256 == (l + 256) % 256 && w % 256 == (r + 256) % 256) by (bit_vector)
        requires
            w == ((l as u8 as u16) << 8) | (r as u8 as u16),
    ;
    let (left, right, lift, flags) = (rc.left, rc.right, rc.lift, rc.flags);
    let v = packed_rc(rc);
    assert(v / 0x100_0000 == (left + 256) % 256 && v / 0x1_0000 % 256 == (right + 256) % 256 && v
        / 0x100 % 256 == (lift + 256) % 256 && v % 256 == flags) by (bit_vector)
        requires
            v == ((left as u8 as u32) << 24) | ((right as u8 as u32) << 16) | ((lift as u8 as u32)
                << 8) | (flags as u32),
    ;
}

/// The shared commands are seen as their words hold them, and the active tags
/// are the first ones, as many as the snapshot counts.
pub proof fn law_shared_contents(nav: NavShared, rc: RcShared, snap: VisionSnapshot, i: int)
    requires
        snap.tag_count <= 20,
        0 <= i < snap.tag_count,
    ensures
        nav.cmd == packed_nav(nav@),
        rc.cmd == packed_rc(rc@),
        snap.well_formed(),
        snap.active_tags().len() == snap.tag_count,
        snap.active_tags()[i] == snap.tags@[i],
{
    law_nav_word_round_trip(nav@, nav.cmd);
    law_rc_word_round_trip(rc@, rc.cmd);
}

} // verus!
