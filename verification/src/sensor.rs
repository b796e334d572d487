//! Polls the motor controller for its sensors and reads the answer.
use crate::state::{NavdContext, RobotState, SensorShared};
use crate::uart::{
    crc8, crc8_maxim, frame, frame_body, law_crc_detects_one_byte, CMD_SENSOR_STATUS, START_BYTE,
};
use crate::vision::{le, read_u32};
use vstd::prelude::*;
use vstd::slice::slice_subrange;

verus! {

/// Room for one answer and what may stand before it.
pub const BUFFER_LEN: usize = 32;

/// How often one poll reads from the port.
pub const READS_PER_POLL: u8 = 4;

/// How long one poll and the rest after it take together.
pub const TICK_NS: u64 = 50_000_000;

/// The payload length of a sensor status: one byte of flags, four of heading.
pub const STATUS_LEN: u8 = 5;

/// The flags that report a collision.
pub const COLLISION_FLAGS: u8 = 0x07;

// ---------------------------------------------------------------------------
// Reading a frame
// ---------------------------------------------------------------------------
/// What the bytes received so far amount to.
#[derive(Debug, Clone, Copy, PartialEq, Eq, Structural)]
pub enum FrameScan {
    /// No whole frame yet.
    Incomplete,
    /// A frame whose CRC does not fit.
    BadCrc,
    /// A whole frame that is no sensor status.
    Other,
    /// A sensor status, the heading by its IEEE 754 bits.
    Status { flags: u8, heading_bits: u32 },
}

/// Where the first start byte stands, or the length if there is none.
pub open spec fn start_of(buf: Seq<u8>) -> nat
    decreases buf.len(),
{
    if buf.len() == 0 || buf[0] == START_BYTE {
        0
    } else {
        1 + start_of(buf.drop_first())
    }
}

/// What a buffer holds: the frame that begins at its first start byte counts.
pub open spec fn scan(buf: Seq<u8>) -> FrameScan {
    let at = start_of(buf) as int;
    if buf.len() < at + 3 || buf.len() < at + 3 + buf[at + 2] + 1 {
        FrameScan::Incomplete
    } else {
        let crc_at = at + 3 + buf[at + 2];
        if crc8(buf.subrange(at + 1, crc_at)) != buf[crc_at] {
            FrameScan::BadCrc
        } else if buf[at + 1] == CMD_SENSOR_STATUS && buf[at + 2] == STATUS_LEN {
            FrameScan::Status { flags: buf[at + 3], heading_bits: le(buf, at + 4, 4) as u32 }
        } else {
            FrameScan::Other
        }
    }
}

proof fn lemma_start_of(buf: Seq<u8>, at: int)
    requires
        0 <= at <= buf.len(),
        forall|i: int| 0 <= i < at ==> buf[i] != START_BYTE,
        at < buf.len() ==> buf[at] == START_BYTE,
    ensures
        start_of(buf) == at,
    decreases buf.len(),
{
    if at > 0 {
        lemma_start_of(buf.drop_first(), at - 1);
    }
}

fn find_start(buf: &[u8]) -> (at: usize)
    ensures
        at == start_of(buf@),
        at <= buf.len(),
{
    let mut at: usize = 0;
    while at < buf.len() && buf[at] != START_BYTE
        invariant
            at <= buf.len(),
            forall|i: int| 0 <= i < at ==> buf@[i] != START_BYTE,
        decreases buf.len() - at,
    {
        at = at + 1;
    }
    proof {
        lemma_start_of(buf@, at as int);
    }
    at
}

/// Looks for a frame in the bytes received so far.
pub fn scan_frame(buf: &[u8]) -> (found: FrameScan)
    ensures
        found == scan(buf@),
{
    let start_idx = find_start(buf);
    let rest: usize = buf.len() - start_idx;
    if rest < 3 {
        return FrameScan::Incomplete;
    }
    let cmd = buf[start_idx + 1];
    let len = buf[start_idx + 2];
    let total_frame_len: usize = 3 + len as usize + 1;
    if rest < total_frame_len {
        return FrameScan::Incomplete;
    }
    let payload_start: usize = start_idx + 3;
    let crc_idx: usize = payload_start + len as usize;
    let expected_crc = buf[crc_idx];
    if crc8_maxim(slice_subrange(buf, start_idx + 1, crc_idx)) != expected_crc {
        FrameScan::BadCrc
    } else if cmd == CMD_SENSOR_STATUS && len == STATUS_LEN {
        FrameScan::Status {
            flags: buf[payload_start],
            heading_bits: read_u32(buf, payload_start + 1),
        }
    } else {
        FrameScan::Other
    }
}

// ---------------------------------------------------------------------------
// One poll
// ---------------------------------------------------------------------------
/// The answer to one poll as far as it has come in.
pub struct SensorPoll {
    pub buf: Vec<u8>,
    pub reads_left: u8,
}

/// How a read from the port went.
pub enum ReadEvent {
    /// Bytes came, possibly none.
    Bytes(Vec<u8>),
    /// The port had nothing in time.
    TimedOut,
    /// The port failed.
    Failed,
}

/// What to do after a read.
#[derive(Debug, Clone, Copy, PartialEq, Eq, Structural)]
pub enum PollAction {
    /// Wait a moment, then read again.
    ReadAgain,
    /// Wait a moment; this poll got no answer.
    GiveUp,
    /// This poll is over: a frame came.
    Complete(FrameScan),
    /// This poll is over: the port failed.
    Abort,
}

/// What is left to do when a read has not ended the poll.
pub open spec fn after_fruitless_read(reads_left: int) -> PollAction {
    if reads_left > 0 {
        PollAction::ReadAgain
    } else {
        PollAction::GiveUp
    }
}

impl SensorPoll {
    pub open spec fn well_formed(&self) -> bool {
        self.buf.len() <= BUFFER_LEN
    }

    /// A poll that has just been sent.
    pub fn new() -> (poll: SensorPoll)
        ensures
            poll.well_formed(),
            poll.buf@ == Seq::<u8>::empty(),
            poll.reads_left == READS_PER_POLL,
    {
        SensorPoll { buf: Vec::new(), reads_left: READS_PER_POLL }
    }

    /// How many bytes the next read may bring.
    pub fn room(&self) -> (room: usize)
        requires
            self.well_formed(),
        ensures
            room == BUFFER_LEN - self.buf.len(),
    {
        BUFFER_LEN - self.buf.len()
    }

    /// Takes in the outcome of a read and says how to go on.
    pub fn receive(&mut self, event: ReadEvent) -> (action: PollAction)
        requires
            old(self).well_formed(),
            old(self).reads_left > 0,
            event matches ReadEvent::Bytes(bytes) ==> old(self).buf.len() + bytes.len()
                <= BUFFER_LEN,
        ensures
            final(self).well_formed(),
            final(self).reads_left == old(self).reads_left - 1,
            match event {
                ReadEvent::Bytes(bytes) => {
                    &&& final(self).buf@ == old(self).buf@ + bytes@
                    &&& action == if bytes.len() > 0 && scan(final(self).buf@)
                        != FrameScan::Incomplete {
                        PollAction::Complete(scan(final(self).buf@))
                    } else {
                        after_fruitless_read(final(self).reads_left as int)
                    }
                },
                ReadEvent::TimedOut => {
                    &&& final(self).buf@ == old(self).buf@
                    &&& action == after_fruitless_read(final(self).reads_left as int)
                },
                ReadEvent::Failed => {
                    &&& final(self).buf@ == old(self).buf@
                    &&& action == PollAction::Abort
                },
            },
    {
        self.reads_left = self.reads_left - 1;
        match event {
            ReadEvent::Bytes(bytes) => {
                self.buf.extend_from_slice(bytes.as_slice());
                assert(self.buf@ =~= old(self).buf@ + bytes@);
                if bytes.len() > 0 {
                    let found = scan_frame(self.buf.as_slice());
                    if found != FrameScan::Incomplete {
                        return PollAction::Complete(found);
                    }
                }
            },
            ReadEvent::TimedOut => {},
            ReadEvent::Failed => {
                return PollAction::Abort;
            },
        }
        if self.reads_left > 0 {
            PollAction::ReadAgain
        } else {
            PollAction::GiveUp
        }
    }
}

/// How long to rest after a poll that took `elapsed_ns`, so that polls begin a
/// tick apart; not at all after one that took longer.
pub fn rest_of_tick(elapsed_ns: u64) -> (rest_ns: u64)
    ensures
        rest_ns == (if elapsed_ns < TICK_NS {
            TICK_NS - elapsed_ns
        } else {
            0
        }),
        elapsed_ns <= 50_000_000 ==> elapsed_ns + rest_ns == 50_000_000,
        elapsed_ns > 50_000_000 ==> rest_ns == 0,
{
    if elapsed_ns < TICK_NS {
        TICK_NS - elapsed_ns
    } else {
        0
    }
}

// ---------------------------------------------------------------------------
// Acting on a status
// ---------------------------------------------------------------------------
/// Whether the flags report a collision: any of the three lowest is set.
pub open spec fn is_collision(flags: u8) -> bool {
    flags % 8 != 0
}

/// The state after a sensor status: a collision stops a robot that navigates.
pub open spec fn state_after_status(state: RobotState, flags: u8) -> RobotState {
    if is_collision(flags) && state == RobotState::Navigating {
        RobotState::Panicking
    } else {
        state
    }
}

/// The context after what a poll found.
pub open spec fn context_after_scan(ctx: NavdContext, found: FrameScan) -> NavdContext {
    match found {
        FrameScan::Status { flags, heading_bits } => NavdContext {
            sensors: SensorShared { flags, heading_bits },
            state: state_after_status(ctx.state, flags),
            ..ctx
        },
        _ => ctx,
    }
}

/// Takes note of what a poll found. Returns whether a collision has just sent
/// the robot into panic.
pub fn handle_scan(ctx: &mut NavdContext, found: FrameScan) -> (panicked: bool)
    ensures
        *final(ctx) == context_after_scan(*old(ctx), found),
        panicked == (old(ctx).state != final(ctx).state),
        old(ctx).well_formed() ==> final(ctx).well_formed(),
{
    if let FrameScan::Status { flags, heading_bits } = found {
        ctx.sensors.update(flags, heading_bits);
        assert(flags & 0x07 == flags % 8) by (bit_vector);
        if (flags & COLLISION_FLAGS) != 0 && ctx.state == RobotState::Navigating {
            ctx.state = RobotState::Panicking;
            return true;
        }
    }
    false
}

// ---------------------------------------------------------------------------
// What a reader can rely on
// ---------------------------------------------------------------------------
/// The payload of a sensor status.
pub open spec fn status_payload(flags: u8, heading: Seq<u8>) -> Seq<u8> {
    seq![flags] + heading
}

/// A sensor status is found and read back, whatever noise without a start byte
/// stands before it and whatever follows it.
pub proof fn law_status_frame_reads_back(
    noise: Seq<u8>,
    flags: u8,
    heading: Seq<u8>,
    extra: Seq<u8>,
)
    requires
        heading.len() == 4,
        forall|i: int| 0 <= i < noise.len() ==> noise[i] != START_BYTE,
    ensures
        scan(noise + frame(CMD_SENSOR_STATUS, status_payload(flags, heading)) + extra)
            == (FrameScan::Status { flags, heading_bits: le(heading, 0, 4) as u32 }),
{
    let payload = status_payload(flags, heading);
    let body = frame_body(CMD_SENSOR_STATUS, payload);
    let f = frame(CMD_SENSOR_STATUS, payload);
    let buf = noise + f + extra;
    let at = noise.len() as int;
    assert(buf[at] == f[0]);
    lemma_start_of(buf, at);
    assert(buf[at + 1] == f[1] && buf[at + 2] == f[2] && buf[at + 3] == f[3]);
    assert(f[2] == 5);
    assert(buf.subrange(at + 1, at + 8) =~= body);
    assert(buf[at + 8] == f[8]);
    assert forall|i: int| 0 <= i < 4 implies buf[at + 4 + i] == heading[i] by {
        assert(buf[at + 4 + i] == f[4 + i]);
    }
    reveal_with_fuel(le, 5);
    assert(buf[at + 4] == heading[0] && buf[at + 5] == heading[1] && buf[at + 6] == heading[2]
        && buf[at + 7] == heading[3]);
}

/// A frame that has not come in whole is waited for, however much of it is
/// missing.
pub proof fn law_partial_frame_is_waited_for(noise: Seq<u8>, cmd: u8, payload: Seq<u8>, n: int)
    requires
        payload.len() < 256,
        forall|i: int| 0 <= i < noise.len() ==> noise[i] != START_BYTE,
        0 <= n < noise.len() + frame(cmd, payload).len(),
    ensures
        scan((noise + frame(cmd, payload)).take(n)) == FrameScan::Incomplete,
{
    let f = frame(cmd, payload);
    let buf = (noise + f).take(n);
    let at = noise.len() as int;
    if n <= at {
        lemma_start_of(buf, n);
    } else {
        assert(buf[at] == f[0]);
        lemma_start_of(buf, at);
        if n >= at + 3 {
            assert(buf[at + 2] == f[2]);
            assert(f[2] == payload.len());
        }
    }
}

/// However a sensor status is cut into pieces, a reader that has taken in the
/// first `n` bytes waits until the frame is whole and then has it.
pub proof fn law_status_is_read_from_any_pieces(
    noise: Seq<u8>,
    flags: u8,
    heading: Seq<u8>,
    extra: Seq<u8>,
    n: int,
)
    requires
        heading.len() == 4,
        forall|i: int| 0 <= i < noise.len() ==> noise[i] != START_BYTE,
        0 <= n <= noise.len() + 9 + extra.len(),
    ensures
        scan(
            (noise + frame(CMD_SENSOR_STATUS, status_payload(flags, heading)) + extra).take(n),
        ) == (if n < noise.len() + 9 {
            FrameScan::Incomplete
        } else {
            FrameScan::Status { flags, heading_bits: le(heading, 0, 4) as u32 }
        }),
{
    let payload = status_payload(flags, heading);
    let f = frame(CMD_SENSOR_STATUS, payload);
    let all = noise + f + extra;
    if n < noise.len() + 9 {
        law_partial_frame_is_waited_for(noise, CMD_SENSOR_STATUS, payload, n);
        assert(all.take(n) =~= (noise + f).take(n));
    } else {
        let rest = extra.take(n - noise.len() - 9);
        law_status_frame_reads_back(noise, flags, heading, rest);
        assert(all.take(n) =~= noise + f + rest);
    }
}

/// A frame in which any one byte after the length, or the command, has been
/// changed is not taken for a good one.
pub proof fn law_corrupt_frame_is_rejected(noise: Seq<u8>, cmd: u8, payload: Seq<u8>, k: int, b: u8)
    requires
        payload.len() < 256,
        forall|i: int| 0 <= i < noise.len() ==> noise[i] != START_BYTE,
        1 <= k < frame(cmd, payload).len(),
        k != 2,
        b != frame(cmd, payload)[k],
    ensures
        scan(noise + frame(cmd, payload).update(k, b)) == FrameScan::BadCrc,
{
    let f = frame(cmd, payload);
    let g = f.update(k, b);
    let buf = noise + g;
    let at = noise.len() as int;
    let n = payload.len() as int;
    assert(buf[at] == g[0]);
    lemma_start_of(buf, at);
    assert(buf[at + 2] == g[2] && g[2] == n);
    let body = frame_body(cmd, payload);
    let got = buf.subrange(at + 1, at + 3 + n);
    assert(buf[at + 3 + n] == g[3 + n]);
    assert forall|i: int| 0 <= i < got.len() implies got[i] == g[i + 1] by {}
    if k == 3 + n {
        assert(got =~= body);
    } else {
        assert forall|i: int| 0 <= i < body.len() && i != k - 1 implies body[i] == got[i] by {
            assert(body[i] == f[i + 1]);
        }
        assert(body[k - 1] == f[k]);
        law_crc_detects_one_byte(body, got, k - 1);
        assert(g[3 + n] == f[3 + n] && f[3 + n] == crc8(body));
    }
}

// ---------------------------------------------------------------------------
// What is found, byte by byte
// ---------------------------------------------------------------------------
/// What a buffer holds, for every buffer: without a byte 0xAA there is nothing.
/// Else the frame begins at the first one, at `at`, and is waited for until its
/// length byte and all that it announces are there. Then the CRC of the bytes
/// from the command on decides whether it counts, and only command 0x10 with
/// five bytes is a status, whose first byte is its flags and whose other four are
/// its heading, least significant byte first.
pub proof fn law_what_a_buffer_holds(buf: Seq<u8>, at: int)
    requires
        0 <= at <= buf.len(),
        forall|i: int| 0 <= i < at ==> buf[i] != 0xAA,
        at < buf.len() ==> buf[at] == 0xAA,
    ensures
        buf.len() < at + 3 ==> scan(buf) is Incomplete,
        buf.len() >= at + 3 ==> {
            let n = buf[at + 2] as int;
            let whole = buf.len() >= at + n + 4;
            let good = crc8(buf.subrange(at + 1, at + n + 3)) == buf[at + n + 3];
            &&& !whole ==> scan(buf) is Incomplete
            &&& whole && !good ==> scan(buf) is BadCrc
            &&& whole && good && !(buf[at + 1] == 0x10 && n == 5) ==> scan(buf) is Other
            &&& whole && good && buf[at + 1] == 0x10 && n == 5 ==> {
                scan(buf) matches FrameScan::Status { flags, heading_bits } && {
                    &&& flags == buf[at + 3]
                    &&& heading_bits as int == buf[at + 4] + 0x100 * buf[at + 5] + 0x1_0000
                        * buf[at + 6] + 0x100_0000 * buf[at + 7]
                }
            }
        },
{
    lemma_start_of(buf, at);
    reveal_with_fuel(le, 5);
}

/// A poll reads four times at most: while reads are left the next one is made,
/// and then no more.
pub proof fn law_poll_reads_while_reads_are_left(reads_left: int)
    ensures
        reads_left > 0 ==> after_fruitless_read(reads_left) is ReadAgain,
        reads_left <= 0 ==> after_fruitless_read(reads_left) is GiveUp,
        READS_PER_POLL == 4,
        BUFFER_LEN == 32,
{
}

/// A status with any of the three lowest flags set sends a robot that navigates
/// into panic, and changes no other state; with all three clear no state
/// changes. The flags and the heading are kept either way, and nothing else of
/// the context changes.
pub proof fn law_collision_stops_a_navigating_robot(
    ctx: NavdContext,
    flags: u8,
    heading_bits: u32,
)
    ensures
        ({
            let after = context_after_scan(ctx, FrameScan::Status { flags, heading_bits });
            let hit = flags & 0x01 != 0 || flags & 0x02 != 0 || flags & 0x04 != 0;
            &&& hit && ctx.state == RobotState::Navigating ==> after.state == RobotState::Panicking
            &&& !hit || ctx.state != RobotState::Navigating ==> after.state == ctx.state
            &&& after.sensors.flags == flags
            &&& after.sensors.heading_bits == heading_bits
            &&& after.vision == ctx.vision
            &&& after.nav == ctx.nav
            &&& after.rc == ctx.rc
            &&& after.overrides == ctx.overrides
        }),
{
    assert((flags & 0x01 != 0 || flags & 0x02 != 0 || flags & 0x04 != 0) <==> flags % 8 != 0)
        by (bit_vector);
}

/// What is no status changes nothing.
pub proof fn law_other_frames_change_nothing(ctx: NavdContext, found: FrameScan)
    requires
        !(found is Status),
    ensures
        context_after_scan(ctx, found) == ctx,
{
}

} // verus!
