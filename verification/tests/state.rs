use navd::clock::{capture_timestamp_us, ticks_to_us, timestamp_us};
use navd::single::{less_than, EIGHTEEN_HUNDRED, FIVE_HUNDRED};
use navd::state::{
    NavCommand, NavdContext, OverrideMode, RcCommand, RobotState, VisionSnapshot,
};
use navd::vision::{AprilTagDetection, SharedTags, MAX_TAGS, REGION_LEN};

fn start(pair: &str) -> u16 {
    NavdContext::new(false, Some(pair)).nav.current_goalpost
}

#[test]
fn a_fresh_context() {
    let ctx = NavdContext::new(false, None);
    assert_eq!(ctx.state, RobotState::Boot);
    assert!(ctx.vision.snapshot.is_none());
    assert_eq!(ctx.vision.last_tag_seen_ms, 0);
    assert_eq!(ctx.nav.read(), NavCommand { left: 0, right: 0 });
    assert_eq!(ctx.nav.current_goalpost, 1);
    assert_eq!(ctx.rc.read(), RcCommand { left: 0, right: 0, lift: 0, flags: 0 });
    assert_eq!(ctx.rc.last_packet_ms, 0);
    assert_eq!((ctx.sensors.flags, ctx.sensors.heading_bits), (0, 0.0f32.to_bits()));
    assert_eq!(ctx.overrides.mode, OverrideMode::Normal);
    assert!(!ctx.overrides.is_recording && !ctx.overrides.replay_trigger);
}

#[test]
fn state_numbers() {
    let states = [
        RobotState::Boot,
        RobotState::Navigating,
        RobotState::Yielding,
        RobotState::Panicking,
        RobotState::RcOverride,
    ];
    for (i, s) in states.iter().enumerate() {
        assert_eq!(*s as usize, i);
    }
}

#[test]
fn the_first_goalpost_is_odd() {
    assert_eq!(start("7"), 7);
    assert_eq!(start("8"), 7);
    assert_eq!(start("0"), 1);
    assert_eq!(start("65535"), 65535);
    assert_eq!(start("65536"), 1);
    assert_eq!(start("+4"), 3);
    assert_eq!(start(" 4"), 1);
    assert_eq!(start("four"), 1);
    assert_eq!(start(""), 1);
}

#[test]
fn the_smallest_pair_goes_first() {
    assert_eq!(NavdContext::new(true, Some("7")).nav.current_goalpost, 0);
}

#[test]
fn nav_commands_read_back() {
    let mut ctx = NavdContext::new(false, Some("5"));
    for left in [-128i8, -100, -1, 0, 1, 100, 127] {
        for right in [-128i8, -1, 0, 127] {
            ctx.nav.update(left, right);
            assert_eq!(ctx.nav.read(), NavCommand { left, right });
            assert_eq!(ctx.nav.current_goalpost, 5);
        }
    }
    ctx.nav.update(-1, 2);
    assert_eq!(ctx.nav.cmd, 0xFF02);
}

#[test]
fn rc_commands_read_back() {
    let mut ctx = NavdContext::new(false, None);
    let cmd = RcCommand { left: -100, right: 100, lift: -1, flags: 0x81 };
    ctx.rc.update(&cmd, 1234);
    assert_eq!(ctx.rc.read(), cmd);
    assert_eq!(ctx.rc.last_packet_ms, 1234);
    assert_eq!(ctx.rc.cmd, 0x9C64_FF81);
}

#[test]
fn sensor_values_are_kept() {
    let mut ctx = NavdContext::new(false, None);
    ctx.sensors.update(5, 1.5f32.to_bits());
    assert_eq!((ctx.sensors.flags, ctx.sensors.heading_bits), (5, 0x3FC0_0000));
}

#[test]
fn vision_counts_from_the_frame() {
    let mut ctx = NavdContext::new(false, None);
    let snap = VisionSnapshot {
        timestamp_us: 1_234_567,
        tag_count: 0,
        tags: [AprilTagDetection::zeroed(); MAX_TAGS],
    };
    ctx.vision.update(snap);
    assert_eq!(ctx.vision.last_tag_seen_ms, 1234);
    assert_eq!(ctx.vision.snapshot.map(|s| s.timestamp_us), Some(1_234_567));
}

#[test]
fn comparison_is_that_of_single_precision() {
    let numbers = [
        0.0f32, -0.0, 1.0, -1.0, 499.99997, 500.0, 500.00003, 1799.9999, 1800.0, 1800.0001,
        f32::MIN_POSITIVE, -f32::MIN_POSITIVE, 1.0e-45, -1.0e-45, f32::MAX, f32::MIN,
        f32::INFINITY, f32::NEG_INFINITY, f32::NAN, -f32::NAN,
    ];
    for a in numbers {
        for b in numbers {
            assert_eq!(less_than(a.to_bits(), b.to_bits()), a < b);
        }
    }
    assert_eq!(f32::from_bits(FIVE_HUNDRED), 500.0);
    assert_eq!(f32::from_bits(EIGHTEEN_HUNDRED), 1800.0);
}

fn region() -> Vec<u8> {
    let mut image = vec![0u8; REGION_LEN];
    image[0..4].copy_from_slice(&99u32.to_le_bytes());
    image[4..8].copy_from_slice(&2u32.to_le_bytes());
    image[8..16].copy_from_slice(&0x0102_0304_0506_0708u64.to_le_bytes());
    image[16..20].copy_from_slice(&640.0f32.to_le_bytes());
    image[20..24].copy_from_slice(&480.0f32.to_le_bytes());
    image[24..32].copy_from_slice(&77u64.to_le_bytes());
    for i in 0..MAX_TAGS {
        let at = 32 + 44 * i;
        image[at..at + 2].copy_from_slice(&(300 + i as u16).to_le_bytes());
        image[at + 2] = 1;
        image[at + 3] = 3;
        for k in 0..10 {
            let value = (100 * i + k) as f32;
            image[at + 4 + 4 * k..at + 8 + 4 * k].copy_from_slice(&value.to_le_bytes());
        }
    }
    image
}

#[test]
fn the_region_decodes_field_by_field() {
    let shared = SharedTags::decode(6, &region());
    assert_eq!(shared.seq, 6);
    assert_eq!(shared.tag_count, 2);
    assert_eq!(shared.timestamp_us, 0x0102_0304_0506_0708);
    assert_eq!(shared.frame_w, 640.0f32.to_bits());
    assert_eq!(shared.frame_h, 480.0f32.to_bits());
    assert_eq!(shared.pad, 77);
    for i in 0..MAX_TAGS {
        let t = shared.tags[i];
        assert_eq!((t.id, t.hamming, t.rotation), (300 + i as u16, 1, 3));
        let floats = [
            t.confidence, t.center_x, t.center_y, t.tx, t.ty, t.tz, t.yaw, t.pitch, t.roll,
            t.distance_mm,
        ];
        for k in 0..10 {
            assert_eq!(f32::from_bits(floats[k]), (100 * i + k) as f32);
        }
    }
}

#[test]
fn a_quiet_region_gives_a_snapshot() {
    let shared = SharedTags::decode(6, &region());
    let snap = shared.read_seqlock(6).expect("no writer was at work");
    assert_eq!(snap.tag_count, 2);
    assert_eq!(snap.timestamp_us, shared.timestamp_us);
    assert_eq!(snap.tags, shared.tags);
}

#[test]
fn a_torn_copy_is_refused() {
    let shared = SharedTags::decode(6, &region());
    assert!(shared.read_seqlock(8).is_none());
    assert!(shared.read_seqlock(7).is_none());
    assert!(SharedTags::decode(7, &region()).read_seqlock(7).is_none());
    assert!(SharedTags::writer_active(7));
    assert!(!SharedTags::writer_active(6));
}

#[test]
fn the_tag_count_is_bounded() {
    let mut image = region();
    image[4..8].copy_from_slice(&21u32.to_le_bytes());
    assert_eq!(SharedTags::decode(0, &image).read_seqlock(0).map(|s| s.tag_count), Some(20));
    image[4..8].copy_from_slice(&20u32.to_le_bytes());
    assert_eq!(SharedTags::decode(0, &image).read_seqlock(0).map(|s| s.tag_count), Some(20));
}

#[test]
fn timestamps_are_microseconds() {
    assert_eq!(timestamp_us(None), None);
    assert_eq!(timestamp_us(Some(5)), Some(5));
    assert_eq!(timestamp_us(Some((1u128 << 64) + 5)), Some(5));
    let before = std::time::SystemTime::now()
        .duration_since(std::time::UNIX_EPOCH)
        .map(|d| d.as_micros() as u64)
        .unwrap_or(0);
    let now = capture_timestamp_us().unwrap_or(0);
    assert!(now >= before && now - before < 10_000_000);
}

#[test]
fn ticks_become_microseconds() {
    assert_eq!(ticks_to_us(54_000_000, 54_000_000), 1_000_000);
    assert_eq!(ticks_to_us(27, 54_000_000), 0);
    assert_eq!(ticks_to_us(u64::MAX, 1_000_000), u64::MAX);
    assert_eq!(ticks_to_us(u64::MAX, 1), 0u64.wrapping_sub(1_000_000));
    assert!(ticks_to_us(1000, 54_000_000) <= ticks_to_us(2000, 54_000_000));
}
