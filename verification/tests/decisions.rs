use navd::control::{control_events, control_step, get_normal_command, ControlEvents};
use navd::nav::{choose_speed, NavAction, Navigator, SENTINEL_TAG_ID};
use navd::recorder::{Recorder, RecorderAction};
use navd::replayer::Replayer;
use navd::sensor::{
    handle_scan, rest_of_tick, scan_frame, FrameScan, PollAction, ReadEvent, SensorPoll,
};
use navd::state::{NavCommand, NavdContext, OverrideMode, RcCommand, RobotState, VisionSnapshot};
use navd::uart::{
    build_frame, CMD_DRIVE, CMD_ESTOP, CMD_LIFT, CMD_SENSOR_STATUS, CMD_STOP,
};
use navd::udp::{handle_datagram, handle_packet, PacketOutcome};
use navd::vision::{AprilTagDetection, MAX_TAGS};

fn context(state: RobotState) -> NavdContext {
    let mut ctx = NavdContext::new(false, Some("3"));
    ctx.state = state;
    ctx
}

fn tag(id: u16, distance_mm: f32) -> AprilTagDetection {
    AprilTagDetection { id, distance_mm: distance_mm.to_bits(), ..AprilTagDetection::zeroed() }
}

fn snapshot(timestamp_us: u64, list: &[AprilTagDetection]) -> VisionSnapshot {
    let mut tags = [AprilTagDetection::zeroed(); MAX_TAGS];
    tags[..list.len()].copy_from_slice(list);
    VisionSnapshot { timestamp_us, tag_count: list.len() as u32, tags }
}

fn remote(left: i8, right: i8, lift: i8, flags: u8) -> (u8, Vec<u8>) {
    let mut ctx = context(RobotState::RcOverride);
    ctx.rc.update(&RcCommand { left, right, lift, flags }, 1000);
    get_normal_command(&ctx, ctx.state, 1500)
}

// ---- control ----

#[test]
fn states_have_their_commands() {
    let mut ctx = context(RobotState::Boot);
    ctx.nav.update(-20, 40);
    assert_eq!(get_normal_command(&ctx, RobotState::Boot, 0), (CMD_STOP, vec![]));
    assert_eq!(get_normal_command(&ctx, RobotState::Yielding, 0), (CMD_STOP, vec![]));
    assert_eq!(get_normal_command(&ctx, RobotState::Panicking, 0), (CMD_ESTOP, vec![]));
    assert_eq!(get_normal_command(&ctx, RobotState::Navigating, 0), (CMD_DRIVE, vec![236, 40]));
}

#[test]
fn lift_and_drive_exclude_each_other() {
    assert_eq!(remote(10, -10, 0, 0), (CMD_DRIVE, vec![10, 246]));
    assert_eq!(remote(10, 0, 50, 0), (CMD_DRIVE, vec![10, 0]));
    assert_eq!(remote(0, -128, 50, 0), (CMD_DRIVE, vec![0, 128]));
    assert_eq!(remote(0, 0, -50, 0), (CMD_LIFT, vec![206]));
    assert_eq!(remote(0, 0, 0, 0), (CMD_DRIVE, vec![0, 0]));
}

#[test]
fn the_stop_flag_stops() {
    assert_eq!(remote(10, 10, 0, 1), (CMD_ESTOP, vec![]));
    assert_eq!(remote(0, 0, 10, 0xFF), (CMD_ESTOP, vec![]));
    assert_eq!(remote(10, 10, 0, 0xFE), (CMD_DRIVE, vec![10, 10]));
}

#[test]
fn a_silent_remote_stops_the_robot() {
    let mut ctx = context(RobotState::RcOverride);
    ctx.rc.update(&RcCommand { left: 5, right: 5, lift: 0, flags: 0 }, 1000);
    assert_eq!(get_normal_command(&ctx, ctx.state, 1500).0, CMD_DRIVE);
    assert_eq!(get_normal_command(&ctx, ctx.state, 1501), (CMD_STOP, vec![]));
    assert_eq!(get_normal_command(&ctx, ctx.state, 900).0, CMD_DRIVE);
}

#[test]
fn a_replay_goes_out_instead() {
    let mut ctx = context(RobotState::Panicking);
    let mut rep = Some(Replayer::new("40 1 1 2\n"));
    let mut rec = None;
    let out = control_step(&mut ctx, OverrideMode::Replay, &mut rep, &mut rec, 100);
    assert_eq!(out.frame, build_frame(CMD_ESTOP, &[]));
    ctx.overrides.replay_trigger = true;
    let out = control_step(&mut ctx, OverrideMode::Replay, &mut rep, &mut rec, 120);
    assert_eq!(out.frame, build_frame(1, &[1, 2]));
    assert!(!ctx.overrides.replay_trigger);
    // The round in which the recording runs out sends a stop.
    let out = control_step(&mut ctx, OverrideMode::Replay, &mut rep, &mut rec, 160);
    assert_eq!(out.frame, build_frame(CMD_STOP, &[]));
    let out = control_step(&mut ctx, OverrideMode::Replay, &mut rep, &mut rec, 180);
    assert_eq!(out.frame, build_frame(CMD_ESTOP, &[]));
}

#[test]
fn the_remote_ends_a_replay() {
    let mut ctx = context(RobotState::Navigating);
    let mut rep = Some(Replayer::new("1000 1 1 2\n"));
    let mut rec = None;
    ctx.overrides.replay_trigger = true;
    let out = control_step(&mut ctx, OverrideMode::Replay, &mut rep, &mut rec, 100);
    assert_eq!(out.frame, build_frame(1, &[1, 2]));
    handle_packet(&mut ctx, [1, 7, 8, 0, 0, 0, 0, 0], 110);
    let out = control_step(&mut ctx, OverrideMode::Replay, &mut rep, &mut rec, 120);
    assert_eq!(out.frame, build_frame(CMD_DRIVE, &[7, 8]));
    assert!(!rep.as_ref().expect("it is kept").is_active());
    ctx.state = RobotState::Navigating;
    let out = control_step(&mut ctx, OverrideMode::Replay, &mut rep, &mut rec, 140);
    assert_eq!(out.frame, build_frame(CMD_DRIVE, &[0, 0]));
}

#[test]
fn rounds_report_what_happens() {
    let quiet = ControlEvents {
        remote_timed_out: false,
        replay_started: false,
        replay_aborted: false,
    };
    let mut ctx = context(RobotState::Navigating);
    let mut rep = Some(Replayer::new("1000 1 1 2\n"));
    let step = |ctx: &mut NavdContext, rep: &mut Option<Replayer>, now: u64| {
        let events = control_events(ctx, OverrideMode::Replay, rep, now);
        let out = control_step(ctx, OverrideMode::Replay, rep, &mut None, now);
        assert_eq!(out.events, events);
        events
    };
    assert_eq!(step(&mut ctx, &mut rep, 100), quiet);
    ctx.overrides.replay_trigger = true;
    assert_eq!(step(&mut ctx, &mut rep, 120), ControlEvents { replay_started: true, ..quiet });
    handle_packet(&mut ctx, [1, 7, 8, 0, 0, 0, 0, 0], 130);
    assert_eq!(step(&mut ctx, &mut rep, 140), ControlEvents { replay_aborted: true, ..quiet });
    assert_eq!(step(&mut ctx, &mut rep, 630), quiet);
    assert_eq!(step(&mut ctx, &mut rep, 631), ControlEvents { remote_timed_out: true, ..quiet });
    ctx.overrides.replay_trigger = true;
    assert_eq!(
        step(&mut ctx, &mut rep, 640),
        ControlEvents { remote_timed_out: true, replay_started: true, replay_aborted: true }
    );
    // A replay of nothing starts, but there is nothing to abort.
    ctx.overrides.replay_trigger = true;
    let mut empty = Some(Replayer::new(""));
    assert_eq!(
        step(&mut ctx, &mut empty, 600),
        ControlEvents { replay_started: true, ..quiet }
    );
}

#[test]
fn a_trigger_waits_for_a_replayer() {
    let mut ctx = context(RobotState::Boot);
    ctx.overrides.replay_trigger = true;
    control_step(&mut ctx, OverrideMode::Replay, &mut None, &mut None, 100);
    assert!(ctx.overrides.replay_trigger);
    let mut rep = Some(Replayer::new("1000 1 1 2\n"));
    let out = control_step(&mut ctx, OverrideMode::Normal, &mut rep, &mut None, 100);
    assert_eq!(out.frame, build_frame(CMD_STOP, &[]));
    assert!(ctx.overrides.replay_trigger);
}

#[test]
fn what_goes_out_is_recorded() {
    let mut ctx = context(RobotState::Panicking);
    let mut rec = Some(Recorder::new("run.txt"));
    let mut rep = None;
    let out = control_step(&mut ctx, OverrideMode::Record, &mut rep, &mut rec, 100);
    assert!(matches!(out.action, RecorderAction::Nothing));
    ctx.overrides.is_recording = true;
    let out = control_step(&mut ctx, OverrideMode::Record, &mut rep, &mut rec, 120);
    assert!(matches!(out.action, RecorderAction::OpenFile));
    if let Some(r) = rec.as_mut() {
        r.file_opened(true);
    }
    ctx.state = RobotState::Yielding;
    match control_step(&mut ctx, OverrideMode::Record, &mut rep, &mut rec, 150).action {
        RecorderAction::Append(line) => assert_eq!(line, "30 3 \n"),
        _ => panic!("the command changed"),
    }
    let out = control_step(&mut ctx, OverrideMode::Normal, &mut rep, &mut rec, 170);
    assert!(matches!(out.action, RecorderAction::Nothing));
}

// ---- remote control ----

#[test]
fn a_drive_packet_takes_over_from_any_state() {
    for state in [
        RobotState::Boot,
        RobotState::Navigating,
        RobotState::Yielding,
        RobotState::Panicking,
        RobotState::RcOverride,
    ] {
        let mut ctx = context(state);
        let outcome = handle_packet(&mut ctx, [1, 0x80, 127, 3, 255, 9, 9, 9], 50);
        assert_eq!(outcome, PacketOutcome::Driven { entered: state != RobotState::RcOverride });
        assert_eq!(ctx.state, RobotState::RcOverride);
        assert_eq!(ctx.rc.read(), RcCommand { left: -128, right: 127, lift: -1, flags: 3 });
        assert_eq!(ctx.rc.last_packet_ms, 50);
    }
}

#[test]
fn a_drive_packet_reaches_the_motors() {
    for (packet, expected) in [
        ([1, 200, 3, 0, 9, 0, 0, 0], build_frame(CMD_DRIVE, &[200, 3])),
        ([1, 0, 0, 2, 130, 0, 0, 0], build_frame(CMD_LIFT, &[130])),
        ([1, 200, 3, 1, 0, 0, 0, 0], build_frame(CMD_ESTOP, &[])),
    ] {
        let mut ctx = context(RobotState::Boot);
        handle_packet(&mut ctx, packet, 1000);
        let out = control_step(&mut ctx, OverrideMode::Normal, &mut None, &mut None, 1500);
        assert_eq!(out.frame, expected);
    }
}

#[test]
fn resuming_needs_the_goalpost_in_sight() {
    let resume = [2, 0, 0, 0, 0, 0, 0, 0];
    let mut ctx = context(RobotState::RcOverride);
    assert_eq!(handle_packet(&mut ctx, resume, 1), PacketOutcome::NotVisible { goalpost: 3 });
    ctx.vision.update(snapshot(0, &[tag(2, 1.0), tag(5, 1.0)]));
    assert_eq!(handle_packet(&mut ctx, resume, 1), PacketOutcome::NotVisible { goalpost: 3 });
    assert_eq!(ctx.state, RobotState::RcOverride);
    ctx.vision.update(snapshot(0, &[tag(2, 1.0), tag(4, 1.0)]));
    assert_eq!(handle_packet(&mut ctx, resume, 1), PacketOutcome::Resumed { goalpost: 3 });
    assert_eq!(ctx.state, RobotState::Navigating);
    assert_eq!(handle_packet(&mut ctx, resume, 1), PacketOutcome::NotOverridden);
}

#[test]
fn only_active_tags_count_as_seen() {
    let mut ctx = context(RobotState::RcOverride);
    let mut snap = snapshot(0, &[tag(9, 1.0), tag(3, 1.0)]);
    snap.tag_count = 1;
    ctx.vision.update(snap);
    assert_eq!(
        handle_packet(&mut ctx, [2, 0, 0, 0, 0, 0, 0, 0], 1),
        PacketOutcome::NotVisible { goalpost: 3 }
    );
}

#[test]
fn the_last_pair_wraps() {
    let mut ctx = NavdContext::new(false, Some("65535"));
    ctx.state = RobotState::RcOverride;
    ctx.vision.update(snapshot(0, &[tag(0, 1.0)]));
    assert_eq!(
        handle_packet(&mut ctx, [2, 0, 0, 0, 0, 0, 0, 0], 1),
        PacketOutcome::Resumed { goalpost: 65535 }
    );
}

#[test]
fn unknown_packets_change_nothing() {
    let mut ctx = context(RobotState::Yielding);
    assert_eq!(
        handle_packet(&mut ctx, [3, 1, 1, 1, 1, 0, 0, 0], 1),
        PacketOutcome::Unknown { packet_type: 3 }
    );
    assert_eq!(ctx.state, RobotState::Yielding);
    assert_eq!(ctx.rc.last_packet_ms, 0);
}

#[test]
fn datagrams_of_another_size_change_nothing() {
    let mut ctx = context(RobotState::Boot);
    assert_eq!(handle_datagram(&mut ctx, [1, 1, 1, 0, 0, 0, 0, 0], 7, 5), None);
    assert_eq!(ctx.state, RobotState::Boot);
    assert_eq!(
        handle_datagram(&mut ctx, [1, 1, 1, 0, 0, 0, 0, 0], 8, 5),
        Some(PacketOutcome::Driven { entered: true })
    );
}

// ---- sensors ----

fn status(flags: u8, heading: f32) -> Vec<u8> {
    let mut payload = vec![flags];
    payload.extend_from_slice(&heading.to_le_bytes());
    build_frame(CMD_SENSOR_STATUS, &payload)
}

#[test]
fn a_status_is_found_behind_noise() {
    let mut buf = vec![0, 1, 2];
    buf.extend(status(4, 90.5));
    buf.extend([0xAA, 0xAA]);
    assert_eq!(
        scan_frame(&buf),
        FrameScan::Status { flags: 4, heading_bits: 90.5f32.to_bits() }
    );
}

#[test]
fn a_partial_frame_is_waited_for() {
    let frame = status(0, 1.0);
    for n in 0..frame.len() {
        assert_eq!(scan_frame(&frame[..n]), FrameScan::Incomplete);
    }
    assert_eq!(scan_frame(&[1, 2, 3, 4, 5, 6, 7, 8, 9]), FrameScan::Incomplete);
    assert_eq!(scan_frame(&[0xAA, 0x10, 255, 0, 0, 0]), FrameScan::Incomplete);
}

#[test]
fn a_corrupt_frame_is_refused() {
    let frame = status(1, 2.0);
    for k in [1, 3, 4, 5, 6, 7, 8] {
        let mut bad = frame.clone();
        bad[k] ^= 0x40;
        assert_eq!(scan_frame(&bad), FrameScan::BadCrc);
    }
}

#[test]
fn other_frames_are_passed_over() {
    assert_eq!(scan_frame(&build_frame(CMD_SENSOR_STATUS, &[1, 2, 3, 4])), FrameScan::Other);
    assert_eq!(scan_frame(&build_frame(CMD_DRIVE, &[1, 2, 3, 4, 5])), FrameScan::Other);
}

#[test]
fn a_poll_collects_its_answer() {
    let frame = status(7, -1.0);
    let mut poll = SensorPoll::new();
    assert_eq!(poll.room(), 32);
    assert_eq!(poll.receive(ReadEvent::Bytes(frame[..4].to_vec())), PollAction::ReadAgain);
    assert_eq!(poll.room(), 28);
    assert_eq!(poll.receive(ReadEvent::TimedOut), PollAction::ReadAgain);
    assert_eq!(
        poll.receive(ReadEvent::Bytes(frame[4..].to_vec())),
        PollAction::Complete(FrameScan::Status { flags: 7, heading_bits: (-1.0f32).to_bits() })
    );
}

#[test]
fn a_status_is_read_from_any_two_pieces() {
    let mut stream = vec![3, 9];
    stream.extend(status(2, 45.0));
    stream.push(0xAA);
    let whole = FrameScan::Status { flags: 2, heading_bits: 45.0f32.to_bits() };
    for n in 1..stream.len() {
        let mut poll = SensorPoll::new();
        let first = poll.receive(ReadEvent::Bytes(stream[..n].to_vec()));
        if n < 11 {
            assert_eq!(first, PollAction::ReadAgain);
            let second = poll.receive(ReadEvent::Bytes(stream[n..].to_vec()));
            assert_eq!(second, PollAction::Complete(whole));
        } else {
            assert_eq!(first, PollAction::Complete(whole));
        }
    }
}

#[test]
fn a_poll_gives_up_after_four_reads() {
    let mut poll = SensorPoll::new();
    assert_eq!(poll.receive(ReadEvent::TimedOut), PollAction::ReadAgain);
    assert_eq!(poll.receive(ReadEvent::Bytes(vec![])), PollAction::ReadAgain);
    assert_eq!(poll.receive(ReadEvent::Bytes(vec![1])), PollAction::ReadAgain);
    assert_eq!(poll.receive(ReadEvent::TimedOut), PollAction::GiveUp);
}

#[test]
fn polls_begin_a_tick_apart() {
    assert_eq!(rest_of_tick(0), 50_000_000);
    assert_eq!(rest_of_tick(49_999_999), 1);
    assert_eq!(rest_of_tick(50_000_000), 0);
    assert_eq!(rest_of_tick(u64::MAX), 0);
}

#[test]
fn a_broken_port_ends_the_poll() {
    let mut poll = SensorPoll::new();
    assert_eq!(poll.receive(ReadEvent::Failed), PollAction::Abort);
}

#[test]
fn a_collision_stops_navigating_only() {
    let found = FrameScan::Status { flags: 0x0C, heading_bits: 9 };
    let mut ctx = context(RobotState::Navigating);
    assert!(handle_scan(&mut ctx, found));
    assert_eq!(ctx.state, RobotState::Panicking);
    assert_eq!((ctx.sensors.flags, ctx.sensors.heading_bits), (0x0C, 9));
    let mut ctx = context(RobotState::RcOverride);
    assert!(!handle_scan(&mut ctx, found));
    assert_eq!(ctx.state, RobotState::RcOverride);
    let mut ctx = context(RobotState::Navigating);
    assert!(!handle_scan(&mut ctx, FrameScan::Status { flags: 0xF8, heading_bits: 0 }));
    assert!(!handle_scan(&mut ctx, FrameScan::BadCrc));
    assert_eq!(ctx.state, RobotState::Navigating);
    assert_eq!(ctx.sensors.flags, 0xF8);
}

// ---- navigator ----

fn round(
    state: RobotState,
    list: &[AprilTagDetection],
    now_ms: u64,
    now_us: u64,
) -> (NavdContext, NavAction) {
    let mut ctx = context(state);
    ctx.nav.update(30, 31);
    ctx.vision.update(snapshot(1_000_000, list));
    let action = Navigator::new(false).step(&mut ctx, now_ms, now_us);
    (ctx, action)
}

#[test]
fn the_smallest_tag_is_the_target() {
    let list = [tag(9, 1.0), tag(4, 2000.0), tag(SENTINEL_TAG_ID, 600.0), tag(4, 1.0), tag(8, 1.0)];
    let (ctx, action) = round(RobotState::Navigating, &list, 1010, 1_010_000);
    assert_eq!(action, NavAction::Steer { target: list[1], base_speed: 40 });
    assert_eq!(ctx.nav.read(), NavCommand { left: 30, right: 31 });
}

#[test]
fn the_robot_slows_down_near_its_target() {
    assert_eq!(choose_speed(1799.9f32.to_bits()), 20);
    assert_eq!(choose_speed(1800.0f32.to_bits()), 40);
    assert_eq!(choose_speed((-1.0f32).to_bits()), 20);
    assert_eq!(choose_speed(f32::NAN.to_bits()), 40);
}

#[test]
fn the_robot_yields_near_the_sentinel() {
    let near = tag(SENTINEL_TAG_ID, 499.9);
    let (ctx, action) = round(RobotState::Navigating, &[tag(1, 1.0), near], 1010, 1_010_000);
    assert_eq!(action, NavAction::Yielded { distance_mm: 499.9f32.to_bits() });
    assert_eq!(ctx.state, RobotState::Yielding);
    assert_eq!(ctx.nav.read(), NavCommand { left: 0, right: 0 });
    // Only the first sentinel in the frame is looked at.
    let far = tag(SENTINEL_TAG_ID, 500.0);
    let (ctx, action) = round(RobotState::Navigating, &[far, near], 1010, 1_010_000);
    assert_eq!(action, NavAction::NoTarget);
    assert_eq!(ctx.state, RobotState::Navigating);
}

#[test]
fn without_a_target_the_motors_stop() {
    let (ctx, action) = round(RobotState::Navigating, &[], 1010, 1_010_000);
    assert_eq!(action, NavAction::NoTarget);
    assert_eq!(ctx.nav.read(), NavCommand { left: 0, right: 0 });
}

#[test]
fn a_stale_frame_is_passed_over() {
    let (_, action) = round(RobotState::Navigating, &[tag(1, 1.0)], 1010, 1_400_999);
    assert_eq!(action, NavAction::Steer { target: tag(1, 1.0), base_speed: 20 });
    let (ctx, action) = round(RobotState::Navigating, &[tag(1, 1.0)], 1010, 1_401_000);
    assert_eq!(action, NavAction::Stale { age_ms: 401 });
    assert_eq!(ctx.nav.read(), NavCommand { left: 30, right: 31 });
}

#[test]
fn lost_vision_is_panic() {
    let (ctx, action) = round(RobotState::Navigating, &[tag(1, 1.0)], 2501, 1_010_000);
    assert_eq!(action, NavAction::Panicked);
    assert_eq!(ctx.state, RobotState::Panicking);
    assert_eq!(ctx.nav.read(), NavCommand { left: 0, right: 0 });
    let (_, action) = round(RobotState::Navigating, &[tag(1, 1.0)], 2500, 1_010_000);
    assert!(matches!(action, NavAction::Steer { .. }));
}

#[test]
fn unsafe_navigation_waits_for_vision() {
    let mut ctx = context(RobotState::Navigating);
    ctx.nav.update(30, 30);
    let mut navigator = Navigator::new(true);
    assert_eq!(navigator.step(&mut ctx, 5000, 0), NavAction::Waiting { announce: true });
    assert_eq!(navigator.step(&mut ctx, 5033, 0), NavAction::Waiting { announce: false });
    assert_eq!(ctx.state, RobotState::Navigating);
    assert_eq!(ctx.nav.read(), NavCommand { left: 0, right: 0 });
    ctx.vision.update(snapshot(5_040_000, &[tag(1, 1.0)]));
    assert!(matches!(navigator.step(&mut ctx, 5066, 5_066_000), NavAction::Steer { .. }));
    assert_eq!(navigator.step(&mut ctx, 9000, 0), NavAction::Waiting { announce: true });
}

#[test]
fn other_states_are_left_alone() {
    for state in [
        RobotState::Boot,
        RobotState::Yielding,
        RobotState::Panicking,
        RobotState::RcOverride,
    ] {
        let list = [tag(SENTINEL_TAG_ID, 1.0), tag(1, 1.0)];
        let (ctx, action) = round(state, &list, 1_000_000, 1_010_000);
        assert_eq!(action, NavAction::NotNavigating);
        assert_eq!(ctx.state, state);
        assert_eq!(ctx.nav.read(), NavCommand { left: 30, right: 31 });
    }
    let mut ctx = context(RobotState::Boot);
    assert_eq!(Navigator::new(false).step(&mut ctx, 9000, 9_000_000), NavAction::NoFrame);
}

// ---- the states together ----

#[test]
fn a_panicking_robot_waits_for_the_remote() {
    let mut ctx = context(RobotState::Panicking);
    ctx.vision.update(snapshot(1_000_000, &[tag(3, 1.0)]));
    handle_scan(&mut ctx, FrameScan::Status { flags: 7, heading_bits: 0 });
    Navigator::new(false).step(&mut ctx, 1010, 1_010_000);
    handle_packet(&mut ctx, [2, 0, 0, 0, 0, 0, 0, 0], 1010);
    assert_eq!(ctx.state, RobotState::Panicking);
    handle_packet(&mut ctx, [1, 0, 0, 0, 0, 0, 0, 0], 1020);
    assert_eq!(ctx.state, RobotState::RcOverride);
    handle_scan(&mut ctx, FrameScan::Status { flags: 7, heading_bits: 0 });
    assert_eq!(ctx.state, RobotState::RcOverride);
    handle_packet(&mut ctx, [2, 0, 0, 0, 0, 0, 0, 0], 1030);
    assert_eq!(ctx.state, RobotState::Navigating);
}
