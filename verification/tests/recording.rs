use navd::recorder::{Recorder, RecorderAction};
use navd::recording::{format_entry, parse_recording, Entry};
use navd::replayer::Replayer;
use navd::uart::{CMD_DRIVE, CMD_ESTOP, CMD_STOP};

fn tuples(entries: Vec<Entry>) -> Vec<(u64, u8, Vec<u8>)> {
    entries.into_iter().map(|e| (e.dur, e.cmd, e.payload)).collect()
}

fn recorder() -> Recorder {
    Recorder::new("/var/log/run.txt")
}

#[test]
fn entries_are_written_as_lines() {
    assert_eq!(format_entry(120, 1, &[40, 216]), "120 1 40 216\n");
    assert_eq!(format_entry(20, 5, &[9]), "20 5 9\n");
    assert_eq!(format_entry(0, 2, &[]), "0 2 \n");
}

#[test]
fn lines_read_back() {
    let text = format!(
        "{}{}{}",
        format_entry(120, 1, &[40, 216]),
        format_entry(u64::MAX, 255, &[]),
        format_entry(0, 5, &[0, 9, 99, 255])
    );
    assert_eq!(
        tuples(parse_recording(&text)),
        vec![
            (120, 1, vec![40, 216]),
            (u64::MAX, 255, vec![]),
            (0, 5, vec![0, 9, 99, 255])
        ]
    );
}

#[test]
fn broken_lines_are_passed_over() {
    let text = "\n5\nx 1 2\n5 256 1\n+5 1 7 x 300 8\r\n-5 1\n 6\t2 \n18446744073709551616 1";
    assert_eq!(tuples(parse_recording(text)), vec![(5, 1, vec![7, 8]), (6, 2, vec![])]);
}

#[test]
fn paths_are_taken_apart_like_std() {
    for path in [
        "/var/log/run.txt", "run.txt", "run", "/run", "/", "", "a/b.tar.gz", ".hidden", "a/..",
        "dir/.", "./x.y", "a//b/",
    ] {
        let p = std::path::Path::new(path);
        let r = Recorder::new(path);
        assert_eq!(r.dir, p.parent().and_then(|d| d.to_str()).unwrap_or(""));
        assert_eq!(r.stem, p.file_stem().and_then(|s| s.to_str()).unwrap_or(""));
        assert_eq!(r.ext, p.extension().and_then(|e| e.to_str()).unwrap_or(""));
        assert_eq!(r.counter, 1);
        assert!(!r.file_open);
        assert!(r.current_rle.is_none());
    }
}

#[test]
fn missing_parts_are_empty() {
    let r = Recorder::from_parts(None, Some("a".to_string()), None);
    assert_eq!((r.dir.as_str(), r.stem.as_str(), r.ext.as_str()), ("", "a", ""));
}

#[test]
fn file_names_count_up() {
    let mut r = recorder();
    assert_eq!(r.dir, "/var/log");
    assert_eq!(r.file_name(), "run-1.txt");
    assert_eq!(r.open_next_file(true), None);
    assert_eq!(r.open_next_file(true), None);
    assert_eq!(r.file_name(), "run-3.txt");
    assert_eq!(r.open_next_file(false), Some("run-3.txt".to_string()));
    assert_eq!(r.counter, 3);
    assert_eq!(Recorder::new("plain").file_name(), "plain-1");
}

#[test]
fn file_paths_join_like_std() {
    for dir in ["", "/", "/var/log", "/var/log/", "logs", "."] {
        for stem in ["run", "/run", ""] {
            let r = Recorder::from_parts(
                Some(dir.to_string()),
                Some(stem.to_string()),
                Some("txt".to_string()),
            );
            let joined = std::path::Path::new(dir).join(r.file_name());
            assert_eq!(Some(r.full_path().as_str()), joined.to_str());
        }
    }
    assert_eq!(recorder().full_path(), "/var/log/run-1.txt");
}

#[test]
fn nothing_happens_while_not_recording() {
    let mut r = recorder();
    assert!(matches!(r.update(false, CMD_STOP, &[], 10), RecorderAction::Nothing));
    assert!(r.current_rle.is_none());
}

#[test]
fn equal_commands_make_one_run() {
    let mut r = recorder();
    assert!(matches!(r.update(true, CMD_DRIVE, &[1, 2], 100), RecorderAction::OpenFile));
    r.file_opened(true);
    assert!(matches!(r.update(true, CMD_DRIVE, &[1, 2], 120), RecorderAction::Nothing));
    match r.update(true, CMD_DRIVE, &[1, 3], 140) {
        RecorderAction::Append(line) => assert_eq!(line, "40 1 1 2\n"),
        _ => panic!("a new payload ends the run"),
    }
    match r.update(true, CMD_STOP, &[], 160) {
        RecorderAction::Append(line) => assert_eq!(line, "20 1 1 3\n"),
        _ => panic!("a new command ends the run"),
    }
    match r.update(false, CMD_STOP, &[], 200) {
        RecorderAction::Close(Some(line)) => assert_eq!(line, "40 2 \n"),
        _ => panic!("the end of recording closes the file"),
    }
    assert!(!r.file_open);
    assert!(r.current_rle.is_none());
}

#[test]
fn without_a_file_nothing_is_written() {
    let mut r = recorder();
    assert!(matches!(r.update(true, CMD_DRIVE, &[1, 2], 100), RecorderAction::OpenFile));
    r.file_opened(false);
    assert!(matches!(r.update(true, CMD_STOP, &[], 140), RecorderAction::Nothing));
    assert_eq!(r.write_entry(1, 2, &[]), None);
    assert!(matches!(r.update(false, CMD_STOP, &[], 160), RecorderAction::Close(None)));
}

#[test]
fn a_clock_that_goes_back_makes_empty_runs() {
    let mut r = recorder();
    r.update(true, CMD_DRIVE, &[1, 2], 100);
    r.file_opened(true);
    match r.update(true, CMD_STOP, &[], 90) {
        RecorderAction::Append(line) => assert_eq!(line, "0 1 1 2\n"),
        _ => panic!("a new command ends the run"),
    }
}

#[test]
fn replay_waits_for_the_trigger() {
    let mut p = Replayer::new("100 1 5 6\n");
    assert!(!p.is_active());
    assert_eq!(p.get_command(0), (CMD_STOP, vec![]));
    p.trigger(1000);
    assert!(p.is_active());
    assert_eq!(p.get_command(1000), (1, vec![5, 6]));
}

#[test]
fn replay_keeps_time() {
    let mut p = Replayer::new("100 1 5 6\n0 3\n50 5 9\n");
    p.trigger(1000);
    assert_eq!(p.get_command(1099), (1, vec![5, 6]));
    assert_eq!(p.get_command(1100), (5, vec![9]));
    assert_eq!(p.entry_start_time, 1100);
    assert_eq!(p.get_command(1149), (5, vec![9]));
    assert_eq!(p.get_command(1150), (CMD_STOP, vec![]));
    assert!(!p.is_active());
    p.trigger(2000);
    assert_eq!(p.get_command(2000), (1, vec![5, 6]));
}

#[test]
fn replay_does_not_depend_on_polling() {
    let text = "30 1 1\n30 1 2\n30 1 3\n";
    let mut often = Replayer::new(text);
    often.trigger(0);
    for now in 0..75 {
        often.get_command(now);
    }
    let mut once = Replayer::new(text);
    once.trigger(0);
    assert_eq!(often.get_command(75), once.get_command(75));
    assert_eq!(once.index, 2);
}

#[test]
fn replay_survives_extreme_durations() {
    let mut p = Replayer::new("18446744073709551615 1 1\n");
    p.trigger(u64::MAX);
    assert_eq!(p.get_command(u64::MAX), (1, vec![1]));
    p.trigger(0);
    assert_eq!(p.get_command(u64::MAX), (CMD_STOP, vec![]));
}

#[test]
fn abort_ends_a_replay() {
    let mut p = Replayer::new("100 1 5 6\n");
    p.trigger(0);
    p.abort();
    assert!(!p.is_active());
    assert_eq!(p.get_command(1), (CMD_STOP, vec![]));
    p.abort();
    assert!(!p.is_active());
}

#[test]
fn replay_reproduces_a_recording() {
    let samples: Vec<(u64, u8, Vec<u8>)> = vec![
        (500, CMD_DRIVE, vec![10, 10]),
        (520, CMD_DRIVE, vec![10, 10]),
        (545, CMD_DRIVE, vec![10, 250]),
        (545, CMD_STOP, vec![]),
        (580, CMD_ESTOP, vec![]),
    ];
    let mut r = recorder();
    let mut text = String::new();
    for (now, cmd, payload) in &samples {
        match r.update(true, *cmd, payload, *now) {
            RecorderAction::OpenFile => r.file_opened(true),
            RecorderAction::Append(line) => text.push_str(&line),
            _ => {}
        }
    }
    if let RecorderAction::Close(Some(line)) = r.update(false, CMD_STOP, &[], 600) {
        text.push_str(&line);
    }
    for t in 0..100u64 {
        let mut p = Replayer::new(&text);
        p.trigger(9000);
        let (_, cmd, payload) =
            samples.iter().filter(|s| s.0 <= 500 + t).last().expect("one is in force").clone();
        assert_eq!(p.get_command(9000 + t), (cmd, payload));
        assert!(p.is_active());
    }
    let mut p = Replayer::new(&text);
    p.trigger(9000);
    p.get_command(9100);
    assert!(!p.is_active());
}
