//! What recording and playback promise together: a replay gives back, moment
//! for moment, the commands that were recorded.
use crate::clock::elapsed;
use crate::recorder::{Recording, RecordStep, Run};
use crate::recording::{
    entry_line, law_recording_round_trip, law_text_grows_by_lines, recorded_entries,
    recording_text, Span,
};
use crate::replayer::{Playback, Replayer};
use vstd::prelude::*;

verus! {

// ---------------------------------------------------------------------------
// Playback follows the durations
// ---------------------------------------------------------------------------
/// The time that a list of entries takes.
pub open spec fn total(entries: Seq<Span>) -> nat
    decreases entries.len(),
{
    if entries.len() == 0 {
        0
    } else {
        total(entries.drop_last()) + entries.last().dur as nat
    }
}

/// The command in force `offset` milliseconds into a list of entries, each of
/// which begins when the one before it ends.
pub open spec fn command_at(entries: Seq<Span>, offset: int) -> Option<(u8, Seq<u8>)>
    decreases entries.len(),
{
    if entries.len() == 0 {
        None
    } else if offset >= total(entries.drop_last()) {
        if offset < total(entries) {
            Some((entries.last().cmd, entries.last().payload))
        } else {
            None
        }
    } else {
        command_at(entries.drop_last(), offset)
    }
}

proof fn lemma_total_of_prefix(entries: Seq<Span>, k: int)
    requires
        0 <= k <= entries.len(),
    ensures
        total(entries.take(k)) <= total(entries),
        k < entries.len() ==> total(entries.take(k + 1)) == total(entries.take(k)) + entries[k].dur,
    decreases entries.len(),
{
    if k < entries.len() {
        assert(entries.take(k + 1).drop_last() =~= entries.take(k));
        assert(entries.drop_last().take(k) =~= entries.take(k));
        lemma_total_of_prefix(entries.drop_last(), k);
    } else {
        assert(entries.take(k) =~= entries);
    }
}

proof fn lemma_totals_ordered(entries: Seq<Span>, j: int, k: int)
    requires
        0 <= j <= k <= entries.len(),
    ensures
        total(entries.take(j)) <= total(entries.take(k)),
{
    assert(entries.take(k).take(j) =~= entries.take(j));
    lemma_total_of_prefix(entries.take(k), j);
}

/// The entry whose stretch of time holds `offset` is the one in force.
proof fn lemma_command_at(entries: Seq<Span>, k: int, offset: int)
    requires
        0 <= k < entries.len(),
        total(entries.take(k)) <= offset < total(entries.take(k + 1)),
    ensures
        command_at(entries, offset) == Some((entries[k].cmd, entries[k].payload)),
    decreases entries.len(),
{
    let n = entries.len() as int;
    assert(entries.take(n) =~= entries);
    assert(entries.take(n - 1) =~= entries.drop_last());
    if k < n - 1 {
        lemma_totals_ordered(entries, k + 1, n - 1);
        assert(entries.drop_last().take(k) =~= entries.take(k));
        assert(entries.drop_last().take(k + 1) =~= entries.take(k + 1));
        lemma_command_at(entries.drop_last(), k, offset);
    }
}

/// Where advancing ends up: at the entry whose stretch of time holds `now`.
proof fn lemma_advanced(p: Playback, begin: u64, now: u64)
    requires
        0 <= p.index <= p.entries.len(),
        begin <= p.start <= now,
        p.start - begin == total(p.entries.take(p.index)),
    ensures
        ({
            let q = p.advanced(now);
            &&& q.entries == p.entries
            &&& p.index <= q.index <= p.entries.len()
            &&& begin <= q.start <= now
            &&& q.start - begin == total(p.entries.take(q.index))
            &&& q.index < p.entries.len() ==> now - q.start < p.entries[q.index].dur
        }),
    decreases p.entries.len() - p.index,
{
    if p.active() && elapsed(now, p.start) >= p.entries[p.index].dur {
        lemma_total_of_prefix(p.entries, p.index);
        lemma_advanced(
            Playback {
                index: p.index + 1,
                start: (p.start + p.entries[p.index].dur) as u64,
                ..p
            },
            begin,
            now,
        );
    }
}

/// A replay triggered at `begin` and asked at `now` gives the command that the
/// recording holds at that offset, and is over exactly when the recording is.
pub proof fn law_replay_keeps_time(p: Playback, begin: u64, now: u64)
    requires
        begin <= now,
    ensures
        ({
            let q = p.triggered(begin).advanced(now);
            &&& q.active() <==> now - begin < total(p.entries)
            &&& q.active() ==> command_at(p.entries, now - begin) == Some(q.command())
        }),
{
    let t = p.triggered(begin);
    assert(p.entries.take(0) =~= Seq::<Span>::empty());
    lemma_advanced(t, begin, now);
    let q = t.advanced(now);
    if q.index < p.entries.len() {
        lemma_total_of_prefix(p.entries, q.index);
        lemma_command_at(p.entries, q.index, now - begin);
        lemma_totals_ordered(p.entries, q.index + 1, p.entries.len() as int);
        assert(p.entries.take(p.entries.len() as int) =~= p.entries);
    } else {
        assert(p.entries.take(q.index) =~= p.entries);
    }
}

/// Asking in between makes no difference: what a replay gives at `later` does
/// not depend on whether it was asked at `earlier`.
pub proof fn law_polling_does_not_matter(p: Playback, earlier: u64, later: u64)
    requires
        earlier <= later,
    ensures
        p.advanced(earlier).advanced(later) == p.advanced(later),
    decreases p.entries.len() - p.index,
{
    if p.active() && elapsed(earlier, p.start) >= p.entries[p.index].dur {
        assert(elapsed(later, p.start) >= p.entries[p.index].dur);
        law_polling_does_not_matter(
            Playback {
                index: p.index + 1,
                start: (p.start + p.entries[p.index].dur) as u64,
                ..p
            },
            earlier,
            later,
        );
    }
}

// ---------------------------------------------------------------------------
// Recording keeps the commands
// ---------------------------------------------------------------------------
/// A command that goes out at a time.
#[verifier::ext_equal]
pub struct Sample {
    pub now: u64,
    pub cmd: u8,
    pub payload: Seq<u8>,
}

/// A recorder together with its file: the entries written to it, and its text.
#[verifier::ext_equal]
pub struct Tape {
    pub recorder: Recording,
    pub log: Seq<Span>,
    pub text: Seq<char>,
}

impl Tape {
    /// The same recorder with the line of one more entry in its file.
    pub open spec fn written(self, recorder: Recording, e: Span) -> Tape {
        Tape { recorder, log: self.log.push(e), text: self.text + entry_line(e).push('\n') }
    }

    /// The tape after a command goes out, where every file that is to be
    /// opened can be opened and every line is written.
    pub open spec fn updated(self, is_recording: bool, sample: Sample) -> Tape {
        let step = self.recorder.step(is_recording, sample.cmd, sample.payload, sample.now);
        let recorder = self.recorder.updated(
            is_recording,
            sample.cmd,
            sample.payload,
            sample.now,
        );
        match step {
            RecordStep::Nothing => Tape { recorder, ..self },
            RecordStep::Append(e) => self.written(recorder, e),
            RecordStep::OpenFile => Tape {
                recorder: Recording { file_open: true, ..recorder },
                log: Seq::empty(),
                text: Seq::empty(),
            },
            RecordStep::Close(Some(e)) => self.written(recorder, e),
            RecordStep::Close(None) => Tape { recorder, ..self },
        }
    }

    /// The tape after all of `samples` have gone out while recording.
    pub open spec fn recorded(self, samples: Seq<Sample>) -> Tape
        decreases samples.len(),
    {
        if samples.len() == 0 {
            self
        } else {
            self.recorded(samples.drop_last()).updated(true, samples.last())
        }
    }
}

/// Whether the samples come in order of time, none after `end`.
pub open spec fn in_order(samples: Seq<Sample>, end: u64) -> bool {
    &&& forall|i: int, j: int|
        0 <= i <= j < samples.len() ==> samples[i].now <= samples[j].now
    &&& forall|i: int| 0 <= i < samples.len() ==> samples[i].now <= end
}

/// The command in force at time `t`: the last one that went out by then.
pub open spec fn in_force(samples: Seq<Sample>, t: int) -> Option<(u8, Seq<u8>)>
    decreases samples.len(),
{
    if samples.len() == 0 {
        None
    } else if samples.last().now <= t {
        Some((samples.last().cmd, samples.last().payload))
    } else {
        in_force(samples.drop_last(), t)
    }
}

/// What holds of a tape while it records: the log takes up the time from the
/// first sample to the start of the run under way and agrees with the samples
/// all along, and from there on the run's command is the one in force.
spec fn keeps_up(tape: Tape, samples: Seq<Sample>) -> bool {
    tape.recorder.current matches Some(run) && {
        &&& tape.recorder.file_open
        &&& tape.text == recording_text(tape.log)
        &&& samples.len() > 0
        &&& samples[0].now <= run.start <= samples.last().now
        &&& total(tape.log) == run.start - samples[0].now
        &&& forall|t: int|
            samples[0].now <= t < run.start ==> command_at(tape.log, t - samples[0].now)
                == #[trigger] in_force(samples, t)
        &&& forall|t: int|
            run.start <= t ==> #[trigger] in_force(samples, t) == Some((run.cmd, run.payload))
    }
}

/// Ending a run at `end` makes the log agree with the samples up to `end`.
proof fn lemma_run_ends(tape: Tape, samples: Seq<Sample>, run: Run, end: u64)
    requires
        keeps_up(tape, samples),
        tape.recorder.current == Some(run),
        samples.last().now <= end,
    ensures
        ({
            let log = tape.log.push(run.ended(end));
            &&& recording_text(log) == tape.text + entry_line(run.ended(end)).push('\n')
            &&& total(log) == end - samples[0].now
            &&& forall|t: int|
                samples[0].now <= t < end ==> command_at(log, t - samples[0].now)
                    == #[trigger] in_force(samples, t)
        }),
{
    let e = run.ended(end);
    let log = tape.log.push(e);
    law_text_grows_by_lines(tape.log, e);
    assert(log.drop_last() =~= tape.log);
    assert(e.dur == end - run.start);
    assert forall|t: int| samples[0].now <= t < end implies command_at(log, t - samples[0].now)
        == #[trigger] in_force(samples, t) by {
        if t < run.start {
            assert(command_at(tape.log, t - samples[0].now) == in_force(samples, t));
        } else {
            assert(in_force(samples, t) == Some((run.cmd, run.payload)));
        }
    }
}

proof fn lemma_tape_keeps_up(start: Tape, samples: Seq<Sample>, end: u64)
    requires
        start.recorder.current is None,
        samples.len() > 0,
        in_order(samples, end),
    ensures
        keeps_up(start.recorded(samples), samples),
    decreases samples.len(),
{
    let before = samples.drop_last();
    let sample = samples.last();
    let tape = start.recorded(samples);
    if before.len() == 0 {
        assert(start.recorded(before) == start);
        assert(tape.log =~= Seq::<Span>::empty());
        assert(tape.text =~= recording_text(tape.log));
    } else {
        assert(in_order(before, end)) by {
            assert forall|i: int, j: int| 0 <= i <= j < before.len() implies before[i].now
                <= before[j].now by {
                assert(before[i] == samples[i] && before[j] == samples[j]);
            }
        }
        lemma_tape_keeps_up(start, before, end);
        let old_tape = start.recorded(before);
        let run = old_tape.recorder.current->0;
        assert(before[0] == samples[0]);
        assert(before.last() == samples[samples.len() - 2]);
        assert(before.last().now <= sample.now);
        assert forall|t: int| t < sample.now implies #[trigger] in_force(samples, t) == in_force(
            before,
            t,
        ) by {}
        if run.cmd == sample.cmd && run.payload == sample.payload {
            assert(tape == old_tape);
            assert forall|t: int| samples[0].now <= t < run.start implies command_at(
                tape.log,
                t - samples[0].now,
            ) == #[trigger] in_force(samples, t) by {
                assert(in_force(before, t) == in_force(samples, t));
            }
            assert forall|t: int| run.start <= t implies #[trigger] in_force(samples, t) == Some(
                (run.cmd, run.payload),
            ) by {
                assert(in_force(before, t) == Some((run.cmd, run.payload)));
            }
        } else {
            lemma_run_ends(old_tape, before, run, sample.now);
            assert(tape.log == old_tape.log.push(run.ended(sample.now)));
            let new_run = Run { start: sample.now, cmd: sample.cmd, payload: sample.payload };
            assert(tape.recorder.current == Some(new_run));
            assert forall|t: int| samples[0].now <= t < new_run.start implies command_at(
                tape.log,
                t - samples[0].now,
            ) == #[trigger] in_force(samples, t) by {
                assert(in_force(before, t) == in_force(samples, t));
            }
        }
    }
}

/// Recording from the first of `samples` on and stopping at `stop` leaves a
/// file that reads as entries that take exactly that long and hold, at every moment in between,
/// the command that was in force then.
pub proof fn law_recording_keeps_commands(start: Tape, samples: Seq<Sample>, stop: Sample)
    requires
        start.recorder.current is None,
        samples.len() > 0,
        in_order(samples, stop.now),
    ensures
        ({
            let tape = start.recorded(samples).updated(false, stop);
            let log = tape.log;
            &&& recorded_entries(tape.text) == log
            &&& total(log) == stop.now - samples[0].now
            &&& forall|t: int|
                samples[0].now <= t < stop.now ==> command_at(log, t - samples[0].now)
                    == #[trigger] in_force(samples, t)
        }),
{
    lemma_tape_keeps_up(start, samples, stop.now);
    let tape = start.recorded(samples);
    lemma_run_ends(tape, samples, tape.recorder.current->0, stop.now);
    law_recording_round_trip(tape.updated(false, stop).log);
}

/// A recording that is read back and replayed gives, `t` milliseconds after the
/// trigger, the command that was in force `t` milliseconds after recording
/// began; and it is over when as much time has passed as was recorded.
pub proof fn law_replay_reproduces_recording(
    start: Tape,
    samples: Seq<Sample>,
    stop: Sample,
    trigger: u64,
    now: u64,
)
    requires
        start.recorder.current is None,
        samples.len() > 0,
        in_order(samples, stop.now),
        trigger <= now,
    ensures
        ({
            let text = start.recorded(samples).updated(false, stop).text;
            let loaded = Playback {
                entries: recorded_entries(text),
                index: usize::MAX as int,
                start: 0,
            };
            let replay = loaded.triggered(trigger).advanced(now);
            let t = now - trigger;
            &&& replay.active() <==> t < stop.now - samples[0].now
            &&& replay.active() ==> in_force(samples, samples[0].now + t) == Some(
                replay.command(),
            )
        }),
{
    let log = start.recorded(samples).updated(false, stop).log;
    law_recording_keeps_commands(start, samples, stop);
    let loaded = Playback { entries: log, index: usize::MAX as int, start: 0 };
    law_replay_keeps_time(loaded, trigger, now);
    let t = now - trigger;
    if t < stop.now - samples[0].now {
        let at = samples[0].now + t;
        assert(in_force(samples, at) == command_at(log, at - samples[0].now));
    }
}

// ---------------------------------------------------------------------------
// One step of a replay
// ---------------------------------------------------------------------------
/// Where advancing to `now` leads, from any place in a recording: a replay that
/// is over stays where it is; one that is running goes on to the one entry whose
/// stretch of time holds `now`, or past the last, every entry beginning where the
/// one before it ends. A clock that has gone back counts as standing still.
pub proof fn law_advancing_follows_the_durations(p: Playback, now: u64)
    ensures
        ({
            let q = p.advanced(now);
            let clock = if now >= p.start {
                now
            } else {
                p.start
            };
            &&& q.entries == p.entries
            &&& !(0 <= p.index < p.entries.len()) ==> q == p
            &&& 0 <= p.index < p.entries.len() ==> {
                &&& p.index <= q.index <= p.entries.len()
                &&& q.start - p.start == total(p.entries.take(q.index)) - total(
                    p.entries.take(p.index),
                )
                &&& q.start <= clock
                &&& q.index < p.entries.len() ==> clock < q.start + p.entries[q.index].dur
            }
        }),
    decreases p.entries.len() - p.index,
{
    if p.active() && elapsed(now, p.start) >= p.entries[p.index].dur {
        let next = Playback {
            index: p.index + 1,
            start: (p.start + p.entries[p.index].dur) as u64,
            ..p
        };
        lemma_total_of_prefix(p.entries, p.index);
        law_advancing_follows_the_durations(next, now);
    }
}

/// A trigger puts a replay at the first entry, from `now` on; an abort leaves
/// one that is running nowhere, and one that is over as it was. Neither touches
/// the recording.
pub proof fn law_trigger_and_abort(p: Playback, now: u64)
    requires
        p.entries.len() <= usize::MAX,
    ensures
        p.triggered(now).entries == p.entries,
        p.triggered(now).index == 0,
        p.triggered(now).start == now,
        p.aborted().entries == p.entries,
        p.aborted().start == p.start,
        !(0 <= p.aborted().index < p.entries.len()),
        !(0 <= p.index < p.entries.len()) ==> p.aborted() == p,
        p.active() <==> 0 <= p.index < p.entries.len(),
{
}

/// The command of a replay is that of the entry it is at, byte for byte, and a
/// stop without payload where it is at none.
pub proof fn law_replay_command(p: Playback)
    ensures
        0 <= p.index < p.entries.len() ==> p.command().0 == p.entries[p.index].cmd
            && p.command().1 == p.entries[p.index].payload,
        !(0 <= p.index < p.entries.len()) ==> p.command().0 == 0x02 && p.command().1.len() == 0,
{
}

/// A replayer is seen as it is: its entries one for one, its place and its
/// time.
pub proof fn law_replayer_contents(replayer: Replayer, i: int)
    requires
        0 <= i < replayer.entries@.len(),
    ensures
        replayer@.entries.len() == replayer.entries@.len(),
        replayer@.entries[i].dur == replayer.entries@[i].dur,
        replayer@.entries[i].cmd == replayer.entries@[i].cmd,
        replayer@.entries[i].payload == replayer.entries@[i].payload@,
        replayer@.index == replayer.index,
        replayer@.start == replayer.entry_start_time,
{
}

} // verus!
