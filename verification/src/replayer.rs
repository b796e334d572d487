//! Plays a recording back.
use crate::clock::elapsed;
use crate::recording::{parse_recording, recorded_entries, spans, Entry, Span};
use crate::uart::CMD_STOP;
use vstd::prelude::*;

verus! {

/// A recording and the place in it: the entry in force, if `index` is one, and
/// when that entry began.
pub struct Replayer {
    pub entries: Vec<Entry>,
    pub index: usize,
    pub entry_start_time: u64,
}

/// The contents of a [`Replayer`].
#[verifier::ext_equal]
pub struct Playback {
    pub entries: Seq<Span>,
    pub index: int,
    pub start: u64,
}

impl View for Replayer {
    type V = Playback;

    open spec fn view(&self) -> Playback {
        Playback {
            entries: spans(self.entries@),
            index: self.index as int,
            start: self.entry_start_time,
        }
    }
}

impl Playback {
    pub open spec fn active(self) -> bool {
        0 <= self.index < self.entries.len()
    }

    /// From the first entry on, beginning at `now`.
    pub open spec fn triggered(self, now: u64) -> Playback {
        Playback { index: 0, start: now, ..self }
    }

    /// Over for good, until triggered again.
    pub open spec fn aborted(self) -> Playback {
        if self.active() {
            Playback { index: usize::MAX as int, ..self }
        } else {
            self
        }
    }

    /// At time `now`: past every entry whose time is up. An entry begins when
    /// the one before it ends, not when it is first asked for.
    pub open spec fn advanced(self, now: u64) -> Playback
        decreases self.entries.len() - self.index,
    {
        if self.active() && elapsed(now, self.start) >= self.entries[self.index].dur {
            Playback {
                index: self.index + 1,
                start: (self.start + self.entries[self.index].dur) as u64,
                ..self
            }.advanced(now)
        } else {
            self
        }
    }

    /// The command in force, which is a stop where there is none left.
    pub open spec fn command(self) -> (u8, Seq<u8>) {
        if self.active() {
            (self.entries[self.index].cmd, self.entries[self.index].payload)
        } else {
            (CMD_STOP, Seq::empty())
        }
    }
}

impl Replayer {
    /// Reads a recording. Playing it waits for a trigger.
    pub fn new(data: &str) -> (replayer: Replayer)
        ensures
            replayer@ == (Playback {
                entries: recorded_entries(data@),
                index: usize::MAX as int,
                start: 0,
            }),
            !replayer@.active(),
    {
        let entries = parse_recording(data);
        assert(entries.len() <= usize::MAX);
        Replayer { entries, index: usize::MAX, entry_start_time: 0 }
    }

    /// Starts, or starts over.
    pub fn trigger(&mut self, now_ms: u64)
        ensures
            final(self)@ == old(self)@.triggered(now_ms),
    {
        self.index = 0;
        self.entry_start_time = now_ms;
    }

    /// Stops for good.
    pub fn abort(&mut self)
        ensures
            final(self)@ == old(self)@.aborted(),
            !final(self)@.active(),
    {
        if self.is_active() {
            self.index = usize::MAX;
            assert(self.entries.len() <= usize::MAX);
        }
    }

    pub fn is_active(&self) -> (active: bool)
        ensures
            active == self@.active(),
    {
        self.index < self.entries.len()
    }

    /// The command to send at time `now_ms`.
    pub fn get_command(&mut self, now_ms: u64) -> (command: (u8, Vec<u8>))
        ensures
            final(self)@ == old(self)@.advanced(now_ms),
            (command.0, command.1@) == final(self)@.command(),
    {
        let ghost before = self@;
        while self.index < self.entries.len()
            invariant
                before.advanced(now_ms) == self@.advanced(now_ms),
            ensures
                before.advanced(now_ms) == self@,
            decreases self.entries.len() - self.index,
        {
            let dur = self.entries[self.index].dur;
            assert(self@.entries[self.index as int].dur == dur);
            if now_ms.saturating_sub(self.entry_start_time) >= dur {
                self.index = self.index + 1;
                self.entry_start_time = self.entry_start_time + dur;
            } else {
                break;
            }
        }
        if self.index < self.entries.len() {
            let entry = &self.entries[self.index];
            let payload = entry.payload.clone();
            assert(payload@ =~= entry.payload@);
            (entry.cmd, payload)
        } else {
            (CMD_STOP, Vec::new())
        }
    }
}

} // verus!
