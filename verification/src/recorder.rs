//! Records the commands that go out to the motor controller, run by run.
use crate::clock::elapsed;
use crate::recording::{entry_line, format_entry, Span};
use crate::text::{chars_of, decimal, lemma_decimal_reads_back, push_decimal};
use std::path::Path;
use vstd::prelude::*;
use vstd::slice::slice_to_vec;

verus! {

// ---------------------------------------------------------------------------
// Paths
// ---------------------------------------------------------------------------
/// What `Path::parent` gives for a path under Unix rules.
pub uninterp spec fn path_parent_of(path: Seq<char>) -> Option<Seq<char>>;

/// What `Path::file_stem` gives for a path under Unix rules.
pub uninterp spec fn path_stem_of(path: Seq<char>) -> Option<Seq<char>>;

/// What `Path::extension` gives for a path under Unix rules.
pub uninterp spec fn path_extension_of(path: Seq<char>) -> Option<Seq<char>>;

/// The contents of an optional text.
pub open spec fn text_of(text: Option<String>) -> Option<Seq<char>> {
    match text {
        Some(t) => Some(t@),
        None => None,
    }
}

/// `std::path::Path::parent`, which depends on nothing but the path's text: the
/// daemon and its devices are Unix only. A part of a text is text again, so
/// nothing is lost in taking it as a `String`.
#[verifier::external_body]
fn path_parent(path: &str) -> (part: Option<String>)
    ensures
        text_of(part) == path_parent_of(path@),
{
    match Path::new(path).parent() {
        Some(part) => Some(part.to_string_lossy().into_owned()),
        None => None,
    }
}

/// `std::path::Path::file_stem`, taken as [`path_parent`] takes the parent.
#[verifier::external_body]
fn path_stem(path: &str) -> (part: Option<String>)
    ensures
        text_of(part) == path_stem_of(path@),
{
    match Path::new(path).file_stem() {
        Some(part) => Some(part.to_string_lossy().into_owned()),
        None => None,
    }
}

/// `std::path::Path::extension`, taken as [`path_parent`] takes the parent.
#[verifier::external_body]
fn path_extension(path: &str) -> (part: Option<String>)
    ensures
        text_of(part) == path_extension_of(path@),
{
    match Path::new(path).extension() {
        Some(part) => Some(part.to_string_lossy().into_owned()),
        None => None,
    }
}

/// An optional text, or the empty one.
pub open spec fn or_empty(text: Option<Seq<char>>) -> Seq<char> {
    match text {
        Some(t) => t,
        None => Seq::empty(),
    }
}

fn unwrap_or_empty(text: Option<String>) -> (t: String)
    ensures
        t@ == or_empty(text_of(text)),
{
    match text {
        Some(t) => t,
        None => String::new(),
    }
}

// ---------------------------------------------------------------------------
// The recorder
// ---------------------------------------------------------------------------
/// Collects equal commands into runs and turns each run into one line.
///
/// Files are named `stem-counter.ext` in `dir`. `file_open` tells whether there
/// is a file to write to, and `current_rle` is the run under way: when it began,
/// its command and its payload.
pub struct Recorder {
    pub dir: String,
    pub stem: String,
    pub ext: String,
    pub counter: u32,
    pub file_open: bool,
    pub current_rle: Option<(u64, u8, Vec<u8>)>,
}

/// The contents of a [`Recorder`].
#[verifier::ext_equal]
pub struct Recording {
    pub dir: Seq<char>,
    pub stem: Seq<char>,
    pub ext: Seq<char>,
    pub counter: u32,
    pub file_open: bool,
    pub current: Option<Run>,
}

/// A run of equal commands.
#[verifier::ext_equal]
pub struct Run {
    pub start: u64,
    pub cmd: u8,
    pub payload: Seq<u8>,
}

/// What is to be done with the files, in terms of entries.
pub enum RecordStep {
    Nothing,
    Append(Span),
    OpenFile,
    Close(Option<Span>),
}

/// What is to be done with the files.
pub enum RecorderAction {
    /// Nothing.
    Nothing,
    /// Write this line to the open file.
    Append(String),
    /// Find a free name and open a new file under it.
    OpenFile,
    /// Write the line, if there is one, then flush and close the file.
    Close(Option<String>),
}

impl RecorderAction {
    /// Whether the action carries out `step`, entries written out as lines.
    pub open spec fn carries_out(self, step: RecordStep) -> bool {
        match (self, step) {
            (RecorderAction::Nothing, RecordStep::Nothing) => true,
            (RecorderAction::Append(line), RecordStep::Append(e)) => line@ == entry_line(e).push(
                '\n',
            ),
            (RecorderAction::OpenFile, RecordStep::OpenFile) => true,
            (RecorderAction::Close(Some(line)), RecordStep::Close(Some(e))) => line@ == entry_line(
                e,
            ).push('\n'),
            (RecorderAction::Close(None), RecordStep::Close(None)) => true,
            _ => false,
        }
    }
}

impl View for Recorder {
    type V = Recording;

    open spec fn view(&self) -> Recording {
        Recording {
            dir: self.dir@,
            stem: self.stem@,
            ext: self.ext@,
            counter: self.counter,
            file_open: self.file_open,
            current: match self.current_rle {
                Some((start, cmd, payload)) => Some(Run { start, cmd, payload: payload@ }),
                None => None,
            },
        }
    }
}

impl Run {
    /// The entry of this run when it ends at `now`.
    pub open spec fn ended(self, now: u64) -> Span {
        Span { dur: elapsed(now, self.start) as u64, cmd: self.cmd, payload: self.payload }
    }
}

impl Recording {
    /// A recorder that has recorded nothing yet.
    pub open spec fn fresh(dir: Seq<char>, stem: Seq<char>, ext: Seq<char>) -> Recording {
        Recording { dir, stem, ext, counter: 1, file_open: false, current: None }
    }

    /// The entry to write for the run that ends at `now`: none while there is
    /// no open file.
    pub open spec fn entry_at(self, run: Run, now: u64) -> Option<Span> {
        if self.file_open {
            Some(run.ended(now))
        } else {
            None
        }
    }

    /// What a command that goes out at `now` asks of the files.
    pub open spec fn step(
        self,
        is_recording: bool,
        cmd: u8,
        payload: Seq<u8>,
        now: u64,
    ) -> RecordStep {
        match self.current {
            None => if is_recording {
                RecordStep::OpenFile
            } else {
                RecordStep::Nothing
            },
            Some(run) => if !is_recording {
                RecordStep::Close(self.entry_at(run, now))
            } else if run.cmd == cmd && run.payload == payload {
                RecordStep::Nothing
            } else {
                match self.entry_at(run, now) {
                    Some(e) => RecordStep::Append(e),
                    None => RecordStep::Nothing,
                }
            },
        }
    }

    /// The recorder after a command that goes out at `now`. A run goes on while
    /// command and payload stay the same; recording that stops closes the file.
    pub open spec fn updated(
        self,
        is_recording: bool,
        cmd: u8,
        payload: Seq<u8>,
        now: u64,
    ) -> Recording {
        let run = Run { start: now, cmd, payload };
        match self.current {
            None => if is_recording {
                Recording { current: Some(run), ..self }
            } else {
                self
            },
            Some(old_run) => if !is_recording {
                Recording { current: None, file_open: false, ..self }
            } else if old_run.cmd == cmd && old_run.payload == payload {
                self
            } else {
                Recording { current: Some(run), ..self }
            },
        }
    }

    /// The name of the file to try next: `stem-counter`, with `.ext` where
    /// there is an extension.
    pub open spec fn file_name(self) -> Seq<char> {
        self.stem + seq!['-'] + decimal(self.counter as nat) + (if self.ext.len() == 0 {
            Seq::empty()
        } else {
            seq!['.'] + self.ext
        })
    }
}

/// A name in a directory: the name alone where the directory is empty or the
/// name is a path from the root; else both, with one `/` put between them
/// unless the directory ends in one.
pub open spec fn joined_path(dir: Seq<char>, name: Seq<char>) -> Seq<char> {
    if dir.len() == 0 || (name.len() > 0 && name[0] == '/') {
        name
    } else if dir.last() == '/' {
        dir + name
    } else {
        dir + seq!['/'] + name
    }
}

fn same_bytes(a: &[u8], b: &[u8]) -> (same: bool)
    ensures
        same == (a@ == b@),
{
    if a.len() != b.len() {
        return false;
    }
    let mut i: usize = 0;
    while i < a.len()
        invariant
            i <= a.len(),
            a.len() == b.len(),
            forall|k: int| 0 <= k < i ==> a@[k] == b@[k],
        decreases a.len() - i,
    {
        if a[i] != b[i] {
            return false;
        }
        i = i + 1;
    }
    assert(a@ =~= b@);
    true
}

impl Recorder {
    /// A recorder for files named after `path_str`.
    pub fn new(path_str: &str) -> (recorder: Recorder)
        ensures
            recorder@ == Recording::fresh(
                or_empty(path_parent_of(path_str@)),
                or_empty(path_stem_of(path_str@)),
                or_empty(path_extension_of(path_str@)),
            ),
    {
        Recorder::from_parts(path_parent(path_str), path_stem(path_str), path_extension(path_str))
    }

    /// A recorder for files in `dir` whose names begin with `stem` and end with
    /// the extension `ext`.
    pub fn from_parts(
        dir: Option<String>,
        stem: Option<String>,
        ext: Option<String>,
    ) -> (recorder: Recorder)
        ensures
            recorder@ == Recording::fresh(
                or_empty(text_of(dir)),
                or_empty(text_of(stem)),
                or_empty(text_of(ext)),
            ),
    {
        Recorder {
            dir: unwrap_or_empty(dir),
            stem: unwrap_or_empty(stem),
            ext: unwrap_or_empty(ext),
            counter: 1,
            file_open: false,
            current_rle: None,
        }
    }

    /// Takes note of a command that goes out, and says what to do with the
    /// files.
    pub fn update(
        &mut self,
        is_recording: bool,
        out_cmd: u8,
        payload: &[u8],
        now_ms: u64,
    ) -> (action: RecorderAction)
        ensures
            final(self)@ == old(self)@.updated(is_recording, out_cmd, payload@, now_ms),
            action.carries_out(old(self)@.step(is_recording, out_cmd, payload@, now_ms)),
    {
        if is_recording {
            match self.current_rle.take() {
                Some((start, cmd, run)) => {
                    if cmd == out_cmd && same_bytes(run.as_slice(), payload) {
                        self.current_rle = Some((start, cmd, run));
                        RecorderAction::Nothing
                    } else {
                        let dur = now_ms.saturating_sub(start);
                        let line = self.write_entry(dur, cmd, run.as_slice());
                        self.current_rle = Some((now_ms, out_cmd, slice_to_vec(payload)));
                        match line {
                            Some(line) => RecorderAction::Append(line),
                            None => RecorderAction::Nothing,
                        }
                    }
                },
                None => {
                    self.current_rle = Some((now_ms, out_cmd, slice_to_vec(payload)));
                    RecorderAction::OpenFile
                },
            }
        } else {
            match self.current_rle.take() {
                Some((start, cmd, run)) => {
                    let dur = now_ms.saturating_sub(start);
                    let line = self.write_entry(dur, cmd, run.as_slice());
                    self.file_open = false;
                    RecorderAction::Close(line)
                },
                None => RecorderAction::Nothing,
            }
        }
    }

    /// The line of an entry, if there is a file to write it to.
    pub fn write_entry(&self, dur: u64, cmd: u8, payload: &[u8]) -> (line: Option<String>)
        ensures
            match line {
                Some(text) => self.file_open && text@ == entry_line(
                    Span { dur, cmd, payload: payload@ },
                ).push('\n'),
                None => !self.file_open,
            },
    {
        if self.file_open {
            Some(format_entry(dur, cmd, payload))
        } else {
            None
        }
    }

    /// The name of the file to try next.
    pub fn file_name(&self) -> (name: String)
        ensures
            name@ == self@.file_name(),
    {
        proof {
            reveal_strlit("-");
            reveal_strlit(".");
        }
        let mut name = self.stem.clone();
        name.append("-");
        push_decimal(&mut name, self.counter as u64);
        if !self.ext.as_str().is_empty() {
            name.append(".");
            name.append(self.ext.as_str());
        }
        assert(name@ =~= self@.file_name());
        name
    }

    /// The path of the file to try next.
    pub fn full_path(&self) -> (path: String)
        ensures
            path@ == joined_path(self@.dir, self@.file_name()),
    {
        proof {
            reveal_strlit("/");
        }
        let name = self.file_name();
        let dir_chars = chars_of(self.dir.as_str());
        let name_chars = chars_of(name.as_str());
        if dir_chars.len() == 0 || (name_chars.len() > 0 && name_chars[0] == '/') {
            return name;
        }
        let mut path = self.dir.clone();
        if dir_chars[dir_chars.len() - 1] != '/' {
            path.append("/");
        }
        path.append(name.as_str());
        assert(path@ =~= joined_path(self@.dir, self@.file_name()));
        path
    }

    /// One round of the search for a free name: `taken` tells whether a file
    /// of the name to try exists. The name itself is to be opened if it is
    /// free, and the next one to be tried if not.
    pub fn open_next_file(&mut self, taken: bool) -> (name: Option<String>)
        requires
            taken ==> old(self).counter < u32::MAX,
        ensures
            taken ==> name is None && final(self)@ == (Recording {
                counter: (old(self)@.counter + 1) as u32,
                ..old(self)@
            }),
            !taken ==> text_of(name) == Some(old(self)@.file_name()) && final(self)@ == old(self)@,
    {
        if taken {
            self.counter = self.counter + 1;
            None
        } else {
            Some(self.file_name())
        }
    }

    /// Takes note of whether the new file could be opened. If not, what is
    /// recorded is lost until recording starts again.
    pub fn file_opened(&mut self, opened: bool)
        ensures
            final(self)@ == (Recording { file_open: opened, ..old(self)@ }),
    {
        self.file_open = opened;
    }
}

/// Names with different counters differ, so the search for a free name never
/// tries a name twice.
pub proof fn law_file_names_differ(a: Recording, b: Recording)
    requires
        a.stem == b.stem,
        a.ext == b.ext,
        a.counter != b.counter,
    ensures
        a.file_name() != b.file_name(),
{
    if a.file_name() == b.file_name() {
        let (da, db) = (decimal(a.counter as nat), decimal(b.counter as nat));
        let at = a.stem.len() + 1;
        assert(a.file_name().len() == b.file_name().len());
        assert(da.len() == db.len());
        assert(da =~= a.file_name().subrange(at as int, (at + da.len()) as int));
        assert(db =~= b.file_name().subrange(at as int, (at + db.len()) as int));
        lemma_decimal_reads_back(a.counter as nat);
        lemma_decimal_reads_back(b.counter as nat);
    }
}

/// What a recorder does with a command that goes out. A run is under way
/// afterwards exactly while recording. It is the old run, with its old start, if
/// the command and every byte of the payload are what they were, and else begins
/// now. A run ends when there is one and it is not gone on with, and only then is
/// something written, provided that a file is open: the entry of the ended run,
/// with the time since its start, or none if the clock has gone back. A file is
/// asked for when the first run begins, and closed when recording stops. The
/// names of files do not change.
pub proof fn law_recorder_follows_the_commands(
    before: Recording,
    is_recording: bool,
    cmd: u8,
    payload: Seq<u8>,
    now: u64,
)
    ensures
        ({
            let after = before.updated(is_recording, cmd, payload, now);
            let step = before.step(is_recording, cmd, payload, now);
            let goes_on = is_recording && before.current is Some && before.current->0.cmd == cmd
                && before.current->0.payload == payload;
            let ends = before.current is Some && !goes_on;
            let written = match step {
                RecordStep::Append(e) => Some(e),
                RecordStep::Close(e) => e,
                _ => None,
            };
            &&& after.current is Some <==> is_recording
            &&& goes_on ==> after.current == before.current
            &&& is_recording && !goes_on ==> after.current->0.start == now
                && after.current->0.cmd == cmd && after.current->0.payload == payload
            &&& written is Some <==> ends && before.file_open
            &&& written matches Some(e) ==> {
                &&& e.cmd == before.current->0.cmd
                &&& e.payload == before.current->0.payload
                &&& now >= before.current->0.start ==> before.current->0.start + e.dur == now
                &&& now < before.current->0.start ==> e.dur == 0
            }
            &&& step is OpenFile <==> is_recording && before.current is None
            &&& step is Close <==> !is_recording && before.current is Some
            &&& after.file_open == (before.file_open && !(step is Close))
            &&& after.dir == before.dir
            &&& after.stem == before.stem
            &&& after.ext == before.ext
            &&& after.counter == before.counter
        }),
{
}

/// An action carries out a step only if it is of the same kind and writes the
/// entry's line, newline and all.
pub proof fn law_actions_match_steps(action: RecorderAction, step: RecordStep)
    requires
        action.carries_out(step),
    ensures
        action is Nothing <==> step is Nothing,
        action is OpenFile <==> step is OpenFile,
        action matches RecorderAction::Append(line) ==> (step matches RecordStep::Append(e)
            && line@ == entry_line(e) + seq!['\n']),
        action matches RecorderAction::Close(Some(line)) ==> (step matches RecordStep::Close(
            Some(e),
        ) && line@ == entry_line(e) + seq!['\n']),
        action matches RecorderAction::Close(None) ==> step == RecordStep::Close(None),
{
    if let RecorderAction::Append(line) = action {
        if let RecordStep::Append(e) = step {
            assert(entry_line(e).push('\n') =~= entry_line(e) + seq!['\n']);
        }
    }
    if let RecorderAction::Close(Some(line)) = action {
        if let RecordStep::Close(Some(e)) = step {
            assert(entry_line(e).push('\n') =~= entry_line(e) + seq!['\n']);
        }
    }
}

/// A file's name begins with the stem, a dash and the counter in decimal, and
/// ends there without an extension, or else with a dot and the extension.
pub proof fn law_file_name_layout(r: Recording)
    ensures
        ({
            let name = r.file_name();
            let head = r.stem + seq!['-'] + decimal(r.counter as nat);
            &&& name.len() >= head.len()
            &&& name.take(head.len() as int) == head
            &&& r.ext.len() == 0 ==> name.len() == head.len()
            &&& r.ext.len() > 0 ==> {
                &&& name.len() == head.len() + 1 + r.ext.len()
                &&& name[head.len() as int] == '.'
                &&& name.skip(head.len() as int + 1) == r.ext
            }
        }),
{
    let name = r.file_name();
    let head = r.stem + seq!['-'] + decimal(r.counter as nat);
    assert(name.take(head.len() as int) =~= head);
    if r.ext.len() > 0 {
        assert(name.skip(head.len() as int + 1) =~= r.ext);
    }
}

/// A file's path ends with its name, whatever the directory. A name from the
/// root, and a name without a directory, is all of it; else the directory
/// stands before it, and exactly one `/` is added unless the directory has one
/// at its end.
pub proof fn law_file_path_layout(dir: Seq<char>, name: Seq<char>)
    ensures
        ({
            let path = joined_path(dir, name);
            let extra = path.len() - name.len();
            &&& extra >= 0
            &&& path.skip(extra) == name
            &&& dir.len() == 0 || (name.len() > 0 && name[0] == '/') ==> extra == 0
            &&& dir.len() > 0 && !(name.len() > 0 && name[0] == '/') ==> {
                &&& extra == dir.len() + (if dir.last() == '/' { 0int } else { 1 })
                &&& path.take(dir.len() as int) == dir
                &&& path[extra - 1] == '/'
            }
        }),
{
    let path = joined_path(dir, name);
    let extra = path.len() - name.len();
    assert(path.skip(extra) =~= name);
    if dir.len() > 0 && !(name.len() > 0 && name[0] == '/') {
        assert(path.take(dir.len() as int) =~= dir);
    }
}

/// A recorder is seen as it is, a fresh one has recorded nothing and starts to
/// count at one, and a part that a path lacks counts as empty.
pub proof fn law_recorder_contents(
    recorder: Recorder,
    dir: Seq<char>,
    stem: Seq<char>,
    ext: Seq<char>,
    part: Option<String>,
)
    ensures
        recorder@.dir == recorder.dir@,
        recorder@.stem == recorder.stem@,
        recorder@.ext == recorder.ext@,
        recorder@.counter == recorder.counter,
        recorder@.file_open == recorder.file_open,
        recorder@.current is Some <==> recorder.current_rle is Some,
        recorder.current_rle matches Some(run) ==> recorder@.current == Some(
            Run { start: run.0, cmd: run.1, payload: run.2@ },
        ),
        Recording::fresh(dir, stem, ext).dir == dir,
        Recording::fresh(dir, stem, ext).stem == stem,
        Recording::fresh(dir, stem, ext).ext == ext,
        Recording::fresh(dir, stem, ext).counter == 1,
        !Recording::fresh(dir, stem, ext).file_open,
        Recording::fresh(dir, stem, ext).current is None,
        part matches Some(text) ==> or_empty(text_of(part)) == text@,
        part is None ==> or_empty(text_of(part)).len() == 0,
{
}

} // verus!
