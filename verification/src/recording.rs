//! The recording format: one line per command, `duration command payload...`,
//! every number in decimal and the duration in milliseconds.
use crate::text::{
    chars_of, decimal, is_digit, is_space, lemma_decimal_reads_back, lemma_first_line,
    lemma_first_word, law_decimal_round_trip, law_lines_grow, lines, no_space, parse_unsigned, push_decimal,
    split_lines, split_words, unsigned_value, word_views, words,
};
use vstd::prelude::*;

verus! {

/// A command and how long it was in force.
pub struct Entry {
    pub dur: u64,
    pub cmd: u8,
    pub payload: Vec<u8>,
}

/// The contents of an [`Entry`].
#[verifier::ext_equal]
pub struct Span {
    pub dur: u64,
    pub cmd: u8,
    pub payload: Seq<u8>,
}

impl View for Entry {
    type V = Span;

    open spec fn view(&self) -> Span {
        Span { dur: self.dur, cmd: self.cmd, payload: self.payload@ }
    }
}

/// The contents of a list of entries.
pub open spec fn spans(entries: Seq<Entry>) -> Seq<Span> {
    entries.map_values(|e: Entry| e@)
}

// ---------------------------------------------------------------------------
// Writing
// ---------------------------------------------------------------------------
/// Payload bytes in decimal with one space between them.
pub open spec fn joined(payload: Seq<u8>) -> Seq<char>
    decreases payload.len(),
{
    if payload.len() == 0 {
        Seq::empty()
    } else if payload.len() == 1 {
        decimal(payload[0] as nat)
    } else {
        decimal(payload[0] as nat) + seq![' '] + joined(payload.drop_first())
    }
}

/// The line that stands for an entry, without its newline. An empty payload
/// leaves the second space at the end of the line.
pub open spec fn entry_line(e: Span) -> Seq<char> {
    decimal(e.dur as nat) + seq![' '] + decimal(e.cmd as nat) + seq![' '] + joined(e.payload)
}

/// A whole recording: each entry's line and a newline.
pub open spec fn recording_text(entries: Seq<Span>) -> Seq<char>
    decreases entries.len(),
{
    if entries.len() == 0 {
        Seq::empty()
    } else {
        entry_line(entries[0]).push('\n') + recording_text(entries.drop_first())
    }
}

/// Writes the line of one entry, newline included.
pub fn format_entry(dur: u64, cmd: u8, payload: &[u8]) -> (line: String)
    ensures
        line@ == entry_line(Span { dur, cmd, payload: payload@ }).push('\n'),
{
    proof {
        reveal_strlit(" ");
        reveal_strlit("\n");
    }
    let mut line = String::new();
    push_decimal(&mut line, dur);
    line.append(" ");
    push_decimal(&mut line, cmd as u64);
    line.append(" ");
    let ghost head = decimal(dur as nat) + seq![' '] + decimal(cmd as nat) + seq![' '];
    assert(line@ =~= head);
    let mut i: usize = 0;
    assert(payload@.skip(0) =~= payload@);
    while i < payload.len()
        invariant
            i <= payload.len(),
            head + joined(payload@) == line@ + joined(payload@.skip(i as int)),
            " "@ == seq![' '],
        decreases payload.len() - i,
    {
        let ghost rest = payload@.skip(i as int);
        let ghost before = line@;
        assert(rest.drop_first() =~= payload@.skip(i + 1));
        push_decimal(&mut line, payload[i] as u64);
        if i + 1 < payload.len() {
            line.append(" ");
            assert(before + joined(rest) =~= line@ + joined(payload@.skip(i + 1)));
        } else {
            assert(rest.len() == 1);
            assert(joined(payload@.skip(i + 1)) =~= Seq::<char>::empty());
            assert(before + joined(rest) =~= line@ + joined(payload@.skip(i + 1)));
        }
        i = i + 1;
    }
    assert(joined(payload@.skip(i as int)) =~= Seq::<char>::empty());
    assert(line@ =~= head + joined(payload@));
    line.append("\n");
    assert(line@ =~= entry_line(Span { dur, cmd, payload: payload@ }).push('\n'));
    line
}

// ---------------------------------------------------------------------------
// Reading
// ---------------------------------------------------------------------------
/// The bytes among a list of words; words that are not bytes are passed over.
pub open spec fn bytes_among(list: Seq<Seq<char>>) -> Seq<u8>
    decreases list.len(),
{
    if list.len() == 0 {
        Seq::empty()
    } else {
        let before = bytes_among(list.drop_last());
        match unsigned_value(list.last(), 255) {
            Some(b) => before.push(b as u8),
            None => before,
        }
    }
}

/// The entry that a line holds, if its first two words are a duration and a
/// command.
pub open spec fn line_entry(line: Seq<char>) -> Option<Span> {
    let parts = words(line);
    if parts.len() < 2 {
        None
    } else {
        match (unsigned_value(parts[0], u64::MAX as nat), unsigned_value(parts[1], 255)) {
            (Some(dur), Some(cmd)) => Some(
                Span { dur: dur as u64, cmd: cmd as u8, payload: bytes_among(parts.skip(2)) },
            ),
            _ => None,
        }
    }
}

/// The entries of the lines that hold one, in order.
pub open spec fn entries_among(list: Seq<Seq<char>>) -> Seq<Span>
    decreases list.len(),
{
    if list.len() == 0 {
        Seq::empty()
    } else {
        let before = entries_among(list.drop_last());
        match line_entry(list.last()) {
            Some(e) => before.push(e),
            None => before,
        }
    }
}

/// What a text reads as.
pub open spec fn recorded_entries(text: Seq<char>) -> Seq<Span> {
    entries_among(lines(text))
}

/// Reads the entry of one line.
pub fn parse_line(line: &Vec<char>) -> (entry: Option<Entry>)
    ensures
        match entry {
            Some(e) => line_entry(line@) == Some(e@),
            None => line_entry(line@) is None,
        },
{
    let parts = split_words(line);
    let ghost views = word_views(parts@);
    if parts.len() < 2 {
        return None;
    }
    assert(views[0] == parts@[0]@ && views[1] == parts@[1]@);
    let dur = match parse_unsigned(&parts[0], u64::MAX) {
        Some(dur) => dur,
        None => {
            return None;
        },
    };
    let cmd = match parse_unsigned(&parts[1], 255) {
        Some(cmd) => cmd as u8,
        None => {
            return None;
        },
    };
    let mut payload: Vec<u8> = Vec::new();
    let mut i: usize = 2;
    assert(views.skip(2).take(0) =~= Seq::<Seq<char>>::empty());
    while i < parts.len()
        invariant
            2 <= i <= parts.len(),
            views == word_views(parts@),
            payload@ == bytes_among(views.skip(2).take(i - 2)),
        decreases parts.len() - i,
    {
        let ghost seen = views.skip(2).take(i - 1);
        assert(seen.drop_last() =~= views.skip(2).take(i - 2));
        assert(seen.last() == parts@[i as int]@);
        if let Some(b) = parse_unsigned(&parts[i], 255) {
            payload.push(b as u8);
        }
        i = i + 1;
    }
    assert(views.skip(2).take(i - 2) =~= views.skip(2));
    Some(Entry { dur, cmd, payload })
}

/// Reads all entries of a text.
pub fn parse_recording(text: &str) -> (entries: Vec<Entry>)
    ensures
        spans(entries@) == recorded_entries(text@),
{
    let list = split_lines(&chars_of(text));
    let ghost views = word_views(list@);
    let mut entries: Vec<Entry> = Vec::new();
    let mut i: usize = 0;
    assert(views.take(0) =~= Seq::<Seq<char>>::empty());
    assert(spans(entries@) =~= Seq::<Span>::empty());
    while i < list.len()
        invariant
            i <= list.len(),
            views == word_views(list@),
            spans(entries@) == entries_among(views.take(i as int)),
        decreases list.len() - i,
    {
        let ghost seen = views.take(i + 1);
        assert(seen.drop_last() =~= views.take(i as int));
        assert(seen.last() == list@[i as int]@);
        if let Some(e) = parse_line(&list[i]) {
            let ghost before = entries@;
            let ghost view = e@;
            entries.push(e);
            assert(spans(entries@) =~= spans(before).push(view));
        }
        i = i + 1;
    }
    assert(views.take(i as int) =~= views);
    entries
}

// ---------------------------------------------------------------------------
// What was written reads back
// ---------------------------------------------------------------------------
proof fn lemma_decimal_is_word(n: nat)
    ensures
        decimal(n).len() > 0,
        no_space(decimal(n)),
{
    lemma_decimal_reads_back(n);
    assert forall|i: int| 0 <= i < decimal(n).len() implies !is_space(#[trigger] decimal(n)[i]) by {
        assert(is_digit(decimal(n)[i]));
    }
}

/// Reading past one space changes nothing.
proof fn lemma_leading_space(s: Seq<char>)
    ensures
        words(seq![' '] + s) == words(s),
{
    assert((seq![' '] + s).drop_first() =~= s);
}

/// The words of a payload's text are its bytes in decimal.
proof fn lemma_joined_words(payload: Seq<u8>)
    ensures
        words(joined(payload)) == payload.map_values(|b: u8| decimal(b as nat)),
    decreases payload.len(),
{
    let decimals = payload.map_values(|b: u8| decimal(b as nat));
    if payload.len() == 0 {
        assert(words(joined(payload)) =~= decimals);
    } else {
        let first = decimal(payload[0] as nat);
        lemma_decimal_is_word(payload[0] as nat);
        if payload.len() == 1 {
            lemma_first_word(first, Seq::empty());
            assert(first + Seq::empty() =~= first);
            assert(words(joined(payload)) =~= decimals);
        } else {
            let rest = joined(payload.drop_first());
            lemma_joined_words(payload.drop_first());
            lemma_first_word(first, seq![' '] + rest);
            lemma_leading_space(rest);
            assert(joined(payload) =~= first + (seq![' '] + rest));
            assert(seq![first] + payload.drop_first().map_values(|b: u8| decimal(b as nat))
                =~= decimals);
        }
    }
}

proof fn lemma_decimals_are_bytes(payload: Seq<u8>)
    ensures
        bytes_among(payload.map_values(|b: u8| decimal(b as nat))) == payload,
    decreases payload.len(),
{
    let decimals = payload.map_values(|b: u8| decimal(b as nat));
    if payload.len() > 0 {
        assert(decimals.drop_last() =~= payload.drop_last().map_values(
            |b: u8| decimal(b as nat),
        ));
        lemma_decimals_are_bytes(payload.drop_last());
        law_decimal_round_trip(payload.last() as nat, 255);
        assert(decimals.last() == decimal(payload.last() as nat));
        assert(payload =~= payload.drop_last().push(payload.last()));
    } else {
        assert(bytes_among(decimals) =~= payload);
    }
}

/// A written line reads back as the entry it was written for, payload and all.
pub proof fn law_line_round_trip(e: Span)
    ensures
        line_entry(entry_line(e)) == Some(e),
{
    let dur = decimal(e.dur as nat);
    let cmd = decimal(e.cmd as nat);
    let bytes = joined(e.payload);
    let decimals = e.payload.map_values(|b: u8| decimal(b as nat));
    lemma_decimal_is_word(e.dur as nat);
    lemma_decimal_is_word(e.cmd as nat);
    law_decimal_round_trip(e.dur as nat, u64::MAX as nat);
    law_decimal_round_trip(e.cmd as nat, 255);
    lemma_joined_words(e.payload);
    lemma_decimals_are_bytes(e.payload);
    let tail = seq![' '] + bytes;
    let rest = seq![' '] + (cmd + tail);
    assert(entry_line(e) =~= dur + rest);
    lemma_first_word(dur, rest);
    lemma_leading_space(cmd + tail);
    lemma_first_word(cmd, tail);
    lemma_leading_space(bytes);
    let parts = words(entry_line(e));
    assert(parts == seq![dur] + (seq![cmd] + decimals));
    assert(parts[0] == dur && parts[1] == cmd);
    assert(parts.skip(2) =~= decimals);
}

proof fn lemma_no_newline_in_decimal(n: nat)
    ensures
        forall|i: int| 0 <= i < decimal(n).len() ==> decimal(n)[i] != '\n',
{
    lemma_decimal_reads_back(n);
    assert forall|i: int| 0 <= i < decimal(n).len() implies decimal(n)[i] != '\n' by {
        assert(is_digit(decimal(n)[i]));
    }
}

proof fn lemma_no_newline_in_joined(payload: Seq<u8>)
    ensures
        forall|i: int| 0 <= i < joined(payload).len() ==> joined(payload)[i] != '\n',
    decreases payload.len(),
{
    if payload.len() > 0 {
        lemma_no_newline_in_decimal(payload[0] as nat);
        if payload.len() > 1 {
            let first = decimal(payload[0] as nat);
            let rest = joined(payload.drop_first());
            lemma_no_newline_in_joined(payload.drop_first());
            assert forall|i: int| 0 <= i < joined(payload).len() implies joined(payload)[i]
                != '\n' by {
                if i > first.len() {
                    assert(joined(payload)[i] == rest[i - first.len() - 1]);
                }
            }
        }
    }
}

proof fn lemma_no_newline_in_line(e: Span)
    ensures
        forall|i: int| 0 <= i < entry_line(e).len() ==> entry_line(e)[i] != '\n',
{
    lemma_no_newline_in_decimal(e.dur as nat);
    lemma_no_newline_in_decimal(e.cmd as nat);
    lemma_no_newline_in_joined(e.payload);
}

/// The lines of a recording: one per entry, and an empty one at the end.
proof fn lemma_recording_lines(entries: Seq<Span>)
    ensures
        lines(recording_text(entries)) == entries.map_values(|e: Span| entry_line(e)).push(
            Seq::empty(),
        ),
    decreases entries.len(),
{
    let all = entries.map_values(|e: Span| entry_line(e)).push(Seq::empty());
    if entries.len() == 0 {
        assert(lines(recording_text(entries)) =~= all);
    } else {
        lemma_recording_lines(entries.drop_first());
        lemma_no_newline_in_line(entries[0]);
        lemma_first_line(entry_line(entries[0]), recording_text(entries.drop_first()));
        assert(seq![entry_line(entries[0])] + entries.drop_first().map_values(
            |e: Span| entry_line(e),
        ).push(Seq::empty()) =~= all);
    }
}

proof fn lemma_entry_lines_read_back(entries: Seq<Span>)
    ensures
        entries_among(entries.map_values(|e: Span| entry_line(e))) == entries,
    decreases entries.len(),
{
    let list = entries.map_values(|e: Span| entry_line(e));
    if entries.len() > 0 {
        assert(list.drop_last() =~= entries.drop_last().map_values(|e: Span| entry_line(e)));
        lemma_entry_lines_read_back(entries.drop_last());
        law_line_round_trip(entries.last());
        assert(list.last() == entry_line(entries.last()));
        assert(entries =~= entries.drop_last().push(entries.last()));
    } else {
        assert(entries_among(list) =~= entries);
    }
}

/// A recording reads back as exactly the entries that were written, in order.
pub proof fn law_recording_round_trip(entries: Seq<Span>)
    ensures
        recorded_entries(recording_text(entries)) == entries,
{
    let list = entries.map_values(|e: Span| entry_line(e));
    lemma_recording_lines(entries);
    lemma_entry_lines_read_back(entries);
    let all = list.push(Seq::<char>::empty());
    assert(all.drop_last() =~= list);
    assert(all.last() =~= Seq::<char>::empty());
    assert(words(all.last()).len() == 0);
}

/// Writing one more line to a recording adds one more entry to it.
pub proof fn law_text_grows_by_lines(entries: Seq<Span>, e: Span)
    ensures
        recording_text(entries.push(e)) == recording_text(entries) + entry_line(e).push('\n'),
    decreases entries.len(),
{
    let more = entries.push(e);
    if entries.len() == 0 {
        assert(more.drop_first() =~= Seq::<Span>::empty());
        assert(recording_text(more.drop_first()) =~= Seq::<char>::empty());
        assert(recording_text(more) =~= recording_text(entries) + entry_line(e).push('\n'));
    } else {
        assert(more.drop_first() =~= entries.drop_first().push(e));
        law_text_grows_by_lines(entries.drop_first(), e);
        assert(recording_text(more) =~= recording_text(entries) + entry_line(e).push('\n'));
    }
}

// ---------------------------------------------------------------------------
// The format, piece by piece
// ---------------------------------------------------------------------------
/// What a line looks like: duration, space, command, space; then the first
/// payload byte, and each further one after a space.
pub proof fn law_line_layout(dur: u64, cmd: u8, payload: Seq<u8>, byte: u8)
    ensures
        entry_line(Span { dur, cmd, payload: Seq::empty() }) == decimal(dur as nat) + seq![' ']
            + decimal(cmd as nat) + seq![' '],
        payload.len() == 0 ==> entry_line(Span { dur, cmd, payload: payload.push(byte) })
            == entry_line(Span { dur, cmd, payload }) + decimal(byte as nat),
        payload.len() > 0 ==> entry_line(Span { dur, cmd, payload: payload.push(byte) })
            == entry_line(Span { dur, cmd, payload }) + seq![' '] + decimal(byte as nat),
{
    let head = decimal(dur as nat) + seq![' '] + decimal(cmd as nat) + seq![' '];
    assert(head + Seq::<char>::empty() =~= head);
    lemma_joined_push(payload, byte);
    assert(payload.len() == 0 ==> entry_line(Span { dur, cmd, payload: payload.push(byte) })
        =~= entry_line(Span { dur, cmd, payload }) + decimal(byte as nat));
    assert(payload.len() > 0 ==> entry_line(Span { dur, cmd, payload: payload.push(byte) })
        =~= entry_line(Span { dur, cmd, payload }) + seq![' '] + decimal(byte as nat));
}

proof fn lemma_joined_push(payload: Seq<u8>, byte: u8)
    ensures
        payload.len() == 0 ==> joined(payload.push(byte)) == joined(payload) + decimal(
            byte as nat,
        ),
        payload.len() > 0 ==> joined(payload.push(byte)) == joined(payload) + seq![' '] + decimal(
            byte as nat,
        ),
    decreases payload.len(),
{
    let more = payload.push(byte);
    if payload.len() == 0 {
        assert(joined(more) =~= joined(payload) + decimal(byte as nat));
    } else {
        assert(more.drop_first() =~= payload.drop_first().push(byte));
        lemma_joined_push(payload.drop_first(), byte);
        if payload.len() == 1 {
            assert(joined(payload.drop_first()) =~= Seq::<char>::empty());
            assert(joined(more) =~= joined(payload) + seq![' '] + decimal(byte as nat));
        } else {
            assert(joined(more) =~= joined(payload) + seq![' '] + decimal(byte as nat));
        }
    }
}

/// Which bytes a list of words holds: none if it is empty, and one more for a
/// further word that is a number up to 255, whatever stands before it.
pub proof fn law_bytes_word_by_word(list: Seq<Seq<char>>, word: Seq<char>)
    ensures
        bytes_among(Seq::empty()).len() == 0,
        unsigned_value(word, 255) matches Some(b) ==> bytes_among(list.push(word)) == bytes_among(
            list,
        ).push(b as u8),
        unsigned_value(word, 255) is None ==> bytes_among(list.push(word)) == bytes_among(list),
{
    assert(list.push(word).drop_last() =~= list);
}

/// When a line holds an entry, and which: its first two words are numbers up to
/// 2^64 - 1 and up to 255, and these are its duration and its command; the
/// bytes among the other words are its payload.
pub proof fn law_line_fields(line: Seq<char>)
    ensures
        line_entry(line) is Some <==> words(line).len() >= 2 && unsigned_value(
            words(line)[0],
            0xFFFF_FFFF_FFFF_FFFF,
        ) is Some && unsigned_value(words(line)[1], 255) is Some,
        line_entry(line) matches Some(e) ==> {
            &&& unsigned_value(words(line)[0], 0xFFFF_FFFF_FFFF_FFFF) == Some(e.dur as nat)
            &&& unsigned_value(words(line)[1], 255) == Some(e.cmd as nat)
            &&& e.payload == bytes_among(words(line).subrange(2, words(line).len() as int))
        },
{
    if words(line).len() >= 2 {
        assert(words(line).skip(2) =~= words(line).subrange(2, words(line).len() as int));
    }
}

/// What a text reads as, line by line: a line alone reads as its entry or as
/// nothing, and a line before a text as its entry, if it has one, before what the
/// text reads as.
pub proof fn law_text_reads_line_by_line(line: Seq<char>, text: Seq<char>)
    requires
        forall|i: int| 0 <= i < line.len() ==> line[i] != '\n',
    ensures
        line_entry(line) matches Some(e) ==> recorded_entries(line) == seq![e] && recorded_entries(
            line.push('\n') + text,
        ) == seq![e] + recorded_entries(text),
        line_entry(line) is None ==> recorded_entries(line).len() == 0 && recorded_entries(
            line.push('\n') + text,
        ) == recorded_entries(text),
{
    lemma_first_line(line, text);
    lemma_single_line(line);
    lemma_entries_prepend(line, lines(text));
    let alone = seq![line];
    assert(alone.drop_last() =~= Seq::<Seq<char>>::empty());
    assert(entries_among(alone.drop_last()) =~= Seq::<Span>::empty());
    assert(line_entry(line) matches Some(e) ==> entries_among(alone) =~= seq![e]);
    assert(line_entry(line) is None ==> entries_among(alone) =~= Seq::<Span>::empty());
    assert(entries_among(Seq::<Seq<char>>::empty()) + recorded_entries(text) =~= recorded_entries(
        text,
    ));
}

proof fn lemma_single_line(line: Seq<char>)
    requires
        forall|i: int| 0 <= i < line.len() ==> line[i] != '\n',
    ensures
        lines(line) == seq![line],
    decreases line.len(),
{
    if line.len() > 0 {
        let rest = line.drop_first();
        lemma_single_line(rest);
        law_lines_grow(line[0], rest);
        assert(seq![line[0]] + rest =~= line);
        assert(seq![rest].update(0, line) =~= seq![line]);
    } else {
        law_lines_grow('x', line);
        assert(line =~= Seq::<char>::empty());
    }
}

proof fn lemma_entries_prepend(line: Seq<char>, list: Seq<Seq<char>>)
    ensures
        entries_among(seq![line] + list) == entries_among(seq![line]) + entries_among(list),
    decreases list.len(),
{
    let all = seq![line] + list;
    if list.len() == 0 {
        assert(all =~= seq![line]);
        assert(entries_among(seq![line]) + entries_among(list) =~= entries_among(seq![line]));
    } else {
        assert(all.drop_last() =~= seq![line] + list.drop_last());
        assert(all.last() == list.last());
        lemma_entries_prepend(line, list.drop_last());
        assert(entries_among(all) =~= entries_among(seq![line]) + entries_among(list));
    }
}

/// A recording of nothing is empty, and the contents of an entry are its fields.
pub proof fn law_recording_basics(entries: Seq<Entry>, i: int)
    requires
        0 <= i < entries.len(),
    ensures
        recording_text(Seq::empty()).len() == 0,
        spans(entries).len() == entries.len(),
        spans(entries)[i].dur == entries[i].dur,
        spans(entries)[i].cmd == entries[i].cmd,
        spans(entries)[i].payload == entries[i].payload@,
{
}

} // verus!
