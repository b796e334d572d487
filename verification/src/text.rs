//! Decimal numbers, words and lines: the text that recordings are kept in.
use vstd::prelude::*;

verus! {

// ---------------------------------------------------------------------------
// Decimal numbers
// ---------------------------------------------------------------------------
/// The decimal digit that stands for `d`.
pub open spec fn digit_char(d: nat) -> char
    recommends
        d < 10,
{
    (48 + d) as char
}

pub open spec fn is_digit(c: char) -> bool {
    '0' <= c && c <= '9'
}

/// `n` written in decimal, without leading zeros.
pub open spec fn decimal(n: nat) -> Seq<char>
    decreases n,
{
    if n < 10 {
        seq![digit_char(n)]
    } else {
        decimal(n / 10).push(digit_char(n % 10))
    }
}

pub open spec fn all_digits(s: Seq<char>) -> bool {
    forall|i: int| 0 <= i < s.len() ==> is_digit(#[trigger] s[i])
}

/// The number that a row of digits stands for.
pub open spec fn digits_value(s: Seq<char>) -> nat
    decreases s.len(),
{
    if s.len() == 0 {
        0
    } else {
        (digits_value(s.drop_last()) * 10 + (s.last() as int - 48)) as nat
    }
}

/// A number's digits: the whole word, or what follows one leading `+`.
pub open spec fn unsigned_digits(word: Seq<char>) -> Seq<char> {
    if word.len() > 0 && word[0] == '+' {
        word.drop_first()
    } else {
        word
    }
}

/// What an unsigned number of at most `max` reads as: an optional `+` and one
/// or more digits, whose value is at most `max`; nothing else is a number.
pub open spec fn unsigned_value(word: Seq<char>, max: nat) -> Option<nat> {
    let digits = unsigned_digits(word);
    if digits.len() > 0 && all_digits(digits) && digits_value(digits) <= max {
        Some(digits_value(digits))
    } else {
        None
    }
}

/// A decimal is a non-empty row of digits that reads as the number itself.
pub proof fn lemma_decimal_reads_back(n: nat)
    ensures
        decimal(n).len() > 0,
        all_digits(decimal(n)),
        digits_value(decimal(n)) == n,
    decreases n,
{
    if n < 10 {
        assert(decimal(n).drop_last() =~= Seq::<char>::empty());
        assert(digits_value(decimal(n).drop_last()) == 0);
    } else {
        lemma_decimal_reads_back(n / 10);
        let rest = decimal(n / 10);
        assert(decimal(n).drop_last() =~= rest);
        assert(decimal(n).last() == digit_char(n % 10));
        assert forall|i: int| 0 <= i < decimal(n).len() implies is_digit(
            #[trigger] decimal(n)[i],
        ) by {
            if i < rest.len() {
                assert(decimal(n)[i] == rest[i]);
            }
        }
    }
}

/// Reading a decimal gives back the number that was written, in every range
/// that holds it.
pub proof fn law_decimal_round_trip(n: nat, max: nat)
    requires
        n <= max,
    ensures
        unsigned_value(decimal(n), max) == Some(n),
{
    lemma_decimal_reads_back(n);
    assert(is_digit(decimal(n)[0]));
}

proof fn lemma_value_of_prefix(s: Seq<char>, k: int)
    requires
        all_digits(s),
        0 <= k <= s.len(),
    ensures
        digits_value(s.take(k)) <= digits_value(s),
    decreases s.len(),
{
    if k == s.len() {
        assert(s.take(k) =~= s);
    } else {
        assert(s.drop_last().take(k) =~= s.take(k));
        assert forall|i: int| 0 <= i < s.drop_last().len() implies is_digit(
            #[trigger] s.drop_last()[i],
        ) by {
            assert(s.drop_last()[i] == s[i]);
        }
        lemma_value_of_prefix(s.drop_last(), k);
        assert(is_digit(s.last()));
    }
}

fn digit_text(d: u64) -> (text: &'static str)
    requires
        d < 10,
    ensures
        text@ == seq![digit_char(d as nat)],
{
    proof {
        reveal_strlit("0");
        reveal_strlit("1");
        reveal_strlit("2");
        reveal_strlit("3");
        reveal_strlit("4");
        reveal_strlit("5");
        reveal_strlit("6");
        reveal_strlit("7");
        reveal_strlit("8");
        reveal_strlit("9");
    }
    let text = match d {
        0 => "0",
        1 => "1",
        2 => "2",
        3 => "3",
        4 => "4",
        5 => "5",
        6 => "6",
        7 => "7",
        8 => "8",
        _ => "9",
    };
    assert(text@ =~= seq![digit_char(d as nat)]);
    text
}

/// Appends `n` in decimal to `out`.
pub fn push_decimal(out: &mut String, n: u64)
    ensures
        final(out)@ == old(out)@ + decimal(n as nat),
    decreases n,
{
    if n >= 10 {
        push_decimal(out, n / 10);
    }
    out.append(digit_text(n % 10));
    assert(out@ =~= old(out)@ + decimal(n as nat));
}

/// Reads an unsigned number of at most `max` from `word`.
pub fn parse_unsigned(word: &Vec<char>, max: u64) -> (value: Option<u64>)
    ensures
        value is Some <==> unsigned_value(word@, max as nat) is Some,
        value is Some ==> unsigned_value(word@, max as nat) == Some(value->0 as nat),
{
    let ghost digits = unsigned_digits(word@);
    let first: usize = if word.len() > 0 && word[0] == '+' {
        1
    } else {
        0
    };
    assert(digits =~= word@.skip(first as int));
    if first == word.len() {
        return None;
    }
    let mut value: u64 = 0;
    let mut i: usize = first;
    assert(digits.take(0) =~= Seq::<char>::empty());
    while i < word.len()
        invariant
            first <= i <= word.len(),
            digits == word@.skip(first as int),
            digits == unsigned_digits(word@),
            first < word.len(),
            value == digits_value(digits.take(i - first)),
            value <= max,
            all_digits(digits.take(i - first)),
        decreases word.len() - i,
    {
        let c = word[i];
        assert(c == digits[i - first]);
        if c < '0' || c > '9' {
            assert(!is_digit(digits[i - first]));
            return None;
        }
        let ghost before = digits.take(i - first);
        let ghost after = digits.take(i + 1 - first);
        assert(after.drop_last() =~= before);
        assert(after.last() == c);
        assert forall|k: int| 0 <= k < after.len() implies is_digit(#[trigger] after[k]) by {
            if k < before.len() {
                assert(after[k] == before[k]);
            }
        }
        let d: u64 = c as u64 - 48;
        let wide: u128 = value as u128 * 10 + d as u128;
        assert(wide == digits_value(after));
        if wide > max as u128 {
            proof {
                if all_digits(digits) {
                    lemma_value_of_prefix(digits, i + 1 - first);
                }
            }
            return None;
        }
        value = wide as u64;
        i = i + 1;
    }
    assert(digits.take(i - first) =~= digits);
    Some(value)
}

// ---------------------------------------------------------------------------
// Words and lines
// ---------------------------------------------------------------------------
/// The characters with Unicode's `White_Space` property.
pub open spec fn is_space(c: char) -> bool {
    ||| '\u{9}' <= c && c <= '\u{d}'
    ||| c == ' '
    ||| c == '\u{85}'
    ||| c == '\u{a0}'
    ||| c == '\u{1680}'
    ||| '\u{2000}' <= c && c <= '\u{200a}'
    ||| c == '\u{2028}'
    ||| c == '\u{2029}'
    ||| c == '\u{202f}'
    ||| c == '\u{205f}'
    ||| c == '\u{3000}'
}

/// Whether no character of `s` is white space.
pub open spec fn no_space(s: Seq<char>) -> bool {
    forall|i: int| 0 <= i < s.len() ==> !is_space(#[trigger] s[i])
}

/// How many characters stand before the first white space.
pub open spec fn word_len(s: Seq<char>) -> nat
    decreases s.len(),
{
    if s.len() == 0 || is_space(s[0]) {
        0
    } else {
        1 + word_len(s.drop_first())
    }
}

pub proof fn lemma_word_len(s: Seq<char>)
    ensures
        word_len(s) <= s.len(),
        no_space(s.take(word_len(s) as int)),
        word_len(s) < s.len() ==> is_space(s[word_len(s) as int]),
    decreases s.len(),
{
    if s.len() > 0 && !is_space(s[0]) {
        let rest = s.drop_first();
        lemma_word_len(rest);
        let word = s.take(word_len(s) as int);
        assert forall|i: int| 0 <= i < word.len() implies !is_space(#[trigger] word[i]) by {
            if i > 0 {
                assert(word[i] == rest.take(word_len(rest) as int)[i - 1]);
            }
        }
    }
}

/// The words of `s`: its maximal runs of characters that are not white space,
/// in order.
pub open spec fn words(s: Seq<char>) -> Seq<Seq<char>>
    decreases s.len(),
    via words_decreases
{
    if s.len() == 0 {
        Seq::empty()
    } else if is_space(s[0]) {
        words(s.drop_first())
    } else {
        seq![s.take(word_len(s) as int)] + words(s.skip(word_len(s) as int))
    }
}

#[via_fn]
proof fn words_decreases(s: Seq<char>) {
    lemma_word_len(s);
}

/// A run of non-space characters is one word.
proof fn lemma_word_len_of_run(run: Seq<char>, rest: Seq<char>)
    requires
        no_space(run),
        rest.len() > 0 ==> is_space(rest[0]),
    ensures
        word_len(run + rest) == run.len(),
    decreases run.len(),
{
    if run.len() == 0 {
        assert(run + rest =~= rest);
    } else {
        assert(!is_space(run[0]));
        assert((run + rest).drop_first() =~= run.drop_first() + rest);
        assert forall|i: int| 0 <= i < run.drop_first().len() implies !is_space(
            #[trigger] run.drop_first()[i],
        ) by {
            assert(run.drop_first()[i] == run[i + 1]);
        }
        lemma_word_len_of_run(run.drop_first(), rest);
    }
}

/// A word that stands first is the first word.
pub proof fn lemma_first_word(word: Seq<char>, rest: Seq<char>)
    requires
        word.len() > 0,
        no_space(word),
        rest.len() > 0 ==> is_space(rest[0]),
    ensures
        words(word + rest) == seq![word] + words(rest),
{
    lemma_word_len_of_run(word, rest);
    let s = word + rest;
    assert(!is_space(word[0]) && s[0] == word[0]);
    assert(s.take(word.len() as int) =~= word);
    assert(s.skip(word.len() as int) =~= rest);
}

/// White space by code point: tab to carriage return, the space, the next-line
/// and no-break spaces, the Ogham space, the typographic spaces, the line and
/// paragraph separators, and the narrow, mathematical and ideographic spaces. No
/// other code point is white space, and below 128 only the first two groups are.
pub proof fn law_spaces_by_code_point(c: char)
    ensures
        is_space(c) <==> {
            let n = c as u32;
            ||| 9 <= n <= 13
            ||| n == 32
            ||| n == 133
            ||| n == 160
            ||| n == 5760
            ||| 8192 <= n <= 8202
            ||| 8232 <= n <= 8233
            ||| n == 8239
            ||| n == 8287
            ||| n == 12288
        },
        (c as u32) < 128 ==> (is_space(c) <==> 9 <= c as u32 <= 13 || c as u32 == 32),
{
}

pub fn is_whitespace(c: char) -> (space: bool)
    ensures
        space == is_space(c),
{
    ('\u{9}' <= c && c <= '\u{d}') || c == ' ' || c == '\u{85}' || c == '\u{a0}' || c
        == '\u{1680}' || ('\u{2000}' <= c && c <= '\u{200a}') || c == '\u{2028}' || c
        == '\u{2029}' || c == '\u{202f}' || c == '\u{205f}' || c == '\u{3000}'
}

/// The contents of a list of words.
pub open spec fn word_views(list: Seq<Vec<char>>) -> Seq<Seq<char>> {
    list.map_values(|w: Vec<char>| w@)
}

/// Splits `s` into its words.
pub fn split_words(s: &Vec<char>) -> (list: Vec<Vec<char>>)
    ensures
        word_views(list@) == words(s@),
{
    let mut list: Vec<Vec<char>> = Vec::new();
    let mut i: usize = 0;
    assert(s@.skip(0) =~= s@);
    assert(word_views(list@) + words(s@) =~= words(s@));
    while i < s.len()
        invariant
            i <= s.len(),
            words(s@) == word_views(list@) + words(s@.skip(i as int)),
        decreases s.len() - i,
    {
        let ghost rest = s@.skip(i as int);
        if is_whitespace(s[i]) {
            assert(rest.drop_first() =~= s@.skip(i + 1));
            i = i + 1;
        } else {
            let mut word: Vec<char> = Vec::new();
            let mut j: usize = i;
            while j < s.len() && !is_whitespace(s[j])
                invariant
                    i <= j <= s.len(),
                    rest == s@.skip(i as int),
                    word@ == s@.subrange(i as int, j as int),
                    word_len(rest) == (j - i) + word_len(s@.skip(j as int)),
                decreases s.len() - j,
            {
                assert(s@.skip(j as int).drop_first() =~= s@.skip(j + 1));
                word.push(s[j]);
                j = j + 1;
                assert(word@ =~= s@.subrange(i as int, j as int));
            }
            assert(word_len(s@.skip(j as int)) == 0);
            assert(rest.take(word_len(rest) as int) =~= word@);
            assert(rest.skip(word_len(rest) as int) =~= s@.skip(j as int));
            let ghost before = list@;
            list.push(word);
            assert(word_views(list@) =~= word_views(before) + seq![word@]);
            assert(word_views(before) + (seq![word@] + words(s@.skip(j as int))) =~= word_views(
                list@,
            ) + words(s@.skip(j as int)));
            proof {
                lemma_word_len(rest);
            }
            i = j;
        }
    }
    assert(s@.skip(i as int) =~= Seq::<char>::empty());
    assert(word_views(list@) + words(s@.skip(i as int)) =~= word_views(list@));
    list
}

/// The characters of a text, one by one.
pub fn chars_of(s: &str) -> (chars: Vec<char>)
    ensures
        chars@ == s@,
{
    let mut chars: Vec<char> = Vec::new();
    for c in it: s.chars()
        invariant
            chars@ == it.seq().take(it.index()),
            it.seq() == s@,
    {
        chars.push(c);
    }
    chars
}

/// How many characters stand before the first newline.
pub open spec fn line_len(s: Seq<char>) -> nat
    decreases s.len(),
{
    if s.len() == 0 || s[0] == '\n' {
        0
    } else {
        1 + line_len(s.drop_first())
    }
}

/// The lines of `s`: what stands before, between and after its newlines. The
/// last one is empty when `s` ends with a newline. A carriage return before a
/// newline stays in its line, where it is white space.
pub open spec fn lines(s: Seq<char>) -> Seq<Seq<char>>
    decreases s.len(),
{
    let n = line_len(s);
    if n >= s.len() {
        seq![s]
    } else {
        seq![s.take(n as int)] + lines(s.skip(n as int + 1))
    }
}

/// A line that stands first is the first line.
pub proof fn lemma_first_line(line: Seq<char>, rest: Seq<char>)
    requires
        forall|i: int| 0 <= i < line.len() ==> line[i] != '\n',
    ensures
        lines(line.push('\n') + rest) == seq![line] + lines(rest),
{
    let s = line.push('\n') + rest;
    lemma_line_len_of_run(line, rest);
    assert(s.take(line.len() as int) =~= line);
    assert(s.skip(line.len() as int + 1) =~= rest);
}

proof fn lemma_line_len_of_run(line: Seq<char>, rest: Seq<char>)
    requires
        forall|i: int| 0 <= i < line.len() ==> line[i] != '\n',
    ensures
        line_len(line.push('\n') + rest) == line.len(),
    decreases line.len(),
{
    let s = line.push('\n') + rest;
    if line.len() > 0 {
        assert(s[0] == line[0]);
        assert(s.drop_first() =~= line.drop_first().push('\n') + rest);
        lemma_line_len_of_run(line.drop_first(), rest);
    } else {
        assert(s[0] == '\n');
    }
}

/// Splits `s` into its lines.
pub fn split_lines(s: &Vec<char>) -> (list: Vec<Vec<char>>)
    ensures
        word_views(list@) == lines(s@),
{
    let mut list: Vec<Vec<char>> = Vec::new();
    let mut line: Vec<char> = Vec::new();
    let mut i: usize = 0;
    // Where the current line begins.
    let ghost mut start: int = 0;
    assert(s@.skip(0) =~= s@);
    assert(word_views(list@) + lines(s@) =~= lines(s@));
    while i < s.len()
        invariant
            0 <= start <= i <= s.len(),
            line@ == s@.subrange(start, i as int),
            lines(s@) == word_views(list@) + lines(s@.skip(start)),
            line_len(s@.skip(start)) == (i - start) + line_len(s@.skip(i as int)),
        decreases s.len() - i,
    {
        let c = s[i];
        let ghost rest = s@.skip(start);
        assert(s@.skip(i as int)[0] == c);
        assert(s@.skip(i as int).drop_first() =~= s@.skip(i + 1));
        if c == '\n' {
            assert(rest.take(i - start) =~= line@);
            assert(rest.skip(i - start + 1) =~= s@.skip(i + 1));
            let ghost before = list@;
            let ghost done = line@;
            list.push(line);
            line = Vec::new();
            assert(word_views(list@) =~= word_views(before) + seq![done]);
            assert(word_views(before) + (seq![done] + lines(s@.skip(i + 1))) =~= word_views(list@)
                + lines(s@.skip(i + 1)));
            proof {
                start = i + 1;
            }
        } else {
            line.push(c);
        }
        i = i + 1;
        assert(line@ =~= s@.subrange(start, i as int));
    }
    let ghost rest = s@.skip(start);
    assert(line_len(s@.skip(i as int)) == 0);
    assert(line@ =~= rest);
    let ghost before = list@;
    list.push(line);
    assert(word_views(list@) =~= word_views(before) + seq![rest]);
    list
}

// ---------------------------------------------------------------------------
// The grammar, character by character
// ---------------------------------------------------------------------------
/// How a decimal grows: a number below ten is one digit, and the last digit of
/// any other is its remainder by ten, after the decimal of a tenth of it.
pub proof fn law_decimal_digits(n: nat)
    ensures
        n < 10 ==> decimal(n).len() == 1,
        decimal(n).len() > 0,
        decimal(n).last() as int == 48 + n % 10,
        n >= 10 ==> decimal(n).drop_last() == decimal(n / 10),
{
    if n >= 10 {
        assert(decimal(n).drop_last() =~= decimal(n / 10));
    }
}

/// Which words are numbers, and which: nothing and a lone `+` are none; a digit
/// is its value; a `+` before anything but another `+` changes nothing; and a
/// further character must be a digit, which counts one while the rest counts ten
/// times, up to `max`.
pub proof fn law_number_grammar(word: Seq<char>, c: char, max: nat)
    ensures
        unsigned_value(Seq::empty(), max) is None,
        unsigned_value(seq!['+'], max) is None,
        '0' <= c && c <= '9' && c as int - 48 <= max ==> unsigned_value(seq![c], max) == Some(
            (c as int - 48) as nat,
        ),
        !('0' <= c && c <= '9' && c as int - 48 <= max) ==> unsigned_value(seq![c], max) is None,
        word.len() > 0 && word[0] != '+' ==> unsigned_value(seq!['+'] + word, max)
            == unsigned_value(word, max),
        word.len() > 0 && word[0] == '+' ==> unsigned_value(seq!['+'] + word, max) is None,
        unsigned_value(word, max) matches Some(v) ==> unsigned_value(word.push(c), max) == (if '0'
            <= c && c <= '9' && 10 * v + (c as int - 48) <= max {
            Some((10 * v + (c as int - 48)) as nat)
        } else {
            None
        }),
        word.len() > 0 && word != seq!['+'] && unsigned_value(word, max) is None ==> unsigned_value(
            word.push(c),
            max,
        ) is None,
{
    assert(seq!['+'].drop_first() =~= Seq::<char>::empty());
    assert(seq![c].drop_last() =~= Seq::<char>::empty());
    assert(digits_value(seq![c].drop_last()) == 0);
    if c == '+' {
        assert(seq![c] =~= seq!['+']);
    } else {
        assert(unsigned_digits(seq![c]) == seq![c]);
        assert(all_digits(seq![c]) <==> is_digit(c)) by {
            assert(seq![c][0] == c);
        }
    }
    let signed = seq!['+'] + word;
    assert(signed.drop_first() =~= word);
    if word.len() > 0 && word[0] == '+' {
        assert(!is_digit(word[0]));
    }
    let longer = word.push(c);
    if word.len() > 0 {
        let digits = unsigned_digits(word);
        let more = unsigned_digits(longer);
        assert(more =~= digits.push(c));
        assert(more.drop_last() =~= digits);
        if all_digits(more) {
            assert(is_digit(more.last()));
            assert forall|i: int| 0 <= i < digits.len() implies is_digit(#[trigger] digits[i]) by {
                assert(digits[i] == more[i]);
            }
            assert(digits_value(more) >= digits_value(digits));
            if digits.len() == 0 {
                assert(word =~= seq!['+']);
            }
        } else if all_digits(digits) && is_digit(c) {
            assert forall|i: int| 0 <= i < more.len() implies is_digit(#[trigger] more[i]) by {
                if i < digits.len() {
                    assert(more[i] == digits[i]);
                }
            }
        }
    }
}

/// How words grow from the front: white space adds nothing; any other character
/// begins a word of its own before white space or at the end, and else goes in
/// front of the first word.
pub proof fn law_words_grow(c: char, s: Seq<char>)
    ensures
        words(Seq::empty()).len() == 0,
        is_space(c) ==> words(seq![c] + s) == words(s),
        !is_space(c) && (s.len() == 0 || is_space(s[0])) ==> words(seq![c] + s) == seq![seq![c]]
            + words(s),
        !is_space(c) && s.len() > 0 && !is_space(s[0]) ==> words(s).len() > 0 && words(seq![c] + s)
            == words(s).update(0, seq![c] + words(s)[0]),
{
    let t = seq![c] + s;
    assert(t.drop_first() =~= s);
    if !is_space(c) {
        if s.len() == 0 || is_space(s[0]) {
            assert(word_len(s) == 0);
            assert(t.take(1) =~= seq![c]);
            assert(t.skip(1) =~= s);
        } else {
            lemma_word_len(s);
            let n = word_len(s) as int;
            assert(t.take(n + 1) =~= seq![c] + s.take(n));
            assert(t.skip(n + 1) =~= s.skip(n));
            assert(words(t) =~= words(s).update(0, seq![c] + words(s)[0]));
        }
    }
}

/// How lines grow from the front: a newline ends an empty line, and any other
/// character goes in front of the first line.
pub proof fn law_lines_grow(c: char, s: Seq<char>)
    ensures
        lines(Seq::empty()) == seq![Seq::<char>::empty()],
        lines(s).len() > 0,
        c == '\n' ==> lines(seq![c] + s) == seq![Seq::<char>::empty()] + lines(s),
        c != '\n' ==> lines(seq![c] + s) == lines(s).update(0, seq![c] + lines(s)[0]),
{
    let t = seq![c] + s;
    assert(t.drop_first() =~= s);
    let n = line_len(s) as int;
    if c == '\n' {
        assert(t.take(0) =~= Seq::<char>::empty());
        assert(t.skip(1) =~= s);
    } else if n >= s.len() {
        assert(lines(t) =~= lines(s).update(0, seq![c] + lines(s)[0]));
    } else {
        assert(t.take(n + 1) =~= seq![c] + s.take(n));
        assert(t.skip(n + 2) =~= s.skip(n + 1));
        assert(lines(t) =~= lines(s).update(0, seq![c] + lines(s)[0]));
    }
}

} // verus!
