//! Text as sequences of characters: lines, words and unsigned numbers.
//!
//! The readers in this crate take whole files of line-oriented text apart. A
//! file is turned into its characters once; lines, words and fields are then
//! spans of positions in it.
use vstd::arithmetic::power::{lemma_pow0, lemma_pow1, lemma_pow_adds, pow};
use vstd::prelude::*;

verus! {

/// The characters of Unicode's `White_Space` property.
pub open spec fn is_space(c: char) -> bool {
    ||| '\u{9}' <= c <= '\u{d}'
    ||| c == ' '
    ||| c == '\u{85}'
    ||| c == '\u{a0}'
    ||| c == '\u{1680}'
    ||| '\u{2000}' <= c <= '\u{200a}'
    ||| c == '\u{2028}'
    ||| c == '\u{2029}'
    ||| c == '\u{202f}'
    ||| c == '\u{205f}'
    ||| c == '\u{3000}'
}

/// The predicate of being any character but `c`.
pub open spec fn other_than(c: char) -> spec_fn(char) -> bool {
    |x: char| x != c
}

/// The predicate of being `c`.
pub open spec fn only(c: char) -> spec_fn(char) -> bool {
    |x: char| x == c
}

/// The predicate of being a space.
pub open spec fn space() -> spec_fn(char) -> bool {
    |x: char| is_space(x)
}

/// The predicate of not being a space.
pub open spec fn non_space() -> spec_fn(char) -> bool {
    |x: char| !is_space(x)
}

/// The length of the longest prefix of `s` whose characters all satisfy `p`.
pub open spec fn run_len(s: Seq<char>, p: spec_fn(char) -> bool) -> nat
    decreases s.len(),
{
    if s.len() > 0 && p(s[0]) {
        1 + run_len(s.drop_first(), p)
    } else {
        0
    }
}

/// `line` without the carriage return that it may end in.
pub open spec fn without_final_cr(line: Seq<char>) -> Seq<char> {
    if line.len() > 0 && line.last() == '\r' {
        line.drop_last()
    } else {
        line
    }
}

/// The lines of `s`. A line ends at `\n` or `\r\n`, which is not part of it;
/// the last line need not be terminated.
pub open spec fn lines_of(s: Seq<char>) -> Seq<Seq<char>>
    decreases s.len(),
{
    let n = run_len(s, other_than('\n')) as int;
    if s.len() == 0 {
        seq![]
    } else if n < s.len() {
        seq![without_final_cr(s.take(n))] + lines_of(s.skip(n + 1))
    } else {
        seq![s]
    }
}

/// `s` without its leading spaces.
pub open spec fn trim_start(s: Seq<char>) -> Seq<char> {
    s.skip(run_len(s, space()) as int)
}

/// `s` without its trailing spaces.
pub open spec fn trim_end(s: Seq<char>) -> Seq<char>
    decreases s.len(),
{
    if s.len() > 0 && is_space(s.last()) {
        trim_end(s.drop_last())
    } else {
        s
    }
}

/// `s` without its leading and trailing spaces.
pub open spec fn trim(s: Seq<char>) -> Seq<char> {
    trim_end(trim_start(s))
}

/// The first word of `s`: its first maximal run of characters that are no spaces.
pub open spec fn first_word(s: Seq<char>) -> Option<Seq<char>> {
    let t = trim_start(s);
    let n = run_len(t, non_space());
    if n > 0 {
        Some(t.take(n as int))
    } else {
        None
    }
}

/// What follows the first word of `s`.
pub open spec fn after_first_word(s: Seq<char>) -> Seq<char> {
    let t = trim_start(s);
    t.skip(run_len(t, non_space()) as int)
}

/// The second word of `s`.
pub open spec fn second_word(s: Seq<char>) -> Option<Seq<char>> {
    first_word(after_first_word(s))
}

/// What follows `prefix` in `s`, if `s` starts with it.
pub open spec fn strip_prefix(s: Seq<char>, prefix: Seq<char>) -> Option<Seq<char>> {
    if prefix.is_prefix_of(s) {
        Some(s.skip(prefix.len() as int))
    } else {
        None
    }
}

/// What follows `prefix` in the first of `lines` that starts with it.
pub open spec fn first_field(lines: Seq<Seq<char>>, prefix: Seq<char>) -> Option<Seq<char>>
    decreases lines.len(),
{
    if lines.len() == 0 {
        None
    } else {
        match strip_prefix(lines[0], prefix) {
            Some(value) => Some(value),
            None => first_field(lines.drop_first(), prefix),
        }
    }
}

/// What follows `prefix` in the last of `lines` that starts with it.
pub open spec fn last_field(lines: Seq<Seq<char>>, prefix: Seq<char>) -> Option<Seq<char>>
    decreases lines.len(),
{
    if lines.len() == 0 {
        None
    } else {
        match strip_prefix(lines.last(), prefix) {
            Some(value) => Some(value),
            None => last_field(lines.drop_last(), prefix),
        }
    }
}

/// How often `c` occurs in `s`.
pub open spec fn occurrences(s: Seq<char>, c: char) -> nat
    decreases s.len(),
{
    if s.len() == 0 {
        0
    } else {
        occurrences(s.drop_last(), c) + if s.last() == c {
            1nat
        } else {
            0nat
        }
    }
}

/// The decimal digits.
pub open spec fn is_digit(c: char) -> bool {
    '0' <= c <= '9'
}

/// The number that a digit stands for.
pub open spec fn digit_value(c: char) -> nat {
    (c as u32 - '0' as u32) as nat
}

/// Whether every character of `s` is a decimal digit.
pub open spec fn all_digits(s: Seq<char>) -> bool {
    forall|i: int| 0 <= i < s.len() ==> is_digit(#[trigger] s[i])
}

/// The number that a sequence of decimal digits stands for.
pub open spec fn decimal_value(digits: Seq<char>) -> nat
    decreases digits.len(),
{
    if digits.len() == 0 {
        0
    } else {
        decimal_value(digits.drop_last()) * 10 + digit_value(digits.last())
    }
}

/// The digits of a number that may start with a plus sign.
pub open spec fn without_plus(s: Seq<char>) -> Seq<char> {
    if s.len() > 0 && s[0] == '+' {
        s.drop_first()
    } else {
        s
    }
}

/// The unsigned number that `s` spells, if it is one and is at most `max`: one
/// or more decimal digits, with a plus sign before them or without.
pub open spec fn unsigned_value(s: Seq<char>, max: nat) -> Option<nat> {
    let digits = without_plus(s);
    if digits.len() > 0 && all_digits(digits) && decimal_value(digits) <= max {
        Some(decimal_value(digits))
    } else {
        None
    }
}

/// The number that `s` spells, if it fits a `u64`.
pub open spec fn u64_value(s: Seq<char>) -> Option<u64> {
    match unsigned_value(s, u64::MAX as nat) {
        Some(n) => Some(n as u64),
        None => None,
    }
}

/// The number that `s` spells, if it fits a `u32`.
pub open spec fn u32_value(s: Seq<char>) -> Option<u32> {
    match unsigned_value(s, u32::MAX as nat) {
        Some(n) => Some(n as u32),
        None => None,
    }
}

/// The number that the first word of `s` spells, if it spells one that fits.
pub open spec fn first_number(s: Seq<char>) -> Option<u64> {
    match first_word(s) {
        Some(w) => u64_value(w),
        None => None,
    }
}

/// The position at which the longest prefix with `p` ends is the only one up to
/// which all characters satisfy `p` and at which one does not.
pub proof fn lemma_run_len(s: Seq<char>, p: spec_fn(char) -> bool, n: int)
    requires
        0 <= n <= s.len(),
        forall|i: int| 0 <= i < n ==> p(#[trigger] s[i]),
        n < s.len() ==> !p(s[n]),
    ensures
        run_len(s, p) == n,
    decreases n,
{
    if n > 0 {
        let rest = s.drop_first();
        assert(p(s[0]));
        assert forall|i: int| 0 <= i < n - 1 implies p(#[trigger] rest[i]) by {
            assert(rest[i] == s[i + 1]);
        }
        lemma_run_len(rest, p, n - 1);
    }
}

/// What holds of the longest prefix with `p`.
pub proof fn lemma_run_len_holds(s: Seq<char>, p: spec_fn(char) -> bool)
    ensures
        run_len(s, p) <= s.len(),
        forall|i: int| 0 <= i < run_len(s, p) ==> p(#[trigger] s[i]),
        run_len(s, p) < s.len() ==> !p(s[run_len(s, p) as int]),
    decreases s.len(),
{
    if s.len() > 0 && p(s[0]) {
        let rest = s.drop_first();
        lemma_run_len_holds(rest, p);
        assert forall|i: int| 0 <= i < run_len(s, p) implies p(#[trigger] s[i]) by {
            if i > 0 {
                assert(s[i] == rest[i - 1]);
            }
        }
    }
}

/// A text that starts with `prefix` has its characters in its first positions.
pub proof fn lemma_strip_prefix_chars(s: Seq<char>, prefix: Seq<char>)
    ensures
        strip_prefix(s, prefix) is Some ==> prefix.len() <= s.len() && forall|i: int|
            0 <= i < prefix.len() ==> s[i] == #[trigger] prefix[i],
{
    if strip_prefix(s, prefix) is Some {
        assert forall|i: int| 0 <= i < prefix.len() implies s[i] == #[trigger] prefix[i] by {
            assert(s.subrange(0, prefix.len() as int)[i] == s[i]);
        }
    }
}

/// `lines` as a text, with a line end after each.
pub open spec fn unlines(lines: Seq<Seq<char>>) -> Seq<char>
    decreases lines.len(),
{
    if lines.len() == 0 {
        seq![]
    } else {
        lines[0] + seq!['\n'] + unlines(lines.drop_first())
    }
}

/// Lines that were written with a line end after each are the lines that are read,
/// as long as none holds a line end itself or ends in a carriage return.
pub proof fn law_lines_round_trip(lines: Seq<Seq<char>>)
    requires
        forall|i: int| 0 <= i < lines.len() ==> !(#[trigger] lines[i]).contains('\n'),
        forall|i: int|
            0 <= i < lines.len() && lines[i].len() > 0 ==> (#[trigger] lines[i]).last() != '\r',
    ensures
        lines_of(unlines(lines)) == lines,
    decreases lines.len(),
{
    if lines.len() > 0 {
        let first = lines[0];
        let rest = lines.drop_first();
        let text = unlines(lines);
        let n = first.len() as int;
        assert forall|i: int| 0 <= i < n implies other_than('\n')(#[trigger] text[i]) by {
            assert(text[i] == first[i]);
            assert(first.contains(first[i]));
        }
        assert(text[n] == '\n');
        lemma_run_len(text, other_than('\n'), n);
        assert(text.take(n) == first);
        assert(text.skip(n + 1) == unlines(rest));
        assert forall|i: int| 0 <= i < rest.len() implies !(#[trigger] rest[i]).contains(
            '\n',
        ) by {
            assert(rest[i] == lines[i + 1]);
        }
        assert forall|i: int|
            0 <= i < rest.len() && rest[i].len() > 0 implies (#[trigger] rest[i]).last()
            != '\r' by {
            assert(rest[i] == lines[i + 1]);
        }
        law_lines_round_trip(rest);
        assert(seq![first] + rest == lines);
    }
}

/// A longer sequence of digits stands for a number at least as large.
pub proof fn lemma_decimal_value_prefix(digits: Seq<char>, n: int)
    requires
        0 <= n <= digits.len(),
    ensures
        decimal_value(digits.take(n)) <= decimal_value(digits),
    decreases digits.len(),
{
    if n == digits.len() {
        assert(digits.take(n) == digits);
    } else {
        assert(digits.drop_last().take(n) == digits.take(n));
        lemma_decimal_value_prefix(digits.drop_last(), n);
    }
}

/// A character occurs in two texts together as often as in each of them.
pub proof fn lemma_occurrences_concat(a: Seq<char>, b: Seq<char>, c: char)
    ensures
        occurrences(a + b, c) == occurrences(a, c) + occurrences(b, c),
    decreases b.len(),
{
    if b.len() == 0 {
        assert(a + b == a);
    } else {
        assert((a + b).drop_last() == a + b.drop_last());
        lemma_occurrences_concat(a, b.drop_last(), c);
    }
}

/// Where `c` does not occur from `from` up to `to`, its occurrences before `to` are
/// those before `from`; one at `to` itself is one more.
pub proof fn lemma_occurrences_next(s: Seq<char>, c: char, from: int, to: int)
    requires
        0 <= from <= to <= s.len(),
        forall|i: int| from <= i < to ==> (#[trigger] s[i]) != c,
    ensures
        occurrences(s.take(to), c) == occurrences(s.take(from), c),
        to < s.len() && s[to] == c ==> occurrences(s.take(to + 1), c) == occurrences(
            s.take(from),
            c,
        ) + 1,
    decreases to - from,
{
    if from < to {
        assert(s.take(to).drop_last() == s.take(to - 1));
        assert(s.take(to).last() == s[to - 1]);
        lemma_occurrences_next(s, c, from, to - 1);
    }
    if to < s.len() {
        assert(s.take(to + 1).drop_last() == s.take(to));
    }
}

/// A text of digits holds no other character.
pub proof fn lemma_digits_hold_no_other(s: Seq<char>, c: char)
    requires
        all_digits(s),
        !is_digit(c),
    ensures
        occurrences(s, c) == 0,
    decreases s.len(),
{
    if s.len() > 0 {
        assert(is_digit(s[s.len() - 1]));
        lemma_digits_hold_no_other(s.drop_last(), c);
    }
}

/// The first word of spaces, a text without spaces, and a text that is empty or
/// starts with a space is the one in the middle.
pub proof fn lemma_first_word(before: Seq<char>, w: Seq<char>, after: Seq<char>)
    requires
        forall|i: int| 0 <= i < before.len() ==> is_space(#[trigger] before[i]),
        w.len() > 0,
        forall|i: int| 0 <= i < w.len() ==> !is_space(#[trigger] w[i]),
        after.len() > 0 ==> is_space(after[0]),
    ensures
        first_word(before + w + after) == Some(w),
        after_first_word(before + w + after) == after,
{
    let s = before + w + after;
    lemma_run_len(s, space(), before.len() as int);
    let t = trim_start(s);
    assert(t == w + after);
    lemma_run_len(t, non_space(), w.len() as int);
    assert(t.take(w.len() as int) == w);
    assert(t.skip(w.len() as int) == after);
}

/// A range of positions in a text.
#[derive(Clone, Copy, Debug, PartialEq, Eq, Structural)]
pub struct Span {
    pub start: usize,
    pub end: usize,
}

impl Span {
    /// Whether this is a range of positions in a text of `len` characters.
    pub open spec fn within(self, len: nat) -> bool {
        self.start <= self.end <= len
    }

    /// The part of `text` that this range covers.
    pub open spec fn of(self, text: Seq<char>) -> Seq<char> {
        text.subrange(self.start as int, self.end as int)
    }
}

/// The parts of `text` that `spans` cover.
pub open spec fn parts(spans: Seq<Span>, text: Seq<char>) -> Seq<Seq<char>> {
    Seq::new(spans.len(), |i: int| spans[i].of(text))
}

/// The characters of a string, one vector element each.
pub fn chars_of(s: &str) -> (chars: Vec<char>)
    ensures
        chars@ == s@,
{
    let mut chars: Vec<char> = Vec::new();
    for c in it: s.chars()
        invariant
            chars@ == s@.take(it.index()),
            it.seq() == s@,
    {
        assert(s@.take(it.index() + 1) == s@.take(it.index()).push(s@[it.index()]));
        chars.push(c);
    }
    assert(s@.take(s@.len() as int) == s@);
    chars
}

/// Whether `c` is a space.
pub fn space_char(c: char) -> (r: bool)
    ensures
        r == is_space(c),
{
    ('\u{9}' <= c && c <= '\u{d}') || c == ' ' || c == '\u{85}' || c == '\u{a0}' || c == '\u{1680}'
        || ('\u{2000}' <= c && c <= '\u{200a}') || c == '\u{2028}' || c == '\u{2029}' || c
        == '\u{202f}' || c == '\u{205f}' || c == '\u{3000}'
}

/// The first position of `c` in `span`, or the span's end if it does not occur there.
pub fn find_char(text: &[char], span: Span, c: char) -> (at: usize)
    requires
        span.within(text@.len()),
    ensures
        span.start <= at <= span.end,
        at - span.start == run_len(span.of(text@), other_than(c)),
{
    let mut at: usize = span.start;
    while at < span.end && text[at] != c
        invariant
            span.within(text@.len()),
            span.start <= at <= span.end,
            forall|i: int| 0 <= i < at - span.start ==> (#[trigger] span.of(text@)[i]) != c,
        decreases span.end - at,
    {
        at = at + 1;
    }
    proof {
        lemma_run_len(span.of(text@), other_than(c), at - span.start);
    }
    at
}

/// The position in `span` at which its leading spaces end.
pub fn skip_spaces(text: &[char], span: Span) -> (at: usize)
    requires
        span.within(text@.len()),
    ensures
        span.start <= at <= span.end,
        at - span.start == run_len(span.of(text@), space()),
{
    let mut at: usize = span.start;
    while at < span.end && space_char(text[at])
        invariant
            span.within(text@.len()),
            span.start <= at <= span.end,
            forall|i: int| 0 <= i < at - span.start ==> is_space(#[trigger] span.of(text@)[i]),
        decreases span.end - at,
    {
        at = at + 1;
    }
    proof {
        lemma_run_len(span.of(text@), space(), at - span.start);
    }
    at
}

/// The position in `span` of its first space, or the span's end if it has none.
pub fn skip_word(text: &[char], span: Span) -> (at: usize)
    requires
        span.within(text@.len()),
    ensures
        span.start <= at <= span.end,
        at - span.start == run_len(span.of(text@), non_space()),
{
    let mut at: usize = span.start;
    while at < span.end && !space_char(text[at])
        invariant
            span.within(text@.len()),
            span.start <= at <= span.end,
            forall|i: int| 0 <= i < at - span.start ==> !is_space(#[trigger] span.of(text@)[i]),
        decreases span.end - at,
    {
        at = at + 1;
    }
    proof {
        lemma_run_len(span.of(text@), non_space(), at - span.start);
    }
    at
}

/// The position in `span` at which its leading run of `c` ends.
pub fn skip_char(text: &[char], span: Span, c: char) -> (at: usize)
    requires
        span.within(text@.len()),
    ensures
        span.start <= at <= span.end,
        at - span.start == run_len(span.of(text@), only(c)),
{
    let mut at: usize = span.start;
    while at < span.end && text[at] == c
        invariant
            span.within(text@.len()),
            span.start <= at <= span.end,
            forall|i: int| 0 <= i < at - span.start ==> (#[trigger] span.of(text@)[i]) == c,
        decreases span.end - at,
    {
        at = at + 1;
    }
    proof {
        lemma_run_len(span.of(text@), only(c), at - span.start);
    }
    at
}

/// The spans of the lines of `text`.
pub fn lines(text: &[char]) -> (spans: Vec<Span>)
    ensures
        forall|i: int| 0 <= i < spans@.len() ==> (#[trigger] spans@[i]).within(text@.len()),
        parts(spans@, text@) == lines_of(text@),
{
    let mut spans: Vec<Span> = Vec::new();
    let mut start: usize = 0;
    let len: usize = text.len();
    assert(text@.skip(0) == text@);
    while start < len
        invariant
            start <= len == text@.len(),
            forall|i: int| 0 <= i < spans@.len() ==> (#[trigger] spans@[i]).within(text@.len()),
            parts(spans@, text@) + lines_of(text@.skip(start as int)) == lines_of(text@),
        decreases len - start,
    {
        let rest = Span { start, end: len };
        let newline = find_char(text, rest, '\n');
        let ghost before = parts(spans@, text@);
        let ghost tail = text@.skip(start as int);
        assert(rest.of(text@) == tail);
        if newline < len {
            let end = if newline > start && text[newline - 1] == '\r' {
                newline - 1
            } else {
                newline
            };
            let line = Span { start, end };
            spans.push(line);
            proof {
                let n = newline - start;
                assert(line.of(text@) == without_final_cr(tail.take(n)));
                assert(tail.skip(n + 1) == text@.skip(newline + 1));
                assert(parts(spans@, text@) == before + seq![line.of(text@)]);
                assert(before + (seq![line.of(text@)] + lines_of(text@.skip(newline + 1))) == (before
                    + seq![line.of(text@)]) + lines_of(text@.skip(newline + 1)));
            }
            start = newline + 1;
        } else {
            spans.push(rest);
            proof {
                assert(parts(spans@, text@) == before + seq![tail]);
                assert(text@.skip(len as int) == Seq::<char>::empty());
                assert(before + seq![tail] + lines_of(text@.skip(len as int)) == before + seq![
                    tail,
                ]);
            }
            start = len;
        }
    }
    proof {
        assert(text@.skip(len as int) == Seq::<char>::empty());
        assert(parts(spans@, text@) + lines_of(text@.skip(len as int)) == parts(spans@, text@));
    }
    spans
}

/// The first word in `span`.
pub fn word(text: &[char], span: Span) -> (found: Option<Span>)
    requires
        span.within(text@.len()),
    ensures
        match found {
            Some(w) => {
                &&& span.start <= w.start < w.end <= span.end
                &&& first_word(span.of(text@)) == Some(w.of(text@))
                &&& after_first_word(span.of(text@)) == (Span { start: w.end, end: span.end }).of(
                    text@,
                )
            },
            None => first_word(span.of(text@)) is None,
        },
{
    let start = skip_spaces(text, span);
    let rest = Span { start, end: span.end };
    assert(rest.of(text@) == trim_start(span.of(text@)));
    let end = skip_word(text, rest);
    if end > start {
        let w = Span { start, end };
        proof {
            assert(w.of(text@) == rest.of(text@).take(end - start));
            assert((Span { start: end, end: span.end }).of(text@) == rest.of(text@).skip(
                end - start,
            ));
        }
        Some(w)
    } else {
        None
    }
}

/// The span that is left of `span` without leading and trailing spaces.
pub fn trimmed(text: &[char], span: Span) -> (inner: Span)
    requires
        span.within(text@.len()),
    ensures
        span.start <= inner.start <= inner.end <= span.end,
        inner.of(text@) == trim(span.of(text@)),
{
    let start = skip_spaces(text, span);
    let mut end: usize = span.end;
    assert((Span { start, end }).of(text@) == trim_start(span.of(text@)));
    while end > start && space_char(text[end - 1])
        invariant
            span.within(text@.len()),
            span.start <= start <= end <= span.end,
            trim_end((Span { start, end }).of(text@)) == trim(span.of(text@)),
        decreases end,
    {
        proof {
            let s = (Span { start, end }).of(text@);
            assert(s.drop_last() == (Span { start, end: (end - 1) as usize }).of(text@));
        }
        end = end - 1;
    }
    Span { start, end }
}

/// What follows `prefix` in `span`, if the span starts with it.
pub fn after_prefix(text: &[char], span: Span, prefix: &str) -> (rest: Option<Span>)
    requires
        span.within(text@.len()),
    ensures
        match rest {
            Some(r) => {
                &&& r.start == span.start + prefix@.len()
                &&& r.start <= r.end == span.end
                &&& strip_prefix(span.of(text@), prefix@) == Some(r.of(text@))
            },
            None => strip_prefix(span.of(text@), prefix@) is None,
        },
{
    let n: usize = prefix.unicode_len();
    if span.end - span.start < n {
        return None;
    }
    let mut i: usize = 0;
    while i < n
        invariant
            i <= n == prefix@.len(),
            span.within(text@.len()),
            n <= span.end - span.start,
            forall|j: int| 0 <= j < i ==> span.of(text@)[j] == prefix@[j],
        decreases n - i,
    {
        if text[span.start + i] != prefix.get_char(i) {
            assert(span.of(text@)[i as int] != prefix@[i as int]);
            return None;
        }
        i = i + 1;
    }
    let rest = Span { start: span.start + n, end: span.end };
    proof {
        assert(prefix@.is_prefix_of(span.of(text@))) by {
            assert(prefix@ == span.of(text@).subrange(0, n as int));
        }
        assert(rest.of(text@) == span.of(text@).skip(n as int));
    }
    Some(rest)
}

/// What follows `prefix` in the first line of `text` that starts with it.
pub fn first_field_of(text: &[char], prefix: &str) -> (value: Option<Span>)
    ensures
        match value {
            Some(v) => {
                &&& v.within(text@.len())
                &&& first_field(lines_of(text@), prefix@) == Some(v.of(text@))
            },
            None => first_field(lines_of(text@), prefix@) is None,
        },
{
    let spans = lines(text);
    let ghost all = lines_of(text@);
    let mut i: usize = 0;
    assert(all.skip(0) == all);
    while i < spans.len()
        invariant
            i <= spans@.len() == all.len(),
            all == lines_of(text@),
            all == parts(spans@, text@),
            forall|j: int| 0 <= j < spans@.len() ==> (#[trigger] spans@[j]).within(text@.len()),
            first_field(all.skip(i as int), prefix@) == first_field(all, prefix@),
        decreases spans.len() - i,
    {
        let line = spans[i];
        assert(all.skip(i as int)[0] == line.of(text@));
        assert(all.skip(i as int).drop_first() == all.skip(i + 1));
        if let Some(value) = after_prefix(text, line, prefix) {
            return Some(value);
        }
        i = i + 1;
    }
    None
}

/// Whether `span` holds exactly `expected`.
pub fn span_is(text: &[char], span: Span, expected: &str) -> (r: bool)
    requires
        span.within(text@.len()),
    ensures
        r == (span.of(text@) == expected@),
{
    match after_prefix(text, span, expected) {
        Some(rest) => {
            proof {
                let s = span.of(text@);
                if rest.start == rest.end {
                    assert(s == expected@) by {
                        assert(s.subrange(0, expected@.len() as int) == s);
                    }
                }
            }
            rest.start == rest.end
        },
        None => {
            proof {
                if span.of(text@) == expected@ {
                    assert(expected@.subrange(0, expected@.len() as int) == expected@);
                }
            }
            false
        },
    }
}

/// Whether two strings hold the same characters.
pub fn same_text(a: &str, b: &str) -> (r: bool)
    ensures
        r == (a@ == b@),
{
    let chars = chars_of(a);
    let whole = Span { start: 0, end: chars.len() };
    assert(whole.of(chars@) == a@);
    span_is(chars.as_slice(), whole, b)
}

/// The unsigned number that `span` spells, if it spells one that fits.
pub fn parse_u64(text: &[char], span: Span) -> (value: Option<u64>)
    requires
        span.within(text@.len()),
    ensures
        value == u64_value(span.of(text@)),
{
    let start = if span.start < span.end && text[span.start] == '+' {
        span.start + 1
    } else {
        span.start
    };
    let ghost digits = without_plus(span.of(text@));
    assert(digits == text@.subrange(start as int, span.end as int));
    if start == span.end {
        return None;
    }
    let mut value: u64 = 0;
    let mut at: usize = start;
    while at < span.end
        invariant
            span.within(text@.len()),
            span.start <= start <= at <= span.end,
            start < span.end,
            digits == without_plus(span.of(text@)),
            digits == text@.subrange(start as int, span.end as int),
            forall|i: int| 0 <= i < at - start ==> is_digit(#[trigger] digits[i]),
            value == decimal_value(digits.take(at - start)),
        decreases span.end - at,
    {
        let c = text[at];
        let ghost n = at - start;
        assert(c == digits[n]);
        if !('0' <= c && c <= '9') {
            return None;
        }
        let digit: u64 = (c as u32 - '0' as u32) as u64;
        proof {
            assert(digits.take(n + 1).drop_last() == digits.take(n));
            assert(decimal_value(digits.take(n + 1)) == value * 10 + digit);
            lemma_decimal_value_prefix(digits, n + 1);
        }
        match value.checked_mul(10) {
            Some(tens) => match tens.checked_add(digit) {
                Some(sum) => {
                    value = sum;
                },
                None => {
                    return None;
                },
            },
            None => {
                return None;
            },
        }
        at = at + 1;
    }
    assert(digits.take(span.end - start) == digits);
    Some(value)
}

/// The number that the first word in `span` spells, if it spells one that fits.
pub fn first_number_at(text: &[char], span: Span) -> (value: Option<u64>)
    requires
        span.within(text@.len()),
    ensures
        value == first_number(span.of(text@)),
{
    match word(text, span) {
        Some(w) => parse_u64(text, w),
        None => None,
    }
}

/// The number that the first word of `s` spells, if it spells one that fits.
pub fn first_number_of(s: &str) -> (value: Option<u64>)
    ensures
        value == first_number(s@),
{
    let chars = chars_of(s);
    let whole = Span { start: 0, end: chars.len() };
    assert(whole.of(chars@) == s@);
    first_number_at(chars.as_slice(), whole)
}

/// What came of reading a text file.
#[derive(Debug)]
pub enum FileRead {
    /// Its text.
    Text(String),
    /// There is no such file.
    Missing,
    /// It could not be read, for the reason given.
    Failed(String),
}

/// The unsigned number that `span` spells, if it spells one that fits in 32 bits.
pub fn parse_u32(text: &[char], span: Span) -> (value: Option<u32>)
    requires
        span.within(text@.len()),
    ensures
        value == u32_value(span.of(text@)),
{
    match parse_u64(text, span) {
        Some(v) => if v <= u32::MAX as u64 {
            Some(v as u32)
        } else {
            None
        },
        None => None,
    }
}

/// The first digit of a number weighs as many tens as digits follow it, and a digit
/// alone is its distance from zero: so a sequence of digits stands for the sum of its
/// digits, each at its place.
pub proof fn law_digits_weigh_by_place(c: char, rest: Seq<char>)
    ensures
        decimal_value(seq![c] + rest) == digit_value(c) * pow(10, rest.len()) + decimal_value(
            rest,
        ),
        decimal_value(seq![]) == 0,
        '0' <= c <= '9' ==> digit_value(c) == c as int - '0' as int,
    decreases rest.len(),
{
    let all = seq![c] + rest;
    if rest.len() == 0 {
        assert(all.drop_last() == Seq::<char>::empty());
        assert(decimal_value(all.drop_last()) == 0);
        lemma_pow0(10);
    } else {
        let n = rest.len();
        assert(all.drop_last() == seq![c] + rest.drop_last());
        law_digits_weigh_by_place(c, rest.drop_last());
        lemma_pow_adds(10, 1, (n - 1) as nat);
        lemma_pow1(10);
        let d = digit_value(c) as int;
        let p = pow(10, (n - 1) as nat);
        assert(d * p * 10 == d * (10 * p)) by (nonlinear_arith);
    }
}

/// A text is a number exactly if it is one or more decimal digits, with a plus sign
/// before them or without, that stand for a number in range; that is the number.
pub proof fn law_numbers_are_digits(s: Seq<char>, n: nat, max: nat)
    ensures
        unsigned_value(s, max) == Some(n) <==> exists|digits: Seq<char>|
            {
                &&& #[trigger] decimal_value(digits) == n
                &&& s == digits || s == seq!['+'] + digits
                &&& digits.len() > 0
                &&& forall|i: int| 0 <= i < digits.len() ==> '0' <= #[trigger] digits[i] <= '9'
                &&& n <= max
            },
        n <= u64::MAX ==> (u64_value(s) == Some(n as u64) <==> unsigned_value(s, u64::MAX as nat)
            == Some(n)),
        n <= u32::MAX ==> (u32_value(s) == Some(n as u32) <==> unsigned_value(s, u32::MAX as nat)
            == Some(n)),
{
    let digits = without_plus(s);
    if s.len() > 0 && s[0] == '+' {
        assert(s == seq!['+'] + digits);
    }
    assert(decimal_value(digits) == decimal_value(without_plus(s)));
    if exists|digits: Seq<char>|
        {
            &&& #[trigger] decimal_value(digits) == n
            &&& s == digits || s == seq!['+'] + digits
            &&& digits.len() > 0
            &&& forall|i: int| 0 <= i < digits.len() ==> '0' <= #[trigger] digits[i] <= '9'
            &&& n <= max
        } {
        let found = choose|digits: Seq<char>|
            {
                &&& #[trigger] decimal_value(digits) == n
                &&& s == digits || s == seq!['+'] + digits
                &&& digits.len() > 0
                &&& forall|i: int| 0 <= i < digits.len() ==> '0' <= #[trigger] digits[i] <= '9'
                &&& n <= max
            };
        if s == found {
            assert('0' <= found[0] <= '9');
        } else {
            assert(s.drop_first() == found);
        }
        assert(digits == found);
        assert(all_digits(digits));
    }
    if unsigned_value(s, max) == Some(n) {
        assert forall|i: int| 0 <= i < digits.len() implies '0' <= #[trigger] digits[i]
            <= '9' by {
            assert(is_digit(digits[i]));
        }
        assert(decimal_value(digits) == n);
    }
}

/// The first number of a text is the number that its first word spells, whatever
/// spaces stand before that word and whatever follows it; a text of spaces has none.
pub proof fn law_the_first_word_decides(before: Seq<char>, w: Seq<char>, after: Seq<char>)
    requires
        forall|i: int| 0 <= i < before.len() ==> is_space(#[trigger] before[i]),
        w.len() > 0,
        forall|i: int| 0 <= i < w.len() ==> !is_space(#[trigger] w[i]),
        after.len() > 0 ==> is_space(after[0]),
    ensures
        first_number(before + w + after) == u64_value(w),
        first_number(before) is None,
        first_word(before) is None,
{
    lemma_first_word(before, w, after);
    lemma_run_len(before, space(), before.len() as int);
    assert(trim_start(before) == Seq::<char>::empty());
}

/// Trimming takes the spaces around a text and nothing of the text.
pub proof fn law_trim_takes_only_spaces(before: Seq<char>, w: Seq<char>, after: Seq<char>)
    requires
        forall|i: int| 0 <= i < before.len() ==> is_space(#[trigger] before[i]),
        forall|i: int| 0 <= i < after.len() ==> is_space(#[trigger] after[i]),
        w.len() > 0 ==> !is_space(w[0]) && !is_space(w.last()),
    ensures
        trim(before + w + after) == w,
{
    let s = before + w + after;
    if w.len() > 0 {
        assert(s[before.len() as int] == w[0]);
        lemma_run_len(s, space(), before.len() as int);
        assert(trim_start(s) == w + after);
        lemma_trim_end(w, after);
    } else {
        assert forall|i: int| 0 <= i < s.len() implies is_space(#[trigger] s[i]) by {
            if i >= before.len() {
                assert(s[i] == after[i - before.len()]);
            }
        }
        lemma_run_len(s, space(), s.len() as int);
        assert(trim_start(s) == w);
    }
}

proof fn lemma_trim_end(w: Seq<char>, after: Seq<char>)
    requires
        forall|i: int| 0 <= i < after.len() ==> is_space(#[trigger] after[i]),
        w.len() > 0,
        !is_space(w.last()),
    ensures
        trim_end(w + after) == w,
    decreases after.len(),
{
    let s = w + after;
    if after.len() > 0 {
        assert(s.last() == after[after.len() - 1]);
        assert(s.drop_last() == w + after.drop_last());
        lemma_trim_end(w, after.drop_last());
    } else {
        assert(s == w);
    }
}

/// A field is read from the first line that starts with its name, or, where the last
/// counts, from the last such line; where no line does there is none.
pub proof fn law_fields_follow_their_name(
    before: Seq<Seq<char>>,
    prefix: Seq<char>,
    value: Seq<char>,
    after: Seq<Seq<char>>,
)
    ensures
        (forall|i: int| 0 <= i < before.len() ==> !prefix.is_prefix_of(#[trigger] before[i]))
            ==> first_field(before.push(prefix + value) + after, prefix) == Some(value)
            && first_field(before, prefix) is None && last_field(before, prefix) is None,
        (forall|i: int| 0 <= i < after.len() ==> !prefix.is_prefix_of(#[trigger] after[i]))
            ==> last_field(before.push(prefix + value) + after, prefix) == Some(value),
    decreases before.len() + after.len(),
{
    let line = prefix + value;
    let all = before.push(line) + after;
    assert(prefix.is_prefix_of(line)) by {
        assert(line.subrange(0, prefix.len() as int) == prefix);
    }
    assert(line.skip(prefix.len() as int) == value);
    if forall|i: int| 0 <= i < before.len() ==> !prefix.is_prefix_of(#[trigger] before[i]) {
        if before.len() > 0 {
            let rest = before.drop_first();
            assert forall|i: int| 0 <= i < rest.len() implies !prefix.is_prefix_of(
                #[trigger] rest[i],
            ) by {
                assert(rest[i] == before[i + 1]);
            }
            assert(all.drop_first() == rest.push(line) + after);
            assert(!prefix.is_prefix_of(before[0]));
            assert(all[0] == before[0]);
            law_fields_follow_their_name(rest, prefix, value, after);
            lemma_no_field(before, prefix);
        } else {
            assert(all[0] == line);
        }
    }
    if forall|i: int| 0 <= i < after.len() ==> !prefix.is_prefix_of(#[trigger] after[i]) {
        if after.len() > 0 {
            let rest = after.drop_last();
            assert(all.drop_last() == before.push(line) + rest);
            assert(all.last() == after[after.len() - 1]);
            assert forall|i: int| 0 <= i < rest.len() implies !prefix.is_prefix_of(
                #[trigger] rest[i],
            ) by {
                assert(rest[i] == after[i]);
            }
            law_fields_follow_their_name(before, prefix, value, rest);
        } else {
            assert(all.last() == line);
        }
    }
}

proof fn lemma_no_field(lines: Seq<Seq<char>>, prefix: Seq<char>)
    requires
        forall|i: int| 0 <= i < lines.len() ==> !prefix.is_prefix_of(#[trigger] lines[i]),
    ensures
        last_field(lines, prefix) is None,
    decreases lines.len(),
{
    if lines.len() > 0 {
        assert(!prefix.is_prefix_of(lines[lines.len() - 1]));
        let rest = lines.drop_last();
        assert forall|i: int| 0 <= i < rest.len() implies !prefix.is_prefix_of(
            #[trigger] rest[i],
        ) by {
            assert(rest[i] == lines[i]);
        }
        lemma_no_field(rest, prefix);
    }
}

/// A text without a line end is a line, or none if it is empty; with a line end, or a
/// carriage return and a line end, and more text after it, it is the line before the
/// lines of that text.
pub proof fn law_lines_end_at_line_ends(line: Seq<char>, rest: Seq<char>)
    requires
        !line.contains('\n'),
    ensures
        lines_of(seq![]) == Seq::<Seq<char>>::empty(),
        line.len() > 0 ==> lines_of(line) == seq![line],
        line.len() == 0 || line.last() != '\r' ==> lines_of(line + seq!['\n'] + rest) == seq![
            line,
        ] + lines_of(rest),
        lines_of(line + seq!['\r', '\n'] + rest) == seq![line] + lines_of(rest),
{
    let n = line.len() as int;
    assert forall|i: int| 0 <= i < n implies other_than('\n')(#[trigger] line[i]) by {
        assert(line.contains(line[i]));
    }
    lemma_run_len(line, other_than('\n'), n);
    let plain = line + seq!['\n'] + rest;
    assert(plain[n] == '\n');
    lemma_run_len(plain, other_than('\n'), n);
    assert(plain.take(n) == line);
    assert(plain.skip(n + 1) == rest);
    let other = line + seq!['\r', '\n'] + rest;
    assert(other[n] == '\r' && other[n + 1] == '\n');
    lemma_run_len(other, other_than('\n'), n + 1);
    assert(other.take(n + 1).drop_last() == line);
    assert(other.take(n + 1).last() == '\r');
    assert(other.skip(n + 2) == rest);
}

/// The parts of `s` between the first of its `c`: `n` of them at most, so that the
/// last is all that is left.
pub open spec fn split(s: Seq<char>, c: char, n: nat) -> Seq<Seq<char>>
    decreases n,
{
    let k = run_len(s, other_than(c)) as int;
    if n > 1 && k < s.len() {
        seq![s.take(k)] + split(s.skip(k + 1), c, (n - 1) as nat)
    } else {
        seq![s]
    }
}

/// Text appended after a `c` is one more part.
pub proof fn lemma_split_appended(s: Seq<char>, c: char, n: nat, more: Seq<char>)
    requires
        n > 0,
        split(s, c, n).len() == n,
        !split(s, c, n).last().contains(c),
    ensures
        split(s + seq![c] + more, c, n + 1) == split(s, c, n).push(more),
    decreases n,
{
    let all = s + seq![c] + more;
    let k = run_len(s, other_than(c)) as int;
    lemma_run_len_holds(s, other_than(c));
    if n > 1 {
        assert(k < s.len());
        assert forall|i: int| 0 <= i < k implies other_than(c)(#[trigger] all[i]) by {
            assert(other_than(c)(s[i]));
        }
        assert(all[k] == s[k]);
        lemma_run_len(all, other_than(c), k);
        assert(all.take(k) == s.take(k));
        let rest = s.skip(k + 1);
        assert(all.skip(k + 1) == rest + seq![c] + more);
        let parts = split(rest, c, (n - 1) as nat);
        assert(split(s, c, n) == seq![s.take(k)] + parts);
        assert(split(s, c, n).last() == parts.last());
        lemma_split_appended(rest, c, (n - 1) as nat, more);
        assert(seq![s.take(k)] + parts.push(more) == (seq![s.take(k)] + parts).push(more));
    } else {
        assert(split(s, c, n)[0] == s);
        let len = s.len() as int;
        assert forall|i: int| 0 <= i < len implies other_than(c)(#[trigger] all[i]) by {
            assert(s.contains(s[i]));
        }
        assert(all[len] == c);
        lemma_run_len(all, other_than(c), len);
        assert(all.take(len) == s);
        assert(all.skip(len + 1) == more);
        assert(seq![s] + seq![more] == seq![s].push(more));
        assert(split(all, c, 2) == seq![s] + split(more, c, 1));
    }
}

/// A text is one part where it may be taken apart no further.
pub proof fn lemma_split_whole(s: Seq<char>, c: char)
    ensures
        split(s, c, 1) == seq![s],
{
}

} // verus!
