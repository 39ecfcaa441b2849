//! Text primitives shared by the rest of the library: comparison, blank
//! detection, logical lines, joining and decimal numerals.
//!
//! Every contract is stated over `Seq<char>`, the view of `str` and `String`.

use vstd::prelude::*;
use vstd::string::StringExecFns;
use vstd::utf8::{encode_scalar, encode_utf8, encode_utf8_decode_utf8};

verus! {

/// `String::push`: the character is appended at the end and nothing else
/// changes.
#[verifier::external_body]
pub(crate) fn push_char(s: &mut String, c: char)
    ensures
        final(s)@ == old(s)@.push(c),
{
    s.push(c)
}

/// The characters of `s`, in order.
pub fn chars_of(s: &str) -> (v: Vec<char>)
    ensures
        v@ == s@,
{
    let mut v: Vec<char> = Vec::new();
    for c in it: s.chars()
        invariant
            it.seq() == s@,
            v@ == s@.take(it.index()),
    {
        v.push(c);
    }
    v
}

/// Every character takes at least one byte in UTF-8.
pub proof fn lemma_chars_fit_in_bytes(chars: Seq<char>)
    ensures
        chars.len() <= encode_utf8(chars).len(),
    decreases chars.len(),
{
    if chars.len() > 0 {
        lemma_chars_fit_in_bytes(chars.drop_first());
        assert(encode_scalar(chars[0] as u32).len() >= 1);
    }
}

/// Whether two texts hold the same characters.
pub fn same_text(a: &str, b: &str) -> (r: bool)
    ensures
        r == (a@ == b@),
{
    let x = a.as_bytes();
    let y = b.as_bytes();
    proof {
        encode_utf8_decode_utf8(a@);
        encode_utf8_decode_utf8(b@);
    }
    if x.len() != y.len() {
        return false;
    }
    let mut i: usize = 0;
    while i < x.len()
        invariant
            i <= x.len(),
            x.len() == y.len(),
            x@ == encode_utf8(a@),
            y@ == encode_utf8(b@),
            forall|j: int| 0 <= j < i ==> x@[j] == y@[j],
        decreases x.len() - i,
    {
        if x[i] != y[i] {
            return false;
        }
        i += 1;
    }
    assert(x@ =~= y@);
    true
}

/// The characters that Unicode classes as white space.
pub open spec fn is_white_space(c: char) -> bool {
    ||| '\u{9}' <= c <= '\u{d}'
    ||| c == ' '
    ||| c == '\u{85}'
    ||| c == '\u{a0}'
    ||| c == '\u{1680}'
    ||| '\u{2000}' <= c <= '\u{200a}'
    ||| c == '\u{2028}'
    ||| c == '\u{2029}'
    ||| c == '\u{202f}'
    ||| c == '\u{205f}'
    ||| c == '\u{3000}'
}

/// A text is blank when it holds nothing but white space; the empty text is
/// blank.
pub open spec fn blank(s: Seq<char>) -> bool {
    forall|i: int| 0 <= i < s.len() ==> is_white_space(#[trigger] s[i])
}

/// Whether `c` is white space, as `char::is_whitespace` tells it.
pub fn is_whitespace(c: char) -> (r: bool)
    ensures
        r == is_white_space(c),
{
    ('\u{9}' <= c && c <= '\u{d}') || c == ' ' || c == '\u{85}' || c == '\u{a0}' || c
        == '\u{1680}' || ('\u{2000}' <= c && c <= '\u{200a}') || c == '\u{2028}' || c
        == '\u{2029}' || c == '\u{202f}' || c == '\u{205f}' || c == '\u{3000}'
}

/// Whether trimming white space from both ends of `s` would leave nothing.
pub fn is_blank(s: &str) -> (r: bool)
    ensures
        r == blank(s@),
{
    for c in it: s.chars()
        invariant
            it.seq() == s@,
            blank(s@.take(it.index())),
    {
        if !is_whitespace(c) {
            return false;
        }
    }
    assert(s@.take(s@.len() as int) =~= s@);
    true
}

/// A text without the white space at its start.
pub open spec fn trim_start(s: Seq<char>) -> Seq<char>
    decreases s.len(),
{
    if s.len() > 0 && is_white_space(s[0]) {
        trim_start(s.drop_first())
    } else {
        s
    }
}

/// A text without the white space at its end.
pub open spec fn trim_end(s: Seq<char>) -> Seq<char>
    decreases s.len(),
{
    if s.len() > 0 && is_white_space(s.last()) {
        trim_end(s.drop_last())
    } else {
        s
    }
}

/// A text without the white space at its start and at its end.
pub open spec fn trimmed(s: Seq<char>) -> Seq<char> {
    trim_end(trim_start(s))
}

/// Trimming the start leaves what stands from the first character on that
/// is no white space.
pub proof fn lemma_trim_start(s: Seq<char>, from: int)
    requires
        0 <= from <= s.len(),
        forall|j: int| 0 <= j < from ==> is_white_space(s[j]),
        from < s.len() ==> !is_white_space(s[from]),
    ensures
        trim_start(s) == s.skip(from),
    decreases from,
{
    if from > 0 {
        let rest = s.drop_first();
        assert forall|j: int| 0 <= j < from - 1 implies is_white_space(rest[j]) by {
            assert(rest[j] == s[j + 1]);
        }
        lemma_trim_start(rest, from - 1);
    }
}

/// Trimming the end leaves what stands up to the last character that is no
/// white space.
pub proof fn lemma_trim_end(s: Seq<char>, to: int)
    requires
        0 <= to <= s.len(),
        forall|j: int| to <= j < s.len() ==> is_white_space(s[j]),
        to > 0 ==> !is_white_space(s[to - 1]),
    ensures
        trim_end(s) == s.take(to),
    decreases s.len() - to,
{
    if to < s.len() {
        lemma_trim_end(s.drop_last(), to);
    }
}

/// Trimming the end leaves the start of a text that begins with a character
/// that is no white space.
pub proof fn lemma_trim_end_keeps_start(s: Seq<char>)
    requires
        s.len() > 0,
        !is_white_space(s[0]),
    ensures
        trim_end(s).len() > 0,
        trim_end(s)[0] == s[0],
    decreases s.len(),
{
    if is_white_space(s.last()) {
        lemma_trim_end_keeps_start(s.drop_last());
    }
}

/// Whether the last character of `s` is `c`.
pub fn ends_with_char(s: &str, c: char) -> (r: bool)
    ensures
        r == (s@.len() > 0 && s@.last() == c),
{
    let mut last: Option<char> = None;
    for x in it: s.chars()
        invariant
            it.seq() == s@,
            last == if it.index() == 0 {
                None::<char>
            } else {
                Some(s@[it.index() - 1])
            },
    {
        last = Some(x);
    }
    match last {
        Some(x) => x == c,
        None => false,
    }
}

/// Position of the first line feed of `s`, or the length of `s` where it
/// holds none.
pub open spec fn line_end(s: Seq<char>) -> nat
    decreases s.len(),
{
    if s.len() == 0 || s[0] == '\n' {
        0
    } else {
        1 + line_end(s.drop_first())
    }
}

/// A line without the carriage return that may stand before its line feed.
pub open spec fn without_trailing_cr(line: Seq<char>) -> Seq<char> {
    if line.len() > 0 && line.last() == '\r' {
        line.drop_last()
    } else {
        line
    }
}

/// The logical lines of a text. A line ends at a line feed; one carriage
/// return directly before the line feed belongs to the line ending. The last
/// line needs no line feed, and is then kept as it stands. The empty text has
/// no line.
pub open spec fn lines_of(s: Seq<char>) -> Seq<Seq<char>>
    decreases s.len(),
{
    if s.len() == 0 {
        Seq::empty()
    } else {
        let end = line_end(s);
        if end >= s.len() {
            seq![s]
        } else {
            seq![without_trailing_cr(s.take(end as int))] + lines_of(s.skip(end as int + 1))
        }
    }
}

/// `line_end` is the only position before which no line feed stands and at
/// which one does, or the text ends.
pub proof fn lemma_line_end_is(s: Seq<char>, k: int)
    requires
        0 <= k <= s.len(),
        forall|j: int| 0 <= j < k ==> s[j] != '\n',
        k < s.len() ==> s[k] == '\n',
    ensures
        line_end(s) == k,
    decreases s.len(),
{
    if k > 0 {
        let rest = s.drop_first();
        assert forall|j: int| 0 <= j < k - 1 implies rest[j] != '\n' by {
            assert(rest[j] == s[j + 1]);
        }
        lemma_line_end_is(rest, k - 1);
    }
}

/// The lines of a text that holds no line feed from `start` to `end` and
/// has one at `end`.
proof fn lemma_lines_step(s: Seq<char>, start: int, end: int)
    requires
        0 <= start <= end < s.len(),
        forall|j: int| start <= j < end ==> s[j] != '\n',
        s[end] == '\n',
    ensures
        lines_of(s.skip(start)) == seq![without_trailing_cr(s.subrange(start, end))] + lines_of(
            s.skip(end + 1),
        ),
{
    let tail = s.skip(start);
    lemma_line_end_is(tail, end - start);
    assert(tail.take(end - start) =~= s.subrange(start, end));
    assert(tail.skip(end - start + 1) =~= s.skip(end + 1));
}

/// The lines of a text that holds no line feed from `start` on.
proof fn lemma_lines_last(s: Seq<char>, start: int)
    requires
        0 <= start <= s.len(),
        forall|j: int| start <= j < s.len() ==> s[j] != '\n',
    ensures
        lines_of(s.skip(start)) == if start == s.len() {
            Seq::<Seq<char>>::empty()
        } else {
            seq![s.skip(start)]
        },
{
    let tail = s.skip(start);
    lemma_line_end_is(tail, tail.len() as int);
}

/// The logical lines of `s`, as `str::lines` yields them.
pub fn split_lines(s: &str) -> (lines: Vec<String>)
    ensures
        lines.deep_view() == lines_of(s@),
{
    let mut lines: Vec<String> = Vec::new();
    let mut cur = String::new();
    let mut pending_cr = false;
    let ghost mut start: int = 0;
    assert(s@.skip(0) =~= s@);
    for c in it: s.chars()
        invariant
            it.seq() == s@,
            0 <= start <= it.index(),
            lines_of(s@) == lines.deep_view() + lines_of(s@.skip(start)),
            forall|j: int| start <= j < it.index() ==> s@[j] != '\n',
            s@.subrange(start, it.index()) == if pending_cr {
                cur@.push('\r')
            } else {
                cur@
            },
            !pending_cr ==> cur@.len() == 0 || cur@.last() != '\r',
    {
        let ghost i = it.index();
        if c == '\n' {
            proof {
                lemma_lines_step(s@, start, i);
                assert(without_trailing_cr(s@.subrange(start, i)) =~= cur@);
            }
            lines.push(cur);
            cur = String::new();
            pending_cr = false;
            proof {
                start = i + 1;
            }
        } else {
            if pending_cr {
                push_char(&mut cur, '\r');
            }
            if c == '\r' {
                pending_cr = true;
            } else {
                push_char(&mut cur, c);
                pending_cr = false;
            }
        }
    }
    if pending_cr {
        push_char(&mut cur, '\r');
    }
    proof {
        lemma_lines_last(s@, start);
    }
    if !cur.as_str().is_empty() {
        lines.push(cur);
    }
    lines
}

/// The number of logical lines of `s`.
pub fn count_lines(s: &str) -> (n: usize)
    ensures
        n == lines_of(s@).len(),
{
    let mut n: usize = 0;
    let mut open = false;
    let ghost mut start: int = 0;
    proof {
        lemma_chars_fit_in_bytes(s@);
    }
    let bytes = s.as_bytes().len();
    assert(s@.skip(0) =~= s@);
    for c in it: s.chars()
        invariant
            it.seq() == s@,
            s@.len() <= bytes,
            0 <= start <= it.index(),
            n <= start,
            lines_of(s@).len() == n + lines_of(s@.skip(start)).len(),
            forall|j: int| start <= j < it.index() ==> s@[j] != '\n',
            open == (start < it.index()),
    {
        let ghost i = it.index();
        if c == '\n' {
            proof {
                lemma_lines_step(s@, start, i);
                start = i + 1;
            }
            n += 1;
            open = false;
        } else {
            open = true;
        }
    }
    proof {
        lemma_lines_last(s@, start);
    }
    if open {
        n += 1;
    }
    n
}

/// The parts in order, with `sep` between each two of them.
pub open spec fn joined(parts: Seq<Seq<char>>, sep: char) -> Seq<char>
    decreases parts.len(),
{
    if parts.len() == 0 {
        Seq::empty()
    } else if parts.len() == 1 {
        parts[0]
    } else {
        joined(parts.drop_last(), sep).push(sep) + parts.last()
    }
}

/// The lines joined by single line feeds, with none after the last.
pub open spec fn join_lines(lines: Seq<Seq<char>>) -> Seq<char> {
    joined(lines, '\n')
}

/// Appends `parts[from..to]`, joined by `sep`, to `out`.
pub fn push_joined(out: &mut String, parts: &Vec<String>, from: usize, to: usize, sep: char)
    requires
        from <= to <= parts.len(),
    ensures
        final(out)@ == old(out)@ + joined(parts.deep_view().subrange(from as int, to as int), sep),
{
    let mut i: usize = from;
    let ghost all = parts.deep_view();
    while i < to
        invariant
            from <= i <= to <= parts.len(),
            all == parts.deep_view(),
            out@ == old(out)@ + joined(all.subrange(from as int, i as int), sep),
        decreases to - i,
    {
        if i > from {
            push_char(out, sep);
        }
        out.append(parts[i].as_str());
        assert(all.subrange(from as int, i + 1).drop_last() =~= all.subrange(
            from as int,
            i as int,
        ));
        i += 1;
    }
}

/// The character of a decimal digit.
pub open spec fn digit_char(d: nat) -> char {
    if d == 0 {
        '0'
    } else if d == 1 {
        '1'
    } else if d == 2 {
        '2'
    } else if d == 3 {
        '3'
    } else if d == 4 {
        '4'
    } else if d == 5 {
        '5'
    } else if d == 6 {
        '6'
    } else if d == 7 {
        '7'
    } else if d == 8 {
        '8'
    } else {
        '9'
    }
}

/// The decimal numeral of `n`, without sign or leading zero.
pub open spec fn decimal_text(n: nat) -> Seq<char>
    decreases n,
{
    if n < 10 {
        seq![digit_char(n)]
    } else {
        decimal_text(n / 10).push(digit_char(n % 10))
    }
}

/// The character of the digit `d`.
fn digit(d: u64) -> (c: char)
    requires
        d < 10,
    ensures
        c == digit_char(d as nat),
{
    if d == 0 {
        '0'
    } else if d == 1 {
        '1'
    } else if d == 2 {
        '2'
    } else if d == 3 {
        '3'
    } else if d == 4 {
        '4'
    } else if d == 5 {
        '5'
    } else if d == 6 {
        '6'
    } else if d == 7 {
        '7'
    } else if d == 8 {
        '8'
    } else {
        '9'
    }
}

/// Appends the decimal numeral of `n` to `out`.
pub fn push_decimal(out: &mut String, n: u64)
    ensures
        final(out)@ == old(out)@ + decimal_text(n as nat),
{
    let mut low: Vec<char> = Vec::new();
    let mut rest: u64 = n;
    let ghost mut tail: Seq<char> = Seq::empty();
    while rest >= 10
        invariant
            decimal_text(n as nat) == decimal_text(rest as nat) + tail,
            low@.len() == tail.len(),
            forall|k: int| 0 <= k < tail.len() ==> low@[k] == tail[tail.len() - 1 - k],
        decreases rest,
    {
        let c = digit(rest % 10);
        proof {
            let longer = seq![c] + tail;
            assert(decimal_text((rest / 10) as nat).push(c) + tail =~= decimal_text(
                (rest / 10) as nat,
            ) + longer);
            tail = longer;
        }
        low.push(c);
        rest = rest / 10;
    }
    push_char(out, digit(rest));
    let mut k: usize = low.len();
    while k > 0
        invariant
            k <= low.len(),
            low@.len() == tail.len(),
            forall|j: int| 0 <= j < tail.len() ==> low@[j] == tail[tail.len() - 1 - j],
            out@ == old(out)@ + decimal_text(rest as nat) + tail.take(tail.len() - k),
        decreases k,
    {
        k -= 1;
        push_char(out, low[k]);
    }
    assert(old(out)@ + decimal_text(rest as nat) + tail =~= old(out)@ + (decimal_text(
        rest as nat,
    ) + tail));
}

/// The decimal numeral of `n`.
pub fn decimal(n: u64) -> (s: String)
    ensures
        s@ == decimal_text(n as nat),
{
    let mut s = String::new();
    push_decimal(&mut s, n);
    s
}

} // verus!
