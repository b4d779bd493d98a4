//! Characters and parts of a text.

use vstd::prelude::*;
use vstd::string::*;

verus! {

/// Whether `c` is one of the ten decimal digits.
pub open spec fn is_digit(c: char) -> bool {
    '0' <= c <= '9'
}

/// How many digits stand in `text` from index `from` on, up to the first
/// character that is none (or the end).
pub open spec fn digit_run(text: Seq<char>, from: int) -> nat
    decreases text.len() - from,
{
    if 0 <= from < text.len() && is_digit(text[from]) {
        1 + digit_run(text, from + 1)
    } else {
        0
    }
}

/// Whether `c` is a letter of the Latin alphabet.
pub open spec fn is_letter(c: char) -> bool {
    'a' <= c <= 'z' || 'A' <= c <= 'Z'
}

/// Whether `c` separates tokens without being one: a space, a tab, a line
/// feed or a carriage return.
pub open spec fn is_space(c: char) -> bool {
    c == ' ' || c == '\t' || c == '\n' || c == '\r'
}

/// How many letters stand in `text` from index `from` on, up to the first
/// character that is none (or the end).
pub open spec fn letter_run(text: Seq<char>, from: int) -> nat
    decreases text.len() - from,
{
    if 0 <= from < text.len() && is_letter(text[from]) {
        1 + letter_run(text, from + 1)
    } else {
        0
    }
}

/// A run of digits ends within the text.
pub proof fn lemma_digit_run_bounds(text: Seq<char>, from: int)
    requires
        0 <= from <= text.len(),
    ensures
        from + digit_run(text, from) <= text.len(),
    decreases text.len() - from,
{
    if from < text.len() && is_digit(text[from]) {
        lemma_digit_run_bounds(text, from + 1);
    }
}

/// A run of letters ends within the text.
pub proof fn lemma_letter_run_bounds(text: Seq<char>, from: int)
    requires
        0 <= from <= text.len(),
    ensures
        from + letter_run(text, from) <= text.len(),
    decreases text.len() - from,
{
    if from < text.len() && is_letter(text[from]) {
        lemma_letter_run_bounds(text, from + 1);
    }
}

/// A run of digits in a part of the text is the run in the whole text, cut
/// off where the part ends.
pub proof fn lemma_digit_run_within(text: Seq<char>, lo: int, hi: int, from: int)
    requires
        0 <= lo <= from <= hi <= text.len(),
    ensures
        digit_run(text.subrange(lo, hi), from - lo) == if digit_run(text, from) <= hi - from {
            digit_run(text, from)
        } else {
            (hi - from) as nat
        },
    decreases hi - from,
{
    let part = text.subrange(lo, hi);
    if from < hi {
        assert(part[from - lo] == text[from]);
        if is_digit(text[from]) {
            lemma_digit_run_within(text, lo, hi, from + 1);
        }
    }
}

/// Whether `c` is one of the ten decimal digits.
pub fn is_digit_char(c: char) -> (b: bool)
    ensures
        b == is_digit(c),
{
    '0' <= c && c <= '9'
}

/// Whether `c` is a letter of the Latin alphabet.
pub fn is_letter_char(c: char) -> (b: bool)
    ensures
        b == is_letter(c),
{
    ('a' <= c && c <= 'z') || ('A' <= c && c <= 'Z')
}

/// Whether `c` separates tokens without being one.
pub fn is_space_char(c: char) -> (b: bool)
    ensures
        b == is_space(c),
{
    c == ' ' || c == '\t' || c == '\n' || c == '\r'
}

/// The characters of `source`, in order.
pub fn characters(source: &str) -> (chars: Vec<char>)
    ensures
        chars@ == source@,
{
    let mut chars: Vec<char> = Vec::new();
    for c in it: source.chars()
        invariant
            it.seq() == source@,
            chars@ == source@.take(it.index()),
    {
        assert(source@.take(it.index() + 1) =~= source@.take(it.index()).push(c));
        chars.push(c);
    }
    assert(source@.take(source@.len() as int) =~= source@);
    chars
}

/// The characters of `source` from index `from` up to index `to`. Where the
/// caller knows that `source` holds ASCII characters only and says so, no
/// character before `from` is read.
pub fn slice(source: &str, ascii: bool, from: usize, to: usize) -> (part: String)
    requires
        ascii ==> source.is_ascii(),
        from <= to <= source@.len(),
    ensures
        part@ == source@.subrange(from as int, to as int),
{
    if ascii {
        source.substring_ascii(from, to).to_owned()
    } else {
        source.substring_char(from, to).to_owned()
    }
}

/// The first index from `from` up to `to` at which `c` stands in `text`; `to`
/// where it stands at none of them.
pub open spec fn position(text: Seq<char>, c: char, from: int, to: int) -> int
    decreases to - from,
{
    if from >= to {
        to
    } else if text[from] == c {
        from
    } else {
        position(text, c, from + 1, to)
    }
}

/// How many spaces stand in `text` from index `from` on, before index `to`
/// and up to the first character that is none.
pub open spec fn leading_spaces(text: Seq<char>, from: int, to: int) -> nat
    decreases to - from,
{
    if from < to && is_space(text[from]) {
        1 + leading_spaces(text, from + 1, to)
    } else {
        0
    }
}

/// How many spaces stand in `text` before index `to`, back to index `from`
/// and down to the last character that is none.
pub open spec fn trailing_spaces(text: Seq<char>, from: int, to: int) -> nat
    decreases to - from,
{
    if from < to && is_space(text[to - 1]) {
        1 + trailing_spaces(text, from, to - 1)
    } else {
        0
    }
}

/// The index at which the part of `text` from `from` to `to` starts once the
/// spaces at its start are taken off.
pub open spec fn trimmed_start(text: Seq<char>, from: int, to: int) -> int {
    from + leading_spaces(text, from, to)
}

/// The index at which the part of `text` from `from` to `to` ends once the
/// spaces at its two ends are taken off.
pub open spec fn trimmed_end(text: Seq<char>, from: int, to: int) -> int {
    to - trailing_spaces(text, trimmed_start(text, from, to), to)
}

/// The part of `text` from `from` to `to`, without the spaces at its two
/// ends.
pub open spec fn trimmed(text: Seq<char>, from: int, to: int) -> Seq<char> {
    text.subrange(trimmed_start(text, from, to), trimmed_end(text, from, to))
}

/// Whether `text` is a word: one or more letters and nothing else.
pub open spec fn is_word(text: Seq<char>) -> bool {
    text.len() > 0 && forall|i: int| 0 <= i < text.len() ==> is_letter(#[trigger] text[i])
}

/// The characters of `text` that are no spaces, in order.
pub open spec fn without_spaces(text: Seq<char>) -> Seq<char>
    decreases text.len(),
{
    if text.len() == 0 {
        text
    } else if is_space(text.last()) {
        without_spaces(text.drop_last())
    } else {
        without_spaces(text.drop_last()).push(text.last())
    }
}

/// Finds the first `c` in `chars` from index `from` up to index `to`.
pub fn find(chars: &Vec<char>, c: char, from: usize, to: usize) -> (at: usize)
    requires
        to <= chars.len(),
    ensures
        at == position(chars@, c, from as int, to as int),
        from <= to ==> from <= at <= to,
        at < to ==> chars[at as int] == c,
{
    if from >= to {
        return to;
    }
    let mut at: usize = from;
    while at < to && chars[at] != c
        invariant
            from <= at <= to <= chars.len(),
            position(chars@, c, at as int, to as int) == position(chars@, c, from as int, to as int),
        decreases to - at,
    {
        at = at + 1;
    }
    at
}

/// The bounds of the part of `chars` from `from` to `to` once the spaces at
/// its two ends are taken off.
pub fn trim(chars: &Vec<char>, from: usize, to: usize) -> (bounds: (usize, usize))
    requires
        from <= to <= chars.len(),
    ensures
        bounds.0 == trimmed_start(chars@, from as int, to as int),
        bounds.1 == trimmed_end(chars@, from as int, to as int),
        from <= bounds.0 <= bounds.1 <= to,
{
    let mut start: usize = from;
    while start < to && is_space_char(chars[start])
        invariant
            from <= start <= to <= chars.len(),
            start + leading_spaces(chars@, start as int, to as int) == from + leading_spaces(
                chars@,
                from as int,
                to as int,
            ),
        decreases to - start,
    {
        start = start + 1;
    }
    let mut end: usize = to;
    while start < end && is_space_char(chars[end - 1])
        invariant
            start <= end <= to <= chars.len(),
            end - trailing_spaces(chars@, start as int, end as int) == to - trailing_spaces(
                chars@,
                start as int,
                to as int,
            ),
        decreases end - start,
    {
        end = end - 1;
    }
    (start, end)
}

/// Whether the part of `chars` from `from` to `to` is a word.
pub fn word_between(chars: &Vec<char>, from: usize, to: usize) -> (b: bool)
    requires
        from <= to <= chars.len(),
    ensures
        b == is_word(chars@.subrange(from as int, to as int)),
{
    let ghost part = chars@.subrange(from as int, to as int);
    if from == to {
        return false;
    }
    let mut at: usize = from;
    while at < to
        invariant
            from <= at <= to <= chars.len(),
            part == chars@.subrange(from as int, to as int),
            forall|i: int| 0 <= i < at - from ==> is_letter(#[trigger] part[i]),
        decreases to - at,
    {
        if !is_letter_char(chars[at]) {
            assert(part[at - from] == chars[at as int]);
            return false;
        }
        assert(part[at - from] == chars[at as int]);
        at = at + 1;
    }
    true
}

/// The text without its spaces.
pub fn strip_spaces(source: &str) -> (stripped: String)
    ensures
        stripped@ == without_spaces(source@),
{
    let chars = characters(source);
    let ascii = source.is_ascii();
    let mut stripped = String::new();
    let mut at: usize = 0;
    while at < chars.len()
        invariant
            at <= chars.len(),
            chars@ == source@,
            ascii ==> source.is_ascii(),
            stripped@ == without_spaces(source@.take(at as int)),
        decreases chars.len() - at,
    {
        proof {
            let longer = source@.take(at + 1);
            assert(longer.drop_last() =~= source@.take(at as int));
            assert(longer.last() == chars[at as int]);
        }
        if !is_space_char(chars[at]) {
            let one = slice(source, ascii, at, at + 1);
            assert(one@ =~= seq![chars[at as int]]);
            stripped.append(one.as_str());
            assert(stripped@ =~= without_spaces(source@.take(at as int)).push(chars[at as int]));
        }
        at = at + 1;
    }
    assert(source@.take(at as int) =~= source@);
    stripped
}

} // verus!
