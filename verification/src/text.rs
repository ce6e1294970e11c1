//! Text: white space, lines, and the steps between strings and characters.
use vstd::prelude::*;
use vstd::slice::slice_subrange;
use vstd::utf8::{
    decode_utf8, encode_utf8, encode_utf8_decode_utf8, encode_utf8_valid_utf8, valid_utf8,
};

verus! {

/// Whether a character has the Unicode property White_Space.
pub open spec fn is_space(c: char) -> bool {
    ||| '\u{9}' <= c <= '\u{d}'
    ||| c == '\u{20}'
    ||| c == '\u{85}'
    ||| c == '\u{a0}'
    ||| c == '\u{1680}'
    ||| '\u{2000}' <= c <= '\u{200a}'
    ||| c == '\u{2028}'
    ||| c == '\u{2029}'
    ||| c == '\u{202f}'
    ||| c == '\u{205f}'
    ||| c == '\u{3000}'
}

/// Whether a character is white space.
pub fn is_whitespace(c: char) -> (space: bool)
    ensures
        space == is_space(c),
{
    (c >= '\u{9}' && c <= '\u{d}') || c == '\u{20}' || c == '\u{85}' || c == '\u{a0}' || c
        == '\u{1680}' || (c >= '\u{2000}' && c <= '\u{200a}') || c == '\u{2028}' || c == '\u{2029}'
        || c == '\u{202f}' || c == '\u{205f}' || c == '\u{3000}'
}

/// A text without the white space at its front.
pub open spec fn trim_front(text: Seq<char>) -> Seq<char>
    decreases text.len(),
{
    if text.len() > 0 && is_space(text[0]) {
        trim_front(text.drop_first())
    } else {
        text
    }
}

/// A text without the white space at its end.
pub open spec fn trim_back(text: Seq<char>) -> Seq<char>
    decreases text.len(),
{
    if text.len() > 0 && is_space(text.last()) {
        trim_back(text.drop_last())
    } else {
        text
    }
}

/// A text without the white space around it.
pub open spec fn trimmed(text: Seq<char>) -> Seq<char> {
    trim_back(trim_front(text))
}

/// Removes the white space around a text.
pub fn trim(text: &[char]) -> (inner: &[char])
    ensures
        inner@ == trimmed(text@),
{
    let mut from: usize = 0;
    assert(text@.skip(0) =~= text@);
    while from < text.len() && is_whitespace(text[from])
        invariant
            from <= text@.len(),
            trim_front(text@) == trim_front(text@.skip(from as int)),
        decreases text@.len() - from,
    {
        assert(text@.skip(from as int).drop_first() =~= text@.skip(from + 1));
        from = from + 1;
    }
    let mut to: usize = text.len();
    assert(trim_front(text@) == text@.skip(from as int));
    assert(text@.subrange(from as int, to as int) =~= text@.skip(from as int));
    while to > from && is_whitespace(text[to - 1])
        invariant
            from <= to <= text@.len(),
            trimmed(text@) == trim_back(text@.subrange(from as int, to as int)),
        decreases to,
    {
        assert(text@.subrange(from as int, to as int).drop_last() =~= text@.subrange(
            from as int,
            to - 1,
        ));
        to = to - 1;
    }
    slice_subrange(text, from, to)
}

/// Trimming the end leaves a front part that ends in no white space.
pub proof fn trim_back_is_front_part(text: Seq<char>)
    ensures
        trim_back(text).len() <= text.len(),
        trim_back(text) == text.take(trim_back(text).len() as int),
        trim_back(text).len() > 0 ==> !is_space(trim_back(text).last()),
    decreases text.len(),
{
    if text.len() > 0 && is_space(text.last()) {
        trim_back_is_front_part(text.drop_last());
        let n = trim_back(text).len() as int;
        assert(text.drop_last().take(n) =~= text.take(n));
    } else {
        assert(text.take(text.len() as int) =~= text);
    }
}

/// Trimming the front leaves an end part that starts with no white space.
pub proof fn trim_front_is_end_part(text: Seq<char>)
    ensures
        trim_front(text).len() <= text.len(),
        trim_front(text) == text.skip(text.len() - trim_front(text).len()),
        trim_front(text).len() > 0 ==> !is_space(trim_front(text)[0]),
    decreases text.len(),
{
    if text.len() > 0 && is_space(text[0]) {
        trim_front_is_end_part(text.drop_first());
        let n = trim_front(text).len() as int;
        assert(text.drop_first().skip(text.len() - 1 - n) =~= text.skip(text.len() - n));
    } else {
        assert(text.skip(0) =~= text);
    }
}

/// What stands up to a character that is no white space stays when the end is
/// trimmed.
pub proof fn trim_back_keeps_front(front: Seq<char>, end: Seq<char>)
    requires
        front.len() > 0,
        !is_space(front.last()),
    ensures
        trim_back(front + end) == front + trim_back(end),
    decreases end.len(),
{
    let text = front + end;
    if end.len() == 0 {
        assert(text =~= front);
        assert(front + trim_back(end) =~= front);
    } else if is_space(end.last()) {
        assert(text.drop_last() =~= front + end.drop_last());
        trim_back_keeps_front(front, end.drop_last());
    }
}

/// Trimming the end of a text behind one more character trims the text, and the
/// character too when nothing but white space is left.
pub proof fn trim_back_behind_char(c: char, end: Seq<char>)
    ensures
        trim_back(seq![c] + end) == if trim_back(end).len() == 0 && is_space(c) {
            Seq::<char>::empty()
        } else {
            seq![c] + trim_back(end)
        },
    decreases end.len(),
{
    let text = seq![c] + end;
    if end.len() == 0 {
        assert(text =~= seq![c]);
        assert(text.drop_last() =~= Seq::<char>::empty());
        assert(trim_back(Seq::<char>::empty()) =~= Seq::<char>::empty());
        assert(seq![c] + trim_back(end) =~= seq![c]);
    } else if is_space(end.last()) {
        assert(text.drop_last() =~= seq![c] + end.drop_last());
        trim_back_behind_char(c, end.drop_last());
    }
}

/// The front and the end may be trimmed in either order.
pub proof fn trimming_commutes(text: Seq<char>)
    ensures
        trim_front(trim_back(text)) == trimmed(text),
    decreases text.len(),
{
    if text.len() == 0 {
    } else if is_space(text[0]) {
        let rest = text.drop_first();
        assert(text =~= seq![text[0]] + rest);
        trimming_commutes(rest);
        trim_back_behind_char(text[0], rest);
        if trim_back(rest).len() > 0 {
            assert((seq![text[0]] + trim_back(rest)).drop_first() =~= trim_back(rest));
        } else {
            assert(trim_back(rest) =~= Seq::<char>::empty());
        }
    } else {
        let rest = text.drop_first();
        assert(text =~= seq![text[0]] + rest);
        trim_back_behind_char(text[0], rest);
        assert((seq![text[0]] + trim_back(rest))[0] == text[0]);
    }
}

/// Trimming a text that has no white space around it changes nothing.
pub proof fn trimming_is_idempotent(text: Seq<char>)
    ensures
        trimmed(trimmed(text)) == trimmed(text),
        trimmed(trim_back(text)) == trimmed(text),
{
    trimming_commutes(text);
    let inner = trimmed(text);
    trim_back_is_front_part(trim_front(text));
    trim_front_is_end_part(trim_back(text));
    assert(trim_front(inner) == inner);
    assert(trim_back(inner) == inner);
    trimming_commutes(trim_back(text));
    trim_back_is_front_part(text);
    assert(trim_back(trim_back(text)) == trim_back(text));
}

/// Whether a text holds nothing but white space.
pub open spec fn blank(text: Seq<char>) -> bool {
    forall|i: int| 0 <= i < text.len() ==> is_space(#[trigger] text[i])
}

/// White space in front of a text does not matter when it is trimmed.
pub proof fn blank_front_is_trimmed(front: Seq<char>, text: Seq<char>)
    requires
        blank(front),
    ensures
        trimmed(front + text) == trimmed(text),
    decreases front.len(),
{
    if front.len() == 0 {
        assert(front + text =~= text);
    } else {
        let rest = front.drop_first();
        assert(is_space(front[0]));
        assert forall|i: int| 0 <= i < rest.len() implies is_space(#[trigger] rest[i]) by {
            assert(rest[i] == front[i + 1]);
        }
        assert((front + text).drop_first() =~= rest + text);
        blank_front_is_trimmed(rest, text);
    }
}

/// The place of the first white space of a text, or its length.
pub open spec fn first_space(text: Seq<char>) -> int
    decreases text.len(),
{
    if text.len() == 0 || is_space(text[0]) {
        0
    } else {
        1 + first_space(text.drop_first())
    }
}

/// Finds the first white space of a text.
pub fn find_space(text: &[char]) -> (at: usize)
    ensures
        at == first_space(text@),
        at <= text@.len(),
{
    let mut at: usize = 0;
    assert(text@.skip(0) =~= text@);
    while at < text.len() && !is_whitespace(text[at])
        invariant
            at <= text@.len(),
            first_space(text@) == at + first_space(text@.skip(at as int)),
        decreases text@.len() - at,
    {
        assert(text@.skip(at as int).drop_first() =~= text@.skip(at + 1));
        at = at + 1;
    }
    at
}

/// The lines of a text: what stands before, between and behind its line feeds.
pub open spec fn lines_of(text: Seq<char>) -> Seq<Seq<char>>
    decreases text.len(),
{
    if text.len() == 0 {
        seq![Seq::<char>::empty()]
    } else {
        let before = lines_of(text.drop_last());
        if text.last() == '\n' {
            before.push(Seq::<char>::empty())
        } else {
            before.drop_last().push(before.last().push(text.last()))
        }
    }
}

/// A text has at least one line.
pub proof fn some_line(text: Seq<char>)
    ensures
        lines_of(text).len() > 0,
    decreases text.len(),
{
    if text.len() > 0 {
        some_line(text.drop_last());
    }
}

/// Putting one text behind another joins the last line of the one and the first
/// line of the other.
pub proof fn lines_join(text: Seq<char>, more: Seq<char>)
    ensures
        lines_of(text + more) == lines_of(text).drop_last().push(
            lines_of(text).last() + lines_of(more)[0],
        ) + lines_of(more).skip(1),
    decreases more.len(),
{
    let before = lines_of(text);
    some_line(text);
    some_line(more);
    if more.len() == 0 {
        assert(text + more =~= text);
        assert(lines_of(more)[0] =~= Seq::<char>::empty());
        assert(before.last() + lines_of(more)[0] =~= before.last());
        assert(before.drop_last().push(before.last()) + lines_of(more).skip(1) =~= before);
    } else {
        let front = more.drop_last();
        let lines = lines_of(front);
        some_line(front);
        lines_join(text, front);
        assert((text + more).drop_last() =~= text + front);
        assert((text + more).last() == more.last());
        let joined = before.drop_last().push(before.last() + lines[0]) + lines.skip(1);
        let whole = before.drop_last().push(before.last() + lines_of(more)[0]) + lines_of(
            more,
        ).skip(1);
        if more.last() == '\n' {
            assert(joined.push(Seq::<char>::empty()) =~= whole);
        } else if lines.len() == 1 {
            let line = (before.last() + lines[0]).push(more.last());
            assert(joined.last() == before.last() + lines[0]);
            assert(lines.last() == lines[0]);
            assert(line =~= before.last() + lines_of(more)[0]);
            assert(joined.drop_last().push(line) =~= whole);
        } else {
            assert(joined.last() == lines.last());
            assert(joined.drop_last().push(lines.last().push(more.last())) =~= whole);
        }
    }
}

/// A text without a line feed is one line.
pub proof fn one_line(text: Seq<char>)
    requires
        !text.contains('\n'),
    ensures
        lines_of(text) == seq![text],
    decreases text.len(),
{
    if text.len() == 0 {
        assert(text =~= Seq::<char>::empty());
    } else {
        let front = text.drop_last();
        assert(text[text.len() - 1] != '\n');
        assert forall|i: int| 0 <= i < front.len() implies front[i] != '\n' by {
            assert(front[i] == text[i]);
        }
        one_line(front);
        assert(front.push(text.last()) =~= text);
        assert(lines_of(text) =~= seq![text]);
    }
}

/// No line holds a line feed.
pub proof fn lines_hold_no_line_feed(text: Seq<char>, i: int)
    requires
        0 <= i < lines_of(text).len(),
    ensures
        !lines_of(text)[i].contains('\n'),
    decreases text.len(),
{
    if text.len() > 0 {
        let before = lines_of(text.drop_last());
        some_line(text.drop_last());
        if i < before.len() - 1 || text.last() == '\n' && i < before.len() {
            lines_hold_no_line_feed(text.drop_last(), i);
        } else if text.last() != '\n' {
            lines_hold_no_line_feed(text.drop_last(), before.len() - 1);
            let line = before.last().push(text.last());
            assert forall|j: int| 0 <= j < line.len() implies line[j] != '\n' by {
                if j < before.last().len() {
                    assert(line[j] == before.last()[j]);
                }
            }
        }
    }
}

/// The contents of a vector of texts.
pub open spec fn texts_of(lines: Seq<Vec<char>>) -> Seq<Seq<char>> {
    lines.map_values(|line: Vec<char>| line@)
}

/// Splits a text into its lines.
pub fn split_lines(text: &[char]) -> (lines: Vec<Vec<char>>)
    ensures
        texts_of(lines@) == lines_of(text@),
        lines@.len() == lines_of(text@).len(),
        forall|i: int| 0 <= i < lines@.len() ==> #[trigger] lines@[i]@ == lines_of(text@)[i],
{
    let mut lines: Vec<Vec<char>> = Vec::new();
    let mut current: Vec<char> = Vec::new();
    let mut i: usize = 0;
    assert(texts_of(lines@).push(current@) =~= lines_of(text@.take(0)));
    while i < text.len()
        invariant
            i <= text@.len(),
            texts_of(lines@).push(current@) == lines_of(text@.take(i as int)),
        decreases text@.len() - i,
    {
        let ghost before = texts_of(lines@);
        let ghost open_line = current@;
        assert(text@.take(i + 1).drop_last() =~= text@.take(i as int));
        assert(before.push(open_line).drop_last() =~= before);
        if text[i] == '\n' {
            lines.push(current);
            current = Vec::new();
            assert(texts_of(lines@) =~= before.push(open_line));
        } else {
            current.push(text[i]);
        }
        i = i + 1;
        assert(texts_of(lines@).push(current@) =~= lines_of(text@.take(i as int)));
    }
    assert(text@.take(text@.len() as int) =~= text@);
    let ghost before = texts_of(lines@);
    let ghost open_line = current@;
    lines.push(current);
    assert(texts_of(lines@) =~= before.push(open_line));
    assert forall|j: int| 0 <= j < lines@.len() implies #[trigger] lines@[j]@ == lines_of(
        text@,
    )[j] by {
        assert(texts_of(lines@)[j] == lines@[j]@);
    }
    lines
}

/// The characters of a string.
pub fn chars_of(text: &str) -> (chars: Vec<char>)
    ensures
        chars@ == text@,
{
    let mut chars: Vec<char> = Vec::new();
    for c in iter: text.chars()
        invariant
            iter.seq() == text@,
            chars@ == text@.take(iter.index()),
    {
        assert(text@.take(iter.index() + 1) =~= text@.take(iter.index()).push(c));
        chars.push(c);
    }
    assert(text@.take(text@.len() as int) =~= text@);
    chars
}

/// `String::push`. Claimed of it: it appends the character.
pub assume_specification[ String::push ](text: &mut String, c: char)
    ensures
        final(text)@ == old(text)@.push(c),
;

/// The string of some characters.
pub fn string_of(chars: &[char]) -> (text: String)
    ensures
        text@ == chars@,
{
    let mut text = String::new();
    let mut i: usize = 0;
    while i < chars.len()
        invariant
            i <= chars@.len(),
            text@ == chars@.take(i as int),
        decreases chars@.len() - i,
    {
        text.push(chars[i]);
        assert(chars@.take(i + 1) =~= chars@.take(i as int).push(chars@[i as int]));
        i = i + 1;
    }
    assert(chars@.take(chars@.len() as int) =~= chars@);
    text
}

/// The text of bytes that are no valid UTF-8, their invalid parts replaced.
pub uninterp spec fn utf8_repaired(data: Seq<u8>) -> Seq<char>;

/// The text of some bytes: what they encode in UTF-8, or a repaired text.
pub open spec fn utf8_lossy(data: Seq<u8>) -> Seq<char> {
    if valid_utf8(data) {
        decode_utf8(data)
    } else {
        utf8_repaired(data)
    }
}

/// `String::from_utf8_lossy`. Claimed of it: it gives the text that valid UTF-8
/// encodes, and of other bytes a text that depends on them alone.
#[verifier::external_body]
pub(crate) fn from_utf8_lossy(data: &[u8]) -> (text: String)
    ensures
        valid_utf8(data@) ==> text@ == decode_utf8(data@),
        !valid_utf8(data@) ==> text@ == utf8_repaired(data@),
{
    String::from_utf8_lossy(data).to_string()
}

/// The first white space of a text stands behind all that is none.
pub proof fn first_space_behind(front: Seq<char>, end: Seq<char>)
    requires
        forall|i: int| 0 <= i < front.len() ==> !is_space(#[trigger] front[i]),
        end.len() == 0 || is_space(end[0]),
    ensures
        first_space(front + end) == front.len(),
    decreases front.len(),
{
    if front.len() == 0 {
        assert(front + end =~= end);
    } else {
        assert((front + end).drop_first() =~= front.drop_first() + end);
        assert forall|i: int| 0 <= i < front.drop_first().len() implies !is_space(
            #[trigger] front.drop_first()[i],
        ) by {
            assert(front.drop_first()[i] == front[i + 1]);
        }
        first_space_behind(front.drop_first(), end);
    }
}

/// The first white space of a text stands in it or, if there is none, at its end.
pub proof fn first_space_in_range(text: Seq<char>)
    ensures
        0 <= first_space(text) <= text.len(),
        first_space(text) < text.len() ==> is_space(text[first_space(text)]),
        forall|i: int| 0 <= i < first_space(text) ==> !is_space(#[trigger] text[i]),
    decreases text.len(),
{
    if text.len() > 0 && !is_space(text[0]) {
        let rest = text.drop_first();
        first_space_in_range(rest);
        assert forall|i: int| 0 <= i < first_space(text) implies !is_space(
            #[trigger] text[i],
        ) by {
            if i > 0 {
                assert(rest[i - 1] == text[i]);
            }
        }
    }
}

/// White space around a text, of whatever length and kind, is what trimming takes
/// off, and nothing else: the text that is left starts and ends in no white space.
pub proof fn trimming_takes_white_space_off(
    front: Seq<char>,
    inner: Seq<char>,
    end: Seq<char>,
)
    requires
        blank(front),
        blank(end),
        inner.len() > 0 ==> !is_space(inner[0]) && !is_space(inner.last()),
    ensures
        trimmed(front + inner + end) == inner,
{
    let empty = Seq::<char>::empty();
    assert(front + inner + end =~= front + (inner + end));
    blank_front_is_trimmed(front, inner + end);
    blank_front_is_trimmed(end, empty);
    assert(end + empty =~= end);
    assert(trimmed(empty) =~= empty);
    if inner.len() == 0 {
        assert(inner + end =~= end);
        assert(inner =~= empty);
    } else {
        blank_end_is_trimmed(end);
        assert(trim_front(inner + end) == inner + end);
        trim_back_keeps_front(inner, end);
        assert(inner + empty =~= inner);
    }
}

proof fn blank_end_is_trimmed(end: Seq<char>)
    requires
        blank(end),
    ensures
        trim_back(end) == Seq::<char>::empty(),
    decreases end.len(),
{
    if end.len() > 0 {
        let front = end.drop_last();
        assert(is_space(end[end.len() - 1]));
        assert forall|i: int| 0 <= i < front.len() implies is_space(#[trigger] front[i]) by {
            assert(front[i] == end[i]);
        }
        blank_end_is_trimmed(front);
    } else {
        assert(end =~= Seq::<char>::empty());
    }
}

/// A line feed ends the line before it and starts the next: what stands behind the
/// last line feed of a text is its last line, and what stands before it has the
/// lines that it has on its own.
pub proof fn line_feeds_part_lines(text: Seq<char>, line: Seq<char>)
    requires
        !line.contains('\n'),
    ensures
        lines_of(line) == seq![line],
        lines_of(text.push('\n') + line) == lines_of(text).push(line),
{
    one_line(line);
    lines_join(text.push('\n'), line);
    assert(text.push('\n').drop_last() =~= text);
    assert(lines_of(text.push('\n')) == lines_of(text).push(Seq::empty()));
    assert(Seq::<char>::empty() + line =~= line);
    assert(lines_of(text).push(Seq::empty()).drop_last() =~= lines_of(text));
    assert(lines_of(text).push(line) + seq![line].skip(1) =~= lines_of(text).push(line));
}

/// The text of bytes is what they encode, where they are UTF-8, so that the bytes
/// of a text give the text back; other bytes give the repaired text.
pub proof fn bytes_of_a_text_are_read(data: Seq<u8>, text: Seq<char>)
    ensures
        valid_utf8(data) ==> utf8_lossy(data) == decode_utf8(data),
        !valid_utf8(data) ==> utf8_lossy(data) == utf8_repaired(data),
        utf8_lossy(encode_utf8(text)) == text,
{
    encode_utf8_valid_utf8(text);
    encode_utf8_decode_utf8(text);
}

/// The texts of some vectors are theirs, one for one.
pub proof fn texts_are_their_own(lines: Seq<Vec<char>>)
    ensures
        texts_of(lines).len() == lines.len(),
        forall|i: int| 0 <= i < lines.len() ==> #[trigger] texts_of(lines)[i] == lines[i]@,
{
}

} // verus!
