//! Text as sequences of characters.
//!
//! Every string of the crate is specified by its characters. This module holds
//! the vocabulary the other modules state their contracts in (trimming,
//! splitting, joining, decimal and hexadecimal digits) and the functions that
//! compute it.

use vstd::prelude::*;

verus! {

/// `str`'s `==` from the standard library: two strings are equal exactly when
/// they hold the same characters.
pub assume_specification[ <str as PartialEq>::eq ](a: &str, b: &str) -> (res: bool)
    ensures
        res == (a@ == b@),
;

/// `String::push` from the standard library: appends one character.
pub assume_specification[ std::string::String::push ](target: &mut std::string::String, c: char)
    ensures
        final(target)@ == old(target)@.push(c),
;

/// Whether two strings hold the same characters.
pub fn same(a: &str, b: &str) -> (res: bool)
    ensures
        res == (a@ == b@),
{
    *a == *b
}

/// The characters each string of a list holds.
pub open spec fn texts(list: Seq<String>) -> Seq<Seq<char>> {
    Seq::new(list.len(), |i: int| list[i]@)
}

/// The characters of a string, one by one.
pub fn chars_of(text: &str) -> (res: Vec<char>)
    ensures
        res@ == text@,
{
    let mut out: Vec<char> = Vec::new();
    for c in it: text.chars()
        invariant
            it.seq() == text@,
            out@ == text@.take(it.index() as int),
    {
        assert(text@.take(it.index() + 1) == text@.take(it.index() as int).push(c));
        out.push(c);
    }
    assert(text@.take(text@.len() as int) == text@);
    out
}

/// The string that holds the given characters.
pub fn string_of(chars: &[char]) -> (res: String)
    ensures
        res@ == chars@,
{
    let mut out = String::new();
    let mut i: usize = 0;
    while i < chars.len()
        invariant
            i <= chars.len(),
            out@ == chars@.take(i as int),
        decreases chars.len() - i,
    {
        assert(chars@.take(i + 1) == chars@.take(i as int).push(chars@[i as int]));
        out.push(chars[i]);
        i += 1;
    }
    assert(chars@.take(chars@.len() as int) == chars@);
    out
}

/// Whether one text comes before another in dictionary order of code points.
pub open spec fn text_before(a: Seq<char>, b: Seq<char>) -> bool {
    text_before_from(a, b, 0)
}

pub open spec fn text_before_from(a: Seq<char>, b: Seq<char>, at: int) -> bool
    decreases b.len() - at,
{
    if at >= b.len() {
        false
    } else if at >= a.len() {
        true
    } else if a[at] == b[at] {
        text_before_from(a, b, at + 1)
    } else {
        a[at] < b[at]
    }
}

proof fn order_from(a: Seq<char>, b: Seq<char>, c: Seq<char>, at: int)
    requires
        0 <= at <= a.len(),
        at <= b.len(),
        at <= c.len(),
        forall|i: int| 0 <= i < at ==> #[trigger] a[i] == b[i] && b[i] == c[i],
    ensures
        !text_before_from(a, a, at),
        text_before_from(a, b, at) && text_before_from(b, c, at) ==> text_before_from(a, c, at),
        !text_before_from(a, b, at) && !text_before_from(b, a, at) ==> a == b,
    decreases a.len() + b.len() + c.len() - at,
{
    if at < a.len() {
        same_from(a, at);
    }
    if at < a.len() && at < b.len() && a[at] == b[at] {
        if at < c.len() && b[at] == c[at] {
            order_from(a, b, c, at + 1);
        } else {
            total_from(a, b, at + 1);
        }
    } else if at >= a.len() && at >= b.len() {
        assert(a =~= b);
    }
}

proof fn same_from(a: Seq<char>, at: int)
    requires
        0 <= at,
    ensures
        !text_before_from(a, a, at),
    decreases a.len() - at,
{
    if at < a.len() {
        same_from(a, at + 1);
    }
}

proof fn total_from(a: Seq<char>, b: Seq<char>, at: int)
    requires
        0 <= at <= a.len(),
        at <= b.len(),
        forall|i: int| 0 <= i < at ==> #[trigger] a[i] == b[i],
    ensures
        !text_before_from(a, b, at) && !text_before_from(b, a, at) ==> a == b,
    decreases a.len() - at,
{
    if at < a.len() && at < b.len() && a[at] == b[at] {
        total_from(a, b, at + 1);
    } else if at == a.len() && at == b.len() {
        assert(a =~= b);
    }
}

/// Dictionary order is a strict total order.
pub proof fn text_order(a: Seq<char>, b: Seq<char>, c: Seq<char>)
    ensures
        !text_before(a, a),
        text_before(a, b) && text_before(b, c) ==> text_before(a, c),
        a != b ==> text_before(a, b) || text_before(b, a),
        !(text_before(a, b) && text_before(b, a)),
{
    order_from(a, b, c, 0);
    order_from(a, b, a, 0);
}

/// Whether `a` comes before `b` in dictionary order of code points.
pub fn is_text_before(a: &str, b: &str) -> (res: bool)
    ensures
        res == text_before(a@, b@),
{
    let left = chars_of(a);
    let right = chars_of(b);
    let mut at: usize = 0;
    while at < right.len() && at < left.len()
        invariant
            at <= left.len(),
            at <= right.len(),
            left@ == a@,
            right@ == b@,
            text_before(a@, b@) == text_before_from(a@, b@, at as int),
        decreases right.len() - at,
    {
        if left[at] != right[at] {
            return left[at] < right[at];
        }
        at += 1;
    }
    at < right.len()
}

// ---------------------------------------------------------------------------
// White space
// ---------------------------------------------------------------------------

/// The characters with Unicode's White_Space property.
pub open spec fn is_space(c: char) -> bool {
    let u = c as u32;
    ||| 0x09 <= u <= 0x0d
    ||| u == 0x20
    ||| u == 0x85
    ||| u == 0xa0
    ||| u == 0x1680
    ||| 0x2000 <= u <= 0x200a
    ||| u == 0x2028
    ||| u == 0x2029
    ||| u == 0x202f
    ||| u == 0x205f
    ||| u == 0x3000
}

/// Whether a character is white space.
pub fn space(c: char) -> (res: bool)
    ensures
        res == is_space(c),
{
    let u: u32 = c as u32;
    (0x09 <= u && u <= 0x0d) || u == 0x20 || u == 0x85 || u == 0xa0 || u == 0x1680 || (0x2000 <= u
        && u <= 0x200a) || u == 0x2028 || u == 0x2029 || u == 0x202f || u == 0x205f || u == 0x3000
}

/// The first position at or after `from` that is not white space.
pub open spec fn first_ink(s: Seq<char>, from: int) -> int
    decreases s.len() - from,
{
    if from >= s.len() {
        s.len() as int
    } else if !is_space(s[from]) {
        from
    } else {
        first_ink(s, from + 1)
    }
}

/// The end of what is left of the first `to` characters once white space is
/// taken off their end.
pub open spec fn last_ink(s: Seq<char>, to: int) -> int
    decreases to,
{
    if to <= 0 {
        0
    } else if !is_space(s[to - 1]) {
        to
    } else {
        last_ink(s, to - 1)
    }
}

/// A text without the white space at its two ends.
pub open spec fn trimmed(s: Seq<char>) -> Seq<char> {
    let from = first_ink(s, 0);
    let to = last_ink(s, s.len() as int);
    if from < to {
        s.subrange(from, to)
    } else {
        Seq::empty()
    }
}

/// A text without the white space at its end.
pub open spec fn end_trimmed(s: Seq<char>) -> Seq<char> {
    s.take(last_ink(s, s.len() as int))
}

pub proof fn ink_bounds(s: Seq<char>, from: int, to: int)
    requires
        0 <= from <= s.len(),
        0 <= to <= s.len(),
    ensures
        from <= first_ink(s, from) <= s.len(),
        first_ink(s, from) < s.len() ==> !is_space(s[first_ink(s, from)]),
        forall|i: int| from <= i < first_ink(s, from) ==> is_space(#[trigger] s[i]),
        0 <= last_ink(s, to) <= to,
        last_ink(s, to) > 0 ==> !is_space(s[last_ink(s, to) - 1]),
        forall|i: int| last_ink(s, to) <= i < to ==> is_space(#[trigger] s[i]),
    decreases s.len() - from + to,
{
    if from < s.len() && is_space(s[from]) {
        ink_bounds(s, from + 1, to);
    }
    if to > 0 && is_space(s[to - 1]) {
        ink_bounds(s, from, to - 1);
    }
}

/// Text with ink at both ends is what trimming leaves, and trimming leaves it
/// alone.
pub proof fn trimmed_is_tight(s: Seq<char>)
    ensures
        trimmed(s).len() > 0 ==> !is_space(trimmed(s)[0]) && !is_space(trimmed(s).last()),
        trimmed(trimmed(s)) == trimmed(s),
        s.len() > 0 && !is_space(s[0]) && !is_space(s.last()) ==> trimmed(s) == s,
        s.len() == 0 ==> trimmed(s) == s,
{
    ink_bounds(s, 0, s.len() as int);
    let t = trimmed(s);
    ink_bounds(t, 0, t.len() as int);
    assert(trimmed(t) =~= t);
    if s.len() > 0 && !is_space(s[0]) && !is_space(s.last()) {
        assert(trimmed(s) =~= s);
    }
}

/// The text without the white space at its two ends.
pub fn trim(text: &str) -> (res: &str)
    ensures
        res@ == trimmed(text@),
{
    let chars = chars_of(text);
    let mut from: usize = 0;
    while from < chars.len() && space(chars[from])
        invariant
            from <= chars.len(),
            chars@ == text@,
            first_ink(text@, 0) == first_ink(text@, from as int),
        decreases chars.len() - from,
    {
        from += 1;
    }
    let mut to: usize = chars.len();
    while to > 0 && space(chars[to - 1])
        invariant
            to <= chars.len(),
            chars@ == text@,
            last_ink(text@, text@.len() as int) == last_ink(text@, to as int),
        decreases to,
    {
        to -= 1;
    }
    if from < to {
        text.substring_char(from, to)
    } else {
        text.substring_char(0, 0)
    }
}

/// The text without the white space at its end.
pub fn trim_end(text: &str) -> (res: &str)
    ensures
        res@ == end_trimmed(text@),
{
    let chars = chars_of(text);
    let mut to: usize = chars.len();
    while to > 0 && space(chars[to - 1])
        invariant
            to <= chars.len(),
            chars@ == text@,
            last_ink(text@, text@.len() as int) == last_ink(text@, to as int),
        decreases to,
    {
        to -= 1;
    }
    text.substring_char(0, to)
}

// ---------------------------------------------------------------------------
// Splitting and joining
// ---------------------------------------------------------------------------

/// The pieces of a text between the occurrences of a character.
pub open spec fn pieces(s: Seq<char>, mark: char) -> Seq<Seq<char>>
    decreases s.len(),
{
    if s.len() == 0 {
        seq![Seq::empty()]
    } else {
        let before = pieces(s.drop_last(), mark);
        if s.last() == mark {
            before.push(Seq::empty())
        } else {
            before.update(before.len() - 1, before.last().push(s.last()))
        }
    }
}

pub proof fn pieces_nonempty(s: Seq<char>, mark: char)
    ensures
        pieces(s, mark).len() >= 1,
    decreases s.len(),
{
    if s.len() > 0 {
        pieces_nonempty(s.drop_last(), mark);
    }
}

/// A text with a mark in it has the pieces before the mark and those after it.
pub proof fn pieces_split(a: Seq<char>, b: Seq<char>, mark: char)
    ensures
        pieces(a + seq![mark] + b, mark) == pieces(a, mark) + pieces(b, mark),
    decreases b.len(),
{
    let whole = a + seq![mark] + b;
    pieces_nonempty(b, mark);
    if b.len() == 0 {
        assert(whole =~= a.push(mark));
        assert(whole.drop_last() =~= a);
        assert(pieces(a, mark) + pieces(b, mark) =~= pieces(a, mark).push(
            Seq::empty(),
        ));
    } else {
        let less = a + seq![mark] + b.drop_last();
        pieces_split(a, b.drop_last(), mark);
        pieces_nonempty(b.drop_last(), mark);
        assert(whole.drop_last() =~= less);
        assert(whole.last() == b.last());
        let left = pieces(a, mark);
        let right = pieces(b.drop_last(), mark);
        if b.last() == mark {
            assert((left + right).push(Seq::empty()) =~= left + right.push(Seq::empty()));
        } else {
            let grown = right.last().push(b.last());
            assert((left + right).last() == right.last());
            assert((left + right).update((left + right).len() - 1, grown) =~= left + right.update(
                right.len() - 1,
                grown,
            ));
        }
    }
}

/// A text without the mark is one piece.
pub proof fn one_piece(s: Seq<char>, mark: char)
    requires
        !s.contains(mark),
    ensures
        pieces(s, mark) == seq![s],
    decreases s.len(),
{
    if s.len() > 0 {
        let less = s.drop_last();
        assert forall|i: int| 0 <= i < less.len() implies less[i] != mark by {
            assert(s[i] == less[i]);
            assert(s.contains(s[i]));
        }
        one_piece(less, mark);
        assert(s.contains(s.last()));
        assert(less.push(s.last()) =~= s);
        assert(seq![less].update(0, s) =~= seq![s]);
    } else {
        assert(s =~= Seq::empty());
    }
}

/// Text without the mark goes onto the last piece.
pub proof fn pieces_extend(s: Seq<char>, tail: Seq<char>, mark: char)
    requires
        !tail.contains(mark),
    ensures
        pieces(s + tail, mark) == pieces(s, mark).update(
            pieces(s, mark).len() - 1,
            pieces(s, mark).last() + tail,
        ),
    decreases tail.len(),
{
    pieces_nonempty(s, mark);
    let before = pieces(s, mark);
    if tail.len() == 0 {
        assert(s + tail =~= s);
        assert(before.last() + tail =~= before.last());
        assert(before.update(before.len() - 1, before.last() + tail) =~= before);
    } else {
        let less = tail.drop_last();
        assert forall|i: int| 0 <= i < less.len() implies less[i] != mark by {
            assert(tail[i] == less[i]);
            assert(tail.contains(tail[i]));
        }
        pieces_extend(s, less, mark);
        assert((s + tail).drop_last() =~= s + less);
        assert((s + tail).last() == tail.last());
        assert(tail.contains(tail.last()));
        assert((before.last() + less).push(tail.last()) =~= before.last() + tail);
        let mid = before.update(before.len() - 1, before.last() + less);
        assert(mid.update(mid.len() - 1, mid.last().push(tail.last())) =~= before.update(
            before.len() - 1,
            before.last() + tail,
        ));
    }
}

/// No piece holds the mark.
pub proof fn pieces_are_clean(s: Seq<char>, mark: char)
    ensures
        forall|i: int|
            0 <= i < pieces(s, mark).len() ==> !(#[trigger] pieces(s, mark)[i]).contains(mark),
    decreases s.len(),
{
    if s.len() > 0 {
        pieces_are_clean(s.drop_last(), mark);
        pieces_nonempty(s.drop_last(), mark);
        let before = pieces(s.drop_last(), mark);
        let after = pieces(s, mark);
        assert forall|i: int| 0 <= i < after.len() implies !(#[trigger] after[i]).contains(
            mark,
        ) by {
            if i < before.len() - 1 {
                assert(after[i] == before[i]);
            } else if s.last() != mark {
                assert(after[i] == before[i].push(s.last()));
            } else if i == before.len() - 1 {
                assert(after[i] == before[i]);
            }
        }
    }
}

/// Joining texts that do not hold the mark, and splitting them again, gives them
/// back.
pub proof fn pieces_of_joined(parts: Seq<Seq<char>>, mark: char)
    requires
        parts.len() > 0,
        forall|i: int| 0 <= i < parts.len() ==> !(#[trigger] parts[i]).contains(mark),
    ensures
        pieces(joined(parts, seq![mark]), mark) == parts,
    decreases parts.len(),
{
    if parts.len() == 1 {
        one_piece(parts[0], mark);
        assert(parts =~= seq![parts[0]]);
    } else {
        let less = parts.drop_last();
        pieces_of_joined(less, mark);
        pieces_split(joined(less, seq![mark]), parts.last(), mark);
        one_piece(parts.last(), mark);
        assert(less + seq![parts.last()] =~= parts);
    }
}

/// The pieces of a text between the occurrences of a character.
pub fn split(text: &str, mark: char) -> (res: Vec<String>)
    ensures
        texts(res@) == pieces(text@, mark),
        res@.len() >= 1,
{
    let chars = chars_of(text);
    let mut out: Vec<String> = Vec::new();
    let mut piece = String::new();
    let mut i: usize = 0;
    assert(texts(out@).push(piece@) =~= pieces(text@.take(0), mark));
    while i < chars.len()
        invariant
            i <= chars.len(),
            chars@ == text@,
            pieces(text@.take(i as int), mark) == texts(out@).push(piece@),
        decreases chars.len() - i,
    {
        let ghost done = pieces(text@.take(i as int), mark);
        assert(text@.take(i + 1).drop_last() == text@.take(i as int));
        if chars[i] == mark {
            let ghost former = out@;
            let ghost old_piece = piece@;
            out.push(piece);
            piece = String::new();
            assert(texts(out@) =~= texts(former).push(old_piece));
        } else {
            let ghost old_piece = piece@;
            piece.push(chars[i]);
            assert(done.update(done.len() - 1, done.last().push(chars@[i as int])) =~= texts(
                out@,
            ).push(piece@));
        }
        i += 1;
    }
    let ghost former = out@;
    let ghost last = piece@;
    out.push(piece);
    assert(text@.take(text@.len() as int) == text@);
    assert(texts(out@) =~= texts(former).push(last));
    out
}

/// A text without one carriage return at its end.
pub open spec fn without_return(s: Seq<char>) -> Seq<char> {
    if s.len() > 0 && s.last() == '\r' {
        s.drop_last()
    } else {
        s
    }
}

/// The lines of a text: what stands before each line feed, with one carriage
/// return before it gone, and the rest where there is any.
pub open spec fn lines(s: Seq<char>) -> Seq<Seq<char>> {
    let all = pieces(s, '\n');
    let ended = all.drop_last().map_values(|line: Seq<char>| without_return(line));
    if all.last().len() == 0 {
        ended
    } else {
        ended.push(all.last())
    }
}

/// The lines of a text.
pub fn split_lines(text: &str) -> (res: Vec<String>)
    ensures
        texts(res@) == lines(text@),
{
    let mut all = split(text, '\n');
    let ghost parts = texts(all@);
    let last = all.pop();
    assert(texts(all@) =~= parts.drop_last());
    let mut out: Vec<String> = Vec::new();
    let ghost ended = parts.drop_last().map_values(|line: Seq<char>| without_return(line));
    let mut i: usize = 0;
    while i < all.len()
        invariant
            i <= all.len(),
            texts(all@) == parts.drop_last(),
            ended == parts.drop_last().map_values(|line: Seq<char>| without_return(line)),
            texts(out@) == ended.take(i as int),
        decreases all.len() - i,
    {
        let ghost former = out@;
        assert(texts(all@)[i as int] == all@[i as int]@);
        let chars = chars_of(all[i].as_str());
        let n = chars.len();
        if n > 0 && chars[n - 1] == '\r' {
            let line = string_of(vstd::slice::slice_subrange(chars.as_slice(), 0, n - 1));
            assert(line@ =~= without_return(all@[i as int]@));
            out.push(line);
        } else {
            out.push(all[i].clone());
        }
        assert(texts(out@) =~= texts(former).push(without_return(all@[i as int]@)));
        assert(ended.take(i + 1) =~= ended.take(i as int).push(ended[i as int]));
        i += 1;
    }
    assert(ended.take(ended.len() as int) =~= ended);
    if let Some(line) = last {
        if !line.as_str().is_empty() {
            let ghost former = out@;
            let ghost text = line@;
            out.push(line);
            assert(texts(out@) =~= texts(former).push(text));
        }
    }
    out
}

/// Texts one after another with a separator between them.
pub open spec fn joined(parts: Seq<Seq<char>>, separator: Seq<char>) -> Seq<char>
    decreases parts.len(),
{
    if parts.len() == 0 {
        Seq::empty()
    } else if parts.len() == 1 {
        parts[0]
    } else {
        joined(parts.drop_last(), separator) + separator + parts.last()
    }
}

/// Texts one after another with a separator between them.
pub fn join(parts: &[String], separator: &str) -> (res: String)
    ensures
        res@ == joined(texts(parts@), separator@),
{
    let mut out = String::new();
    let mut i: usize = 0;
    while i < parts.len()
        invariant
            i <= parts.len(),
            out@ == joined(texts(parts@).take(i as int), separator@),
        decreases parts.len() - i,
    {
        let ghost whole = texts(parts@);
        assert(whole.take(i + 1).drop_last() == whole.take(i as int));
        if i > 0 {
            out.append(separator);
        }
        out.append(parts[i].as_str());
        assert(whole.take(i + 1).last() == parts@[i as int]@);
        if i == 0 {
            assert(out@ =~= parts@[0]@);
        }
        i += 1;
    }
    assert(texts(parts@).take(parts@.len() as int) == texts(parts@));
    out
}

/// The words of a text but the one that may still go on, and that one.
pub open spec fn words_and_rest(s: Seq<char>) -> (Seq<Seq<char>>, Seq<char>)
    decreases s.len(),
{
    if s.len() == 0 {
        (Seq::empty(), Seq::empty())
    } else {
        let (done, part) = words_and_rest(s.drop_last());
        if is_space(s.last()) {
            if part.len() > 0 {
                (done.push(part), Seq::empty())
            } else {
                (done, part)
            }
        } else {
            (done, part.push(s.last()))
        }
    }
}

/// The words of a text: what stands between its white space.
pub open spec fn words(s: Seq<char>) -> Seq<Seq<char>> {
    let (done, part) = words_and_rest(s);
    if part.len() > 0 {
        done.push(part)
    } else {
        done
    }
}

/// The words of a text.
pub fn split_words(text: &str) -> (res: Vec<String>)
    ensures
        texts(res@) == words(text@),
{
    let chars = chars_of(text);
    let mut out: Vec<String> = Vec::new();
    let mut part: Vec<char> = Vec::new();
    let mut i: usize = 0;
    assert(texts(out@) =~= words_and_rest(text@.take(0)).0);
    while i < chars.len()
        invariant
            i <= chars.len(),
            chars@ == text@,
            texts(out@) == words_and_rest(text@.take(i as int)).0,
            part@ == words_and_rest(text@.take(i as int)).1,
        decreases chars.len() - i,
    {
        let ghost former = out@;
        assert(text@.take(i + 1).drop_last() =~= text@.take(i as int));
        if space(chars[i]) {
            if part.len() > 0 {
                out.push(string_of(part.as_slice()));
                assert(texts(out@) =~= texts(former).push(part@));
                part = Vec::new();
            }
        } else {
            part.push(chars[i]);
        }
        i += 1;
    }
    assert(text@.take(text@.len() as int) =~= text@);
    if part.len() > 0 {
        let ghost former = out@;
        out.push(string_of(part.as_slice()));
        assert(texts(out@) =~= texts(former).push(part@));
    }
    out
}

// ---------------------------------------------------------------------------
// Numbers
// ---------------------------------------------------------------------------

/// The character of a hexadecimal digit.
pub open spec fn hex_digit(d: int) -> char {
    if d < 10 {
        (0x30 + d) as u8 as char
    } else {
        (0x57 + d) as u8 as char
    }
}

/// The character of a decimal digit.
pub open spec fn digit(d: int) -> char {
    (0x30 + d) as u8 as char
}

/// A number in decimal digits, without leading zeros.
pub open spec fn decimal(n: nat) -> Seq<char>
    decreases n,
{
    if n < 10 {
        seq![digit(n as int)]
    } else {
        decimal(n / 10).push(digit((n % 10) as int))
    }
}

/// An integer in decimal digits, with its sign where it is negative.
pub open spec fn signed_decimal(n: int) -> Seq<char> {
    if n < 0 {
        seq!['-'] + decimal((-n) as nat)
    } else {
        decimal(n as nat)
    }
}

fn push_decimal(out: &mut String, n: u64)
    ensures
        final(out)@ == old(out)@ + decimal(n as nat),
    decreases n,
{
    if n >= 10 {
        push_decimal(out, n / 10);
    }
    out.push((0x30 + (n % 10) as u8) as char);
    assert(out@ =~= old(out)@ + decimal(n as nat));
}

/// A number in decimal digits.
pub fn decimal_of(n: u64) -> (res: String)
    ensures
        res@ == decimal(n as nat),
{
    let mut out = String::new();
    push_decimal(&mut out, n);
    assert(out@ =~= decimal(n as nat));
    out
}

/// An integer in decimal digits.
pub fn signed_decimal_of(n: i64) -> (res: String)
    ensures
        res@ == signed_decimal(n as int),
{
    let mut out = String::new();
    if n < 0 {
        out.push('-');
        let size: u64 = (-(n as i128)) as u64;
        push_decimal(&mut out, size);
        assert(out@ =~= signed_decimal(n as int));
    } else {
        push_decimal(&mut out, n as u64);
        assert(out@ =~= signed_decimal(n as int));
    }
    out
}

/// The value of a digit in a base, if the character is one.
pub open spec fn digit_value(c: char, base: int) -> Option<int> {
    let u = c as u32 as int;
    let v = if 0x30 <= u <= 0x39 {
        u - 0x30
    } else if 0x61 <= u <= 0x7a {
        u - 0x61 + 10
    } else if 0x41 <= u <= 0x5a {
        u - 0x41 + 10
    } else {
        36
    };
    if v < base {
        Some(v)
    } else {
        None
    }
}

/// The value of a digit in a base of at most thirty-six.
pub fn value_of_digit(c: char, base: u32) -> (res: Option<u32>)
    requires
        base <= 36,
    ensures
        match res {
            Some(v) => digit_value(c, base as int) == Some(v as int) && v < base,
            None => digit_value(c, base as int) is None,
        },
{
    let u: u32 = c as u32;
    let v: u32 = if 0x30 <= u && u <= 0x39 {
        u - 0x30
    } else if 0x61 <= u && u <= 0x7a {
        u - 0x61 + 10
    } else if 0x41 <= u && u <= 0x5a {
        u - 0x41 + 10
    } else {
        36
    };
    if v < base {
        Some(v)
    } else {
        None
    }
}

// ---------------------------------------------------------------------------
// Searching
// ---------------------------------------------------------------------------

/// Whether a text begins with another.
pub open spec fn begins(s: Seq<char>, prefix: Seq<char>) -> bool {
    prefix.len() <= s.len() && s.take(prefix.len() as int) == prefix
}

/// Whether `text` begins with `prefix`.
pub fn starts_with(text: &str, prefix: &str) -> (res: bool)
    ensures
        res == begins(text@, prefix@),
{
    let n = prefix.unicode_len();
    if text.unicode_len() < n {
        return false;
    }
    same(text.substring_char(0, n), prefix)
}

/// What follows the prefix, where the text begins with it.
pub fn strip_prefix<'a>(text: &'a str, prefix: &str) -> (res: Option<&'a str>)
    ensures
        match res {
            Some(rest) => begins(text@, prefix@) && rest@ == text@.skip(prefix@.len() as int),
            None => !begins(text@, prefix@),
        },
{
    let n = prefix.unicode_len();
    let m = text.unicode_len();
    if m < n {
        return None;
    }
    if same(text.substring_char(0, n), prefix) {
        Some(text.substring_char(n, m))
    } else {
        None
    }
}

/// Whether a text ends with another.
pub open spec fn ends(s: Seq<char>, suffix: Seq<char>) -> bool {
    suffix.len() <= s.len() && s.skip(s.len() - suffix.len()) == suffix
}

/// What precedes the suffix, where the text ends with it.
pub fn strip_suffix<'a>(text: &'a str, suffix: &str) -> (res: Option<&'a str>)
    ensures
        match res {
            Some(rest) => ends(text@, suffix@) && rest@ == text@.take(
                text@.len() - suffix@.len(),
            ),
            None => !ends(text@, suffix@),
        },
{
    let n = suffix.unicode_len();
    let m = text.unicode_len();
    if m < n {
        return None;
    }
    if same(text.substring_char(m - n, m), suffix) {
        Some(text.substring_char(0, m - n))
    } else {
        None
    }
}

/// Whether the text holds the character.
pub fn has_char(text: &str, c: char) -> (res: bool)
    ensures
        res == text@.contains(c),
{
    let chars = chars_of(text);
    let mut i: usize = 0;
    while i < chars.len()
        invariant
            i <= chars.len(),
            chars@ == text@,
            forall|j: int| 0 <= j < i ==> text@[j] != c,
        decreases chars.len() - i,
    {
        if chars[i] == c {
            assert(text@[i as int] == c);
            return true;
        }
        i += 1;
    }
    false
}

/// Whether a list holds a text.
pub open spec fn lists(list: Seq<String>, text: Seq<char>) -> bool {
    texts(list).contains(text)
}

/// Whether the list holds the text.
pub fn list_has(list: &[String], text: &str) -> (res: bool)
    ensures
        res == lists(list@, text@),
{
    let mut i: usize = 0;
    while i < list.len()
        invariant
            i <= list.len(),
            forall|j: int| 0 <= j < i ==> #[trigger] texts(list@)[j] != text@,
        decreases list.len() - i,
    {
        if same(list[i].as_str(), text) {
            assert(texts(list@)[i as int] == text@);
            return true;
        }
        i += 1;
    }
    false
}

/// A text with every occurrence of one character replaced by another.
pub open spec fn replaced(s: Seq<char>, from: char, to: char) -> Seq<char> {
    s.map_values(|c: char| if c == from { to } else { c })
}

/// The text with every occurrence of one character replaced by another.
pub fn replace_char(text: &str, from: char, to: char) -> (res: String)
    ensures
        res@ == replaced(text@, from, to),
{
    let chars = chars_of(text);
    let mut out = String::new();
    let mut i: usize = 0;
    while i < chars.len()
        invariant
            i <= chars.len(),
            chars@ == text@,
            out@ == replaced(text@, from, to).take(i as int),
        decreases chars.len() - i,
    {
        let ghost whole = replaced(text@, from, to);
        assert(whole.take(i + 1) =~= whole.take(i as int).push(whole[i as int]));
        out.push(if chars[i] == from { to } else { chars[i] });
        i += 1;
    }
    assert(replaced(text@, from, to).take(text@.len() as int) =~= replaced(text@, from, to));
    out
}

// ---------------------------------------------------------------------------
// Letter case
// ---------------------------------------------------------------------------

/// What `str::to_lowercase` of the standard library makes of a text.
pub uninterp spec fn lowercase(s: Seq<char>) -> Seq<char>;

/// `str::to_lowercase`: the text in lower case by Unicode's rules, which depend
/// on the text alone.
#[verifier::external_body]
pub(crate) fn to_lowercase(text: &str) -> (res: String)
    ensures
        res@ == lowercase(text@),
{
    text.to_lowercase()
}

/// A letter of the ASCII alphabet in lower case; any other character itself.
pub open spec fn ascii_lower(c: char) -> char {
    if 'A' <= c && c <= 'Z' {
        (c as u8 + 32) as u8 as char
    } else {
        c
    }
}

/// The character with an ASCII letter put in lower case.
pub fn lower_char(c: char) -> (res: char)
    ensures
        res == ascii_lower(c),
{
    if 'A' <= c && c <= 'Z' {
        (c as u8 + 32) as char
    } else {
        c
    }
}

/// A text with its ASCII letters in lower case.
pub open spec fn ascii_lowered(s: Seq<char>) -> Seq<char> {
    s.map_values(|c: char| ascii_lower(c))
}

/// The text with its ASCII letters in lower case.
pub fn to_ascii_lowercase(text: &str) -> (res: String)
    ensures
        res@ == ascii_lowered(text@),
{
    let chars = chars_of(text);
    let mut out = String::new();
    let mut i: usize = 0;
    while i < chars.len()
        invariant
            i <= chars.len(),
            chars@ == text@,
            out@ == ascii_lowered(text@).take(i as int),
        decreases chars.len() - i,
    {
        let ghost whole = ascii_lowered(text@);
        assert(whole.take(i + 1) =~= whole.take(i as int).push(whole[i as int]));
        out.push(lower_char(chars[i]));
        i += 1;
    }
    assert(ascii_lowered(text@).take(text@.len() as int) =~= ascii_lowered(text@));
    out
}

// ---------------------------------------------------------------------------
// Quoting
// ---------------------------------------------------------------------------

/// What the `Debug` formatting of the standard library makes of a string.
pub uninterp spec fn debug_text(s: Seq<char>) -> Seq<char>;

/// `format!("{:?}")` of a string: the text in double quotes, with its special
/// characters escaped. The result depends on the text alone.
#[verifier::external_body]
pub(crate) fn quoted(text: &str) -> (res: String)
    ensures
        res@ == debug_text(text@),
{
    format!("{:?}", text)
}

/// A text without the occurrences of a character at its end.
pub open spec fn end_stripped(s: Seq<char>, mark: char) -> Seq<char>
    decreases s.len(),
{
    if s.len() > 0 && s.last() == mark {
        end_stripped(s.drop_last(), mark)
    } else {
        s
    }
}

/// The text without the occurrences of a character at its end.
pub fn strip_end(text: &str, mark: char) -> (res: &str)
    ensures
        res@ == end_stripped(text@, mark),
{
    let chars = chars_of(text);
    let mut to: usize = chars.len();
    assert(text@.take(to as int) =~= text@);
    while to > 0 && chars[to - 1] == mark
        invariant
            to <= chars.len(),
            chars@ == text@,
            end_stripped(text@, mark) == end_stripped(text@.take(to as int), mark),
        decreases to,
    {
        assert(text@.take(to as int).drop_last() =~= text@.take(to - 1));
        to -= 1;
    }
    text.substring_char(0, to)
}

/// A text without the occurrences of a character at its start.
pub open spec fn start_stripped(s: Seq<char>, mark: char) -> Seq<char>
    decreases s.len(),
{
    if s.len() > 0 && s[0] == mark {
        start_stripped(s.drop_first(), mark)
    } else {
        s
    }
}

/// The text without the occurrences of a character at its start.
pub fn strip_start(text: &str, mark: char) -> (res: &str)
    ensures
        res@ == start_stripped(text@, mark),
{
    let chars = chars_of(text);
    let mut from: usize = 0;
    assert(text@.skip(0) =~= text@);
    while from < chars.len() && chars[from] == mark
        invariant
            from <= chars.len(),
            chars@ == text@,
            start_stripped(text@, mark) == start_stripped(text@.skip(from as int), mark),
        decreases chars.len() - from,
    {
        assert(text@.skip(from as int).drop_first() =~= text@.skip(from + 1));
        from += 1;
    }
    text.substring_char(from, chars.len())
}

// ---------------------------------------------------------------------------
// Lists of borrowed texts
// ---------------------------------------------------------------------------

/// The characters each string of a list holds.
pub open spec fn strs(list: Seq<&str>) -> Seq<Seq<char>> {
    Seq::new(list.len(), |i: int| list[i]@)
}

/// Whether the list holds the text.
pub fn strs_have(list: &[&str], text: &str) -> (res: bool)
    ensures
        res == strs(list@).contains(text@),
{
    let mut i: usize = 0;
    while i < list.len()
        invariant
            i <= list.len(),
            forall|j: int| 0 <= j < i ==> #[trigger] strs(list@)[j] != text@,
        decreases list.len() - i,
    {
        assert(strs(list@)[i as int] == list@[i as int]@);
        if same(list[i], text) {
            return true;
        }
        i += 1;
    }
    false
}

/// Texts quoted one by one.
pub open spec fn quotes(list: Seq<Seq<char>>) -> Seq<Seq<char>> {
    Seq::new(list.len(), |i: int| debug_text(list[i]))
}

/// A list of texts, quoted and in brackets.
pub open spec fn quoted_list(list: Seq<Seq<char>>) -> Seq<char> {
    "["@ + joined(quotes(list), ", "@) + "]"@
}

/// A list of texts, quoted and in brackets.
pub fn quote_list(list: &Vec<String>) -> (res: String)
    ensures
        res@ == quoted_list(texts(list@)),
{
    let mut all: Vec<String> = Vec::new();
    let mut i: usize = 0;
    while i < list.len()
        invariant
            i <= list.len(),
            all@.len() == i,
            forall|j: int| 0 <= j < i ==> #[trigger] all@[j]@ == debug_text(list@[j]@),
        decreases list.len() - i,
    {
        all.push(quoted(list[i].as_str()));
        i += 1;
    }
    assert(texts(all@) =~= quotes(texts(list@)));
    let mut out = "[".to_owned();
    out.append(join(all.as_slice(), ", ").as_str());
    out.append("]");
    out
}

/// A list of borrowed texts, quoted and in brackets.
pub fn quote_strs(list: &[&str]) -> (res: String)
    ensures
        res@ == quoted_list(strs(list@)),
{
    let mut all: Vec<String> = Vec::new();
    let mut i: usize = 0;
    while i < list.len()
        invariant
            i <= list.len(),
            all@.len() == i,
            forall|j: int| 0 <= j < i ==> #[trigger] all@[j]@ == list@[j]@,
        decreases list.len() - i,
    {
        all.push(list[i].to_owned());
        i += 1;
    }
    assert(texts(all@) =~= strs(list@));
    quote_list(&all)
}

/// What `str::to_uppercase` of the standard library makes of a text.
pub uninterp spec fn uppercase(s: Seq<char>) -> Seq<char>;

/// `str::to_uppercase`: the text in upper case by Unicode's rules, which depend
/// on the text alone.
#[verifier::external_body]
pub(crate) fn to_uppercase(text: &str) -> (res: String)
    ensures
        res@ == uppercase(text@),
{
    text.to_uppercase()
}

/// The position of the first occurrence of a character at or after `from`, or
/// the length.
pub open spec fn index_from(s: Seq<char>, mark: char, from: int) -> int
    decreases s.len() - from,
{
    if from >= s.len() {
        s.len() as int
    } else if s[from] == mark {
        from
    } else {
        index_from(s, mark, from + 1)
    }
}

pub proof fn index_bounds(s: Seq<char>, mark: char, from: int)
    requires
        0 <= from <= s.len(),
    ensures
        from <= index_from(s, mark, from) <= s.len(),
        index_from(s, mark, from) < s.len() ==> s[index_from(s, mark, from)] == mark,
        forall|i: int| from <= i < index_from(s, mark, from) ==> s[i] != mark,
    decreases s.len() - from,
{
    if from < s.len() {
        index_bounds(s, mark, from + 1);
    }
}

/// What stands before and after the first occurrence of a character.
pub fn split_once(text: &str, mark: char) -> (res: Option<(&str, &str)>)
    ensures
        match res {
            Some((head, tail)) => index_from(text@, mark, 0) < text@.len() && head@ == text@.take(
                index_from(text@, mark, 0),
            ) && tail@ == text@.skip(index_from(text@, mark, 0) + 1),
            None => index_from(text@, mark, 0) == text@.len(),
        },
{
    let chars = chars_of(text);
    let n = chars.len();
    let mut i: usize = 0;
    while i < n
        invariant
            i <= n,
            n == chars@.len(),
            chars@ == text@,
            index_from(text@, mark, 0) == index_from(text@, mark, i as int),
        decreases n - i,
    {
        if chars[i] == mark {
            return Some((text.substring_char(0, i), text.substring_char(i + 1, n)));
        }
        i += 1;
    }
    None
}

} // verus!
