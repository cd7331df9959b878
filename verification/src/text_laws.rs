//! What holds of every text that is taken apart, put together or written out.

use vstd::prelude::*;

use crate::text;

verus! {

/// Nothing but white space.
pub open spec fn blank(s: Seq<char>) -> bool {
    forall|i: int| 0 <= i < s.len() ==> text::is_space(#[trigger] s[i])
}

/// No white space at either end.
pub open spec fn tight(s: Seq<char>) -> bool {
    s.len() > 0 ==> !text::is_space(s[0]) && !text::is_space(s.last())
}

/// Nothing but one character.
pub open spec fn run_of(s: Seq<char>, mark: char) -> bool {
    forall|i: int| 0 <= i < s.len() ==> #[trigger] s[i] == mark
}

/// Trimming takes off the white space at the two ends and nothing else.
pub proof fn trimming_leaves_the_core(lead: Seq<char>, core: Seq<char>, trail: Seq<char>)
    requires
        blank(lead),
        blank(trail),
        tight(core),
    ensures
        text::trimmed(lead + core + trail) == core,
{
    let s = lead + core + trail;
    let n = s.len() as int;
    text::ink_bounds(s, 0, n);
    let from = text::first_ink(s, 0);
    let to = text::last_ink(s, n);
    if core.len() == 0 {
        assert forall|i: int| 0 <= i < n implies text::is_space(#[trigger] s[i]) by {
            if i < lead.len() {
                assert(s[i] == lead[i]);
            } else {
                assert(s[i] == trail[i - lead.len()]);
            }
        }
        if from < n {
            assert(text::is_space(s[from]));
        }
        assert(text::trimmed(s) =~= core);
    } else {
        let a = lead.len() as int;
        let b = a + core.len();
        assert(s[a] == core[0]);
        assert(s[b - 1] == core.last());
        if from < a {
            assert(s[from] == lead[from]);
        }
        if from > a {
            assert(text::is_space(s[a]));
        }
        if to > b {
            assert(s[to - 1] == trail[to - 1 - b]);
        }
        if to < b {
            assert(text::is_space(s[b - 1]));
        }
        assert(s.subrange(a, b) =~= core);
    }
}

/// Taking white space off the end takes off that and nothing else.
pub proof fn end_trimming_leaves_the_rest(core: Seq<char>, trail: Seq<char>)
    requires
        blank(trail),
        core.len() > 0 ==> !text::is_space(core.last()),
    ensures
        text::end_trimmed(core + trail) == core,
{
    let s = core + trail;
    let n = s.len() as int;
    text::ink_bounds(s, 0, n);
    let to = text::last_ink(s, n);
    if to > core.len() {
        assert(s[to - 1] == trail[to - 1 - core.len()]);
    }
    if to < core.len() {
        assert(s[core.len() - 1] == core.last());
        assert(text::is_space(s[core.len() - 1]));
    }
    assert(s.take(core.len() as int) =~= core);
}

/// Stripping a character off an end takes off its whole run there and nothing else.
pub proof fn stripping_leaves_the_core(core: Seq<char>, run: Seq<char>, mark: char)
    requires
        run_of(run, mark),
    ensures
        core.len() == 0 || core.last() != mark ==> text::end_stripped(core + run, mark) == core,
        core.len() == 0 || core[0] != mark ==> text::start_stripped(run + core, mark) == core,
    decreases run.len(),
{
    if run.len() == 0 {
        assert(core + run =~= core);
        assert(run + core =~= core);
    } else {
        let less = run.drop_last();
        assert(run_of(less, mark));
        stripping_leaves_the_core(core, less, mark);
        assert(run[run.len() - 1] == mark && run[0] == mark);
        assert((core + run).drop_last() =~= core + less);
        assert((core + run).last() == mark);
        assert((run + core)[0] == mark);
        assert((run + core).drop_first() =~= less + core) by {
            assert forall|i: int| 0 <= i < less.len() implies run[i + 1] == less[i] by {
                assert(run[i] == mark);
                assert(run[i + 1] == mark);
            }
        }
    }
}

/// Splitting loses nothing: the pieces, joined by the character, are the text, and
/// none of them holds it.
pub proof fn pieces_rejoin(s: Seq<char>, mark: char)
    ensures
        text::joined(text::pieces(s, mark), seq![mark]) == s,
        forall|i: int|
            0 <= i < text::pieces(s, mark).len() ==> !(#[trigger] text::pieces(
                s,
                mark,
            )[i]).contains(mark),
        text::pieces(s, mark).len() >= 1,
    decreases s.len(),
{
    text::pieces_are_clean(s, mark);
    text::pieces_nonempty(s, mark);
    let all = text::pieces(s, mark);
    if s.len() == 0 {
        assert(s =~= Seq::empty());
    } else {
        let less = s.drop_last();
        pieces_rejoin(less, mark);
        let before = text::pieces(less, mark);
        if s.last() == mark {
            assert(all.drop_last() =~= before);
            assert(text::joined(all, seq![mark]) =~= less.push(mark));
            assert(less.push(mark) =~= s);
        } else if before.len() == 1 {
            assert(text::joined(all, seq![mark]) =~= before[0].push(s.last()));
            assert(less.push(s.last()) =~= s);
        } else {
            assert(all.drop_last() =~= before.drop_last());
            assert(text::joined(all, seq![mark]) =~= text::joined(before, seq![mark]).push(
                s.last(),
            ));
            assert(less.push(s.last()) =~= s);
        }
    }
}

/// Joining keeps every text whole: the length is that of the texts and of one
/// separator fewer than there are texts.
pub proof fn joining_adds_separators_only(parts: Seq<Seq<char>>, separator: Seq<char>)
    requires
        parts.len() > 0,
    ensures
        text::joined(parts, separator).len() == parts.fold_left(
            0int,
            |sum: int, part: Seq<char>| sum + part.len(),
        ) + (parts.len() - 1) * separator.len(),
        text::begins(text::joined(parts, separator), parts[0]),
        text::ends(text::joined(parts, separator), parts.last()),
    decreases parts.len(),
{
    reveal_with_fuel(Seq::fold_left, 2);
    let whole = text::joined(parts, separator);
    if parts.len() > 1 {
        let less = parts.drop_last();
        joining_adds_separators_only(less, separator);
        let before = text::joined(less, separator);
        assert((parts.len() - 1) * separator.len() == (less.len() - 1) * separator.len()
            + separator.len()) by (nonlinear_arith)
            requires
                parts.len() == less.len() + 1,
        ;
        assert(whole.take(parts[0].len() as int) =~= before.take(parts[0].len() as int));
        assert(less[0] == parts[0]);
        assert(whole.skip(whole.len() - parts.last().len()) =~= parts.last());
    } else {
        assert(parts.drop_last() =~= Seq::empty());
        assert((parts.len() - 1) * separator.len() == 0) by (nonlinear_arith)
            requires
                parts.len() == 1,
        ;
        assert(whole.take(whole.len() as int) =~= whole);
        assert(whole.skip(0) =~= whole);
    }
}

/// The texts one after another, with nothing between them.
pub open spec fn run_together(parts: Seq<Seq<char>>) -> Seq<char>
    decreases parts.len(),
{
    if parts.len() == 0 {
        Seq::empty()
    } else {
        run_together(parts.drop_last()) + parts.last()
    }
}

/// The characters of a text that are not white space, in order.
pub open spec fn ink_of(s: Seq<char>) -> Seq<char>
    decreases s.len(),
{
    if s.len() == 0 {
        Seq::empty()
    } else if text::is_space(s.last()) {
        ink_of(s.drop_last())
    } else {
        ink_of(s.drop_last()).push(s.last())
    }
}

/// How many words a text has: one for every character that is not white space and
/// follows none such.
pub open spec fn word_starts(s: Seq<char>) -> nat
    decreases s.len(),
{
    if s.len() == 0 {
        0
    } else {
        word_starts(s.drop_last()) + if !text::is_space(s.last()) && (s.len() == 1
            || text::is_space(s[s.len() - 2])) {
            1nat
        } else {
            0
        }
    }
}

proof fn words_so_far(s: Seq<char>)
    ensures
        ({
            let (done, part) = text::words_and_rest(s);
            &&& run_together(done) + part == ink_of(s)
            &&& forall|i: int| 0 <= i < done.len() ==> (#[trigger] done[i]).len() > 0
            &&& forall|i: int, k: int|
                0 <= i < done.len() && 0 <= k < (#[trigger] done[i]).len() ==> !text::is_space(
                    #[trigger] done[i][k],
                )
            &&& forall|k: int| 0 <= k < part.len() ==> !text::is_space(#[trigger] part[k])
            &&& part.len() > 0 <==> s.len() > 0 && !text::is_space(s.last())
            &&& word_starts(s) == done.len() + if part.len() > 0 {
                1nat
            } else {
                0
            }
        }),
    decreases s.len(),
{
    let (done, part) = text::words_and_rest(s);
    if s.len() == 0 {
        assert(run_together(done) + part =~= ink_of(s));
    } else {
        let less = s.drop_last();
        words_so_far(less);
        let (before, open) = text::words_and_rest(less);
        if s.len() > 1 {
            assert(less.last() == s[s.len() - 2]);
        }
        if text::is_space(s.last()) {
            if open.len() > 0 {
                assert(done.drop_last() =~= before);
                assert(run_together(done) + part =~= run_together(before) + open);
            }
        } else {
            assert(run_together(done) + part =~= (run_together(before) + open).push(s.last()));
        }
    }
}

/// The words of a text are what stands between its white space: none is empty, none
/// holds white space, together they are every other character of the text, and there
/// is one for every place where a word starts.
pub proof fn words_are_what_stands_between(s: Seq<char>)
    ensures
        run_together(text::words(s)) == ink_of(s),
        text::words(s).len() == word_starts(s),
        forall|i: int| 0 <= i < text::words(s).len() ==> (#[trigger] text::words(s)[i]).len() > 0,
        forall|i: int, k: int|
            0 <= i < text::words(s).len() && 0 <= k < (#[trigger] text::words(s)[i]).len()
                ==> !text::is_space(#[trigger] text::words(s)[i][k]),
{
    words_so_far(s);
    let (done, part) = text::words_and_rest(s);
    if part.len() > 0 {
        assert(text::words(s).drop_last() =~= done);
    } else {
        assert(run_together(done) + part =~= run_together(done));
    }
}

/// What decimal digits spell.
pub open spec fn spelled(digits: Seq<char>) -> int
    decreases digits.len(),
{
    if digits.len() == 0 {
        0
    } else {
        spelled(digits.drop_last()) * 10 + (digits.last() as u32 - '0' as u32)
    }
}

/// A number is written in digits that spell it, and without a leading zero.
pub proof fn decimals_spell_their_number(n: nat)
    ensures
        spelled(text::decimal(n)) == n,
        text::decimal(n).len() > 0,
        forall|i: int|
            0 <= i < text::decimal(n).len() ==> '0' <= #[trigger] text::decimal(n)[i] <= '9',
        text::decimal(n).len() > 1 ==> text::decimal(n)[0] != '0',
    decreases n,
{
    reveal_with_fuel(spelled, 2);
    let all = text::decimal(n);
    if n < 10 {
        assert(all.drop_last() =~= Seq::empty());
    } else {
        decimals_spell_their_number(n / 10);
        assert(all.drop_last() =~= text::decimal(n / 10));
        assert(n / 10 > 0);
        if n < 100 {
            assert(text::decimal(n / 10) =~= seq![text::digit((n / 10) as int)]);
        }
    }
}

/// An integer is written as its size is, behind a minus sign where it is negative.
pub proof fn signed_decimals_carry_their_sign(n: int)
    ensures
        n < 0 <==> text::signed_decimal(n)[0] == '-',
        n >= 0 ==> spelled(text::signed_decimal(n)) == n,
        n < 0 ==> spelled(text::signed_decimal(n).drop_first()) == -n,
{
    if n < 0 {
        decimals_spell_their_number((-n) as nat);
        assert(text::signed_decimal(n).drop_first() =~= text::decimal((-n) as nat));
    } else {
        decimals_spell_their_number(n as nat);
        assert('0' <= text::decimal(n as nat)[0]);
    }
}

/// Lower case changes the twenty-six capital letters and nothing else, and changing
/// it again changes nothing.
pub proof fn lowering_changes_capitals_only(s: Seq<char>, i: int)
    requires
        0 <= i < s.len(),
    ensures
        text::ascii_lowered(s).len() == s.len(),
        'A' <= s[i] <= 'Z' ==> text::ascii_lowered(s)[i] as u32 == s[i] as u32 - 'A' as u32
            + 'a' as u32,
        !('A' <= s[i] <= 'Z') ==> text::ascii_lowered(s)[i] == s[i],
        text::ascii_lowered(text::ascii_lowered(s)) == text::ascii_lowered(s),
{
    assert forall|k: int| 0 <= k < s.len() implies text::ascii_lower(
        text::ascii_lower(#[trigger] s[k]),
    ) == text::ascii_lower(s[k]) by {}
    assert(text::ascii_lowered(text::ascii_lowered(s)) =~= text::ascii_lowered(s));
}

/// A text with a character replaced holds it no more, and is otherwise as it was.
pub proof fn replacing_changes_one_character(s: Seq<char>, from: char, to: char, i: int)
    requires
        0 <= i < s.len(),
    ensures
        text::replaced(s, from, to).len() == s.len(),
        s[i] == from ==> text::replaced(s, from, to)[i] == to,
        s[i] != from ==> text::replaced(s, from, to)[i] == s[i],
{
}

/// Every line of a text ends at a line feed, which may have one carriage return
/// before it; what follows the last one is a line too, where there is anything.
pub proof fn lines_end_at_feeds(before: Seq<char>, line: Seq<char>)
    requires
        !line.contains('\n'),
    ensures
        line.len() == 0 || line.last() != '\r' ==> text::lines(before + seq!['\n'] + line + seq!['\n'])
            == text::lines(before + seq!['\n']).push(line),
        text::lines(before + seq!['\n'] + line + seq!['\r', '\n']) == text::lines(
            before + seq!['\n'],
        ).push(line),
        line.len() > 0 ==> text::lines(before + seq!['\n'] + line) == text::lines(
            before + seq!['\n'],
        ).push(line),
{
    let none = Seq::<char>::empty();
    text::pieces_split(before, none, '\n');
    assert(before + seq!['\n'] + none =~= before + seq!['\n']);
    assert(text::pieces(none, '\n') =~= seq![none]);
    let first = text::pieces(before, '\n');
    let strip = |part: Seq<char>| text::without_return(part);
    assert((first + seq![none]).drop_last() =~= first);
    text::pieces_split(before, line, '\n');
    text::one_piece(line, '\n');
    assert((first + seq![line]).drop_last() =~= first);
    // With a line feed behind it.
    text::pieces_split(before + seq!['\n'] + line, none, '\n');
    assert(before + seq!['\n'] + line + seq!['\n'] + none =~= before + seq!['\n'] + line + seq![
        '\n',
    ]);
    assert((first + seq![line] + seq![none]).drop_last() =~= first.push(line));
    assert(first.push(line).map_values(strip) =~= first.map_values(strip).push(
        text::without_return(line),
    ));
    // With a carriage return before it.
    let ended = line.push('\r');
    assert(!ended.contains('\n')) by {
        if ended.contains('\n') {
            let k = choose|k: int| 0 <= k < ended.len() && ended[k] == '\n';
            assert(line[k] == '\n');
        }
    }
    text::pieces_split(before, ended, '\n');
    text::one_piece(ended, '\n');
    text::pieces_split(before + seq!['\n'] + ended, none, '\n');
    assert(before + seq!['\n'] + ended + seq!['\n'] + none =~= before + seq!['\n'] + line + seq![
        '\r',
        '\n',
    ]);
    assert((first + seq![ended] + seq![none]).drop_last() =~= first.push(ended));
    assert(text::without_return(ended) =~= line);
    assert(first.push(ended).map_values(strip) =~= first.map_values(strip).push(line));
}

/// Texts are in the order of a dictionary: of two that first differ in a character, the
/// one with the lesser character comes first, and a text comes before every longer one
/// that it begins.
pub proof fn texts_are_in_dictionary_order(
    same: Seq<char>,
    one: char,
    other: char,
    rest: Seq<char>,
    tail: Seq<char>,
)
    ensures
        (one as u32) < (other as u32) ==> text::text_before(
            same.push(one) + rest,
            same.push(other) + tail,
        ),
        (one as u32) > (other as u32) ==> !text::text_before(
            same.push(one) + rest,
            same.push(other) + tail,
        ),
        text::text_before(same, same.push(other) + tail),
        !text::text_before(same.push(one) + rest, same),
        !text::text_before(same, same),
{
    let a = same.push(one) + rest;
    let b = same.push(other) + tail;
    let n = same.len() as int;
    assert forall|i: int| 0 <= i < n implies a[i] == same[i] && #[trigger] b[i] == same[i] by {}
    equal_so_far(a, b, n, n);
    equal_so_far(same, b, n, n);
    equal_so_far(a, same, n, n);
    equal_so_far(same, same, n, n);
    assert(a[n] == one && b[n] == other);
}

proof fn equal_so_far(a: Seq<char>, b: Seq<char>, upto: int, left: int)
    requires
        0 <= left <= upto,
        upto <= a.len(),
        upto <= b.len(),
        forall|i: int| 0 <= i < upto ==> a[i] == b[i],
    ensures
        text::text_before_from(a, b, upto - left) == text::text_before_from(a, b, upto),
    decreases left,
{
    if left > 0 {
        equal_so_far(a, b, upto, left - 1);
        assert(a[upto - left] == b[upto - left]);
    }
}

/// A blank, a tab and the ends of lines are white space, and so are the wider blanks;
/// nothing that shows is.
pub proof fn white_space_shows_nothing(c: char)
    ensures
        c == ' ' || c == '\t' || c == '\n' || c == '\r' ==> text::is_space(c),
        c as u32 == 0xa0 || c as u32 == 0x3000 || 0x2000 <= c as u32 <= 0x200a ==> text::is_space(c),
        '!' <= c <= '~' ==> !text::is_space(c),
        text::is_space(c) && (c as u32) < 128 ==> c == ' ' || 9 <= c as u32 <= 13,
        0x4e00 <= c as u32 <= 0x9fff ==> !text::is_space(c),
{
}

/// A text begins with what it was put behind, and ends with what was put behind it; and
/// where it begins or ends with something, it is that and the rest.
pub proof fn beginnings_and_ends_are_parts(a: Seq<char>, b: Seq<char>, whole: Seq<char>)
    ensures
        text::begins(a + b, a),
        text::ends(a + b, b),
        text::begins(whole, a) ==> whole == a + whole.skip(a.len() as int),
        text::ends(whole, b) ==> whole == whole.take(whole.len() - b.len()) + b,
{
    assert((a + b).take(a.len() as int) =~= a);
    assert((a + b).skip(a.len() as int) =~= b);
    if text::begins(whole, a) {
        assert(whole =~= whole.take(a.len() as int) + whole.skip(a.len() as int));
    }
    if text::ends(whole, b) {
        let n = whole.len() - b.len();
        assert(whole =~= whole.take(n) + whole.skip(n));
    }
}

/// A character is found where it first stands, and at the end of the text where it
/// stands nowhere.
pub proof fn characters_are_found_first(before: Seq<char>, mark: char, after: Seq<char>)
    requires
        !before.contains(mark),
    ensures
        text::index_from(before.push(mark) + after, mark, 0) == before.len(),
        text::index_from(before, mark, 0) == before.len(),
{
    let whole = before.push(mark) + after;
    found_from(before, whole, mark, before.len() as int);
    nowhere_from(before, mark, 0);
}

proof fn found_from(before: Seq<char>, whole: Seq<char>, mark: char, left: int)
    requires
        !before.contains(mark),
        before.len() < whole.len(),
        forall|i: int| 0 <= i < before.len() ==> whole[i] == before[i],
        whole[before.len() as int] == mark,
        0 <= left <= before.len(),
    ensures
        text::index_from(whole, mark, before.len() - left) == before.len(),
    decreases left,
{
    if left > 0 {
        found_from(before, whole, mark, left - 1);
        let i = before.len() - left;
        assert(whole[i] == before[i]);
        assert(before.contains(before[i]));
    }
}

proof fn nowhere_from(s: Seq<char>, mark: char, from: int)
    requires
        !s.contains(mark),
        0 <= from <= s.len(),
    ensures
        text::index_from(s, mark, from) == s.len(),
    decreases s.len() - from,
{
    if from < s.len() {
        assert(s.contains(s[from]));
        nowhere_from(s, mark, from + 1);
    }
}

} // verus!
