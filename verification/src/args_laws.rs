//! What holds of every integer that a person types.

use vstd::prelude::*;

use crate::args;
use crate::text;
use crate::text_laws;

verus! {

/// The number that a list of digits stands for in a base.
pub open spec fn number(digits: Seq<int>, base: int) -> int
    decreases digits.len(),
{
    if digits.len() == 0 {
        0
    } else {
        number(digits.drop_last(), base) * base + digits.last()
    }
}

/// Whether a character is a digit of that value.
pub open spec fn shows(c: char, value: int) -> bool {
    ||| 0 <= value < 10 && c as int == '0' as int + value
    ||| 10 <= value < 36 && c as int == 'a' as int + value - 10
    ||| 10 <= value < 36 && c as int == 'A' as int + value - 10
}

/// Whether a character is a digit of that value in a base.
pub open spec fn shows_in(c: char, value: int, base: int) -> bool {
    0 <= value && value < base && shows(c, value)
}

/// Whether a text writes out a list of digits of a base.
pub open spec fn writes(s: Seq<char>, digits: Seq<int>, base: int) -> bool {
    &&& s.len() > 0
    &&& s.len() == digits.len()
    &&& forall|i: int| 0 <= i < s.len() ==> #[trigger] shows_in(s[i], digits[i], base)
}

proof fn written_is_read(s: Seq<char>, digits: Seq<int>, base: int)
    requires
        s.len() == digits.len(),
        2 <= base <= 36,
        forall|i: int| 0 <= i < s.len() ==> #[trigger] shows_in(s[i], digits[i], base),
    ensures
        args::digits_value(s, base) == Some(number(digits, base)),
    decreases s.len(),
{
    if s.len() > 0 {
        let less = s.drop_last();
        assert forall|i: int| 0 <= i < less.len() implies #[trigger] shows_in(
            less[i],
            digits.drop_last()[i],
            base,
        ) by {
            assert(shows_in(s[i], digits[i], base));
        }
        written_is_read(less, digits.drop_last(), base);
        assert(shows_in(s[s.len() - 1], digits[s.len() - 1], base));
    }
}

/// How an integer may start: nothing or a minus, and nothing for ten, `0x` for
/// sixteen, `0b` for two.
pub open spec fn opening(minus: bool, base: int, capital: bool) -> Seq<char> {
    (if minus {
        seq!['-']
    } else {
        Seq::empty()
    }) + (if base == 16 {
        if capital {
            seq!['0', 'X']
        } else {
            seq!['0', 'x']
        }
    } else if base == 2 {
        if capital {
            seq!['0', 'B']
        } else {
            seq!['0', 'b']
        }
    } else {
        Seq::empty()
    })
}

/// A typed integer is read as what its digits stand for in its base, below zero where
/// a minus leads, with white space around it passed over. One that no sixty-four bits
/// hold is none.
pub proof fn typed_integers_are_read(
    lead: Seq<char>,
    minus: bool,
    base: int,
    capital: bool,
    s: Seq<char>,
    digits: Seq<int>,
    trail: Seq<char>,
)
    requires
        text_laws::blank(lead),
        text_laws::blank(trail),
        base == 2 || base == 10 || base == 16,
        writes(s, digits, base),
    ensures
        args::int_value(lead + (opening(minus, base, capital) + s) + trail) == (if number(
            digits,
            base,
        ) > 0x7fff_ffff_ffff_ffff {
            None
        } else if minus {
            Some(-number(digits, base))
        } else {
            Some(number(digits, base))
        }),
{
    reveal_strlit("-");
    reveal_strlit("+");
    reveal_strlit("0x");
    reveal_strlit("0X");
    reveal_strlit("0b");
    reveal_strlit("0B");
    let start = opening(minus, base, capital);
    let core = start + s;
    let last = s.len() - 1;
    assert(shows_in(s[0], digits[0], base));
    assert(shows_in(s[last], digits[last], base));
    assert(core.last() == s[last]);
    assert(core[0] == (if start.len() > 0 {
        start[0]
    } else {
        s[0]
    }));
    text_laws::trimming_leaves_the_core(lead, core, trail);
    let t = if minus {
        core.skip(1)
    } else {
        core
    };
    if minus {
        assert(core.take(1) =~= "-"@);
    } else {
        assert(core.take(1)[0] == core[0]);
    }
    let prefix = opening(false, base, capital);
    assert(t =~= prefix + s);
    if t.len() > 0 {
        assert(t.take(1)[0] == t[0]);
    }
    written_is_read(s, digits, base);
    if base == 10 {
        assert(t =~= s);
        if s.len() > 1 {
            assert(shows_in(s[1], digits[1], base));
            assert(s.take(2)[1] == s[1]);
        }
    } else {
        assert(t.skip(2) =~= s);
        assert(t.take(2)[1] == prefix[1]);
        if base == 16 {
            assert(t.take(2) =~= if capital {
                "0X"@
            } else {
                "0x"@
            });
        } else {
            assert(t.take(2) =~= if capital {
                "0B"@
            } else {
                "0b"@
            });
        }
    }
}

/// A plus may lead decimal digits, and changes nothing.
pub proof fn a_plus_changes_nothing(s: Seq<char>, digits: Seq<int>)
    requires
        writes(s, digits, 10),
        number(digits, 10) <= 0x7fff_ffff_ffff_ffff,
    ensures
        args::int_value(seq!['+'] + s) == Some(number(digits, 10)),
        args::unsigned_value(seq!['+'] + s) == args::unsigned_value(s),
{
    reveal_strlit("-");
    reveal_strlit("+");
    let core = seq!['+'] + s;
    let last = s.len() - 1;
    let none = Seq::<char>::empty();
    assert(shows_in(s[0], digits[0], 10));
    assert(shows_in(s[last], digits[last], 10));
    assert(core.last() == s[last]);
    text_laws::trimming_leaves_the_core(none, core, none);
    assert(none + core + none =~= core);
    assert(core.take(1) =~= "+"@);
    assert(core.skip(1) =~= s);
    written_is_read(s, digits, 10);
}

/// A number without a sign is read as what its decimal digits stand for, where
/// sixty-four bits hold it. What holds anything but digits is none.
pub proof fn counts_are_read(s: Seq<char>, digits: Seq<int>)
    requires
        writes(s, digits, 10),
    ensures
        number(digits, 10) <= 0xffff_ffff_ffff_ffff ==> args::unsigned_value(s) == Some(
            number(digits, 10) as u64,
        ),
        number(digits, 10) > 0xffff_ffff_ffff_ffff ==> args::unsigned_value(s) is None,
{
    assert(shows_in(s[0], digits[0], 10));
    written_is_read(s, digits, 10);
}

proof fn digits_show(c: char, base: int)
    requires
        text::digit_value(c, base) is Some,
        base <= 36,
    ensures
        shows_in(c, text::digit_value(c, base)->0, base),
{
    let u = c as u32 as int;
    let v = text::digit_value(c, base)->0;
    if 0x30 <= u <= 0x39 {
        assert(v == u - 0x30);
    } else if 0x61 <= u <= 0x7a {
        assert(v == u - 0x61 + 10);
    } else if 0x41 <= u <= 0x5a {
        assert(v == u - 0x41 + 10);
    }
}

proof fn strangers_are_refused(s: Seq<char>, base: int, at: int)
    requires
        0 <= at < s.len(),
        forall|value: int| !#[trigger] shows_in(s[at], value, base),
        2 <= base <= 36,
    ensures
        args::digits_value(s, base) is None,
    decreases s.len(),
{
    if at == s.len() - 1 {
        let read = text::digit_value(s[at], base);
        if read is Some {
            digits_show(s[at], base);
            assert(shows_in(s[at], read->0, base));
        }
    } else {
        assert(s.drop_last()[at] == s[at]);
        strangers_are_refused(s.drop_last(), base, at);
    }
}

/// A text that holds, behind what may lead it, anything but a digit is no integer:
/// neither a point nor a space, nor a letter that is no digit of its base.
pub proof fn what_is_no_digit_is_refused(s: Seq<char>, at: int)
    requires
        2 < at < text::trimmed(s).len(),
        forall|value: int| !#[trigger] shows_in(text::trimmed(s)[at], value, 16),
    ensures
        args::int_value(s) is None,
{
    reveal_strlit("-");
    reveal_strlit("+");
    reveal_strlit("0x");
    reveal_strlit("0X");
    reveal_strlit("0b");
    reveal_strlit("0B");
    let t = text::trimmed(s);
    let c = t[at];
    assert forall|value: int| !#[trigger] shows_in(c, value, 10) by {
        assert(!shows_in(c, value, 16));
    }
    assert forall|value: int| !#[trigger] shows_in(c, value, 2) by {
        assert(!shows_in(c, value, 16));
    }
    let u = if text::begins(t, "-"@) {
        t.skip(1)
    } else {
        t
    };
    let k = if text::begins(t, "-"@) {
        at - 1
    } else {
        at
    };
    assert(u[k] == c);
    assert(u.skip(2)[k - 2] == c);
    strangers_are_refused(u.skip(2), 16, k - 2);
    strangers_are_refused(u.skip(2), 2, k - 2);
    strangers_are_refused(u, 10, k);
    assert(t.skip(1)[at - 1] == c);
    strangers_are_refused(t.skip(1), 10, at - 1);
}

} // verus!
