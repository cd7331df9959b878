//! Integers as they arrive: typed by a person, or on the wire as `i64`.

use vstd::prelude::*;

use crate::text;
use crate::text::{chars_of, quoted, signed_decimal_of, strip_prefix, trim, value_of_digit};

verus! {

/// The number that digits spell in a base, if they are all digits of it.
pub open spec fn digits_value(s: Seq<char>, base: int) -> Option<int>
    decreases s.len(),
{
    if s.len() == 0 {
        Some(0)
    } else {
        match (digits_value(s.drop_last(), base), text::digit_value(s.last(), base)) {
            (Some(value), Some(d)) => Some(value * base + d),
            _ => None,
        }
    }
}

/// The number that a text spells in a base with at least one digit and no sign,
/// where an `i64` holds it.
pub open spec fn radix_value(s: Seq<char>, base: int) -> Option<int> {
    if s.len() == 0 {
        None
    } else {
        match digits_value(s, base) {
            Some(value) => if value <= i64::MAX {
                Some(value)
            } else {
                None
            },
            None => None,
        }
    }
}

/// What is left of a typed integer once white space and one minus are off, and
/// whether the minus was there.
pub open spec fn unsigned_part(s: Seq<char>) -> (bool, Seq<char>) {
    let t = text::trimmed(s);
    if text::begins(t, "-"@) {
        (true, t.skip(1))
    } else {
        (false, t)
    }
}

/// The number behind the optional minus: `0x` hexadecimal, `0b` binary, or
/// decimal. No digit of it is a sign.
pub open spec fn magnitude(t: Seq<char>) -> Option<int> {
    if text::begins(t, "0x"@) || text::begins(t, "0X"@) {
        radix_value(t.skip(2), 16)
    } else if text::begins(t, "0b"@) || text::begins(t, "0B"@) {
        radix_value(t.skip(2), 2)
    } else {
        radix_value(t, 10)
    }
}

/// The integer that a person typed: one sign at most. A plus may stand in front of
/// decimal digits only.
pub open spec fn int_value(s: Seq<char>) -> Option<int> {
    let (minus, t) = unsigned_part(s);
    if minus {
        match magnitude(t) {
            Some(value) => Some(-value),
            None => None,
        }
    } else if text::begins(t, "+"@) {
        radix_value(t.skip(1), 10)
    } else {
        magnitude(t)
    }
}

/// What a text that is no integer is told.
pub open spec fn not_an_integer(s: Seq<char>) -> Seq<char> {
    text::debug_text(s) + " is not a valid integer (use 184 or 0xb8)"@
}

proof fn grows(s: Seq<char>, n: int, base: int, least: int)
    requires
        0 <= n <= s.len(),
        base >= 1,
        least >= 0,
        match digits_value(s.take(n), base) {
            Some(value) => value > least,
            None => true,
        },
    ensures
        match digits_value(s, base) {
            Some(value) => value > least,
            None => true,
        },
    decreases s.len() - n,
{
    if n == s.len() {
        assert(s.take(n) =~= s);
    } else {
        assert(s.take(n + 1).drop_last() =~= s.take(n));
        let before = digits_value(s.take(n), base);
        let d = text::digit_value(s[n], base);
        if before is Some && d is Some {
            let value = before->0;
            assert(value * base >= value) by (nonlinear_arith)
                requires
                    value >= 0,
                    base >= 1,
            ;
        }
        grows(s, n + 1, base, least);
    }
}

fn radix(digits: &[char], base: u32, max: u64) -> (res: Option<u64>)
    requires
        base == 2 || base == 10 || base == 16,
    ensures
        match res {
            Some(value) => digits_value(digits@, base as int) == Some(value as int) && value
                <= max,
            None => match digits_value(digits@, base as int) {
                Some(value) => value > max,
                None => true,
            },
        },
{
    let mut value: u64 = 0;
    let mut i: usize = 0;
    assert(digits@.take(0) =~= Seq::<char>::empty());
    while i < digits.len()
        invariant
            i <= digits.len(),
            base == 2 || base == 10 || base == 16,
            value <= max,
            digits_value(digits@.take(i as int), base as int) == Some(value as int),
        decreases digits.len() - i,
    {
        assert(digits@.take(i + 1).drop_last() =~= digits@.take(i as int));
        let d: u32 = match value_of_digit(digits[i], base) {
            Some(d) => d,
            None => {
                proof {
                    grows(digits@, i + 1, base as int, max as int);
                }
                return None;
            },
        };
        assert(value * base <= 0xff_ffff_ffff_ffff_ffff && value * base >= 0) by (nonlinear_arith)
            requires
                value <= 0xffff_ffff_ffff_ffff,
                base <= 16,
        ;
        let next: u128 = value as u128 * base as u128 + d as u128;
        if next > max as u128 {
            proof {
                grows(digits@, i + 1, base as int, max as int);
            }
            return None;
        }
        value = next as u64;
        i += 1;
    }
    assert(digits@.take(digits@.len() as int) =~= digits@);
    Some(value)
}

fn from_radix(t: &str, base: u32) -> (res: Option<i64>)
    requires
        base == 2 || base == 10 || base == 16,
    ensures
        match res {
            Some(value) => radix_value(t@, base as int) == Some(value as int) && value >= 0,
            None => radix_value(t@, base as int) is None,
        },
{
    let digits = chars_of(t);
    if digits.len() == 0 {
        return None;
    }
    match radix(digits.as_slice(), base, 0x7fff_ffff_ffff_ffff) {
        None => None,
        Some(value) => Some(value as i64),
    }
}

fn read_magnitude(t: &str) -> (res: Option<i64>)
    ensures
        match res {
            Some(value) => magnitude(t@) == Some(value as int) && value >= 0,
            None => magnitude(t@) is None,
        },
{
    proof {
        reveal_strlit("0x");
        reveal_strlit("0X");
        reveal_strlit("0b");
        reveal_strlit("0B");
    }
    if let Some(digits) = strip_prefix(t, "0x") {
        from_radix(digits, 16)
    } else if let Some(digits) = strip_prefix(t, "0X") {
        from_radix(digits, 16)
    } else if let Some(digits) = strip_prefix(t, "0b") {
        from_radix(digits, 2)
    } else if let Some(digits) = strip_prefix(t, "0B") {
        from_radix(digits, 2)
    } else {
        from_radix(t, 10)
    }
}

/// The number without a sign that a text spells in decimal: an optional plus and
/// at least one digit.
pub open spec fn unsigned_value(s: Seq<char>) -> Option<u64> {
    let digits = if s.len() > 0 && s[0] == '+' {
        s.skip(1)
    } else {
        s
    };
    if digits.len() == 0 {
        None
    } else {
        match digits_value(digits, 10) {
            Some(value) => if value <= u64::MAX {
                Some(value as u64)
            } else {
                None
            },
            None => None,
        }
    }
}

/// The number without a sign that a text spells in decimal.
pub fn parse_u64(s: &str) -> (res: Option<u64>)
    ensures
        res == unsigned_value(s@),
{
    let chars = chars_of(s);
    let n = chars.len();
    let from: usize = if n > 0 && chars[0] == '+' {
        1
    } else {
        0
    };
    let digits = vstd::slice::slice_subrange(chars.as_slice(), from, n);
    assert(from == 0 ==> digits@ =~= s@);
    assert(from == 1 ==> digits@ =~= s@.skip(1));
    if digits.len() == 0 {
        return None;
    }
    radix(digits, 10, u64::MAX)
}

/// Reads an integer the way an agent writes one: decimal, `0x` hexadecimal or
/// `0b` binary, with an optional leading `-`.
pub fn parse_int(s: &str) -> (res: Result<i64, String>)
    ensures
        match res {
            Ok(value) => int_value(s@) == Some(value as int),
            Err(message) => int_value(s@) is None && message@ == not_an_integer(s@),
        },
{
    proof {
        reveal_strlit("-");
        reveal_strlit("+");
    }
    let trimmed = trim(s);
    let parsed = if let Some(rest) = strip_prefix(trimmed, "-") {
        match read_magnitude(rest) {
            Some(value) => Some(-value),
            None => None,
        }
    } else if let Some(rest) = strip_prefix(trimmed, "+") {
        from_radix(rest, 10)
    } else {
        read_magnitude(trimmed)
    };
    match parsed {
        Some(value) => Ok(value),
        None => {
            let mut message = quoted(s);
            message.append(" is not a valid integer (use 184 or 0xb8)");
            Err(message)
        },
    }
}

proof fn digits_hold_no_sign(s: Seq<char>, base: int, at: int)
    requires
        digits_value(s, base) is Some,
        base <= 36,
        0 <= at < s.len(),
    ensures
        s[at] != '-' && s[at] != '+',
    decreases s.len(),
{
    if at < s.len() - 1 {
        digits_hold_no_sign(s.drop_last(), base, at);
        assert(s.drop_last()[at] == s[at]);
    }
}

proof fn magnitude_holds_no_sign(t: Seq<char>, at: int)
    requires
        magnitude(t) is Some,
        0 <= at < t.len(),
    ensures
        t[at] != '-' && t[at] != '+',
{
    reveal_strlit("0x");
    reveal_strlit("0X");
    reveal_strlit("0b");
    reveal_strlit("0B");
    let hex = text::begins(t, "0x"@) || text::begins(t, "0X"@);
    let binary = text::begins(t, "0b"@) || text::begins(t, "0B"@);
    if hex || binary {
        if at >= 2 {
            digits_hold_no_sign(
                t.skip(2),
                if hex {
                    16
                } else {
                    2
                },
                at - 2,
            );
            assert(t.skip(2)[at - 2] == t[at]);
        } else {
            assert(t.take(2)[at] == t[at]);
        }
    } else {
        digits_hold_no_sign(t, 10, at);
    }
}

/// A text that is an integer has one sign at most, and it leads: behind the first
/// character there is none.
pub proof fn a_sign_only_leads(s: Seq<char>, at: int)
    requires
        int_value(s) is Some,
        1 <= at < text::trimmed(s).len(),
    ensures
        text::trimmed(s)[at] != '-',
        text::trimmed(s)[at] != '+',
{
    reveal_strlit("-");
    reveal_strlit("+");
    let t = text::trimmed(s);
    if text::begins(t, "-"@) {
        magnitude_holds_no_sign(t.skip(1), at - 1);
        assert(t.skip(1)[at - 1] == t[at]);
    } else if text::begins(t, "+"@) {
        digits_hold_no_sign(t.skip(1), 10, at - 1);
        assert(t.skip(1)[at - 1] == t[at]);
    } else {
        magnitude_holds_no_sign(t, at);
    }
}

/// A wire value that does not fit the type it is for.
#[derive(Debug, Clone, PartialEq, Eq)]
pub struct OutOfRange {
    pub field: String,
    pub value: i64,
    pub expected: &'static str,
}

/// What a caller is told of a number that does not fit.
pub open spec fn out_of_range_text(field: Seq<char>, value: int, expected: Seq<char>) -> Seq<char> {
    field + " ("@ + text::signed_decimal(value) + ") is out of range for "@ + expected
}

impl OutOfRange {
    /// The value, the field it came in and the type it had to fit.
    pub fn message(&self) -> (res: String)
        ensures
            res@ == out_of_range_text(self.field@, self.value as int, self.expected@),
    {
        let mut out = self.field.clone();
        out.append(" (");
        out.append(signed_decimal_of(self.value).as_str());
        out.append(") is out of range for ");
        out.append(self.expected);
        out
    }
}

/// An unsigned integer type that travels as `i64`.
pub trait WireUnsigned: Sized {
    /// The number a value stands for.
    spec fn number(self) -> int;

    /// The greatest number of the type.
    spec fn greatest() -> int;

    /// How the type is written.
    spec fn type_text() -> Seq<char>;

    /// The value of the type that stands for the number, if there is one.
    fn from_wire(value: i64) -> (res: Option<Self>)
        ensures
            match res {
                Some(read) => read.number() == value && 0 <= value <= Self::greatest(),
                None => value < 0 || value > Self::greatest(),
            },
    ;

    /// How the type is written.
    fn type_label() -> (res: &'static str)
        ensures
            res@ == Self::type_text(),
    ;
}

impl WireUnsigned for u8 {
    open spec fn number(self) -> int {
        self as int
    }

    open spec fn greatest() -> int {
        u8::MAX as int
    }

    open spec fn type_text() -> Seq<char> {
        "u8"@
    }

    fn from_wire(value: i64) -> (res: Option<Self>) {
        if 0 <= value && value as u64 <= u8::MAX as u64 {
            Some(value as u8)
        } else {
            None
        }
    }

    fn type_label() -> (res: &'static str) {
        "u8"
    }
}

impl WireUnsigned for u16 {
    open spec fn number(self) -> int {
        self as int
    }

    open spec fn greatest() -> int {
        u16::MAX as int
    }

    open spec fn type_text() -> Seq<char> {
        "u16"@
    }

    fn from_wire(value: i64) -> (res: Option<Self>) {
        if 0 <= value && value as u64 <= u16::MAX as u64 {
            Some(value as u16)
        } else {
            None
        }
    }

    fn type_label() -> (res: &'static str) {
        "u16"
    }
}

impl WireUnsigned for u32 {
    open spec fn number(self) -> int {
        self as int
    }

    open spec fn greatest() -> int {
        u32::MAX as int
    }

    open spec fn type_text() -> Seq<char> {
        "u32"@
    }

    fn from_wire(value: i64) -> (res: Option<Self>) {
        if 0 <= value && value as u64 <= u32::MAX as u64 {
            Some(value as u32)
        } else {
            None
        }
    }

    fn type_label() -> (res: &'static str) {
        "u32"
    }
}

impl WireUnsigned for u64 {
    open spec fn number(self) -> int {
        self as int
    }

    open spec fn greatest() -> int {
        u64::MAX as int
    }

    open spec fn type_text() -> Seq<char> {
        "u64"@
    }

    fn from_wire(value: i64) -> (res: Option<Self>) {
        if 0 <= value {
            Some(value as u64)
        } else {
            None
        }
    }

    fn type_label() -> (res: &'static str) {
        "u64"
    }
}

impl WireUnsigned for u128 {
    open spec fn number(self) -> int {
        self as int
    }

    open spec fn greatest() -> int {
        u128::MAX as int
    }

    open spec fn type_text() -> Seq<char> {
        "u128"@
    }

    fn from_wire(value: i64) -> (res: Option<Self>) {
        if 0 <= value {
            Some(value as u128)
        } else {
            None
        }
    }

    fn type_label() -> (res: &'static str) {
        "u128"
    }
}

impl WireUnsigned for usize {
    open spec fn number(self) -> int {
        self as int
    }

    open spec fn greatest() -> int {
        usize::MAX as int
    }

    open spec fn type_text() -> Seq<char> {
        "usize"@
    }

    fn from_wire(value: i64) -> (res: Option<Self>) {
        if 0 <= value && value as u128 <= usize::MAX as u128 {
            Some(value as usize)
        } else {
            None
        }
    }

    fn type_label() -> (res: &'static str) {
        "usize"
    }
}

/// Reads an unsigned quantity back from the `i64` it travels as.
pub fn parse_unsigned<T: WireUnsigned>(value: i64, field: &str) -> (res: Result<T, OutOfRange>)
    ensures
        match res {
            Ok(read) => read.number() == value && 0 <= value <= T::greatest(),
            Err(refusal) => (value < 0 || value > T::greatest()) && refusal.field@ == field@
                && refusal.value == value && refusal.expected@ == T::type_text(),
        },
{
    match T::from_wire(value) {
        Some(read) => Ok(read),
        None => Err(
            OutOfRange { field: field.to_owned(), value, expected: T::type_label() },
        ),
    }
}

/// Reads an optional unsigned quantity back: an absent one stays absent.
pub fn parse_optional_unsigned<T: WireUnsigned>(value: Option<i64>, field: &str) -> (res: Result<
    Option<T>,
    OutOfRange,
>)
    ensures
        match res {
            Ok(Some(read)) => value is Some && read.number() == value->0 && 0 <= value->0
                <= T::greatest(),
            Ok(None) => value is None,
            Err(refusal) => value is Some && (value->0 < 0 || value->0 > T::greatest())
                && refusal.field@ == field@ && refusal.value == value->0 && refusal.expected@
                == T::type_text(),
        },
{
    match value {
        Some(value) => match parse_unsigned(value, field) {
            Ok(read) => Ok(Some(read)),
            Err(refusal) => Err(refusal),
        },
        None => Ok(None),
    }
}

} // verus!
