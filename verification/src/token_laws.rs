//! What holds of every token file, and of the steps that lead to its tokens.

use vstd::prelude::*;

use crate::ambient;
use crate::paths;
use crate::text;
use crate::text_laws;
use crate::token;
use crate::token::{
    Accepted, LoadStep, Loaded, Origin, ReadOutcome, TokenError, Trouble, Warning,
};

verus! {

/// A line that holds a token: there is something on it, and that does not start with a
/// number sign.
pub open spec fn holds_token(line: Seq<char>) -> bool {
    let said = text::trimmed(line);
    said.len() > 0 && said[0] != '#'
}

/// The tokens of a file are what stands on its lines, without the white space around
/// it and in order; blank lines and comments hold none.
pub proof fn every_line_holds_its_token(lines: Seq<Seq<char>>)
    ensures
        token::tokens_on(lines) == lines.filter(|line: Seq<char>| holds_token(line)).map_values(
            |line: Seq<char>| text::trimmed(line),
        ),
    decreases lines.len(),
{
    reveal(Seq::filter);
    let keep = |line: Seq<char>| holds_token(line);
    let tight = |line: Seq<char>| text::trimmed(line);
    if lines.len() > 0 {
        let less = lines.drop_last();
        every_line_holds_its_token(less);
        if holds_token(lines.last()) {
            assert(lines.filter(keep) == less.filter(keep).push(lines.last()));
            assert(lines.filter(keep).map_values(tight) =~= less.filter(keep).map_values(
                tight,
            ).push(text::trimmed(lines.last())));
        } else {
            assert(lines.filter(keep) == less.filter(keep));
        }
    } else {
        assert(token::tokens_on(lines) =~= lines.filter(keep).map_values(tight));
    }
}

/// The private directory is the one that the environment names, where it names one,
/// and otherwise the one under the home; without either there is none. The token file
/// stands in it.
pub proof fn the_file_is_in_the_private_directory(
    named: Option<Seq<u8>>,
    home: Option<Seq<u8>>,
)
    ensures
        named is Some && named->0.len() > 0 ==> token::directory(named, home) == named,
        (named is None || named->0.len() == 0) && home is Some ==> token::directory(named, home)
            == Some(paths::joined_path(home->0, vstd::utf8::encode_utf8(".vibrev"@))),
        (named is None || named->0.len() == 0) && home is None ==> token::directory(
            named,
            home,
        ) is None,
        token::directory(named, home) is Some ==> token::file_in(token::directory(named, home)->0)
            == paths::joined_path(
            token::directory(named, home)->0,
            vstd::utf8::encode_utf8("token"@),
        ),
{
}

/// A file is open to others exactly where one of the six bits of group and others is
/// set; the operator is then told its path and its nine permission bits.
pub proof fn bits_of_others_are_told(warnings: Seq<Warning>, path: Seq<u8>, mode: u32)
    requires
        token::is_warning_list(warnings, path, Some(mode)),
    ensures
        mode % 64 != 0 <==> warnings.len() > 0,
        warnings.len() <= 1,
        warnings.len() == 1 ==> match warnings[0] {
            Warning::WorldReadable { path: named, mode: bits } => named@ == path && bits == mode
                % 512,
        },
{
    assert((mode & 0o777) & 0o077 != 0 <==> mode % 64 != 0) by (bit_vector);
    assert(mode & 0o777 == mode % 512) by (bit_vector);
}

/// What octal digits spell.
pub open spec fn octal_number(digits: Seq<char>) -> int
    decreases digits.len(),
{
    if digits.len() == 0 {
        0
    } else {
        octal_number(digits.drop_last()) * 8 + (digits.last() as u32 - '0' as u32)
    }
}

/// Permission bits are written in octal digits that spell them, four at least.
pub proof fn modes_spell_their_bits(mode: nat)
    ensures
        octal_number(token::mode_text(mode)) == mode,
        token::mode_text(mode).len() >= 4,
        forall|i: int|
            0 <= i < token::mode_text(mode).len() ==> '0' <= #[trigger] token::mode_text(mode)[i]
                <= '7',
{
    octals_spell(mode);
    let digits = token::octal(mode);
    if digits.len() < 4 {
        let zeros = Seq::new((4 - digits.len()) as nat, |i: int| '0');
        zeros_add_nothing(zeros, digits);
    }
}

proof fn octals_spell(n: nat)
    ensures
        octal_number(token::octal(n)) == n,
        forall|i: int| 0 <= i < token::octal(n).len() ==> '0' <= #[trigger] token::octal(n)[i] <= '7',
    decreases n,
{
    reveal_with_fuel(octal_number, 2);
    let all = token::octal(n);
    if n < 8 {
        assert(all.drop_last() =~= Seq::empty());
    } else {
        octals_spell(n / 8);
        assert(all.drop_last() =~= token::octal(n / 8));
    }
}

proof fn zeros_add_nothing(zeros: Seq<char>, digits: Seq<char>)
    requires
        text_laws::run_of(zeros, '0'),
    ensures
        octal_number(zeros + digits) == octal_number(digits),
    decreases zeros.len() + digits.len(),
{
    if digits.len() > 0 {
        zeros_add_nothing(zeros, digits.drop_last());
        assert((zeros + digits).drop_last() =~= zeros + digits.drop_last());
    } else if zeros.len() > 0 {
        let less = zeros.drop_last();
        assert(text_laws::run_of(less, '0'));
        zeros_add_nothing(less, digits);
        assert(zeros[zeros.len() - 1] == '0');
        assert((zeros + digits).drop_last() =~= less + digits);
    } else {
        assert(zeros + digits =~= digits);
    }
}

/// A file that is read and holds tokens is what counts, with what is to be said of its
/// bits; one that holds none is an error and no open door. A file that is not there is
/// to be created, and one that cannot be read is an error.
pub proof fn a_file_without_tokens_opens_nothing(
    path: &[u8],
    outcome: ReadOutcome,
    step: LoadStep,
)
    requires
        call_ensures(token::after_read, (path, outcome), step),
    ensures
        match outcome {
            ReadOutcome::Missing => step is Create,
            ReadOutcome::Failed { .. } => step matches LoadStep::Done(Err(_)),
            ReadOutcome::Contents { contents, mode } => match step {
                LoadStep::Done(Ok(loaded)) => loaded.tokens@.len() > 0 && text::texts(
                    loaded.tokens@,
                ) == token::tokens_in(contents@) && loaded.origin == Origin::Existing,
                LoadStep::Done(Err(error)) => token::tokens_in(contents@).len() == 0
                    && error.said() is Empty,
                _ => false,
            },
        },
{
}

/// A set of tokens accepts each token of it, and nothing else; the first is the one
/// that is shown.
pub proof fn every_token_is_accepted(
    tokens: Vec<String>,
    source: Option<Vec<u8>>,
    made: Result<Accepted, TokenError>,
    candidate: &str,
    passed: bool,
    first: &str,
)
    requires
        call_ensures(Accepted::new, (tokens, source), made),
        made matches Ok(accepted) ==> call_ensures(
            Accepted::accepts,
            (&accepted, candidate),
            passed,
        ) && call_ensures(Accepted::primary, (&accepted,), first),
    ensures
        made is Ok <==> tokens@.len() > 0,
        made is Ok ==> (passed <==> exists|i: int|
            0 <= i < tokens@.len() && (#[trigger] tokens@[i])@ == candidate@),
        made is Ok ==> first@ == tokens@[0]@,
        made matches Err(error) ==> error.said() is Empty,
{
    if let Ok(accepted) = made {
        let all = text::texts(tokens@);
        assert(accepted.tokens() == all);
        assert(all[0] == tokens@[0]@);
        if passed {
            let i = choose|i: int| 0 <= i < all.len() && all[i] == candidate@;
            assert(tokens@[i]@ == candidate@);
        }
        if exists|i: int| 0 <= i < tokens@.len() && (#[trigger] tokens@[i])@ == candidate@ {
            let i = choose|i: int| 0 <= i < tokens@.len() && (#[trigger] tokens@[i])@ == candidate@;
            assert(all[i] == candidate@);
        }
    }
}

/// Loaded tokens are accepted as they were read, and belong to the file that they were
/// read from.
pub proof fn loaded_tokens_are_accepted(
    path: &[u8],
    loaded: Loaded,
    made: Result<(Accepted, Loaded), TokenError>,
)
    requires
        call_ensures(Accepted::load, (path, loaded), made),
    ensures
        made is Ok <==> loaded.tokens@.len() > 0,
        made matches Ok(both) ==> both.1 == loaded && both.0.tokens() == text::texts(
            loaded.tokens@,
        ) && both.0.file() == Some(path@),
        made matches Err(error) ==> error.said() == (Trouble::Empty { path: path@ }),
{
}

/// A fresh token is the prefix and sixty-four small hexadecimal digits.
pub proof fn fresh_tokens_have_their_form(made: Seq<char>, i: int)
    requires
        token::is_generated(made),
    ensures
        made.len() == "vbr_"@.len() + 64,
        text::begins(made, "vbr_"@),
        "vbr_"@.len() <= i < made.len() ==> ('0' <= made[i] <= '9' || 'a' <= made[i] <= 'f'),
{
    let (high, low) = choose|high: Seq<char>, low: Seq<char>| #[trigger]
        ambient::is_random_id(high) && #[trigger] ambient::is_random_id(low) && made
            == token::PREFIX@ + high + low;
    assert(made.take("vbr_"@.len() as int) =~= "vbr_"@);
    let n = "vbr_"@.len() as int;
    if n <= i < n + 32 {
        assert(made[i] == high[i - n]);
    } else if n + 32 <= i < made.len() {
        assert(made[i] == low[i - n - 32]);
    }
}

} // verus!
