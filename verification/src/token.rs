//! The shared HTTP bearer token file (`~/.vibrev/token`).
//!
//! Two programs open this file and neither can see the other's source: the
//! installer rotates it, and every engine that opens a listener reads it.
//!
//! One token per line; blank lines and `#` comments are ignored. Every line is
//! accepted, not only the first. That is what makes a rotation safe to
//! interrupt: the new token goes on line one while the outgoing one stays on
//! line two and stays valid.
//!
//! The file is opened elsewhere; what is read and written is decided here.

use vstd::prelude::*;

use crate::ambient;
use crate::ambient::random_id;
use crate::paths;
use crate::paths::{copy_bytes, join_path, path_text};
use crate::text;
use crate::text::{decimal_of, join, list_has, quoted, same, split_lines, trim};

verus! {

/// Prefix on generated tokens.
pub const PREFIX: &'static str = "vbr_";

/// The private directory under the user's home.
pub const DIR_NAME: &'static str = ".vibrev";

/// The token file inside it.
pub const FILE_NAME: &'static str = "token";

/// Environment override for the directory.
pub const DIR_ENV: &'static str = "VIBREV_HOME";

const HEADER_1: &'static str = "# vibrev shared HTTP bearer token.";

const HEADER_2: &'static str = "# One token per line; blank lines and #-comments are ignored.";

const HEADER_3: &'static str = "# The first entry is the current token. During a rotation the previous";

const HEADER_4: &'static str = "# token stays on a later line and stays accepted, so a rotation that";

const HEADER_5: &'static str = "# fails halfway through does not take any client offline.";

/// How many times to go through reading and creating before giving up.
pub const CREATE_RETRIES: usize = 3;

/// What is wrong with a token file. A path is the bytes it is made of, and a
/// reason what the system gave.
#[derive(Debug, PartialEq, Eq)]
pub enum TokenError {
    Empty { path: Vec<u8> },
    Read { path: Vec<u8>, reason: String },
    Create { path: Vec<u8>, reason: String },
    CreateDir { path: Vec<u8>, reason: String },
    Write { path: Vec<u8>, reason: String },
    /// Neither the override nor a home directory.
    NoHome,
}

/// What a [`TokenError`] says.
pub enum Trouble {
    Empty { path: Seq<u8> },
    Read { path: Seq<u8>, reason: Seq<char> },
    Create { path: Seq<u8>, reason: Seq<char> },
    CreateDir { path: Seq<u8>, reason: Seq<char> },
    Write { path: Seq<u8>, reason: Seq<char> },
    NoHome,
}

impl TokenError {
    pub open spec fn said(&self) -> Trouble {
        match self {
            TokenError::Empty { path } => Trouble::Empty { path: path@ },
            TokenError::Read { path, reason } => Trouble::Read { path: path@, reason: reason@ },
            TokenError::Create { path, reason } => Trouble::Create {
                path: path@,
                reason: reason@,
            },
            TokenError::CreateDir { path, reason } => Trouble::CreateDir {
                path: path@,
                reason: reason@,
            },
            TokenError::Write { path, reason } => Trouble::Write { path: path@, reason: reason@ },
            TokenError::NoHome => Trouble::NoHome,
        }
    }

    /// What a reader is told.
    pub fn message(&self) -> (res: String)
        ensures
            res@ == trouble_text(self.said()),
    {
        match self {
            TokenError::Empty { path } => {
                let mut out = "token file ".to_owned();
                let shown = path_text(path.as_slice());
                out.append(shown.as_str());
                out.append(" is empty; it must hold at least one token, one per line");
                out
            },
            TokenError::Read { path, reason } => told(
                "failed to read token file ",
                path.as_slice(),
                reason.as_str(),
            ),
            TokenError::Create { path, reason } => told(
                "failed to create token file ",
                path.as_slice(),
                reason.as_str(),
            ),
            TokenError::CreateDir { path, reason } => told(
                "failed to create token directory ",
                path.as_slice(),
                reason.as_str(),
            ),
            TokenError::Write { path, reason } => told(
                "failed to write token file ",
                path.as_slice(),
                reason.as_str(),
            ),
            TokenError::NoHome => "cannot locate the home directory for ~/.vibrev/token; set VIBREV_HOME or name the file explicitly".to_owned(),
        }
    }
}

fn told(what: &str, path: &[u8], reason: &str) -> (res: String)
    ensures
        res@ == what@ + paths::lossy_text(path@) + ": "@ + reason@,
{
    let mut out = what.to_owned();
    let shown = path_text(path);
    out.append(shown.as_str());
    out.append(": ");
    out.append(reason);
    out
}

/// What a reader is told of what is wrong.
pub open spec fn trouble_text(trouble: Trouble) -> Seq<char> {
    match trouble {
        Trouble::Empty { path } => "token file "@ + paths::lossy_text(path)
            + " is empty; it must hold at least one token, one per line"@,
        Trouble::Read { path, reason } => "failed to read token file "@ + paths::lossy_text(path)
            + ": "@ + reason,
        Trouble::Create { path, reason } => "failed to create token file "@ + paths::lossy_text(
            path,
        ) + ": "@ + reason,
        Trouble::CreateDir { path, reason } => "failed to create token directory "@
            + paths::lossy_text(path) + ": "@ + reason,
        Trouble::Write { path, reason } => "failed to write token file "@ + paths::lossy_text(path)
            + ": "@ + reason,
        Trouble::NoHome => "cannot locate the home directory for ~/.vibrev/token; set VIBREV_HOME or name the file explicitly"@,
    }
}

// ---------------------------------------------------------------------------
// Where the file is
// ---------------------------------------------------------------------------

/// The bytes of an optional path.
pub open spec fn opt_path(path: Option<&[u8]>) -> Option<Seq<u8>> {
    match path {
        Some(path) => Some(path@),
        None => None,
    }
}

/// The private directory: the override where it is not empty, else the one under
/// the home.
pub open spec fn directory(override_dir: Option<Seq<u8>>, home: Option<Seq<u8>>) -> Option<
    Seq<u8>,
> {
    match override_dir {
        Some(explicit) if explicit.len() > 0 => Some(explicit),
        _ => match home {
            Some(home) => Some(
                paths::joined_path(home, vstd::utf8::encode_utf8(DIR_NAME@)),
            ),
            None => None,
        },
    }
}

/// The token file in a directory.
pub open spec fn file_in(dir: Seq<u8>) -> Seq<u8> {
    paths::joined_path(dir, vstd::utf8::encode_utf8(FILE_NAME@))
}

/// The private directory: what the environment says, else `home/.vibrev`. An
/// empty override is a shell accident, not a location.
pub fn resolve_dir(override_dir: Option<&[u8]>, home: Option<&[u8]>) -> (res: Option<Vec<u8>>)
    ensures
        crate::output::opt_bytes(res) == directory(opt_path(override_dir), opt_path(home)),
{
    if let Some(explicit) = override_dir {
        if explicit.len() > 0 {
            return Some(copy_bytes(explicit));
        }
    }
    match home {
        Some(home) => Some(join_path(home, DIR_NAME)),
        None => None,
    }
}

/// The token file inside an already-resolved directory.
pub fn path_in(dir: &[u8]) -> (res: Vec<u8>)
    ensures
        res@ == file_in(dir@),
{
    join_path(dir, FILE_NAME)
}

/// The token file, given what the environment says.
pub fn default_path(override_dir: Option<&[u8]>, home: Option<&[u8]>) -> (res: Result<
    Vec<u8>,
    TokenError,
>)
    ensures
        match directory(opt_path(override_dir), opt_path(home)) {
            Some(dir) => res is Ok && res->Ok_0@ == file_in(dir),
            None => res is Err && res->Err_0.said() is NoHome,
        },
{
    match resolve_dir(override_dir, home) {
        Some(dir) => Ok(path_in(dir.as_slice())),
        None => Err(TokenError::NoHome),
    }
}

// ---------------------------------------------------------------------------
// What is in the file
// ---------------------------------------------------------------------------

/// A line that holds no token: a blank one or a comment.
pub open spec fn is_note(line: Seq<char>) -> bool {
    text::trimmed(line).len() == 0 || text::trimmed(line)[0] == '#'
}

fn note(line: &str) -> (res: bool)
    ensures
        res == is_note(line@),
{
    let tight = trim(line);
    tight.is_empty() || tight.get_char(0) == '#'
}

/// The tokens on some lines.
pub open spec fn tokens_on(lines: Seq<Seq<char>>) -> Seq<Seq<char>>
    decreases lines.len(),
{
    if lines.len() == 0 {
        Seq::empty()
    } else {
        let before = tokens_on(lines.drop_last());
        if is_note(lines.last()) {
            before
        } else {
            before.push(text::trimmed(lines.last()))
        }
    }
}

/// The tokens in a file.
pub open spec fn tokens_in(contents: Seq<char>) -> Seq<Seq<char>> {
    tokens_on(text::lines(contents))
}

/// Tokens in file order. The first is the current one; the rest are accepted
/// only so that a rotation in progress cannot strand a client.
pub fn parse(contents: &str) -> (res: Vec<String>)
    ensures
        text::texts(res@) == tokens_in(contents@),
{
    let lines = split_lines(contents);
    let ghost all = text::texts(lines@);
    let mut out: Vec<String> = Vec::new();
    let mut i: usize = 0;
    assert(text::texts(out@) =~= tokens_on(all.take(0)));
    while i < lines.len()
        invariant
            i <= lines.len(),
            all == text::texts(lines@),
            text::texts(out@) == tokens_on(all.take(i as int)),
        decreases lines.len() - i,
    {
        let ghost former = out@;
        assert(all.take(i + 1).drop_last() =~= all.take(i as int));
        assert(all.take(i + 1).last() == lines@[i as int]@);
        if !note(lines[i].as_str()) {
            let token = trim(lines[i].as_str()).to_owned();
            let ghost said = token@;
            out.push(token);
            assert(text::texts(out@) =~= text::texts(former).push(said));
        }
        i += 1;
    }
    assert(all.take(all.len() as int) =~= all);
    out
}

/// How many lines come before the first token.
pub open spec fn notes_from(lines: Seq<Seq<char>>, from: int) -> int
    decreases lines.len() - from,
{
    if from >= lines.len() {
        lines.len() as int
    } else if is_note(lines[from]) {
        notes_from(lines, from + 1)
    } else {
        from
    }
}

/// The lines before the first token.
pub open spec fn leading_notes(contents: Seq<char>) -> Seq<Seq<char>> {
    text::lines(contents).take(notes_from(text::lines(contents), 0))
}

/// The comments at the top of a file.
pub open spec fn comments_in(contents: Seq<char>) -> Seq<char> {
    text::joined(leading_notes(contents), seq!['\n'])
}

fn leading_comments(contents: &str) -> (res: String)
    ensures
        res@ == comments_in(contents@),
{
    let lines = split_lines(contents);
    let ghost all = text::texts(lines@);
    let mut out: Vec<String> = Vec::new();
    let mut i: usize = 0;
    assert(text::texts(out@) =~= all.take(0));
    while i < lines.len() && note(lines[i].as_str())
        invariant
            i <= lines.len(),
            all == text::texts(lines@),
            text::texts(out@) == all.take(i as int),
            notes_from(all, 0) == notes_from(all, i as int),
        decreases lines.len() - i,
    {
        let ghost former = out@;
        assert(all[i as int] == lines@[i as int]@);
        out.push(lines[i].clone());
        assert(text::texts(out@) =~= text::texts(former).push(all[i as int]));
        assert(all.take(i + 1) =~= all.take(i as int).push(all[i as int]));
        i += 1;
    }
    assert(i < all.len() ==> all[i as int] == lines@[i as int]@);
    assert("\n"@ =~= seq!['\n']) by {
        reveal_strlit("\n");
    }
    join(out.as_slice(), "\n")
}

/// The lines a fresh file starts with.
pub closed spec fn header_lines() -> Seq<Seq<char>> {
    seq![HEADER_1@, HEADER_2@, HEADER_3@, HEADER_4@, HEADER_5@]
}

/// What a fresh file starts with.
pub open spec fn header() -> Seq<char> {
    text::joined(header_lines(), seq!['\n']).push('\n')
}

/// What a file starts with. Comments at the top of the file that is there are
/// kept; a file that has none, or is not there, gets the header.
pub open spec fn preamble(existing: Option<Seq<char>>) -> Seq<char> {
    let top = match existing {
        Some(contents) if text::trimmed(comments_in(contents)).len() > 0 => comments_in(contents),
        _ => header(),
    };
    if top.len() > 0 && top.last() == '\n' {
        top
    } else {
        top.push('\n')
    }
}

/// Tokens, each on a line.
pub open spec fn token_lines(tokens: Seq<Seq<char>>) -> Seq<char>
    decreases tokens.len(),
{
    if tokens.len() == 0 {
        Seq::empty()
    } else {
        (token_lines(tokens.drop_last()) + tokens.last()).push('\n')
    }
}

/// A file that holds exactly these tokens.
pub open spec fn file_text(existing: Option<Seq<char>>, tokens: Seq<Seq<char>>) -> Seq<char> {
    preamble(existing) + token_lines(tokens)
}

fn fresh_header() -> (res: String)
    ensures
        res@ == header(),
{
    let mut lines: Vec<String> = Vec::new();
    lines.push(HEADER_1.to_owned());
    lines.push(HEADER_2.to_owned());
    lines.push(HEADER_3.to_owned());
    lines.push(HEADER_4.to_owned());
    lines.push(HEADER_5.to_owned());
    assert(text::texts(lines@) =~= header_lines());
    assert("\n"@ =~= seq!['\n']) by {
        reveal_strlit("\n");
    }
    let mut out = join(lines.as_slice(), "\n");
    out.push('\n');
    out
}

/// The file that holds exactly `tokens`, in order, the current one first.
///
/// Comments at the top are kept: the file is documentation as much as it is
/// data.
pub fn render(existing: Option<&str>, tokens: &[String]) -> (res: String)
    ensures
        res@ == file_text(crate::output::opt_str(existing), text::texts(tokens@)),
{
    let mut kept: Option<String> = None;
    if let Some(contents) = existing {
        let comments = leading_comments(contents);
        if !trim(comments.as_str()).is_empty() {
            kept = Some(comments);
        }
    }
    let mut body = match kept {
        Some(comments) => comments,
        None => fresh_header(),
    };
    let long = body.as_str().unicode_len();
    if long == 0 || body.as_str().get_char(long - 1) != '\n' {
        body.push('\n');
    }
    assert(body@ == preamble(crate::output::opt_str(existing)));
    let ghost top = body@;
    let ghost all = text::texts(tokens@);
    let mut i: usize = 0;
    assert(body@ =~= top + token_lines(all.take(0)));
    while i < tokens.len()
        invariant
            i <= tokens.len(),
            all == text::texts(tokens@),
            body@ == top + token_lines(all.take(i as int)),
        decreases tokens.len() - i,
    {
        let ghost before = token_lines(all.take(i as int));
        assert(all.take(i + 1).drop_last() =~= all.take(i as int));
        assert(all.take(i + 1).last() == tokens@[i as int]@);
        body.append(tokens[i].as_str());
        body.push('\n');
        assert(body@ =~= top + (before + tokens@[i as int]@).push('\n'));
        i += 1;
    }
    assert(all.take(all.len() as int) =~= all);
    body
}

/// The file of one fresh token.
pub fn fresh_file(token: &str) -> (res: String)
    ensures
        res@ == file_text(None, seq![token@]),
{
    let mut tokens: Vec<String> = Vec::new();
    tokens.push(token.to_owned());
    assert(text::texts(tokens@) =~= seq![token@]);
    render(None, tokens.as_slice())
}

// ---------------------------------------------------------------------------
// Fresh tokens
// ---------------------------------------------------------------------------

/// A generated token: the prefix and sixty-four random digits.
pub open spec fn is_generated(token: Seq<char>) -> bool {
    exists|high: Seq<char>, low: Seq<char>| #[trigger]
        ambient::is_random_id(high) && #[trigger] ambient::is_random_id(low) && token == PREFIX@
            + high + low
}

/// A fresh token: two random identifiers behind [`PREFIX`].
pub fn generate() -> (res: String)
    ensures
        is_generated(res@),
{
    let high = random_id();
    let low = random_id();
    let mut out = PREFIX.to_owned();
    out.append(high.as_str());
    out.append(low.as_str());
    assert(ambient::is_random_id(high@) && ambient::is_random_id(low@));
    out
}

/// A number in hexadecimal digits, as many as asked for.
pub open spec fn numbered(n: nat, width: nat) -> Seq<char>
    decreases width,
{
    if width == 0 {
        Seq::empty()
    } else {
        numbered(n / 16, (width - 1) as nat).push(text::hex_digit((n % 16) as int))
    }
}

/// How many numbers so many hexadecimal digits can tell apart.
spec fn numbers(width: nat) -> nat
    decreases width,
{
    if width == 0 {
        1
    } else {
        16 * numbers((width - 1) as nat)
    }
}

proof fn numbers_differ(a: nat, b: nat, width: nat)
    requires
        a != b,
        a < numbers(width),
        b < numbers(width),
    ensures
        numbered(a, width) != numbered(b, width),
    decreases width,
{
    if width > 0 {
        let less = (width - 1) as nat;
        if a % 16 == b % 16 {
            numbers_differ(a / 16, b / 16, less);
            assert(numbered(a, width).drop_last() =~= numbered(a / 16, less));
            assert(numbered(b, width).drop_last() =~= numbered(b / 16, less));
        } else {
            assert(numbered(a, width).last() != numbered(b, width).last());
        }
    }
}

proof fn numbers_are_digits(n: nat, width: nat)
    ensures
        numbered(n, width).len() == width,
        forall|i: int| 0 <= i < width ==> ambient::is_hex(#[trigger] numbered(n, width)[i]),
    decreases width,
{
    if width > 0 {
        numbers_are_digits(n / 16, (width - 1) as nat);
        assert forall|i: int| 0 <= i < width implies ambient::is_hex(
            #[trigger] numbered(n, width)[i],
        ) by {
            if i < width - 1 {
                assert(numbered(n, width)[i] == numbered(n / 16, (width - 1) as nat)[i]);
            }
        }
    }
}

fn push_number(out: &mut String, n: u64, width: u64)
    ensures
        final(out)@ == old(out)@ + numbered(n as nat, width as nat),
    decreases width,
{
    if width > 0 {
        push_number(out, n / 16, width - 1);
        let ghost before = out@;
        let d = (n % 16) as u8;
        if d < 10 {
            out.push((0x30 + d) as char);
        } else {
            out.push((0x57 + d) as char);
        }
        assert(out@ =~= before.push(text::hex_digit((n % 16) as int)));
    }
    assert(out@ =~= old(out)@ + numbered(n as nat, width as nat));
}

/// Another number in place of the last sixteen digits of a generated token.
proof fn renumbered_is_generated(token: Seq<char>, n: nat)
    requires
        is_generated(token),
    ensures
        token.len() >= 16,
        is_generated(token.take(token.len() - 16) + numbered(n, 16)),
{
    let (high, low) = choose|high: Seq<char>, low: Seq<char>| #[trigger]
        ambient::is_random_id(high) && #[trigger] ambient::is_random_id(low) && token == PREFIX@
            + high + low;
    numbers_are_digits(n, 16);
    let other = low.take(16) + numbered(n, 16);
    assert forall|i: int| 0 <= i < other.len() implies ambient::is_hex(#[trigger] other[i]) by {
        if i < 16 {
            assert(ambient::is_hex(low[i]));
        } else {
            assert(other[i] == numbered(n, 16)[i - 16]);
        }
    }
    assert(ambient::is_random_id(high) && ambient::is_random_id(other));
    assert(token.take(token.len() - 16) + numbered(n, 16) =~= PREFIX@ + high + other);
}

/// The first token like `start` but for its last digits that is not taken: there
/// are more of them than the list is long.
fn first_free(existing: &[String], start: &str) -> (res: String)
    requires
        is_generated(start@),
    ensures
        is_generated(res@),
        !text::lists(existing@, res@),
{
    proof {
        renumbered_is_generated(start@, 0);
        reveal_with_fuel(numbers, 17);
    }
    let long = start.unicode_len() - 16;
    let mut head = String::new();
    let mut i: usize = 0;
    assert(head@ =~= start@.take(0));
    while i < long
        invariant
            i <= long < start@.len(),
            head@ == start@.take(i as int),
        decreases long - i,
    {
        head.push(start.get_char(i));
        assert(start@.take(i + 1) =~= start@.take(i as int).push(start@[i as int]));
        i += 1;
    }
    let count = existing.len();
    let ghost all = text::texts(existing@);
    let ghost mut rest = all;
    assert(count < numbers(16));
    let mut number: u64 = 0;
    let mut token = head.clone();
    push_number(&mut token, number, 16);
    while list_has(existing, token.as_str())
        invariant
            all == text::texts(existing@),
            token@ == head@ + numbered(number as nat, 16),
            rest.len() + number == all.len(),
            all.len() == count < numbers(16),
            forall|i: int|
                0 <= i < all.len() ==> rest.contains(#[trigger] all[i]) || exists|j: nat|
                    j < number && all[i] == head@ + #[trigger] numbered(j, 16),
        decreases all.len() - number,
    {
        let ghost k = number as nat;
        let ghost taken = token@;
        proof {
            let at = choose|at: int| 0 <= at < all.len() && all[at] == taken;
            if !rest.contains(all[at]) {
                let j = choose|j: nat| j < k && all[at] == head@ + #[trigger] numbered(j, 16);
                numbers_differ(j, k, 16);
                same_tail(head@, numbered(j, 16), numbered(k, 16));
            }
            let p = choose|p: int| 0 <= p < rest.len() && rest[p] == taken;
            let former = rest;
            rest = rest.remove(p);
            assert forall|i: int| 0 <= i < all.len() implies rest.contains(#[trigger] all[i])
                || exists|j: nat| j < k + 1 && all[i] == head@ + #[trigger] numbered(j, 16) by {
                if former.contains(all[i]) {
                    let q = choose|q: int| 0 <= q < former.len() && former[q] == all[i];
                    if q == p {
                        assert(all[i] == head@ + numbered(k, 16));
                    } else {
                        let q0 = if q < p {
                            q
                        } else {
                            q - 1
                        };
                        assert(rest[q0] == all[i]);
                    }
                } else {
                    let j = choose|j: nat| j < k && all[i] == head@ + #[trigger] numbered(j, 16);
                    assert(j < k + 1);
                }
            }
        }
        number += 1;
        token = head.clone();
        push_number(&mut token, number, 16);
    }
    proof {
        renumbered_is_generated(start@, number as nat);
    }
    token
}

proof fn same_tail(head: Seq<char>, a: Seq<char>, b: Seq<char>)
    requires
        head + a == head + b,
    ensures
        a == b,
{
    assert((head + a).len() == head.len() + a.len());
    assert((head + b).len() == head.len() + b.len());
    assert forall|i: int| 0 <= i < a.len() implies a[i] == b[i] by {
        assert((head + a)[head.len() + i] == a[i]);
        assert((head + b)[head.len() + i] == b[i]);
    }
    assert(a =~= b);
}

/// A fresh token that is not already in `existing`.
///
/// The collision it guards against will not happen; a rotation that did collide
/// would report a new token while leaving the old one live. A token that is taken
/// is drawn anew. Chance has no bound, but the machine's counting has: where it
/// runs out, the last token is given other digits at its end instead.
pub fn generate_distinct(existing: &[String]) -> (res: String)
    ensures
        is_generated(res@),
        !text::lists(existing@, res@),
{
    let mut token = generate();
    let mut left: u64 = u64::MAX;
    while left > 0 && list_has(existing, token.as_str())
        invariant
            is_generated(token@),
        decreases left,
    {
        token = generate();
        left -= 1;
    }
    if list_has(existing, token.as_str()) {
        first_free(existing, token.as_str())
    } else {
        token
    }
}

// ---------------------------------------------------------------------------
// Loading
// ---------------------------------------------------------------------------

/// What loading did, for a startup banner to report.
#[derive(Debug, Clone, Copy, PartialEq, Eq, Structural)]
pub enum Origin {
    /// The file already existed and was read.
    Existing,
    /// This process created the file and wrote a fresh token into it.
    Generated,
}

/// Something worth telling the operator that is no reason to refuse to start.
#[derive(Debug, PartialEq, Eq)]
pub enum Warning {
    /// The file's permission bits let somebody other than the owner read it.
    WorldReadable { path: Vec<u8>, mode: u32 },
}

/// A number in octal digits.
pub open spec fn octal(n: nat) -> Seq<char>
    decreases n,
{
    if n < 8 {
        seq![text::digit(n as int)]
    } else {
        octal(n / 8).push(text::digit((n % 8) as int))
    }
}

/// A number in octal digits, four of them at least.
pub open spec fn mode_text(mode: nat) -> Seq<char> {
    let digits = octal(mode);
    if digits.len() < 4 {
        Seq::new((4 - digits.len()) as nat, |i: int| '0') + digits
    } else {
        digits
    }
}

fn push_octal(out: &mut String, n: u32)
    ensures
        final(out)@ == old(out)@ + octal(n as nat),
    decreases n,
{
    if n < 8 {
        out.push((0x30 + n as u8) as char);
        assert(out@ =~= old(out)@ + seq![text::digit(n as int)]);
    } else {
        push_octal(out, n / 8);
        let ghost before = octal((n / 8) as nat);
        out.push((0x30 + (n % 8) as u8) as char);
        assert(out@ =~= old(out)@ + before.push(text::digit((n % 8) as int)));
    }
}

fn octal_of(mode: u32) -> (res: String)
    ensures
        res@ == mode_text(mode as nat),
{
    let mut digits = String::new();
    push_octal(&mut digits, mode);
    assert(digits@ =~= octal(mode as nat));
    let long = digits.as_str().unicode_len();
    let mut out = String::new();
    let mut i: usize = long;
    while i < 4
        invariant
            long <= i,
            i <= 4 || i == long,
            out@ == Seq::new((i - long) as nat, |j: int| '0'),
        decreases 4 - i,
    {
        out.push('0');
        assert(out@ =~= Seq::new((i + 1 - long) as nat, |j: int| '0'));
        i += 1;
    }
    out.append(digits.as_str());
    if long >= 4 {
        assert(out@ =~= digits@);
    }
    out
}

impl Warning {
    /// What the operator is told.
    pub fn message(&self) -> (res: String)
        ensures
            match self {
                Warning::WorldReadable { path, mode } => res@ == "token file "@
                    + paths::lossy_text(path@) + " is mode "@ + mode_text(*mode as nat)
                    + "; other users on this host can read it. Fix with: chmod 600 "@
                    + paths::lossy_text(path@),
            },
    {
        match self {
            Warning::WorldReadable { path, mode } => {
                let shown = path_text(path.as_slice());
                let bits = octal_of(*mode);
                let mut out = "token file ".to_owned();
                out.append(shown.as_str());
                out.append(" is mode ");
                out.append(bits.as_str());
                out.append("; other users on this host can read it. Fix with: chmod 600 ");
                out.append(shown.as_str());
                out
            },
        }
    }
}

/// Whether permission bits let somebody other than the owner at a file.
pub open spec fn is_loose(mode: u32) -> bool {
    (mode & 0o777) & 0o077 != 0
}

/// What is worth telling of a file's permission bits, where they are known.
pub open spec fn is_warning_list(warnings: Seq<Warning>, path: Seq<u8>, mode: Option<u32>) -> bool {
    match mode {
        Some(mode) if is_loose(mode) => warnings.len() == 1 && (match warnings[0] {
            Warning::WorldReadable { path: named, mode: bits } => named@ == path && bits == (mode
                & 0o777),
        }),
        _ => warnings.len() == 0,
    }
}

/// What is worth telling of a file's permission bits.
pub fn permission_warnings(path: &[u8], mode: Option<u32>) -> (res: Vec<Warning>)
    ensures
        is_warning_list(res@, path@, mode),
{
    let mut out: Vec<Warning> = Vec::new();
    if let Some(mode) = mode {
        let bits = mode & 0o777;
        if bits & 0o077 != 0 {
            out.push(Warning::WorldReadable { path: copy_bytes(path), mode: bits });
        }
    }
    out
}

/// The tokens of a file, and how they were come by. There is no way to print it:
/// it holds the credentials.
pub struct Loaded {
    pub tokens: Vec<String>,
    pub origin: Origin,
    /// Problems worth telling the operator about.
    pub warnings: Vec<Warning>,
}

/// What came of reading the file.
pub enum ReadOutcome {
    /// Its contents, and its permission bits where they are known.
    Contents { contents: String, mode: Option<u32> },
    /// It is not there.
    Missing,
    /// It could not be read.
    Failed { reason: String },
}

/// What came of creating the file with a fresh token.
pub enum CreateOutcome {
    Created,
    /// Somebody else created it first.
    Exists { reason: String },
    /// It could not be created.
    Failed { error: TokenError },
}

/// What to do next.
pub enum LoadStep {
    /// Read the file.
    Read,
    /// Create the file with a fresh token, unless it is there.
    Create,
    /// There is nothing more to do.
    Done(Result<Loaded, TokenError>),
}

/// What reading the file leads to. A file without tokens is an error and not an
/// open door.
pub fn after_read(path: &[u8], outcome: ReadOutcome) -> (res: LoadStep)
    ensures
        match outcome {
            ReadOutcome::Contents { contents, mode } => match res {
                LoadStep::Done(Ok(loaded)) => tokens_in(contents@).len() > 0 && text::texts(
                    loaded.tokens@,
                ) == tokens_in(contents@) && loaded.origin == Origin::Existing
                    && is_warning_list(loaded.warnings@, path@, mode),
                LoadStep::Done(Err(error)) => tokens_in(contents@).len() == 0 && error.said() == (
                Trouble::Empty { path: path@ }),
                _ => false,
            },
            ReadOutcome::Missing => res is Create,
            ReadOutcome::Failed { reason } => match res {
                LoadStep::Done(Err(error)) => error.said() == (Trouble::Read {
                    path: path@,
                    reason: reason@,
                }),
                _ => false,
            },
        },
{
    match outcome {
        ReadOutcome::Contents { contents, mode } => {
            let tokens = parse(contents.as_str());
            assert(text::texts(tokens@).len() == tokens@.len());
            if tokens.len() == 0 {
                return LoadStep::Done(Err(TokenError::Empty { path: copy_bytes(path) }));
            }
            LoadStep::Done(
                Ok(
                    Loaded {
                        tokens,
                        origin: Origin::Existing,
                        warnings: permission_warnings(path, mode),
                    },
                ),
            )
        },
        ReadOutcome::Missing => LoadStep::Create,
        ReadOutcome::Failed { reason } => LoadStep::Done(
            Err(TokenError::Read { path: copy_bytes(path), reason }),
        ),
    }
}

/// What creating the file leads to, on one of the attempts. Losing the race means
/// that somebody else's token is the one that counts: it is read.
pub fn after_create(path: &[u8], token: String, attempt: usize, outcome: CreateOutcome) -> (res:
    LoadStep)
    requires
        attempt < CREATE_RETRIES,
    ensures
        match outcome {
            CreateOutcome::Created => match res {
                LoadStep::Done(Ok(loaded)) => text::texts(loaded.tokens@) == seq![token@]
                    && loaded.origin == Origin::Generated && loaded.warnings@.len() == 0,
                _ => false,
            },
            CreateOutcome::Exists { reason } => if attempt + 1 < CREATE_RETRIES {
                res is Read
            } else {
                match res {
                    LoadStep::Done(Err(error)) => error.said() == (Trouble::Create {
                        path: path@,
                        reason: reason@,
                    }),
                    _ => false,
                }
            },
            CreateOutcome::Failed { error } => res == LoadStep::Done(Err(error)),
        },
{
    match outcome {
        CreateOutcome::Created => {
            let mut tokens: Vec<String> = Vec::new();
            tokens.push(token);
            assert(text::texts(tokens@) =~= seq![token@]);
            LoadStep::Done(
                Ok(Loaded { tokens, origin: Origin::Generated, warnings: Vec::new() }),
            )
        },
        CreateOutcome::Exists { reason } => {
            if attempt + 1 < CREATE_RETRIES {
                LoadStep::Read
            } else {
                LoadStep::Done(Err(TokenError::Create { path: copy_bytes(path), reason }))
            }
        },
        CreateOutcome::Failed { error } => LoadStep::Done(Err(error)),
    }
}

// ---------------------------------------------------------------------------
// What a listener accepts
// ---------------------------------------------------------------------------

/// The token set one listener accepts. It is never empty: an empty set would be
/// an open listener wearing an authenticated type.
pub struct Accepted {
    accepted: Vec<String>,
    source: Option<Vec<u8>>,
}

/// `std::hint::black_box`: the value itself, out of the optimizer's sight.
#[verifier::external_body]
fn unseen(value: u32) -> (res: u32)
    ensures
        res == value,
{
    std::hint::black_box(value)
}

proof fn difference_adds(diff: u32, a: u8, b: u8)
    ensures
        (diff | ((a ^ b) as u32)) == 0 <==> diff == 0 && a == b,
{
    assert((diff | ((a ^ b) as u32)) == 0 <==> diff == 0 && a == b) by (bit_vector);
}

/// Compares without leaking, through timing, how much of `expected` a guess got
/// right.
///
/// The loop runs over `expected`, so its trip count depends only on the stored
/// token's length. A shorter guess is indexed modulo its own length rather than
/// being allowed to end the loop early; a mismatch of the lengths is folded in.
pub fn constant_time_eq(expected: &[u8], candidate: &[u8]) -> (res: bool)
    ensures
        res == (expected@ == candidate@),
{
    if candidate.len() == 0 {
        assert(expected@.len() == 0 ==> expected@ =~= candidate@);
        return expected.len() == 0;
    }
    let mut diff: u32 = if expected.len() == candidate.len() {
        0
    } else {
        1
    };
    let mut i: usize = 0;
    assert(expected@.take(0) =~= candidate@.take(0));
    while i < expected.len()
        invariant
            i <= expected@.len(),
            candidate@.len() > 0,
            diff == 0 <==> expected@.len() == candidate@.len() && expected@.take(i as int)
                == candidate@.take(i as int),
        decreases expected@.len() - i,
    {
        let other = candidate[i % candidate.len()];
        let one = expected[i];
        proof {
            difference_adds(diff, one, other);
            if expected@.len() == candidate@.len() {
                assert(i % candidate.len() == i) by (nonlinear_arith)
                    requires
                        0 <= i < candidate.len(),
                ;
                assert(expected@.take(i + 1) =~= expected@.take(i as int).push(one));
                assert(candidate@.take(i + 1) =~= candidate@.take(i as int).push(other));
                if expected@.take(i + 1) == candidate@.take(i + 1) {
                    assert(expected@.take(i + 1).drop_last() =~= expected@.take(i as int));
                    assert(candidate@.take(i + 1).drop_last() =~= candidate@.take(i as int));
                    assert(expected@.take(i + 1).last() == one);
                    assert(candidate@.take(i + 1).last() == other);
                }
            }
        }
        diff = unseen(diff | ((one ^ other) as u32));
        i += 1;
    }
    assert(expected@.take(expected@.len() as int) =~= expected@);
    assert(candidate@.take(candidate@.len() as int) =~= candidate@);
    diff == 0
}

impl Accepted {
    /// The accepted tokens, the current one first.
    pub closed spec fn tokens(&self) -> Seq<Seq<char>> {
        text::texts(self.accepted@)
    }

    /// The file they came from.
    pub closed spec fn file(&self) -> Option<Seq<u8>> {
        crate::output::opt_bytes(self.source)
    }

    #[verifier::type_invariant]
    closed spec fn never_empty(self) -> bool {
        self.accepted@.len() > 0
    }

    pub fn new(tokens: Vec<String>, source: Option<Vec<u8>>) -> (res: Result<Self, TokenError>)
        ensures
            match res {
                Ok(accepted) => tokens@.len() > 0 && accepted.tokens() == text::texts(tokens@)
                    && accepted.file() == crate::output::opt_bytes(source),
                Err(error) => tokens@.len() == 0 && error.said() == (Trouble::Empty {
                    path: match source {
                        Some(path) => path@,
                        None => vstd::utf8::encode_utf8("<memory>"@),
                    },
                }),
            },
    {
        if tokens.len() == 0 {
            return Err(
                TokenError::Empty {
                    path: match source {
                        Some(path) => path,
                        None => copy_bytes("<memory>".as_bytes()),
                    },
                },
            );
        }
        Ok(Accepted { accepted: tokens, source })
    }

    /// What a listener accepts of what was loaded; the [`Loaded`] comes back so
    /// that a caller can still report the origin and the warnings.
    pub fn load(path: &[u8], loaded: Loaded) -> (res: Result<(Self, Loaded), TokenError>)
        ensures
            match res {
                Ok((accepted, same)) => loaded.tokens@.len() > 0 && same == loaded
                    && accepted.tokens() == text::texts(loaded.tokens@) && accepted.file() == Some(
                    path@,
                ),
                Err(error) => loaded.tokens@.len() == 0 && error.said() == (Trouble::Empty {
                    path: path@,
                }),
            },
    {
        let mut tokens: Vec<String> = Vec::new();
        let mut i: usize = 0;
        while i < loaded.tokens.len()
            invariant
                i <= loaded.tokens.len(),
                tokens@.len() == i,
                forall|j: int| 0 <= j < i ==> (#[trigger] tokens@[j])@ == loaded.tokens@[j]@,
            decreases loaded.tokens.len() - i,
        {
            tokens.push(loaded.tokens[i].clone());
            i += 1;
        }
        assert(text::texts(tokens@) =~= text::texts(loaded.tokens@));
        match Accepted::new(tokens, Some(copy_bytes(path))) {
            Ok(accepted) => Ok((accepted, loaded)),
            Err(error) => Err(error),
        }
    }

    /// The current token: the one a client's configuration should carry.
    pub fn primary(&self) -> (res: &str)
        ensures
            self.tokens().len() > 0,
            res@ == self.tokens()[0],
    {
        proof {
            use_type_invariant(self);
        }
        self.accepted[0].as_str()
    }

    pub fn count(&self) -> (res: usize)
        ensures
            res == self.tokens().len(),
    {
        self.accepted.len()
    }

    pub fn source(&self) -> (res: Option<&Vec<u8>>)
        ensures
            match res {
                Some(path) => self.file() == Some(path@),
                None => self.file() is None,
            },
    {
        self.source.as_ref()
    }

    /// Checks one candidate against every accepted token, and every byte of each.
    pub fn accepts(&self, candidate: &str) -> (res: bool)
        ensures
            res == self.tokens().contains(candidate@),
    {
        let ghost all = self.tokens();
        let mut matched = false;
        let mut i: usize = 0;
        while i < self.accepted.len()
            invariant
                i <= self.accepted.len(),
                all == self.tokens(),
                matched == all.take(i as int).contains(candidate@),
            decreases self.accepted.len() - i,
        {
            let one = self.accepted[i].as_str();
            let hit = constant_time_eq(one.as_bytes(), candidate.as_bytes());
            proof {
                vstd::utf8::encode_utf8_decode_utf8(one@);
                vstd::utf8::encode_utf8_decode_utf8(candidate@);
                assert(hit == (one@ == candidate@));
                assert(all[i as int] == one@);
                let less = all.take(i as int);
                let more = all.take(i + 1);
                assert(more =~= less.push(one@));
                if less.contains(candidate@) {
                    let k = choose|k: int| 0 <= k < less.len() && less[k] == candidate@;
                    assert(more[k] == candidate@);
                }
                if hit {
                    assert(more[i as int] == candidate@);
                }
            }
            matched = hit || matched;
            i += 1;
        }
        assert(all.take(all.len() as int) =~= all);
        matched
    }

    /// What can be printed of the set: how many tokens there are and where they
    /// came from, and never a token.
    pub fn debug_text(&self) -> (res: String)
        ensures
            res@ == printable(self.tokens().len(), self.file()),
    {
        let mut out = "Accepted { accepted: ".to_owned();
        let digits = decimal_of(self.accepted.len() as u64);
        out.append(digits.as_str());
        out.append(", source: ");
        match &self.source {
            Some(path) => {
                let shown = path_text(path.as_slice());
                let marked = quoted(shown.as_str());
                out.append("Some(");
                out.append(marked.as_str());
                out.append(")");
                assert(out@ =~= "Accepted { accepted: "@ + digits@ + ", source: "@ + ("Some("@
                    + marked@ + ")"@));
            },
            None => {
                out.append("None");
            },
        }
        out.append(" }");
        out
    }
}

/// What can be printed of a token set.
pub open spec fn printable(count: nat, file: Option<Seq<u8>>) -> Seq<char> {
    "Accepted { accepted: "@ + text::decimal(count) + ", source: "@ + (match file {
        Some(path) => "Some("@ + text::debug_text(paths::lossy_text(path)) + ")"@,
        None => "None"@,
    }) + " }"@
}

// ---------------------------------------------------------------------------
// Laws
// ---------------------------------------------------------------------------

/// A text that can stand on a line as a token: it is not empty, has no line feed
/// in it, no white space at its ends, and is no comment.
pub open spec fn is_token(token: Seq<char>) -> bool {
    &&& token.len() > 0
    &&& !token.contains('\n')
    &&& text::trimmed(token) == token
    &&& token[0] != '#'
}

proof fn tokens_concat(a: Seq<Seq<char>>, b: Seq<Seq<char>>)
    ensures
        tokens_on(a + b) == tokens_on(a) + tokens_on(b),
    decreases b.len(),
{
    if b.len() == 0 {
        assert(a + b =~= a);
        assert(tokens_on(a) + tokens_on(b) =~= tokens_on(a));
    } else {
        tokens_concat(a, b.drop_last());
        assert((a + b).drop_last() =~= a + b.drop_last());
        assert((a + b).last() == b.last());
        assert((tokens_on(a) + tokens_on(b.drop_last())).push(text::trimmed(b.last()))
            =~= tokens_on(a) + tokens_on(b.drop_last()).push(text::trimmed(b.last())));
    }
}

proof fn notes_hold_no_token(lines: Seq<Seq<char>>)
    requires
        forall|i: int| 0 <= i < lines.len() ==> is_note(#[trigger] lines[i]),
    ensures
        tokens_on(lines) == Seq::<Seq<char>>::empty(),
    decreases lines.len(),
{
    if lines.len() > 0 {
        notes_hold_no_token(lines.drop_last());
        assert(is_note(lines[lines.len() - 1]));
    }
}

proof fn tokens_hold_themselves(tokens: Seq<Seq<char>>)
    requires
        forall|i: int| 0 <= i < tokens.len() ==> is_token(#[trigger] tokens[i]),
    ensures
        tokens_on(tokens) == tokens,
    decreases tokens.len(),
{
    if tokens.len() > 0 {
        tokens_hold_themselves(tokens.drop_last());
        assert(is_token(tokens[tokens.len() - 1]));
        assert(tokens.drop_last().push(tokens.last()) =~= tokens);
    } else {
        assert(tokens_on(tokens) =~= tokens);
    }
}

/// A carriage return at the end of a line does not count.
proof fn return_is_blank(line: Seq<char>)
    ensures
        text::trimmed(text::without_return(line)) == text::trimmed(line),
{
    if line.len() > 0 && line.last() == '\r' {
        let less = line.drop_last();
        text::ink_bounds(line, 0, line.len() as int);
        text::ink_bounds(less, 0, less.len() as int);
        assert(text::is_space('\r'));
        same_end(line, less.len() as int);
        same_start(line, 0);
        assert(text::trimmed(less) =~= text::trimmed(line));
    }
}

proof fn same_end(line: Seq<char>, to: int)
    requires
        0 <= to < line.len(),
    ensures
        text::last_ink(line, to) == text::last_ink(line.drop_last(), to),
    decreases to,
{
    if to > 0 {
        same_end(line, to - 1);
    }
}

proof fn same_start(line: Seq<char>, from: int)
    requires
        line.len() > 0,
        text::is_space(line.last()),
        0 <= from <= line.len() - 1,
    ensures
        text::first_ink(line, from) == text::first_ink(line.drop_last(), from)
            || text::first_ink(line, from) == line.len() && text::first_ink(
            line.drop_last(),
            from,
        ) == line.len() - 1,
    decreases line.len() - from,
{
    if from < line.len() - 1 {
        same_start(line, from + 1);
    } else {
        assert(text::first_ink(line, from + 1) == line.len());
    }
}

/// The lines of a file that ends in its tokens.
proof fn pieces_of_file(top: Seq<char>, tokens: Seq<Seq<char>>)
    requires
        forall|i: int| 0 <= i < tokens.len() ==> !(#[trigger] tokens[i]).contains('\n'),
    ensures
        text::pieces(top.push('\n') + token_lines(tokens), '\n') == text::pieces(top, '\n')
            + tokens.push(Seq::empty()),
    decreases tokens.len(),
{
    let none = Seq::<char>::empty();
    let start = text::pieces(top, '\n');
    assert(text::pieces(none, '\n') =~= seq![none]);
    if tokens.len() == 0 {
        text::pieces_split(top, none, '\n');
        assert(top.push('\n') + token_lines(tokens) =~= top + seq!['\n'] + none);
        assert(start + seq![none] =~= start + tokens.push(none));
    } else {
        let less = tokens.drop_last();
        let token = tokens.last();
        pieces_of_file(top, less);
        let before = top.push('\n') + token_lines(less);
        let p = text::pieces(before, '\n');
        assert(p == start + less.push(none));
        assert(p.last() =~= none);
        assert(!tokens[tokens.len() - 1].contains('\n'));
        text::pieces_extend(before, token, '\n');
        assert(p.last() + token =~= token);
        let q = text::pieces(before + token, '\n');
        assert(q =~= start + less.push(token));
        text::pieces_split(before + token, none, '\n');
        assert(top.push('\n') + token_lines(tokens) =~= (before + token) + seq!['\n'] + none);
        assert(less.push(token) =~= tokens);
        assert(q + seq![none] =~= start + tokens.push(none));
    }
}

proof fn comment_is_a_note(line: Seq<char>)
    requires
        line.len() > 0,
        line[0] == '#',
    ensures
        is_note(line),
{
    text::ink_bounds(line, 0, line.len() as int);
    assert(!text::is_space('#'));
    let to = text::last_ink(line, line.len() as int);
    assert(to >= 1) by {
        if to == 0 {
            assert(text::is_space(line[0]));
        }
    }
}

proof fn header_1_is_a_note()
    ensures
        is_note(HEADER_1@),
        !HEADER_1@.contains('\n'),
{
    let line = HEADER_1@;
    reveal_strlit("# vibrev shared HTTP bearer token.");
    comment_is_a_note(line);
    assert forall|i: int| 0 <= i < line.len() implies line[i] != '\n' by {
    }
}

proof fn header_2_is_a_note()
    ensures
        is_note(HEADER_2@),
        !HEADER_2@.contains('\n'),
{
    let line = HEADER_2@;
    reveal_strlit("# One token per line; blank lines and #-comments are ignored.");
    comment_is_a_note(line);
    assert forall|i: int| 0 <= i < line.len() implies line[i] != '\n' by {
    }
}

proof fn header_3_is_a_note()
    ensures
        is_note(HEADER_3@),
        !HEADER_3@.contains('\n'),
{
    let line = HEADER_3@;
    reveal_strlit("# The first entry is the current token. During a rotation the previous");
    comment_is_a_note(line);
    assert forall|i: int| 0 <= i < line.len() implies line[i] != '\n' by {
    }
}

proof fn header_4_is_a_note()
    ensures
        is_note(HEADER_4@),
        !HEADER_4@.contains('\n'),
{
    let line = HEADER_4@;
    reveal_strlit("# token stays on a later line and stays accepted, so a rotation that");
    comment_is_a_note(line);
    assert forall|i: int| 0 <= i < line.len() implies line[i] != '\n' by {
    }
}

proof fn header_5_is_a_note()
    ensures
        is_note(HEADER_5@),
        !HEADER_5@.contains('\n'),
{
    let line = HEADER_5@;
    reveal_strlit("# fails halfway through does not take any client offline.");
    comment_is_a_note(line);
    assert forall|i: int| 0 <= i < line.len() implies line[i] != '\n' by {
    }
}

proof fn header_is_notes()
    ensures
        header_lines().len() == 5,
        forall|i: int|
            0 <= i < 5 ==> is_note(#[trigger] header_lines()[i]) && !header_lines()[i].contains(
                '\n',
            ),
{
    header_1_is_a_note();
    header_2_is_a_note();
    header_3_is_a_note();
    header_4_is_a_note();
    header_5_is_a_note();
    let all = header_lines();
    assert forall|i: int| 0 <= i < 5 implies is_note(#[trigger] all[i]) && !all[i].contains(
        '\n',
    ) by {
        assert(i == 0 || i == 1 || i == 2 || i == 3 || i == 4);
    }
}

proof fn notes_bounds(lines: Seq<Seq<char>>, from: int)
    requires
        0 <= from <= lines.len(),
    ensures
        from <= notes_from(lines, from) <= lines.len(),
        forall|i: int| from <= i < notes_from(lines, from) ==> is_note(#[trigger] lines[i]),
    decreases lines.len() - from,
{
    if from < lines.len() && is_note(lines[from]) {
        notes_bounds(lines, from + 1);
    }
}

/// The comments at the top of a file are lines without a token.
proof fn comments_are_notes(contents: Seq<char>)
    ensures
        forall|i: int|
            0 <= i < leading_notes(contents).len() ==> is_note(
                #[trigger] leading_notes(contents)[i],
            ) && !leading_notes(contents)[i].contains('\n'),
{
    let all = text::lines(contents);
    let notes = leading_notes(contents);
    let parts = text::pieces(contents, '\n');
    notes_bounds(all, 0);
    text::pieces_are_clean(contents, '\n');
    text::pieces_nonempty(contents, '\n');
    assert forall|i: int| 0 <= i < notes.len() implies is_note(#[trigger] notes[i])
        && !notes[i].contains('\n') by {
        assert(notes[i] == all[i]);
        assert(!parts[i].contains('\n'));
        if i < parts.len() - 1 {
            assert(all[i] == text::without_return(parts.drop_last()[i]));
            if all[i].contains('\n') {
                let k = choose|k: int| 0 <= k < all[i].len() && all[i][k] == '\n';
                assert(parts[i][k] == '\n');
            }
        } else {
            assert(all[i] == parts.last());
        }
    }
}

/// A line with a comment on it.
pub open spec fn is_comment(line: Seq<char>) -> bool {
    text::trimmed(line).len() > 0 && text::trimmed(line)[0] == '#'
}

proof fn joined_holds(parts: Seq<Seq<char>>, at: int, c: char)
    requires
        0 <= at < parts.len(),
        parts[at].contains(c),
    ensures
        text::joined(parts, seq!['\n']).contains(c),
    decreases parts.len(),
{
    if parts.len() > 1 {
        let shown = text::joined(parts, seq!['\n']);
        let less = parts.drop_last();
        let before = text::joined(less, seq!['\n']);
        if at < less.len() {
            joined_holds(less, at, c);
            let k = choose|k: int| 0 <= k < before.len() && before[k] == c;
            assert(shown[k] == c);
        } else {
            let k = choose|k: int| 0 <= k < parts[at].len() && parts[at][k] == c;
            assert(shown[before.len() + 1 + k] == c);
        }
    }
}

/// A comment is more than white space, whatever lines stand round it.
proof fn comment_shows(notes: Seq<Seq<char>>, at: int)
    requires
        0 <= at < notes.len(),
        is_comment(notes[at]),
    ensures
        text::trimmed(text::joined(notes, seq!['\n'])).len() > 0,
{
    let line = notes[at];
    let shown = text::joined(notes, seq!['\n']);
    text::ink_bounds(line, 0, line.len() as int);
    assert(line[text::first_ink(line, 0)] == '#');
    joined_holds(notes, at, '#');
    let k = choose|k: int| 0 <= k < shown.len() && shown[k] == '#';
    text::ink_bounds(shown, 0, shown.len() as int);
    assert(!text::is_space(shown[k]));
}

/// A file starts with a line feed behind lines without a token, the comments of
/// the file before among them.
proof fn preamble_is_notes(existing: Option<Seq<char>>) -> (top: Seq<char>)
    ensures
        preamble(existing) == top.push('\n'),
        forall|i: int|
            0 <= i < text::pieces(top, '\n').len() ==> is_note(
                #[trigger] text::pieces(top, '\n')[i],
            ),
        existing is Some ==> forall|i: int|
            0 <= i < leading_notes(existing->0).len() && is_comment(
                #[trigger] leading_notes(existing->0)[i],
            ) ==> i < text::pieces(top, '\n').len() && text::pieces(top, '\n')[i]
                == leading_notes(existing->0)[i],
{
    if existing is Some {
        let notes = leading_notes(existing->0);
        assert forall|i: int| 0 <= i < notes.len() && is_comment(#[trigger] notes[i]) implies
            text::trimmed(comments_in(existing->0)).len() > 0 by {
            comment_shows(notes, i);
        }
    }
    if existing is Some && text::trimmed(comments_in(existing->0)).len() > 0 {
        let contents = existing->0;
        let notes = leading_notes(contents);
        let shown = comments_in(contents);
        comments_are_notes(contents);
        if notes.len() == 0 {
            assert(shown =~= Seq::empty());
            text::trimmed_is_tight(shown);
        }
        text::pieces_of_joined(notes, '\n');
        if shown.last() == '\n' {
            text::trimmed_is_tight(Seq::empty());
            assert(shown.len() > 0);
            let top = shown.drop_last();
            let none = Seq::<char>::empty();
            assert(shown =~= top + seq!['\n'] + none);
            assert(text::pieces(none, '\n') =~= seq![none]);
            text::pieces_split(top, none, '\n');
            let p = text::pieces(top, '\n');
            assert(p + seq![none] == notes);
            assert forall|i: int| 0 <= i < p.len() implies is_note(#[trigger] p[i]) by {
                assert((p + seq![none])[i] == p[i]);
                assert(is_note(notes[i]));
            }
            assert(preamble(existing) =~= top.push('\n'));
            assert forall|i: int|
                0 <= i < notes.len() && is_comment(#[trigger] notes[i]) implies i < p.len() && p[i]
                == notes[i] by {
                assert((p + seq![none])[i] == notes[i]);
                text::trimmed_is_tight(none);
            }
            top
        } else {
            shown
        }
    } else {
        header_is_notes();
        let top = text::joined(header_lines(), seq!['\n']);
        text::pieces_of_joined(header_lines(), '\n');
        assert(header().last() == '\n');
        top
    }
}

/// The lines of a file: those of its start, then its tokens.
proof fn lines_of_file(existing: Option<Seq<char>>, tokens: Seq<Seq<char>>) -> (start: Seq<
    Seq<char>,
>)
    requires
        forall|i: int| 0 <= i < tokens.len() ==> is_token(#[trigger] tokens[i]),
    ensures
        text::lines(file_text(existing, tokens)) == start.map_values(
            |line: Seq<char>| text::without_return(line),
        ) + tokens,
        forall|i: int| 0 <= i < start.len() ==> is_note(#[trigger] start[i]),
        existing is Some ==> forall|i: int|
            0 <= i < leading_notes(existing->0).len() && is_comment(
                #[trigger] leading_notes(existing->0)[i],
            ) ==> i < start.len() && start[i] == leading_notes(existing->0)[i],
{
    let top = preamble_is_notes(existing);
    let file = file_text(existing, tokens);
    let start = text::pieces(top, '\n');
    let none = Seq::<char>::empty();
    assert forall|i: int| 0 <= i < tokens.len() implies !(#[trigger] tokens[i]).contains(
        '\n',
    ) by {
        assert(is_token(tokens[i]));
    }
    pieces_of_file(top, tokens);
    let all = text::pieces(file, '\n');
    assert(all == start + tokens.push(none));
    assert(all.last() == none);
    let bare = |line: Seq<char>| text::without_return(line);
    let ended = all.drop_last().map_values(bare);
    assert(text::lines(file) == ended);
    assert(all.drop_last() =~= start + tokens);
    let front = start.map_values(bare);
    assert(ended =~= front + tokens) by {
        assert forall|i: int| 0 <= i < tokens.len() implies text::without_return(
            #[trigger] tokens[i],
        ) == tokens[i] by {
            assert(is_token(tokens[i]));
            text::trimmed_is_tight(tokens[i]);
        }
        assert forall|i: int| 0 <= i < ended.len() implies ended[i] == (front + tokens)[i] by {
            if i >= start.len() {
                assert(all.drop_last()[i] == tokens[i - start.len()]);
            } else {
                assert(all.drop_last()[i] == start[i]);
            }
        }
    }
    start
}

/// What was written is what is read: the file that is rendered for a list of
/// tokens parses to exactly that list, whatever stood in the file before.
pub proof fn written_tokens_are_read(existing: Option<Seq<char>>, tokens: Seq<Seq<char>>)
    requires
        forall|i: int| 0 <= i < tokens.len() ==> is_token(#[trigger] tokens[i]),
    ensures
        tokens_in(file_text(existing, tokens)) == tokens,
{
    let start = lines_of_file(existing, tokens);
    let front = start.map_values(|line: Seq<char>| text::without_return(line));
    assert forall|i: int| 0 <= i < front.len() implies is_note(#[trigger] front[i]) by {
        return_is_blank(start[i]);
        assert(is_note(start[i]));
    }
    tokens_concat(front, tokens);
    notes_hold_no_token(front);
    tokens_hold_themselves(tokens);
    assert(Seq::<Seq<char>>::empty() + tokens =~= tokens);
}

/// Rotating keeps the comments: a comment above the first token of a file stands
/// on the same line of the file that is written in its place, less a carriage
/// return at its end.
pub proof fn leading_comments_are_kept(contents: Seq<char>, tokens: Seq<Seq<char>>, at: int)
    requires
        forall|i: int| 0 <= i < tokens.len() ==> is_token(#[trigger] tokens[i]),
        0 <= at < leading_notes(contents).len(),
        is_comment(leading_notes(contents)[at]),
    ensures
        at < text::lines(file_text(Some(contents), tokens)).len(),
        text::lines(file_text(Some(contents), tokens))[at] == text::without_return(
            leading_notes(contents)[at],
        ),
        text::lines(contents)[at] == leading_notes(contents)[at],
{
    let start = lines_of_file(Some(contents), tokens);
    notes_bounds(text::lines(contents), 0);
    assert(leading_notes(Some(contents)->0)[at] == leading_notes(contents)[at]);
}

/// A rotation that is half done strands nobody: in the file that is written for
/// a new token followed by the old ones, every one of them is still found, and
/// the new one comes first.
pub proof fn rotation_strands_nobody(
    existing: Option<Seq<char>>,
    fresh: Seq<char>,
    old_tokens: Seq<Seq<char>>,
    at: int,
)
    requires
        is_token(fresh),
        forall|i: int| 0 <= i < old_tokens.len() ==> is_token(#[trigger] old_tokens[i]),
        0 <= at < old_tokens.len(),
    ensures
        tokens_in(file_text(existing, seq![fresh] + old_tokens))[0] == fresh,
        tokens_in(file_text(existing, seq![fresh] + old_tokens)).contains(old_tokens[at]),
{
    let tokens = seq![fresh] + old_tokens;
    assert forall|i: int| 0 <= i < tokens.len() implies is_token(#[trigger] tokens[i]) by {
        if i > 0 {
            assert(tokens[i] == old_tokens[i - 1]);
        }
    }
    written_tokens_are_read(existing, tokens);
    assert(tokens[at + 1] == old_tokens[at]);
}

/// Every token that is read back can be written again.
pub proof fn read_tokens_can_be_written(lines: Seq<Seq<char>>, at: int)
    requires
        forall|i: int| 0 <= i < lines.len() ==> !(#[trigger] lines[i]).contains('\n'),
        0 <= at < tokens_on(lines).len(),
    ensures
        is_token(tokens_on(lines)[at]),
    decreases lines.len(),
{
    let less = lines.drop_last();
    let before = tokens_on(less);
    if at < before.len() {
        read_tokens_can_be_written(less, at);
    } else {
        let line = lines.last();
        assert(!lines[lines.len() - 1].contains('\n'));
        text::trimmed_is_tight(line);
        text::ink_bounds(line, 0, line.len() as int);
        let token = text::trimmed(line);
        assert(tokens_on(lines)[at] == token);
        if token.contains('\n') {
            let k = choose|k: int| 0 <= k < token.len() && token[k] == '\n';
            assert(line[text::first_ink(line, 0) + k] == '\n');
        }
    }
}

/// A generated token can stand in the file.
pub proof fn generated_is_a_token(token: Seq<char>)
    requires
        is_generated(token),
    ensures
        is_token(token),
{
    reveal_strlit("vbr_");
    let (high, low) = choose|high: Seq<char>, low: Seq<char>| #[trigger]
        ambient::is_random_id(high) && #[trigger] ambient::is_random_id(low) && token == PREFIX@
            + high + low;
    assert(token.len() == 68);
    assert forall|i: int| 0 <= i < token.len() implies token[i] != '\n' && !text::is_space(
        token[i],
    ) && token[i] != '#' by {
        if i < 4 {
            assert(token[i] == PREFIX@[i]);
        } else if i < 36 {
            assert(token[i] == high[i - 4]);
            assert(ambient::is_hex(high[i - 4]));
        } else {
            assert(token[i] == low[i - 36]);
            assert(ambient::is_hex(low[i - 36]));
        }
    }
    text::trimmed_is_tight(token);
}

/// A fresh file explains itself: it starts with a comment that says what it is, and the
/// tokens stand below it, each on a line of its own.
pub proof fn fresh_files_explain_themselves(tokens: Seq<Seq<char>>, more: Seq<char>)
    ensures
        text::begins(file_text(None, tokens), "# vibrev shared HTTP bearer token."@),
        file_text(None, tokens.push(more)) == file_text(None, tokens) + more + seq!['\n'],
        file_text(None, Seq::empty()).last() == '\n',
{
    let first = "# vibrev shared HTTP bearer token."@;
    let lines = header_lines();
    let feed = seq!['\n'];
    reveal_strlit("# vibrev shared HTTP bearer token.");
    starts_with_the_first(lines, feed);
    assert(lines[0] == first);
    let whole = file_text(None, tokens);
    assert(preamble(None) == header());
    assert(header().take(first.len() as int) =~= first) by {
        assert(text::joined(lines, feed).take(first.len() as int) == first);
        assert forall|i: int| 0 <= i < first.len() implies header()[i] == first[i] by {
            assert(text::joined(lines, feed).take(first.len() as int)[i] == first[i]);
        }
    }
    assert(whole.take(first.len() as int) =~= header().take(first.len() as int));
    assert(tokens.push(more).drop_last() =~= tokens);
    assert(file_text(None, tokens.push(more)) =~= whole + more + feed);
    assert(file_text(None, Seq::empty()) =~= header());
}

proof fn starts_with_the_first(parts: Seq<Seq<char>>, separator: Seq<char>)
    requires
        parts.len() > 0,
    ensures
        text::begins(text::joined(parts, separator), parts[0]),
    decreases parts.len(),
{
    let whole = text::joined(parts, separator);
    if parts.len() == 1 {
        assert(whole.take(parts[0].len() as int) =~= parts[0]);
    } else {
        let less = parts.drop_last();
        starts_with_the_first(less, separator);
        let before = text::joined(less, separator);
        assert(whole.take(parts[0].len() as int) =~= before.take(parts[0].len() as int));
    }
}

} // verus!
