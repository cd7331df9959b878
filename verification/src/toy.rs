//! The tools of the reference engine. They cover the awkward cases: no
//! parameters, a positional argument with an enum, a page of a list, an integer
//! in any base, and a nested object.

use vstd::prelude::*;

use crate::args;
use crate::json;
use crate::json::{to_compact, Fields, Json, JsonValue};
use crate::outcome::{ErrorData, ErrorView, Rendered, INVALID_PARAMS};
use crate::page;
use crate::page::{bounds, capped, Page};
use crate::text;
use crate::text::{chars_of, join, same, split_lines};

verus! {

/// The reference engine.
#[derive(Debug, Clone, Default)]
pub struct Toy;

/// What the pseudocode looks like.
#[derive(Debug, Clone, Copy, PartialEq, Eq, Structural)]
pub enum Dialect {
    C,
    Rust,
    Objc,
}

#[derive(Debug)]
pub struct DecompileArgs {
    /// The name or the address of a function.
    pub func: String,
    /// How many lines at most.
    pub limit: Option<i64>,
    /// Whether the body is shown.
    pub with_body: Option<bool>,
    pub dialect: Option<Dialect>,
}

#[derive(Debug)]
pub struct Decompiled {
    pub c_code: String,
    /// Whether the limit cut anything off.
    pub truncated: bool,
}

#[derive(Debug)]
pub struct FunctionsArgs {
    /// Parts of names; any of them will do.
    pub filter: Option<Vec<String>>,
    /// Where the page starts.
    pub offset: Option<i64>,
    /// How long the page is at most.
    pub limit: Option<i64>,
}

#[derive(Debug)]
pub struct FunctionInfo {
    pub name: String,
    pub addr: String,
    pub size: u32,
}

#[derive(Debug)]
pub struct FunctionPage {
    pub functions: Vec<FunctionInfo>,
    /// How many functions match, not how many are on the page.
    pub total: usize,
    /// Where the next page starts, if there is one.
    pub next_offset: Option<usize>,
}

#[derive(Debug)]
pub struct RenameArgs {
    pub addr: i64,
    pub new_name: String,
}

#[derive(Debug)]
pub struct Renamed {
    pub addr: String,
    pub new_name: String,
    pub ok: bool,
}

#[derive(Debug)]
pub struct ReportSection {
    pub heading: String,
    pub body: String,
}

#[derive(Debug)]
pub struct ReportArgs {
    pub title: String,
    pub section: ReportSection,
}

#[derive(Debug)]
pub struct Report {
    pub content: String,
}

#[derive(Debug)]
pub struct Pong {
    pub engine: String,
    pub ok: bool,
}

// ---------------------------------------------------------------------------
// Decompiling
// ---------------------------------------------------------------------------

/// The name of a dialect; pseudocode is C unless another is asked for.
pub open spec fn dialect_name(dialect: Option<Dialect>) -> Seq<char> {
    match dialect {
        Some(Dialect::Rust) => "rust"@,
        Some(Dialect::Objc) => "objc"@,
        _ => "c"@,
    }
}

/// The whole of the pseudocode.
pub open spec fn pseudocode(func: Seq<char>, with_body: bool, dialect: Option<Dialect>) -> Seq<
    char,
> {
    "// "@ + dialect_name(dialect) + "\nint "@ + func + "(void)"@ + (if with_body {
        " {\n    return 0;\n}"@
    } else {
        ";"@
    })
}

/// The first lines of a text.
pub open spec fn first_lines(code: Seq<char>, limit: int) -> Seq<Seq<char>> {
    if limit < text::lines(code).len() {
        text::lines(code).take(limit)
    } else {
        text::lines(code)
    }
}

// ---------------------------------------------------------------------------
// Functions
// ---------------------------------------------------------------------------

/// What is known of a function.
pub struct InfoView {
    pub name: Seq<char>,
    pub addr: Seq<char>,
    pub size: u32,
}

impl View for FunctionInfo {
    type V = InfoView;

    open spec fn view(&self) -> InfoView {
        InfoView { name: self.name@, addr: self.addr@, size: self.size }
    }
}

/// What a list of functions says.
pub open spec fn infos(list: Seq<FunctionInfo>) -> Seq<InfoView> {
    Seq::new(list.len(), |i: int| list[i]@)
}

/// The functions of the binary.
pub open spec fn known_functions() -> Seq<InfoView> {
    seq![
        InfoView { name: "main"@, addr: "0x1000"@, size: 120 },
        InfoView { name: "init"@, addr: "0x1040"@, size: 64 },
        InfoView { name: "fini"@, addr: "0x1080"@, size: 32 },
    ]
}

/// Whether a text occurs in another.
pub open spec fn occurs(part: Seq<char>, whole: Seq<char>) -> bool {
    exists|at: int|
        0 <= at && at + part.len() <= whole.len() && #[trigger] whole.subrange(
            at,
            at + part.len(),
        ) == part
}

/// The parts of names that are asked for.
pub open spec fn parts_wanted(filter: Option<Vec<String>>) -> Seq<Seq<char>> {
    match filter {
        Some(list) => text::texts(list@),
        None => Seq::empty(),
    }
}

/// Whether a name holds any of the parts asked for; every name does where none
/// are.
pub open spec fn is_wanted(name: Seq<char>, parts: Seq<Seq<char>>) -> bool {
    parts.len() == 0 || exists|i: int| 0 <= i < parts.len() && occurs(#[trigger] parts[i], name)
}

/// The functions that match.
pub open spec fn matching(all: Seq<InfoView>, parts: Seq<Seq<char>>) -> Seq<InfoView>
    decreases all.len(),
{
    if all.len() == 0 {
        Seq::empty()
    } else {
        let before = matching(all.drop_last(), parts);
        if is_wanted(all.last().name, parts) {
            before.push(all.last())
        } else {
            before
        }
    }
}

fn text_occurs(part: &str, whole: &str) -> (res: bool)
    ensures
        res == occurs(part@, whole@),
{
    let wanted = chars_of(part);
    let chars = chars_of(whole);
    if wanted.len() > chars.len() {
        return false;
    }
    let last: usize = chars.len() - wanted.len();
    let mut at: usize = 0;
    loop
        invariant
            wanted@ == part@,
            chars@ == whole@,
            wanted.len() <= chars.len(),
            last == chars.len() - wanted.len(),
            at <= last,
            forall|k: int|
                0 <= k < at ==> #[trigger] whole@.subrange(k, k + part@.len()) != part@,
        decreases last - at,
    {
        let mut i: usize = 0;
        let mut equal = true;
        while i < wanted.len() && equal
            invariant
                wanted@ == part@,
                chars@ == whole@,
                wanted.len() <= chars.len(),
                last == chars.len() - wanted.len(),
                at <= last,
                i <= wanted.len(),
                equal ==> forall|k: int| 0 <= k < i ==> #[trigger] wanted@[k] == chars@[at + k],
                !equal ==> exists|k: int|
                    0 <= k < wanted@.len() && #[trigger] wanted@[k] != chars@[at + k],
            decreases wanted.len() - i,
        {
            if wanted[i] != chars[at + i] {
                equal = false;
            }
            i += 1;
        }
        if equal {
            assert(whole@.subrange(at as int, at + part@.len()) =~= part@);
            return true;
        }
        proof {
            let k = choose|k: int|
                0 <= k < wanted@.len() && #[trigger] wanted@[k] != chars@[at + k];
            assert(whole@.subrange(at as int, at + part@.len())[k] == chars@[at + k]);
        }
        if at == last {
            return false;
        }
        at += 1;
    }
}

fn wants(name: &str, parts: &Vec<String>) -> (res: bool)
    ensures
        res == is_wanted(name@, text::texts(parts@)),
{
    if parts.len() == 0 {
        assert(text::texts(parts@).len() == 0);
        return true;
    }
    let ghost all = text::texts(parts@);
    let mut i: usize = 0;
    while i < parts.len()
        invariant
            i <= parts.len(),
            all == text::texts(parts@),
            forall|j: int| 0 <= j < i ==> !occurs(#[trigger] all[j], name@),
        decreases parts.len() - i,
    {
        assert(all[i as int] == parts@[i as int]@);
        if text_occurs(parts[i].as_str(), name) {
            return true;
        }
        i += 1;
    }
    false
}

fn info(name: &str, addr: &str, size: u32) -> (res: FunctionInfo)
    ensures
        res@ == (InfoView { name: name@, addr: addr@, size }),
{
    FunctionInfo { name: name.to_owned(), addr: addr.to_owned(), size }
}

fn all_functions() -> (res: Vec<FunctionInfo>)
    ensures
        infos(res@) == known_functions(),
{
    let mut out: Vec<FunctionInfo> = Vec::new();
    out.push(info("main", "0x1000", 120));
    out.push(info("init", "0x1040", 64));
    out.push(info("fini", "0x1080", 32));
    assert(infos(out@) =~= known_functions());
    out
}

fn matching_functions(parts: &Vec<String>) -> (res: Vec<FunctionInfo>)
    ensures
        infos(res@) == matching(known_functions(), text::texts(parts@)),
{
    let list = all_functions();
    let ghost all = infos(list@);
    let mut out: Vec<FunctionInfo> = Vec::new();
    let mut i: usize = 0;
    assert(infos(out@) =~= Seq::empty());
    while i < list.len()
        invariant
            i <= list.len(),
            all == infos(list@),
            infos(out@) == matching(all.take(i as int), text::texts(parts@)),
        decreases list.len() - i,
    {
        let ghost before = out@;
        assert(all.take(i + 1).drop_last() =~= all.take(i as int));
        assert(all.take(i + 1).last() == list@[i as int]@);
        if wants(list[i].name.as_str(), parts) {
            out.push(info(list[i].name.as_str(), list[i].addr.as_str(), list[i].size));
            assert(infos(out@) =~= infos(before).push(list@[i as int]@));
        }
        i += 1;
    }
    assert(all.take(all.len() as int) =~= all);
    out
}

/// What is known of a page is the page of what is known.
proof fn infos_of_window(all: Seq<FunctionInfo>, offset: int, limit: int)
    requires
        0 <= offset,
        0 <= limit,
    ensures
        infos(page::window(all, offset, limit)) == page::window(infos(all), offset, limit),
{
    assert(infos(page::window(all, offset, limit)) =~= page::window(infos(all), offset, limit));
}

// ---------------------------------------------------------------------------
// Addresses
// ---------------------------------------------------------------------------

/// A number in hexadecimal digits, without leading zeros.
pub open spec fn hex(n: nat) -> Seq<char>
    decreases n,
{
    if n < 16 {
        seq![text::hex_digit(n as int)]
    } else {
        hex(n / 16).push(text::hex_digit((n % 16) as int))
    }
}

/// The bits of an integer as a number without a sign.
pub open spec fn bits(n: i64) -> nat {
    if n < 0 {
        (n + 0x1_0000_0000_0000_0000) as nat
    } else {
        n as nat
    }
}

fn push_hex(out: &mut String, n: u64)
    ensures
        final(out)@ == old(out)@ + hex(n as nat),
    decreases n,
{
    if n >= 16 {
        push_hex(out, n / 16);
    }
    let d = (n % 16) as u8;
    if d < 10 {
        out.push((0x30 + d) as char);
    } else {
        out.push((0x57 + d) as char);
    }
    assert(out@ =~= old(out)@ + hex(n as nat));
}

fn bits_of(n: i64) -> (res: u64)
    ensures
        res == bits(n),
{
    if n < 0 {
        (u64::MAX - (-(n + 1)) as u64)
    } else {
        n as u64
    }
}

// ---------------------------------------------------------------------------
// The tools
// ---------------------------------------------------------------------------

/// The one resource the engine serves.
pub const MANIFEST_URI: &'static str = "toy://manifest";

/// The document that lists the tools.
pub open spec fn manifest(names: Seq<Seq<char>>) -> Json {
    Json::Object(
        json::with_field(
            Seq::empty(),
            "tools"@,
            Json::List(names.map_values(|name: Seq<char>| Json::Text(name))),
        ),
    )
}

impl Toy {
    /// Liveness probe; returns the engine identity.
    pub fn ping(&self) -> (res: Result<Rendered<Pong>, ErrorData>)
        ensures
            res matches Ok(pong) && pong.0.engine@ == "toy"@ && pong.0.ok,
    {
        Ok(Rendered(Pong { engine: "toy".to_owned(), ok: true }))
    }

    /// Decompile a function; returns pseudocode.
    ///
    /// The limit counts lines, so there is no second page to fetch: the caller
    /// gets the whole function or is told they did not.
    pub fn decompile(&self, a: DecompileArgs) -> (res: Result<Rendered<Decompiled>, ErrorData>)
        ensures
            res matches Ok(out) && ({
                let code = pseudocode(a.func@, a.with_body != Some(false), a.dialect);
                let limit = page::served(a.limit, 10_000, 10_000);
                out.0.c_code@ == text::joined(first_lines(code, limit), "\n"@) && out.0.truncated
                    == (limit < text::lines(code).len())
            }),
    {
        let dialect = match a.dialect {
            Some(Dialect::Rust) => "rust",
            Some(Dialect::Objc) => "objc",
            _ => "c",
        };
        let mut code = "// ".to_owned();
        code.append(dialect);
        code.append("\nint ");
        code.append(a.func.as_str());
        code.append("(void)");
        let with_body = match a.with_body {
            Some(with_body) => with_body,
            None => true,
        };
        if with_body {
            code.append(" {\n    return 0;\n}");
        } else {
            code.append(";");
        }
        let limit = capped(a.limit, 10_000, 10_000);
        let mut lines = split_lines(code.as_str());
        let ghost all = text::texts(lines@);
        let truncated = limit < lines.len();
        if truncated {
            lines.truncate(limit);
        }
        assert(text::texts(lines@) =~= first_lines(code@, limit as int));
        Ok(Rendered(Decompiled { c_code: join(lines.as_slice(), "\n"), truncated }))
    }

    /// List functions in the current binary.
    pub fn list_functions(&self, a: FunctionsArgs) -> (res: Result<
        Rendered<FunctionPage>,
        ErrorData,
    >)
        ensures
            match res {
                Ok(out) => {
                    let matched = matching(known_functions(), parts_wanted(a.filter));
                    let offset = match a.offset {
                        Some(offset) => offset as int,
                        None => 0,
                    };
                    let limit = page::served(a.limit, 1000, 1000);
                    &&& 0 <= offset <= usize::MAX
                    &&& infos(out.0.functions@) == page::window(matched, offset, limit)
                    &&& out.0.total == matched.len()
                    &&& match out.0.next_offset {
                        Some(next) => page::follow_on(
                            offset,
                            page::window(matched, offset, limit).len() as int,
                            matched.len() as int,
                        ) == Some(next as int),
                        None => page::follow_on(
                            offset,
                            page::window(matched, offset, limit).len() as int,
                            matched.len() as int,
                        ) is None,
                    }
                },
                Err(error) => a.offset is Some && !(0 <= a.offset->0 <= usize::MAX) && error@ == (
                ErrorView {
                    code: INVALID_PARAMS as int,
                    message: args::out_of_range_text("offset"@, a.offset->0 as int, "usize"@),
                    data: None,
                }),
            },
    {
        let (offset, limit) = match bounds(a.offset, a.limit, 1000, 1000) {
            Ok(found) => found,
            Err(refusal) => {
                return Err(ErrorData::invalid_params(refusal.message(), None));
            },
        };
        let parts = match a.filter {
            Some(parts) => parts,
            None => Vec::new(),
        };
        assert(text::texts(parts@) =~= parts_wanted(a.filter));
        let matched = matching_functions(&parts);
        assert(infos(matched@).len() == matched@.len());
        proof {
            infos_of_window(matched@, offset as int, limit as int);
        }
        let page = Page::of(matched, offset, limit);
        assert(infos(page.items@).len() == page.items@.len());
        Ok(
            Rendered(
                FunctionPage {
                    functions: page.items,
                    total: page.total,
                    next_offset: page.next_offset,
                },
            ),
        )
    }

    /// Rename a function. Not read-only.
    pub fn rename(&self, a: RenameArgs) -> (res: Result<Rendered<Renamed>, ErrorData>)
        ensures
            res matches Ok(out) && out.0.addr@ == "0x"@ + hex(bits(a.addr)) && out.0.new_name@
                == a.new_name@ && out.0.ok,
    {
        let mut addr = "0x".to_owned();
        push_hex(&mut addr, bits_of(a.addr));
        Ok(Rendered(Renamed { addr, new_name: a.new_name, ok: true }))
    }

    /// Build a report from a nested section object.
    pub fn build_report(&self, a: ReportArgs) -> (res: Result<Rendered<Report>, ErrorData>)
        ensures
            res matches Ok(out) && out.0.content@ == "# "@ + a.title@ + "\n\n## "@
                + a.section.heading@ + "\n"@ + a.section.body@,
    {
        let mut content = "# ".to_owned();
        content.append(a.title.as_str());
        content.append("\n\n## ");
        content.append(a.section.heading.as_str());
        content.append("\n");
        content.append(a.section.body.as_str());
        Ok(Rendered(Report { content }))
    }

    /// What the resource at an address holds: the names of the tools, and
    /// nothing else is served.
    pub fn read_resource(&self, uri: &str, names: &[String]) -> (res: Result<String, ErrorData>)
        ensures
            match res {
                Ok(body) => uri@ == MANIFEST_URI@ && body@ == json::compact_text(
                    manifest(text::texts(names@)),
                ),
                Err(error) => uri@ != MANIFEST_URI@ && error@ == (ErrorView {
                    code: INVALID_PARAMS as int,
                    message: "no such resource: "@ + uri@,
                    data: None,
                }),
            },
    {
        if !same(uri, MANIFEST_URI) {
            let mut message = "no such resource: ".to_owned();
            message.append(uri);
            return Err(ErrorData::invalid_params(message, None));
        }
        let mut list: Vec<JsonValue> = Vec::new();
        let mut i: usize = 0;
        while i < names.len()
            invariant
                i <= names@.len(),
                list@.len() == i,
                forall|j: int|
                    0 <= j < i ==> (#[trigger] list@[j]).json() == Json::Text(names@[j]@),
            decreases names@.len() - i,
        {
            list.push(JsonValue::Text(names[i].as_str().to_owned()));
            i += 1;
        }
        proof {
            JsonValue::list_json(list);
            assert(json::jsons(list@) =~= text::texts(names@).map_values(
                |name: Seq<char>| Json::Text(name),
            ));
        }
        let mut map = Fields::new();
        map.insert("tools".to_owned(), JsonValue::List(list));
        Ok(to_compact(&JsonValue::Object(map)))
    }
}

// ---------------------------------------------------------------------------
// Laws
// ---------------------------------------------------------------------------

/// The total counts what matched: every function that matches is listed, and
/// none that does not.
pub proof fn filter_is_exact(all: Seq<InfoView>, parts: Seq<Seq<char>>, entry: InfoView)
    ensures
        matching(all, parts).contains(entry) <==> all.contains(entry) && is_wanted(
            entry.name,
            parts,
        ),
    decreases all.len(),
{
    if all.len() > 0 {
        let less = all.drop_last();
        let before = matching(less, parts);
        let now = matching(all, parts);
        filter_is_exact(less, parts, entry);
        assert(all =~= less.push(all.last()));
        if now.contains(entry) {
            let i = choose|i: int| 0 <= i < now.len() && now[i] == entry;
            if i < before.len() {
                assert(before[i] == entry);
                let k = choose|k: int| 0 <= k < less.len() && less[k] == entry;
                assert(all[k] == entry);
            } else {
                assert(all[all.len() - 1] == entry);
            }
        }
        if all.contains(entry) && is_wanted(entry.name, parts) {
            let i = choose|i: int| 0 <= i < all.len() && all[i] == entry;
            if i < less.len() {
                assert(less[i] == entry);
                let k = choose|k: int| 0 <= k < before.len() && before[k] == entry;
                assert(now[k] == entry);
            } else {
                assert(now[now.len() - 1] == entry);
            }
        }
    }
}

} // verus!
