//! The net under a tool answer that is too large to send.
//!
//! Paging bounds the answers a tool plans to give. This bounds the ones it did
//! not plan. Over the threshold the payload is trimmed in place: every object
//! key survives, long texts and long lists are shortened. A caller can then see
//! what the answer looks like and decide whether to fetch the rest. The
//! bookkeeping goes in `_meta`, which no schema describes.
//!
//! [`OutputCache`] decides; whoever holds it writes and removes the files it
//! names.

use vstd::prelude::*;

use crate::ambient;
use crate::ambient::{random_id, Clock};
use crate::json;
use crate::json::{parse_json, to_compact, Fields, Json, JsonValue, Numeral};
use crate::outcome;
use crate::outcome::{CallToolResponse, CallToolResult, ContentBlock, ResultView};
use crate::paths;
use crate::paths::{join_path, path_text};
use crate::text;
use crate::text::{decimal_of, has_char, same, strip_end, strip_start, strip_suffix};

verus! {

/// The `_meta` key the truncation bookkeeping travels under.
pub const META_KEY: &'static str = "vibrev";

/// How large an answer may be, and what a preview of a larger one looks like.
#[derive(Debug, Clone, Copy, PartialEq, Eq)]
pub struct Limits {
    /// Serialized characters past which the net catches the answer.
    pub max_chars: usize,
    /// How many entries of a long list survive into the preview.
    pub preview_items: usize,
    /// How many characters of a long text survive into the preview.
    pub preview_string_chars: usize,
    /// How deep the trimming recurses before leaving a subtree alone.
    pub preview_depth: usize,
    /// How long a spilled output stays fetchable, in nanoseconds.
    pub ttl: u128,
    /// How many spilled outputs are kept before the oldest is dropped.
    pub max_entries: usize,
}

impl Default for Limits {
    fn default() -> (res: Self)
        ensures
            res == (Limits {
                max_chars: 50_000,
                preview_items: 10,
                preview_string_chars: 1_000,
                preview_depth: 5,
                ttl: 1_800_000_000_000,
                max_entries: 128,
            }),
    {
        Limits {
            max_chars: 50_000,
            preview_items: 10,
            preview_string_chars: 1_000,
            preview_depth: 5,
            ttl: 1_800_000_000_000,
            max_entries: 128,
        }
    }
}

// ---------------------------------------------------------------------------
// The preview
// ---------------------------------------------------------------------------

/// A text cut to a number of characters, saying how long it was.
pub open spec fn cut_text(s: Seq<char>, keep: nat) -> Seq<char> {
    s.take(keep as int) + "... ["@ + text::decimal(s.len()) + " chars total]"@
}

/// A document shortened without changing what it looks like.
pub open spec fn preview(doc: Json, depth: nat, limits: Limits) -> Json
    decreases doc,
{
    if depth > limits.preview_depth {
        doc
    } else {
        match doc {
            Json::Text(s) => if s.len() > limits.preview_string_chars {
                Json::Text(cut_text(s, limits.preview_string_chars as nat))
            } else {
                doc
            },
            Json::List(items) => Json::List(
                Seq::new(
                    kept(items.len(), limits),
                    |i: int|
                        if 0 <= i < items.len() {
                            preview(items[i], depth + 1, limits)
                        } else {
                            arbitrary()
                        },
                ),
            ),
            Json::Object(fields) => Json::Object(
                Seq::new(
                    fields.len(),
                    |i: int|
                        if 0 <= i < fields.len() {
                            (fields[i].0, preview(fields[i].1, depth + 1, limits))
                        } else {
                            arbitrary()
                        },
                ),
            ),
            other => other,
        }
    }
}

/// How many items of a list a preview keeps.
pub open spec fn kept(n: nat, limits: Limits) -> nat {
    if n < limits.preview_items {
        n
    } else {
        limits.preview_items as nat
    }
}

/// The text cut to a number of characters.
fn cut(s: &str, keep: usize) -> (res: String)
    requires
        keep <= s@.len(),
    ensures
        res@ == cut_text(s@, keep as nat),
{
    let mut out = s.substring_char(0, keep).to_owned();
    assert(out@ =~= s@.take(keep as int));
    out.append("... [");
    let digits = decimal_of(s.unicode_len() as u64);
    out.append(digits.as_str());
    out.append(" chars total]");
    out
}

/// Shortens a document without changing what it looks like.
///
/// Objects keep every key. Only the two things that grow without bound, long
/// texts and long lists, are cut, and a cut text says how much was cut.
pub fn truncate_value(value: &JsonValue, depth: usize, limits: &Limits) -> (res: JsonValue)
    ensures
        res.json() == preview(value.json(), depth as nat, *limits),
    decreases value.json(), 2int,
{
    if depth > limits.preview_depth {
        return value.clone();
    }
    proof {
        value.kinds();
    }
    match value {
        JsonValue::Text(s) => {
            if s.as_str().unicode_len() > limits.preview_string_chars {
                JsonValue::Text(cut(s.as_str(), limits.preview_string_chars))
            } else {
                value.clone()
            }
        },
        JsonValue::List(items) => {
            let ghost whole = preview(value.json(), depth as nat, *limits)->List_0;
            proof {
                JsonValue::list_json(*items);
            }
            let keep = if items.len() < limits.preview_items {
                items.len()
            } else {
                limits.preview_items
            };
            let mut out: Vec<JsonValue> = Vec::new();
            let mut i: usize = 0;
            while i < keep
                invariant
                    i <= keep <= items.len(),
                    keep == kept(items@.len(), *limits),
                    depth <= limits.preview_depth,
                    value.json() == Json::List(json::jsons(items@)),
                    whole == preview(value.json(), depth as nat, *limits)->List_0,
                    json::jsons(out@) == whole.take(i as int),
                decreases keep - i,
            {
                let ghost former = out@;
                proof {
                    assert(json::jsons(items@)[i as int] == items@[i as int].json());
                    assert(decreases_to!(value.json() => value.json()->List_0));
                    assert(decreases_to!(value.json()->List_0 => value.json()->List_0[i as int]));
                }
                let item = below(&items[i], depth, limits);
                out.push(item);
                assert(json::jsons(out@) =~= json::jsons(former).push(whole[i as int]));
                assert(whole.take(i + 1) =~= whole.take(i as int).push(whole[i as int]));
                i += 1;
            }
            assert(whole.take(whole.len() as int) =~= whole);
            proof {
                JsonValue::list_json(out);
            }
            JsonValue::List(out)
        },
        JsonValue::Object(map) => JsonValue::Object(trim_fields(value, map, depth, limits)),
        JsonValue::Null => value.clone(),
        JsonValue::Bool(_) => value.clone(),
        JsonValue::Numeral(_) => value.clone(),
    }
}

/// A part of a document one level down.
fn below(value: &JsonValue, depth: usize, limits: &Limits) -> (res: JsonValue)
    requires
        depth <= limits.preview_depth,
    ensures
        res.json() == preview(value.json(), (depth + 1) as nat, *limits),
    decreases value.json(), 3int,
{
    if depth == usize::MAX {
        value.clone()
    } else {
        truncate_value(value, depth + 1, limits)
    }
}

fn trim_fields(value: &JsonValue, map: &Fields, depth: usize, limits: &Limits) -> (res: Fields)
    requires
        depth <= limits.preview_depth,
        value.json() == Json::Object(map.fields()),
    ensures
        Json::Object(res.fields()) == preview(value.json(), depth as nat, *limits),
    decreases value.json(), 1int,
{
    let ghost whole = preview(value.json(), depth as nat, *limits)->Object_0;
    let mut entries: Vec<(String, JsonValue)> = Vec::new();
    let mut i: usize = 0;
    while i < map.len()
        invariant
            i <= map.fields().len(),
            depth <= limits.preview_depth,
            value.json() == Json::Object(map.fields()),
            whole == preview(value.json(), depth as nat, *limits)->Object_0,
            entries@.len() == i,
            forall|j: int|
                0 <= j < i ==> (#[trigger] entries@[j]).0@ == map.fields()[j].0
                    && entries@[j].1.json() == whole[j].1,
        decreases map.fields().len() - i,
    {
        proof {
            let fields = value.json()->Object_0;
            assert(decreases_to!(value.json() => fields));
            assert(decreases_to!(fields => fields[i as int]));
        }
        let item = below(map.value(i), depth, limits);
        entries.push((map.key(i).to_owned(), item));
        i += 1;
    }
    proof {
        use_type_invariant(map);
        assert forall|a: int, b: int| 0 <= a < b < entries@.len() implies text::text_before(
            #[trigger] entries@[a].0@,
            #[trigger] entries@[b].0@,
        ) by {
            assert(text::text_before(map.fields()[a].0, map.fields()[b].0));
        }
    }
    let ghost list = entries@;
    let res = Fields::from_entries(entries);
    assert(res.fields() =~= whole) by {
        assert forall|j: int| 0 <= j < whole.len() implies res.fields()[j] == whole[j] by {
            assert(list[j].0@ == map.fields()[j].0);
        }
    }
    res
}

// ---------------------------------------------------------------------------
// The cache
// ---------------------------------------------------------------------------

/// Where the full answer goes when the net catches one.
#[derive(Debug, PartialEq, Eq)]
pub enum Spill {
    /// Nowhere. The preview is all the caller gets.
    Nowhere,
    /// Kept in memory, fetched over this server's own HTTP face.
    Http {
        /// Used when a request carries nothing better.
        fallback_base_url: String,
    },
    /// Written to a private file in this directory, handed over as a `file://`
    /// URL. A path is the bytes it is made of.
    File { directory: Vec<u8> },
}

/// The answer as it will go on the wire, and what was done to it.
#[derive(Debug)]
pub struct Prepared {
    pub value: JsonValue,
    /// `None` when the answer fit and nothing was touched.
    pub truncation: Option<Truncation>,
}

impl Prepared {
    pub fn unchanged(value: JsonValue) -> (res: Self)
        ensures
            res.value == value,
            res.truncation is None,
    {
        Prepared { value, truncation: None }
    }
}

/// What a caller needs to know to get the part that did not fit.
#[derive(Debug)]
pub struct Truncation {
    /// Goes under [`META_KEY`].
    pub metadata: JsonValue,
    /// A sentence a reader can act on, added as a second content block.
    pub hint: String,
}

/// An answer that is held.
#[derive(Debug)]
struct Cached {
    id: String,
    value: Option<JsonValue>,
    created_at: u128,
    file_path: Option<Vec<u8>>,
}

/// What is held of an answer.
pub struct HeldView {
    pub id: Seq<char>,
    pub value: Option<Json>,
    pub created_at: u128,
    pub file_path: Option<Seq<u8>>,
}

/// What a cache holds and hands out.
pub struct CacheView {
    /// The held answers, the oldest first.
    pub held: Seq<HeldView>,
    /// The files that are no longer needed and were not handed out yet.
    pub discarded: Seq<Seq<u8>>,
    /// How many answers were caught, modulo the width of the counter.
    pub spills: u64,
}

/// An answer that the net caught.
#[derive(Debug)]
pub struct Caught {
    value: JsonValue,
    serialized: String,
    id: String,
}

impl Caught {
    /// The answer that was caught.
    pub closed spec fn full(&self) -> Json {
        self.value.json()
    }

    /// What it will be known by.
    pub closed spec fn name(&self) -> Seq<char> {
        self.id@
    }

    /// The answer as it is written to a file.
    #[verifier::type_invariant]
    closed spec fn written_out(self) -> bool {
        self.serialized@ == json::compact_text(self.value.json())
    }

    pub fn id(&self) -> (res: &str)
        ensures
            res@ == self.name(),
    {
        self.id.as_str()
    }

    /// What goes into the file.
    pub fn contents(&self) -> (res: &str)
        ensures
            res@ == json::compact_text(self.full()),
    {
        proof {
            use_type_invariant(self);
        }
        self.serialized.as_str()
    }
}

/// What became of an answer.
#[derive(Debug)]
pub enum Compaction {
    /// It can go out.
    Ready(Prepared),
    /// It was caught, and its file has to be written before it is published.
    Save(Caught),
}

/// The net itself: trims what is too large, keeps the original fetchable.
#[derive(Debug)]
pub struct OutputCache {
    entries: Vec<Cached>,
    discarded: Vec<Vec<u8>>,
    spills: u64,
    spill: Spill,
    limits: Limits,
    clock: Clock,
}

/// The bytes of a list of paths.
pub open spec fn path_list(list: Seq<Vec<u8>>) -> Seq<Seq<u8>> {
    Seq::new(list.len(), |i: int| list[i]@)
}

/// The bytes of an optional path.
pub open spec fn opt_bytes(path: Option<Vec<u8>>) -> Option<Seq<u8>> {
    match path {
        Some(bytes) => Some(bytes@),
        None => None,
    }
}

impl Cached {
    closed spec fn said(&self) -> HeldView {
        HeldView {
            id: self.id@,
            value: outcome::opt_json(self.value),
            created_at: self.created_at,
            file_path: opt_bytes(self.file_path),
        }
    }
}

spec fn all_held(list: Seq<Cached>) -> Seq<HeldView> {
    Seq::new(list.len(), |i: int| list[i].said())
}

/// How long an answer has been held.
pub open spec fn age(entry: HeldView, now: u128) -> int {
    if now > entry.created_at {
        now - entry.created_at
    } else {
        0
    }
}

/// The held answers that have not expired.
pub open spec fn fresh(held: Seq<HeldView>, ttl: u128, now: u128) -> Seq<HeldView>
    decreases held.len(),
{
    if held.len() == 0 {
        Seq::empty()
    } else {
        let before = fresh(held.drop_last(), ttl, now);
        if age(held.last(), now) >= ttl {
            before
        } else {
            before.push(held.last())
        }
    }
}

/// The files of the held answers that have expired.
pub open spec fn expired_files(held: Seq<HeldView>, ttl: u128, now: u128) -> Seq<Seq<u8>>
    decreases held.len(),
{
    if held.len() == 0 {
        Seq::empty()
    } else {
        let before = expired_files(held.drop_last(), ttl, now);
        match held.last().file_path {
            Some(path) if age(held.last(), now) >= ttl => before.push(path),
            _ => before,
        }
    }
}

/// The held answers but those of one name.
pub open spec fn others(held: Seq<HeldView>, id: Seq<char>) -> Seq<HeldView>
    decreases held.len(),
{
    if held.len() == 0 {
        Seq::empty()
    } else {
        let before = others(held.drop_last(), id);
        if held.last().id == id {
            before
        } else {
            before.push(held.last())
        }
    }
}

/// The files of some held answers.
pub open spec fn files(held: Seq<HeldView>) -> Seq<Seq<u8>>
    decreases held.len(),
{
    if held.len() == 0 {
        Seq::empty()
    } else {
        let before = files(held.drop_last());
        match held.last().file_path {
            Some(path) => before.push(path),
            None => before,
        }
    }
}

/// How many of the oldest have to go.
pub open spec fn excess(n: nat, max: usize) -> int {
    if n > max {
        n - max
    } else {
        0
    }
}

impl CacheView {
    /// Expired answers are dropped.
    pub open spec fn reaped(self, ttl: u128, now: u128) -> CacheView {
        CacheView {
            held: fresh(self.held, ttl, now),
            discarded: self.discarded + expired_files(self.held, ttl, now),
            ..self
        }
    }

    /// An answer is taken in as the youngest, and the oldest go where there are
    /// too many.
    pub open spec fn keeping(self, entry: HeldView, limits: Limits) -> CacheView {
        let reaped = self.reaped(limits.ttl, entry.created_at);
        let all = others(reaped.held, entry.id).push(entry);
        let gone = excess(all.len(), limits.max_entries);
        CacheView {
            held: all.skip(gone),
            discarded: reaped.discarded + files(all.take(gone)),
            ..reaped
        }
    }

    /// The answer held under a name.
    pub open spec fn found(self, id: Seq<char>) -> Option<Json> {
        find(self.held, id)
    }
}

/// The answer held under a name.
pub open spec fn find(held: Seq<HeldView>, id: Seq<char>) -> Option<Json>
    decreases held.len(),
{
    if held.len() == 0 {
        None
    } else if held.last().id == id {
        held.last().value
    } else {
        find(held.drop_last(), id)
    }
}

// ---------------------------------------------------------------------------
// Addresses
// ---------------------------------------------------------------------------

/// A hexadecimal digit in upper case.
pub open spec fn upper_hex(n: int) -> char {
    if n < 10 {
        (0x30 + n) as u8 as char
    } else {
        (0x37 + n) as u8 as char
    }
}

/// Whether a byte stands for itself in a URL's path.
pub open spec fn is_unreserved(b: u8) -> bool {
    ||| 0x41 <= b <= 0x5a
    ||| 0x61 <= b <= 0x7a
    ||| 0x30 <= b <= 0x39
    ||| b == 0x2d
    ||| b == 0x2e
    ||| b == 0x5f
    ||| b == 0x7e
    ||| b == 0x2f
}

/// A byte in a URL's path.
pub open spec fn escaped(b: u8) -> Seq<char> {
    if is_unreserved(b) {
        seq![b as char]
    } else {
        seq!['%', upper_hex((b / 16) as int), upper_hex((b % 16) as int)]
    }
}

/// Bytes in a URL's path.
pub open spec fn encoded(bytes: Seq<u8>) -> Seq<char>
    decreases bytes.len(),
{
    if bytes.len() == 0 {
        Seq::empty()
    } else {
        encoded(bytes.drop_last()) + escaped(bytes.last())
    }
}

fn hex_char(n: u8) -> (res: char)
    requires
        n < 16,
    ensures
        res == upper_hex(n as int),
{
    if n < 10 {
        (0x30 + n) as char
    } else {
        (0x37 + n) as char
    }
}

/// A `file://` URL for an absolute path, given as its bytes.
pub fn file_url(path: &[u8]) -> (res: String)
    ensures
        res@ == "file://"@ + encoded(path@),
{
    let mut url = "file://".to_owned();
    let mut i: usize = 0;
    assert(path@.take(0) =~= Seq::empty());
    assert(url@ =~= "file://"@ + encoded(path@.take(0)));
    while i < path.len()
        invariant
            i <= path@.len(),
            url@ == "file://"@ + encoded(path@.take(i as int)),
        decreases path@.len() - i,
    {
        let b = path[i];
        let ghost before = encoded(path@.take(i as int));
        assert(path@.take(i + 1).drop_last() =~= path@.take(i as int));
        if (0x41 <= b && b <= 0x5a) || (0x61 <= b && b <= 0x7a) || (0x30 <= b && b <= 0x39) || b
            == 0x2d || b == 0x2e || b == 0x5f || b == 0x7e || b == 0x2f {
            url.push(b as char);
        } else {
            url.push('%');
            url.push(hex_char(b / 16));
            url.push(hex_char(b % 16));
        }
        assert(url@ =~= "file://"@ + (before + escaped(b)));
        i += 1;
    }
    assert(path@.take(path@.len() as int) =~= path@);
    url
}

/// The name of the file that holds an answer.
pub open spec fn file_name(id: Seq<char>) -> Seq<u8> {
    vstd::utf8::encode_utf8(id + ".json"@)
}

fn file_path(directory: &Vec<u8>, id: &str) -> (res: Vec<u8>)
    ensures
        res@ == paths::joined_path(directory@, file_name(id@)),
{
    let mut name = id.to_owned();
    name.append(".json");
    join_path(directory.as_slice(), name.as_str())
}

/// Where an answer can be fetched.
pub open spec fn output_url(base: Seq<char>, id: Seq<char>) -> Seq<char> {
    text::end_stripped(base, '/') + "/output/"@ + id + ".json"@
}

/// The address of a caught answer, if it has one.
pub open spec fn download_url(
    spill: Spill,
    id: Seq<char>,
    request_base: Option<Seq<char>>,
) -> Json {
    match spill {
        Spill::Nowhere => Json::Null,
        Spill::Http { fallback_base_url } => Json::Text(
            output_url(
                match request_base {
                    Some(base) => base,
                    None => fallback_base_url@,
                },
                id,
            ),
        ),
        Spill::File { directory } => Json::Text(
            "file://"@ + encoded(paths::joined_path(directory@, file_name(id))),
        ),
    }
}

/// The sentence that says how to get the rest of a caught answer.
pub open spec fn download_hint(
    spill: Spill,
    id: Seq<char>,
    request_base: Option<Seq<char>>,
    max_chars: usize,
) -> Seq<char> {
    match spill {
        Spill::Nowhere => "Output truncated at "@ + text::decimal(max_chars as nat)
            + " characters."@,
        Spill::Http { .. } => "Output truncated. Run: curl -o .vibrev/"@ + id + ".json "@
            + download_url(spill, id, request_base)->Text_0,
        Spill::File { directory } => "Output truncated. Full output saved to "@ + paths::lossy_text(
            paths::joined_path(directory@, file_name(id)),
        ),
    }
}

/// The bookkeeping of a caught answer.
pub open spec fn bookkeeping(
    total: nat,
    id: Seq<char>,
    url: Json,
    hint: Seq<char>,
) -> Seq<(Seq<char>, Json)> {
    seq![
        ("download_hint"@, Json::Text(hint)),
        ("download_url"@, url),
        ("output_id"@, Json::Text(id)),
        ("output_truncated"@, Json::Bool(true)),
        ("total_chars"@, Json::Integer(total as int)),
    ]
}

/// What is published of a caught answer.
pub open spec fn is_publication(
    prepared: Prepared,
    full: Json,
    id: Seq<char>,
    spill: Spill,
    limits: Limits,
    request_base: Option<Seq<char>>,
) -> bool {
    let hint = download_hint(spill, id, request_base, limits.max_chars);
    &&& prepared.value.json() == preview(full, 0, limits)
    &&& prepared.truncation is Some
    &&& prepared.truncation->0.hint@ == hint
    &&& prepared.truncation->0.metadata.json() == Json::Object(
        bookkeeping(
            json::compact_text(full).len(),
            id,
            download_url(spill, id, request_base),
            hint,
        ),
    )
}

/// What is held of a caught answer, if anything.
pub open spec fn entry_of(
    full: Json,
    id: Seq<char>,
    spill: Spill,
    now: u128,
) -> Option<HeldView> {
    match spill {
        Spill::Nowhere => None,
        Spill::Http { .. } => Some(
            HeldView { id, value: Some(full), created_at: now, file_path: None },
        ),
        Spill::File { directory } => Some(
            HeldView {
                id,
                value: None,
                created_at: now,
                file_path: Some(paths::joined_path(directory@, file_name(id))),
            },
        ),
    }
}

/// What is handed in as a request's own base URL.
pub open spec fn opt_str(text: Option<&str>) -> Option<Seq<char>> {
    match text {
        Some(text) => Some(text@),
        None => None,
    }
}

proof fn keys_in_order()
    ensures
        text::text_before("download_hint"@, "download_url"@),
        text::text_before("download_url"@, "output_id"@),
        text::text_before("output_id"@, "output_truncated"@),
        text::text_before("output_truncated"@, "total_chars"@),
{
    reveal_strlit("download_hint");
    reveal_strlit("download_url");
    reveal_strlit("output_id");
    reveal_strlit("output_truncated");
    reveal_strlit("total_chars");
    reveal_with_fuel(text::text_before_from, 14);
}

/// The bookkeeping of a caught answer.
fn metadata(total: usize, id: &str, url: JsonValue, hint: &str) -> (res: JsonValue)
    ensures
        res.json() == Json::Object(bookkeeping(total as nat, id@, url.json(), hint@)),
{
    let ghost whole = bookkeeping(total as nat, id@, url.json(), hint@);
    let mut entries: Vec<(String, JsonValue)> = Vec::new();
    entries.push(("download_hint".to_owned(), JsonValue::Text(hint.to_owned())));
    entries.push(("download_url".to_owned(), url));
    entries.push(("output_id".to_owned(), JsonValue::Text(id.to_owned())));
    entries.push(("output_truncated".to_owned(), JsonValue::Bool(true)));
    entries.push(
        ("total_chars".to_owned(), JsonValue::Numeral(Numeral::from_u64(total as u64))),
    );
    let ghost list = entries@;
    proof {
        keys_in_order();
        assert forall|a: int, b: int| 0 <= a < b < list.len() implies text::text_before(
            #[trigger] list[a].0@,
            #[trigger] list[b].0@,
        ) by {
            text::text_order("download_hint"@, "download_url"@, "output_id"@);
            text::text_order("download_hint"@, "output_id"@, "output_truncated"@);
            text::text_order("download_hint"@, "output_truncated"@, "total_chars"@);
            text::text_order("download_url"@, "output_id"@, "output_truncated"@);
            text::text_order("download_url"@, "output_truncated"@, "total_chars"@);
            text::text_order("output_id"@, "output_truncated"@, "total_chars"@);
        }
    }
    let fields = Fields::from_entries(entries);
    assert(fields.fields() =~= whole);
    JsonValue::Object(fields)
}

impl OutputCache {
    /// What the cache holds and hands out.
    pub closed spec fn state(&self) -> CacheView {
        CacheView {
            held: all_held(self.entries@),
            discarded: path_list(self.discarded@),
            spills: self.spills,
        }
    }

    /// Where full answers go.
    pub closed spec fn channel(&self) -> Spill {
        self.spill
    }

    /// The thresholds.
    pub closed spec fn bounds(&self) -> Limits {
        self.limits
    }

    fn with_spill(spill: Spill) -> (res: Self)
        ensures
            res.channel() == spill,
            res.state().held.len() == 0,
            res.state().discarded.len() == 0,
            res.state().spills == 0,
            res.bounds() == (Limits {
                max_chars: 50_000,
                preview_items: 10,
                preview_string_chars: 1_000,
                preview_depth: 5,
                ttl: 1_800_000_000_000,
                max_entries: 128,
            }),
    {
        OutputCache {
            entries: Vec::new(),
            discarded: Vec::new(),
            spills: 0,
            spill,
            limits: Limits::default(),
            clock: Clock::start(),
        }
    }

    /// Trim only. No second channel, so nothing is kept.
    pub fn truncating() -> (res: Self)
        ensures
            res.channel() is Nowhere,
            res.is_new(),
    {
        OutputCache::with_spill(Spill::Nowhere)
    }

    /// Nothing held, nothing caught, the default thresholds.
    pub open spec fn is_new(&self) -> bool {
        &&& self.state().held.len() == 0
        &&& self.state().discarded.len() == 0
        &&& self.state().spills == 0
        &&& self.bounds() == (Limits {
            max_chars: 50_000,
            preview_items: 10,
            preview_string_chars: 1_000,
            preview_depth: 5,
            ttl: 1_800_000_000_000,
            max_entries: 128,
        })
    }

    /// Keep the full answer in memory, fetchable at `{base}/output/{id}.json`.
    pub fn http(fallback_base_url: &str) -> (res: Self)
        ensures
            res.is_new(),
            match res.channel() {
                Spill::Http { fallback_base_url: base } => base@ == text::end_stripped(
                    fallback_base_url@,
                    '/',
                ),
                _ => false,
            },
    {
        OutputCache::with_spill(
            Spill::Http { fallback_base_url: strip_end(fallback_base_url, '/').to_owned() },
        )
    }

    /// Keep full answers in files of a private directory.
    pub fn spilling_to_files(directory: Vec<u8>) -> (res: Self)
        ensures
            res.is_new(),
            res.channel() == (Spill::File { directory }),
    {
        OutputCache::with_spill(Spill::File { directory })
    }

    /// Overrides the thresholds.
    pub fn with_limits(self, limits: Limits) -> (res: Self)
        ensures
            res.bounds() == limits,
            res.state() == self.state(),
            res.channel() == self.channel(),
    {
        let mut cache = self;
        cache.limits = limits;
        cache
    }

    pub fn limits(&self) -> (res: Limits)
        ensures
            res == self.bounds(),
    {
        self.limits
    }

    /// How many answers this cache has caught.
    pub fn spills(&self) -> (res: u64)
        ensures
            res == self.state().spills,
    {
        self.spills
    }

    /// The directory of the files, if there are any.
    pub fn directory(&self) -> (res: Option<&Vec<u8>>)
        ensures
            match self.channel() {
                Spill::File { directory } => res == Some(&directory),
                _ => res is None,
            },
    {
        match &self.spill {
            Spill::File { directory } => Some(directory),
            _ => None,
        }
    }

    /// The files that are no longer needed, each handed out once.
    pub fn take_discarded(&mut self) -> (res: Vec<Vec<u8>>)
        ensures
            path_list(res@) == old(self).state().discarded,
            final(self).state() == (CacheView {
                discarded: Seq::empty(),
                ..old(self).state()
            }),
            final(self).channel() == old(self).channel(),
            final(self).bounds() == old(self).bounds(),
    {
        let mut out: Vec<Vec<u8>> = Vec::new();
        std::mem::swap(&mut out, &mut self.discarded);
        assert(path_list(self.discarded@) =~= Seq::empty());
        out
    }

    /// Drops what has expired.
    fn reap(&mut self, now: u128)
        ensures
            final(self).state() == old(self).state().reaped(old(self).bounds().ttl, now),
            final(self).channel() == old(self).channel(),
            final(self).bounds() == old(self).bounds(),
    {
        let ttl = self.limits.ttl;
        let ghost start = self.state();
        let ghost all = all_held(self.entries@);
        let mut old_entries: Vec<Cached> = Vec::new();
        std::mem::swap(&mut old_entries, &mut self.entries);
        let mut discarded: Vec<Vec<u8>> = Vec::new();
        std::mem::swap(&mut discarded, &mut self.discarded);
        let mut left: Vec<Cached> = Vec::new();
        let ghost n = old_entries@.len();
        let ghost before = old_entries@;
        let ghost mut i: int = 0;
        assert(all_held(left@) =~= fresh(all.take(0), ttl, now));
        assert(path_list(discarded@) =~= start.discarded + expired_files(all.take(0), ttl, now));
        let mut queue = old_entries;
        while queue.len() > 0
            invariant
                0 <= i <= n,
                queue@.len() + i == n,
                n == before.len(),
                queue@ == before.subrange(i, n as int),
                all == all_held(before),
                all_held(left@) == fresh(all.take(i), ttl, now),
                path_list(discarded@) == start.discarded + expired_files(
                    all.take(i),
                    ttl,
                    now,
                ),
            decreases queue@.len(),
        {
            let ghost former = left@;
            let ghost former_files = discarded@;
            let entry = queue.remove(0);
            let ghost said = entry.said();
            assert(entry == before[i]);
            assert(all[i] == said);
            assert(all.take(i + 1).drop_last() =~= all.take(i));
            assert(all.take(i + 1).last() == said);
            let old_enough = if now > entry.created_at {
                now - entry.created_at >= ttl
            } else {
                0 >= ttl
            };
            if old_enough {
                if let Some(path) = entry.file_path {
                    let ghost gone = path@;
                    discarded.push(path);
                    assert(path_list(discarded@) =~= path_list(former_files).push(gone));
                    assert(start.discarded + expired_files(all.take(i + 1), ttl, now) =~= (
                    start.discarded + expired_files(all.take(i), ttl, now)).push(gone));
                }
            } else {
                left.push(entry);
                assert(all_held(left@) =~= all_held(former).push(said));
            }
            assert(queue@ =~= before.subrange(i + 1, n as int));
            proof {
                i = i + 1;
            }
        }
        assert(all.take(n as int) =~= all);
        self.entries = left;
        self.discarded = discarded;
    }

    /// Drops what is held under a name.
    fn forget(&mut self, id: &str)
        ensures
            final(self).state() == (CacheView {
                held: others(old(self).state().held, id@),
                ..old(self).state()
            }),
            final(self).channel() == old(self).channel(),
            final(self).bounds() == old(self).bounds(),
    {
        let ghost all = all_held(self.entries@);
        let ghost before = self.entries@;
        let ghost n = before.len();
        let mut queue: Vec<Cached> = Vec::new();
        std::mem::swap(&mut queue, &mut self.entries);
        let mut left: Vec<Cached> = Vec::new();
        let ghost mut i: int = 0;
        assert(all_held(left@) =~= others(all.take(0), id@));
        while queue.len() > 0
            invariant
                0 <= i <= n,
                queue@.len() + i == n,
                n == before.len(),
                queue@ == before.subrange(i, n as int),
                all == all_held(before),
                all_held(left@) == others(all.take(i), id@),
            decreases queue@.len(),
        {
            let ghost former = left@;
            let entry = queue.remove(0);
            let ghost said = entry.said();
            assert(entry == before[i]);
            assert(all[i] == said);
            assert(all.take(i + 1).drop_last() =~= all.take(i));
            assert(all.take(i + 1).last() == said);
            if !same(entry.id.as_str(), id) {
                left.push(entry);
                assert(all_held(left@) =~= all_held(former).push(said));
            }
            assert(queue@ =~= before.subrange(i + 1, n as int));
            proof {
                i = i + 1;
            }
        }
        assert(all.take(n as int) =~= all);
        self.entries = left;
    }

    /// Takes an answer in, and lets the oldest go where there are too many.
    fn keep(&mut self, entry: Cached)
        ensures
            final(self).state() == old(self).state().keeping(entry.said(), old(self).bounds()),
            final(self).channel() == old(self).channel(),
            final(self).bounds() == old(self).bounds(),
    {
        let ghost said = entry.said();
        self.reap(entry.created_at);
        self.forget(entry.id.as_str());
        let ghost reaped = self.state();
        let mut entries: Vec<Cached> = Vec::new();
        std::mem::swap(&mut entries, &mut self.entries);
        let ghost rest = all_held(entries@);
        entries.push(entry);
        let ghost all = all_held(entries@);
        assert(all =~= rest.push(said));
        let mut discarded: Vec<Vec<u8>> = Vec::new();
        std::mem::swap(&mut discarded, &mut self.discarded);
        let max = self.limits.max_entries;
        let ghost n = all.len();
        let ghost gone = excess(n, max);
        let ghost mut i: int = 0;
        assert(all.skip(0) =~= all);
        assert(all.take(0) =~= Seq::empty());
        assert(path_list(discarded@) =~= reaped.discarded + files(all.take(0)));
        while entries.len() > max
            invariant
                0 <= i <= gone,
                gone == excess(n, max),
                n == all.len(),
                entries@.len() == n - i,
                all_held(entries@) == all.skip(i),
                path_list(discarded@) == reaped.discarded + files(all.take(i)),
            decreases entries@.len(),
        {
            let ghost former = discarded@;
            let ghost former_entries = entries@;
            let oldest = entries.remove(0);
            assert(all_held(former_entries)[0] == oldest.said());
            assert(all.skip(i)[0] == all[i]);
            assert(all.take(i + 1).drop_last() =~= all.take(i));
            assert(all.take(i + 1).last() == oldest.said());
            if let Some(path) = oldest.file_path {
                let ghost bytes = path@;
                discarded.push(path);
                assert(path_list(discarded@) =~= path_list(former).push(bytes));
                assert(reaped.discarded + files(all.take(i + 1)) =~= (reaped.discarded + files(
                    all.take(i),
                )).push(bytes));
            }
            assert(all_held(entries@) =~= all_held(former_entries).skip(1));
            assert(all.skip(i).skip(1) =~= all.skip(i + 1));
            proof {
                i = i + 1;
            }
        }
        self.entries = entries;
        self.discarded = discarded;
    }

    /// Measures an answer. One that fits goes out as it is; one that does not is
    /// caught under a name.
    pub fn measure(&mut self, value: JsonValue, id: String) -> (res: Result<Prepared, Caught>)
        ensures
            match res {
                Ok(prepared) => json::compact_text(value.json()).len() <= old(
                    self,
                ).bounds().max_chars && prepared.value == value && prepared.truncation is None
                    && final(self).state() == old(self).state(),
                Err(caught) => json::compact_text(value.json()).len() > old(
                    self,
                ).bounds().max_chars && caught.full() == value.json() && caught.name() == id@
                    && final(self).state() == (CacheView {
                    spills: old(self).state().spills.wrapping_add(1),
                    ..old(self).state()
                }),
            },
            final(self).channel() == old(self).channel(),
            final(self).bounds() == old(self).bounds(),
    {
        let serialized = to_compact(&value);
        if serialized.as_str().unicode_len() <= self.limits.max_chars {
            return Ok(Prepared::unchanged(value));
        }
        self.spills = self.spills.wrapping_add(1);
        Err(Caught { value, serialized, id })
    }

    /// The file to write before a caught answer is published, if there is one.
    pub fn file_for(&self, caught: &Caught) -> (res: Option<Vec<u8>>)
        ensures
            match self.channel() {
                Spill::File { directory } => res is Some && res->0@ == paths::joined_path(
                    directory@,
                    file_name(caught.name()),
                ),
                _ => res is None,
            },
    {
        match &self.spill {
            Spill::File { directory } => Some(file_path(directory, caught.id.as_str())),
            _ => None,
        }
    }

    /// Publishes a caught answer: a preview goes out, and the whole of it stays
    /// fetchable.
    pub fn publish_at(
        &mut self,
        caught: Caught,
        request_base_url: Option<&str>,
        now: u128,
    ) -> (res: Prepared)
        ensures
            is_publication(
                res,
                caught.full(),
                caught.name(),
                old(self).channel(),
                old(self).bounds(),
                opt_str(request_base_url),
            ),
            final(self).state() == (match entry_of(
                caught.full(),
                caught.name(),
                old(self).channel(),
                now,
            ) {
                Some(entry) => old(self).state().keeping(entry, old(self).bounds()),
                None => old(self).state(),
            }),
            final(self).channel() == old(self).channel(),
            final(self).bounds() == old(self).bounds(),
    {
        proof {
            use_type_invariant(&caught);
        }
        let Caught { value, serialized, id } = caught;
        let total = serialized.as_str().unicode_len();
        let shown = truncate_value(&value, 0, &self.limits);
        match &self.spill {
            Spill::Nowhere => {
                let mut hint = "Output truncated at ".to_owned();
                let digits = decimal_of(self.limits.max_chars as u64);
                hint.append(digits.as_str());
                hint.append(" characters.");
                let meta = metadata(total, id.as_str(), JsonValue::Null, hint.as_str());
                Prepared { value: shown, truncation: Some(Truncation { metadata: meta, hint }) }
            },
            Spill::Http { fallback_base_url } => {
                let base = match request_base_url {
                    Some(base) => base,
                    None => fallback_base_url.as_str(),
                };
                let mut url = strip_end(base, '/').to_owned();
                url.append("/output/");
                url.append(id.as_str());
                url.append(".json");
                let mut hint = "Output truncated. Run: curl -o .vibrev/".to_owned();
                hint.append(id.as_str());
                hint.append(".json ");
                hint.append(url.as_str());
                let meta = metadata(total, id.as_str(), JsonValue::Text(url), hint.as_str());
                self.keep(Cached { id, value: Some(value), created_at: now, file_path: None });
                Prepared { value: shown, truncation: Some(Truncation { metadata: meta, hint }) }
            },
            Spill::File { directory } => {
                let path = file_path(directory, id.as_str());
                let url = file_url(path.as_slice());
                let mut hint = "Output truncated. Full output saved to ".to_owned();
                let shown_path = path_text(path.as_slice());
                hint.append(shown_path.as_str());
                let meta = metadata(total, id.as_str(), JsonValue::Text(url), hint.as_str());
                self.keep(Cached { id, value: None, created_at: now, file_path: Some(path) });
                Prepared { value: shown, truncation: Some(Truncation { metadata: meta, hint }) }
            },
        }
    }

    /// Publishes a caught answer now.
    pub fn publish(&mut self, caught: Caught, request_base_url: Option<&str>) -> (res: Prepared)
        ensures
            is_publication(
                res,
                caught.full(),
                caught.name(),
                old(self).channel(),
                old(self).bounds(),
                opt_str(request_base_url),
            ),
            exists|now: u128|
                final(self).state() == (match #[trigger] entry_of(
                    caught.full(),
                    caught.name(),
                    old(self).channel(),
                    now,
                ) {
                    Some(entry) => old(self).state().keeping(entry, old(self).bounds()),
                    None => old(self).state(),
                }),
            final(self).channel() == old(self).channel(),
            final(self).bounds() == old(self).bounds(),
    {
        let now = self.clock.now();
        let ghost entry = entry_of(caught.full(), caught.name(), self.channel(), now);
        self.publish_at(caught, request_base_url, now)
    }

    /// Trims `value` if it is too large, and makes the original fetchable.
    ///
    /// `request_base_url` lets one request's own host win over the configured
    /// fallback. Where full answers go to files, the caller writes the file of a
    /// caught answer and then publishes it.
    pub fn compact(
        &mut self,
        value: JsonValue,
        request_base_url: Option<&str>,
    ) -> (res: Compaction)
        ensures
            json::compact_text(value.json()).len() <= old(self).bounds().max_chars ==> (match res {
                Compaction::Ready(prepared) => prepared.value == value
                    && prepared.truncation is None && final(self).state() == old(self).state(),
                Compaction::Save(_) => false,
            }),
            json::compact_text(value.json()).len() > old(self).bounds().max_chars ==> (match res {
                Compaction::Ready(prepared) => !(old(self).channel() is File) && exists|
                    id: Seq<char>,
                    now: u128,
                | #[trigger]
                    caught_as(*old(self), *final(self), value.json(), id, now)
                        && ambient::is_random_id(id) && is_publication(
                        prepared,
                        value.json(),
                        id,
                        old(self).channel(),
                        old(self).bounds(),
                        opt_str(request_base_url),
                    ),
                Compaction::Save(caught) => old(self).channel() is File && caught.full()
                    == value.json() && ambient::is_random_id(caught.name()) && final(self).state()
                    == (CacheView {
                    spills: old(self).state().spills.wrapping_add(1),
                    ..old(self).state()
                }),
            }),
            final(self).channel() == old(self).channel(),
            final(self).bounds() == old(self).bounds(),
    {
        let id = random_id();
        let ghost name = id@;
        let ghost start = *self;
        match self.measure(value, id) {
            Ok(prepared) => Compaction::Ready(prepared),
            Err(caught) => {
                if self.directory().is_some() {
                    return Compaction::Save(caught);
                }
                let now = self.clock.now();
                let prepared = self.publish_at(caught, request_base_url, now);
                assert(caught_as(start, *self, value.json(), name, now));
                Compaction::Ready(prepared)
            },
        }
    }

    /// The answer held under a name.
    fn lookup(&self, id: &str) -> (res: Option<JsonValue>)
        ensures
            outcome::opt_json(res) == self.state().found(id@),
    {
        let ghost all = all_held(self.entries@);
        let mut i: usize = self.entries.len();
        assert(all.take(i as int) =~= all);
        while i > 0
            invariant
                i <= self.entries@.len(),
                all == all_held(self.entries@),
                find(all, id@) == find(all.take(i as int), id@),
            decreases i,
        {
            i -= 1;
            assert(all[i as int] == self.entries@[i as int].said());
            assert(all.take(i + 1).drop_last() =~= all.take(i as int));
            assert(all.take(i + 1).last() == all[i as int]);
            if same(self.entries[i].id.as_str(), id) {
                return match &self.entries[i].value {
                    Some(value) => Some(value.clone()),
                    None => None,
                };
            }
        }
        None
    }

    /// The full answer behind an id, while it is still held.
    pub fn get_at(&mut self, id: &str, now: u128) -> (res: Option<JsonValue>)
        ensures
            final(self).state() == old(self).state().reaped(old(self).bounds().ttl, now),
            outcome::opt_json(res) == final(self).state().found(id@),
            final(self).channel() == old(self).channel(),
            final(self).bounds() == old(self).bounds(),
    {
        self.reap(now);
        self.lookup(id)
    }

    /// The full answer behind an id, while it is still held.
    pub fn get(&mut self, id: &str) -> (res: Option<JsonValue>)
        ensures
            exists|now: u128| #[trigger]
                old(self).state().reaped(old(self).bounds().ttl, now) == final(self).state(),
            outcome::opt_json(res) == final(self).state().found(id@),
            final(self).channel() == old(self).channel(),
            final(self).bounds() == old(self).bounds(),
    {
        let now = self.clock.now();
        self.get_at(id, now)
    }
}

/// One cache is another after an answer was caught and taken in.
pub open spec fn caught_as(
    before: OutputCache,
    after: OutputCache,
    full: Json,
    id: Seq<char>,
    now: u128,
) -> bool {
    let counted = CacheView {
        spills: before.state().spills.wrapping_add(1),
        ..before.state()
    };
    after.state() == (match entry_of(full, id, before.channel(), now) {
        Some(entry) => counted.keeping(entry, before.bounds()),
        None => counted,
    })
}

// ---------------------------------------------------------------------------
// A server whose answers are held to a size
// ---------------------------------------------------------------------------

/// The text of the first content block, where that is text.
pub open spec fn first_text(result: ResultView) -> Option<Seq<char>> {
    if result.content.len() > 0 {
        match result.content[0] {
            outcome::BlockView::Text { text, .. } => Some(text),
            outcome::BlockView::Other(_) => None,
        }
    } else {
        None
    }
}

/// The document a result carries, in the form the net can measure.
pub open spec fn payload(result: ResultView) -> Json {
    match result.structured_content {
        Some(doc) => doc,
        None => match first_text(result) {
            Some(text) => match json::parsed(text) {
                Some(doc) => doc,
                None => Json::Text(text),
            },
            None => Json::Null,
        },
    }
}

fn leading_text(result: &CallToolResult) -> (res: Option<&str>)
    ensures
        opt_str(res) == first_text(result@),
{
    if result.content.len() > 0 {
        assert(result@.content[0] == result.content@[0]@);
        result.content[0].as_text()
    } else {
        None
    }
}

/// The document a result carries, in the form the net can measure.
///
/// The structured payload where there is one. Otherwise the text: parsed where
/// it is JSON, and taken as a plain text where it is not, so that a tool that
/// answers with ten megabytes of prose does not sail through the net.
pub fn payload_of(result: &CallToolResult) -> (res: JsonValue)
    ensures
        res.json() == payload(result@),
{
    if let Some(structured) = &result.structured_content {
        return structured.clone();
    }
    match leading_text(result) {
        Some(text) => match parse_json(text) {
            Some(doc) => doc,
            None => JsonValue::Text(text.to_owned()),
        },
        None => JsonValue::Null,
    }
}

/// A text cut to a number of characters, with a last line that says how long it
/// was.
pub open spec fn clipped(s: Seq<char>, max_chars: nat) -> Seq<char> {
    if s.len() <= max_chars {
        s
    } else {
        s.take(max_chars as int) + "\n... ["@ + text::decimal(s.len()) + " chars total]"@
    }
}

fn truncate_text(s: &str, max_chars: usize) -> (res: String)
    ensures
        res@ == clipped(s@, max_chars as nat),
{
    let total = s.unicode_len();
    if total <= max_chars {
        return s.to_owned();
    }
    let mut out = s.substring_char(0, max_chars).to_owned();
    assert(out@ =~= s@.take(max_chars as int));
    out.append("\n... [");
    let digits = decimal_of(total as u64);
    out.append(digits.as_str());
    out.append(" chars total]");
    out
}

/// A result rebuilt around a preview. The text is shortened rather than replaced,
/// so code stays code; a tool that published no structured content does not
/// acquire one.
pub open spec fn capped(
    result: ResultView,
    shown: Json,
    metadata: Json,
    hint: Seq<char>,
    max_chars: nat,
) -> ResultView {
    let head = match first_text(result) {
        Some(text) => clipped(text, max_chars),
        None => json::compact_text(shown),
    };
    let meta = match result.meta {
        Some(fields) => fields,
        None => Seq::empty(),
    };
    ResultView {
        content: seq![outcome::text_block(head), outcome::text_block(hint)],
        structured_content: if result.structured_content is Some {
            Some(shown)
        } else {
            None
        },
        meta: Some(json::with_field(meta, META_KEY@, metadata)),
        ..result
    }
}

/// Rebuilds a result around a preview, keeping everything that made it legible.
pub fn capped_result(
    result: CallToolResult,
    shown: JsonValue,
    truncation: Truncation,
    limits: Limits,
) -> (res: CallToolResult)
    ensures
        res@ == capped(
            result@,
            shown.json(),
            truncation.metadata.json(),
            truncation.hint@,
            limits.max_chars as nat,
        ),
{
    let head = match leading_text(&result) {
        Some(text) => truncate_text(text, limits.max_chars),
        None => to_compact(&shown),
    };
    let mut content: Vec<ContentBlock> = Vec::new();
    content.push(ContentBlock::text(head));
    content.push(ContentBlock::text(truncation.hint));
    let mut meta = match result.meta {
        Some(fields) => fields,
        None => Fields::new(),
    };
    meta.insert(META_KEY.to_owned(), truncation.metadata);
    let res = CallToolResult {
        result_type: result.result_type,
        content,
        structured_content: if result.structured_content.is_some() {
            Some(shown)
        } else {
            None
        },
        is_error: result.is_error,
        meta: Some(meta),
    };
    assert(res@.content =~= seq![
        outcome::text_block(head@),
        outcome::text_block(truncation.hint@),
    ]);
    res
}

/// A server whose answers are held to a size.
#[derive(Debug)]
pub struct Capped<S> {
    inner: S,
    cache: OutputCache,
}

/// What becomes of a server's answer.
#[derive(Debug)]
pub enum Reply {
    /// It goes out.
    Done(CallToolResponse),
    /// It was caught: its file has to be written, and then it is finished.
    Save { result: CallToolResult, caught: Caught },
}

/// Whether a result is what is left of another once its payload was caught.
pub open spec fn is_capped(
    after: ResultView,
    before: ResultView,
    full: Json,
    id: Seq<char>,
    spill: Spill,
    limits: Limits,
    request_base: Option<Seq<char>>,
) -> bool {
    let hint = download_hint(spill, id, request_base, limits.max_chars);
    after == capped(
        before,
        preview(full, 0, limits),
        Json::Object(
            bookkeeping(
                json::compact_text(full).len(),
                id,
                download_url(spill, id, request_base),
                hint,
            ),
        ),
        hint,
        limits.max_chars as nat,
    )
}

impl<S> Capped<S> {
    /// The server whose answers are bounded.
    pub closed spec fn server(&self) -> S {
        self.inner
    }

    /// The net.
    pub closed spec fn net(&self) -> OutputCache {
        self.cache
    }

    pub fn new(inner: S, cache: OutputCache) -> (res: Self)
        ensures
            res.server() == inner,
            res.net() == cache,
    {
        Capped { inner, cache }
    }

    pub fn cache(&self) -> (res: &OutputCache)
        ensures
            *res == self.net(),
    {
        &self.cache
    }

    pub fn inner(&self) -> (res: &S)
        ensures
            *res == self.server(),
    {
        &self.inner
    }

    /// What goes out in place of what the server answered. Only a completed call
    /// has a payload to measure.
    pub fn call_tool(
        &mut self,
        response: CallToolResponse,
        request_base_url: Option<&str>,
    ) -> (res: Reply)
        ensures
            match response {
                CallToolResponse::Complete(result) => {
                    let size = json::compact_text(payload(result@)).len();
                    &&& size <= old(self).net().bounds().max_chars ==> res == Reply::Done(response)
                        && final(self).net().state() == old(self).net().state()
                    &&& size > old(self).net().bounds().max_chars ==> (match res {
                        Reply::Done(CallToolResponse::Complete(after)) => {
                            &&& !(old(self).net().channel() is File)
                            &&& exists|id: Seq<char>, now: u128| #[trigger]
                                caught_as(
                                    old(self).net(),
                                    final(self).net(),
                                    payload(result@),
                                    id,
                                    now,
                                ) && ambient::is_random_id(id) && is_capped(
                                    after@,
                                    result@,
                                    payload(result@),
                                    id,
                                    old(self).net().channel(),
                                    old(self).net().bounds(),
                                    opt_str(request_base_url),
                                )
                        },
                        Reply::Save { result: same, caught } => old(self).net().channel() is File
                            && same == result && caught.full() == payload(result@)
                            && ambient::is_random_id(caught.name()) && final(self).net().state()
                            == (CacheView {
                            spills: old(self).net().state().spills.wrapping_add(1),
                            ..old(self).net().state()
                        }),
                        _ => false,
                    })
                },
                _ => res == Reply::Done(response) && final(self).net() == old(self).net(),
            },
            final(self).server() == old(self).server(),
            final(self).net().channel() == old(self).net().channel(),
            final(self).net().bounds() == old(self).net().bounds(),
    {
        let result = match response {
            CallToolResponse::Complete(result) => result,
            other => return Reply::Done(other),
        };
        let doc = payload_of(&result);
        let ghost before = self.cache;
        match self.cache.compact(doc, request_base_url) {
            Compaction::Ready(prepared) => match prepared.truncation {
                None => Reply::Done(CallToolResponse::Complete(result)),
                Some(truncation) => {
                    let limits = self.cache.limits();
                    Reply::Done(
                        CallToolResponse::Complete(
                            capped_result(result, prepared.value, truncation, limits),
                        ),
                    )
                },
            },
            Compaction::Save(caught) => Reply::Save { result, caught },
        }
    }

    /// Finishes an answer whose file was written.
    pub fn finish(
        &mut self,
        result: CallToolResult,
        caught: Caught,
        request_base_url: Option<&str>,
    ) -> (res: CallToolResult)
        ensures
            is_capped(
                res@,
                result@,
                caught.full(),
                caught.name(),
                old(self).net().channel(),
                old(self).net().bounds(),
                opt_str(request_base_url),
            ),
            exists|now: u128|
                final(self).net().state() == (match #[trigger] entry_of(
                    caught.full(),
                    caught.name(),
                    old(self).net().channel(),
                    now,
                ) {
                    Some(entry) => old(self).net().state().keeping(entry, old(self).net().bounds()),
                    None => old(self).net().state(),
                }),
            final(self).server() == old(self).server(),
            final(self).net().channel() == old(self).net().channel(),
            final(self).net().bounds() == old(self).net().bounds(),
    {
        let limits = self.cache.limits();
        let prepared = self.cache.publish(caught, request_base_url);
        match prepared.truncation {
            Some(truncation) => capped_result(result, prepared.value, truncation, limits),
            None => result,
        }
    }

    /// The full answer behind an id, while it is still held.
    pub fn get(&mut self, id: &str) -> (res: Option<JsonValue>)
        ensures
            exists|now: u128| #[trigger]
                old(self).net().state().reaped(old(self).net().bounds().ttl, now)
                    == final(self).net().state(),
            outcome::opt_json(res) == final(self).net().state().found(id@),
            final(self).server() == old(self).server(),
            final(self).net().channel() == old(self).net().channel(),
            final(self).net().bounds() == old(self).net().bounds(),
    {
        self.cache.get(id)
    }

    /// The files that are no longer needed, each handed out once.
    pub fn take_discarded(&mut self) -> (res: Vec<Vec<u8>>)
        ensures
            path_list(res@) == old(self).net().state().discarded,
            final(self).net().state() == (CacheView {
                discarded: Seq::empty(),
                ..old(self).net().state()
            }),
            final(self).server() == old(self).server(),
            final(self).net().channel() == old(self).net().channel(),
            final(self).net().bounds() == old(self).net().bounds(),
    {
        self.cache.take_discarded()
    }
}

/// What a client is told when the full answer could not be stored.
pub fn store_failed(error: &str) -> (res: outcome::ErrorData)
    ensures
        res@ == (outcome::ErrorView {
            code: outcome::INTERNAL_ERROR as int,
            message: "failed to store large tool output: "@ + error@,
            data: None,
        }),
{
    let mut message = "failed to store large tool output: ".to_owned();
    message.append(error);
    outcome::ErrorData::internal_error(message, None)
}

/// The id that a path asks for: `{id}.json`, and only that.
pub open spec fn asked_id(path: Seq<char>) -> Option<Seq<char>> {
    let name = text::start_stripped(path, '/');
    if text::ends(name, ".json"@) {
        let id = name.take(name.len() - ".json"@.len());
        if id.len() > 0 && !id.contains('/') {
            Some(id)
        } else {
            None
        }
    } else {
        None
    }
}

/// The id in `{id}.json`, and only that: no separators, nothing empty.
pub fn output_id(path: &str) -> (res: Option<&str>)
    ensures
        opt_str(res) == asked_id(path@),
{
    match strip_suffix(strip_start(path, '/'), ".json") {
        Some(id) => if !id.is_empty() && !has_char(id, '/') {
            Some(id)
        } else {
            None
        },
        None => None,
    }
}

// ---------------------------------------------------------------------------
// Laws
// ---------------------------------------------------------------------------

/// A preview keeps its shape: the kind of every document, and of an object every
/// key in its place with a preview of its value.
pub proof fn preview_keeps_shape(doc: Json, depth: nat, limits: Limits)
    ensures
        doc is Text <==> preview(doc, depth, limits) is Text,
        doc is List <==> preview(doc, depth, limits) is List,
        doc is Object <==> preview(doc, depth, limits) is Object,
        !(doc is Text || doc is List || doc is Object) ==> preview(doc, depth, limits) == doc,
        doc is Object ==> {
            let before = doc->Object_0;
            let after = preview(doc, depth, limits)->Object_0;
            &&& after.len() == before.len()
            &&& forall|i: int|
                0 <= i < before.len() ==> (#[trigger] after[i]).0 == before[i].0
        },
        doc is List ==> preview(doc, depth, limits)->List_0.len() <= doc->List_0.len(),
{
}

/// A key of an object finds in the preview the preview of what it found.
pub proof fn preview_keeps_every_key(
    fields: Seq<(Seq<char>, Json)>,
    key: Seq<char>,
    depth: nat,
    limits: Limits,
)
    requires
        depth <= limits.preview_depth,
    ensures
        preview(Json::Object(fields), depth, limits).get(key) == (match json::field(fields, key) {
            Some(value) => Some(preview(value, depth + 1, limits)),
            None => None,
        }),
{
    let after = preview(Json::Object(fields), depth, limits)->Object_0;
    same_position(fields, after, key, 0);
    json::position_bounds(fields, key, 0);
}

proof fn same_position(
    a: Seq<(Seq<char>, Json)>,
    b: Seq<(Seq<char>, Json)>,
    key: Seq<char>,
    from: int,
)
    requires
        a.len() == b.len(),
        0 <= from <= a.len(),
        forall|i: int| 0 <= i < a.len() ==> (#[trigger] a[i]).0 == b[i].0,
    ensures
        json::position_from(a, key, from) == json::position_from(b, key, from),
    decreases a.len() - from,
{
    if from < a.len() {
        same_position(a, b, key, from + 1);
    }
}

/// A preview of a short scalar is that scalar.
pub proof fn preview_leaves_small_values(doc: Json, depth: nat, limits: Limits)
    requires
        match doc {
            Json::Text(s) => s.len() <= limits.preview_string_chars,
            Json::List(_) | Json::Object(_) => false,
            _ => true,
        },
    ensures
        preview(doc, depth, limits) == doc,
{
}

proof fn fresh_keeps(held: Seq<HeldView>, ttl: u128, now: u128)
    ensures
        fresh(held, ttl, now).len() <= held.len(),
        forall|i: int|
            0 <= i < fresh(held, ttl, now).len() ==> held.contains(
                #[trigger] fresh(held, ttl, now)[i],
            ) && age(fresh(held, ttl, now)[i], now) < ttl,
    decreases held.len(),
{
    if held.len() > 0 {
        fresh_keeps(held.drop_last(), ttl, now);
        let before = fresh(held.drop_last(), ttl, now);
        let all = fresh(held, ttl, now);
        assert forall|i: int| 0 <= i < all.len() implies held.contains(#[trigger] all[i]) && age(
            all[i],
            now,
        ) < ttl by {
            if i < before.len() {
                assert(all[i] == before[i]);
                let less = held.drop_last();
                let j = choose|j: int| 0 <= j < less.len() && less[j] == before[i];
                assert(held[j] == all[i]);
            } else {
                assert(held[held.len() - 1] == all[i]);
            }
        }
    }
}

/// The cache never holds more than it may.
pub proof fn holds_no_more_than_allowed(cache: CacheView, entry: HeldView, limits: Limits)
    ensures
        cache.keeping(entry, limits).held.len() <= limits.max_entries,
{
}

/// What was caught can be fetched: right after an answer was taken in, and until
/// its time is up, asking for it gives it back whole.
pub proof fn caught_is_fetchable(
    cache: CacheView,
    full: Json,
    id: Seq<char>,
    now: u128,
    later: u128,
    limits: Limits,
)
    requires
        limits.max_entries >= 1,
        now <= later,
        later - now < limits.ttl,
    ensures
        cache.keeping(
            (HeldView { id, value: Some(full), created_at: now, file_path: None }),
            limits,
        ).reaped(limits.ttl, later).found(id) == Some(full),
{
    let entry = HeldView { id, value: Some(full), created_at: now, file_path: None };
    let after = cache.keeping(entry, limits);
    assert(after.held.len() >= 1);
    assert(after.held.last() == entry);
}

/// An answer is gone once its time is up.
pub proof fn expired_is_gone(cache: CacheView, ttl: u128, now: u128, id: Seq<char>)
    requires
        forall|i: int|
            0 <= i < cache.held.len() && (#[trigger] cache.held[i]).id == id ==> age(
                cache.held[i],
                now,
            ) >= ttl,
    ensures
        cache.reaped(ttl, now).found(id) is None,
{
    fresh_keeps(cache.held, ttl, now);
    let left = fresh(cache.held, ttl, now);
    assert forall|i: int| 0 <= i < left.len() implies (#[trigger] left[i]).id != id by {
        let j = choose|j: int| 0 <= j < cache.held.len() && cache.held[j] == left[i];
        assert(cache.held[j] == left[i]);
    }
    finds_nothing(left, id);
}

proof fn finds_nothing(held: Seq<HeldView>, id: Seq<char>)
    requires
        forall|i: int| 0 <= i < held.len() ==> (#[trigger] held[i]).id != id,
    ensures
        find(held, id) is None,
    decreases held.len(),
{
    if held.len() > 0 {
        finds_nothing(held.drop_last(), id);
    }
}

/// The value of a hexadecimal digit in upper case.
pub open spec fn upper_hex_value(c: char) -> int {
    if c <= '9' {
        c as int - 0x30
    } else {
        c as int - 0x37
    }
}

/// The bytes that the path of a URL spells out.
pub open spec fn decoded(path: Seq<char>) -> Seq<u8>
    decreases path.len(),
{
    if path.len() == 0 {
        Seq::empty()
    } else if path.len() >= 3 && path[path.len() - 3] == '%' {
        decoded(path.take(path.len() - 3)).push(
            (16 * upper_hex_value(path[path.len() - 2]) + upper_hex_value(
                path[path.len() - 1],
            )) as u8,
        )
    } else {
        decoded(path.drop_last()).push(path.last() as u8)
    }
}

/// A path survives the way through a URL: what a client decodes is the path.
pub proof fn file_url_decodes(path: Seq<u8>)
    ensures
        decoded(encoded(path)) == path,
    decreases path.len(),
{
    if path.len() > 0 {
        let rest = encoded(path.drop_last());
        let b = path.last();
        file_url_decodes(path.drop_last());
        let all = encoded(path);
        if is_unreserved(b) {
            assert(all =~= rest.push(b as char));
            assert(all.drop_last() =~= rest);
            if all.len() >= 3 {
                plain_tail(path.drop_last());
            }
            assert(decoded(all) =~= path);
        } else {
            let hi = upper_hex((b / 16) as int);
            let lo = upper_hex((b % 16) as int);
            assert(all =~= rest + seq!['%', hi, lo]);
            assert(all.take(all.len() - 3) =~= rest);
            assert(upper_hex_value(hi) == b / 16);
            assert(upper_hex_value(lo) == b % 16);
            assert(16 * (b / 16) + b % 16 == b);
            assert(decoded(all) =~= path);
        }
    }
}

/// An escape is never cut: no `%` stands last, or last but one.
proof fn plain_tail(path: Seq<u8>)
    ensures
        encoded(path).len() >= 1 ==> encoded(path).last() != '%',
        encoded(path).len() >= 2 ==> encoded(path)[encoded(path).len() - 2] != '%',
    decreases path.len(),
{
    if path.len() > 0 {
        plain_tail(path.drop_last());
        let rest = encoded(path.drop_last());
        let b = path.last();
        let all = encoded(path);
        if is_unreserved(b) {
            assert(all =~= rest.push(b as char));
            assert(all.last() == b as char);
            if all.len() >= 2 {
                assert(all[all.len() - 2] == rest.last());
            }
        } else {
            let hi = upper_hex((b / 16) as int);
            let lo = upper_hex((b % 16) as int);
            assert(all =~= rest + seq!['%', hi, lo]);
            assert(all.last() == lo);
            assert(all[all.len() - 2] == hi);
        }
    }
}

} // verus!
