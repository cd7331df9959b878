//! Turn tool results into something a reader of a terminal can consume without
//! wading through JSON nesting.
//!
//! 1. A text-bearing key (`c_code`, `listing`, ...) prints as a bare text, so
//!    decompiler output can be piped straight into a file or a diff.
//! 2. A list of objects prints as a width-aligned table.
//! 3. An object holding exactly one list plus bookkeeping prints as a header
//!    line and that table.
//!
//! Whether a value is bookkeeping is a question of its structure, not of its
//! name: is it small enough that a header line can carry it?

use vstd::prelude::*;

use crate::json;
use crate::json::{to_compact, to_pretty, Fields, Json, JsonValue};
use crate::text;
use crate::text::{decimal_of, has_char, join, list_has, same, trim_end};

verus! {

/// Longest single-line text still treated as incidental, in bytes.
pub const BOOKKEEPING_STRING_MAX: usize = 96;

/// Most fields a nested object may have and still fit on a header line.
pub const BOOKKEEPING_OBJECT_MAX: usize = 8;

/// Whether a key carries text that a reader wants bare.
pub open spec fn is_text_key(key: Seq<char>) -> bool {
    ||| key == "c_code"@
    ||| key == "listing"@
    ||| key == "hexdump"@
    ||| key == "content"@
    ||| key == "code"@
    ||| key == "source"@
}

fn text_key(key: &str) -> (res: bool)
    ensures
        res == is_text_key(key@),
{
    same(key, "c_code") || same(key, "listing") || same(key, "hexdump") || same(key, "content")
        || same(key, "code") || same(key, "source")
}

/// A text that is short and on one line.
pub open spec fn is_note(s: Seq<char>) -> bool {
    vstd::utf8::encode_utf8(s).len() <= BOOKKEEPING_STRING_MAX && !s.contains('\n')
}

fn note(s: &str) -> (res: bool)
    ensures
        res == is_note(s@),
{
    s.as_bytes().len() <= BOOKKEEPING_STRING_MAX && !has_char(s, '\n')
}

/// A scalar that a header line can carry.
pub open spec fn is_small_scalar(value: Json) -> bool {
    match value {
        Json::Text(s) => is_note(s),
        Json::List(_) | Json::Object(_) => false,
        _ => true,
    }
}

/// A value small enough to ride along on a header line: a scalar, where it is no
/// long or multi-line text, or a small object of such scalars.
pub open spec fn bookkeeping(value: Json) -> bool {
    match value {
        Json::Object(fields) => fields.len() <= BOOKKEEPING_OBJECT_MAX && forall|i: int|
            0 <= i < fields.len() ==> is_small_scalar((#[trigger] fields[i]).1),
        other => is_small_scalar(other),
    }
}

fn small_scalar(value: &JsonValue) -> (res: bool)
    ensures
        res == is_small_scalar(value.json()),
{
    proof {
        value.kinds();
    }
    match value {
        JsonValue::Text(s) => note(s.as_str()),
        JsonValue::List(_) => false,
        JsonValue::Object(_) => false,
        JsonValue::Null => true,
        JsonValue::Bool(_) => true,
        JsonValue::Numeral(_) => true,
    }
}

/// Whether a value is small enough to ride along on a header line.
pub fn is_bookkeeping(value: &JsonValue) -> (res: bool)
    ensures
        res == bookkeeping(value.json()),
{
    let map = match value.as_object() {
        Some(map) => map,
        None => {
            proof {
                value.kinds();
            }
            return small_scalar(value);
        },
    };
    if map.len() > BOOKKEEPING_OBJECT_MAX {
        return false;
    }
    let mut i: usize = 0;
    while i < map.len()
        invariant
            i <= map.fields().len(),
            value.json() == Json::Object(map.fields()),
            map.fields().len() <= BOOKKEEPING_OBJECT_MAX,
            forall|j: int| 0 <= j < i ==> is_small_scalar((#[trigger] map.fields()[j]).1),
        decreases map.fields().len() - i,
    {
        if !small_scalar(map.value(i)) {
            assert(!is_small_scalar(map.fields()[i as int].1));
            return false;
        }
        i += 1;
    }
    true
}

/// A value as a reader sees it: a text as itself, anything else as JSON.
pub open spec fn plain(value: Json) -> Seq<char> {
    match value {
        Json::Text(s) => s,
        other => json::compact_text(other),
    }
}

fn plain_text(value: &JsonValue) -> (res: String)
    ensures
        res@ == plain(value.json()),
{
    match value.as_str() {
        Some(s) => s.to_owned(),
        None => to_compact(value),
    }
}

/// `key=value`.
pub open spec fn pair(key: Seq<char>, value: Json) -> Seq<char> {
    key + "="@ + plain(value)
}

fn bookkeeping_pair(key: &str, value: &JsonValue) -> (res: String)
    ensures
        res@ == pair(key@, value.json()),
{
    let mut out = key.to_owned();
    out.append("=");
    let shown = plain_text(value);
    out.append(shown.as_str());
    out
}

// ---------------------------------------------------------------------------
// Tables
// ---------------------------------------------------------------------------

/// A column list with the keys of one row entered, each once.
pub open spec fn with_keys(columns: Seq<Seq<char>>, row: Seq<(Seq<char>, Json)>) -> Seq<Seq<char>>
    decreases row.len(),
{
    if row.len() == 0 {
        columns
    } else {
        let before = with_keys(columns, row.drop_last());
        if before.contains(row.last().0) {
            before
        } else {
            before.push(row.last().0)
        }
    }
}

/// The columns of a table: every key of a row, in order of first appearance.
pub open spec fn columns_of(rows: Seq<Seq<(Seq<char>, Json)>>) -> Seq<Seq<char>>
    decreases rows.len(),
{
    if rows.len() == 0 {
        Seq::empty()
    } else {
        with_keys(columns_of(rows.drop_last()), rows.last())
    }
}

/// What a cell of a table shows.
pub open spec fn cell(row: Seq<(Seq<char>, Json)>, column: Seq<char>) -> Seq<char> {
    match json::field(row, column) {
        None => Seq::empty(),
        Some(Json::Null) => Seq::empty(),
        Some(value) => plain(value),
    }
}

/// The cells of a row.
pub open spec fn cells_of(row: Seq<(Seq<char>, Json)>, columns: Seq<Seq<char>>) -> Seq<Seq<char>> {
    columns.map_values(|column: Seq<char>| cell(row, column))
}

/// How wide a column is: as wide as its widest cell or its name.
pub open spec fn width(rows: Seq<Seq<(Seq<char>, Json)>>, column: Seq<char>) -> nat
    decreases rows.len(),
{
    if rows.len() == 0 {
        column.len()
    } else {
        let before = width(rows.drop_last(), column);
        let last = cell(rows.last(), column).len();
        if last > before {
            last
        } else {
            before
        }
    }
}

pub open spec fn widths_of(
    rows: Seq<Seq<(Seq<char>, Json)>>,
    columns: Seq<Seq<char>>,
) -> Seq<nat> {
    columns.map_values(|column: Seq<char>| width(rows, column))
}

/// One character a number of times.
pub open spec fn repeated(c: char, n: nat) -> Seq<char> {
    Seq::new(n, |i: int| c)
}

/// A text followed by blanks up to a width.
pub open spec fn padded(s: Seq<char>, wide: nat) -> Seq<char> {
    if s.len() < wide {
        s + repeated(' ', (wide - s.len()) as nat)
    } else {
        s
    }
}

/// The cells of a line, every one but the last padded to its width.
pub open spec fn padded_cells(cells: Seq<Seq<char>>, widths: Seq<nat>) -> Seq<Seq<char>> {
    Seq::new(
        cells.len(),
        |i: int|
            if i + 1 < cells.len() {
                padded(cells[i], widths[i])
            } else {
                cells[i]
            },
    )
}

/// A line of a table.
pub open spec fn table_line(cells: Seq<Seq<char>>, widths: Seq<nat>) -> Seq<char> {
    text::end_trimmed(text::joined(padded_cells(cells, widths), "  "@))
}

/// The rule under the header of a table.
pub open spec fn rule(widths: Seq<nat>) -> Seq<char> {
    text::joined(widths.map_values(|w: nat| repeated('-', w)), "  "@)
}

/// The first rows of a table, each on a line of its own.
pub open spec fn body(
    rows: Seq<Seq<(Seq<char>, Json)>>,
    columns: Seq<Seq<char>>,
    widths: Seq<nat>,
    n: int,
) -> Seq<char>
    decreases n,
{
    if n <= 0 {
        Seq::empty()
    } else {
        body(rows, columns, widths, n - 1) + "\n"@ + table_line(
            cells_of(rows[n - 1], columns),
            widths,
        )
    }
}

/// A table: the column names, a rule, and a line for every row.
pub open spec fn table(rows: Seq<Seq<(Seq<char>, Json)>>) -> Seq<char> {
    let columns = columns_of(rows);
    let widths = widths_of(rows, columns);
    table_line(columns, widths) + "\n"@ + rule(widths) + body(
        rows,
        columns,
        widths,
        rows.len() as int,
    )
}

/// Whether every document of a list is an object.
pub open spec fn all_objects(items: Seq<Json>) -> bool {
    forall|i: int| 0 <= i < items.len() ==> (#[trigger] items[i]) is Object
}

/// The rows of a list of objects.
pub open spec fn rows_of(items: Seq<Json>) -> Seq<Seq<(Seq<char>, Json)>> {
    items.map_values(|item: Json| item->Object_0)
}

/// A list: a table where every item is an object, else one item to a line.
pub open spec fn list_text(items: Seq<Json>) -> Seq<char> {
    if items.len() == 0 {
        "(空)"@
    } else if all_objects(items) {
        table(rows_of(items))
    } else {
        text::joined(items.map_values(|item: Json| plain(item)), "\n"@)
    }
}

/// One character a number of times.
fn repeat(c: char, n: usize) -> (res: String)
    ensures
        res@ == repeated(c, n as nat),
{
    let mut out = String::new();
    let mut i: usize = 0;
    while i < n
        invariant
            i <= n,
            out@ == repeated(c, i as nat),
        decreases n - i,
    {
        out.push(c);
        assert(out@ =~= repeated(c, (i + 1) as nat));
        i += 1;
    }
    out
}

/// The widths a list of numbers stands for.
pub open spec fn nats(list: Seq<usize>) -> Seq<nat> {
    list.map_values(|n: usize| n as nat)
}

fn join_padded(cells: &Vec<String>, widths: &Vec<usize>) -> (res: String)
    requires
        cells@.len() <= widths@.len(),
    ensures
        res@ == table_line(text::texts(cells@), nats(widths@)),
{
    let mut out: Vec<String> = Vec::new();
    let ghost all = padded_cells(text::texts(cells@), nats(widths@));
    let mut i: usize = 0;
    while i < cells.len()
        invariant
            i <= cells.len(),
            cells@.len() <= widths@.len(),
            all == padded_cells(text::texts(cells@), nats(widths@)),
            text::texts(out@) == all.take(i as int),
        decreases cells.len() - i,
    {
        let ghost former = out@;
        let mut s = cells[i].clone();
        let wide = widths[i];
        let long = s.as_str().unicode_len();
        if i + 1 < cells.len() && long < wide {
            let pad = repeat(' ', wide - long);
            s.append(pad.as_str());
        }
        assert(text::texts(cells@)[i as int] == cells@[i as int]@);
        assert(s@ == all[i as int]);
        let ghost line = s@;
        out.push(s);
        assert(text::texts(out@) =~= text::texts(former).push(line));
        assert(all.take(i + 1) =~= all.take(i as int).push(all[i as int]));
        i += 1;
    }
    assert(all.take(all.len() as int) =~= all);
    let whole = join(out.as_slice(), "  ");
    trim_end(whole.as_str()).to_owned()
}

/// What a cell shows.
fn scalar(value: Option<&JsonValue>) -> (res: String)
    ensures
        res@ == (match value {
            None => Seq::empty(),
            Some(v) => if v.json() is Null {
                Seq::empty()
            } else {
                plain(v.json())
            },
        }),
{
    match value {
        None => String::new(),
        Some(v) => if v.is_null() {
            String::new()
        } else {
            plain_text(v)
        },
    }
}

/// The fields of rows, as they stand in a list of objects.
pub open spec fn fields_of(rows: Seq<&Fields>) -> Seq<Seq<(Seq<char>, Json)>> {
    rows.map_values(|row: &Fields| row.fields())
}

fn collect_columns(rows: &Vec<&Fields>) -> (res: Vec<String>)
    ensures
        text::texts(res@) == columns_of(fields_of(rows@)),
{
    let ghost all = fields_of(rows@);
    let mut columns: Vec<String> = Vec::new();
    assert(text::texts(columns@) =~= columns_of(all.take(0)));
    let mut i: usize = 0;
    while i < rows.len()
        invariant
            i <= rows.len(),
            all == fields_of(rows@),
            text::texts(columns@) == columns_of(all.take(i as int)),
        decreases rows.len() - i,
    {
        let ghost start = text::texts(columns@);
        let row = rows[i];
        assert(all[i as int] == row.fields());
        let mut k: usize = 0;
        assert(row.fields().take(0) =~= Seq::empty());
        while k < row.len()
            invariant
                k <= row.fields().len(),
                text::texts(columns@) == with_keys(start, row.fields().take(k as int)),
            decreases row.fields().len() - k,
        {
            let ghost former = columns@;
            assert(row.fields().take(k + 1).drop_last() =~= row.fields().take(k as int));
            if !list_has(columns.as_slice(), row.key(k)) {
                columns.push(row.key(k).to_owned());
                assert(text::texts(columns@) =~= text::texts(former).push(
                    row.fields()[k as int].0,
                ));
            }
            k += 1;
        }
        assert(row.fields().take(row.fields().len() as int) =~= row.fields());
        assert(all.take(i + 1).drop_last() =~= all.take(i as int));
        i += 1;
    }
    assert(all.take(all.len() as int) =~= all);
    columns
}

fn row_cells(row: &Fields, columns: &Vec<String>) -> (res: Vec<String>)
    ensures
        text::texts(res@) == cells_of(row.fields(), text::texts(columns@)),
{
    let ghost all = cells_of(row.fields(), text::texts(columns@));
    let mut out: Vec<String> = Vec::new();
    let mut i: usize = 0;
    while i < columns.len()
        invariant
            i <= columns.len(),
            all == cells_of(row.fields(), text::texts(columns@)),
            text::texts(out@) == all.take(i as int),
        decreases columns.len() - i,
    {
        let ghost former = out@;
        let found = row.get(columns[i].as_str());
        let shown = scalar(found);
        assert(text::texts(columns@)[i as int] == columns@[i as int]@);
        assert(shown@ == all[i as int]);
        out.push(shown);
        assert(text::texts(out@) =~= text::texts(former).push(all[i as int]));
        assert(all.take(i + 1) =~= all.take(i as int).push(all[i as int]));
        i += 1;
    }
    assert(all.take(all.len() as int) =~= all);
    out
}

fn column_width(rows: &Vec<&Fields>, column: &str) -> (res: usize)
    ensures
        res == width(fields_of(rows@), column@),
{
    let ghost all = fields_of(rows@);
    let mut wide: usize = column.unicode_len();
    let mut i: usize = 0;
    while i < rows.len()
        invariant
            i <= rows.len(),
            all == fields_of(rows@),
            wide == width(all.take(i as int), column@),
        decreases rows.len() - i,
    {
        let found = rows[i].get(column);
        let shown = scalar(found);
        let long = shown.as_str().unicode_len();
        assert(all.take(i + 1).drop_last() =~= all.take(i as int));
        assert(all.take(i + 1).last() == rows@[i as int].fields());
        if long > wide {
            wide = long;
        }
        i += 1;
    }
    assert(all.take(all.len() as int) =~= all);
    wide
}

fn render_table(rows: &Vec<&Fields>) -> (res: String)
    ensures
        res@ == table(fields_of(rows@)),
{
    let ghost all = fields_of(rows@);
    let columns = collect_columns(rows);
    let ghost names = text::texts(columns@);
    let ghost sizes = widths_of(all, names);
    let mut widths: Vec<usize> = Vec::new();
    let mut rules: Vec<String> = Vec::new();
    let ghost dashes = sizes.map_values(|w: nat| repeated('-', w));
    let mut i: usize = 0;
    while i < columns.len()
        invariant
            i <= columns.len(),
            all == fields_of(rows@),
            names == text::texts(columns@),
            sizes == widths_of(all, names),
            dashes == sizes.map_values(|w: nat| repeated('-', w)),
            nats(widths@) == sizes.take(i as int),
            text::texts(rules@) == dashes.take(i as int),
        decreases columns.len() - i,
    {
        let ghost former = widths@;
        let ghost former_rules = rules@;
        let wide = column_width(rows, columns[i].as_str());
        assert(names[i as int] == columns@[i as int]@);
        assert(wide == sizes[i as int]);
        widths.push(wide);
        rules.push(repeat('-', wide));
        assert(nats(widths@) =~= nats(former).push(wide as nat));
        assert(text::texts(rules@) =~= text::texts(former_rules).push(dashes[i as int]));
        assert(sizes.take(i + 1) =~= sizes.take(i as int).push(sizes[i as int]));
        assert(dashes.take(i + 1) =~= dashes.take(i as int).push(dashes[i as int]));
        i += 1;
    }
    assert(sizes.take(sizes.len() as int) =~= sizes);
    assert(dashes.take(dashes.len() as int) =~= dashes);
    assert(nats(widths@).len() == widths@.len());
    let mut out = join_padded(&columns, &widths);
    out.append("\n");
    let under = join(rules.as_slice(), "  ");
    out.append(under.as_str());
    let ghost head = out@;
    let mut r: usize = 0;
    assert(out@ =~= head + body(all, names, sizes, 0));
    while r < rows.len()
        invariant
            r <= rows.len(),
            all == fields_of(rows@),
            names == text::texts(columns@),
            sizes == nats(widths@),
            columns@.len() == widths@.len(),
            out@ == head + body(all, names, sizes, r as int),
        decreases rows.len() - r,
    {
        let cells = row_cells(rows[r], &columns);
        assert(all[r as int] == rows@[r as int].fields());
        assert(text::texts(cells@).len() == cells@.len());
        let line = join_padded(&cells, &widths);
        let ghost before = body(all, names, sizes, r as int);
        out.append("\n");
        out.append(line.as_str());
        assert(out@ =~= head + (before + "\n"@ + line@));
        r += 1;
    }
    out
}

fn render_array(items: &Vec<JsonValue>) -> (res: String)
    ensures
        res@ == list_text(json::jsons(items@)),
{
    let ghost docs = json::jsons(items@);
    if items.len() == 0 {
        return "(空)".to_owned();
    }
    let mut rows: Vec<&Fields> = Vec::new();
    let mut lines: Vec<String> = Vec::new();
    let ghost shown = docs.map_values(|item: Json| plain(item));
    let mut uniform = true;
    let mut i: usize = 0;
    while i < items.len()
        invariant
            i <= items.len(),
            docs == json::jsons(items@),
            shown == docs.map_values(|item: Json| plain(item)),
            text::texts(lines@) == shown.take(i as int),
            uniform == all_objects(docs.take(i as int)),
            uniform ==> fields_of(rows@) == rows_of(docs.take(i as int)),
        decreases items.len() - i,
    {
        let ghost former = lines@;
        let ghost former_rows = rows@;
        let ghost less = docs.take(i as int);
        let ghost more = docs.take(i + 1);
        assert(docs[i as int] == items@[i as int].json());
        assert(more =~= less.push(docs[i as int]));
        lines.push(plain_text(&items[i]));
        assert(text::texts(lines@) =~= text::texts(former).push(shown[i as int]));
        assert(shown.take(i + 1) =~= shown.take(i as int).push(shown[i as int]));
        match items[i].as_object() {
            Some(row) => {
                rows.push(row);
                proof {
                    assert(more[i as int] is Object);
                    if uniform {
                        assert forall|j: int| 0 <= j < more.len() implies (#[trigger] more[j]) is Object by {
                            if j < i {
                                assert(less[j] is Object);
                            }
                        }
                        assert(fields_of(rows@) =~= fields_of(former_rows).push(row.fields()));
                        assert(rows_of(more) =~= rows_of(less).push(row.fields()));
                    } else {
                        let j = choose|j: int| 0 <= j < less.len() && !((#[trigger] less[j]) is Object);
                        assert(!(more[j] is Object));
                    }
                }
            },
            None => {
                assert(!(more[i as int] is Object));
                uniform = false;
            },
        }
        i += 1;
    }
    assert(docs.take(docs.len() as int) =~= docs);
    assert(shown.take(shown.len() as int) =~= shown);
    if uniform {
        render_table(&rows)
    } else {
        join(lines.as_slice(), "\n")
    }
}

// ---------------------------------------------------------------------------
// Objects
// ---------------------------------------------------------------------------

/// The fields that carry bare text.
pub open spec fn text_fields(fields: Seq<(Seq<char>, Json)>) -> Seq<(Seq<char>, Json)> {
    fields.filter(|f: (Seq<char>, Json)| f.1 is Text && is_text_key(f.0))
}

/// The fields that are lists.
pub open spec fn list_fields(fields: Seq<(Seq<char>, Json)>) -> Seq<(Seq<char>, Json)> {
    fields.filter(|f: (Seq<char>, Json)| f.1 is List)
}

/// Whether every field but one is bookkeeping.
pub open spec fn rest_is_bookkeeping(fields: Seq<(Seq<char>, Json)>, key: Seq<char>) -> bool {
    forall|i: int|
        0 <= i < fields.len() && (#[trigger] fields[i]).0 != key ==> bookkeeping(fields[i].1)
}

/// Every field but one as `key=value`.
pub open spec fn other_pairs(fields: Seq<(Seq<char>, Json)>, key: Seq<char>) -> Seq<Seq<char>>
    decreases fields.len(),
{
    if fields.len() == 0 {
        Seq::empty()
    } else {
        let before = other_pairs(fields.drop_last(), key);
        if fields.last().0 == key {
            before
        } else {
            before.push(pair(fields.last().0, fields.last().1))
        }
    }
}

/// What a header names after the list, its total and whether it was cut.
pub open spec fn header_notes(fields: Seq<(Seq<char>, Json)>, key: Seq<char>) -> Seq<char>
    decreases fields.len(),
{
    if fields.len() == 0 {
        Seq::empty()
    } else {
        let before = header_notes(fields.drop_last(), key);
        let last = fields.last();
        if last.0 == key || last.0 == "total"@ || last.0 == "truncated"@ {
            before
        } else {
            before + ", "@ + pair(last.0, last.1)
        }
    }
}

/// The header line over a list.
pub open spec fn header(
    fields: Seq<(Seq<char>, Json)>,
    key: Seq<char>,
    count: nat,
) -> Seq<char> {
    key + " ("@ + text::decimal(count) + " items"@ + (match json::field(fields, "total"@) {
        Some(total) => ", total="@ + json::compact_text(total),
        None => Seq::empty(),
    }) + (if json::field(fields, "truncated"@) == Some(Json::Bool(true)) {
        ", truncated"@
    } else {
        Seq::empty()
    }) + header_notes(fields, key) + "):"@
}

/// The text of an object that carries one text and bookkeeping.
pub open spec fn titled_text(fields: Seq<(Seq<char>, Json)>) -> Seq<char> {
    let (key, value) = text_fields(fields)[0];
    let rest = other_pairs(fields, key);
    if rest.len() == 0 {
        value->Text_0
    } else {
        value->Text_0 + "\n\n["@ + text::joined(rest, ", "@) + "]"@
    }
}

/// The text of an object that carries one list and bookkeeping.
pub open spec fn titled_list(fields: Seq<(Seq<char>, Json)>) -> Seq<char> {
    let (key, value) = list_fields(fields)[0];
    header(fields, key, value->List_0.len()) + "\n"@ + list_text(value->List_0)
}

/// The text of an object.
pub open spec fn object_text(fields: Seq<(Seq<char>, Json)>) -> Seq<char> {
    let texts = text_fields(fields);
    let lists = list_fields(fields);
    if texts.len() == 1 && rest_is_bookkeeping(fields, texts[0].0) {
        titled_text(fields)
    } else if lists.len() == 1 && rest_is_bookkeeping(fields, lists[0].0) {
        titled_list(fields)
    } else {
        json::pretty_text(Json::Object(fields))
    }
}

/// What a reader is shown for a document.
pub open spec fn rendered(doc: Json) -> Seq<char> {
    match doc {
        Json::Null => Seq::empty(),
        Json::Text(s) => s,
        Json::List(items) => list_text(items),
        Json::Object(fields) => object_text(fields),
        other => json::compact_text(other),
    }
}

/// The position of the one text field, where there is exactly one.
fn sole_text(map: &Fields) -> (res: Option<usize>)
    ensures
        match res {
            Some(at) => at < map.fields().len() && text_fields(map.fields()).len() == 1
                && text_fields(map.fields())[0] == map.fields()[at as int]
                && map.fields()[at as int].1 is Text,
            None => text_fields(map.fields()).len() != 1,
        },
{
    let ghost all = map.fields();
    let ghost want = |f: (Seq<char>, Json)| f.1 is Text && is_text_key(f.0);
    let mut count: usize = 0;
    let mut at: usize = 0;
    let mut i: usize = 0;
    assert(all.take(0).filter(want).len() == 0) by {
        reveal(Seq::filter);
    }
    while i < map.len()
        invariant
            i <= all.len(),
            all == map.fields(),
            want == (|f: (Seq<char>, Json)| f.1 is Text && is_text_key(f.0)),
            count == all.take(i as int).filter(want).len(),
            count <= i,
            count > 0 ==> at < i && want(all[at as int]) && all.take(i as int).filter(want).last()
                == all[at as int],
        decreases all.len() - i,
    {
        let is_text = map.value(i).as_str().is_some();
        proof {
            reveal(Seq::filter);
            assert(all.take(i + 1).drop_last() =~= all.take(i as int));
            assert(all.take(i + 1).last() == all[i as int]);
        }
        if is_text && text_key(map.key(i)) {
            count += 1;
            at = i;
        }
        i += 1;
    }
    assert(all.take(all.len() as int) =~= all);
    if count == 1 {
        Some(at)
    } else {
        None
    }
}

/// The position of the one list, where there is exactly one.
fn sole_list(map: &Fields) -> (res: Option<usize>)
    ensures
        match res {
            Some(at) => at < map.fields().len() && list_fields(map.fields()).len() == 1
                && list_fields(map.fields())[0] == map.fields()[at as int]
                && map.fields()[at as int].1 is List,
            None => list_fields(map.fields()).len() != 1,
        },
{
    let ghost all = map.fields();
    let ghost want = |f: (Seq<char>, Json)| f.1 is List;
    let mut count: usize = 0;
    let mut at: usize = 0;
    let mut i: usize = 0;
    assert(all.take(0).filter(want).len() == 0) by {
        reveal(Seq::filter);
    }
    while i < map.len()
        invariant
            i <= all.len(),
            all == map.fields(),
            want == (|f: (Seq<char>, Json)| f.1 is List),
            count == all.take(i as int).filter(want).len(),
            count <= i,
            count > 0 ==> at < i && want(all[at as int]) && all.take(i as int).filter(want).last()
                == all[at as int],
        decreases all.len() - i,
    {
        let is_list = map.value(i).as_array().is_some();
        proof {
            reveal(Seq::filter);
            assert(all.take(i + 1).drop_last() =~= all.take(i as int));
            assert(all.take(i + 1).last() == all[i as int]);
        }
        if is_list {
            count += 1;
            at = i;
        }
        i += 1;
    }
    assert(all.take(all.len() as int) =~= all);
    if count == 1 {
        Some(at)
    } else {
        None
    }
}

fn rest_small(map: &Fields, key: &str) -> (res: bool)
    ensures
        res == rest_is_bookkeeping(map.fields(), key@),
{
    let mut i: usize = 0;
    while i < map.len()
        invariant
            i <= map.fields().len(),
            forall|j: int|
                0 <= j < i && (#[trigger] map.fields()[j]).0 != key@ ==> bookkeeping(
                    map.fields()[j].1,
                ),
        decreases map.fields().len() - i,
    {
        if !same(map.key(i), key) && !is_bookkeeping(map.value(i)) {
            assert(map.fields()[i as int].0 != key@);
            return false;
        }
        i += 1;
    }
    true
}

fn rest_pairs(map: &Fields, key: &str) -> (res: Vec<String>)
    ensures
        text::texts(res@) == other_pairs(map.fields(), key@),
{
    let ghost all = map.fields();
    let mut out: Vec<String> = Vec::new();
    let mut i: usize = 0;
    assert(text::texts(out@) =~= other_pairs(all.take(0), key@));
    while i < map.len()
        invariant
            i <= all.len(),
            all == map.fields(),
            text::texts(out@) == other_pairs(all.take(i as int), key@),
        decreases all.len() - i,
    {
        let ghost former = out@;
        assert(all.take(i + 1).drop_last() =~= all.take(i as int));
        assert(all.take(i + 1).last() == all[i as int]);
        if !same(map.key(i), key) {
            out.push(bookkeeping_pair(map.key(i), map.value(i)));
            assert(text::texts(out@) =~= text::texts(former).push(
                pair(all[i as int].0, all[i as int].1),
            ));
        }
        i += 1;
    }
    assert(all.take(all.len() as int) =~= all);
    out
}

fn notes(map: &Fields, key: &str) -> (res: String)
    ensures
        res@ == header_notes(map.fields(), key@),
{
    let ghost all = map.fields();
    let mut out = String::new();
    let mut i: usize = 0;
    while i < map.len()
        invariant
            i <= all.len(),
            all == map.fields(),
            out@ == header_notes(all.take(i as int), key@),
        decreases all.len() - i,
    {
        assert(all.take(i + 1).drop_last() =~= all.take(i as int));
        assert(all.take(i + 1).last() == all[i as int]);
        let name = map.key(i);
        if !same(name, key) && !same(name, "total") && !same(name, "truncated") {
            let shown = bookkeeping_pair(name, map.value(i));
            out.append(", ");
            out.append(shown.as_str());
        }
        i += 1;
    }
    assert(all.take(all.len() as int) =~= all);
    out
}

fn header_line(map: &Fields, key: &str, count: usize) -> (res: String)
    ensures
        res@ == header(map.fields(), key@, count as nat),
{
    let mut out = key.to_owned();
    out.append(" (");
    let digits = decimal_of(count as u64);
    out.append(digits.as_str());
    out.append(" items");
    let ghost base = out@;
    if let Some(total) = map.get("total") {
        out.append(", total=");
        let shown = to_compact(total);
        out.append(shown.as_str());
        assert(out@ =~= base + (", total="@ + json::compact_text(total.json())));
    } else {
        assert(out@ =~= base + Seq::empty());
    }
    let ghost counted = out@;
    let cut = match map.get("truncated") {
        Some(value) => match value.as_bool() {
            Some(b) => b,
            None => false,
        },
        None => false,
    };
    if cut {
        out.append(", truncated");
    } else {
        assert(out@ =~= counted + Seq::empty());
    }
    let rest = notes(map, key);
    out.append(rest.as_str());
    out.append("):");
    out
}

fn render_object(map: &Fields) -> (res: String)
    ensures
        res@ == object_text(map.fields()),
{
    if let Some(at) = sole_text(map) {
        let key = map.key(at);
        if rest_small(map, key) {
            let rest = rest_pairs(map, key);
            let mut out = match map.value(at).as_str() {
                Some(text) => text.to_owned(),
                None => String::new(),
            };
            assert(text::texts(rest@).len() == rest@.len());
            if rest.len() > 0 {
                out.append("\n\n[");
                let shown = join(rest.as_slice(), ", ");
                out.append(shown.as_str());
                out.append("]");
            }
            return out;
        }
    }
    if let Some(at) = sole_list(map) {
        let key = map.key(at);
        if rest_small(map, key) {
            if let Some(items) = map.value(at).as_array() {
                assert(json::jsons(items@).len() == items@.len());
                let mut out = header_line(map, key, items.len());
                out.append("\n");
                let shown = render_array(items);
                out.append(shown.as_str());
                return out;
            }
        }
    }
    to_pretty(&JsonValue::Object(map.clone()))
}

/// What a reader is shown for a document.
pub fn render(v: &JsonValue) -> (res: String)
    ensures
        res@ == rendered(v.json()),
{
    proof {
        v.kinds();
    }
    match v {
        JsonValue::Null => String::new(),
        JsonValue::Text(s) => s.clone(),
        JsonValue::List(items) => {
            proof {
                JsonValue::list_json(*items);
            }
            render_array(items)
        },
        JsonValue::Object(map) => render_object(map),
        JsonValue::Bool(_) => to_compact(v),
        JsonValue::Numeral(_) => to_compact(v),
    }
}

/// A document as indented JSON.
pub fn pretty(v: &JsonValue) -> (res: String)
    ensures
        res@ == json::pretty_text(v.json()),
{
    to_pretty(v)
}

// ---------------------------------------------------------------------------
// Laws
// ---------------------------------------------------------------------------

/// A payload that carries nothing but one text prints as exactly that text.
pub proof fn lone_text_prints_bare(key: Seq<char>, shown: Seq<char>)
    requires
        is_text_key(key),
    ensures
        rendered(Json::Object(seq![(key, Json::Text(shown))])) == shown,
{
    let fields = seq![(key, Json::Text(shown))];
    let want = |f: (Seq<char>, Json)| f.1 is Text && is_text_key(f.0);
    assert(fields.drop_last() =~= Seq::empty());
    reveal(Seq::filter);
    assert(fields.drop_last().filter(want) =~= Seq::empty());
    assert(text_fields(fields) =~= fields);
    assert(other_pairs(fields, key) =~= other_pairs(Seq::empty(), key));
    assert(rest_is_bookkeeping(fields, key));
}

/// Whatever an object carries beside its one text is shown after it: there is a
/// note for every other field, and the text itself comes first and unchanged.
pub proof fn bookkeeping_is_shown(fields: Seq<(Seq<char>, Json)>, at: int)
    requires
        json::ordered(fields),
        text_fields(fields).len() == 1,
        rest_is_bookkeeping(fields, text_fields(fields)[0].0),
        0 <= at < fields.len(),
        fields[at].0 != text_fields(fields)[0].0,
    ensures
        other_pairs(fields, text_fields(fields)[0].0).contains(
            pair(fields[at].0, fields[at].1),
        ),
        rendered(Json::Object(fields)) == text_fields(fields)[0].1->Text_0 + "\n\n["@
            + text::joined(other_pairs(fields, text_fields(fields)[0].0), ", "@) + "]"@,
{
    pair_is_listed(fields, text_fields(fields)[0].0, at);
}

proof fn pair_is_listed(fields: Seq<(Seq<char>, Json)>, key: Seq<char>, at: int)
    requires
        0 <= at < fields.len(),
        fields[at].0 != key,
    ensures
        other_pairs(fields, key).contains(pair(fields[at].0, fields[at].1)),
    decreases fields.len(),
{
    let all = other_pairs(fields, key);
    let shown = pair(fields[at].0, fields[at].1);
    if at == fields.len() - 1 {
        assert(all[all.len() - 1] == shown);
    } else {
        pair_is_listed(fields.drop_last(), key, at);
        let before = other_pairs(fields.drop_last(), key);
        let i = choose|i: int| 0 <= i < before.len() && before[i] == shown;
        assert(all[i] == shown);
    }
}

/// No column of a table is narrower than any of its cells.
pub proof fn columns_hold_their_cells(
    rows: Seq<Seq<(Seq<char>, Json)>>,
    column: Seq<char>,
    at: int,
)
    requires
        0 <= at < rows.len(),
    ensures
        cell(rows[at], column).len() <= width(rows, column),
        column.len() <= width(rows, column),
    decreases rows.len(),
{
    width_covers_name(rows, column);
    if at < rows.len() - 1 {
        columns_hold_their_cells(rows.drop_last(), column, at);
    }
}

proof fn width_covers_name(rows: Seq<Seq<(Seq<char>, Json)>>, column: Seq<char>)
    ensures
        column.len() <= width(rows, column),
    decreases rows.len(),
{
    if rows.len() > 0 {
        width_covers_name(rows.drop_last(), column);
    }
}

/// Every key of every row has a column, and no column stands twice.
pub proof fn every_key_has_a_column(
    rows: Seq<Seq<(Seq<char>, Json)>>,
    row: int,
    at: int,
)
    requires
        0 <= row < rows.len(),
        0 <= at < rows[row].len(),
    ensures
        columns_of(rows).contains(rows[row][at].0),
        columns_of(rows).no_duplicates(),
    decreases rows.len(),
{
    columns_are_distinct(rows);
    let before = columns_of(rows.drop_last());
    keys_enter(before, rows.last());
    if row < rows.len() - 1 {
        every_key_has_a_column(rows.drop_last(), row, at);
    }
}

proof fn keys_enter(columns: Seq<Seq<char>>, row: Seq<(Seq<char>, Json)>)
    ensures
        forall|c: Seq<char>| columns.contains(c) ==> #[trigger] with_keys(columns, row).contains(c),
        forall|i: int|
            0 <= i < row.len() ==> with_keys(columns, row).contains((#[trigger] row[i]).0),
        columns.no_duplicates() ==> with_keys(columns, row).no_duplicates(),
    decreases row.len(),
{
    if row.len() > 0 {
        keys_enter(columns, row.drop_last());
        let before = with_keys(columns, row.drop_last());
        let after = with_keys(columns, row);
        assert forall|c: Seq<char>| before.contains(c) implies after.contains(c) by {
            let i = choose|i: int| 0 <= i < before.len() && before[i] == c;
            assert(after[i] == c);
        }
        assert(after.contains(row.last().0)) by {
            if !before.contains(row.last().0) {
                assert(after[after.len() - 1] == row.last().0);
            }
        }
        assert forall|i: int| 0 <= i < row.len() implies after.contains((#[trigger] row[i]).0) by {
            if i < row.len() - 1 {
                assert(row.drop_last()[i] == row[i]);
            }
        }
        if columns.no_duplicates() && !before.contains(row.last().0) {
            assert(after.no_duplicates());
        }
    }
}

proof fn columns_are_distinct(rows: Seq<Seq<(Seq<char>, Json)>>)
    ensures
        columns_of(rows).no_duplicates(),
    decreases rows.len(),
{
    if rows.len() > 0 {
        columns_are_distinct(rows.drop_last());
        keys_enter(columns_of(rows.drop_last()), rows.last());
    }
}

} // verus!
