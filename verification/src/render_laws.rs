//! What holds of every text that a reader is shown.

use vstd::prelude::*;

use crate::json;
use crate::json::Json;
use crate::render;
use crate::text;

verus! {

/// A value as it stands on a line of its own: a text bare, anything else as JSON.
pub open spec fn shown(value: Json) -> Seq<char> {
    match value {
        Json::Text(s) => s,
        other => json::compact_text(other),
    }
}

/// A list that is no table prints one item to a line: where every item takes one
/// line, the lines are the items, in order and none lost.
pub proof fn items_stand_on_lines(items: Seq<Json>)
    requires
        items.len() > 0,
        exists|i: int| 0 <= i < items.len() && !((#[trigger] items[i]) is Object),
        forall|i: int| 0 <= i < items.len() ==> !shown(#[trigger] items[i]).contains('\n'),
    ensures
        text::pieces(render::rendered(Json::List(items)), '\n').len() == items.len(),
        forall|i: int|
            0 <= i < items.len() ==> text::pieces(render::rendered(Json::List(items)), '\n')[i]
                == shown(#[trigger] items[i]),
{
    let parts = items.map_values(|item: Json| render::plain(item));
    assert forall|i: int| 0 <= i < parts.len() implies !(#[trigger] parts[i]).contains('\n') by {
        assert(parts[i] == shown(items[i]));
    }
    assert("\n"@ =~= seq!['\n']) by {
        reveal_strlit("\n");
    }
    text::pieces_of_joined(parts, '\n');
}

/// Where a column of a table starts: behind the columns before it, with two blanks
/// after each.
pub open spec fn start_of(widths: Seq<nat>, column: int) -> nat
    decreases column,
{
    if column <= 0 {
        0
    } else {
        start_of(widths, column - 1) + widths[column - 1] + 2
    }
}

/// Whether a line shows a text at a place. White space at the end of a line is not
/// written.
pub open spec fn shows_at(line: Seq<char>, place: int, s: Seq<char>) -> bool {
    forall|p: int|
        0 <= p < s.len() ==> (place + p < line.len() && line[place + p] == #[trigger] s[p])
            || (place + p >= line.len() && text::is_space(s[p]))
}

proof fn widths_add_up(cells: Seq<Seq<char>>, widths: Seq<nat>, at: int)
    requires
        0 <= at < cells.len(),
        cells.len() <= widths.len(),
        forall|i: int| 0 <= i < cells.len() ==> (#[trigger] cells[i]).len() <= widths[i],
    ensures
        ({
            let line = text::joined(render::padded_cells(cells, widths).take(at + 1), "  "@);
            let place = start_of(widths, at);
            &&& line.len() == place + render::padded_cells(cells, widths)[at].len()
            &&& line.subrange(
                place as int,
                line.len() as int,
            ) == render::padded_cells(cells, widths)[at]
        }),
    decreases at,
{
    reveal_strlit("  ");
    let all = render::padded_cells(cells, widths);
    let upto = all.take(at + 1);
    let line = text::joined(upto, "  "@);
    if at == 0 {
        assert(line == all[0]);
        assert(line.subrange(0, line.len() as int) =~= all[0]);
    } else {
        widths_add_up(cells, widths, at - 1);
        assert(upto.drop_last() =~= all.take(at));
        assert(upto.last() == all[at]);
        assert(all[at - 1].len() == widths[at - 1]);
        assert(line.subrange(start_of(widths, at) as int, line.len() as int) =~= all[at]);
    }
}

proof fn joined_starts_with(parts: Seq<Seq<char>>, n: int, separator: Seq<char>)
    requires
        0 < n <= parts.len(),
    ensures
        text::joined(parts.take(n), separator).len() <= text::joined(parts, separator).len(),
        forall|i: int|
            0 <= i < text::joined(parts.take(n), separator).len() ==> #[trigger] text::joined(
                parts.take(n),
                separator,
            )[i] == text::joined(parts, separator)[i],
    decreases parts.len(),
{
    if n == parts.len() {
        assert(parts.take(n) =~= parts);
    } else {
        let less = parts.drop_last();
        joined_starts_with(less, n, separator);
        assert(less.take(n) =~= parts.take(n));
    }
}

/// A line of a table shows every cell where its column starts.
proof fn lines_show_their_cells(cells: Seq<Seq<char>>, widths: Seq<nat>, at: int)
    requires
        0 <= at < cells.len(),
        cells.len() <= widths.len(),
        forall|i: int| 0 <= i < cells.len() ==> (#[trigger] cells[i]).len() <= widths[i],
    ensures
        shows_at(render::table_line(cells, widths), start_of(widths, at) as int, cells[at]),
{
    let all = render::padded_cells(cells, widths);
    let whole = text::joined(all, "  "@);
    let line = render::table_line(cells, widths);
    let place = start_of(widths, at) as int;
    let before = text::joined(all.take(at + 1), "  "@);
    widths_add_up(cells, widths, at);
    joined_starts_with(all, at + 1, "  "@);
    text::ink_bounds(whole, 0, whole.len() as int);
    assert forall|p: int| 0 <= p < cells[at].len() implies (place + p < line.len() && line[place
        + p] == #[trigger] cells[at][p]) || (place + p >= line.len() && text::is_space(
        cells[at][p],
    )) by {
        assert(all[at][p] == cells[at][p]);
        assert(before.subrange(place, before.len() as int)[p] == before[place + p]);
        assert(before[place + p] == whole[place + p]);
    }
}

/// What a cell of a table shows of a row: nothing where the row has no such key, or
/// null under it.
pub open spec fn shown_cell(row: Seq<(Seq<char>, Json)>, column: Seq<char>) -> Seq<char> {
    match json::field(row, column) {
        None => Seq::empty(),
        Some(Json::Null) => Seq::empty(),
        Some(value) => shown(value),
    }
}

proof fn body_lines(
    rows: Seq<Seq<(Seq<char>, Json)>>,
    columns: Seq<Seq<char>>,
    widths: Seq<nat>,
    head: Seq<char>,
    n: int,
)
    requires
        0 <= n <= rows.len(),
        forall|i: int|
            0 <= i < rows.len() ==> !render::table_line(
                render::cells_of(#[trigger] rows[i], columns),
                widths,
            ).contains('\n'),
    ensures
        text::pieces(head + render::body(rows, columns, widths, n), '\n') == text::pieces(
            head,
            '\n',
        ) + Seq::new(
            n as nat,
            |i: int| render::table_line(render::cells_of(rows[i], columns), widths),
        ),
    decreases n,
{
    reveal_strlit("\n");
    let lines = |i: int| render::table_line(render::cells_of(rows[i], columns), widths);
    if n == 0 {
        assert(head + render::body(rows, columns, widths, n) =~= head);
        assert(text::pieces(head, '\n') + Seq::new(0, lines) =~= text::pieces(head, '\n'));
    } else {
        body_lines(rows, columns, widths, head, n - 1);
        let before = head + render::body(rows, columns, widths, n - 1);
        let line = lines(n - 1);
        assert(rows[n - 1] == rows[n - 1]);
        text::pieces_split(before, line, '\n');
        text::one_piece(line, '\n');
        assert(head + render::body(rows, columns, widths, n) =~= before + seq!['\n'] + line);
        assert(Seq::new((n - 1) as nat, lines).push(line) =~= Seq::new(n as nat, lines));
        assert(text::pieces(head, '\n') + Seq::new((n - 1) as nat, lines) + seq![line]
            =~= text::pieces(head, '\n') + Seq::new(n as nat, lines));
    }
}

proof fn rule_is_one_line(widths: Seq<nat>)
    ensures
        !render::rule(widths).contains('\n'),
        forall|c: char| #[trigger] render::rule(widths).contains(c) ==> c == '-' || c == ' ',
    decreases widths.len(),
{
    reveal_strlit("  ");
    let parts = widths.map_values(|w: nat| render::repeated('-', w));
    made_of_dashes(parts);
}

proof fn made_of_dashes(parts: Seq<Seq<char>>)
    requires
        forall|i: int, k: int|
            0 <= i < parts.len() && 0 <= k < (#[trigger] parts[i]).len() ==> #[trigger] parts[i][k]
                == '-',
    ensures
        forall|k: int|
            0 <= k < text::joined(parts, "  "@).len() ==> (#[trigger] text::joined(parts, "  "@)[k])
                == '-' || text::joined(parts, "  "@)[k] == ' ',
    decreases parts.len(),
{
    reveal_strlit("  ");
    if parts.len() == 1 {
        assert(parts[0][0] == parts[0][0]);
    } else if parts.len() > 1 {
        let less = parts.drop_last();
        assert forall|i: int, k: int|
            0 <= i < less.len() && 0 <= k < (#[trigger] less[i]).len() implies #[trigger] less[i][k]
            == '-' by {
            assert(less[i] == parts[i]);
            assert(parts[i][k] == '-');
        }
        made_of_dashes(less);
        let last = parts.len() - 1;
        let line = text::joined(parts, "  "@);
        let before = text::joined(less, "  "@);
        assert forall|k: int| 0 <= k < line.len() implies (#[trigger] line[k]) == '-' || line[k]
            == ' ' by {
            if k < before.len() {
                assert(line[k] == before[k]);
            } else if k >= before.len() + 2 {
                assert(line[k] == parts[last][k - before.len() - 2]);
            }
        }
    }
}

proof fn padded_lines_are_clean(cells: Seq<Seq<char>>, widths: Seq<nat>)
    requires
        forall|i: int| 0 <= i < cells.len() ==> !(#[trigger] cells[i]).contains('\n'),
    ensures
        !render::table_line(cells, widths).contains('\n'),
{
    let all = render::padded_cells(cells, widths);
    assert forall|i: int| 0 <= i < all.len() implies !(#[trigger] all[i]).contains('\n') by {
        if all[i].contains('\n') {
            let k = choose|k: int| 0 <= k < all[i].len() && all[i][k] == '\n';
            assert(!cells[i].contains('\n'));
            if k < cells[i].len() {
                assert(cells[i][k] == '\n');
            }
        }
    }
    joined_is_clean(all);
    let whole = text::joined(all, "  "@);
    text::ink_bounds(whole, 0, whole.len() as int);
    let line = render::table_line(cells, widths);
    if line.contains('\n') {
        let k = choose|k: int| 0 <= k < line.len() && line[k] == '\n';
        assert(whole[k] == '\n');
    }
}

proof fn joined_is_clean(parts: Seq<Seq<char>>)
    requires
        forall|i: int| 0 <= i < parts.len() ==> !(#[trigger] parts[i]).contains('\n'),
    ensures
        !text::joined(parts, "  "@).contains('\n'),
    decreases parts.len(),
{
    reveal_strlit("  ");
    if parts.len() == 1 {
        assert(!parts[0].contains('\n'));
    } else if parts.len() > 1 {
        let less = parts.drop_last();
        assert forall|i: int| 0 <= i < less.len() implies !(#[trigger] less[i]).contains('\n') by {
            assert(less[i] == parts[i]);
        }
        joined_is_clean(less);
        let line = text::joined(parts, "  "@);
        let before = text::joined(less, "  "@);
        let last = parts.len() - 1;
        if line.contains('\n') {
            let k = choose|k: int| 0 <= k < line.len() && line[k] == '\n';
            assert(!parts[last].contains('\n'));
            if k < before.len() {
                assert(before[k] == '\n');
            } else if k >= before.len() + 2 {
                assert(parts[last][k - before.len() - 2] == '\n');
            }
        }
    }
}

/// A list of objects prints as a table: a line of column names, a rule, and a line
/// for every object, in order. Every column that some object has a value under is
/// there, and every line shows, where a column starts, what its object says under
/// it.
pub proof fn tables_show_every_cell(rows: Seq<Seq<(Seq<char>, Json)>>)
    requires
        rows.len() > 0,
        forall|i: int, k: int|
            0 <= i < rows.len() && 0 <= k < render::columns_of(rows).len() ==> !shown_cell(
                #[trigger] rows[i],
                #[trigger] render::columns_of(rows)[k],
            ).contains('\n'),
        forall|k: int|
            0 <= k < render::columns_of(rows).len() ==> !(#[trigger] render::columns_of(
                rows,
            )[k]).contains('\n'),
    ensures
        ({
            let items = rows.map_values(|row: Seq<(Seq<char>, Json)>| Json::Object(row));
            let lines = text::pieces(render::rendered(Json::List(items)), '\n');
            let columns = render::columns_of(rows);
            let widths = render::widths_of(rows, columns);
            &&& lines.len() == rows.len() + 2
            &&& forall|c: char| #[trigger] lines[1].contains(c) ==> c == '-' || c == ' '
            &&& forall|k: int|
                0 <= k < columns.len() ==> shows_at(
                    lines[0],
                    start_of(widths, k) as int,
                    #[trigger] columns[k],
                )
            &&& forall|i: int, k: int|
                0 <= i < rows.len() && 0 <= k < columns.len() ==> shows_at(
                    lines[i + 2],
                    start_of(widths, k) as int,
                    shown_cell(#[trigger] rows[i], #[trigger] columns[k]),
                )
        }),
{
    reveal_strlit("\n");
    let items = rows.map_values(|row: Seq<(Seq<char>, Json)>| Json::Object(row));
    let columns = render::columns_of(rows);
    let widths = render::widths_of(rows, columns);
    assert(render::rows_of(items) =~= rows);
    assert(render::all_objects(items));
    let first = render::table_line(columns, widths);
    let rule = render::rule(widths);
    let head = first + "\n"@ + rule;
    padded_lines_are_clean(columns, widths);
    rule_is_one_line(widths);
    text::pieces_split(first, rule, '\n');
    text::one_piece(first, '\n');
    text::one_piece(rule, '\n');
    assert(head =~= first + seq!['\n'] + rule);
    assert(text::pieces(head, '\n') =~= seq![first, rule]);
    assert forall|i: int| 0 <= i < rows.len() implies !render::table_line(
        render::cells_of(#[trigger] rows[i], columns),
        widths,
    ).contains('\n') by {
        let cells = render::cells_of(rows[i], columns);
        assert forall|k: int| 0 <= k < cells.len() implies !(#[trigger] cells[k]).contains('\n') by {
            assert(cells[k] == shown_cell(rows[i], columns[k]));
        }
        padded_lines_are_clean(cells, widths);
    }
    body_lines(rows, columns, widths, head, rows.len() as int);
    let lines = text::pieces(render::rendered(Json::List(items)), '\n');
    assert(render::table(rows) =~= head + render::body(rows, columns, widths, rows.len() as int));
    assert(lines[0] == first && lines[1] == rule);
    assert forall|k: int| 0 <= k < columns.len() implies (#[trigger] columns[k]).len()
        <= widths[k] by {
        render::columns_hold_their_cells(rows, columns[k], 0);
    }
    assert forall|k: int| 0 <= k < columns.len() implies shows_at(
        lines[0],
        start_of(widths, k) as int,
        #[trigger] columns[k],
    ) by {
        lines_show_their_cells(columns, widths, k);
    }
    assert forall|i: int, k: int| 0 <= i < rows.len() && 0 <= k < columns.len() implies shows_at(
        lines[i + 2],
        start_of(widths, k) as int,
        shown_cell(#[trigger] rows[i], #[trigger] columns[k]),
    ) by {
        let cells = render::cells_of(rows[i], columns);
        assert forall|j: int| 0 <= j < cells.len() implies (#[trigger] cells[j]).len()
            <= widths[j] by {
            render::columns_hold_their_cells(rows, columns[j], i);
        }
        lines_show_their_cells(cells, widths, k);
        assert(cells[k] == shown_cell(rows[i], columns[k]));
        assert(lines[i + 2] == render::table_line(cells, widths));
    }
}

/// What fits on a header line: a scalar, where a text is of one line and of ninety-six
/// bytes at most, or an object of at most eight such scalars. A list never does.
pub proof fn only_small_values_ride_along(value: Json)
    ensures
        match value {
            Json::Text(s) => render::bookkeeping(value) <==> !s.contains('\n')
                && vstd::utf8::encode_utf8(s).len() <= 96,
            Json::List(_) => !render::bookkeeping(value),
            Json::Object(fields) => render::bookkeeping(value) <==> fields.len() <= 8 && forall|
                i: int,
            |
                0 <= i < fields.len() ==> match (#[trigger] fields[i]).1 {
                    Json::Object(_) | Json::List(_) => false,
                    scalar => render::bookkeeping(scalar),
                },
            _ => render::bookkeeping(value),
        },
{
    if let Json::Object(fields) = value {
        assert forall|i: int| 0 <= i < fields.len() implies (render::is_small_scalar(
            (#[trigger] fields[i]).1,
        ) <==> match fields[i].1 {
            Json::Object(_) | Json::List(_) => false,
            scalar => render::bookkeeping(scalar),
        }) by {}
    }
}

/// Whether a text says something.
pub open spec fn says(whole: Seq<char>, part: Seq<char>) -> bool {
    exists|before: Seq<char>, after: Seq<char>| whole == #[trigger] ((before + part) + after)
}

proof fn says_within(whole: Seq<char>, before: Seq<char>, part: Seq<char>, after: Seq<char>)
    requires
        whole == before + part + after,
    ensures
        says(whole, part),
{
    assert(whole == (before + part) + after);
}

proof fn notes_say(fields: Seq<(Seq<char>, Json)>, key: Seq<char>, at: int)
    requires
        0 <= at < fields.len(),
        fields[at].0 != key,
        fields[at].0 != "total"@,
        fields[at].0 != "truncated"@,
    ensures
        says(
            render::header_notes(fields, key),
            ", "@ + fields[at].0 + "="@ + shown(fields[at].1),
        ),
    decreases fields.len(),
{
    let less = fields.drop_last();
    let part = ", "@ + fields[at].0 + "="@ + shown(fields[at].1);
    let all = render::header_notes(fields, key);
    let before = render::header_notes(less, key);
    if at == fields.len() - 1 {
        assert(all =~= before + part + Seq::<char>::empty());
        says_within(all, before, part, Seq::empty());
    } else {
        notes_say(less, key, at);
        let (a, b) = choose|a: Seq<char>, b: Seq<char>| before == #[trigger] ((a + part) + b);
        let last = fields.last();
        if last.0 == key || last.0 == "total"@ || last.0 == "truncated"@ {
        } else {
            let more = ", "@ + render::pair(last.0, last.1);
            assert(all =~= a + part + (b + more));
            says_within(all, a, part, b + more);
        }
    }
}

/// An object that holds one list, and beside it nothing but what fits on a header
/// line, prints as that line and the list below it as the list alone would print.
/// The line names the list and counts it, and shows every other field.
pub proof fn lists_keep_their_header(
    fields: Seq<(Seq<char>, Json)>,
    at: int,
    items: Seq<Json>,
    other: int,
)
    requires
        0 <= at < fields.len(),
        fields[at].1 == Json::List(items),
        json::ordered(fields),
        forall|i: int|
            0 <= i < fields.len() && i != at ==> !((#[trigger] fields[i]).1 is List)
                && render::bookkeeping(fields[i].1),
        forall|i: int|
            0 <= i < fields.len() && (#[trigger] fields[i]).1 is Text ==> !render::is_text_key(
                fields[i].0,
            ),
        0 <= other < fields.len(),
        other != at,
    ensures
        exists|line: Seq<char>|
            {
                &&& render::rendered(Json::Object(fields)) == (#[trigger] (line + "\n"@))
                    + render::rendered(Json::List(items))
                &&& text::begins(
                    line,
                    fields[at].0 + " ("@ + text::decimal(items.len()) + " items"@,
                )
                &&& fields[other].0 == "total"@ ==> says(
                    line,
                    ", total="@ + json::compact_text(fields[other].1),
                )
                &&& fields[other] == ("truncated"@, Json::Bool(true)) ==> says(line, ", truncated"@)
                &&& fields[other].0 != "total"@ && fields[other].0 != "truncated"@ ==> says(
                    line,
                    ", "@ + fields[other].0 + "="@ + shown(fields[other].1),
                )
            },
{
    let key = fields[at].0;
    let is_text = |f: (Seq<char>, Json)| f.1 is Text && render::is_text_key(f.0);
    let is_list = |f: (Seq<char>, Json)| f.1 is List;
    no_texts(fields);
    one_list(fields, at);
    assert forall|i: int| 0 <= i < fields.len() && (#[trigger] fields[i]).0 != key implies render::bookkeeping(
        fields[i].1,
    ) by {
        assert(i != at);
    }
    let line = render::header(fields, key, items.len());
    let start = key + " ("@ + text::decimal(items.len()) + " items"@;
    let total = match json::field(fields, "total"@) {
        Some(total) => ", total="@ + json::compact_text(total),
        None => Seq::empty(),
    };
    let cut = if json::field(fields, "truncated"@) == Some(Json::Bool(true)) {
        ", truncated"@
    } else {
        Seq::empty()
    };
    let notes = render::header_notes(fields, key);
    let end = "):"@;
    assert(line == start + total + cut + notes + end);
    assert(line.take(start.len() as int) =~= start);
    json::ordered_finds(fields, other);
    json::ordered_finds(fields, at);
    if fields[other].0 == "total"@ {
        assert(line =~= start + total + (cut + notes + end));
        says_within(line, start, total, cut + notes + end);
    }
    if fields[other] == ("truncated"@, Json::Bool(true)) {
        assert(line =~= start + total + cut + (notes + end));
        says_within(line, start + total, cut, notes + end);
    }
    if fields[other].0 != "total"@ && fields[other].0 != "truncated"@ {
        let part = ", "@ + fields[other].0 + "="@ + shown(fields[other].1);
        notes_say(fields, key, other);
        let (a, b) = choose|a: Seq<char>, b: Seq<char>| notes == #[trigger] ((a + part) + b);
        assert(line =~= (start + total + cut + a) + part + (b + end));
        says_within(line, start + total + cut + a, part, b + end);
    }
    assert(render::rendered(Json::Object(fields)) == (line + "\n"@) + render::rendered(
        Json::List(items),
    ));
}

proof fn no_texts(fields: Seq<(Seq<char>, Json)>)
    requires
        forall|i: int|
            0 <= i < fields.len() && (#[trigger] fields[i]).1 is Text ==> !render::is_text_key(
                fields[i].0,
            ),
    ensures
        render::text_fields(fields).len() == 0,
    decreases fields.len(),
{
    reveal(Seq::filter);
    if fields.len() > 0 {
        let less = fields.drop_last();
        assert forall|i: int| 0 <= i < less.len() && (#[trigger] less[i]).1 is Text implies !render::is_text_key(
            less[i].0,
        ) by {
            assert(less[i] == fields[i]);
        }
        no_texts(less);
        assert(fields[fields.len() - 1] == fields.last());
    }
}

proof fn no_lists(fields: Seq<(Seq<char>, Json)>)
    requires
        forall|i: int| 0 <= i < fields.len() ==> !((#[trigger] fields[i]).1 is List),
    ensures
        render::list_fields(fields).len() == 0,
    decreases fields.len(),
{
    reveal(Seq::filter);
    if fields.len() > 0 {
        let less = fields.drop_last();
        assert forall|i: int| 0 <= i < less.len() implies !((#[trigger] less[i]).1 is List) by {
            assert(less[i] == fields[i]);
        }
        no_lists(less);
        assert(!(fields[fields.len() - 1].1 is List));
    }
}

proof fn one_list(fields: Seq<(Seq<char>, Json)>, at: int)
    requires
        0 <= at < fields.len(),
        fields[at].1 is List,
        forall|i: int| 0 <= i < fields.len() && i != at ==> !((#[trigger] fields[i]).1 is List),
    ensures
        render::list_fields(fields).len() == 1,
        render::list_fields(fields)[0] == fields[at],
    decreases fields.len(),
{
    reveal(Seq::filter);
    let less = fields.drop_last();
    assert forall|i: int| 0 <= i < less.len() && i != at implies !((#[trigger] less[i]).1 is List) by {
        assert(less[i] == fields[i]);
    }
    if at == fields.len() - 1 {
        assert forall|i: int| 0 <= i < less.len() implies !((#[trigger] less[i]).1 is List) by {
            assert(less[i] == fields[i]);
        }
        no_lists(less);
    } else {
        assert(less[at] == fields[at]);
        one_list(less, at);
        assert(!(fields[fields.len() - 1].1 is List));
    }
}

/// An object of neither kind, with no text to print bare and no list, prints as
/// indented JSON: nothing of it is left out.
pub proof fn other_objects_print_whole(fields: Seq<(Seq<char>, Json)>)
    requires
        forall|i: int|
            0 <= i < fields.len() && (#[trigger] fields[i]).1 is Text ==> !render::is_text_key(
                fields[i].0,
            ),
        forall|i: int| 0 <= i < fields.len() ==> !((#[trigger] fields[i]).1 is List),
    ensures
        render::rendered(Json::Object(fields)) == json::pretty_text(Json::Object(fields)),
{
    no_texts(fields);
    no_lists(fields);
}

/// A text prints as it is, a list by its items, nothing as nothing, and any other value
/// that is no object as JSON.
pub proof fn plain_values_print_as_they_are(value: Json)
    ensures
        value is Null ==> render::rendered(value).len() == 0,
        value matches Json::Text(s) ==> render::rendered(value) == s,
        !(value is Null) && !(value is Text) && !(value is List) && !(value is Object)
            ==> render::rendered(value) == json::compact_text(value),
        value matches Json::List(items) ==> items.len() == 0 ==> render::rendered(value) == "(空)"@,
{
}

/// The fields whose text prints bare: code, listings, dumps and content.
pub proof fn the_bare_fields_are_these(key: Seq<char>)
    ensures
        render::is_text_key(key) <==> seq![
            "c_code"@,
            "code"@,
            "content"@,
            "hexdump"@,
            "listing"@,
            "source"@,
        ].contains(key),
{
    let keys = seq!["c_code"@, "code"@, "content"@, "hexdump"@, "listing"@, "source"@];
    assert(keys[0] == "c_code"@ && keys[1] == "code"@ && keys[2] == "content"@);
    assert(keys[3] == "hexdump"@ && keys[4] == "listing"@ && keys[5] == "source"@);
}

proof fn one_text(fields: Seq<(Seq<char>, Json)>, at: int)
    requires
        0 <= at < fields.len(),
        fields[at].1 is Text,
        render::is_text_key(fields[at].0),
        forall|i: int|
            0 <= i < fields.len() && i != at && (#[trigger] fields[i]).1 is Text
                ==> !render::is_text_key(fields[i].0),
    ensures
        render::text_fields(fields).len() == 1,
        render::text_fields(fields)[0] == fields[at],
    decreases fields.len(),
{
    reveal(Seq::filter);
    let less = fields.drop_last();
    assert forall|i: int|
        0 <= i < less.len() && i != at && (#[trigger] less[i]).1 is Text implies !render::is_text_key(
        less[i].0,
    ) by {
        assert(less[i] == fields[i]);
    }
    if at == fields.len() - 1 {
        assert forall|i: int| 0 <= i < less.len() && (#[trigger] less[i]).1 is Text implies !render::is_text_key(
            less[i].0,
        ) by {
            assert(less[i] == fields[i]);
        }
        no_texts(less);
    } else {
        assert(less[at] == fields[at]);
        one_text(less, at);
        assert(fields[fields.len() - 1] == fields.last());
    }
}

/// The fields beside one, each as a pair.
proof fn the_others_are_paired(fields: Seq<(Seq<char>, Json)>, at: int)
    requires
        0 <= at < fields.len(),
        forall|i: int| 0 <= i < fields.len() && i != at ==> (#[trigger] fields[i]).0 != fields[at].0,
    ensures
        render::other_pairs(fields, fields[at].0) == fields.remove(at).map_values(
            |f: (Seq<char>, Json)| f.0 + "="@ + shown(f.1),
        ),
    decreases fields.len(),
{
    let paired = |f: (Seq<char>, Json)| f.0 + "="@ + shown(f.1);
    let key = fields[at].0;
    let less = fields.drop_last();
    if at == fields.len() - 1 {
        assert(fields.remove(at) =~= less);
        every_field_is_paired(less, key);
    } else {
        assert(less[at] == fields[at]);
        assert forall|i: int| 0 <= i < less.len() && i != at implies (#[trigger] less[i]).0
            != less[at].0 by {
            assert(less[i] == fields[i]);
        }
        the_others_are_paired(less, at);
        assert(fields[fields.len() - 1].0 != key);
        assert(fields.remove(at) =~= less.remove(at).push(fields.last()));
        assert(fields.remove(at).map_values(paired) =~= less.remove(at).map_values(paired).push(
            paired(fields.last()),
        ));
    }
}

proof fn every_field_is_paired(fields: Seq<(Seq<char>, Json)>, key: Seq<char>)
    requires
        forall|i: int| 0 <= i < fields.len() ==> (#[trigger] fields[i]).0 != key,
    ensures
        render::other_pairs(fields, key) == fields.map_values(
            |f: (Seq<char>, Json)| f.0 + "="@ + shown(f.1),
        ),
    decreases fields.len(),
{
    let paired = |f: (Seq<char>, Json)| f.0 + "="@ + shown(f.1);
    if fields.len() > 0 {
        let less = fields.drop_last();
        assert forall|i: int| 0 <= i < less.len() implies (#[trigger] less[i]).0 != key by {
            assert(less[i] == fields[i]);
        }
        every_field_is_paired(less, key);
        assert(fields[fields.len() - 1].0 != key);
        assert(fields.map_values(paired) =~= less.map_values(paired).push(paired(fields.last())));
    } else {
        assert(render::other_pairs(fields, key) =~= fields.map_values(paired));
    }
}

/// An object that holds one text to print bare, and beside it nothing but small values,
/// prints as that text; where there is anything beside it, all of it stands below, in
/// brackets, each as a name and a value.
pub proof fn texts_print_bare(fields: Seq<(Seq<char>, Json)>, at: int, s: Seq<char>)
    requires
        0 <= at < fields.len(),
        fields[at].1 == Json::Text(s),
        render::is_text_key(fields[at].0),
        json::ordered(fields),
        forall|i: int|
            0 <= i < fields.len() && i != at ==> render::bookkeeping((#[trigger] fields[i]).1) && (
            fields[i].1 is Text ==> !render::is_text_key(fields[i].0)),
    ensures
        fields.len() == 1 ==> render::rendered(Json::Object(fields)) == s,
        fields.len() > 1 ==> render::rendered(Json::Object(fields)) == s + "\n\n["@ + text::joined(
            fields.remove(at).map_values(|f: (Seq<char>, Json)| f.0 + "="@ + shown(f.1)),
            ", "@,
        ) + "]"@,
{
    one_text(fields, at);
    assert forall|i: int| 0 <= i < fields.len() && i != at implies (#[trigger] fields[i]).0
        != fields[at].0 by {
        json::ordered_finds(fields, i);
        json::ordered_finds(fields, at);
        json::position_bounds(fields, fields[at].0, 0);
        if fields[i].0 == fields[at].0 {
            if i < at {
                text::text_order(fields[i].0, fields[at].0, fields[i].0);
                assert(text::text_before(fields[i].0, fields[at].0));
            } else {
                text::text_order(fields[at].0, fields[i].0, fields[at].0);
                assert(text::text_before(fields[at].0, fields[i].0));
            }
        }
    }
    the_others_are_paired(fields, at);
    assert forall|i: int|
        0 <= i < fields.len() && (#[trigger] fields[i]).0 != fields[at].0 implies render::bookkeeping(
        fields[i].1,
    ) by {
        assert(i != at);
    }
}

/// An object beside whose one list stands a value too large for a line prints whole.
pub proof fn large_values_print_whole(fields: Seq<(Seq<char>, Json)>, at: int, large: int)
    requires
        0 <= at < fields.len(),
        0 <= large < fields.len(),
        fields[at].1 is List,
        fields[large].0 != fields[at].0,
        !render::bookkeeping(fields[large].1),
        forall|i: int| 0 <= i < fields.len() && i != at ==> !((#[trigger] fields[i]).1 is List),
        forall|i: int|
            0 <= i < fields.len() && (#[trigger] fields[i]).1 is Text ==> !render::is_text_key(
                fields[i].0,
            ),
    ensures
        render::rendered(Json::Object(fields)) == json::pretty_text(Json::Object(fields)),
{
    no_texts(fields);
    one_list(fields, at);
}

} // verus!
