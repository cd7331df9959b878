//! What holds of every command line that is derived from a catalog, and of the
//! arguments that are read back from one.

use vstd::prelude::*;

use crate::args;
use crate::cli;
use crate::command::{Action, ArgView, CommandView, Matches, Need};
use crate::json;
use crate::json::Json;
use crate::session::SessionSpec;
use crate::shape;
use crate::shape::ShapeView;
use crate::text;
use crate::tool::DefView;

verus! {

// ---------------------------------------------------------------------------
// From a command line to arguments
// ---------------------------------------------------------------------------

/// Whether a value is what a typed text stands for, under the type that a schema
/// declares. `hinted` says that the tool asks for an integer where its schema
/// declares no type.
pub open spec fn stands_for(raw: Seq<char>, kind: ShapeView, hinted: bool, value: Json) -> bool {
    match kind {
        ShapeView::Integer { min, max } => value matches Json::Integer(n) && args::int_value(raw)
            == Some(n) && (min matches Some(low) ==> low <= n) && (max matches Some(high) ==> n
            <= high),
        ShapeView::Number => value matches Json::Integer(n) && args::int_value(raw) == Some(n),
        ShapeView::Bool => match value {
            Json::Bool(true) => seq!["true"@, "1"@, "yes"@].contains(raw),
            Json::Bool(false) => seq!["false"@, "0"@, "no"@].contains(raw),
            _ => false,
        },
        _ => if hinted {
            value matches Json::Integer(n) && args::int_value(raw) == Some(n)
        } else {
            value == Json::Text(raw)
        },
    }
}

/// Whether a typed text stands for anything under a type.
pub open spec fn stands_for_something(raw: Seq<char>, kind: ShapeView, hinted: bool) -> bool {
    exists|value: Json| stands_for(raw, kind, hinted, value)
}

/// Whether a parameter is a switch: two flags, one to say yes and one to say no.
pub open spec fn is_switch(d: DefView, name: Seq<char>, kind: ShapeView) -> bool {
    kind is Bool && !d.positional.contains(name)
}

/// What a tool may be told of one parameter, by what was typed for it.
pub open spec fn is_told_right(
    d: DefView,
    name: Seq<char>,
    kind: ShapeView,
    m: Matches,
    told: Option<Json>,
) -> bool {
    let hinted = d.int_args.contains(name);
    if kind is Opaque {
        told is None
    } else if is_switch(d, name, kind) {
        match told {
            Some(value) => (value == Json::Bool(true) && m.set(name)) || (value == Json::Bool(false)
                && !m.set(name) && m.set("no-"@ + name)),
            None => !m.set(name) && !m.set("no-"@ + name),
        }
    } else {
        match (m.given(name), told) {
            (None, told) => told is None,
            (Some(list), Some(told)) => match kind {
                ShapeView::Array(items) => told matches Json::List(values) && values.len()
                    == list.len() && forall|i: int|
                    0 <= i < list.len() ==> stands_for(
                        #[trigger] list[i],
                        *items,
                        hinted,
                        values[i],
                    ),
                _ => list.len() > 0 && stands_for(list[0], kind, hinted, told),
            },
            (Some(list), None) => !(kind is Array) && list.len() == 0,
        }
    }
}

/// Whether something was typed for a parameter that stands for nothing under its
/// type.
pub open spec fn is_mistyped(d: DefView, name: Seq<char>, kind: ShapeView, m: Matches) -> bool {
    let hinted = d.int_args.contains(name);
    !(kind is Opaque) && !is_switch(d, name, kind) && (m.given(name) matches Some(list) && match kind {
        ShapeView::Array(items) => exists|i: int|
            0 <= i < list.len() && !stands_for_something(#[trigger] list[i], *items, hinted),
        _ => list.len() > 0 && !stands_for_something(list[0], kind, hinted),
    })
}

/// A text is given the one value that it stands for, and is refused where it
/// stands for none.
pub proof fn values_have_their_type(raw: Seq<char>, kind: ShapeView, d: DefView, name: Seq<char>)
    ensures
        match shape::coerced(raw, kind, d, name) {
            Ok(value) => stands_for(raw, kind, d.int_args.contains(name), value),
            Err(_) => !stands_for_something(raw, kind, d.int_args.contains(name)),
        },
{
    let hinted = d.int_args.contains(name);
    reveal_strlit("true");
    reveal_strlit("1");
    reveal_strlit("yes");
    reveal_strlit("false");
    reveal_strlit("0");
    reveal_strlit("no");
    let yes = seq!["true"@, "1"@, "yes"@];
    let no = seq!["false"@, "0"@, "no"@];
    assert(yes[0] == "true"@ && yes[1] == "1"@ && yes[2] == "yes"@);
    assert(no[0] == "false"@ && no[1] == "0"@ && no[2] == "no"@);
    if let Err(_) = shape::coerced(raw, kind, d, name) {
        assert forall|value: Json| !stands_for(raw, kind, hinted, value) by {}
    }
}

proof fn lists_have_their_types(
    list: Seq<Seq<char>>,
    items: ShapeView,
    d: DefView,
    name: Seq<char>,
)
    ensures
        match cli::coerced_all(list, items, d, name) {
            Ok(values) => values.len() == list.len() && forall|i: int|
                0 <= i < list.len() ==> stands_for(
                    #[trigger] list[i],
                    items,
                    d.int_args.contains(name),
                    values[i],
                ),
            Err(_) => exists|i: int|
                0 <= i < list.len() && !stands_for_something(
                    #[trigger] list[i],
                    items,
                    d.int_args.contains(name),
                ),
        },
    decreases list.len(),
{
    let hinted = d.int_args.contains(name);
    if list.len() > 0 {
        let less = list.drop_last();
        lists_have_their_types(less, items, d, name);
        values_have_their_type(list.last(), items, d, name);
        match cli::coerced_all(less, items, d, name) {
            Err(_) => {
                let i = choose|i: int|
                    0 <= i < less.len() && !stands_for_something(
                        #[trigger] less[i],
                        items,
                        hinted,
                    );
                assert(list[i] == less[i]);
            },
            Ok(before) => match cli::coerced_all(list, items, d, name) {
                Ok(values) => {
                    assert forall|i: int| 0 <= i < list.len() implies stands_for(
                        #[trigger] list[i],
                        items,
                        hinted,
                        values[i],
                    ) by {
                        if i < less.len() {
                            assert(less[i] == list[i]);
                        }
                    }
                },
                Err(_) => {
                    assert(list[list.len() - 1] == list.last());
                },
            },
        }
    }
}

proof fn one_parameter(d: DefView, name: Seq<char>, kind: ShapeView, m: Matches)
    ensures
        match cli::argument(d, name, kind, m) {
            Ok(told) => is_told_right(d, name, kind, m, told),
            Err(_) => is_mistyped(d, name, kind, m),
        },
        cli::argument(d, name, kind, m) is Ok ==> !is_mistyped(d, name, kind, m),
{
    let hinted = d.int_args.contains(name);
    if let Some(list) = m.given(name) {
        if let ShapeView::Array(items) = kind {
            lists_have_their_types(list, *items, d, name);
            if let Ok(values) = cli::coerced_all(list, *items, d, name) {
                assert forall|i: int| 0 <= i < list.len() implies stands_for_something(
                    #[trigger] list[i],
                    *items,
                    hinted,
                ) by {
                    assert(stands_for(list[i], *items, hinted, values[i]));
                }
            }
        } else if list.len() > 0 {
            values_have_their_type(list[0], kind, d, name);
        }
    }
}

proof fn first_parameters(
    d: DefView,
    properties: Seq<(Seq<char>, Json)>,
    m: Matches,
    n: int,
    other: Seq<char>,
)
    requires
        json::ordered(properties),
        0 <= n <= properties.len(),
    ensures
        match cli::arguments_for(d, properties, m, n) {
            Ok(fields) => {
                &&& forall|i: int|
                    0 <= i < n ==> is_told_right(
                        d,
                        (#[trigger] properties[i]).0,
                        shape::shape(d.tool.input, properties[i].1),
                        m,
                        json::field(fields, properties[i].0),
                    ) && !is_mistyped(
                        d,
                        properties[i].0,
                        shape::shape(d.tool.input, properties[i].1),
                        m,
                    )
                &&& (forall|i: int| 0 <= i < n ==> (#[trigger] properties[i]).0 != other)
                    ==> json::field(fields, other) is None
            },
            Err(_) => exists|i: int|
                0 <= i < n && is_mistyped(
                    d,
                    (#[trigger] properties[i]).0,
                    shape::shape(d.tool.input, properties[i].1),
                    m,
                ),
        },
    decreases n,
{
    if n > 0 {
        let (name, node) = properties[n - 1];
        let kind = shape::shape(d.tool.input, node);
        first_parameters(d, properties, m, n - 1, other);
        one_parameter(d, name, kind, m);
        if let Ok(before) = cli::arguments_for(d, properties, m, n - 1) {
            if let Ok(told) = cli::argument(d, name, kind, m) {
                let after = cli::arguments_for(d, properties, m, n)->Ok_0;
                assert forall|i: int| 0 <= i < n - 1 implies (#[trigger] properties[i]).0 != name by {
                    text::text_order(properties[i].0, name, name);
                    assert(text::text_before(properties[i].0, properties[n - 1].0));
                }
                first_parameters(d, properties, m, n - 1, name);
                assert(json::field(before, name) is None);
                if let Some(value) = told {
                    json::set_field(before, name, value, other);
                    assert forall|i: int| 0 <= i < n - 1 implies json::field(
                        after,
                        (#[trigger] properties[i]).0,
                    ) == json::field(before, properties[i].0) by {
                        json::set_field(before, name, value, properties[i].0);
                    }
                }
                assert(properties[n - 1].0 == name);
            } else {
                assert(is_mistyped(
                    d,
                    properties[n - 1].0,
                    shape::shape(d.tool.input, properties[n - 1].1),
                    m,
                ));
            }
        }
    }
}

/// A tool is told, of every parameter that its schema declares, what was typed for
/// it and in the type that the schema declares, item by item for a list; of a
/// parameter that nothing was typed for it is told nothing, and nothing else is
/// told. The command line is refused exactly where something was typed that stands
/// for nothing under its type.
pub proof fn arguments_say_what_was_typed(
    d: DefView,
    properties: Seq<(Seq<char>, Json)>,
    m: Matches,
    other: Seq<char>,
)
    requires
        json::field(d.tool.input, "properties"@) == Some(Json::Object(properties)),
        json::ordered(properties),
    ensures
        match cli::tool_arguments(d, m) {
            Ok(told) => {
                &&& told is Object
                &&& forall|i: int|
                    0 <= i < properties.len() ==> is_told_right(
                        d,
                        (#[trigger] properties[i]).0,
                        shape::shape(d.tool.input, properties[i].1),
                        m,
                        told.get(properties[i].0),
                    )
                &&& !json::has_field(properties, other) ==> told.get(other) is None
            },
            Err(_) => true,
        },
        cli::tool_arguments(d, m) is Err <==> exists|i: int|
            0 <= i < properties.len() && is_mistyped(
                d,
                (#[trigger] properties[i]).0,
                shape::shape(d.tool.input, properties[i].1),
                m,
            ),
{
    first_parameters(d, properties, m, properties.len() as int, other);
    json::position_bounds(properties, other, 0);
}

/// A tool whose schema declares no parameters is told nothing.
pub proof fn no_parameters_no_arguments(d: DefView, m: Matches)
    requires
        !(json::field(d.tool.input, "properties"@) is Some),
    ensures
        cli::tool_arguments(d, m) == Ok::<Json, Seq<char>>(Json::Object(Seq::empty())),
{
}

// ---------------------------------------------------------------------------
// From a schema to a command line
// ---------------------------------------------------------------------------

/// Whether a schema lists a parameter among those it requires.
pub open spec fn is_listed_required(schema: Seq<(Seq<char>, Json)>, name: Seq<char>) -> bool {
    json::field(schema, "required"@) matches Some(Json::List(items)) && items.contains(
        Json::Text(name),
    )
}

/// Whether a flag carries less of a parameter than its schema takes: nothing is
/// known of its type, or of that of its items.
pub open spec fn is_carried_in_part(kind: ShapeView) -> bool
    decreases kind,
{
    kind is Unknown || (kind matches ShapeView::Array(items) && is_carried_in_part(*items))
}

/// Whether a command needs a file of arguments to offer all that its tool takes.
pub open spec fn needs_file(
    schema: Seq<(Seq<char>, Json)>,
    visible: Seq<(Seq<char>, Json)>,
) -> bool {
    exists|i: int|
        0 <= i < visible.len() && {
            let kind = shape::shape(schema, (#[trigger] visible[i]).1);
            kind is Opaque || is_carried_in_part(kind)
        }
}

/// Whether an argument is the one that carries a parameter: under the parameter's
/// own name, by place where the tool asks for that and by a flag otherwise, to be
/// given exactly where the schema requires it, unless a file can stand in for it.
pub open spec fn carries(
    arg: ArgView,
    d: DefView,
    name: Seq<char>,
    node: Json,
    file: bool,
) -> bool {
    let kind = shape::shape(d.tool.input, node);
    &&& arg.id == name
    &&& !arg.hidden
    &&& !arg.global
    &&& arg.default is None
    &&& arg.delimiter is None
    &&& if is_switch(d, name, kind) {
        &&& arg.action == Action::Switch
        &&& arg.need == Need::Optional
        &&& arg.long == Some(text::replaced(name, '_', '-'))
        &&& arg.overrides == Some("no-"@ + name)
    } else {
        &&& arg.action == (if kind is Array {
            Action::AppendMany
        } else {
            Action::TakeOne
        })
        &&& arg.need == Need::Optional <==> !is_listed_required(d.tool.input, name)
        &&& arg.need == Need::UnlessJsonInput <==> is_listed_required(d.tool.input, name) && file
        &&& arg.need == Need::Required <==> is_listed_required(d.tool.input, name) && !file
        &&& d.positional.contains(name) <==> arg.long is None
        &&& arg.long is Some ==> arg.long->0 == text::replaced(name, '_', '-')
        &&& arg.overrides is None
        &&& arg.values == (match kind {
            ShapeView::Enum(values) => values,
            _ => Seq::empty(),
        })
    }
}

/// Whether an argument is the hidden flag that says no to a switch.
pub open spec fn says_no(arg: ArgView, d: DefView, name: Seq<char>, node: Json) -> bool {
    &&& is_switch(d, name, shape::shape(d.tool.input, node))
    &&& arg.id == "no-"@ + name
    &&& arg.long == Some("no-"@ + text::replaced(name, '_', '-'))
    &&& arg.action == Action::Switch
    &&& arg.need == Need::Optional
    &&& arg.overrides == Some(name)
    &&& arg.hidden
}

/// Whether an argument belongs to one of some parameters.
pub open spec fn belongs_to(
    arg: ArgView,
    d: DefView,
    order: Seq<(Seq<char>, Json)>,
    file: bool,
) -> bool {
    exists|i: int|
        0 <= i < order.len() && !(shape::shape(d.tool.input, (#[trigger] order[i]).1) is Opaque) && (
        carries(arg, d, order[i].0, order[i].1, file) || says_no(arg, d, order[i].0, order[i].1))
}

proof fn strings_hold(items: Seq<Json>, name: Seq<char>)
    ensures
        crate::schema::strings(items).contains(name) <==> items.contains(Json::Text(name)),
    decreases items.len(),
{
    if items.len() > 0 {
        let less = items.drop_last();
        strings_hold(less, name);
        let before = crate::schema::strings(less);
        let after = crate::schema::strings(items);
        if items.contains(Json::Text(name)) {
            let i = choose|i: int| 0 <= i < items.len() && items[i] == Json::Text(name);
            if i < less.len() {
                assert(less[i] == items[i]);
                let k = choose|k: int| 0 <= k < before.len() && before[k] == name;
                assert(after[k] == name);
            } else {
                assert(after[after.len() - 1] == name);
            }
        }
        if after.contains(name) {
            let k = choose|k: int| 0 <= k < after.len() && after[k] == name;
            if k < before.len() {
                assert(before[k] == name);
                let i = choose|i: int| 0 <= i < less.len() && less[i] == Json::Text(name);
                assert(items[i] == Json::Text(name));
            } else {
                assert(items[items.len() - 1] == Json::Text(name));
            }
        }
    }
}

proof fn required_is_listed(schema: Seq<(Seq<char>, Json)>, name: Seq<char>)
    ensures
        cli::required_in(schema).contains(name) <==> is_listed_required(schema, name),
{
    if let Some(Json::List(items)) = json::field(schema, "required"@) {
        strings_hold(items, name);
    }
}

proof fn degraded_is_partial(kind: ShapeView)
    ensures
        kind.degraded() == is_carried_in_part(kind),
    decreases kind,
{
    if let ShapeView::Array(items) = kind {
        degraded_is_partial(*items);
    }
}

proof fn parameters_are_carried(
    d: DefView,
    order: Seq<(Seq<char>, Json)>,
    file: bool,
)
    ensures
        forall|i: int|
            0 <= i < order.len() && !(shape::shape(d.tool.input, (#[trigger] order[i]).1) is Opaque)
                ==> exists|k: int|
                0 <= k < cli::all_arguments(d, order, file).len() && carries(
                    #[trigger] cli::all_arguments(d, order, file)[k],
                    d,
                    order[i].0,
                    order[i].1,
                    file,
                ),
        forall|k: int|
            0 <= k < cli::all_arguments(d, order, file).len() ==> belongs_to(
                #[trigger] cli::all_arguments(d, order, file)[k],
                d,
                order,
                file,
            ),
    decreases order.len(),
{
    if order.len() > 0 {
        let less = order.drop_last();
        let (name, node) = order.last();
        parameters_are_carried(d, less, file);
        required_is_listed(d.tool.input, name);
        let before = cli::all_arguments(d, less, file);
        let after = cli::all_arguments(d, order, file);
        let last = order.len() - 1;
        let opaque = shape::shape(d.tool.input, node) is Opaque;
        if !opaque {
            assert(carries(after[before.len() as int], d, name, node, file));
        }
        assert forall|i: int|
            0 <= i < order.len() && !(shape::shape(d.tool.input, (#[trigger] order[i]).1) is Opaque) implies exists|
            k: int,
        |
            0 <= k < after.len() && carries(#[trigger] after[k], d, order[i].0, order[i].1, file) by {
            if i < last {
                assert(less[i] == order[i]);
                let k = choose|k: int|
                    0 <= k < before.len() && carries(
                        #[trigger] before[k],
                        d,
                        order[i].0,
                        order[i].1,
                        file,
                    );
                assert(after[k] == before[k]);
            }
        }
        assert forall|k: int| 0 <= k < after.len() implies belongs_to(
            #[trigger] after[k],
            d,
            order,
            file,
        ) by {
            if k < before.len() {
                assert(after[k] == before[k]);
                let i = choose|i: int|
                    0 <= i < less.len() && !(shape::shape(
                        d.tool.input,
                        (#[trigger] less[i]).1,
                    ) is Opaque) && (carries(before[k], d, less[i].0, less[i].1, file) || says_no(
                        before[k],
                        d,
                        less[i].0,
                        less[i].1,
                    ));
                assert(order[i] == less[i]);
            } else {
                assert(order[last].1 == node);
                if k > before.len() {
                    assert(says_no(after[k], d, name, node));
                }
            }
        }
    }
}

proof fn falls_short(schema: Seq<(Seq<char>, Json)>, order: Seq<(Seq<char>, Json)>)
    ensures
        needs_file(schema, order) <==> cli::opaque_names(schema, order).len() > 0
            || cli::degraded_names(schema, order).len() > 0,
        needs_file(schema, order) <==> cli::has_hatch(schema, order),
    decreases order.len(),
{
    assert forall|i: int| 0 <= i < order.len() implies shape::shape(
        schema,
        (#[trigger] order[i]).1,
    ).degraded() == is_carried_in_part(shape::shape(schema, order[i].1)) by {
        degraded_is_partial(shape::shape(schema, order[i].1));
    }
    if needs_file(schema, order) {
        let i = choose|i: int|
            0 <= i < order.len() && {
                let kind = shape::shape(schema, (#[trigger] order[i]).1);
                kind is Opaque || is_carried_in_part(kind)
            };
        assert(cli::needs_hatch(shape::shape(schema, order[i].1)));
    }
    if order.len() > 0 {
        let less = order.drop_last();
        falls_short(schema, less);
        let last = order.len() - 1;
        degraded_is_partial(shape::shape(schema, order[last].1));
        if needs_file(schema, less) {
            let i = choose|i: int|
                0 <= i < less.len() && {
                    let kind = shape::shape(schema, (#[trigger] less[i]).1);
                    kind is Opaque || is_carried_in_part(kind)
                };
            assert(order[i] == less[i]);
        }
        if needs_file(schema, order) {
            let i = choose|i: int|
                0 <= i < order.len() && {
                    let kind = shape::shape(schema, (#[trigger] order[i]).1);
                    kind is Opaque || is_carried_in_part(kind)
                };
            if i < last {
                assert(less[i] == order[i]);
            }
        }
    }
}

proof fn hints_are_found(
    properties: Seq<(Seq<char>, Json)>,
    hints: Seq<Seq<char>>,
)
    requires
        json::ordered(properties),
    ensures
        match cli::hinted(properties, hints) {
            Ok(list) => list.len() == hints.len() && forall|i: int|
                0 <= i < list.len() ==> (#[trigger] list[i]).0 == hints[i] && properties.contains(
                    list[i],
                ),
            Err(want) => hints.contains(want) && !json::has_field(properties, want),
        },
    decreases hints.len(),
{
    if hints.len() > 0 {
        let less = hints.drop_last();
        hints_are_found(properties, less);
        json::position_bounds(properties, hints.last(), 0);
        if let Ok(before) = cli::hinted(properties, less) {
            if let Ok(list) = cli::hinted(properties, hints) {
                let p = json::position_from(properties, hints.last(), 0);
                assert(properties[p] == list.last());
                assert forall|i: int| 0 <= i < list.len() implies (#[trigger] list[i]).0 == hints[i]
                    && properties.contains(list[i]) by {
                    if i < before.len() {
                        assert(list[i] == before[i]);
                        assert(less[i] == hints[i]);
                    }
                }
            } else {
                assert(hints[hints.len() - 1] == hints.last());
            }
        } else {
            let want = cli::hinted(properties, less)->Err_0;
            let k = choose|k: int| 0 <= k < less.len() && less[k] == want;
            assert(hints[k] == want);
        }
    }
}

/// The parameters that are registered are those of the schema, whatever is hinted.
proof fn registered_are_visible(d: DefView, visible: Seq<(Seq<char>, Json)>)
    requires
        json::ordered(visible),
    ensures
        match cli::registration(d, visible) {
            Ok(order) => forall|entry: (Seq<char>, Json)| #[trigger]
                order.contains(entry) <==> visible.contains(entry),
            Err(_) => exists|i: int|
                0 <= i < d.positional.len() && !json::has_field(
                    visible,
                    #[trigger] d.positional[i],
                ),
        },
{
    let keep = |entry: (Seq<char>, Json)| !d.positional.contains(entry.0);
    hints_are_found(visible, d.positional);
    match cli::registration(d, visible) {
        Ok(order) => {
            let first = cli::hinted(visible, d.positional)->Ok_0;
            let rest = visible.filter(keep);
            assert forall|entry: (Seq<char>, Json)| #[trigger]
                order.contains(entry) <==> visible.contains(entry) by {
                if order.contains(entry) {
                    let k = choose|k: int| 0 <= k < order.len() && order[k] == entry;
                    if k < first.len() {
                        assert(first[k] == entry);
                    } else {
                        assert(rest[k - first.len()] == entry);
                        visible.lemma_filter_pred(keep, k - first.len());
                        filtered_is_inside(visible, keep, k - first.len());
                    }
                }
                if visible.contains(entry) {
                    let k = choose|k: int| 0 <= k < visible.len() && visible[k] == entry;
                    if keep(entry) {
                        visible.lemma_filter_contains(keep, k);
                        let j = choose|j: int| 0 <= j < rest.len() && rest[j] == entry;
                        assert(order[first.len() + j] == entry);
                    } else {
                        let h = choose|h: int|
                            0 <= h < d.positional.len() && d.positional[h] == entry.0;
                        assert(first[h].0 == entry.0);
                        let q = choose|q: int| 0 <= q < visible.len() && visible[q] == first[h];
                        json::ordered_finds(visible, k);
                        json::ordered_finds(visible, q);
                        assert(order[h] == entry);
                    }
                }
            }
        },
        Err(_) => {
            let want = cli::hinted(visible, d.positional)->Err_0;
            let i = choose|i: int| 0 <= i < d.positional.len() && d.positional[i] == want;
            assert(!json::has_field(visible, d.positional[i]));
        },
    }
}

proof fn filtered_is_inside(
    list: Seq<(Seq<char>, Json)>,
    keep: spec_fn((Seq<char>, Json)) -> bool,
    at: int,
)
    requires
        0 <= at < list.filter(keep).len(),
    ensures
        list.contains(list.filter(keep)[at]),
    decreases list.len(),
{
    reveal(Seq::filter);
    let less = list.drop_last();
    if list.len() > 0 {
        if at < less.filter(keep).len() {
            filtered_is_inside(less, keep, at);
            let i = choose|i: int| 0 <= i < less.len() && less[i] == less.filter(keep)[at];
            assert(list[i] == less[i]);
        } else {
            assert(list[list.len() - 1] == list.last());
        }
    }
}

proof fn filtered_is_ordered(
    list: Seq<(Seq<char>, Json)>,
    keep: spec_fn((Seq<char>, Json)) -> bool,
)
    requires
        json::ordered(list),
    ensures
        json::ordered(list.filter(keep)),
    decreases list.len(),
{
    reveal(Seq::filter);
    if list.len() > 0 {
        let less = list.drop_last();
        assert(json::ordered(less)) by {
            assert forall|i: int, j: int| 0 <= i < j < less.len() implies text::text_before(
                #[trigger] less[i].0,
                #[trigger] less[j].0,
            ) by {
                assert(text::text_before(list[i].0, list[j].0));
            }
        }
        filtered_is_ordered(less, keep);
        let before = less.filter(keep);
        let after = list.filter(keep);
        assert forall|i: int, j: int| 0 <= i < j < after.len() implies text::text_before(
            #[trigger] after[i].0,
            #[trigger] after[j].0,
        ) by {
            if j < before.len() {
                assert(text::text_before(before[i].0, before[j].0));
            } else {
                filtered_is_inside(less, keep, i);
                let k = choose|k: int| 0 <= k < less.len() && less[k] == before[i];
                assert(text::text_before(list[k].0, list[list.len() - 1].0));
            }
        }
    }
}

/// Whether a property of a schema is offered on the command line: it is not the one
/// that names a session, and a flag can carry it.
pub open spec fn is_offered(
    d: DefView,
    session: Option<SessionSpec>,
    name: Seq<char>,
    node: Json,
) -> bool {
    Some(name) != cli::selector_of(session) && !(shape::shape(d.tool.input, node) is Opaque)
}

/// Whether some parameter of a schema cannot be carried in full by a flag.
pub open spec fn falls_short_of(
    d: DefView,
    session: Option<SessionSpec>,
    properties: Seq<(Seq<char>, Json)>,
) -> bool {
    exists|i: int|
        0 <= i < properties.len() && Some((#[trigger] properties[i]).0) != cli::selector_of(
            session,
        ) && {
            let kind = shape::shape(d.tool.input, properties[i].1);
            kind is Opaque || is_carried_in_part(kind)
        }
}

/// Whether some of the first arguments of a command carries a parameter.
pub open spec fn is_carried(
    args: Seq<ArgView>,
    first: int,
    d: DefView,
    name: Seq<char>,
    node: Json,
    file: bool,
) -> bool {
    exists|k: int| 0 <= k < first && carries(#[trigger] args[k], d, name, node, file)
}

/// Whether an argument belongs to a parameter that is offered.
pub open spec fn is_of_schema(
    arg: ArgView,
    d: DefView,
    session: Option<SessionSpec>,
    properties: Seq<(Seq<char>, Json)>,
    file: bool,
) -> bool {
    exists|i: int|
        0 <= i < properties.len() && is_offered(
            d,
            session,
            (#[trigger] properties[i]).0,
            properties[i].1,
        ) && (carries(arg, d, properties[i].0, properties[i].1, file) || says_no(
            arg,
            d,
            properties[i].0,
            properties[i].1,
        ))
}

/// Whether a command is what a tool's schema comes to: it carries every parameter
/// that it offers, and nothing but these, a file of arguments where some parameter
/// cannot be carried in full, and the flag that asks for JSON.
pub open spec fn is_command_of(
    command: CommandView,
    d: DefView,
    session: Option<SessionSpec>,
    properties: Seq<(Seq<char>, Json)>,
) -> bool {
    let file = falls_short_of(d, session, properties);
    let own = command.args.len() - (if file {
        2int
    } else {
        1int
    });
    &&& own >= 0
    &&& command.about == d.tool.title
    &&& command.long_about == d.tool.description
    &&& command.subcommands.len() == 0
    &&& !command.needs_subcommand
    &&& command.after_help is Some <==> file
    &&& command.args.last().id == "__json"@
    &&& command.args.last().long == Some("json"@)
    &&& command.args.last().action == Action::Switch
    &&& file ==> command.args[own].id == "__json_input"@ && command.args[own].long == Some(
        "json-input"@,
    ) && command.args[own].need == Need::Optional && command.args[own].action == Action::TakeOne
    &&& forall|i: int|
        0 <= i < properties.len() && is_offered(
            d,
            session,
            (#[trigger] properties[i]).0,
            properties[i].1,
        ) ==> is_carried(command.args, own, d, properties[i].0, properties[i].1, file)
    &&& forall|k: int|
        0 <= k < own ==> is_of_schema(#[trigger] command.args[k], d, session, properties, file)
}

proof fn visible_are_others(
    properties: Seq<(Seq<char>, Json)>,
    selector: Option<Seq<char>>,
)
    requires
        json::ordered(properties),
    ensures
        json::ordered(cli::mappable(properties, selector)),
        forall|entry: (Seq<char>, Json)| #[trigger]
            cli::mappable(properties, selector).contains(entry) <==> properties.contains(entry)
                && Some(entry.0) != selector,
{
    let keep = |entry: (Seq<char>, Json)| Some(entry.0) != selector;
    let visible = cli::mappable(properties, selector);
    filtered_is_ordered(properties, keep);
    assert forall|entry: (Seq<char>, Json)| #[trigger]
        visible.contains(entry) <==> properties.contains(entry) && Some(entry.0) != selector by {
        if visible.contains(entry) {
            let k = choose|k: int| 0 <= k < visible.len() && visible[k] == entry;
            properties.lemma_filter_pred(keep, k);
            filtered_is_inside(properties, keep, k);
        }
        if properties.contains(entry) && Some(entry.0) != selector {
            let k = choose|k: int| 0 <= k < properties.len() && properties[k] == entry;
            assert(keep(properties[k]));
            properties.lemma_filter_contains(keep, k);
        }
    }
}

proof fn short_is_short(
    d: DefView,
    session: Option<SessionSpec>,
    properties: Seq<(Seq<char>, Json)>,
)
    requires
        json::ordered(properties),
    ensures
        needs_file(d.tool.input, cli::mappable(properties, cli::selector_of(session)))
            <==> falls_short_of(d, session, properties),
{
    let selector = cli::selector_of(session);
    let visible = cli::mappable(properties, selector);
    visible_are_others(properties, selector);
    if falls_short_of(d, session, properties) {
        let i = choose|i: int|
            0 <= i < properties.len() && Some((#[trigger] properties[i]).0) != selector && {
                let kind = shape::shape(d.tool.input, properties[i].1);
                kind is Opaque || is_carried_in_part(kind)
            };
        assert(properties.contains(properties[i]));
        assert(visible.contains(properties[i]));
        let k = choose|k: int| 0 <= k < visible.len() && visible[k] == properties[i];
        assert(visible[k].1 == properties[i].1);
    }
    if needs_file(d.tool.input, visible) {
        let k = choose|k: int|
            0 <= k < visible.len() && {
                let kind = shape::shape(d.tool.input, (#[trigger] visible[k]).1);
                kind is Opaque || is_carried_in_part(kind)
            };
        assert(visible.contains(visible[k]));
        let i = choose|i: int| 0 <= i < properties.len() && properties[i] == visible[k];
        assert(Some(properties[i].0) != selector);
    }
}

proof fn offered_are_carried(
    d: DefView,
    session: Option<SessionSpec>,
    properties: Seq<(Seq<char>, Json)>,
    order: Seq<(Seq<char>, Json)>,
    args: Seq<ArgView>,
    file: bool,
)
    requires
        forall|entry: (Seq<char>, Json)| #[trigger]
            order.contains(entry) <==> properties.contains(entry) && Some(entry.0)
                != cli::selector_of(session),
        cli::all_arguments(d, order, file).len() <= args.len(),
        forall|k: int|
            0 <= k < cli::all_arguments(d, order, file).len() ==> #[trigger] args[k]
                == cli::all_arguments(d, order, file)[k],
    ensures
        forall|i: int|
            0 <= i < properties.len() && is_offered(
                d,
                session,
                (#[trigger] properties[i]).0,
                properties[i].1,
            ) ==> is_carried(
                args,
                cli::all_arguments(d, order, file).len() as int,
                d,
                properties[i].0,
                properties[i].1,
                file,
            ),
        forall|k: int|
            0 <= k < cli::all_arguments(d, order, file).len() ==> is_of_schema(
                #[trigger] args[k],
                d,
                session,
                properties,
                file,
            ),
{
    let mapped = cli::all_arguments(d, order, file);
    let own = mapped.len() as int;
    parameters_are_carried(d, order, file);
    assert forall|i: int|
        0 <= i < properties.len() && is_offered(
            d,
            session,
            (#[trigger] properties[i]).0,
            properties[i].1,
        ) implies is_carried(args, own, d, properties[i].0, properties[i].1, file) by {
        assert(properties.contains(properties[i]));
        assert(order.contains(properties[i]));
        let j = choose|j: int| 0 <= j < order.len() && order[j] == properties[i];
        let k = choose|k: int|
            0 <= k < mapped.len() && carries(
                #[trigger] mapped[k],
                d,
                order[j].0,
                order[j].1,
                file,
            );
        assert(args[k] == mapped[k]);
    }
    assert forall|k: int| 0 <= k < own implies is_of_schema(
        #[trigger] args[k],
        d,
        session,
        properties,
        file,
    ) by {
        assert(belongs_to(mapped[k], d, order, file));
        let j = choose|j: int|
            0 <= j < order.len() && !(shape::shape(d.tool.input, (#[trigger] order[j]).1) is Opaque)
                && (carries(mapped[k], d, order[j].0, order[j].1, file) || says_no(
                mapped[k],
                d,
                order[j].0,
                order[j].1,
            ));
        assert(order.contains(order[j]));
        let i = choose|i: int| 0 <= i < properties.len() && properties[i] == order[j];
        assert(is_offered(d, session, properties[i].0, properties[i].1));
    }
}

proof fn tail_of_command(d: DefView, leaf: Seq<char>, order: Seq<(Seq<char>, Json)>, file: bool)
    requires
        file == needs_file(d.tool.input, order),
    ensures
        ({
            let command = cli::leaf_with(d, leaf, order, file);
            let mapped = cli::all_arguments(d, order, file);
            &&& command.args.len() == mapped.len() + (if file {
                2int
            } else {
                1int
            })
            &&& command.after_help is Some <==> file
            &&& forall|k: int| 0 <= k < mapped.len() ==> #[trigger] command.args[k] == mapped[k]
            &&& file ==> command.args[mapped.len() as int] == cli::json_input_arg()
            &&& command.args.last() == cli::json_arg()
        }),
{
    falls_short(d.tool.input, order);
}

/// The command of a tool carries every parameter of its schema that it offers, each
/// required exactly where the schema requires it, and nothing that is not the
/// schema's. It is refused only where a hint names no parameter.
pub proof fn commands_follow_their_schema(
    d: DefView,
    leaf: Seq<char>,
    session: Option<SessionSpec>,
    properties: Seq<(Seq<char>, Json)>,
)
    requires
        json::field(d.tool.input, "properties"@) == Some(Json::Object(properties)),
        json::ordered(properties),
    ensures
        match cli::leaf_command(d, leaf, session) {
            Ok(command) => command.name == leaf && is_command_of(command, d, session, properties),
            Err(_) => exists|i: int|
                0 <= i < d.positional.len() && !(json::has_field(
                    properties,
                    #[trigger] d.positional[i],
                ) && Some(d.positional[i]) != cli::selector_of(session)),
        },
{
    let selector = cli::selector_of(session);
    let visible = cli::mappable(properties, selector);
    visible_are_others(properties, selector);
    registered_are_visible(d, visible);
    match cli::registration(d, visible) {
        Ok(order) => {
            let file = falls_short_of(d, session, properties);
            short_is_short(d, session, properties);
            same_need(d.tool.input, order, visible);
            falls_short(d.tool.input, visible);
            tail_of_command(d, leaf, order, file);
            let command = cli::leaf_with(d, leaf, order, file);
            assert forall|entry: (Seq<char>, Json)| #[trigger]
                order.contains(entry) <==> properties.contains(entry) && Some(entry.0)
                    != selector by {
                assert(visible.contains(entry) <==> order.contains(entry));
            }
            offered_are_carried(d, session, properties, order, command.args, file);
        },
        Err(_) => {
            let i = choose|i: int|
                0 <= i < d.positional.len() && !json::has_field(
                    visible,
                    #[trigger] d.positional[i],
                );
            let name = d.positional[i];
            json::position_bounds(properties, name, 0);
            json::position_bounds(visible, name, 0);
            if json::has_field(properties, name) && Some(name) != selector {
                let p = json::position_from(properties, name, 0);
                assert(properties.contains(properties[p]));
                assert(visible.contains(properties[p]));
                let k = choose|k: int| 0 <= k < visible.len() && visible[k] == properties[p];
                assert(visible[k].0 == name);
            }
        },
    }
}

proof fn same_need(
    schema: Seq<(Seq<char>, Json)>,
    a: Seq<(Seq<char>, Json)>,
    b: Seq<(Seq<char>, Json)>,
)
    requires
        forall|entry: (Seq<char>, Json)| #[trigger] a.contains(entry) <==> b.contains(entry),
    ensures
        needs_file(schema, a) == needs_file(schema, b),
{
    if needs_file(schema, a) {
        let i = choose|i: int|
            0 <= i < a.len() && {
                let kind = shape::shape(schema, (#[trigger] a[i]).1);
                kind is Opaque || is_carried_in_part(kind)
            };
        assert(a.contains(a[i]));
        assert(b.contains(a[i]));
        let k = choose|k: int| 0 <= k < b.len() && b[k] == a[i];
        assert(b[k].1 == a[i].1);
    }
    if needs_file(schema, b) {
        let i = choose|i: int|
            0 <= i < b.len() && {
                let kind = shape::shape(schema, (#[trigger] b[i]).1);
                kind is Opaque || is_carried_in_part(kind)
            };
        assert(b.contains(b[i]));
        assert(a.contains(b[i]));
        let k = choose|k: int| 0 <= k < a.len() && a[k] == b[i];
        assert(a[k].1 == b[i].1);
    }
}

// ---------------------------------------------------------------------------
// The order and the look of arguments
// ---------------------------------------------------------------------------

/// The parameters that a tool asks for by place come first and in the order that it
/// asks for them in; the others follow in the order of the schema.
pub proof fn places_keep_their_order(
    d: DefView,
    visible: Seq<(Seq<char>, Json)>,
    order: Seq<(Seq<char>, Json)>,
    k: int,
)
    requires
        cli::registration(d, visible) == Ok::<Seq<(Seq<char>, Json)>, Seq<char>>(order),
    ensures
        order.len() >= d.positional.len(),
        0 <= k < d.positional.len() ==> order[k].0 == d.positional[k] && json::field(
            visible,
            d.positional[k],
        ) == Some(order[k].1),
        order.skip(d.positional.len() as int) == visible.filter(
            |entry: (Seq<char>, Json)| !d.positional.contains(entry.0),
        ),
{
    hints_keep_their_order(visible, d.positional, k);
    let first = cli::hinted(visible, d.positional)->Ok_0;
    let rest = visible.filter(|entry: (Seq<char>, Json)| !d.positional.contains(entry.0));
    assert(order.skip(d.positional.len() as int) =~= rest);
    if 0 <= k < d.positional.len() {
        assert(order[k] == first[k]);
    }
}

proof fn hints_keep_their_order(
    visible: Seq<(Seq<char>, Json)>,
    hints: Seq<Seq<char>>,
    k: int,
)
    ensures
        cli::hinted(visible, hints) matches Ok(first) ==> first.len() == hints.len() && (0 <= k
            < hints.len() ==> first[k].0 == hints[k] && json::field(visible, hints[k]) == Some(
            first[k].1,
        )),
    decreases hints.len(),
{
    if hints.len() > 0 {
        hints_keep_their_order(visible, hints.drop_last(), k);
    }
}

/// The arguments stand in the order of their parameters.
pub proof fn arguments_stand_in_order(
    d: DefView,
    first: Seq<(Seq<char>, Json)>,
    rest: Seq<(Seq<char>, Json)>,
    file: bool,
)
    ensures
        cli::all_arguments(d, first + rest, file) == cli::all_arguments(d, first, file)
            + cli::all_arguments(d, rest, file),
    decreases rest.len(),
{
    if rest.len() == 0 {
        assert(first + rest =~= first);
        assert(cli::all_arguments(d, first, file) + cli::all_arguments(d, rest, file)
            =~= cli::all_arguments(d, first, file));
    } else {
        arguments_stand_in_order(d, first, rest.drop_last(), file);
        assert((first + rest).drop_last() =~= first + rest.drop_last());
        assert(cli::all_arguments(d, first + rest, file) =~= cli::all_arguments(d, first, file)
            + cli::all_arguments(d, rest, file));
    }
}

/// A parameter given by place shows its name in capitals, one given by a flag needs
/// none; its help is shown where there is any.
pub proof fn arguments_show_what_they_take(
    d: DefView,
    root: Seq<(Seq<char>, Json)>,
    name: Seq<char>,
    node: Json,
    required: bool,
    file: bool,
)
    ensures
        ({
            let args = cli::arguments_of(d, root, name, node, required, file);
            let help = cli::help_line(root, node, shape::shape(root, node));
            &&& args[0].id == name
            &&& d.positional.contains(name) ==> args.len() == 1 && args[0].value_name == Some(
                text::uppercase(name),
            )
            &&& !d.positional.contains(name) ==> args[0].value_name is None
            &&& help.len() > 0 ==> args[0].help == Some(help)
            &&& !d.positional.contains(name) && shape::shape(root, node) is Bool ==> args.len() == 2
        }),
{
}

/// Every command can print JSON, and those that fall short can read their arguments from
/// a file.
pub proof fn common_flags_have_their_names()
    ensures
        cli::json_arg().long == Some("json"@),
        cli::json_arg().action is Switch,
        cli::json_arg().need is Optional,
        cli::json_input_arg().long == Some("json-input"@),
        cli::json_input_arg().value_name == Some("FILE"@),
        cli::json_input_arg().action is TakeOne,
        cli::json_input_arg().need is Optional,
        cli::json_arg().id != cli::json_input_arg().id,
{
    reveal_strlit("__json");
    reveal_strlit("__json_input");
    assert("__json"@.len() == 6 && "__json_input"@.len() == 12);
}

} // verus!
