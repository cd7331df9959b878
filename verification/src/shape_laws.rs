//! What holds of everything that a schema says a command line can carry.

use vstd::prelude::*;

use crate::json;
use crate::json::Json;
use crate::schema;
use crate::shape;
use crate::shape::ShapeView;

verus! {

/// A schema that says what it means where it stands: no reference and no branches.
pub open spec fn is_direct(node: Json) -> bool {
    &&& node.get("$ref"@) is None
    &&& node.get("anyOf"@) is None
    &&& node.get("oneOf"@) is None
}

/// A direct schema that lists no values.
pub open spec fn is_open(node: Json) -> bool {
    is_direct(node) && node.get("enum"@) is None && node.get("const"@) is None
}

/// The one type that a schema names, null beside it or not.
pub open spec fn names_type(node: Json, name: Seq<char>) -> bool {
    let one = Json::Text(name);
    let null = Json::Text("null"@);
    &&& name != "null"@
    &&& node.get("type"@) matches Some(said) && (said == one || said == Json::List(seq![one])
        || said == Json::List(seq![one, null]) || said == Json::List(seq![null, one]))
}

proof fn one_name(node: Json, name: Seq<char>)
    requires
        names_type(node, name),
    ensures
        shape::value_types(node) == seq![name],
        !schema::null_arm(node),
{
    reveal(Seq::filter);
    reveal_with_fuel(Seq::filter, 4);
    reveal_with_fuel(schema::strings, 4);
    let one = Json::Text(name);
    let null = Json::Text("null"@);
    let none = Seq::<Seq<char>>::empty();
    let said = node.get("type"@)->0;
    assert(seq![name].drop_last() =~= none);
    assert(seq![name, "null"@].drop_last() =~= seq![name]);
    assert(seq!["null"@, name].drop_last() =~= seq!["null"@]);
    assert(seq!["null"@].drop_last() =~= none);
    let keep = |n: Seq<char>| n != "null"@;
    assert(none.push(name) =~= seq![name]);
    if said == Json::List(seq![one]) {
        assert(seq![one].drop_last() =~= Seq::empty());
        assert(schema::strings(seq![one]) =~= seq![name]);
    } else if said == Json::List(seq![one, null]) {
        assert(seq![one, null].drop_last() =~= seq![one]);
        assert(seq![one].drop_last() =~= Seq::empty());
        assert(schema::strings(seq![one, null]) =~= seq![name, "null"@]);
    } else if said == Json::List(seq![null, one]) {
        assert(seq![null, one].drop_last() =~= seq![null]);
        assert(seq![null].drop_last() =~= Seq::empty());
        assert(schema::strings(seq![null, one]) =~= seq!["null"@, name]);
    }
    let names = schema::type_names(node);
    assert(names.filter(keep) =~= seq![name]);
    if schema::null_arm(node) {
        assert(names[0] == "null"@ && names.len() == 1);
        assert(names =~= seq![name]);
        assert(seq![name][0] == name);
    }
}

proof fn open_is_itself(root: Seq<(Seq<char>, Json)>, node: Json)
    requires
        is_open(node),
    ensures
        schema::meant(root, node) == node,
        schema::value_schema(root, node) == node,
        shape::permitted(root, node).len() == 0,
        shape::one_type(root, node),
{
    assert(schema::hop(root, node) is None);
}

/// A type name becomes the shape of that type: a switch, an integer within its
/// bounds, a number, a text, or an object, which no flag carries. Null beside it
/// changes nothing. Any other name is not understood.
pub proof fn types_become_shapes(root: Seq<(Seq<char>, Json)>, node: Json, name: Seq<char>)
    requires
        is_open(node),
        names_type(node, name),
    ensures
        name == "boolean"@ <==> shape::shape(root, node) is Bool,
        name == "integer"@ <==> shape::shape(root, node) is Integer,
        name == "number"@ <==> shape::shape(root, node) is Number,
        name == "string"@ <==> shape::shape(root, node) is Str,
        name == "object"@ ==> shape::shape(root, node) is Opaque,
        name == "array"@ ==> shape::shape(root, node) is Array || shape::shape(root, node) is Opaque,
        !seq!["boolean"@, "integer"@, "number"@, "string"@, "object"@, "array"@].contains(name)
            <==> shape::shape(root, node) is Unknown,
{
    open_is_itself(root, node);
    one_name(node, name);
    reveal_strlit("boolean");
    reveal_strlit("integer");
    reveal_strlit("number");
    reveal_strlit("string");
    reveal_strlit("object");
    reveal_strlit("array");
    let all = seq!["boolean"@, "integer"@, "number"@, "string"@, "object"@, "array"@];
    assert(all[0] == "boolean"@ && all[1] == "integer"@ && all[2] == "number"@ && all[3]
        == "string"@ && all[4] == "object"@ && all[5] == "array"@);
    assert("boolean"@[0] == 'b' && "integer"@[0] == 'i' && "number"@[0] == 'n' && "string"@[0]
        == 's' && "object"@[0] == 'o' && "array"@[0] == 'a');
    if all.contains(name) {
        let k = choose|k: int| 0 <= k < all.len() && all[k] == name;
    }
}

/// The bounds of an integer are those that its schema states, where it states them as
/// integers that sixty-four bits hold.
pub proof fn integers_keep_their_bounds(root: Seq<(Seq<char>, Json)>, node: Json, n: int)
    requires
        is_open(node),
        names_type(node, "integer"@),
    ensures
        ({
            let (min, max) = match shape::shape(root, node) {
                ShapeView::Integer { min, max } => (min, max),
                _ => (None, None),
            };
            &&& shape::shape(root, node) is Integer
            &&& node.get("minimum"@) == Some(Json::Integer(n)) && -0x8000_0000_0000_0000 <= n
                <= 0x7fff_ffff_ffff_ffff ==> min is Some && min->0 == n
            &&& node.get("maximum"@) == Some(Json::Integer(n)) && -0x8000_0000_0000_0000 <= n
                <= 0x7fff_ffff_ffff_ffff ==> max is Some && max->0 == n
            &&& node.get("minimum"@) is None ==> min is None
            &&& node.get("maximum"@) is None ==> max is None
        }),
{
    types_become_shapes(root, node, "integer"@);
    open_is_itself(root, node);
    one_name(node, "integer"@);
}

/// A list has the shape of its items inside; a list of objects is as little carried as
/// an object is, and a list that says nothing of its items is not understood inside.
pub proof fn lists_take_the_shape_of_their_items(
    root: Seq<(Seq<char>, Json)>,
    node: Json,
    items: Json,
    name: Seq<char>,
)
    requires
        is_open(node),
        names_type(node, "array"@),
    ensures
        node.get("items"@) is None ==> shape::shape(root, node) == ShapeView::Array(
            Box::new(ShapeView::Unknown),
        ),
        node.get("items"@) matches Some(said) ==> said is Bool || said is Null ==> shape::shape(
            root,
            node,
        ) == ShapeView::Array(Box::new(ShapeView::Unknown)),
        node.get("items"@) == Some(items) && items is Object && shape::nests(root, items) ==> (
        if shape::shape(root, items) is Opaque {
            shape::shape(root, node) is Opaque
        } else {
            shape::shape(root, node) == ShapeView::Array(Box::new(shape::shape(root, items)))
        }),
{
    open_is_itself(root, node);
    one_name(node, "array"@);
    reveal_strlit("boolean");
    reveal_strlit("integer");
    reveal_strlit("number");
    reveal_strlit("string");
    reveal_strlit("object");
    reveal_strlit("array");
    assert("boolean"@[0] == 'b' && "integer"@[0] == 'i' && "number"@[0] == 'n' && "string"@[0]
        == 's' && "object"@[0] == 'o' && "array"@[0] == 'a');
    let inner = shape::item_schema(root, node);
    if node.get("items"@) is None || (node.get("items"@)->0 is Bool || node.get("items"@)->0 is Null) {
        assert(inner is None);
        assert(shape::nests_within(root, node, 1));
        shape::shape_is(root, node, 1);
    } else if node.get("items"@) == Some(items) && items is Object && shape::nests(root, items) {
        let n = choose|n: nat| shape::nests_within(root, items, n);
        assert(inner == Some(items));
        assert(shape::nests_within(root, node, n + 1));
        shape::shape_is(root, node, n + 1);
        shape::shape_is(root, items, n);
    }
}

/// Every schema whose items name a type other than a list nests to an end.
pub proof fn plain_items_end(root: Seq<(Seq<char>, Json)>, node: Json, name: Seq<char>)
    requires
        is_open(node),
        names_type(node, name),
        name != "array"@,
    ensures
        shape::nests(root, node),
{
    open_is_itself(root, node);
    one_name(node, name);
    assert(seq![name][0] == name);
    if shape::value_types(node) == seq!["array"@] {
        assert(seq!["array"@][0] == "array"@);
    }
    assert(shape::nests_within(root, node, 1));
}

/// The texts of a list as documents.
pub open spec fn as_texts(values: Seq<Seq<char>>) -> Seq<Json> {
    values.map_values(|value: Seq<char>| Json::Text(value))
}

proof fn strings_of_texts(values: Seq<Seq<char>>)
    ensures
        schema::strings(as_texts(values)) == values,
    decreases values.len(),
{
    if values.len() > 0 {
        strings_of_texts(values.drop_last());
        assert(as_texts(values).drop_last() =~= as_texts(values.drop_last()));
        assert(values.drop_last().push(values.last()) =~= values);
    }
}

proof fn strings_are_fewer(items: Seq<Json>, at: int)
    requires
        0 <= at < items.len(),
        !(items[at] is Text),
    ensures
        schema::strings(items).len() < items.len(),
    decreases items.len(),
{
    let less = items.drop_last();
    if at == items.len() - 1 {
        strings_no_more(less);
    } else {
        assert(less[at] == items[at]);
        strings_are_fewer(less, at);
    }
}

proof fn strings_no_more(items: Seq<Json>)
    ensures
        schema::strings(items).len() <= items.len(),
    decreases items.len(),
{
    if items.len() > 0 {
        strings_no_more(items.drop_last());
    }
}

/// A list of permitted texts is the closed set that a parameter takes, in its order,
/// whatever type stands beside it; a list with anything else in it closes nothing.
pub proof fn listed_values_are_permitted(
    root: Seq<(Seq<char>, Json)>,
    node: Json,
    values: Seq<Seq<char>>,
    items: Seq<Json>,
    at: int,
)
    requires
        is_direct(node),
    ensures
        node.get("enum"@) == Some(Json::List(as_texts(values))) && values.len() > 0 ==> shape::shape(
            root,
            node,
        ) == ShapeView::Enum(values),
        node.get("enum"@) == Some(Json::List(items)) && 0 <= at < items.len() && !(
        items[at] is Text) ==> !(shape::shape(root, node) is Enum),
{
    assert(schema::hop(root, node) is None);
    strings_of_texts(values);
    if 0 <= at < items.len() && !(items[at] is Text) {
        strings_are_fewer(items, at);
    }
}

/// A parameter that takes one text alone is a closed set of one.
pub proof fn a_constant_is_a_set_of_one(root: Seq<(Seq<char>, Json)>, node: Json, value: Seq<char>)
    requires
        is_direct(node),
        node.get("enum"@) is None,
        node.get("const"@) == Some(Json::Text(value)),
    ensures
        shape::shape(root, node) == ShapeView::Enum(seq![value]),
{
    assert(schema::hop(root, node) is None);
}

/// Whether a reference names a definition: `#/$defs/` and its name, or
/// `#/definitions/` and its name.
pub open spec fn refers_to(node: Json, name: Seq<char>) -> bool {
    node.get("$ref"@) == Some(Json::Text("#/$defs/"@ + name)) || node.get("$ref"@) == Some(
        Json::Text("#/definitions/"@ + name),
    )
}

/// A reference leads to the definition of its name, and a chain of up to sixteen of
/// them to its end.
pub proof fn references_lead_to_their_end(
    root: Seq<(Seq<char>, Json)>,
    defs: Seq<(Seq<char>, Json)>,
    chain: Seq<Json>,
    names: Seq<Seq<char>>,
)
    requires
        json::field(root, "$defs"@) == Some(Json::Object(defs)) || (json::field(root, "$defs"@) is None
            && json::field(root, "definitions"@) == Some(Json::Object(defs))),
        1 <= chain.len() <= 17,
        names.len() == chain.len() - 1,
        forall|i: int|
            0 <= i < names.len() ==> refers_to(chain[i], #[trigger] names[i]) && json::field(
                defs,
                names[i],
            ) == Some(chain[i + 1]),
        chain.last().get("$ref"@) is None,
    ensures
        schema::meant(root, chain[0]) == chain.last(),
{
    chain_is_followed(root, defs, chain, names, 0, 16);
}

proof fn chain_is_followed(
    root: Seq<(Seq<char>, Json)>,
    defs: Seq<(Seq<char>, Json)>,
    chain: Seq<Json>,
    names: Seq<Seq<char>>,
    from: int,
    hops: nat,
)
    requires
        json::field(root, "$defs"@) == Some(Json::Object(defs)) || (json::field(root, "$defs"@) is None
            && json::field(root, "definitions"@) == Some(Json::Object(defs))),
        0 <= from < chain.len() <= from + hops + 1,
        names.len() == chain.len() - 1,
        forall|i: int|
            0 <= i < names.len() ==> refers_to(chain[i], #[trigger] names[i]) && json::field(
                defs,
                names[i],
            ) == Some(chain[i + 1]),
        chain.last().get("$ref"@) is None,
    ensures
        schema::followed(root, chain[from], hops) == chain.last(),
    decreases hops,
{
    if from == chain.len() - 1 {
        assert(chain[from] == chain.last());
        assert(schema::hop(root, chain[from]) is None);
    } else {
        let name = names[from];
        reveal_strlit("#/$defs/");
        reveal_strlit("#/definitions/");
        let one = "#/$defs/"@ + name;
        let two = "#/definitions/"@ + name;
        assert(one.take("#/$defs/"@.len() as int) =~= "#/$defs/"@);
        assert(one.skip("#/$defs/"@.len() as int) =~= name);
        assert(two.take("#/definitions/"@.len() as int) =~= "#/definitions/"@);
        assert(two.skip("#/definitions/"@.len() as int) =~= name);
        if two.len() >= "#/$defs/"@.len() {
            assert(two.take("#/$defs/"@.len() as int)[2] == 'd');
            assert("#/$defs/"@[2] == '$');
        }
        assert(schema::hop(root, chain[from]) == Some(chain[from + 1]));
        chain_is_followed(root, defs, chain, names, from + 1, (hops - 1) as nat);
    }
}

/// A schema that refers to another has its shape.
pub proof fn references_take_the_shape_they_name(
    root: Seq<(Seq<char>, Json)>,
    node: Json,
    target: Json,
)
    requires
        schema::meant(root, node) == target,
        target.get("$ref"@) is None,
    ensures
        shape::permitted(root, node) == shape::permitted(root, target),
        shape::nests(root, target) ==> shape::shape(root, node) == shape::shape(root, target),
{
    assert(schema::hop(root, target) is None);
    assert(schema::meant(root, target) == target);
    assert(schema::value_schema(root, node) == schema::value_schema(root, target));
    assert(shape::closed_set(root, node, 8) == shape::closed_set(root, target, 8));
    assert(shape::one_type(root, node) == shape::one_type(root, target));
    assert(shape::item_schema(root, node) == shape::item_schema(root, target));
    if shape::nests(root, target) {
        let n = choose|n: nat| shape::nests_within(root, target, n);
        assert(shape::nests_within(root, node, n));
        shape::shape_is(root, target, n);
        shape::shape_is(root, node, n);
    }
}

/// A branch that stands for null alone.
pub open spec fn is_null_branch(arm: Json) -> bool {
    arm.get("$ref"@) is None && arm.get("type"@) == Some(Json::Text("null"@))
}

/// An optional parameter, spelled as a branch for the value and one for null in
/// either order, has the shape of the value.
pub proof fn optionals_take_the_shape_of_their_value(
    root: Seq<(Seq<char>, Json)>,
    node: Json,
    arm: Json,
    null: Json,
    name: Seq<char>,
    arms: Seq<Json>,
)
    requires
        node.get("$ref"@) is None,
        node.get("enum"@) is None,
        node.get("const"@) is None,
        arms == seq![arm, null] || arms == seq![null, arm],
        (node.get("anyOf"@) == Some(Json::List(arms)) && node.get("oneOf"@) is None) || (node.get(
            "oneOf"@,
        ) == Some(Json::List(arms)) && node.get("anyOf"@) is None),
        is_null_branch(null),
        is_open(arm),
        names_type(arm, name),
        name != "array"@,
    ensures
        shape::shape(root, node) == shape::shape(root, arm),
{
    assert(schema::hop(root, node) is None);
    assert(schema::hop(root, null) is None);
    open_is_itself(root, arm);
    one_name(arm, name);
    assert(schema::type_names(null) =~= seq!["null"@]);
    assert(schema::null_arm(null));
    reveal_with_fuel(schema::first_value_arm, 3);
    assert(schema::value_schema(root, node) == arm);
    reveal_with_fuel(shape::branch_values, 3);
    assert(schema::meant(root, node) == node);
    assert(schema::meant(root, null) == null);
    assert(shape::closed_set(root, arm, 7) is None);
    assert(shape::value_branches(node) == Some(Json::List(arms)));
    assert(shape::branch_values(root, arms, 2, 7) is None) by {
        if arms == seq![arm, null] {
            assert(arms[0] == arm && arms[1] == null);
            assert(shape::branch_values(root, arms, 1, 7) is None);
        } else {
            assert(arms[0] == null && arms[1] == arm);
            assert(shape::branch_values(root, arms, 1, 7) == Some(Seq::<Seq<char>>::empty()));
        }
    }
    assert(shape::closed_set(root, node, 8) is None);
    assert(shape::one_type(root, node)) by {
        assert forall|i: int|
            0 <= i < arms.len() && !schema::null_arm(
                schema::meant(root, #[trigger] arms[i]),
            ) implies shape::value_types(schema::meant(root, arms[i])) == shape::value_types(
            schema::value_schema(root, node),
        ) by {
            assert(arms[i] == arm || arms[i] == null);
        }
    }
    assert(seq![name][0] == name && seq!["array"@][0] == "array"@);
    assert(shape::item_schema(root, node) is None);
    assert(shape::item_schema(root, arm) is None);
    assert(shape::nests_within(root, node, 1));
    assert(shape::nests_within(root, arm, 1));
    shape::shape_is(root, node, 1);
    shape::shape_is(root, arm, 1);
}

/// Branches that each allow one text are a closed set of those texts, in order, where
/// each is named once. A branch for null adds nothing, and one that allows anything
/// else opens the set.
pub proof fn constant_branches_are_a_set(
    root: Seq<(Seq<char>, Json)>,
    node: Json,
    arms: Seq<Json>,
    values: Seq<Seq<char>>,
)
    requires
        node.get("$ref"@) is None,
        node.get("enum"@) is None,
        node.get("const"@) is None,
        node.get("oneOf"@) == Some(Json::List(arms)) || (node.get("oneOf"@) is None && node.get(
            "anyOf"@,
        ) == Some(Json::List(arms))),
        arms.len() == values.len() > 0,
        forall|i: int|
            0 <= i < arms.len() ==> is_direct(#[trigger] arms[i]) && arms[i].get("enum"@) is None
                && arms[i].get("const"@) == Some(Json::Text(values[i])) && !schema::null_arm(
                arms[i],
            ),
        values.no_duplicates(),
    ensures
        shape::shape(root, node) == ShapeView::Enum(values),
{
    assert(schema::hop(root, node) is None);
    assert(schema::meant(root, node) == node);
    constants_add_up(root, arms, values, arms.len());
    assert(values.take(values.len() as int) =~= values);
    assert(shape::closed_set(root, node, 8) == Some(values));
}

proof fn constants_add_up(
    root: Seq<(Seq<char>, Json)>,
    arms: Seq<Json>,
    values: Seq<Seq<char>>,
    n: nat,
)
    requires
        n <= arms.len() == values.len(),
        forall|i: int|
            0 <= i < arms.len() ==> is_direct(#[trigger] arms[i]) && arms[i].get("enum"@) is None
                && arms[i].get("const"@) == Some(Json::Text(values[i])) && !schema::null_arm(
                arms[i],
            ),
        values.no_duplicates(),
    ensures
        shape::branch_values(root, arms, n, 7) == Some(values.take(n as int)),
    decreases n,
{
    if n == 0 {
        assert(values.take(0) =~= Seq::empty());
    } else {
        constants_add_up(root, arms, values, (n - 1) as nat);
        let arm = arms[n - 1];
        assert(schema::hop(root, arm) is None);
        assert(schema::meant(root, arm) == arm);
        let one = seq![values[n - 1]];
        assert(shape::closed_set(root, arm, 7) == Some(one));
        let before = values.take(n - 1);
        reveal_with_fuel(shape::joined_values, 2);
        assert(one.drop_last() =~= Seq::empty());
        if before.contains(values[n - 1]) {
            let k = choose|k: int| 0 <= k < before.len() && before[k] == values[n - 1];
            assert(values[k] == values[n - 1]);
        }
        assert(before.push(values[n - 1]) =~= values.take(n as int));
    }
}

/// Adding values keeps those that are there and adds each of the others once, in
/// order.
pub proof fn joining_keeps_each_once(out: Seq<Seq<char>>, more: Seq<Seq<char>>, value: Seq<char>)
    ensures
        shape::joined_values(out, more).contains(value) <==> out.contains(value)
            || more.contains(value),
        out.no_duplicates() ==> shape::joined_values(out, more).no_duplicates(),
        out.len() <= shape::joined_values(out, more).len(),
        shape::joined_values(out, more).take(out.len() as int) == out,
    decreases more.len(),
{
    let all = shape::joined_values(out, more);
    if more.len() == 0 {
        assert(out.take(out.len() as int) =~= out);
    } else {
        let less = more.drop_last();
        joining_keeps_each_once(out, less, value);
        joining_keeps_each_once(out, less, more.last());
        let before = shape::joined_values(out, less);
        assert(more.contains(value) <==> less.contains(value) || value == more.last()) by {
            if less.contains(value) {
                let k = choose|k: int| 0 <= k < less.len() && less[k] == value;
                assert(more[k] == value);
            }
            if value == more.last() {
                assert(more[more.len() - 1] == value);
            }
            if more.contains(value) && value != more.last() {
                let k = choose|k: int| 0 <= k < more.len() && more[k] == value;
                assert(less[k] == value);
            }
        }
        if !before.contains(more.last()) {
            assert(all == before.push(more.last()));
            assert(all.contains(value) <==> before.contains(value) || value == more.last()) by {
                if before.contains(value) {
                    let k = choose|k: int| 0 <= k < before.len() && before[k] == value;
                    assert(all[k] == value);
                }
                assert(all[before.len() as int] == more.last());
                if all.contains(value) && value != more.last() {
                    let k = choose|k: int| 0 <= k < all.len() && all[k] == value;
                    assert(before[k] == value);
                }
            }
            assert(all.take(out.len() as int) =~= before.take(out.len() as int));
            if out.no_duplicates() {
                assert forall|i: int, j: int| 0 <= i < all.len() && 0 <= j < all.len() && i != j implies all[i]
                    != all[j] by {
                    if i < before.len() && j < before.len() {
                        assert(before[i] != before[j]);
                    } else if i < before.len() {
                        assert(before.contains(before[i]));
                    } else {
                        assert(before.contains(before[j]));
                    }
                }
            }
        }
    }
}

/// A field name is written with hyphens for its underscores, and is otherwise itself.
pub proof fn flags_are_hyphened(name: Seq<char>, i: int)
    requires
        0 <= i < name.len(),
    ensures
        shape::kebab_case(name).len() == name.len(),
        shape::kebab_case(name)[i] == (if name[i] == '_' {
            '-'
        } else {
            name[i]
        }),
{
}

/// The branches of a schema are those under `oneOf`, and those under `anyOf` where it
/// has none.
pub proof fn branches_are_the_exclusive_ones_first(node: Json)
    ensures
        node.get("oneOf"@) is Some ==> shape::value_branches(node) == node.get("oneOf"@),
        node.get("oneOf"@) is None ==> shape::value_branches(node) == node.get("anyOf"@),
{
}

} // verus!
