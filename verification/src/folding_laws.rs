//! What publishing a schema keeps, and what it takes away.

use vstd::prelude::*;

use crate::json;
use crate::json::Json;
use crate::schema;
use crate::text;
use crate::tool::ToolView;
use crate::weight;

verus! {

/// The branches of a node stand under this key: `anyOf`, or `oneOf` where there is no
/// `anyOf`.
pub open spec fn lists_branches(
    fields: Seq<(Seq<char>, Json)>,
    key: Seq<char>,
    arms: Seq<Json>,
) -> bool {
    &&& json::field(fields, key) == Some(Json::List(arms))
    &&& key == "anyOf"@ || (key == "oneOf"@ && json::field(fields, "anyOf"@) is None)
}

/// A branch that names null and no other type.
pub open spec fn says_null(arm: Json) -> bool {
    arm.get("type"@) == Some(Json::Text("null"@)) || arm.get("type"@) == Some(
        Json::List(seq![Json::Text("null"@)]),
    )
}

/// A branch of which it is plain that it does not stand for null alone: it names one
/// other type, or none.
pub open spec fn says_other(arm: Json) -> bool {
    match arm.get("type"@) {
        Some(Json::Text(name)) => name != "null"@,
        Some(Json::List(_)) => false,
        _ => true,
    }
}

proof fn null_is_seen(arm: Json)
    ensures
        says_null(arm) ==> schema::null_arm(arm),
        says_other(arm) ==> !schema::null_arm(arm),
{
    reveal_with_fuel(schema::strings, 3);
    let null = Json::Text("null"@);
    if arm.get("type"@) == Some(Json::List(seq![null])) {
        assert(seq![null].drop_last() =~= Seq::empty());
        assert(schema::strings(seq![null]) =~= seq!["null"@]);
    }
    if says_null(arm) {
        assert(schema::type_names(arm) =~= seq!["null"@]);
    }
    if says_other(arm) {
        let names = schema::type_names(arm);
        if names == seq!["null"@] {
            assert(names.len() == 1);
            assert(names[0] == "null"@);
            if let Some(Json::Text(name)) = arm.get("type"@) {
                assert(names[0] == name);
            }
            assert(false);
        }
    }
}

proof fn key_is_found(fields: Seq<(Seq<char>, Json)>, key: Seq<char>, arms: Seq<Json>)
    requires
        lists_branches(fields, key, arms),
    ensures
        schema::arms_key(fields) == key,
{
    json::position_bounds(fields, "anyOf"@, 0);
}

proof fn lone_arm(arms: Seq<Json>, arm: Json, null: Json)
    requires
        arms == seq![arm, null] || arms == seq![null, arm],
        says_null(null),
        says_other(arm),
    ensures
        schema::value_arms(arms) == seq![arm],
{
    null_is_seen(arm);
    null_is_seen(null);
    reveal(Seq::filter);
    reveal_with_fuel(Seq::filter, 4);
    let keep = |a: Json| !schema::null_arm(a);
    let none = Seq::<Json>::empty();
    if arms == seq![arm, null] {
        assert(arms.drop_last() =~= seq![arm]);
        assert(seq![arm].drop_last() =~= none);
    } else {
        assert(arms.drop_last() =~= seq![null]);
        assert(seq![null].drop_last() =~= none);
    }
    assert(none.push(arm) =~= seq![arm]);
    assert(arms.filter(keep) =~= seq![arm]);
}

proof fn absorbing(
    base: Seq<(Seq<char>, Json)>,
    fields: Seq<(Seq<char>, Json)>,
    key: Seq<char>,
    count: int,
    name: Seq<char>,
)
    requires
        json::ordered(base),
        json::ordered(fields),
        0 <= count <= fields.len(),
    ensures
        json::ordered(schema::absorbed(base, fields, key, count)),
        name == key ==> json::field(schema::absorbed(base, fields, key, count), name)
            == json::field(base, name),
        name != key && (exists|i: int| 0 <= i < count && (#[trigger] fields[i]).0 == name)
            ==> json::field(schema::absorbed(base, fields, key, count), name) == json::field(
            fields,
            name,
        ),
        name != key && !(exists|i: int| 0 <= i < count && (#[trigger] fields[i]).0 == name)
            ==> json::field(schema::absorbed(base, fields, key, count), name) == json::field(
            base,
            name,
        ),
    decreases count,
{
    if count > 0 {
        absorbing(base, fields, key, count - 1, name);
        let before = schema::absorbed(base, fields, key, count - 1);
        let (k, v) = fields[count - 1];
        if k != key {
            json::set_field(before, k, v, name);
            json::set_field_ordered(before, k, v);
            json::ordered_finds(fields, count - 1);
        }
    }
}

/// An optional whose only value branch is an object becomes that branch. Every other
/// keyword of the node stands beside it, and before what the branch says under the
/// same name; a default of null alone is gone.
pub proof fn optionals_become_their_value(
    fields: Seq<(Seq<char>, Json)>,
    key: Seq<char>,
    arms: Seq<Json>,
    branch: Seq<(Seq<char>, Json)>,
    null: Json,
    name: Seq<char>,
)
    requires
        json::ordered(fields),
        json::ordered(branch),
        lists_branches(fields, key, arms),
        arms == seq![Json::Object(branch), null] || arms == seq![null, Json::Object(branch)],
        says_null(null),
        says_other(Json::Object(branch)),
    ensures
        ({
            let after = schema::opened(fields);
            let said = if name != key && json::field(fields, name) is Some {
                json::field(fields, name)
            } else {
                json::field(branch, name)
            };
            json::field(after, name) == if name == "default"@ && said == Some(Json::Null) {
                None
            } else {
                said
            }
        }),
{
    key_is_found(fields, key, arms);
    lone_arm(arms, Json::Object(branch), null);
    let n = fields.len() as int;
    absorbing(branch, fields, key, n, name);
    absorbing(branch, fields, key, n, "default"@);
    let all = schema::absorbed(branch, fields, key, n);
    assert(schema::value_arms(arms)[0] == Json::Object(branch));
    json::unset_field(all, "default"@, name);
    json::position_bounds(fields, name, 0);
    if name != key {
        if json::field(fields, name) is Some {
            let p = json::position_from(fields, name, 0);
            assert(fields[p].0 == name);
        } else {
            assert forall|i: int| 0 <= i < n implies (#[trigger] fields[i]).0 != name by {
                if fields[i].0 == name {
                    json::ordered_finds(fields, i);
                }
            }
        }
    }
}

/// Of several value branches every one is kept, in order, and everything else of the
/// node as it was.
pub proof fn unions_lose_null_alone(
    fields: Seq<(Seq<char>, Json)>,
    key: Seq<char>,
    arms: Seq<Json>,
    at: int,
    name: Seq<char>,
)
    requires
        json::ordered(fields),
        lists_branches(fields, key, arms),
        arms.len() > 2,
        0 <= at < arms.len(),
        says_null(arms[at]),
        forall|i: int| 0 <= i < arms.len() && i != at ==> says_other(#[trigger] arms[i]),
    ensures
        json::field(schema::opened(fields), key) == Some(Json::List(arms.remove(at))),
        name != key ==> json::field(schema::opened(fields), name) == json::field(fields, name),
{
    key_is_found(fields, key, arms);
    only_one_goes(arms, at);
    json::set_field(fields, key, Json::List(arms.remove(at)), name);
}

proof fn only_one_goes(arms: Seq<Json>, at: int)
    requires
        0 <= at < arms.len(),
        says_null(arms[at]),
        forall|i: int| 0 <= i < arms.len() && i != at ==> says_other(#[trigger] arms[i]),
    ensures
        schema::value_arms(arms) == arms.remove(at),
    decreases arms.len(),
{
    reveal(Seq::filter);
    let less = arms.drop_last();
    let last = arms.len() - 1;
    null_is_seen(arms[last]);
    if at == last {
        all_stay(less);
        assert(arms.remove(at) =~= less);
    } else {
        assert forall|i: int| 0 <= i < less.len() && i != at implies says_other(
            #[trigger] less[i],
        ) by {
            assert(less[i] == arms[i]);
        }
        only_one_goes(less, at);
        assert(says_other(arms[last]));
        assert(less.remove(at).push(arms[last]) =~= arms.remove(at));
    }
}

proof fn all_stay(arms: Seq<Json>)
    requires
        forall|i: int| 0 <= i < arms.len() ==> says_other(#[trigger] arms[i]),
    ensures
        schema::value_arms(arms) == arms,
    decreases arms.len(),
{
    reveal(Seq::filter);
    if arms.len() > 0 {
        let less = arms.drop_last();
        assert forall|i: int| 0 <= i < less.len() implies says_other(#[trigger] less[i]) by {
            assert(less[i] == arms[i]);
        }
        all_stay(less);
        null_is_seen(arms[arms.len() - 1]);
        assert(says_other(arms[arms.len() - 1]));
        assert(less.push(arms.last()) =~= arms);
    }
}

/// A node without branches, or without a null one among them, is not folded.
pub proof fn what_is_required_is_left_alone(
    fields: Seq<(Seq<char>, Json)>,
    key: Seq<char>,
    arms: Seq<Json>,
)
    ensures
        json::field(fields, "anyOf"@) is None && json::field(fields, "oneOf"@) is None
            ==> schema::opened(fields) == fields,
        lists_branches(fields, key, arms) && (forall|i: int|
            0 <= i < arms.len() ==> says_other(#[trigger] arms[i])) ==> schema::opened(fields)
            == fields,
{
    if lists_branches(fields, key, arms) && (forall|i: int|
        0 <= i < arms.len() ==> says_other(#[trigger] arms[i])) {
        key_is_found(fields, key, arms);
        all_stay(arms);
    }
}

/// A list of types loses null: one other type is left on its own, several in order.
/// Every other keyword stays as it was.
pub proof fn type_lists_lose_null(
    fields: Seq<(Seq<char>, Json)>,
    types: Seq<Json>,
    at: int,
    name: Seq<char>,
)
    requires
        json::ordered(fields),
        json::field(fields, "type"@) == Some(Json::List(types)),
        0 <= at < types.len(),
        types[at] == Json::Text("null"@),
        forall|i: int|
            0 <= i < types.len() && i != at ==> #[trigger] types[i] != Json::Text("null"@),
    ensures
        json::field(schema::flattened(fields), "type"@) == (if types.len() == 1 {
            None
        } else if types.len() == 2 {
            Some(types[1 - at])
        } else {
            Some(Json::List(types.remove(at)))
        }),
        name != "type"@ ==> json::field(schema::flattened(fields), name) == json::field(
            fields,
            name,
        ),
{
    types_without_null(types, at);
    assert(types.contains(Json::Text("null"@)));
    let kept = types.remove(at);
    json::unset_field(fields, "type"@, name);
    json::set_field(fields, "type"@, kept[0], name);
    json::set_field(fields, "type"@, Json::List(kept), name);
    if types.len() == 2 {
        assert(kept[0] == types[1 - at]);
    }
}

proof fn types_without_null(types: Seq<Json>, at: int)
    requires
        0 <= at < types.len(),
        types[at] == Json::Text("null"@),
        forall|i: int|
            0 <= i < types.len() && i != at ==> #[trigger] types[i] != Json::Text("null"@),
    ensures
        schema::value_types(types) == types.remove(at),
    decreases types.len(),
{
    reveal(Seq::filter);
    let less = types.drop_last();
    let last = types.len() - 1;
    if at == last {
        no_null_no_change(less);
        assert(types.remove(at) =~= less);
    } else {
        assert forall|i: int| 0 <= i < less.len() && i != at implies #[trigger] less[i]
            != Json::Text("null"@) by {
            assert(less[i] == types[i]);
        }
        types_without_null(less, at);
        assert(types[last] != Json::Text("null"@));
        assert(less.remove(at).push(types[last]) =~= types.remove(at));
    }
}

proof fn no_null_no_change(types: Seq<Json>)
    requires
        forall|i: int| 0 <= i < types.len() ==> #[trigger] types[i] != Json::Text("null"@),
    ensures
        schema::value_types(types) == types,
    decreases types.len(),
{
    reveal(Seq::filter);
    if types.len() > 0 {
        let less = types.drop_last();
        assert forall|i: int| 0 <= i < less.len() implies #[trigger] less[i] != Json::Text(
            "null"@,
        ) by {
            assert(less[i] == types[i]);
        }
        no_null_no_change(less);
        assert(types[types.len() - 1] != Json::Text("null"@));
        assert(less.push(types.last()) =~= types);
    }
}

/// A single type, or a list of types without null, stays as it was.
pub proof fn other_types_stay(fields: Seq<(Seq<char>, Json)>, types: Seq<Json>)
    requires
        !(json::field(fields, "type"@) is Some && json::field(fields, "type"@)->0 is List)
            || json::field(fields, "type"@) == Some(Json::List(types)),
        forall|i: int| 0 <= i < types.len() ==> #[trigger] types[i] != Json::Text("null"@),
    ensures
        schema::flattened(fields) == fields,
{
}

/// Publishing a node drops its dialect marker, and opening it and clearing its types
/// are all else that it does.
pub proof fn nothing_else_is_published(fields: Seq<(Seq<char>, Json)>, name: Seq<char>)
    requires
        json::ordered(fields),
        json::field(fields, "anyOf"@) is None,
        json::field(fields, "oneOf"@) is None,
    ensures
        json::field(schema::published(fields), "$schema"@) is None,
        name != "$schema"@ && name != "type"@ ==> json::field(schema::published(fields), name)
            == json::field(fields, name),
        json::field(fields, "type"@) is Some && !(json::field(fields, "type"@)->0 is List)
            ==> json::field(schema::published(fields), "type"@) == json::field(fields, "type"@),
{
    reveal_strlit("type");
    reveal_strlit("$schema");
    assert("type"@.len() == 4 && "$schema"@.len() == 7);
    what_is_required_is_left_alone(fields, name, Seq::empty());
    let bare = json::without_field(fields, "$schema"@);
    json::unset_field(fields, "$schema"@, name);
    json::unset_field(fields, "$schema"@, "type"@);
    flattening_keeps(bare, name);
    flattening_keeps(bare, "$schema"@);
}

proof fn flattening_keeps(fields: Seq<(Seq<char>, Json)>, name: Seq<char>)
    requires
        json::ordered(fields),
    ensures
        name != "type"@ ==> json::field(schema::flattened(fields), name) == json::field(
            fields,
            name,
        ),
{
    if let Some(Json::List(types)) = json::field(fields, "type"@) {
        let kept = schema::value_types(types);
        json::unset_field(fields, "type"@, name);
        json::set_field(fields, "type"@, kept[0], name);
        json::set_field(fields, "type"@, Json::List(kept), name);
    }
}

/// What is no object and no list is published as it is, and a list item by item.
pub proof fn leaves_are_published_as_they_are(doc: Json, items: Seq<Json>, i: int)
    ensures
        !(doc is Object) && !(doc is List) ==> schema::rewritten(doc) == doc
            && schema::normalized(doc) == doc && schema::undialected(doc) == doc,
        doc == Json::List(items) && 0 <= i < items.len() ==> {
            &&& schema::rewritten(doc) is List
            &&& schema::rewritten(doc)->List_0.len() == items.len()
            &&& schema::rewritten(doc)->List_0[i] == schema::rewritten(items[i])
            &&& schema::undialected(doc) is List
            &&& schema::undialected(doc)->List_0.len() == items.len()
            &&& schema::undialected(doc)->List_0[i] == schema::undialected(items[i])
        },
{
    if doc == Json::List(items) {
        schema::rewritten_list(items);
        schema::undialected_list(items);
    }
}

/// An object is published field by field: under each name that its node publishes
/// stands what the value there is published as, and there is no other name.
pub proof fn objects_are_published_by_field(fields: Seq<(Seq<char>, Json)>, i: int)
    ensures
        ({
            let node = schema::published(fields);
            let after = schema::rewritten(Json::Object(fields));
            &&& after is Object
            &&& after->Object_0.len() == node.len()
            &&& 0 <= i < node.len() ==> after->Object_0[i] == (
                node[i].0,
                schema::rewritten(node[i].1),
            )
        }),
{
    schema::rewritten_object(fields);
}

/// A tool is published under its name, with what it says of itself: its input schema
/// normalized, and its output schema without dialect markers.
pub proof fn tools_are_published_whole(tool: ToolView)
    ensures
        ({
            let after = schema::published_tool(tool);
            &&& after.name == tool.name
            &&& after.title == tool.title
            &&& after.description == tool.description
            &&& after.annotations == tool.annotations
            &&& Json::Object(after.input) == schema::normalized(
                Json::Object(tool.input),
            )
            &&& tool.output is None ==> after.output is None
            &&& tool.output is Some ==> after.output is Some && Json::Object(
                after.output->0,
            ) == schema::undialected(Json::Object(tool.output->0))
        }),
{
    objects_stay_objects(tool.input);
    if let Some(fields) = tool.output {
        schema::undialected_object(fields);
    }
}

proof fn objects_stay_objects(fields: Seq<(Seq<char>, Json)>)
    ensures
        schema::normalized(Json::Object(fields)) is Object,
    decreases weight::weight(Json::Object(fields)),
{
    let doc = Json::Object(fields);
    schema::rewritten_object(fields);
    if schema::rewritten(doc) != doc {
        schema::rewritten_weight(doc);
        objects_stay_objects(schema::rewritten(doc)->Object_0);
    }
}

/// A branch that permits anything, beside one for null, is taken out with it: what is
/// left of the node is what it said itself, but for a default of null.
pub proof fn anything_or_null_is_anything(
    fields: Seq<(Seq<char>, Json)>,
    key: Seq<char>,
    arms: Seq<Json>,
    null: Json,
    name: Seq<char>,
)
    requires
        json::ordered(fields),
        lists_branches(fields, key, arms),
        arms == seq![Json::Bool(true), null] || arms == seq![null, Json::Bool(true)],
        says_null(null),
    ensures
        json::field(schema::opened(fields), key) is None,
        name != key && !(name == "default"@ && json::field(fields, name) == Some(Json::Null))
            ==> json::field(schema::opened(fields), name) == json::field(fields, name),
        json::field(schema::opened(fields), "default"@) != Some(Json::Null),
{
    let none = Seq::<(Seq<char>, Json)>::empty();
    key_is_found(fields, key, arms);
    lone_arm(arms, Json::Bool(true), null);
    let n = fields.len() as int;
    absorbing(none, fields, key, n, name);
    absorbing(none, fields, key, n, key);
    absorbing(none, fields, key, n, "default"@);
    let all = schema::absorbed(none, fields, key, n);
    assert(schema::value_arms(arms)[0] == Json::Bool(true));
    json::unset_field(all, "default"@, name);
    json::unset_field(all, "default"@, key);
    json::unset_field(all, "default"@, "default"@);
    json::position_bounds(fields, name, 0);
    json::not_found(none, name);
    json::not_found(none, key);
    if name != key {
        if json::field(fields, name) is Some {
            let p = json::position_from(fields, name, 0);
            assert(fields[p].0 == name);
        } else {
            assert forall|i: int| 0 <= i < n implies (#[trigger] fields[i]).0 != name by {
                if fields[i].0 == name {
                    json::ordered_finds(fields, i);
                }
            }
        }
    }
}

/// Definitions are those under `$defs`, and those under `definitions` where there are
/// none; a reference names one of either by its path.
pub proof fn references_name_definitions(root: Seq<(Seq<char>, Json)>, name: Seq<char>)
    ensures
        json::field(root, "$defs"@) matches Some(defs) ==> json::has_field(root, "$defs"@)
            ==> schema::definitions(root) == Some(defs),
        !json::has_field(root, "$defs"@) ==> schema::definitions(root) == json::field(
            root,
            "definitions"@,
        ),
        schema::ref_name("#/$defs/"@ + name) == Some(name),
        schema::ref_name("#/definitions/"@ + name) == Some(name),
        (name.len() == 0 || name[0] != '#') ==> schema::ref_name(name) is None,
{
    reveal_strlit("#/$defs/");
    reveal_strlit("#/definitions/");
    let one = "#/$defs/"@ + name;
    let two = "#/definitions/"@ + name;
    assert(one.take("#/$defs/"@.len() as int) =~= "#/$defs/"@);
    assert(one.skip("#/$defs/"@.len() as int) =~= name);
    assert(two.take("#/definitions/"@.len() as int) =~= "#/definitions/"@);
    assert(two.skip("#/definitions/"@.len() as int) =~= name);
    assert(!text::begins(two, "#/$defs/"@)) by {
        assert(two.take(8)[2] == 'd');
        assert("#/$defs/"@[2] == '$');
    }
    if text::begins(name, "#/$defs/"@) {
        assert(name.take(8)[0] == "#/$defs/"@[0]);
    }
    if text::begins(name, "#/definitions/"@) {
        assert(name.take(14)[0] == "#/definitions/"@[0]);
    }
}

/// The null branch that is pointed at is the first one, and only a list of two branches
/// or more has one.
pub proof fn the_first_null_branch_is_pointed_at(
    root: Seq<(Seq<char>, Json)>,
    schema: Json,
    arms: Seq<Json>,
)
    requires
        schema::branch_list(schema) == Some(Json::List(arms)),
    ensures
        arms.len() < 2 ==> schema::null_position(root, schema) is None,
        schema::null_position(root, schema) matches Some(at) ==> arms.len() >= 2 && 0 <= at
            < arms.len() && schema::null_arm(schema::meant(root, arms[at])) && (forall|j: int|
            0 <= j < at ==> !schema::null_arm(schema::meant(root, #[trigger] arms[j]))),
        arms.len() >= 2 && schema::null_position(root, schema) is None ==> (forall|j: int|
            0 <= j < arms.len() ==> !schema::null_arm(schema::meant(root, #[trigger] arms[j]))),
        schema.get("anyOf"@) is Some ==> schema::branch_list(schema) == schema.get("anyOf"@),
{
    first_null_from(root, arms, 0);
}

proof fn first_null_from(root: Seq<(Seq<char>, Json)>, arms: Seq<Json>, from: int)
    requires
        0 <= from,
    ensures
        schema::null_arm_from(root, arms, from) matches Some(at) ==> from <= at < arms.len()
            && schema::null_arm(schema::meant(root, arms[at])) && (forall|j: int|
            from <= j < at ==> !schema::null_arm(schema::meant(root, #[trigger] arms[j]))),
        schema::null_arm_from(root, arms, from) is None ==> (forall|j: int|
            from <= j < arms.len() ==> !schema::null_arm(schema::meant(root, #[trigger] arms[j]))),
    decreases arms.len() - from,
{
    if from < arms.len() {
        let seen = arms[from];
        first_null_from(root, arms, from + 1);
    }
}

} // verus!
