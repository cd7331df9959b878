//! The JSON Schema vocabulary every face has to speak.
//!
//! `Option<T>` is written in more than one shape, and anything with a name sits
//! behind a `$ref`, so "what does this parameter actually accept" is a question
//! that the command line, the normalizer and the contract scan have to answer
//! identically. Both halves live here: the reading half ([`deref`],
//! [`effective`], [`is_null_branch`], [`types_of`]) says what a schema node
//! means, and the rewriting half ([`normalize_input`], [`strip_dialect`]) says
//! what is published instead.

use vstd::prelude::*;

use crate::json;
use crate::json::{Fields, Json, JsonValue};
use crate::text;
use crate::text::{same, strip_prefix};
use crate::tool::{Tool, ToolView};
use crate::weight;

verus! {

/// How many `$ref` hops are followed before giving up.
pub const MAX_HOPS: usize = 16;

// ---------------------------------------------------------------------------
// Reading
// ---------------------------------------------------------------------------

/// The name a `$ref` points at inside the definitions, if it points there.
pub open spec fn ref_name(reference: Seq<char>) -> Option<Seq<char>> {
    if text::begins(reference, "#/$defs/"@) {
        Some(reference.skip("#/$defs/"@.len() as int))
    } else if text::begins(reference, "#/definitions/"@) {
        Some(reference.skip("#/definitions/"@.len() as int))
    } else {
        None
    }
}

/// The definitions of a document: `$defs`, or `definitions` where there is none.
pub open spec fn definitions(root: Seq<(Seq<char>, Json)>) -> Option<Json> {
    if json::has_field(root, "$defs"@) {
        json::field(root, "$defs"@)
    } else {
        json::field(root, "definitions"@)
    }
}

/// What one `$ref` hop leads to.
pub open spec fn hop(root: Seq<(Seq<char>, Json)>, schema: Json) -> Option<Json> {
    match schema.get("$ref"@) {
        Some(Json::Text(reference)) => match ref_name(reference) {
            Some(name) => match definitions(root) {
                Some(defs) => defs.get(name),
                None => None,
            },
            None => None,
        },
        _ => None,
    }
}

/// Where a schema leads after following at most `hops` references.
pub open spec fn followed(root: Seq<(Seq<char>, Json)>, schema: Json, hops: nat) -> Json
    decreases hops,
{
    if hops == 0 {
        schema
    } else {
        match hop(root, schema) {
            Some(target) => followed(root, target, (hops - 1) as nat),
            None => schema,
        }
    }
}

/// What a schema node stands for once its references are followed.
pub open spec fn meant(root: Seq<(Seq<char>, Json)>, schema: Json) -> Json {
    followed(root, schema, MAX_HOPS as nat)
}

/// The texts among the items of a list.
pub open spec fn strings(items: Seq<Json>) -> Seq<Seq<char>>
    decreases items.len(),
{
    if items.len() == 0 {
        Seq::empty()
    } else {
        let before = strings(items.drop_last());
        match items.last() {
            Json::Text(text) => before.push(text),
            _ => before,
        }
    }
}

/// The declared `type`, as a list, for both the string and the list spelling.
pub open spec fn type_names(schema: Json) -> Seq<Seq<char>> {
    match schema.get("type"@) {
        Some(Json::Text(name)) => seq![name],
        Some(Json::List(items)) => strings(items),
        _ => Seq::empty(),
    }
}

/// A branch that says it is null, and says nothing else about its type.
pub open spec fn null_arm(schema: Json) -> bool {
    type_names(schema) == seq!["null"@]
}

/// The branch list of a node: its `anyOf`, or its `oneOf` where it has none.
pub open spec fn branch_list(schema: Json) -> Option<Json> {
    match schema.get("anyOf"@) {
        Some(list) => Some(list),
        None => schema.get("oneOf"@),
    }
}

/// The first branch, at or after `from`, that is not the null one.
pub open spec fn first_value_arm(
    root: Seq<(Seq<char>, Json)>,
    arms: Seq<Json>,
    from: int,
) -> Option<Json>
    decreases arms.len() - from,
{
    if from >= arms.len() {
        None
    } else if !null_arm(meant(root, arms[from])) {
        Some(meant(root, arms[from]))
    } else {
        first_value_arm(root, arms, from + 1)
    }
}

/// The schema that describes a value: references followed, and the null branch
/// of an optional passed over.
pub open spec fn value_schema(root: Seq<(Seq<char>, Json)>, schema: Json) -> Json {
    let node = meant(root, schema);
    match branch_list(node) {
        Some(Json::List(arms)) => match first_value_arm(root, arms, 0) {
            Some(arm) => arm,
            None => node,
        },
        _ => node,
    }
}

/// The position of the first branch, at or after `from`, that stands for null.
pub open spec fn null_arm_from(
    root: Seq<(Seq<char>, Json)>,
    arms: Seq<Json>,
    from: int,
) -> Option<int>
    decreases arms.len() - from,
{
    if from >= arms.len() {
        None
    } else if null_arm(meant(root, arms[from])) {
        Some(from)
    } else {
        null_arm_from(root, arms, from + 1)
    }
}

/// The position of the null branch in a node's own branch list of at least two.
pub open spec fn null_position(root: Seq<(Seq<char>, Json)>, schema: Json) -> Option<int> {
    match branch_list(schema) {
        Some(Json::List(arms)) => if arms.len() < 2 {
            None
        } else {
            null_arm_from(root, arms, 0)
        },
        _ => None,
    }
}

/// A `type` that is a list of several, null among them.
pub open spec fn nullable_type_list(schema: Json) -> bool {
    match schema.get("type"@) {
        Some(Json::List(items)) => items.len() > 1 && items.contains(Json::Text("null"@)),
        _ => false,
    }
}

/// Follows `$ref` hops to the schema they name, giving up rather than looping.
///
/// A `$ref` that does not resolve is returned as it is.
pub fn deref<'a>(root: &'a Fields, schema: &'a JsonValue) -> (res: &'a JsonValue)
    ensures
        res.json() == meant(root.fields(), schema.json()),
{
    let mut current: &'a JsonValue = schema;
    let mut left: usize = MAX_HOPS;
    while left > 0
        invariant
            left <= MAX_HOPS,
            meant(root.fields(), schema.json()) == followed(
                root.fields(),
                current.json(),
                left as nat,
            ),
        decreases left,
    {
        let reference = match current.get("$ref") {
            Some(value) => match value.as_str() {
                Some(reference) => reference,
                None => return current,
            },
            None => return current,
        };
        let name = match strip_prefix(reference, "#/$defs/") {
            Some(name) => name,
            None => match strip_prefix(reference, "#/definitions/") {
                Some(name) => name,
                None => return current,
            },
        };
        let defs = match root.get("$defs") {
            Some(defs) => defs,
            None => match root.get("definitions") {
                Some(defs) => defs,
                None => return current,
            },
        };
        match defs.get(name) {
            Some(target) => {
                current = target;
            },
            None => return current,
        }
        left -= 1;
    }
    current
}

/// The declared `type`, as a list, for both the string and the list spelling.
pub fn types_of(schema: &JsonValue) -> (res: Vec<String>)
    ensures
        text::texts(res@) == type_names(schema.json()),
{
    let mut out: Vec<String> = Vec::new();
    match schema.get("type") {
        Some(declared) => {
            if let Some(name) = declared.as_str() {
                out.push(name.to_owned());
                assert(text::texts(out@) =~= seq![name@]);
            } else if let Some(items) = declared.as_array() {
                let mut i: usize = 0;
                assert(json::jsons(items@).take(0) =~= Seq::<Json>::empty());
                while i < items.len()
                    invariant
                        i <= items.len(),
                        text::texts(out@) == strings(json::jsons(items@).take(i as int)),
                    decreases items.len() - i,
                {
                    let ghost all = json::jsons(items@);
                    let ghost former = out@;
                    assert(all.take(i + 1).drop_last() =~= all.take(i as int));
                    assert(all[i as int] == items@[i as int].json());
                    if let Some(name) = items[i].as_str() {
                        out.push(name.to_owned());
                        assert(text::texts(out@) =~= text::texts(former).push(name@));
                    }
                    i += 1;
                }
                assert(json::jsons(items@).take(items@.len() as int) =~= json::jsons(items@));
            }
        },
        None => {},
    }
    out
}

/// Whether a branch is the null half of an optional: only one that says it is
/// null counts.
pub fn is_null_branch(schema: &JsonValue) -> (res: bool)
    ensures
        res == null_arm(schema.json()),
{
    let names = types_of(schema);
    if names.len() != 1 {
        assert(text::texts(names@).len() != seq!["null"@].len());
        return false;
    }
    assert(text::texts(names@)[0] == names@[0]@);
    if same(names[0].as_str(), "null") {
        assert(text::texts(names@) =~= seq!["null"@]);
        true
    } else {
        false
    }
}

/// Whether a node spells optionality as `type: ["T", "null"]`.
pub fn has_nullable_type_array(schema: &JsonValue) -> (res: bool)
    ensures
        res == nullable_type_list(schema.json()),
{
    match schema.get("type") {
        Some(declared) => match declared.as_array() {
            Some(items) => items.len() > 1 && has_null_name(items),
            None => false,
        },
        None => false,
    }
}

fn has_null_name(items: &Vec<JsonValue>) -> (res: bool)
    ensures
        res == json::jsons(items@).contains(Json::Text("null"@)),
{
    let mut i: usize = 0;
    while i < items.len()
        invariant
            i <= items.len(),
            forall|j: int| 0 <= j < i ==> #[trigger] json::jsons(items@)[j] != Json::Text("null"@),
        decreases items.len() - i,
    {
        assert(json::jsons(items@)[i as int] == items@[i as int].json());
        if let Some(name) = items[i].as_str() {
            if same(name, "null") {
                assert(json::jsons(items@)[i as int] == Json::Text("null"@));
                return true;
            }
        }
        i += 1;
    }
    false
}

pub(crate) fn branches_of(schema: &JsonValue) -> (res: Option<&Vec<JsonValue>>)
    ensures
        match res {
            Some(arms) => branch_list(schema.json()) == Some(Json::List(json::jsons(arms@))),
            None => branch_list(schema.json()) is None || branch_list(schema.json())->0 !is List,
        },
{
    match schema.get("anyOf") {
        Some(list) => list.as_array(),
        None => match schema.get("oneOf") {
            Some(list) => list.as_array(),
            None => None,
        },
    }
}

/// The branch that actually describes a value: optionality and references
/// resolved.
pub fn effective<'a>(root: &'a Fields, schema: &'a JsonValue) -> (res: &'a JsonValue)
    ensures
        res.json() == value_schema(root.fields(), schema.json()),
{
    let node = deref(root, schema);
    if let Some(arms) = branches_of(node) {
        let mut i: usize = 0;
        while i < arms.len()
            invariant
                i <= arms.len(),
                first_value_arm(root.fields(), json::jsons(arms@), 0) == first_value_arm(
                    root.fields(),
                    json::jsons(arms@),
                    i as int,
                ),
                node.json() == meant(root.fields(), schema.json()),
                branch_list(node.json()) == Some(Json::List(json::jsons(arms@))),
            decreases arms.len() - i,
        {
            assert(json::jsons(arms@)[i as int] == arms@[i as int].json());
            let arm = deref(root, &arms[i]);
            if !is_null_branch(arm) {
                return arm;
            }
            i += 1;
        }
    }
    node
}

/// The position of the null branch inside a node's own `anyOf` or `oneOf`.
///
/// A branch list of nothing but one null is a field that only ever holds null,
/// not optionality, so a sibling is required.
pub fn null_branch_position(root: &Fields, schema: &JsonValue) -> (res: Option<usize>)
    ensures
        match res {
            Some(at) => null_position(root.fields(), schema.json()) == Some(at as int),
            None => null_position(root.fields(), schema.json()) is None,
        },
{
    let arms = match branches_of(schema) {
        Some(arms) => arms,
        None => return None,
    };
    if arms.len() < 2 {
        return None;
    }
    let mut i: usize = 0;
    while i < arms.len()
        invariant
            2 <= arms.len(),
            i <= arms.len(),
            branch_list(schema.json()) == Some(Json::List(json::jsons(arms@))),
            null_arm_from(root.fields(), json::jsons(arms@), 0) == null_arm_from(
                root.fields(),
                json::jsons(arms@),
                i as int,
            ),
        decreases arms.len() - i,
    {
        assert(json::jsons(arms@)[i as int] == arms@[i as int].json());
        if is_null_branch(deref(root, &arms[i])) {
            return Some(i);
        }
        i += 1;
    }
    None
}

// ---------------------------------------------------------------------------
// Rewriting
// ---------------------------------------------------------------------------

/// The key under which a node lists its branches.
pub open spec fn arms_key(fields: Seq<(Seq<char>, Json)>) -> Seq<char> {
    if json::has_field(fields, "anyOf"@) {
        "anyOf"@
    } else {
        "oneOf"@
    }
}

/// The branches that are not null.
pub open spec fn value_arms(arms: Seq<Json>) -> Seq<Json> {
    arms.filter(|arm: Json| !null_arm(arm))
}

/// The first `count` fields, all but those under `key`, set on top of `base`.
pub open spec fn absorbed(
    base: Seq<(Seq<char>, Json)>,
    fields: Seq<(Seq<char>, Json)>,
    key: Seq<char>,
    count: int,
) -> Seq<(Seq<char>, Json)>
    decreases count,
{
    if count <= 0 {
        base
    } else {
        let before = absorbed(base, fields, key, count - 1);
        if fields[count - 1].0 == key {
            before
        } else {
            json::with_field(before, fields[count - 1].0, fields[count - 1].1)
        }
    }
}

/// An object without a `default` of null.
pub open spec fn without_null_default(
    fields: Seq<(Seq<char>, Json)>,
) -> Seq<(Seq<char>, Json)> {
    if json::field(fields, "default"@) == Some(Json::Null) {
        json::without_field(fields, "default"@)
    } else {
        fields
    }
}

/// A lone value branch taking the place of the node that listed it: it takes on
/// the node's other keywords, and a default of null goes.
pub open spec fn merged(
    branch: Seq<(Seq<char>, Json)>,
    fields: Seq<(Seq<char>, Json)>,
) -> Seq<(Seq<char>, Json)> {
    without_null_default(absorbed(branch, fields, arms_key(fields), fields.len() as int))
}

/// A node whose branch list has exactly one null branch, with that branch
/// folded away; nothing where the node is to be left alone.
pub open spec fn folded(fields: Seq<(Seq<char>, Json)>) -> Option<Seq<(Seq<char>, Json)>> {
    match json::field(fields, arms_key(fields)) {
        Some(Json::List(arms)) => {
            let kept = value_arms(arms);
            if arms.len() - kept.len() != 1 || kept.len() == 0 {
                None
            } else if kept.len() > 1 {
                Some(json::with_field(fields, arms_key(fields), Json::List(kept)))
            } else {
                match kept[0] {
                    Json::Object(branch) => Some(merged(branch, fields)),
                    Json::Bool(true) => Some(merged(Seq::empty(), fields)),
                    _ => None,
                }
            }
        },
        _ => None,
    }
}

/// The members of a `type` list that are not null.
pub open spec fn value_types(items: Seq<Json>) -> Seq<Json> {
    items.filter(|item: Json| item != Json::Text("null"@))
}

/// A node whose `type` list no longer mentions null.
pub open spec fn flattened(fields: Seq<(Seq<char>, Json)>) -> Seq<(Seq<char>, Json)> {
    match json::field(fields, "type"@) {
        Some(Json::List(items)) => if items.contains(Json::Text("null"@)) {
            let kept = value_types(items);
            if kept.len() == 0 {
                json::without_field(fields, "type"@)
            } else if kept.len() == 1 {
                json::with_field(fields, "type"@, kept[0])
            } else {
                json::with_field(fields, "type"@, Json::List(kept))
            }
        } else {
            fields
        },
        _ => fields,
    }
}

/// A node with its null branch folded away, where it has one to fold.
pub open spec fn opened(fields: Seq<(Seq<char>, Json)>) -> Seq<(Seq<char>, Json)> {
    match folded(fields) {
        Some(replacement) => replacement,
        None => fields,
    }
}

/// One node as it is published, before its children are.
pub open spec fn published(fields: Seq<(Seq<char>, Json)>) -> Seq<(Seq<char>, Json)> {
    flattened(json::without_field(opened(fields), "$schema"@))
}

/// Whether a node's `type` list mentions null.
pub open spec fn null_typed(fields: Seq<(Seq<char>, Json)>) -> bool {
    match json::field(fields, "type"@) {
        Some(Json::List(items)) => items.contains(Json::Text("null"@)),
        _ => false,
    }
}

/// Whether publishing has anything to change in a node.
pub open spec fn unpublished(fields: Seq<(Seq<char>, Json)>) -> bool {
    folded(fields) is Some || json::has_field(opened(fields), "$schema"@) || null_typed(
        json::without_field(opened(fields), "$schema"@),
    )
}

/// A schema with every node published once, from the root down.
pub open spec fn rewritten(schema: Json) -> Json
    decreases weight::weight(schema),
{
    match schema {
        Json::Object(fields) => {
            let node = published(fields);
            Json::Object(
                Seq::new(
                    node.len(),
                    |i: int|
                        if 0 <= i < node.len() {
                            proof {
                                published_weight(fields);
                                weight::field_weight(node, i);
                            }
                            (node[i].0, rewritten(node[i].1))
                        } else {
                            arbitrary()
                        },
                ),
            )
        },
        Json::List(items) => Json::List(
            Seq::new(
                items.len(),
                |i: int|
                    if 0 <= i < items.len() {
                        proof {
                            weight::item_weight(items, i);
                        }
                        rewritten(items[i])
                    } else {
                        arbitrary()
                    },
            ),
        ),
        _ => schema,
    }
}

/// A schema without its dialect markers.
pub open spec fn undialected(schema: Json) -> Json
    decreases weight::weight(schema),
{
    match schema {
        Json::Object(fields) => {
            let node = json::without_field(fields, "$schema"@);
            Json::Object(
                Seq::new(
                    node.len(),
                    |i: int|
                        if 0 <= i < node.len() {
                            proof {
                                weight::removed_weight(fields, "$schema"@);
                                weight::field_weight(node, i);
                            }
                            (node[i].0, undialected(node[i].1))
                        } else {
                            arbitrary()
                        },
                ),
            )
        },
        Json::List(items) => Json::List(
            Seq::new(
                items.len(),
                |i: int|
                    if 0 <= i < items.len() {
                        proof {
                            weight::item_weight(items, i);
                        }
                        undialected(items[i])
                    } else {
                        arbitrary()
                    },
            ),
        ),
        _ => schema,
    }
}

proof fn absorbed_weight(
    base: Seq<(Seq<char>, Json)>,
    fields: Seq<(Seq<char>, Json)>,
    key: Seq<char>,
    count: int,
)
    requires
        0 <= count <= fields.len(),
    ensures
        weight::total_fields(absorbed(base, fields, key, count)) <= weight::total_fields(base) + weight::total_fields(
            fields.take(count),
        ),
        json::position_from(fields, key, 0) < count ==> weight::total_fields(absorbed(base, fields, key, count))
            + weight::weight(fields[json::position_from(fields, key, 0)].1) <= weight::total_fields(base) + weight::total_fields(
            fields.take(count),
        ),
    decreases count,
{
    json::position_bounds(fields, key, 0);
    if count > 0 {
        absorbed_weight(base, fields, key, count - 1);
        let before = absorbed(base, fields, key, count - 1);
        weight::added_weight(before, fields[count - 1].0, fields[count - 1].1);
        assert(fields.take(count).drop_last() =~= fields.take(count - 1));
        assert(fields.take(count).last() == fields[count - 1]);
    }
}

proof fn merged_weight(branch: Seq<(Seq<char>, Json)>, fields: Seq<(Seq<char>, Json)>)
    requires
        json::has_field(fields, arms_key(fields)),
    ensures
        weight::total_fields(merged(branch, fields)) + weight::weight(json::field(fields, arms_key(fields))->0)
            <= weight::total_fields(branch) + weight::total_fields(fields),
{
    let key = arms_key(fields);
    let all = absorbed(branch, fields, key, fields.len() as int);
    absorbed_weight(branch, fields, key, fields.len() as int);
    assert(fields.take(fields.len() as int) =~= fields);
    weight::removed_weight(all, "default"@);
}

/// Publishing a node adds no weight, and takes some off where it changes anything.
pub proof fn published_weight(fields: Seq<(Seq<char>, Json)>)
    ensures
        weight::total_fields(published(fields)) <= weight::total_fields(fields),
        unpublished(fields) ==> weight::total_fields(published(fields)) < weight::total_fields(
            fields,
        ),
        !unpublished(fields) ==> published(fields) == fields,
{
    let open = opened(fields);
    if folded(fields) is Some {
        assert(weight::total_fields(open) < weight::total_fields(fields)) by {
            let key = arms_key(fields);
            let arms = json::field(fields, key)->0->List_0;
            let kept = value_arms(arms);
            weight::kept_weight(arms, |arm: Json| !null_arm(arm));
            weight::added_weight(fields, key, Json::List(kept));
            if kept.len() == 1 {
                weight::item_weight(kept, 0);
                match kept[0] {
                    Json::Object(branch) => merged_weight(branch, fields),
                    _ => merged_weight(Seq::empty(), fields),
                }
            }
        }
    }
    let bare = json::without_field(open, "$schema"@);
    weight::removed_weight(open, "$schema"@);
    if let Some(Json::List(items)) = json::field(bare, "type"@) {
        let kept = value_types(items);
        let keep = |item: Json| item != Json::Text("null"@);
        weight::kept_weight(items, keep);
        if items.contains(Json::Text("null"@)) {
            let i = choose|i: int| 0 <= i < items.len() && items[i] == Json::Text("null"@);
            assert(!keep(items[i]));
        }
        weight::removed_weight(bare, "type"@);
        weight::added_weight(bare, "type"@, Json::List(kept));
        if kept.len() == 1 {
            weight::item_weight(kept, 0);
            weight::added_weight(bare, "type"@, kept[0]);
        }
    }
}

/// The number of null branches among the first ones, and what is left of them.
fn value_branches(arms: &Vec<JsonValue>) -> (res: Vec<JsonValue>)
    ensures
        json::jsons(res@) == value_arms(json::jsons(arms@)),
{
    let mut kept: Vec<JsonValue> = Vec::new();
    let ghost all = json::jsons(arms@);
    let ghost keep = |arm: Json| !null_arm(arm);
    let mut i: usize = 0;
    assert(all.take(0) =~= Seq::<Json>::empty());
    assert(json::jsons(kept@) =~= all.take(0).filter(keep)) by {
        reveal(Seq::filter);
    }
    while i < arms.len()
        invariant
            i <= arms.len(),
            all == json::jsons(arms@),
            keep == (|arm: Json| !null_arm(arm)),
            json::jsons(kept@) == all.take(i as int).filter(keep),
        decreases arms.len() - i,
    {
        let ghost former = kept@;
        assert(all.take(i + 1).drop_last() =~= all.take(i as int));
        assert(all.take(i + 1).last() == arms@[i as int].json());
        proof {
            reveal(Seq::filter);
        }
        if !is_null_branch(&arms[i]) {
            kept.push(arms[i].clone());
            assert(json::jsons(kept@) =~= json::jsons(former).push(arms@[i as int].json()));
        }
        i += 1;
    }
    assert(all.take(all.len() as int) =~= all);
    kept
}

/// Folds a branch list with exactly one null branch down to what it is saying,
/// or leaves the node alone.
///
/// A lone value branch is the field, so it absorbs the node's other keywords and
/// replaces it; several value branches are a union, so only the null branch goes
/// and the union stays.
fn collapse_null_branch(schema: &Fields) -> (res: Option<Fields>)
    ensures
        match res {
            Some(replacement) => folded(schema.fields()) == Some(replacement.fields()),
            None => folded(schema.fields()) is None,
        },
{
    let key = if schema.contains_key("anyOf") {
        "anyOf"
    } else {
        "oneOf"
    };
    let arms = match schema.get(key) {
        Some(list) => match list.as_array() {
            Some(arms) => arms,
            None => return None,
        },
        None => return None,
    };
    let kept = value_branches(arms);
    assert(json::jsons(kept@).len() == kept@.len());
    proof {
        json::jsons(arms@).lemma_filter_len(|arm: Json| !null_arm(arm));
    }
    if arms.len() - kept.len() != 1 || kept.len() == 0 {
        return None;
    }
    if kept.len() > 1 {
        let mut replacement = schema.clone();
        proof {
            JsonValue::list_json(kept);
        }
        replacement.insert(key.to_owned(), JsonValue::List(kept));
        return Some(replacement);
    }
    assert(json::jsons(kept@)[0] == kept@[0].json());
    let mut replacement = match &kept[0] {
        JsonValue::Object(branch) => branch.clone(),
        JsonValue::Bool(true) => Fields::new(),
        _ => {
            proof {
                kept@[0].kinds();
            }
            return None;
        },
    };
    let ghost base = replacement.fields();
    let mut i: usize = 0;
    while i < schema.len()
        invariant
            i <= schema.fields().len(),
            replacement.fields() == absorbed(base, schema.fields(), key@, i as int),
        decreases schema.fields().len() - i,
    {
        if !same(schema.key(i), key) {
            replacement.insert(schema.key(i).to_owned(), schema.value(i).clone());
        }
        i += 1;
    }
    let null_default = match replacement.get("default") {
        Some(value) => value.is_null(),
        None => false,
    };
    if null_default {
        let _ = replacement.remove("default");
    }
    Some(replacement)
}

/// Flattens `type: ["X", "null"]` to `type: "X"`.
///
/// A `type` list of nothing but nulls loses the keyword: `{}` is the honest
/// schema for a field that carries no value, and `type: []` matches nothing. Says
/// whether there was anything to flatten.
fn collapse_nullable_type_array(schema: &mut Fields) -> (res: bool)
    ensures
        final(schema).fields() == flattened(old(schema).fields()),
        res == null_typed(old(schema).fields()),
{
    let mut kept: Vec<JsonValue> = Vec::new();
    match schema.get("type") {
        Some(declared) => match declared.as_array() {
            Some(items) => {
                if !has_null_name(items) {
                    return false;
                }
                kept = value_names(items);
            },
            None => return false,
        },
        None => return false,
    }
    assert(json::jsons(kept@).len() == kept@.len());
    if kept.len() == 0 {
        let _ = schema.remove("type");
    } else if kept.len() == 1 {
        assert(json::jsons(kept@)[0] == kept@[0].json());
        schema.insert("type".to_owned(), kept[0].clone());
    } else {
        proof {
            JsonValue::list_json(kept);
        }
        schema.insert("type".to_owned(), JsonValue::List(kept));
    }
    true
}

fn value_names(items: &Vec<JsonValue>) -> (res: Vec<JsonValue>)
    ensures
        json::jsons(res@) == value_types(json::jsons(items@)),
{
    let mut kept: Vec<JsonValue> = Vec::new();
    let ghost all = json::jsons(items@);
    let ghost keep = |item: Json| item != Json::Text("null"@);
    let mut i: usize = 0;
    assert(all.take(0) =~= Seq::<Json>::empty());
    assert(json::jsons(kept@) =~= all.take(0).filter(keep)) by {
        reveal(Seq::filter);
    }
    while i < items.len()
        invariant
            i <= items.len(),
            all == json::jsons(items@),
            keep == (|item: Json| item != Json::Text("null"@)),
            json::jsons(kept@) == all.take(i as int).filter(keep),
        decreases items.len() - i,
    {
        let ghost former = kept@;
        assert(all.take(i + 1).drop_last() =~= all.take(i as int));
        assert(all.take(i + 1).last() == items@[i as int].json());
        proof {
            reveal(Seq::filter);
        }
        let named_null = match items[i].as_str() {
            Some(name) => same(name, "null"),
            None => false,
        };
        if !named_null {
            kept.push(items[i].clone());
            assert(json::jsons(kept@) =~= json::jsons(former).push(items@[i as int].json()));
        }
        i += 1;
    }
    assert(all.take(all.len() as int) =~= all);
    kept
}

/// Publishes one node, and says whether that changed anything.
fn publish(schema: &Fields) -> (res: (Fields, bool))
    ensures
        res.0.fields() == published(schema.fields()),
        res.1 == unpublished(schema.fields()),
{
    let (mut node, folds) = match collapse_null_branch(schema) {
        Some(replacement) => (replacement, true),
        None => (schema.clone(), false),
    };
    let declares = node.contains_key("$schema");
    let _ = node.remove("$schema");
    let flattens = collapse_nullable_type_array(&mut node);
    (node, folds || declares || flattens)
}

/// The items of a list, each rewritten once.
pub open spec fn rewritten_items(items: Seq<Json>) -> Seq<Json> {
    Seq::new(items.len(), |i: int| rewritten(items[i]))
}

/// The fields of an object, each value rewritten once.
pub open spec fn rewritten_fields(
    fields: Seq<(Seq<char>, Json)>,
) -> Seq<(Seq<char>, Json)> {
    Seq::new(fields.len(), |i: int| (fields[i].0, rewritten(fields[i].1)))
}

/// An object is rewritten to its published node with each value rewritten.
pub proof fn rewritten_object(fields: Seq<(Seq<char>, Json)>)
    ensures
        rewritten(Json::Object(fields)) == Json::Object(rewritten_fields(published(fields))),
{
    reveal_with_fuel(rewritten, 2);
    let node = published(fields);
    assert(rewritten(Json::Object(fields))->Object_0 =~= rewritten_fields(node));
}

/// A list is rewritten item by item.
pub proof fn rewritten_list(items: Seq<Json>)
    ensures
        rewritten(Json::List(items)) == Json::List(rewritten_items(items)),
{
    reveal_with_fuel(rewritten, 2);
    assert(rewritten(Json::List(items))->List_0 =~= rewritten_items(items));
}

/// Rewriting adds no weight, and takes some off where it changes anything.
pub proof fn rewritten_weight(doc: Json)
    ensures
        weight::weight(rewritten(doc)) <= weight::weight(doc),
        rewritten(doc) != doc ==> weight::weight(rewritten(doc)) < weight::weight(doc),
    decreases weight::weight(doc),
{
    match doc {
        Json::Object(fields) => {
            let node = published(fields);
            let after = rewritten_fields(node);
            rewritten_object(fields);
            published_weight(fields);
            assert forall|i: int| 0 <= i < after.len() implies weight::weight(
                (#[trigger] after[i]).1,
            ) <= weight::weight(node[i].1) by {
                weight::field_weight(node, i);
                rewritten_weight(node[i].1);
            }
            weight::lighter_fields(after, node);
            if !unpublished(fields) && after != fields {
                let i = different_field(after, fields);
                weight::field_weight(node, i);
                rewritten_weight(node[i].1);
                assert(weight::weight(after[i].1) < weight::weight(node[i].1));
            }
        },
        Json::List(items) => {
            rewritten_list(items);
            let after = rewritten_items(items);
            assert forall|i: int| 0 <= i < after.len() implies weight::weight(
                #[trigger] after[i],
            ) <= weight::weight(items[i]) by {
                weight::item_weight(items, i);
                rewritten_weight(items[i]);
            }
            weight::lighter_items(after, items);
            if after != items {
                if forall|i: int| 0 <= i < items.len() ==> after[i] == items[i] {
                    assert(after =~= items);
                }
                let i = choose|i: int| 0 <= i < items.len() && after[i] != items[i];
                weight::item_weight(items, i);
                rewritten_weight(items[i]);
                assert(weight::weight(after[i]) < weight::weight(items[i]));
            }
        },
        _ => {},
    }
}

/// Where two objects with the same names differ.
proof fn different_field(a: Seq<(Seq<char>, Json)>, b: Seq<(Seq<char>, Json)>) -> (at: int)
    requires
        a != b,
        a.len() == b.len(),
        forall|i: int| 0 <= i < a.len() ==> (#[trigger] a[i]).0 == b[i].0,
    ensures
        0 <= at < a.len(),
        a[at].1 != b[at].1,
{
    if forall|i: int| 0 <= i < a.len() ==> (#[trigger] a[i]).1 == b[i].1 {
        assert(a =~= b);
    }
    choose|i: int| 0 <= i < a.len() && (#[trigger] a[i]).1 != b[i].1
}

/// A schema as it is published: rewritten until nothing is left to rewrite.
pub open spec fn normalized(schema: Json) -> Json
    decreases weight::weight(schema),
{
    let next = rewritten(schema);
    if next == schema {
        schema
    } else {
        proof {
            rewritten_weight(schema);
        }
        normalized(next)
    }
}

/// An object with each value rewritten, and whether any of them changed.
fn rewrite_fields(node: &Fields) -> (res: (Fields, bool))
    ensures
        res.0.fields() == rewritten_fields(node.fields()),
        res.1 == (rewritten_fields(node.fields()) != node.fields()),
    decreases weight::total_fields(node.fields()), 1int,
{
    let mut out: Vec<(String, JsonValue)> = Vec::new();
    let mut changed = false;
    let mut i: usize = 0;
    while i < node.len()
        invariant
            i <= node.fields().len(),
            out@.len() == i,
            forall|j: int| 0 <= j < i ==> #[trigger] out@[j].0@ == node.fields()[j].0,
            forall|j: int|
                0 <= j < i ==> #[trigger] out@[j].1.json() == rewritten(node.fields()[j].1),
            changed == exists|j: int|
                0 <= j < i && rewritten((#[trigger] node.fields()[j]).1) != node.fields()[j].1,
        decreases node.fields().len() - i,
    {
        proof {
            weight::field_weight(node.fields(), i as int);
        }
        let (value, differs) = rewrite(node.value(i));
        out.push((node.key(i).to_owned(), value));
        if differs {
            assert(rewritten(node.fields()[i as int].1) != node.fields()[i as int].1);
            changed = true;
        }
        i += 1;
    }
    proof {
        use_type_invariant(node);
    }
    let res = Fields::from_entries(out);
    assert(res.fields() =~= rewritten_fields(node.fields()));
    proof {
        let after = rewritten_fields(node.fields());
        if after != node.fields() {
            let at = different_field(after, node.fields());
            assert(rewritten(node.fields()[at].1) != node.fields()[at].1);
        } else if changed {
            let at = choose|j: int|
                0 <= j < node.fields().len() && rewritten((#[trigger] node.fields()[j]).1)
                    != node.fields()[j].1;
            assert(after[at].1 != node.fields()[at].1);
        }
    }
    (res, changed)
}

/// An object rewritten once, and whether that changed anything.
fn rewrite_object(fields: &Fields) -> (res: (Fields, bool))
    ensures
        rewritten(Json::Object(fields.fields())) == Json::Object(res.0.fields()),
        res.1 == (res.0.fields() != fields.fields()),
    decreases weight::total_fields(fields.fields()), 2int,
{
    let (node, unsettled) = publish(fields);
    proof {
        published_weight(fields.fields());
    }
    let (res, changed) = rewrite_fields(&node);
    proof {
        rewritten_object(fields.fields());
        if unsettled {
            let after = rewritten_fields(node.fields());
            assert forall|i: int| 0 <= i < after.len() implies weight::weight(
                (#[trigger] after[i]).1,
            ) <= weight::weight(node.fields()[i].1) by {
                rewritten_weight(node.fields()[i].1);
            }
            weight::lighter_fields(after, node.fields());
        }
    }
    (res, unsettled || changed)
}

/// A schema rewritten once, and whether that changed anything.
fn rewrite(schema: &JsonValue) -> (res: (JsonValue, bool))
    ensures
        res.0.json() == rewritten(schema.json()),
        res.1 == (rewritten(schema.json()) != schema.json()),
    decreases weight::weight(schema.json()), 0int,
{
    match schema {
        JsonValue::Object(fields) => {
            let (res, changed) = rewrite_object(fields);
            (JsonValue::Object(res), changed)
        },
        JsonValue::List(items) => {
            let mut out: Vec<JsonValue> = Vec::new();
            proof {
                JsonValue::list_json(*items);
            }
            let ghost all = json::jsons(items@);
            let mut changed = false;
            let mut i: usize = 0;
            while i < items.len()
                invariant
                    i <= items.len(),
                    all == json::jsons(items@),
                    schema.json() == Json::List(all),
                    out@.len() == i,
                    forall|j: int| 0 <= j < i ==> #[trigger] out@[j].json() == rewritten(all[j]),
                    changed == exists|j: int| 0 <= j < i && rewritten(#[trigger] all[j]) != all[j],
                decreases items.len() - i,
            {
                proof {
                    weight::item_weight(all, i as int);
                    assert(all[i as int] == items@[i as int].json());
                }
                let (value, differs) = rewrite(&items[i]);
                out.push(value);
                if differs {
                    assert(rewritten(all[i as int]) != all[i as int]);
                    changed = true;
                }
                i += 1;
            }
            proof {
                JsonValue::list_json(out);
                rewritten_list(all);
                assert(json::jsons(out@) =~= rewritten_items(all));
                let after = rewritten_items(all);
                if changed {
                    let at = choose|j: int|
                        0 <= j < all.len() && rewritten(#[trigger] all[j]) != all[j];
                    assert(after[at] != all[at]);
                } else {
                    assert(after =~= all);
                }
            }
            (JsonValue::List(out), changed)
        },
        _ => {
            proof {
                schema.kinds();
            }
            (schema.clone(), false)
        },
    }
}

/// An object rewritten until nothing is left to rewrite.
fn normalize_fields(fields: &Fields) -> (res: Fields)
    ensures
        normalized(Json::Object(fields.fields())) == Json::Object(res.fields()),
    decreases weight::total_fields(fields.fields()),
{
    let (next, changed) = rewrite_object(fields);
    if changed {
        proof {
            rewritten_weight(Json::Object(fields.fields()));
        }
        normalize_fields(&next)
    } else {
        next
    }
}

/// A schema rewritten until nothing is left to rewrite.
fn normalize(schema: &JsonValue) -> (res: JsonValue)
    ensures
        res.json() == normalized(schema.json()),
    decreases weight::weight(schema.json()),
{
    let (next, changed) = rewrite(schema);
    if changed {
        proof {
            rewritten_weight(schema.json());
        }
        normalize(&next)
    } else {
        next
    }
}

/// Rewrites an input schema into the shape that is advertised.
///
/// * `$schema` goes: some clients reject a schema that declares its dialect.
/// * `anyOf: [T, {"type": "null"}]`, in either order, collapses to `T`, with the
///   sibling keywords of the node carried onto it. Optionality is expressed by
///   leaving the name out of `required`.
/// * `type: ["X", "null"]` flattens to `type: "X"`, for the same reason.
///
/// Everything else is preserved, and normalizing a second time changes nothing: an
/// optional inside an optional is collapsed until none is left.
pub fn normalize_input(schema: &mut JsonValue)
    ensures
        final(schema).json() == normalized(old(schema).json()),
{
    let settled = normalize(schema);
    *schema = settled;
}

/// The items of a list, each without its dialect markers.
pub open spec fn undialected_items(items: Seq<Json>) -> Seq<Json> {
    Seq::new(items.len(), |i: int| undialected(items[i]))
}

/// The fields of an object, each value without its dialect markers.
pub open spec fn undialected_fields(
    fields: Seq<(Seq<char>, Json)>,
) -> Seq<(Seq<char>, Json)> {
    Seq::new(fields.len(), |i: int| (fields[i].0, undialected(fields[i].1)))
}

pub proof fn undialected_object(fields: Seq<(Seq<char>, Json)>)
    ensures
        undialected(Json::Object(fields)) == Json::Object(
            undialected_fields(json::without_field(fields, "$schema"@)),
        ),
{
    reveal_with_fuel(undialected, 2);
    let node = json::without_field(fields, "$schema"@);
    assert(undialected(Json::Object(fields))->Object_0 =~= undialected_fields(node));
}

pub proof fn undialected_list(items: Seq<Json>)
    ensures
        undialected(Json::List(items)) == Json::List(undialected_items(items)),
{
    reveal_with_fuel(undialected, 2);
    assert(undialected(Json::List(items))->List_0 =~= undialected_items(items));
}

fn undialect(schema: &JsonValue) -> (res: JsonValue)
    ensures
        res.json() == undialected(schema.json()),
    decreases weight::weight(schema.json()),
{
    match schema {
        JsonValue::Object(fields) => {
            let mut node = fields.clone();
            let _ = node.remove("$schema");
            let ghost bare = node.fields();
            proof {
                weight::removed_weight(fields.fields(), "$schema"@);
            }
            let mut out: Vec<(String, JsonValue)> = Vec::new();
            let mut i: usize = 0;
            while i < node.len()
                invariant
                    i <= node.fields().len(),
                    bare == node.fields(),
                    weight::total_fields(bare) < weight::weight(schema.json()),
                    out@.len() == i,
                    forall|j: int| 0 <= j < i ==> #[trigger] out@[j].0@ == bare[j].0,
                    forall|j: int|
                        0 <= j < i ==> #[trigger] out@[j].1.json() == undialected(bare[j].1),
                decreases node.fields().len() - i,
            {
                proof {
                    weight::field_weight(bare, i as int);
                }
                out.push((node.key(i).to_owned(), undialect(node.value(i))));
                i += 1;
            }
            proof {
                use_type_invariant(&node);
            }
            let res = Fields::from_entries(out);
            proof {
                undialected_object(fields.fields());
                assert(res.fields() =~= undialected_fields(bare));
            }
            JsonValue::Object(res)
        },
        JsonValue::List(items) => {
            let mut out: Vec<JsonValue> = Vec::new();
            proof {
                JsonValue::list_json(*items);
            }
            let ghost all = json::jsons(items@);
            let mut i: usize = 0;
            while i < items.len()
                invariant
                    i <= items.len(),
                    all == json::jsons(items@),
                    schema.json() == Json::List(all),
                    out@.len() == i,
                    forall|j: int| 0 <= j < i ==> #[trigger] out@[j].json() == undialected(all[j]),
                decreases items.len() - i,
            {
                proof {
                    weight::item_weight(all, i as int);
                    assert(all[i as int] == items@[i as int].json());
                }
                out.push(undialect(&items[i]));
                i += 1;
            }
            proof {
                JsonValue::list_json(out);
                undialected_list(all);
                assert(json::jsons(out@) =~= undialected_items(all));
            }
            JsonValue::List(out)
        },
        _ => {
            proof {
                schema.kinds();
            }
            schema.clone()
        },
    }
}

/// Drops the `$schema` key throughout, and nothing else.
///
/// This is what an output schema gets: a response that says `null` for a missing
/// part is correct, so the null branches stay.
pub fn strip_dialect(schema: &mut JsonValue)
    ensures
        final(schema).json() == undialected(old(schema).json()),
{
    let rewritten = undialect(schema);
    *schema = rewritten;
}

/// A tool with both its schemas as they are published.
pub open spec fn published_tool(tool: ToolView) -> ToolView {
    ToolView {
        input: normalized(Json::Object(tool.input))->Object_0,
        output: match tool.output {
            Some(fields) => Some(undialected(Json::Object(fields))->Object_0),
            None => None,
        },
        ..tool
    }
}

/// Both schemas a tool advertises, rewritten in place.
pub fn normalize_tool(tool: &mut Tool)
    ensures
        final(tool)@ == published_tool(old(tool)@),
{
    tool.input_schema = normalize_fields(&tool.input_schema);
    let rewritten = match &tool.output_schema {
        Some(fields) => {
            let ghost output = fields.fields();
            match undialect(&JsonValue::Object(fields.clone())) {
                JsonValue::Object(rewritten) => Some(rewritten),
                other => {
                    proof {
                        undialected_object(output);
                        other.kinds();
                    }
                    None
                },
            }
        },
        None => None,
    };
    tool.output_schema = rewritten;
}

} // verus!
