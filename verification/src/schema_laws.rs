//! What holds of the schema rewriting as a whole.

use vstd::prelude::*;

use crate::json;
use crate::json::Json;
use crate::schema;
use crate::weight;

verus! {

/// No object in the document has a field of this name.
pub open spec fn free_of(doc: Json, key: Seq<char>) -> bool
    decreases doc,
{
    match doc {
        Json::List(items) => forall|i: int|
            0 <= i < items.len() ==> free_of(#[trigger] items[i], key),
        Json::Object(fields) => !json::has_field(fields, key) && (forall|i: int|
            0 <= i < fields.len() ==> free_of((#[trigger] fields[i]).1, key)),
        _ => true,
    }
}

/// Every value of an object has a property.
spec fn all_values(fields: Seq<(Seq<char>, Json)>, holds: spec_fn(Json) -> bool) -> bool {
    forall|i: int| 0 <= i < fields.len() ==> holds((#[trigger] fields[i]).1)
}

proof fn set_all_values(
    fields: Seq<(Seq<char>, Json)>,
    key: Seq<char>,
    value: Json,
    holds: spec_fn(Json) -> bool,
)
    requires
        all_values(fields, holds),
    ensures
        holds(value) ==> all_values(json::with_field(fields, key, value), holds),
        all_values(json::without_field(fields, key), holds),
{
    json::position_bounds(fields, key, 0);
    let at = json::position_from(fields, key, 0);
    let after = json::with_field(fields, key, value);
    if holds(value) {
        assert forall|i: int| 0 <= i < after.len() implies holds((#[trigger] after[i]).1) by {
            if at < fields.len() {
                if i != at {
                    assert(after[i] == fields[i]);
                }
            } else {
                let slot = json::slot_from(fields, key, 0);
                if i < slot {
                    assert(after[i] == fields[i]);
                } else if i > slot {
                    assert(after[i] == fields[i - 1]);
                }
            }
        }
    }
    let less = json::without_field(fields, key);
    assert forall|i: int| 0 <= i < less.len() implies holds((#[trigger] less[i]).1) by {
        if at < fields.len() {
            if i < at {
                assert(less[i] == fields[i]);
            } else {
                assert(less[i] == fields[i + 1]);
            }
        } else {
            assert(less[i] == fields[i]);
        }
    }
}

proof fn absorbed_keeps(
    base: Seq<(Seq<char>, Json)>,
    fields: Seq<(Seq<char>, Json)>,
    key: Seq<char>,
    count: int,
    holds: spec_fn(Json) -> bool,
)
    requires
        0 <= count <= fields.len(),
        json::ordered(base),
        all_values(base, holds),
        all_values(fields, holds),
    ensures
        json::ordered(schema::absorbed(base, fields, key, count)),
        all_values(schema::absorbed(base, fields, key, count), holds),
    decreases count,
{
    if count > 0 {
        absorbed_keeps(base, fields, key, count - 1, holds);
        let before = schema::absorbed(base, fields, key, count - 1);
        json::set_field_ordered(before, fields[count - 1].0, fields[count - 1].1);
        set_all_values(before, fields[count - 1].0, fields[count - 1].1, holds);
    }
}

proof fn merged_keeps(
    branch: Seq<(Seq<char>, Json)>,
    fields: Seq<(Seq<char>, Json)>,
    holds: spec_fn(Json) -> bool,
)
    requires
        json::ordered(branch),
        json::ordered(fields),
        all_values(branch, holds),
        all_values(fields, holds),
    ensures
        json::ordered(schema::merged(branch, fields)),
        all_values(schema::merged(branch, fields), holds),
{
    let key = schema::arms_key(fields);
    let n = fields.len() as int;
    absorbed_keeps(branch, fields, key, n, holds);
    let all = schema::absorbed(branch, fields, key, n);
    json::unset_field(all, "default"@, "default"@);
    set_all_values(all, "default"@, Json::Null, holds);
}

proof fn filter_keeps(items: Seq<Json>, keep: spec_fn(Json) -> bool, holds: spec_fn(Json) -> bool)
    requires
        forall|i: int| 0 <= i < items.len() ==> holds(#[trigger] items[i]),
    ensures
        forall|i: int| 0 <= i < items.filter(keep).len() ==> holds(#[trigger] items.filter(keep)[i]),
        forall|i: int| 0 <= i < items.filter(keep).len() ==> keep(#[trigger] items.filter(keep)[i]),
    decreases items.len(),
{
    reveal(Seq::filter);
    if items.len() > 0 {
        assert forall|i: int| 0 <= i < items.drop_last().len() implies holds(
            #[trigger] items.drop_last()[i],
        ) by {
            assert(items.drop_last()[i] == items[i]);
        }
        filter_keeps(items.drop_last(), keep, holds);
        assert(holds(items[items.len() - 1]));
        let before = items.drop_last().filter(keep);
        let after = items.filter(keep);
        assert forall|i: int| 0 <= i < after.len() implies holds(#[trigger] after[i]) && keep(
            after[i],
        ) by {
            if i < before.len() {
                assert(after[i] == before[i]);
            }
        }
    }
}

/// A property that lists and objects pass on to what they hold, and get from it.
spec fn inherited(holds: spec_fn(Json) -> bool) -> bool {
    &&& forall|items: Seq<Json>|
        #![trigger holds(Json::List(items))]
        holds(Json::List(items)) <==> (forall|i: int|
            0 <= i < items.len() ==> holds(#[trigger] items[i]))
    &&& forall|fields: Seq<(Seq<char>, Json)>|
        #![trigger holds(Json::Object(fields))]
        holds(Json::Object(fields)) ==> json::ordered(fields) && all_values(fields, holds)
}

/// Publishing a node keeps its keys in order and keeps every inherited property
/// of its values.
proof fn published_keeps(fields: Seq<(Seq<char>, Json)>, holds: spec_fn(Json) -> bool)
    requires
        inherited(holds),
        json::ordered(fields),
        all_values(fields, holds),
    ensures
        json::ordered(schema::published(fields)),
        all_values(schema::published(fields), holds),
        !json::has_field(schema::published(fields), "$schema"@),
{
    let key = schema::arms_key(fields);
    let open = match schema::folded(fields) {
        Some(replacement) => replacement,
        None => fields,
    };
    assert(json::ordered(open) && all_values(open, holds)) by {
        if schema::folded(fields) is Some {
            json::position_bounds(fields, key, 0);
            let arms = json::field(fields, key)->0->List_0;
            assert(holds(Json::List(arms)));
            let kept = schema::value_arms(arms);
            filter_keeps(arms, |arm: Json| !schema::null_arm(arm), holds);
            assert(holds(Json::List(kept)));
            if kept.len() > 1 {
                json::set_field_ordered(fields, key, Json::List(kept));
                set_all_values(fields, key, Json::List(kept), holds);
            } else {
                assert(holds(kept[0]));
                match kept[0] {
                    Json::Object(branch) => merged_keeps(branch, fields, holds),
                    _ => merged_keeps(Seq::empty(), fields, holds),
                }
            }
        }
    }
    let bare = json::without_field(open, "$schema"@);
    json::unset_field(open, "$schema"@, "$schema"@);
    set_all_values(open, "$schema"@, Json::Null, holds);
    reveal_strlit("type");
    reveal_strlit("$schema");
    assert("type"@ != "$schema"@) by {
        assert("type"@.len() != "$schema"@.len());
    }
    json::unset_field(bare, "type"@, "$schema"@);
    set_all_values(bare, "type"@, Json::Null, holds);
    if let Some(Json::List(items)) = json::field(bare, "type"@) {
        json::position_bounds(bare, "type"@, 0);
        assert(holds(Json::List(items)));
        let kept = schema::value_types(items);
        filter_keeps(items, |item: Json| item != Json::Text("null"@), holds);
        assert(holds(Json::List(kept)));
        if kept.len() > 0 {
            let value = if kept.len() == 1 {
                kept[0]
            } else {
                Json::List(kept)
            };
            assert(holds(kept[0]));
            json::set_field(bare, "type"@, value, "$schema"@);
            json::set_field_ordered(bare, "type"@, value);
            set_all_values(bare, "type"@, value, holds);
        }
    }
}

proof fn list_well_ordered(items: Seq<Json>)
    ensures
        Json::List(items).well_ordered() <==> (forall|i: int|
            0 <= i < items.len() ==> (#[trigger] items[i]).well_ordered()),
{
    let doc = Json::List(items);
    if doc.well_ordered() {
        assert forall|i: int| 0 <= i < items.len() implies (#[trigger] items[i]).well_ordered() by {
            assert(doc->List_0[i].well_ordered());
        }
    }
    if forall|i: int| 0 <= i < items.len() ==> (#[trigger] items[i]).well_ordered() {
        assert(doc.well_ordered());
    }
}

proof fn well_ordered_inherited()
    ensures
        inherited(|doc: Json| doc.well_ordered()),
{
    let holds = |doc: Json| doc.well_ordered();
    assert forall|items: Seq<Json>|
        #![trigger holds(Json::List(items))]
        holds(Json::List(items)) <==> (forall|i: int|
            0 <= i < items.len() ==> holds(#[trigger] items[i])) by {
        list_well_ordered(items);
        if holds(Json::List(items)) {
            assert forall|i: int| 0 <= i < items.len() implies holds(#[trigger] items[i]) by {
                assert(items[i].well_ordered());
            }
        }
        if forall|i: int| 0 <= i < items.len() ==> holds(#[trigger] items[i]) {
            assert forall|i: int| 0 <= i < items.len() implies (
            #[trigger] items[i]).well_ordered() by {
                assert(holds(items[i]));
            }
        }
    }
    assert forall|fields: Seq<(Seq<char>, Json)>|
        #![trigger holds(Json::Object(fields))]
        holds(Json::Object(fields)) implies json::ordered(fields) && all_values(fields, holds) by {
        assert(Json::Object(fields).well_ordered());
        assert forall|i: int| 0 <= i < fields.len() implies holds((#[trigger] fields[i]).1) by {
            assert(fields[i].1.well_ordered());
        }
    }
}

/// Keys alone decide where a name is found.
proof fn same_keys(
    a: Seq<(Seq<char>, Json)>,
    b: Seq<(Seq<char>, Json)>,
    name: Seq<char>,
    from: int,
)
    requires
        a.len() == b.len(),
        forall|i: int| 0 <= i < a.len() ==> (#[trigger] a[i]).0 == b[i].0,
        0 <= from <= a.len(),
    ensures
        json::position_from(a, name, from) == json::position_from(b, name, from),
    decreases a.len() - from,
{
    if from < a.len() {
        assert(a[from].0 == b[from].0);
        same_keys(a, b, name, from + 1);
    }
}

/// Rewriting a schema keeps its objects in key order.
proof fn rewritten_well_ordered(doc: Json)
    requires
        doc.well_ordered(),
    ensures
        schema::rewritten(doc).well_ordered(),
    decreases weight::weight(doc),
{
    match doc {
        Json::Object(fields) => {
            let holds = |d: Json| d.well_ordered();
            well_ordered_inherited();
            assert(holds(doc));
            published_keeps(fields, holds);
            schema::published_weight(fields);
            schema::rewritten_object(fields);
            let node = schema::published(fields);
            let after = schema::rewritten_fields(node);
            assert forall|i: int| 0 <= i < after.len() implies (#[trigger] after[i]).1.well_ordered() by {
                weight::field_weight(node, i);
                assert(holds(node[i].1));
                rewritten_well_ordered(node[i].1);
            }
            assert forall|i: int, j: int| 0 <= i < j < after.len() implies crate::text::text_before(
                #[trigger] after[i].0,
                #[trigger] after[j].0,
            ) by {
                assert(after[i].0 == node[i].0 && after[j].0 == node[j].0);
            }
        },
        Json::List(items) => {
            schema::rewritten_list(items);
            let after = schema::rewritten_items(items);
            assert forall|i: int| 0 <= i < after.len() implies (#[trigger] after[i]).well_ordered() by {
                weight::item_weight(items, i);
                assert(items[i].well_ordered());
                rewritten_well_ordered(items[i]);
            }
        },
        _ => {},
    }
}

/// Normalizing a schema keeps its objects in key order.
pub proof fn normalized_stays_ordered(doc: Json)
    requires
        doc.well_ordered(),
    ensures
        schema::normalized(doc).well_ordered(),
    decreases weight::weight(doc),
{
    if schema::rewritten(doc) != doc {
        schema::rewritten_weight(doc);
        rewritten_well_ordered(doc);
        normalized_stays_ordered(schema::rewritten(doc));
    }
}

/// Dropping the dialect markers leaves none at any depth.
pub proof fn undialected_declares_no_dialect(doc: Json)
    requires
        doc.well_ordered(),
    ensures
        free_of(schema::undialected(doc), "$schema"@),
    decreases weight::weight(doc),
{
    match doc {
        Json::Object(fields) => {
            let node = json::without_field(fields, "$schema"@);
            let holds = |d: Json| d.well_ordered();
            well_ordered_inherited();
            assert(holds(doc));
            json::unset_field(fields, "$schema"@, "$schema"@);
            set_all_values(fields, "$schema"@, Json::Null, holds);
            weight::removed_weight(fields, "$schema"@);
            schema::undialected_object(fields);
            let after = schema::undialected_fields(node);
            same_keys(after, node, "$schema"@, 0);
            assert forall|i: int| 0 <= i < after.len() implies free_of(
                (#[trigger] after[i]).1,
                "$schema"@,
            ) by {
                weight::field_weight(node, i);
                assert(holds(node[i].1));
                undialected_declares_no_dialect(node[i].1);
            }
        },
        Json::List(items) => {
            schema::undialected_list(items);
            let after = schema::undialected_items(items);
            assert forall|i: int| 0 <= i < after.len() implies free_of(
                #[trigger] after[i],
                "$schema"@,
            ) by {
                weight::item_weight(items, i);
                assert(items[i].well_ordered());
                undialected_declares_no_dialect(items[i]);
            }
        },
        _ => {},
    }
}

/// Dropping the dialect markers changes nothing else: a schema without any is
/// left as it is.
pub proof fn undialected_drops_nothing_else(doc: Json)
    requires
        free_of(doc, "$schema"@),
    ensures
        schema::undialected(doc) == doc,
    decreases weight::weight(doc),
{
    match doc {
        Json::Object(fields) => {
            schema::undialected_object(fields);
            let after = schema::undialected_fields(fields);
            assert forall|i: int| 0 <= i < fields.len() implies after[i] == fields[i] by {
                weight::field_weight(fields, i);
                assert(free_of(fields[i].1, "$schema"@));
                undialected_drops_nothing_else(fields[i].1);
            }
            assert(after =~= fields);
        },
        Json::List(items) => {
            schema::undialected_list(items);
            let after = schema::undialected_items(items);
            assert forall|i: int| 0 <= i < items.len() implies after[i] == items[i] by {
                weight::item_weight(items, i);
                assert(free_of(items[i], "$schema"@));
                undialected_drops_nothing_else(items[i]);
            }
            assert(after =~= items);
        },
        _ => {},
    }
}

/// Every other field of the root survives, each with its own markers dropped.
pub proof fn undialected_keeps_fields(fields: Seq<(Seq<char>, Json)>, name: Seq<char>)
    requires
        json::ordered(fields),
        name != "$schema"@,
    ensures
        schema::undialected(Json::Object(fields)).get(name) == match json::field(fields, name) {
            Some(value) => Some(schema::undialected(value)),
            None => None,
        },
{
    let node = json::without_field(fields, "$schema"@);
    json::unset_field(fields, "$schema"@, name);
    schema::undialected_object(fields);
    json::position_bounds(node, name, 0);
    same_keys(schema::undialected_fields(node), node, name, 0);
}

// ---------------------------------------------------------------------------
// What normalizing settles
// ---------------------------------------------------------------------------

/// Nothing is left to publish at any depth: no null branch to fold, no dialect
/// marker and no null in a `type` list.
pub open spec fn settled(doc: Json) -> bool
    decreases doc,
{
    match doc {
        Json::Object(fields) => !schema::unpublished(fields) && forall|i: int|
            0 <= i < fields.len() ==> settled((#[trigger] fields[i]).1),
        Json::List(items) => forall|i: int| 0 <= i < items.len() ==> settled(#[trigger] items[i]),
        _ => true,
    }
}

/// A settled schema is one that rewriting leaves as it is.
proof fn settled_stays(doc: Json)
    ensures
        settled(doc) <==> schema::rewritten(doc) == doc,
    decreases weight::weight(doc),
{
    match doc {
        Json::Object(fields) => {
            let node = schema::published(fields);
            let after = schema::rewritten_fields(node);
            schema::published_weight(fields);
            schema::rewritten_object(fields);
            assert forall|i: int| 0 <= i < fields.len() implies (settled((#[trigger] fields[i]).1)
                <==> schema::rewritten(fields[i].1) == fields[i].1) by {
                weight::field_weight(fields, i);
                settled_stays(fields[i].1);
            }
            if schema::unpublished(fields) {
                assert forall|i: int| 0 <= i < after.len() implies weight::weight(
                    (#[trigger] after[i]).1,
                ) <= weight::weight(node[i].1) by {
                    schema::rewritten_weight(node[i].1);
                }
                weight::lighter_fields(after, node);
            } else if after == fields {
                assert forall|i: int| 0 <= i < fields.len() implies settled(
                    (#[trigger] fields[i]).1,
                ) by {
                    assert(after[i].1 == fields[i].1);
                }
            } else if settled(doc) {
                assert(after =~= fields);
            }
        },
        Json::List(items) => {
            let after = schema::rewritten_items(items);
            schema::rewritten_list(items);
            assert forall|i: int| 0 <= i < items.len() implies (settled(#[trigger] items[i])
                <==> schema::rewritten(items[i]) == items[i]) by {
                weight::item_weight(items, i);
                settled_stays(items[i]);
            }
            if after == items {
                assert forall|i: int| 0 <= i < items.len() implies settled(#[trigger] items[i]) by {
                    assert(after[i] == items[i]);
                }
            } else if settled(doc) {
                assert(after =~= items);
            }
        },
        _ => {},
    }
}

/// Normalizing leaves nothing to publish at any depth, however optionals are
/// nested in one another.
pub proof fn normalized_is_settled(doc: Json)
    ensures
        settled(schema::normalized(doc)),
    decreases weight::weight(doc),
{
    settled_stays(doc);
    if schema::rewritten(doc) != doc {
        schema::rewritten_weight(doc);
        normalized_is_settled(schema::rewritten(doc));
    }
}

/// Normalizing changes nothing in a settled schema.
pub proof fn settled_is_preserved(doc: Json)
    requires
        settled(doc),
    ensures
        schema::normalized(doc) == doc,
{
    settled_stays(doc);
}

/// Normalizing a second time changes nothing.
pub proof fn normalizing_is_idempotent(doc: Json)
    ensures
        schema::normalized(schema::normalized(doc)) == schema::normalized(doc),
{
    normalized_is_settled(doc);
    settled_is_preserved(schema::normalized(doc));
}

/// A settled schema declares no dialect at any depth.
proof fn settled_declares_no_dialect(doc: Json)
    requires
        settled(doc),
    ensures
        free_of(doc, "$schema"@),
    decreases doc,
{
    match doc {
        Json::Object(fields) => {
            assert forall|i: int| 0 <= i < fields.len() implies free_of(
                (#[trigger] fields[i]).1,
                "$schema"@,
            ) by {
                settled_declares_no_dialect(fields[i].1);
            }
        },
        Json::List(items) => {
            assert forall|i: int| 0 <= i < items.len() implies free_of(
                #[trigger] items[i],
                "$schema"@,
            ) by {
                settled_declares_no_dialect(items[i]);
            }
        },
        _ => {},
    }
}

/// A normalized schema declares no dialect at any depth.
pub proof fn normalized_declares_no_dialect(doc: Json)
    ensures
        free_of(schema::normalized(doc), "$schema"@),
{
    normalized_is_settled(doc);
    settled_declares_no_dialect(schema::normalized(doc));
}

/// A branch that says null only through a reference.
pub open spec fn refers_to_null(root: Seq<(Seq<char>, Json)>, arm: Json) -> bool {
    !schema::null_arm(arm) && schema::null_arm(schema::meant(root, arm))
}

proof fn null_arm_found(root: Seq<(Seq<char>, Json)>, arms: Seq<Json>, from: int)
    requires
        0 <= from,
        schema::null_arm_from(root, arms, from) is Some,
    ensures
        exists|i: int|
            from <= i < arms.len() && schema::null_arm(schema::meant(root, #[trigger] arms[i])),
    decreases arms.len() - from,
{
    if schema::null_arm(schema::meant(root, arms[from])) {
        assert(schema::null_arm(schema::meant(root, arms[from])));
    } else {
        null_arm_found(root, arms, from + 1);
    }
}

proof fn null_arm_dropped(arms: Seq<Json>, at: int)
    requires
        0 <= at < arms.len(),
        schema::null_arm(arms[at]),
    ensures
        schema::value_arms(arms).len() < arms.len(),
    decreases arms.len(),
{
    reveal(Seq::filter);
    let less = arms.drop_last();
    less.lemma_filter_len(|arm: Json| !schema::null_arm(arm));
    if at < less.len() {
        assert(less[at] == arms[at]);
        null_arm_dropped(less, at);
    }
}

/// What the scan flags is what the normalizer removes. In a node of a normalized
/// schema no `type` list mentions null, and a branch list still has a null branch
/// only where there is no single null branch to drop and keep a schema: one says
/// null through a reference, two or more say null, or all that is left beside null
/// is something else than a schema.
pub proof fn flagged_is_removed(root: Seq<(Seq<char>, Json)>, fields: Seq<(Seq<char>, Json)>)
    requires
        settled(Json::Object(fields)),
    ensures
        !schema::null_typed(fields),
        schema::null_position(root, Json::Object(fields)) is Some ==> {
            let arms = schema::branch_list(Json::Object(fields))->0->List_0;
            let kept = schema::value_arms(arms);
            ||| exists|i: int| 0 <= i < arms.len() && refers_to_null(root, #[trigger] arms[i])
            ||| arms.len() - kept.len() >= 2
            ||| kept.len() == 1 && !(kept[0] is Object || kept[0] == Json::Bool(true))
        },
{
    let doc = Json::Object(fields);
    json::position_bounds(fields, "anyOf"@, 0);
    json::position_bounds(fields, "oneOf"@, 0);
    json::position_bounds(fields, "$schema"@, 0);
    assert(json::without_field(fields, "$schema"@) == fields);
    if schema::null_position(root, doc) is Some {
        let arms = schema::branch_list(doc)->0->List_0;
        assert(json::field(fields, schema::arms_key(fields)) == Some(Json::List(arms)));
        null_arm_found(root, arms, 0);
        let at = choose|i: int|
            0 <= i < arms.len() && schema::null_arm(schema::meant(root, #[trigger] arms[i]));
        if schema::null_arm(arms[at]) {
            null_arm_dropped(arms, at);
        } else {
            assert(refers_to_null(root, arms[at]));
        }
    }
}

} // verus!
