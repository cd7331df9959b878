//! What holds of every scan of a tool surface: each rule is broken exactly where the
//! surface breaks it.

use vstd::prelude::*;

use crate::contract;
use crate::contract::{AuditView, Checked, FindingView, Owed, Rule, WalkView};
use crate::json;
use crate::json::Json;
use crate::schema;
use crate::text;
use crate::text_laws;
use crate::tool;
use crate::tool::ToolView;

verus! {

// ---------------------------------------------------------------------------
// Findings
// ---------------------------------------------------------------------------

/// Whether a list of findings has one of a rule about a tool of this face.
pub open spec fn raises(
    list: Seq<FindingView>,
    face: Seq<char>,
    name: Option<Seq<char>>,
    rule: Rule,
) -> bool {
    exists|i: int|
        0 <= i < list.len() && (#[trigger] list[i]).rule == rule && list[i].tool == name
            && list[i].face == face
}

/// Whether a walk found something of a rule.
pub open spec fn tells(list: Seq<(Rule, Seq<char>)>, rule: Rule) -> bool {
    exists|i: int| 0 <= i < list.len() && (#[trigger] list[i]).0 == rule
}

proof fn either_raises(
    a: Seq<FindingView>,
    b: Seq<FindingView>,
    face: Seq<char>,
    name: Option<Seq<char>>,
    rule: Rule,
)
    ensures
        raises(a + b, face, name, rule) <==> raises(a, face, name, rule) || raises(
            b,
            face,
            name,
            rule,
        ),
{
    let all = a + b;
    if raises(a, face, name, rule) {
        let i = choose|i: int|
            0 <= i < a.len() && (#[trigger] a[i]).rule == rule && a[i].tool == name && a[i].face
                == face;
        assert(all[i] == a[i]);
    }
    if raises(b, face, name, rule) {
        let i = choose|i: int|
            0 <= i < b.len() && (#[trigger] b[i]).rule == rule && b[i].tool == name && b[i].face
                == face;
        assert(all[a.len() + i] == b[i]);
    }
    if raises(all, face, name, rule) {
        let i = choose|i: int|
            0 <= i < all.len() && (#[trigger] all[i]).rule == rule && all[i].tool == name
                && all[i].face == face;
        if i < a.len() {
            assert(a[i] == all[i]);
        } else {
            assert(b[i - a.len()] == all[i]);
        }
    }
}

proof fn either_tells(a: Seq<(Rule, Seq<char>)>, b: Seq<(Rule, Seq<char>)>, rule: Rule)
    ensures
        tells(a + b, rule) <==> tells(a, rule) || tells(b, rule),
{
    let all = a + b;
    if tells(a, rule) {
        let i = choose|i: int| 0 <= i < a.len() && (#[trigger] a[i]).0 == rule;
        assert(all[i] == a[i]);
    }
    if tells(b, rule) {
        let i = choose|i: int| 0 <= i < b.len() && (#[trigger] b[i]).0 == rule;
        assert(all[a.len() + i] == b[i]);
    }
    if tells(all, rule) {
        let i = choose|i: int| 0 <= i < all.len() && (#[trigger] all[i]).0 == rule;
        if i < a.len() {
            assert(a[i] == all[i]);
        } else {
            assert(b[i - a.len()] == all[i]);
        }
    }
}

proof fn one_raises(
    finding: FindingView,
    face: Seq<char>,
    name: Option<Seq<char>>,
    rule: Rule,
)
    ensures
        raises(seq![finding], face, name, rule) <==> finding.rule == rule && finding.tool == name
            && finding.face == face,
        !raises(Seq::empty(), face, name, rule),
{
    assert(seq![finding][0] == finding);
}

proof fn one_tells(found: (Rule, Seq<char>), rule: Rule)
    ensures
        tells(seq![found], rule) <==> found.0 == rule,
        !tells(Seq::empty(), rule),
{
    assert(seq![found][0] == found);
}

proof fn walk_raises(
    face: Seq<char>,
    name: Seq<char>,
    list: Seq<(Rule, Seq<char>)>,
    rule: Rule,
)
    ensures
        raises(contract::as_findings(face, name, list), face, Some(name), rule) <==> tells(
            list,
            rule,
        ),
{
    let all = contract::as_findings(face, name, list);
    if tells(list, rule) {
        let i = choose|i: int| 0 <= i < list.len() && (#[trigger] list[i]).0 == rule;
        assert(all[i].rule == rule);
    }
    if raises(all, face, Some(name), rule) {
        let i = choose|i: int|
            0 <= i < all.len() && (#[trigger] all[i]).rule == rule && all[i].tool == Some(name)
                && all[i].face == face;
        assert(list[i].0 == rule);
    }
}

// ---------------------------------------------------------------------------
// Inside a document
// ---------------------------------------------------------------------------

/// Whether an object stands in a document, at the root or anywhere below.
pub open spec fn occurs(doc: Json, node: Seq<(Seq<char>, Json)>) -> bool
    decreases doc,
{
    match doc {
        Json::Object(fields) => fields == node || exists|i: int|
            0 <= i < fields.len() && occurs((#[trigger] fields[i]).1, node),
        Json::List(items) => exists|i: int|
            0 <= i < items.len() && occurs(#[trigger] items[i], node),
        _ => false,
    }
}

/// Whether a type names a number, alone or among others.
pub open spec fn names_number(declared: Json) -> bool {
    match declared {
        Json::Text(name) => name == "integer"@ || name == "number"@,
        Json::List(items) => items.contains(Json::Text("integer"@)) || items.contains(
            Json::Text("number"@),
        ),
        _ => false,
    }
}

/// Whether an object breaks a rule of its own: a dialect marker; a reference to
/// outside, or one that leads nowhere; where a strict reader is to be served, a
/// number's format that it does not know; and where null is not wanted, a type list
/// or a branch that allows it.
pub open spec fn breaks(w: WalkView, node: Seq<(Seq<char>, Json)>, rule: Rule) -> bool {
    match rule {
        Rule::SchemaDialectLeak => json::field(node, "$schema"@) is Some,
        Rule::NonLocalRef => json::field(node, "$ref"@) matches Some(Json::Text(target)) && !(
        target.len() > 0 && target[0] == '#'),
        Rule::DanglingRef => json::field(node, "$ref"@) matches Some(Json::Text(target))
            && target.len() > 0 && target[0] == '#' && !json::pointer_resolves(
            Json::Object(w.root),
            target.skip(1),
        ),
        Rule::UnportableFormat => w.strict && (json::field(node, "format"@) matches Some(
            Json::Text(format),
        ) && !seq!["double"@, "float"@, "int32"@, "int64"@].contains(format)) && (json::field(
            node,
            "type"@,
        ) matches Some(declared) && names_number(declared)),
        Rule::NullableInputBranch => w.flags_null && ((json::field(node, "type"@) matches Some(
            Json::List(items),
        ) && items.len() > 1 && items.contains(Json::Text("null"@))) || (
        schema::branch_list(Json::Object(node)) matches Some(Json::List(arms)) && arms.len() > 1
            && exists|i: int|
            0 <= i < arms.len() && schema::null_arm(
                schema::meant(w.root, #[trigger] arms[i]),
            ))),
        _ => false,
    }
}

proof fn null_found(root: Seq<(Seq<char>, Json)>, arms: Seq<Json>, from: int)
    requires
        0 <= from,
    ensures
        schema::null_arm_from(root, arms, from) is Some <==> exists|i: int|
            from <= i < arms.len() && schema::null_arm(schema::meant(root, #[trigger] arms[i])),
    decreases arms.len() - from,
{
    if from < arms.len() {
        null_found(root, arms, from + 1);
    }
}

proof fn numbers_are_named(declared: Json)
    ensures
        contract::numeric_type(declared) <==> names_number(declared),
{
    if let Json::List(items) = declared {
        if names_number(declared) {
            let i = if items.contains(Json::Text("integer"@)) {
                choose|i: int| 0 <= i < items.len() && items[i] == Json::Text("integer"@)
            } else {
                choose|i: int| 0 <= i < items.len() && items[i] == Json::Text("number"@)
            };
            assert(items[i] is Text && contract::numeric_name(items[i]->Text_0));
        }
        if contract::numeric_type(declared) {
            let i = choose|i: int|
                0 <= i < items.len() && #[trigger] items[i] is Text && contract::numeric_name(
                    items[i]->Text_0,
                );
            assert(items.contains(items[i]));
        }
    }
}

proof fn node_is_judged(
    w: WalkView,
    node: Seq<(Seq<char>, Json)>,
    path: Seq<char>,
    rule: Rule,
)
    ensures
        tells(contract::node_findings(w, node, path), rule) <==> breaks(w, node, rule),
{
    let a = contract::dialect_leak(w, node, path);
    let b = contract::broken_ref(w, node, path);
    let c = contract::strange_format(w, node, path);
    let d = contract::null_in_type(w, node, path);
    let e = contract::null_in_branches(w, node, path);
    either_tells(a + b + c + d, e, rule);
    either_tells(a + b + c, d, rule);
    either_tells(a + b, c, rule);
    either_tells(a, b, rule);
    dialects_are_judged(w, node, path, rule);
    references_are_judged(w, node, path, rule);
    formats_are_judged(w, node, path, rule);
    nulls_are_judged(w, node, path, rule);
}

proof fn dialects_are_judged(
    w: WalkView,
    node: Seq<(Seq<char>, Json)>,
    path: Seq<char>,
    rule: Rule,
)
    ensures
        tells(contract::dialect_leak(w, node, path), rule) <==> rule == Rule::SchemaDialectLeak
            && breaks(w, node, rule),
{
    let a = contract::dialect_leak(w, node, path);
    if a.len() > 0 {
        one_tells(a[0], rule);
        assert(a =~= seq![a[0]]);
    }
}

proof fn references_are_judged(
    w: WalkView,
    node: Seq<(Seq<char>, Json)>,
    path: Seq<char>,
    rule: Rule,
)
    ensures
        tells(contract::broken_ref(w, node, path), rule) <==> (rule == Rule::NonLocalRef || rule
            == Rule::DanglingRef) && breaks(w, node, rule),
{
    let b = contract::broken_ref(w, node, path);
    reveal_strlit("#");
    if let Some(Json::Text(target)) = json::field(node, "$ref"@) {
        if target.len() > 0 {
            assert(target.take(1)[0] == target[0]);
            if target[0] == '#' {
                assert(target.take(1) =~= "#"@);
            }
        }
        if text::begins(target, "#"@) {
            assert(target.take(1)[0] == "#"@[0]);
        }
    }
    if b.len() > 0 {
        one_tells(b[0], rule);
        assert(b =~= seq![b[0]]);
    }
}

proof fn formats_are_judged(
    w: WalkView,
    node: Seq<(Seq<char>, Json)>,
    path: Seq<char>,
    rule: Rule,
)
    ensures
        tells(contract::strange_format(w, node, path), rule) <==> rule == Rule::UnportableFormat
            && breaks(w, node, rule),
{
    let c = contract::strange_format(w, node, path);
    let known = seq!["double"@, "float"@, "int32"@, "int64"@];
    assert(known[0] == "double"@ && known[1] == "float"@ && known[2] == "int32"@ && known[3]
        == "int64"@);
    if let Some(declared) = json::field(node, "type"@) {
        numbers_are_named(declared);
    }
    if let Some(Json::Text(format)) = json::field(node, "format"@) {
        assert(contract::portable(format) <==> known.contains(format)) by {
            if known.contains(format) {
                let k = choose|k: int| 0 <= k < known.len() && known[k] == format;
            }
        }
    }
    if c.len() > 0 {
        one_tells(c[0], rule);
        assert(c =~= seq![c[0]]);
    }
}

proof fn nulls_are_judged(
    w: WalkView,
    node: Seq<(Seq<char>, Json)>,
    path: Seq<char>,
    rule: Rule,
)
    ensures
        tells(contract::null_in_type(w, node, path), rule) || tells(
            contract::null_in_branches(w, node, path),
            rule,
        ) <==> rule == Rule::NullableInputBranch && breaks(w, node, rule),
{
    let d = contract::null_in_type(w, node, path);
    let e = contract::null_in_branches(w, node, path);
    if let Some(Json::List(arms)) = schema::branch_list(Json::Object(node)) {
        null_found(w.root, arms, 0);
    }
    if d.len() > 0 {
        one_tells(d[0], rule);
        assert(d =~= seq![d[0]]);
    }
    if e.len() > 0 {
        one_tells(e[0], rule);
        assert(e =~= seq![e[0]]);
    }
}

/// Whether an object anywhere in a document breaks a rule.
pub open spec fn breaks_somewhere(w: WalkView, doc: Json, rule: Rule) -> bool {
    exists|node: Seq<(Seq<char>, Json)>| #[trigger] occurs(doc, node) && breaks(w, node, rule)
}

/// A walk of a document finds a rule broken exactly where some object in it, at any
/// depth, breaks it.
pub proof fn a_walk_misses_nothing(w: WalkView, doc: Json, path: Seq<char>, rule: Rule)
    ensures
        tells(contract::walked(w, doc, path), rule) <==> breaks_somewhere(w, doc, rule),
    decreases doc, 0nat,
{
    match doc {
        Json::Object(fields) => {
            let own = contract::node_findings(w, fields, path);
            let below = contract::walked_fields(w, fields, fields.len(), path);
            either_tells(own, below, rule);
            node_is_judged(w, fields, path, rule);
            fields_are_walked(w, fields, fields.len(), path, rule);
            if breaks(w, fields, rule) {
                assert(occurs(doc, fields));
            }
            if tells(below, rule) {
                let i = choose|i: int|
                    0 <= i < fields.len() && breaks_somewhere(w, (#[trigger] fields[i]).1, rule);
                let node = choose|node: Seq<(Seq<char>, Json)>| #[trigger]
                    occurs(fields[i].1, node) && breaks(w, node, rule);
                assert(occurs(doc, node));
            }
            if breaks_somewhere(w, doc, rule) {
                let node = choose|node: Seq<(Seq<char>, Json)>| #[trigger]
                    occurs(doc, node) && breaks(w, node, rule);
                if node != fields {
                    let i = choose|i: int|
                        0 <= i < fields.len() && occurs((#[trigger] fields[i]).1, node);
                    assert(breaks_somewhere(w, fields[i].1, rule));
                }
            }
        },
        Json::List(items) => {
            items_are_walked(w, items, items.len(), path, rule);
            let below = contract::walked_items(w, items, items.len(), path);
            if tells(below, rule) {
                let i = choose|i: int|
                    0 <= i < items.len() && breaks_somewhere(w, #[trigger] items[i], rule);
                let node = choose|node: Seq<(Seq<char>, Json)>| #[trigger]
                    occurs(items[i], node) && breaks(w, node, rule);
                assert(occurs(doc, node));
            }
            if breaks_somewhere(w, doc, rule) {
                let node = choose|node: Seq<(Seq<char>, Json)>| #[trigger]
                    occurs(doc, node) && breaks(w, node, rule);
                let i = choose|i: int| 0 <= i < items.len() && occurs(#[trigger] items[i], node);
                assert(breaks_somewhere(w, items[i], rule));
            }
        },
        _ => {},
    }
}

proof fn fields_are_walked(
    w: WalkView,
    fields: Seq<(Seq<char>, Json)>,
    count: nat,
    path: Seq<char>,
    rule: Rule,
)
    requires
        count <= fields.len(),
    ensures
        tells(contract::walked_fields(w, fields, count, path), rule) <==> exists|i: int|
            0 <= i < count && breaks_somewhere(w, (#[trigger] fields[i]).1, rule),
    decreases fields, count,
{
    if count > 0 {
        let last = (count - 1) as nat;
        fields_are_walked(w, fields, last, path, rule);
        let below = path + "/"@ + contract::pointer_step(fields[count - 1].0);
        a_walk_misses_nothing(w, fields[count - 1].1, below, rule);
        either_tells(
            contract::walked_fields(w, fields, last, path),
            contract::walked(w, fields[count - 1].1, below),
            rule,
        );
    }
}

proof fn items_are_walked(w: WalkView, items: Seq<Json>, count: nat, path: Seq<char>, rule: Rule)
    requires
        count <= items.len(),
    ensures
        tells(contract::walked_items(w, items, count, path), rule) <==> exists|i: int|
            0 <= i < count && breaks_somewhere(w, #[trigger] items[i], rule),
    decreases items, count,
{
    if count > 0 {
        let last = (count - 1) as nat;
        items_are_walked(w, items, last, path, rule);
        let below = path + "/"@ + text::decimal(last);
        a_walk_misses_nothing(w, items[count - 1], below, rule);
        either_tells(
            contract::walked_items(w, items, last, path),
            contract::walked(w, items[count - 1], below),
            rule,
        );
    }
}

/// The references that are counted are those that stand in the document.
pub proof fn references_are_those_that_stand(doc: Json, target: Seq<char>)
    ensures
        contract::references(doc).contains(target) <==> exists|node: Seq<(Seq<char>, Json)>|
            #[trigger] occurs(doc, node) && json::field(node, "$ref"@) == Some(Json::Text(target)),
    decreases doc, 0nat,
{
    match doc {
        Json::Object(fields) => {
            let own = match json::field(fields, "$ref"@) {
                Some(Json::Text(t)) => seq![t],
                _ => Seq::empty(),
            };
            let below = contract::references_in_fields(fields, fields.len());
            field_references(fields, fields.len(), target);
            in_either(own, below, target);
            if own.len() > 0 {
                assert(own[0] == json::field(fields, "$ref"@)->0->Text_0);
                assert(own.contains(own[0]));
            }
            if json::field(fields, "$ref"@) == Some(Json::Text(target)) {
                assert(occurs(doc, fields));
                assert(own[0] == target);
            }
            if below.contains(target) {
                let i = choose|i: int|
                    0 <= i < fields.len() && contract::references(
                        (#[trigger] fields[i]).1,
                    ).contains(target);
                references_are_those_that_stand(fields[i].1, target);
                let node = choose|node: Seq<(Seq<char>, Json)>| #[trigger]
                    occurs(fields[i].1, node) && json::field(node, "$ref"@) == Some(
                        Json::Text(target),
                    );
                assert(occurs(doc, node));
            }
            if exists|node: Seq<(Seq<char>, Json)>| #[trigger]
                occurs(doc, node) && json::field(node, "$ref"@) == Some(Json::Text(target)) {
                let node = choose|node: Seq<(Seq<char>, Json)>| #[trigger]
                    occurs(doc, node) && json::field(node, "$ref"@) == Some(Json::Text(target));
                if node != fields {
                    let i = choose|i: int|
                        0 <= i < fields.len() && occurs((#[trigger] fields[i]).1, node);
                    references_are_those_that_stand(fields[i].1, target);
                    assert(contract::references(fields[i].1).contains(target));
                }
            }
        },
        Json::List(items) => {
            item_references(items, items.len(), target);
            let below = contract::references_in_items(items, items.len());
            if below.contains(target) {
                let i = choose|i: int|
                    0 <= i < items.len() && contract::references(#[trigger] items[i]).contains(
                        target,
                    );
                references_are_those_that_stand(items[i], target);
                let node = choose|node: Seq<(Seq<char>, Json)>| #[trigger]
                    occurs(items[i], node) && json::field(node, "$ref"@) == Some(
                        Json::Text(target),
                    );
                assert(occurs(doc, node));
            }
            if exists|node: Seq<(Seq<char>, Json)>| #[trigger]
                occurs(doc, node) && json::field(node, "$ref"@) == Some(Json::Text(target)) {
                let node = choose|node: Seq<(Seq<char>, Json)>| #[trigger]
                    occurs(doc, node) && json::field(node, "$ref"@) == Some(Json::Text(target));
                let i = choose|i: int| 0 <= i < items.len() && occurs(#[trigger] items[i], node);
                references_are_those_that_stand(items[i], target);
                assert(contract::references(items[i]).contains(target));
            }
        },
        _ => {},
    }
}

proof fn in_either(a: Seq<Seq<char>>, b: Seq<Seq<char>>, target: Seq<char>)
    ensures
        (a + b).contains(target) <==> a.contains(target) || b.contains(target),
{
    let all = a + b;
    if a.contains(target) {
        let i = choose|i: int| 0 <= i < a.len() && a[i] == target;
        assert(all[i] == target);
    }
    if b.contains(target) {
        let i = choose|i: int| 0 <= i < b.len() && b[i] == target;
        assert(all[a.len() + i] == target);
    }
    if all.contains(target) {
        let i = choose|i: int| 0 <= i < all.len() && all[i] == target;
        if i < a.len() {
            assert(a[i] == target);
        } else {
            assert(b[i - a.len()] == target);
        }
    }
}

proof fn field_references(fields: Seq<(Seq<char>, Json)>, count: nat, target: Seq<char>)
    requires
        count <= fields.len(),
    ensures
        contract::references_in_fields(fields, count).contains(target) <==> exists|i: int|
            0 <= i < count && contract::references((#[trigger] fields[i]).1).contains(target),
    decreases count,
{
    if count > 0 {
        let last = (count - 1) as nat;
        field_references(fields, last, target);
        in_either(
            contract::references_in_fields(fields, last),
            contract::references(fields[count - 1].1),
            target,
        );
    }
}

proof fn item_references(items: Seq<Json>, count: nat, target: Seq<char>)
    requires
        count <= items.len(),
    ensures
        contract::references_in_items(items, count).contains(target) <==> exists|i: int|
            0 <= i < count && contract::references(#[trigger] items[i]).contains(target),
    decreases count,
{
    if count > 0 {
        let last = (count - 1) as nat;
        item_references(items, last, target);
        in_either(
            contract::references_in_items(items, last),
            contract::references(items[count - 1]),
            target,
        );
    }
}

// ---------------------------------------------------------------------------
// One tool
// ---------------------------------------------------------------------------

/// Whether a title says no more than the name: it is the name but for the case of its
/// letters and for blanks and hyphens where the name has underscores.
pub open spec fn says_the_name(title: Seq<char>, name: Seq<char>) -> bool {
    let low = text::lowercase(title);
    &&& low.len() == text::lowercase(name).len()
    &&& forall|i: int|
        0 <= i < low.len() ==> (if low[i] == ' ' || low[i] == '-' {
            '_'
        } else {
            low[i]
        }) == #[trigger] text::lowercase(name)[i]
}

proof fn names_are_restated(title: Seq<char>, name: Seq<char>)
    ensures
        contract::restates_name(title, name) <==> says_the_name(title, name),
{
    let low = text::lowercase(title);
    let folded = text::replaced(text::replaced(low, ' ', '_'), '-', '_');
    assert(folded.len() == low.len());
    if says_the_name(title, name) {
        assert(folded =~= text::lowercase(name)) by {
            assert forall|i: int| 0 <= i < folded.len() implies folded[i] == text::lowercase(
                name,
            )[i] by {}
        }
    }
    if contract::restates_name(title, name) {
        assert forall|i: int| 0 <= i < low.len() implies (if low[i] == ' ' || low[i] == '-' {
            '_'
        } else {
            low[i]
        }) == #[trigger] text::lowercase(name)[i] by {
            assert(folded[i] == text::lowercase(name)[i]);
        }
    }
}

/// Whether an object schema names a property.
pub open spec fn declares(node: Seq<(Seq<char>, Json)>, name: Seq<char>) -> bool {
    json::field(node, "properties"@) matches Some(Json::Object(properties)) && json::field(
        properties,
        name,
    ) is Some
}

/// Whether a tool breaks a rule on its own.
pub open spec fn tool_breaks(a: AuditView, t: ToolView, rule: Rule) -> bool {
    let input = WalkView {
        label: "input"@,
        strict: true,
        flags_null: a.no_null_branches,
        root: t.input,
    };
    let inside = breaks_somewhere(input, Json::Object(t.input), rule) || (t.output is Some
        && breaks_somewhere(
        WalkView { label: "output"@, strict: false, flags_null: false, root: t.output->0 },
        Json::Object(t.output->0),
        rule,
    ));
    match rule {
        Rule::MissingTitle => t.title is None,
        Rule::BlankTitle => t.title is Some && text::trimmed(t.title->0).len() == 0,
        Rule::TitleRestatesName => t.title is Some && text::trimmed(t.title->0).len() > 0
            && says_the_name(t.title->0, t.name),
        Rule::TitleRestatesDescription => t.title is Some && text::trimmed(t.title->0).len() > 0
            && t.description is Some && contract::restates_description(
            t.title->0,
            t.description->0,
        ),
        Rule::MissingAnnotations => t.annotations is None,
        Rule::MissingReadOnlyHint => t.annotations is Some
            && t.annotations->0.read_only_hint is None,
        Rule::MissingOutputSchema => t.output is None && (match a.owed {
            Owed::Everyone => true,
            Owed::Listed(list) => list.contains(t.name),
            Owed::Nobody => false,
        }),
        Rule::EmptyOutputSchema => t.output is Some && json::field(t.output->0, "type"@) is None
            && json::field(t.output->0, "anyOf"@) is None && json::field(
            t.output->0,
            "oneOf"@,
        ) is None && json::field(t.output->0, "allOf"@) is None && json::field(
            t.output->0,
            "$ref"@,
        ) is None,
        Rule::SilentTruncation => t.output is Some && declares(
            contract::described(t.input),
            "limit"@,
        ) && !contract::says(t.output->0, "next_offset"@, true) && (declares(
            contract::described(t.input),
            "offset"@,
        ) || !(contract::says(t.output->0, "total"@, false) || contract::says(
            t.output->0,
            "truncated"@,
            true,
        ))),
        Rule::SchemaDialectLeak | Rule::NonLocalRef | Rule::DanglingRef | Rule::UnportableFormat
        | Rule::NullableInputBranch => inside,
        _ => false,
    }
}

proof fn properties_are_declared(node: Seq<(Seq<char>, Json)>, name: Seq<char>)
    ensures
        contract::has_property(node, name) <==> declares(node, name),
{
}

proof fn titles_are_judged(a: AuditView, t: ToolView, rule: Rule)
    ensures
        raises(contract::title_findings(a.face, t), a.face, Some(t.name), rule) <==> (rule
            == Rule::MissingTitle || rule == Rule::BlankTitle || rule == Rule::TitleRestatesName
            || rule == Rule::TitleRestatesDescription) && tool_breaks(a, t, rule),
{
    let face = a.face;
    let all = contract::title_findings(face, t);
    let name = Some(t.name);
    match t.title {
        None => {
            one_raises(all[0], face, name, rule);
            assert(all =~= seq![all[0]]);
        },
        Some(title) => {
            names_are_restated(title, t.name);
            if text::trimmed(title).len() == 0 {
                one_raises(all[0], face, name, rule);
                assert(all =~= seq![all[0]]);
            } else {
                let x = contract::tool_finding(
                    face,
                    t.name,
                    Rule::TitleRestatesName,
                    "the title "@ + text::debug_text(title) + " just restates the tool name"@,
                );
                let y = contract::tool_finding(
                    face,
                    t.name,
                    Rule::TitleRestatesDescription,
                    "the title "@ + text::debug_text(title) + " just restates the description"@,
                );
                let first = if contract::restates_name(title, t.name) {
                    seq![x]
                } else {
                    Seq::empty()
                };
                let second = if t.description is Some && contract::restates_description(
                    title,
                    t.description->0,
                ) {
                    seq![y]
                } else {
                    Seq::empty()
                };
                assert(all == first + second);
                either_raises(first, second, face, name, rule);
                one_raises(x, face, name, rule);
                one_raises(y, face, name, rule);
            }
        },
    }
}

proof fn annotations_are_judged(a: AuditView, t: ToolView, rule: Rule)
    ensures
        raises(contract::annotation_findings(a.face, t), a.face, Some(t.name), rule) <==> (rule
            == Rule::MissingAnnotations || rule == Rule::MissingReadOnlyHint) && tool_breaks(
            a,
            t,
            rule,
        ),
{
    let all = contract::annotation_findings(a.face, t);
    if all.len() > 0 {
        one_raises(all[0], a.face, Some(t.name), rule);
        assert(all =~= seq![all[0]]);
    }
}

/// The rules that are about what stands inside a document.
pub open spec fn is_inside(rule: Rule) -> bool {
    rule == Rule::SchemaDialectLeak || rule == Rule::NonLocalRef || rule == Rule::DanglingRef
        || rule == Rule::UnportableFormat || rule == Rule::NullableInputBranch
}

proof fn only_inside(w: WalkView, doc: Json, rule: Rule)
    requires
        !is_inside(rule),
    ensures
        !breaks_somewhere(w, doc, rule),
{
}

proof fn outputs_are_judged(a: AuditView, t: ToolView, rule: Rule)
    ensures
        raises(contract::output_findings(a, t), a.face, Some(t.name), rule) <==> ((rule
            == Rule::MissingOutputSchema || rule == Rule::EmptyOutputSchema) && tool_breaks(
            a,
            t,
            rule,
        )) || (t.output is Some && breaks_somewhere(
            WalkView { label: "output"@, strict: false, flags_null: false, root: t.output->0 },
            Json::Object(t.output->0),
            rule,
        )),
{
    let all = contract::output_findings(a, t);
    let name = Some(t.name);
    match t.output {
        None => {
            if all.len() > 0 {
                one_raises(all[0], a.face, name, rule);
                assert(all =~= seq![all[0]]);
            }
        },
        Some(fields) => {
            let w = WalkView { label: "output"@, strict: false, flags_null: false, root: fields };
            let doc = Json::Object(fields);
            let none = Seq::<char>::empty();
            let walk = contract::walked(w, doc, none);
            let shell = contract::tool_finding(
                a.face,
                t.name,
                Rule::EmptyOutputSchema,
                "publishes an outputSchema shell that describes nothing"@,
            );
            let first = if !contract::describes_something(fields) {
                seq![shell]
            } else {
                Seq::empty()
            };
            let second = contract::as_findings(a.face, t.name, walk);
            assert(all == first + second);
            either_raises(first, second, a.face, name, rule);
            one_raises(shell, a.face, name, rule);
            walk_raises(a.face, t.name, walk, rule);
            a_walk_misses_nothing(w, doc, none, rule);
            if !is_inside(rule) {
                only_inside(w, doc, rule);
            }
        },
    }
}

proof fn paging_is_judged(a: AuditView, t: ToolView, rule: Rule)
    ensures
        raises(contract::paging_findings(a.face, t), a.face, Some(t.name), rule) <==> rule
            == Rule::SilentTruncation && tool_breaks(a, t, rule),
{
    let all = contract::paging_findings(a.face, t);
    properties_are_declared(contract::described(t.input), "limit"@);
    properties_are_declared(contract::described(t.input), "offset"@);
    if all.len() > 0 {
        one_raises(all[0], a.face, Some(t.name), rule);
        assert(all =~= seq![all[0]]);
    }
}

/// Of one tool a rule is found broken exactly where the tool breaks it.
pub proof fn a_tool_is_judged_by_itself(a: AuditView, t: ToolView, rule: Rule)
    ensures
        raises(contract::tool_findings(a, t), a.face, Some(t.name), rule) <==> tool_breaks(
            a,
            t,
            rule,
        ),
{
    let face = a.face;
    let name = Some(t.name);
    let titles = contract::title_findings(face, t);
    let notes = contract::annotation_findings(face, t);
    let inputs = contract::input_findings(a, t);
    let outputs = contract::output_findings(a, t);
    let paging = contract::paging_findings(face, t);
    either_raises(titles + notes + inputs + outputs, paging, face, name, rule);
    either_raises(titles + notes + inputs, outputs, face, name, rule);
    either_raises(titles + notes, inputs, face, name, rule);
    either_raises(titles, notes, face, name, rule);
    titles_are_judged(a, t, rule);
    annotations_are_judged(a, t, rule);
    outputs_are_judged(a, t, rule);
    paging_is_judged(a, t, rule);
    let w = WalkView {
        label: "input"@,
        strict: true,
        flags_null: a.no_null_branches,
        root: t.input,
    };
    let doc = Json::Object(t.input);
    let none = Seq::<char>::empty();
    walk_raises(face, t.name, contract::walked(w, doc, none), rule);
    a_walk_misses_nothing(w, doc, none, rule);
    if !is_inside(rule) {
        only_inside(w, doc, rule);
        if let Some(fields) = t.output {
            only_inside(
                WalkView { label: "output"@, strict: false, flags_null: false, root: fields },
                Json::Object(fields),
                rule,
            );
        }
    }
}

proof fn findings_are_about_their_tool(a: AuditView, t: ToolView, i: int)
    requires
        0 <= i < contract::tool_findings(a, t).len(),
    ensures
        contract::tool_findings(a, t)[i].tool == Some(t.name),
        contract::tool_findings(a, t)[i].face == a.face,
{
}

proof fn every_tool_is_judged(
    a: AuditView,
    tools: Seq<ToolView>,
    name: Seq<char>,
    rule: Rule,
)
    ensures
        raises(contract::each_tool(a, tools), a.face, Some(name), rule) <==> exists|k: int|
            0 <= k < tools.len() && (#[trigger] tools[k]).name == name && tool_breaks(
                a,
                tools[k],
                rule,
            ),
    decreases tools.len(),
{
    if tools.len() > 0 {
        let less = tools.drop_last();
        let last = tools.len() - 1;
        every_tool_is_judged(a, less, name, rule);
        let own = contract::tool_findings(a, tools[last]);
        either_raises(contract::each_tool(a, less), own, a.face, Some(name), rule);
        a_tool_is_judged_by_itself(a, tools[last], rule);
        if tools[last].name != name && raises(own, a.face, Some(name), rule) {
            let i = choose|i: int|
                0 <= i < own.len() && (#[trigger] own[i]).rule == rule && own[i].tool == Some(name)
                    && own[i].face == a.face;
            findings_are_about_their_tool(a, tools[last], i);
        }
        if exists|k: int|
            0 <= k < less.len() && (#[trigger] less[k]).name == name && tool_breaks(
                a,
                less[k],
                rule,
            ) {
            let k = choose|k: int|
                0 <= k < less.len() && (#[trigger] less[k]).name == name && tool_breaks(
                    a,
                    less[k],
                    rule,
                );
            assert(tools[k] == less[k]);
        }
        if exists|k: int|
            0 <= k < tools.len() && (#[trigger] tools[k]).name == name && tool_breaks(
                a,
                tools[k],
                rule,
            ) {
            let k = choose|k: int|
                0 <= k < tools.len() && (#[trigger] tools[k]).name == name && tool_breaks(
                    a,
                    tools[k],
                    rule,
                );
            if k < last {
                assert(less[k] == tools[k]);
            }
        }
    }
}

// ---------------------------------------------------------------------------
// Names and titles
// ---------------------------------------------------------------------------

/// Who owns a key, in order.
pub open spec fn owners_of(pairs: Seq<(Seq<char>, Seq<char>)>, key: Seq<char>) -> Seq<Seq<char>>
    decreases pairs.len(),
{
    if pairs.len() == 0 {
        Seq::empty()
    } else if pairs.last().0 == key {
        owners_of(pairs.drop_last(), key).push(pairs.last().1)
    } else {
        owners_of(pairs.drop_last(), key)
    }
}

proof fn group_found(groups: Seq<(Seq<char>, Seq<Seq<char>>)>, key: Seq<char>, from: int)
    requires
        0 <= from <= groups.len(),
    ensures
        from <= contract::group_from(groups, key, from) <= groups.len(),
        contract::group_from(groups, key, from) < groups.len() ==> groups[contract::group_from(
            groups,
            key,
            from,
        )].0 == key,
        forall|i: int|
            from <= i < contract::group_from(groups, key, from) ==> (#[trigger] groups[i]).0
                != key,
        from <= contract::group_slot(groups, key, from) <= groups.len(),
    decreases groups.len() - from,
{
    if from < groups.len() {
        group_found(groups, key, from + 1);
    }
}

/// Whether groups hold every pair under its key: each key once, with its owners in
/// order, and no key without one.
pub open spec fn holds_pairs(
    groups: Seq<(Seq<char>, Seq<Seq<char>>)>,
    pairs: Seq<(Seq<char>, Seq<char>)>,
) -> bool {
    &&& forall|i: int|
        0 <= i < groups.len() ==> (#[trigger] groups[i]).1 == owners_of(pairs, groups[i].0)
            && groups[i].1.len() > 0
    &&& forall|key: Seq<char>| #[trigger]
        owners_of(pairs, key).len() > 0 ==> exists|i: int|
            0 <= i < groups.len() && (#[trigger] groups[i]).0 == key
    &&& forall|i: int, j: int|
        0 <= i < j < groups.len() ==> (#[trigger] groups[i]).0 != (#[trigger] groups[j]).0
}

proof fn pairs_are_grouped(pairs: Seq<(Seq<char>, Seq<char>)>)
    ensures
        holds_pairs(contract::grouped(pairs), pairs),
    decreases pairs.len(),
{
    if pairs.len() > 0 {
        let less = pairs.drop_last();
        pairs_are_grouped(less);
        let before = contract::grouped(less);
        let after = contract::grouped(pairs);
        let (key, owner) = pairs.last();
        group_found(before, key, 0);
        let at = contract::group_from(before, key, 0);
        let slot = contract::group_slot(before, key, 0);
        if at < before.len() {
            assert forall|i: int| 0 <= i < after.len() implies (#[trigger] after[i]).1
                == owners_of(pairs, after[i].0) && after[i].1.len() > 0 by {
                assert(before[i].1 == owners_of(less, before[i].0));
                if i != at {
                    if i < at {
                        assert(before[i].0 != before[at].0);
                    } else {
                        assert(before[at].0 != before[i].0);
                    }
                }
            }
            assert forall|k: Seq<char>| #[trigger] owners_of(pairs, k).len() > 0 implies exists|
                i: int,
            |
                0 <= i < after.len() && (#[trigger] after[i]).0 == k by {
                if k == key {
                    assert(after[at].0 == k);
                } else {
                    assert(owners_of(less, k).len() > 0);
                    let i = choose|i: int| 0 <= i < before.len() && (#[trigger] before[i]).0 == k;
                    assert(after[i].0 == k);
                }
            }
            assert forall|i: int, j: int| 0 <= i < j < after.len() implies (#[trigger] after[i]).0
                != (#[trigger] after[j]).0 by {
                assert(before[i].0 != before[j].0);
            }
        } else {
            assert(owners_of(less, key).len() == 0) by {
                if owners_of(less, key).len() > 0 {
                    let i = choose|i: int|
                        0 <= i < before.len() && (#[trigger] before[i]).0 == key;
                    assert(before[i].0 != key);
                }
            }
            assert(owners_of(pairs, key) =~= seq![owner]);
            assert(after[slot] == (key, seq![owner]));
            assert forall|i: int| 0 <= i < after.len() implies (#[trigger] after[i]).1
                == owners_of(pairs, after[i].0) && after[i].1.len() > 0 by {
                if i < slot {
                    assert(after[i] == before[i]);
                } else if i > slot {
                    assert(after[i] == before[i - 1]);
                }
            }
            assert forall|k: Seq<char>| #[trigger] owners_of(pairs, k).len() > 0 implies exists|
                i: int,
            |
                0 <= i < after.len() && (#[trigger] after[i]).0 == k by {
                if k == key {
                    assert(after[slot].0 == k);
                } else {
                    assert(owners_of(less, k).len() > 0);
                    let i = choose|i: int| 0 <= i < before.len() && (#[trigger] before[i]).0 == k;
                    if i < slot {
                        assert(after[i].0 == k);
                    } else {
                        assert(after[i + 1].0 == k);
                    }
                }
            }
            assert forall|i: int, j: int| 0 <= i < j < after.len() implies (#[trigger] after[i]).0
                != (#[trigger] after[j]).0 by {
                let x = if i < slot {
                    i
                } else {
                    i - 1
                };
                let y = if j < slot {
                    j
                } else {
                    j - 1
                };
                if i != slot {
                    assert(after[i] == before[x]);
                }
                if j != slot {
                    assert(after[j] == before[y]);
                }
            }
        }
    }
}

proof fn shared_names_are_raised(
    face: Seq<char>,
    groups: Seq<(Seq<char>, Seq<Seq<char>>)>,
    name: Option<Seq<char>>,
    rule: Rule,
)
    ensures
        raises(contract::shared_names(face, groups), face, name, rule) <==> rule
            == Rule::DuplicateName && exists|i: int|
            0 <= i < groups.len() && Some((#[trigger] groups[i]).0) == name && groups[i].1.len()
                > 1,
    decreases groups.len(),
{
    if groups.len() > 0 {
        let less = groups.drop_last();
        let last = groups.len() - 1;
        shared_names_are_raised(face, less, name, rule);
        let before = contract::shared_names(face, less);
        let after = contract::shared_names(face, groups);
        if groups[last].1.len() > 1 {
            let x = after[before.len() as int];
            assert(after =~= before + seq![x]);
            either_raises(before, seq![x], face, name, rule);
            one_raises(x, face, name, rule);
        }
        if exists|i: int|
            0 <= i < less.len() && Some((#[trigger] less[i]).0) == name && less[i].1.len() > 1 {
            let i = choose|i: int|
                0 <= i < less.len() && Some((#[trigger] less[i]).0) == name && less[i].1.len() > 1;
            assert(groups[i] == less[i]);
        }
        if exists|i: int|
            0 <= i < groups.len() && Some((#[trigger] groups[i]).0) == name && groups[i].1.len()
                > 1 {
            let i = choose|i: int|
                0 <= i < groups.len() && Some((#[trigger] groups[i]).0) == name
                    && groups[i].1.len() > 1;
            if i < last {
                assert(less[i] == groups[i]);
            }
        }
    }
}

proof fn shared_titles_are_raised(
    face: Seq<char>,
    groups: Seq<(Seq<char>, Seq<Seq<char>>)>,
    name: Option<Seq<char>>,
    rule: Rule,
)
    ensures
        raises(contract::shared_titles(face, groups), face, name, rule) <==> rule
            == Rule::DuplicateTitle && exists|i: int|
            0 <= i < groups.len() && (#[trigger] groups[i]).1.len() > 1 && Some(groups[i].1[0])
                == name,
    decreases groups.len(),
{
    if groups.len() > 0 {
        let less = groups.drop_last();
        let last = groups.len() - 1;
        shared_titles_are_raised(face, less, name, rule);
        let before = contract::shared_titles(face, less);
        let after = contract::shared_titles(face, groups);
        if groups[last].1.len() > 1 {
            let x = after[before.len() as int];
            assert(after =~= before + seq![x]);
            either_raises(before, seq![x], face, name, rule);
            one_raises(x, face, name, rule);
        }
        if exists|i: int|
            0 <= i < less.len() && (#[trigger] less[i]).1.len() > 1 && Some(less[i].1[0]) == name {
            let i = choose|i: int|
                0 <= i < less.len() && (#[trigger] less[i]).1.len() > 1 && Some(less[i].1[0])
                    == name;
            assert(groups[i] == less[i]);
        }
        if exists|i: int|
            0 <= i < groups.len() && (#[trigger] groups[i]).1.len() > 1 && Some(groups[i].1[0])
                == name {
            let i = choose|i: int|
                0 <= i < groups.len() && (#[trigger] groups[i]).1.len() > 1 && Some(
                    groups[i].1[0],
                ) == name;
            if i < last {
                assert(less[i] == groups[i]);
            }
        }
    }
}

proof fn name_owners(tools: Seq<ToolView>, name: Seq<char>)
    ensures
        owners_of(contract::name_pairs(tools), name).len() == tools.filter(
            |t: ToolView| t.name == name,
        ).len(),
    decreases tools.len(),
{
    reveal(Seq::filter);
    if tools.len() > 0 {
        let less = tools.drop_last();
        name_owners(less, name);
        assert(contract::name_pairs(tools).drop_last() =~= contract::name_pairs(less));
    }
}

/// The tools that publish a title, by name and in order.
pub open spec fn titled(tools: Seq<ToolView>, title: Seq<char>) -> Seq<Seq<char>> {
    tools.filter(|t: ToolView| t.title is Some && text::trimmed(t.title->0) == title).map_values(
        |t: ToolView| t.name,
    )
}

proof fn title_owners(tools: Seq<ToolView>, title: Seq<char>)
    requires
        title.len() > 0,
    ensures
        owners_of(contract::title_pairs(tools), title) == titled(tools, title),
    decreases tools.len(),
{
    reveal(Seq::filter);
    let fits = |t: ToolView| t.title is Some && text::trimmed(t.title->0) == title;
    let name_of = |t: ToolView| t.name;
    if tools.len() > 0 {
        let less = tools.drop_last();
        title_owners(less, title);
        let last = tools.last();
        let before = contract::title_pairs(less);
        let after = contract::title_pairs(tools);
        if last.title is Some && text::trimmed(last.title->0).len() > 0 {
            assert(after.drop_last() =~= before);
        }
        if fits(last) {
            assert(tools.filter(fits) == less.filter(fits).push(last));
            assert(tools.filter(fits).map_values(name_of) =~= less.filter(fits).map_values(
                name_of,
            ).push(last.name));
        } else {
            assert(tools.filter(fits) == less.filter(fits));
        }
    } else {
        assert(owners_of(contract::title_pairs(tools), title) =~= titled(tools, title));
    }
}

proof fn blank_titles_are_no_keys(tools: Seq<ToolView>, title: Seq<char>)
    requires
        title.len() == 0,
    ensures
        owners_of(contract::title_pairs(tools), title).len() == 0,
    decreases tools.len(),
{
    if tools.len() > 0 {
        blank_titles_are_no_keys(tools.drop_last(), title);
        let before = contract::title_pairs(tools.drop_last());
        let after = contract::title_pairs(tools);
        if after.len() > before.len() {
            assert(after.drop_last() =~= before);
        }
    }
}

/// Two tools of one name, and two of one title, are found: the first under the name,
/// the second under the first tool that has the title. Nothing else is found of the
/// kind, and a blank title is shared by nobody.
pub proof fn shared_names_and_titles_are_found(
    face: Seq<char>,
    tools: Seq<ToolView>,
    name: Seq<char>,
    rule: Rule,
)
    ensures
        raises(contract::name_findings(face, tools), face, Some(name), rule) <==> {
            ||| rule == Rule::DuplicateName && tools.filter(
                |t: ToolView| t.name == name,
            ).len() > 1
            ||| rule == Rule::DuplicateTitle && exists|title: Seq<char>|
                title.len() > 0 && (#[trigger] titled(tools, title)).len() > 1 && titled(
                    tools,
                    title,
                )[0] == name
        },
{
    let names = contract::name_pairs(tools);
    let titles = contract::title_pairs(tools);
    let by_name = contract::grouped(names);
    let by_title = contract::grouped(titles);
    either_raises(
        contract::shared_names(face, by_name),
        contract::shared_titles(face, by_title),
        face,
        Some(name),
        rule,
    );
    shared_names_are_raised(face, by_name, Some(name), rule);
    shared_titles_are_raised(face, by_title, Some(name), rule);
    pairs_are_grouped(names);
    pairs_are_grouped(titles);
    name_owners(tools, name);
    if owners_of(names, name).len() > 1 {
        let i = choose|i: int| 0 <= i < by_name.len() && (#[trigger] by_name[i]).0 == name;
        assert(by_name[i].1.len() > 1);
    }
    if exists|i: int|
        0 <= i < by_title.len() && (#[trigger] by_title[i]).1.len() > 1 && Some(by_title[i].1[0])
            == Some(name) {
        let i = choose|i: int|
            0 <= i < by_title.len() && (#[trigger] by_title[i]).1.len() > 1 && Some(
                by_title[i].1[0],
            ) == Some(name);
        let title = by_title[i].0;
        if title.len() == 0 {
            blank_titles_are_no_keys(tools, title);
        } else {
            title_owners(tools, title);
            assert(titled(tools, title).len() > 1);
        }
    }
    if exists|title: Seq<char>|
        title.len() > 0 && (#[trigger] titled(tools, title)).len() > 1 && titled(tools, title)[0]
            == name {
        let title = choose|title: Seq<char>|
            title.len() > 0 && (#[trigger] titled(tools, title)).len() > 1 && titled(
                tools,
                title,
            )[0] == name;
        title_owners(tools, title);
        assert(owners_of(titles, title).len() > 0);
        let i = choose|i: int| 0 <= i < by_title.len() && (#[trigger] by_title[i]).0 == title;
        assert(by_title[i].1 == titled(tools, title));
    }
}

// ---------------------------------------------------------------------------
// Lists
// ---------------------------------------------------------------------------

/// Whether a tool owes a property and does not publish it.
pub open spec fn lacks(t: ToolView, property: Seq<char>) -> bool {
    t.output is None || !declares(t.output->0, property)
}

/// Whether a tool publishes a property without requiring it.
pub open spec fn leaves_out(t: ToolView, property: Seq<char>) -> bool {
    t.output is Some && declares(t.output->0, property) && !(json::field(
        t.output->0,
        "required"@,
    ) matches Some(Json::List(names)) && names.contains(Json::Text(property)))
}

/// What a tool that owes a property is told: that it does not publish it, or that it
/// does not require it.
pub proof fn owed_properties_are_judged(
    face: Seq<char>,
    property: Seq<char>,
    owners: Seq<Seq<char>>,
    tools: Seq<ToolView>,
    name: Seq<char>,
    rule: Rule,
)
    ensures
        raises(
            contract::owed_property_findings(face, property, owners, tools),
            face,
            Some(name),
            rule,
        ) <==> owners.contains(name) && exists|k: int|
            0 <= k < tools.len() && (#[trigger] tools[k]).name == name && ((rule
                == Rule::MissingRequiredProperty && lacks(tools[k], property)) || (rule
                == Rule::PropertyNotRequired && leaves_out(tools[k], property))),
    decreases tools.len(),
{
    if tools.len() > 0 {
        let less = tools.drop_last();
        let last = tools.len() - 1;
        let t = tools[last];
        owed_properties_are_judged(face, property, owners, less, name, rule);
        let own = if owners.contains(t.name) {
            contract::property_findings(face, property, t)
        } else {
            Seq::empty()
        };
        either_raises(
            contract::owed_property_findings(face, property, owners, less),
            own,
            face,
            Some(name),
            rule,
        );
        if let Some(fields) = t.output {
            properties_are_declared(fields, property);
        }
        if own.len() > 0 {
            one_raises(own[0], face, Some(name), rule);
            assert(own =~= seq![own[0]]);
        }
        let bad = |x: ToolView|
            (rule == Rule::MissingRequiredProperty && lacks(x, property)) || (rule
                == Rule::PropertyNotRequired && leaves_out(x, property));
        if exists|k: int| 0 <= k < less.len() && (#[trigger] less[k]).name == name && bad(less[k]) {
            let k = choose|k: int|
                0 <= k < less.len() && (#[trigger] less[k]).name == name && bad(less[k]);
            assert(tools[k] == less[k]);
        }
        if exists|k: int|
            0 <= k < tools.len() && (#[trigger] tools[k]).name == name && bad(tools[k]) {
            let k = choose|k: int|
                0 <= k < tools.len() && (#[trigger] tools[k]).name == name && bad(tools[k]);
            if k < last {
                assert(less[k] == tools[k]);
            }
        }
    }
}

/// A list of tools is found stale exactly where it names a tool that is not there, and
/// unsorted exactly where two neighbours are not in order.
pub proof fn lists_are_judged(
    face: Seq<char>,
    label: Seq<char>,
    list: Seq<Seq<char>>,
    present: Seq<Seq<char>>,
    rule: Rule,
)
    ensures
        raises(contract::ratchet_findings(face, label, list, present), face, None, rule) <==> {
            ||| rule == Rule::StaleRatchetEntry && exists|i: int|
                0 <= i < list.len() && !present.contains(#[trigger] list[i])
            ||| rule == Rule::UnsortedRatchet && exists|i: int|
                0 <= i < list.len() - 1 && !text::text_before(#[trigger] list[i], list[i + 1])
        },
{
    let stale = contract::stale_entries(face, label, list, present);
    stale_is_found(face, label, list, present, rule);
    let note = contract::about_surface(
        face,
        Rule::UnsortedRatchet,
        "keep the "@ + label + " ratchet sorted and deduplicated"@,
    );
    let second = if contract::ascending(list) {
        Seq::empty()
    } else {
        seq![note]
    };
    either_raises(stale, second, face, None, rule);
    one_raises(note, face, None, rule);
}

proof fn stale_is_found(
    face: Seq<char>,
    label: Seq<char>,
    list: Seq<Seq<char>>,
    present: Seq<Seq<char>>,
    rule: Rule,
)
    ensures
        raises(contract::stale_entries(face, label, list, present), face, None, rule) <==> rule
            == Rule::StaleRatchetEntry && exists|i: int|
            0 <= i < list.len() && !present.contains(#[trigger] list[i]),
    decreases list.len(),
{
    if list.len() > 0 {
        let less = list.drop_last();
        let last = list.len() - 1;
        stale_is_found(face, label, less, present, rule);
        let before = contract::stale_entries(face, label, less, present);
        let after = contract::stale_entries(face, label, list, present);
        if !present.contains(list[last]) {
            let x = after[before.len() as int];
            assert(after =~= before + seq![x]);
            either_raises(before, seq![x], face, None, rule);
            one_raises(x, face, None, rule);
        }
        if exists|i: int| 0 <= i < less.len() && !present.contains(#[trigger] less[i]) {
            let i = choose|i: int| 0 <= i < less.len() && !present.contains(#[trigger] less[i]);
            assert(list[i] == less[i]);
        }
        if exists|i: int| 0 <= i < list.len() && !present.contains(#[trigger] list[i]) {
            let i = choose|i: int| 0 <= i < list.len() && !present.contains(#[trigger] list[i]);
            if i < last {
                assert(less[i] == list[i]);
            }
        }
    }
}

// ---------------------------------------------------------------------------
// The whole scan
// ---------------------------------------------------------------------------

/// A scan leaves nothing out: what is found of the names, of every tool by itself, of
/// the list of tools that owe an output schema and of every list of required
/// properties is in its findings, and nothing else is.
pub proof fn a_scan_leaves_nothing_out(
    a: AuditView,
    tools: Seq<ToolView>,
    name: Option<Seq<char>>,
    rule: Rule,
)
    requires
        tools.len() > 0,
    ensures
        raises(contract::surface_findings(a, tools), a.face, name, rule) <==> {
            ||| raises(contract::name_findings(a.face, tools), a.face, name, rule)
            ||| name is Some && exists|k: int|
                0 <= k < tools.len() && Some((#[trigger] tools[k]).name) == name && tool_breaks(
                    a,
                    tools[k],
                    rule,
                )
            ||| a.owed matches Owed::Listed(list) && raises(
                contract::ratchet_findings(a.face, "outputSchema"@, list, tool::names(tools)),
                a.face,
                name,
                rule,
            )
            ||| exists|i: int|
                0 <= i < a.required.len() && list_raises(
                    a.face,
                    #[trigger] a.required[i],
                    tools,
                    name,
                    rule,
                )
        },
{
    let names = contract::name_findings(a.face, tools);
    let each = contract::each_tool(a, tools);
    let lists = contract::list_findings(a, tools);
    either_raises(names + each, lists, a.face, name, rule);
    either_raises(names, each, a.face, name, rule);
    if let Some(own) = name {
        every_tool_is_judged(a, tools, own, rule);
    } else {
        each_is_about_a_tool(a, tools, rule);
    }
    let first = match a.owed {
        Owed::Listed(list) => contract::ratchet_findings(
            a.face,
            "outputSchema"@,
            list,
            tool::names(tools),
        ),
        _ => Seq::empty(),
    };
    either_raises(
        first,
        contract::required_findings(a.face, a.required, tools),
        a.face,
        name,
        rule,
    );
    required_lists_add_up(a.face, a.required, tools, name, rule);
}

/// Whether a list of required properties has a finding, as a list or about a tool that
/// is in it.
pub open spec fn list_raises(
    face: Seq<char>,
    required: (Seq<char>, Seq<Seq<char>>),
    tools: Seq<ToolView>,
    name: Option<Seq<char>>,
    rule: Rule,
) -> bool {
    raises(
        contract::ratchet_findings(face, required.0, required.1, tool::names(tools)),
        face,
        name,
        rule,
    ) || raises(
        contract::owed_property_findings(face, required.0, required.1, tools),
        face,
        name,
        rule,
    )
}

proof fn required_lists_add_up(
    face: Seq<char>,
    required: Seq<(Seq<char>, Seq<Seq<char>>)>,
    tools: Seq<ToolView>,
    name: Option<Seq<char>>,
    rule: Rule,
)
    ensures
        raises(contract::required_findings(face, required, tools), face, name, rule) <==> exists|
            i: int,
        |
            0 <= i < required.len() && list_raises(face, #[trigger] required[i], tools, name, rule),
    decreases required.len(),
{
    if required.len() > 0 {
        let less = required.drop_last();
        let last = required.len() - 1;
        let (property, owners) = required[last];
        required_lists_add_up(face, less, tools, name, rule);
        let before = contract::required_findings(face, less, tools);
        let ratchet = contract::ratchet_findings(face, property, owners, tool::names(tools));
        let owed = contract::owed_property_findings(face, property, owners, tools);
        either_raises(before + ratchet, owed, face, name, rule);
        either_raises(before, ratchet, face, name, rule);
        if exists|i: int|
            0 <= i < less.len() && list_raises(face, #[trigger] less[i], tools, name, rule) {
            let i = choose|i: int|
                0 <= i < less.len() && list_raises(face, #[trigger] less[i], tools, name, rule);
            assert(required[i] == less[i]);
        }
        if exists|i: int|
            0 <= i < required.len() && list_raises(face, #[trigger] required[i], tools, name, rule) {
            let i = choose|i: int|
                0 <= i < required.len() && list_raises(
                    face,
                    #[trigger] required[i],
                    tools,
                    name,
                    rule,
                );
            if i < last {
                assert(less[i] == required[i]);
            }
        }
    }
}

proof fn each_is_about_a_tool(a: AuditView, tools: Seq<ToolView>, rule: Rule)
    ensures
        !raises(contract::each_tool(a, tools), a.face, None, rule),
    decreases tools.len(),
{
    if tools.len() > 0 {
        let less = tools.drop_last();
        each_is_about_a_tool(a, less, rule);
        let own = contract::tool_findings(a, tools.last());
        either_raises(contract::each_tool(a, less), own, a.face, None, rule);
        if raises(own, a.face, None, rule) {
            let i = choose|i: int|
                0 <= i < own.len() && (#[trigger] own[i]).rule == rule && own[i].tool == None::<
                    Seq<char>,
                > && own[i].face == a.face;
            findings_are_about_their_tool(a, tools.last(), i);
        }
    }
}

/// A catalog is found unstable exactly where a later build lists its tools otherwise
/// than the first.
pub proof fn later_builds_are_held_to_the_first(
    face: Seq<char>,
    builds: Seq<Seq<Seq<char>>>,
    round: int,
)
    requires
        0 <= round,
    ensures
        contract::unstable(face, builds, round).len() > 0 <==> exists|i: int|
            round <= i < builds.len() && #[trigger] builds[i] != builds[0],
        raises(contract::unstable(face, builds, round), face, None, Rule::UnstableOrder) <==> exists|
            i: int,
        |
            round <= i < builds.len() && #[trigger] builds[i] != builds[0],
    decreases builds.len() - round,
{
    let all = contract::unstable(face, builds, round);
    if round < builds.len() {
        if builds[round] != builds[0] {
            one_raises(all[0], face, None, Rule::UnstableOrder);
            assert(all =~= seq![all[0]]);
        } else {
            later_builds_are_held_to_the_first(face, builds, round + 1);
        }
    }
}

/// The place that is named is the first at which two builds differ.
pub proof fn the_first_difference_is_named(a: Seq<Seq<char>>, b: Seq<Seq<char>>, from: int)
    requires
        0 <= from <= a.len(),
        from <= b.len(),
    ensures
        ({
            let at = contract::differs_from(a, b, from);
            &&& from <= at <= a.len()
            &&& at <= b.len()
            &&& forall|i: int| from <= i < at ==> #[trigger] a[i] == b[i]
            &&& at < a.len() && at < b.len() ==> a[at] != b[at]
        }),
    decreases a.len() - from,
{
    if from < a.len() && from < b.len() && a[from] == b[from] {
        the_first_difference_is_named(a, b, from + 1);
    }
}

/// What was looked at is counted: every tool and its input schema, and every output
/// schema that there is.
pub proof fn what_was_looked_at_is_counted(tools: Seq<ToolView>, counts: Checked)
    requires
        contract::looked_at(tools, counts),
    ensures
        counts.tools == tools.len(),
        counts.input_schemas == tools.len(),
        counts.output_schemas == tools.filter(|t: ToolView| t.output is Some).len(),
        counts.refs == contract::surface_references(tools).len(),
{
    outputs_are_counted(tools);
}

proof fn outputs_are_counted(tools: Seq<ToolView>)
    ensures
        contract::outputs(tools) == tools.filter(|t: ToolView| t.output is Some).len(),
    decreases tools.len(),
{
    reveal(Seq::filter);
    if tools.len() > 0 {
        outputs_are_counted(tools.drop_last());
    }
}

// ---------------------------------------------------------------------------
// What a document says
// ---------------------------------------------------------------------------

/// The first sentence of a description ends at the first full stop with a blank behind
/// it.
pub proof fn sentences_end_at_their_stop(sentence: Seq<char>, rest: Seq<char>)
    requires
        sentence.len() > 0,
        text_laws::tight(sentence),
        sentence.last() != '.',
        forall|i: int|
            0 <= i < sentence.len() - 1 ==> !(#[trigger] sentence[i] == '.' && sentence[i + 1]
                == ' '),
    ensures
        contract::first_sentence(sentence + seq!['.', ' '] + rest) == sentence,
        contract::first_sentence(sentence + seq!['.']) == sentence,
        contract::first_sentence(sentence) == sentence,
{
    let none = Seq::<char>::empty();
    let long = sentence + seq!['.', ' '] + rest;
    let short = sentence + seq!['.'];
    let n = sentence.len() as int;
    no_stop_before(long, 0, n);
    assert(long[n] == '.' && long[n + 1] == ' ');
    assert(contract::stop_from(long, n) == n);
    assert(long.take(n) =~= sentence);
    no_stop_before(short, 0, n);
    assert(contract::stop_from(short, n) == n + 1);
    assert(short.take(n + 1) =~= short);
    no_stop_before(sentence, 0, n - 1);
    assert(contract::stop_from(sentence, n - 1) == n);
    assert(sentence.take(n) =~= sentence);
    assert(text_laws::run_of(seq!['.'], '.'));
    assert(text_laws::run_of(none, '.'));
    text_laws::stripping_leaves_the_core(sentence, seq!['.'], '.');
    text_laws::stripping_leaves_the_core(sentence, none, '.');
    assert(sentence + none =~= sentence);
    text_laws::trimming_leaves_the_core(none, sentence, none);
    assert(none + sentence + none =~= sentence);
}

proof fn no_stop_before(s: Seq<char>, from: int, to: int)
    requires
        0 <= from <= to < s.len(),
        forall|i: int| from <= i < to ==> !(#[trigger] s[i] == '.' && s[i + 1] == ' '),
    ensures
        contract::stop_from(s, from) == contract::stop_from(s, to),
    decreases to - from,
{
    if from < to {
        assert(!(s[from] == '.' && s[from + 1] == ' '));
        no_stop_before(s, from + 1, to);
    }
}

/// A response says a name where it declares it, or, for a name that can mean nothing
/// else, where the entries of one of its lists do. References are followed, and a
/// document without them speaks for itself.
pub proof fn responses_say_what_they_declare(
    document: Seq<(Seq<char>, Json)>,
    name: Seq<char>,
    on_entries: bool,
    list: Seq<char>,
    entry: Seq<(Seq<char>, Json)>,
)
    requires
        json::field(document, "$ref"@) is None,
    ensures
        contract::described(document) == document,
        declares(document, name) ==> contract::says(document, name, on_entries),
        !on_entries && !declares(document, name) ==> !contract::says(document, name, on_entries),
        on_entries && (json::field(document, "properties"@) matches Some(Json::Object(properties))
            && json::field(properties, list) matches Some(value) && value.get("items"@) == Some(
            Json::Object(entry),
        )) && json::field(entry, "$ref"@) is None && declares(entry, name) ==> contract::says(
            document,
            name,
            on_entries,
        ),
{
    properties_are_declared(document, name);
    properties_are_declared(entry, name);
    if let Some(Json::Object(properties)) = json::field(document, "properties"@) {
        json::position_bounds(properties, list, 0);
        let at = json::position_from(properties, list, 0);
        if at < properties.len() && properties[at].1.get("items"@) == Some(Json::Object(entry))
            && json::field(entry, "$ref"@) is None && declares(entry, name) {
            assert(contract::entries_have(document, properties[at].1, name));
        }
    }
}

/// A document whose root refers to one of its own definitions describes that
/// definition.
pub proof fn root_references_are_followed(
    document: Seq<(Seq<char>, Json)>,
    defs: Seq<(Seq<char>, Json)>,
    name: Seq<char>,
    target: Seq<(Seq<char>, Json)>,
)
    requires
        json::field(document, "$ref"@) == Some(Json::Text("#/$defs/"@ + name)),
        json::field(document, "$defs"@) == Some(Json::Object(defs)),
        json::field(defs, name) == Some(Json::Object(target)),
        !name.contains('/'),
    ensures
        contract::described(document) == target,
{
    reveal_strlit("#/$defs/");
    reveal_strlit("#/");
    reveal_strlit("$defs");
    let pointer = "#/$defs/"@ + name;
    assert(pointer.take(2) =~= "#/"@);
    let keys = seq!["$defs"@, name];
    assert(pointer.skip(2) =~= "$defs"@ + seq!['/'] + name);
    assert(!"$defs"@.contains('/')) by {
        if "$defs"@.contains('/') {
            let k = choose|k: int| 0 <= k < "$defs"@.len() && "$defs"@[k] == '/';
        }
    }
    text::pieces_split("$defs"@, name, '/');
    text::one_piece("$defs"@, '/');
    text::one_piece(name, '/');
    assert(text::pieces(pointer.skip(2), '/') =~= keys);
    reveal_with_fuel(contract::descended, 3);
    assert(keys.drop_last() =~= seq!["$defs"@]);
    assert(seq!["$defs"@].drop_last() =~= Seq::empty());
    let doc = Json::Object(document);
    assert(contract::descended(doc, seq!["$defs"@]) == Some(Json::Object(defs)));
    assert(contract::descended(doc, keys) == Some(Json::Object(target)));
}

// ---------------------------------------------------------------------------
// The report
// ---------------------------------------------------------------------------

/// The findings of one rule are those of the report that have it, in order.
pub proof fn findings_are_sorted_by_rule(findings: Seq<FindingView>, rule: Rule)
    ensures
        contract::of_rule(findings, rule) == findings.filter(|f: FindingView| f.rule == rule),
    decreases findings.len(),
{
    reveal(Seq::filter);
    if findings.len() > 0 {
        findings_are_sorted_by_rule(findings.drop_last(), rule);
    } else {
        assert(contract::of_rule(findings, rule) =~= findings.filter(
            |f: FindingView| f.rule == rule,
        ));
    }
}

/// A report has a line for every finding, in order, behind a line that counts them.
pub proof fn reports_have_a_line_for_each(
    findings: Seq<FindingView>,
    checked: Checked,
    i: int,
)
    requires
        0 <= i < findings.len(),
        forall|k: int| 0 <= k < findings.len() ==> !(#[trigger] findings[k]).line().contains('\n'),
        !checked.words().contains('\n'),
        !text::decimal(findings.len()).contains('\n'),
    ensures
        ({
            let lines = text::pieces(contract::report_text(findings, checked), '\n');
            &&& lines.len() == findings.len() + 2
            &&& lines[0] == "tool-surface contract: "@ + text::decimal(findings.len())
                + " finding(s) over "@ + checked.words()
            &&& lines[i + 1] == "  "@ + findings[i].line()
            &&& lines.last().len() == 0
        }),
{
    reveal_strlit("\n");
    reveal_strlit("tool-surface contract: ");
    reveal_strlit(" finding(s) over ");
    let head = "tool-surface contract: "@ + text::decimal(findings.len()) + " finding(s) over "@
        + checked.words();
    let n = findings.len() as int;
    lines_of_findings(findings, n);
    let below = contract::finding_lines(findings);
    assert(findings.take(n) =~= findings);
    assert(!head.contains('\n')) by {
        if head.contains('\n') {
            let k = choose|k: int| 0 <= k < head.len() && head[k] == '\n';
            let a = "tool-surface contract: "@;
            let b = text::decimal(findings.len());
            let c = " finding(s) over "@;
            if k < a.len() {
                assert(head[k] == a[k]);
            } else if k < a.len() + b.len() {
                assert(b[k - a.len()] == '\n');
            } else if k < a.len() + b.len() + c.len() {
                assert(head[k] == c[k - a.len() - b.len()]);
            } else {
                assert(checked.words()[k - a.len() - b.len() - c.len()] == '\n');
            }
        }
    }
    text::pieces_split(head, below, '\n');
    text::one_piece(head, '\n');
    assert(contract::report_text(findings, checked) =~= head + seq!['\n'] + below);
    let lines = text::pieces(contract::report_text(findings, checked), '\n');
    assert(lines == seq![head] + text::pieces(below, '\n'));
    assert(lines[0] == head);
    assert(lines[i + 1] == text::pieces(below, '\n')[i]);
    assert(lines.last() == text::pieces(below, '\n')[n]);
}

proof fn lines_of_findings(findings: Seq<FindingView>, n: int)
    requires
        0 <= n <= findings.len(),
        forall|k: int| 0 <= k < findings.len() ==> !(#[trigger] findings[k]).line().contains('\n'),
    ensures
        ({
            let lines = text::pieces(contract::finding_lines(findings.take(n)), '\n');
            &&& lines.len() == n + 1
            &&& forall|i: int| 0 <= i < n ==> #[trigger] lines[i] == "  "@ + findings[i].line()
            &&& lines[n].len() == 0
        }),
    decreases n,
{
    reveal_strlit("\n");
    reveal_strlit("  ");
    let none = Seq::<char>::empty();
    if n == 0 {
        assert(findings.take(0) =~= Seq::empty());
        assert(contract::finding_lines(findings.take(0)) =~= none);
        assert(text::pieces(none, '\n') =~= seq![none]);
    } else {
        lines_of_findings(findings, n - 1);
        let part = findings.take(n);
        assert(part.drop_last() =~= findings.take(n - 1));
        assert(part.last() == findings[n - 1]);
        let before = contract::finding_lines(findings.take(n - 1));
        let line = "  "@ + findings[n - 1].line();
        assert(!line.contains('\n')) by {
            if line.contains('\n') {
                let k = choose|k: int| 0 <= k < line.len() && line[k] == '\n';
                if k >= 2 {
                    assert(findings[n - 1].line()[k - 2] == '\n');
                } else {
                    assert(line[k] == "  "@[k]);
                }
            }
        }
        let grown = before + line;
        text::pieces_extend(before, line, '\n');
        text::pieces_split(grown, none, '\n');
        assert(text::pieces(none, '\n') =~= seq![none]);
        assert(contract::finding_lines(part) =~= grown + seq!['\n'] + none);
        let old_lines = text::pieces(before, '\n');
        assert(old_lines.last() + line =~= line);
        let lines = text::pieces(contract::finding_lines(part), '\n');
        assert(lines == old_lines.update(n - 1, line) + seq![none]);
        assert forall|i: int| 0 <= i < n implies #[trigger] lines[i] == "  "@
            + findings[i].line() by {
            if i < n - 1 {
                assert(lines[i] == old_lines[i]);
            }
        }
    }
}

} // verus!
