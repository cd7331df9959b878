//! What a parameter's schema says a command line can carry.
//!
//! The classifier is a whitelist: it recognises a closed list of constructs and
//! treats everything else as not understood.

use vstd::prelude::*;

use crate::args;
use crate::args::parse_int;
use crate::json;
use crate::json::{Fields, Json, JsonValue, Numeral};
use crate::schema;
use crate::schema::{branches_of, deref, effective, is_null_branch, types_of};
use crate::text;
use crate::text::{list_has, quoted, replace_char, same, signed_decimal_of, strs_have};
use crate::tool::{DefView, ToolDef};

verus! {

/// How many levels of branches a closed set of values is looked for in.
pub const MAX_BRANCH_DEPTH: u8 = 8;

// ---------------------------------------------------------------------------
// Closed sets of values
// ---------------------------------------------------------------------------

/// The texts of a list, where it holds nothing else.
pub open spec fn all_texts(items: Seq<Json>) -> Option<Seq<Seq<char>>> {
    if schema::strings(items).len() == items.len() {
        Some(schema::strings(items))
    } else {
        None
    }
}

/// A list of values with those of another that it lacks added in order.
pub open spec fn joined_values(
    out: Seq<Seq<char>>,
    more: Seq<Seq<char>>,
) -> Seq<Seq<char>>
    decreases more.len(),
{
    if more.len() == 0 {
        out
    } else {
        let before = joined_values(out, more.drop_last());
        if before.contains(more.last()) {
            before
        } else {
            before.push(more.last())
        }
    }
}

/// The branches of a node: its `oneOf`, or its `anyOf` where it has none.
pub open spec fn value_branches(node: Json) -> Option<Json> {
    match node.get("oneOf"@) {
        Some(list) => Some(list),
        None => node.get("anyOf"@),
    }
}

/// The permitted values of a parameter, where its schema closes the set within
/// `depth` levels of branches: an `enum` of texts, a `const`, or branches that
/// are all one of these or null. A branch that yields nothing disqualifies the
/// whole set.
pub open spec fn closed_set(
    root: Seq<(Seq<char>, Json)>,
    node: Json,
    depth: nat,
) -> Option<Seq<Seq<char>>>
    decreases depth, 1nat, 0nat,
{
    if depth == 0 {
        None
    } else {
        let found = schema::meant(root, node);
        match found.get("enum"@) {
            Some(Json::List(items)) => all_texts(items),
            _ => match found.get("const"@) {
                Some(Json::Text(one)) => Some(seq![one]),
                _ => match value_branches(found) {
                    Some(Json::List(arms)) => match branch_values(
                        root,
                        arms,
                        arms.len(),
                        (depth - 1) as nat,
                    ) {
                        Some(values) => if values.len() > 0 {
                            Some(values)
                        } else {
                            None
                        },
                        None => None,
                    },
                    _ => None,
                },
            },
        }
    }
}

/// The values of the first `count` branches together.
pub open spec fn branch_values(
    root: Seq<(Seq<char>, Json)>,
    arms: Seq<Json>,
    count: nat,
    depth: nat,
) -> Option<Seq<Seq<char>>>
    decreases depth, 2nat, count,
{
    if count == 0 || count > arms.len() {
        Some(Seq::empty())
    } else {
        match branch_values(root, arms, (count - 1) as nat, depth) {
            None => None,
            Some(before) => {
                let arm = schema::meant(root, arms[count - 1]);
                if schema::null_arm(arm) {
                    Some(before)
                } else {
                    match closed_set(root, arm, depth) {
                        Some(values) => Some(joined_values(before, values)),
                        None => None,
                    }
                }
            },
        }
    }
}

/// The permitted values of a parameter; none where the set is not closed.
pub open spec fn permitted(root: Seq<(Seq<char>, Json)>, node: Json) -> Seq<Seq<char>> {
    match closed_set(root, node, MAX_BRANCH_DEPTH as nat) {
        Some(values) => values,
        None => Seq::empty(),
    }
}

proof fn no_values_later(
    root: Seq<(Seq<char>, Json)>,
    arms: Seq<Json>,
    from: nat,
    to: nat,
    depth: nat,
)
    requires
        from <= to <= arms.len(),
        branch_values(root, arms, from, depth) is None,
    ensures
        branch_values(root, arms, to, depth) is None,
    decreases to,
{
    if from < to {
        no_values_later(root, arms, from, (to - 1) as nat, depth);
    }
}

fn add_values(out: &mut Vec<String>, more: &Vec<String>)
    ensures
        text::texts(final(out)@) == joined_values(text::texts(old(out)@), text::texts(more@)),
{
    let ghost start = text::texts(out@);
    let ghost all = text::texts(more@);
    let mut i: usize = 0;
    assert(joined_values(start, all.take(0)) == start);
    while i < more.len()
        invariant
            i <= more.len(),
            all == text::texts(more@),
            text::texts(out@) == joined_values(start, all.take(i as int)),
        decreases more.len() - i,
    {
        let ghost former = out@;
        assert(all.take(i + 1).drop_last() =~= all.take(i as int));
        assert(all.take(i + 1).last() == more@[i as int]@);
        if !list_has(out.as_slice(), more[i].as_str()) {
            out.push(more[i].clone());
            assert(text::texts(out@) =~= text::texts(former).push(more@[i as int]@));
        }
        i += 1;
    }
    assert(all.take(all.len() as int) =~= all);
}

pub(crate) fn texts_of(items: &Vec<JsonValue>) -> (res: Vec<String>)
    ensures
        text::texts(res@) == schema::strings(json::jsons(items@)),
{
    let ghost all = json::jsons(items@);
    let mut out: Vec<String> = Vec::new();
    let mut i: usize = 0;
    assert(text::texts(out@) =~= schema::strings(all.take(0)));
    while i < items.len()
        invariant
            i <= items.len(),
            all == json::jsons(items@),
            text::texts(out@) == schema::strings(all.take(i as int)),
        decreases items.len() - i,
    {
        let ghost former = out@;
        assert(all.take(i + 1).drop_last() =~= all.take(i as int));
        assert(all.take(i + 1).last() == items@[i as int].json());
        if let Some(name) = items[i].as_str() {
            out.push(name.to_owned());
            assert(text::texts(out@) =~= text::texts(former).push(name@));
        }
        i += 1;
    }
    assert(all.take(all.len() as int) =~= all);
    out
}

fn walk(root: &Fields, node: &JsonValue, depth: u8) -> (res: Option<Vec<String>>)
    ensures
        match res {
            Some(values) => closed_set(root.fields(), node.json(), depth as nat) == Some(
                text::texts(values@),
            ),
            None => closed_set(root.fields(), node.json(), depth as nat) is None,
        },
    decreases depth,
{
    if depth == 0 {
        return None;
    }
    let found = deref(root, node);
    if let Some(listed) = found.get("enum") {
        if let Some(items) = listed.as_array() {
            let values = texts_of(items);
            assert(text::texts(values@).len() == values@.len());
            assert(json::jsons(items@).len() == items@.len());
            return if values.len() == items.len() {
                Some(values)
            } else {
                None
            };
        }
    }
    if let Some(one) = found.get("const") {
        if let Some(value) = one.as_str() {
            let mut values: Vec<String> = Vec::new();
            values.push(value.to_owned());
            assert(text::texts(values@) =~= seq![value@]);
            return Some(values);
        }
    }
    let listed = match found.get("oneOf") {
        Some(list) => list,
        None => match found.get("anyOf") {
            Some(list) => list,
            None => return None,
        },
    };
    let arms = match listed.as_array() {
        Some(arms) => arms,
        None => return None,
    };
    let ghost all = json::jsons(arms@);
    let mut out: Vec<String> = Vec::new();
    let mut i: usize = 0;
    assert(text::texts(out@) =~= Seq::empty());
    while i < arms.len()
        invariant
            depth > 0,
            i <= arms.len(),
            all == json::jsons(arms@),
            branch_values(root.fields(), all, i as nat, (depth - 1) as nat) == Some(
                text::texts(out@),
            ),
            value_branches(found.json()) == Some(Json::List(all)),
            found.json() == schema::meant(root.fields(), node.json()),
            !(found.json().get("enum"@) is Some && found.json().get("enum"@)->0 is List),
            !(found.json().get("const"@) is Some && found.json().get("const"@)->0 is Text),
        decreases arms.len() - i,
    {
        assert(all[i as int] == arms@[i as int].json());
        let arm = deref(root, &arms[i]);
        if !is_null_branch(arm) {
            match walk(root, arm, depth - 1) {
                Some(values) => add_values(&mut out, &values),
                None => {
                    proof {
                        no_values_later(
                            root.fields(),
                            all,
                            (i + 1) as nat,
                            all.len(),
                            (depth - 1) as nat,
                        );
                    }
                    return None;
                },
            }
        }
        i += 1;
    }
    assert(text::texts(out@).len() == out@.len());
    if out.len() > 0 {
        Some(out)
    } else {
        None
    }
}

fn enum_values(root: &Fields, node: &JsonValue) -> (res: Vec<String>)
    ensures
        text::texts(res@) == permitted(root.fields(), node.json()),
{
    match walk(root, node, MAX_BRANCH_DEPTH) {
        Some(values) => values,
        None => {
            let out: Vec<String> = Vec::new();
            assert(text::texts(out@) =~= Seq::empty());
            out
        },
    }
}

// ---------------------------------------------------------------------------
// Shapes
// ---------------------------------------------------------------------------

/// The constructs a command line knows how to carry.
#[derive(Debug, PartialEq)]
pub enum Known {
    Bool,
    Integer {
        min: Option<i64>,
        max: Option<i64>,
    },
    Number,
    Str,
    Enum(Vec<String>),
    Array(Box<Shape>),
}

/// What was made of a parameter.
#[derive(Debug, PartialEq)]
pub enum Shape {
    Known(Known),
    /// Understood, and uncarryable by a flag: a nested object.
    Opaque,
    /// Not understood. A flag is still registered, as one free-form string, and
    /// it says so.
    Unknown,
}

/// What a [`Shape`] means.
pub enum ShapeView {
    Bool,
    Integer { min: Option<i64>, max: Option<i64> },
    Number,
    Str,
    Enum(Seq<Seq<char>>),
    Array(Box<ShapeView>),
    Opaque,
    Unknown,
}

impl ShapeView {
    /// Mapped, but with less capability than the schema offers.
    pub open spec fn degraded(self) -> bool
        decreases self,
    {
        match self {
            ShapeView::Unknown => true,
            ShapeView::Array(items) => items.degraded(),
            _ => false,
        }
    }
}

impl Shape {
    /// What the shape means.
    pub open spec fn said(&self) -> ShapeView
        decreases self,
    {
        match self {
            Shape::Known(Known::Bool) => ShapeView::Bool,
            Shape::Known(Known::Integer { min, max }) => ShapeView::Integer { min: *min, max: *max },
            Shape::Known(Known::Number) => ShapeView::Number,
            Shape::Known(Known::Str) => ShapeView::Str,
            Shape::Known(Known::Enum(values)) => ShapeView::Enum(text::texts(values@)),
            Shape::Known(Known::Array(items)) => ShapeView::Array(Box::new(items.said())),
            Shape::Opaque => ShapeView::Opaque,
            Shape::Unknown => ShapeView::Unknown,
        }
    }

    /// Mapped, but with less capability than the schema offers.
    pub fn is_degraded(&self) -> (res: bool)
        ensures
            res == self.said().degraded(),
        decreases self,
    {
        match self {
            Shape::Unknown => true,
            Shape::Known(Known::Array(items)) => items.is_degraded(),
            _ => false,
        }
    }

    pub fn is_opaque(&self) -> (res: bool)
        ensures
            res == (self.said() is Opaque),
    {
        match self {
            Shape::Opaque => true,
            _ => false,
        }
    }
}

/// A bound of an integer, where the schema states one that fits.
pub open spec fn bound_of(node: Json, key: Seq<char>) -> Option<i64> {
    match node.get(key) {
        Some(Json::Integer(n)) if i64::MIN <= n <= i64::MAX => Some(n as i64),
        _ => None,
    }
}

/// The type names of a node, null left out.
pub open spec fn value_types(node: Json) -> Seq<Seq<char>> {
    schema::type_names(node).filter(|name: Seq<char>| name != "null"@)
}

/// Whether the branches of a node, where it lists any, all spell a value alike: a
/// union of several types says how to spell none of them.
pub open spec fn one_type(root: Seq<(Seq<char>, Json)>, node: Json) -> bool {
    match schema::branch_list(schema::meant(root, node)) {
        Some(Json::List(arms)) => forall|i: int|
            0 <= i < arms.len() && !schema::null_arm(schema::meant(root, #[trigger] arms[i]))
                ==> value_types(schema::meant(root, arms[i])) == value_types(
                schema::value_schema(root, node),
            ),
        _ => true,
    }
}

/// The items of a list parameter, where its schema says anything of them.
pub open spec fn item_schema(root: Seq<(Seq<char>, Json)>, node: Json) -> Option<Json> {
    let inner = schema::value_schema(root, node);
    if permitted(root, node).len() == 0 && value_types(inner) == seq!["array"@] && one_type(
        root,
        node,
    ) {
        match inner.get("items"@) {
            Some(Json::Null) => None,
            Some(Json::Bool(_)) => None,
            other => other,
        }
    } else {
        None
    }
}

/// Whether lists inside lists end within `levels`. References can make a list
/// its own item; such a schema has no shape.
pub open spec fn nests_within(root: Seq<(Seq<char>, Json)>, node: Json, levels: nat) -> bool
    decreases levels,
{
    if levels == 0 {
        false
    } else {
        match item_schema(root, node) {
            Some(items) => nests_within(root, items, (levels - 1) as nat),
            None => true,
        }
    }
}

/// Whether lists inside lists end.
pub open spec fn nests(root: Seq<(Seq<char>, Json)>, node: Json) -> bool {
    exists|levels: nat| nests_within(root, node, levels)
}

/// The shape of a parameter whose lists inside lists end within `levels`.
pub open spec fn shape_within(
    root: Seq<(Seq<char>, Json)>,
    node: Json,
    levels: nat,
) -> ShapeView
    decreases levels,
{
    let values = permitted(root, node);
    let inner = schema::value_schema(root, node);
    let names = value_types(inner);
    if values.len() > 0 {
        ShapeView::Enum(values)
    } else if names.len() != 1 || !one_type(root, node) {
        ShapeView::Unknown
    } else if names[0] == "object"@ {
        ShapeView::Opaque
    } else if names[0] == "boolean"@ {
        ShapeView::Bool
    } else if names[0] == "integer"@ {
        ShapeView::Integer {
            min: bound_of(inner, "minimum"@),
            max: bound_of(inner, "maximum"@),
        }
    } else if names[0] == "number"@ {
        ShapeView::Number
    } else if names[0] == "string"@ {
        ShapeView::Str
    } else if names[0] == "array"@ {
        let items = match item_schema(root, node) {
            Some(items) => if levels == 0 {
                ShapeView::Unknown
            } else {
                shape_within(root, items, (levels - 1) as nat)
            },
            None => ShapeView::Unknown,
        };
        if items is Opaque {
            ShapeView::Opaque
        } else {
            ShapeView::Array(Box::new(items))
        }
    } else {
        ShapeView::Unknown
    }
}

/// The shape of a parameter.
pub open spec fn shape(root: Seq<(Seq<char>, Json)>, node: Json) -> ShapeView {
    shape_within(root, node, choose|levels: nat| nests_within(root, node, levels))
}

proof fn same_shape(root: Seq<(Seq<char>, Json)>, node: Json, a: nat, b: nat)
    requires
        nests_within(root, node, a),
        nests_within(root, node, b),
    ensures
        shape_within(root, node, a) == shape_within(root, node, b),
    decreases a,
{
    if let Some(items) = item_schema(root, node) {
        same_shape(root, items, (a - 1) as nat, (b - 1) as nat);
    }
}

/// The shape does not depend on how many levels are allowed, once they suffice.
pub proof fn shape_is(root: Seq<(Seq<char>, Json)>, node: Json, levels: nat)
    requires
        nests_within(root, node, levels),
    ensures
        shape(root, node) == shape_within(root, node, levels),
{
    let any = choose|n: nat| nests_within(root, node, n);
    same_shape(root, node, any, levels);
}

/// A union is not guessed: where two branches that stand for a value name
/// different types, and they are no closed set of values, the parameter is not
/// understood.
pub proof fn unions_are_not_guessed(
    root: Seq<(Seq<char>, Json)>,
    node: Json,
    arms: Seq<Json>,
    i: int,
    j: int,
)
    requires
        schema::branch_list(schema::meant(root, node)) == Some(Json::List(arms)),
        0 <= i < arms.len(),
        0 <= j < arms.len(),
        !schema::null_arm(schema::meant(root, arms[i])),
        !schema::null_arm(schema::meant(root, arms[j])),
        value_types(schema::meant(root, arms[i])) != value_types(schema::meant(root, arms[j])),
        permitted(root, node).len() == 0,
    ensures
        shape(root, node) is Unknown,
{
    assert(!one_type(root, node));
}

fn bound(node: &JsonValue, key: &str) -> (res: Option<i64>)
    ensures
        res == bound_of(node.json(), key@),
{
    match node.get(key) {
        Some(value) => value.as_i64(),
        None => None,
    }
}

fn value_type_names(node: &JsonValue) -> (res: Vec<String>)
    ensures
        text::texts(res@) == value_types(node.json()),
{
    let names = types_of(node);
    let ghost all = text::texts(names@);
    let ghost keep = |name: Seq<char>| name != "null"@;
    let mut out: Vec<String> = Vec::new();
    let mut i: usize = 0;
    assert(text::texts(out@) =~= all.take(0).filter(keep)) by {
        reveal(Seq::filter);
    }
    while i < names.len()
        invariant
            i <= names.len(),
            all == text::texts(names@),
            keep == (|name: Seq<char>| name != "null"@),
            text::texts(out@) == all.take(i as int).filter(keep),
        decreases names.len() - i,
    {
        let ghost former = out@;
        reveal(Seq::filter);
        assert(all.take(i + 1).drop_last() =~= all.take(i as int));
        assert(all.take(i + 1).last() == names@[i as int]@);
        if !same(names[i].as_str(), "null") {
            out.push(names[i].clone());
            assert(text::texts(out@) =~= text::texts(former).push(names@[i as int]@));
        }
        i += 1;
    }
    assert(all.take(all.len() as int) =~= all);
    out
}

fn is_one_type(root: &Fields, node: &JsonValue, names: &Vec<String>) -> (res: bool)
    requires
        text::texts(names@) == value_types(
            schema::value_schema(root.fields(), node.json()),
        ),
        names@.len() == 1,
    ensures
        res == one_type(root.fields(), node.json()),
{
    let whole = deref(root, node);
    let arms = match branches_of(whole) {
        Some(arms) => arms,
        None => return true,
    };
    let ghost all = json::jsons(arms@);
    let ghost want = text::texts(names@);
    assert(want[0] == names@[0]@);
    let mut i: usize = 0;
    while i < arms.len()
        invariant
            i <= arms.len(),
            all == json::jsons(arms@),
            want == text::texts(names@),
            want.len() == 1,
            names@.len() == 1,
            want[0] == names@[0]@,
            want == value_types(schema::value_schema(root.fields(), node.json())),
            schema::branch_list(schema::meant(root.fields(), node.json())) == Some(
                Json::List(all),
            ),
            forall|j: int|
                0 <= j < i && !schema::null_arm(schema::meant(root.fields(), #[trigger] all[j]))
                    ==> value_types(schema::meant(root.fields(), all[j])) == want,
        decreases arms.len() - i,
    {
        let arm = deref(root, &arms[i]);
        assert(all[i as int] == arms@[i as int].json());
        if !is_null_branch(arm) {
            let here = value_type_names(arm);
            let ghost found = text::texts(here@);
            assert(found == value_types(schema::meant(root.fields(), all[i as int])));
            if here.len() != 1 {
                assert(found.len() != want.len());
                return false;
            }
            assert(found[0] == here@[0]@);
            if !same(here[0].as_str(), names[0].as_str()) {
                assert(found[0] != want[0]);
                return false;
            }
            assert(found =~= want);
        }
        i += 1;
    }
    true
}

fn classify_within(root: &Fields, node: &JsonValue, Ghost(levels): Ghost<nat>) -> (res: Shape)
    requires
        nests_within(root.fields(), node.json(), levels),
    ensures
        res.said() == shape_within(root.fields(), node.json(), levels),
    decreases levels,
{
    let values = enum_values(root, node);
    assert(text::texts(values@).len() == values@.len());
    if values.len() > 0 {
        return Shape::Known(Known::Enum(values));
    }
    let inner = effective(root, node);
    let names = value_type_names(inner);
    assert(text::texts(names@).len() == names@.len());
    if names.len() != 1 || !is_one_type(root, node, &names) {
        return Shape::Unknown;
    }
    assert(text::texts(names@)[0] == names@[0]@);
    let name = names[0].as_str();
    if same(name, "object") {
        return Shape::Opaque;
    }
    if same(name, "boolean") {
        return Shape::Known(Known::Bool);
    }
    if same(name, "integer") {
        return Shape::Known(
            Known::Integer { min: bound(inner, "minimum"), max: bound(inner, "maximum") },
        );
    }
    if same(name, "number") {
        return Shape::Known(Known::Number);
    }
    if same(name, "string") {
        return Shape::Known(Known::Str);
    }
    if !same(name, "array") {
        return Shape::Unknown;
    }
    assert(value_types(inner.json()) =~= seq!["array"@]);
    let items = match inner.get("items") {
        None => Shape::Unknown,
        Some(items) => if items.is_null() || items.as_bool().is_some() {
            Shape::Unknown
        } else {
            assert(item_schema(root.fields(), node.json()) == Some(items.json()));
            classify_within(root, items, Ghost((levels - 1) as nat))
        },
    };
    if items.is_opaque() {
        return Shape::Opaque;
    }
    Shape::Known(Known::Array(Box::new(items)))
}

/// Recognises a parameter, or refuses to guess.
pub fn classify(root: &Fields, node: &JsonValue) -> (res: Shape)
    requires
        nests(root.fields(), node.json()),
    ensures
        res.said() == shape(root.fields(), node.json()),
{
    let ghost levels = choose|n: nat| nests_within(root.fields(), node.json(), n);
    classify_within(root, node, Ghost(levels))
}

/// Whether lists inside lists end within so many levels.
pub fn is_nested_within(root: &Fields, node: &JsonValue, levels: u32) -> (res: bool)
    ensures
        res == nests_within(root.fields(), node.json(), levels as nat),
        res ==> nests(root.fields(), node.json()),
    decreases levels,
{
    if levels == 0 {
        return false;
    }
    let values = enum_values(root, node);
    assert(text::texts(values@).len() == values@.len());
    if values.len() > 0 {
        assert(nests_within(root.fields(), node.json(), levels as nat));
        return true;
    }
    let inner = effective(root, node);
    let names = value_type_names(inner);
    assert(text::texts(names@).len() == names@.len());
    if names.len() != 1 {
        assert(seq!["array"@].len() == 1);
        assert(nests_within(root.fields(), node.json(), levels as nat));
        return true;
    }
    if !is_one_type(root, node, &names) {
        assert(nests_within(root.fields(), node.json(), levels as nat));
        return true;
    }
    assert(text::texts(names@)[0] == names@[0]@);
    if !same(names[0].as_str(), "array") {
        assert(seq!["array"@][0] == "array"@);
        assert(nests_within(root.fields(), node.json(), levels as nat));
        return true;
    }
    assert(value_types(inner.json()) =~= seq!["array"@]);
    match inner.get("items") {
        None => {
            assert(nests_within(root.fields(), node.json(), levels as nat));
            true
        },
        Some(items) => if items.is_null() || items.as_bool().is_some() {
            assert(nests_within(root.fields(), node.json(), levels as nat));
            true
        } else {
            let res = is_nested_within(root, items, levels - 1);
            assert(res == nests_within(root.fields(), node.json(), levels as nat));
            res
        },
    }
}

// ---------------------------------------------------------------------------
// Values
// ---------------------------------------------------------------------------

/// A range in words.
pub open spec fn range_words(min: Option<i64>, max: Option<i64>) -> Option<Seq<char>> {
    match (min, max) {
        (Some(lo), Some(hi)) => Some(
            "[范围 "@ + text::signed_decimal(lo as int) + "..="@ + text::signed_decimal(hi as int)
                + "]"@,
        ),
        (Some(lo), None) => Some("[最小 "@ + text::signed_decimal(lo as int) + "]"@),
        (None, Some(hi)) => Some("[最大 "@ + text::signed_decimal(hi as int) + "]"@),
        (None, None) => None,
    }
}

/// A range in words.
pub fn range_note(min: Option<i64>, max: Option<i64>) -> (res: Option<String>)
    ensures
        match res {
            Some(note) => range_words(min, max) == Some(note@),
            None => range_words(min, max) is None,
        },
{
    match (min, max) {
        (Some(lo), Some(hi)) => {
            let mut out = "[范围 ".to_owned();
            out.append(signed_decimal_of(lo).as_str());
            out.append("..=");
            out.append(signed_decimal_of(hi).as_str());
            out.append("]");
            Some(out)
        },
        (Some(lo), None) => {
            let mut out = "[最小 ".to_owned();
            out.append(signed_decimal_of(lo).as_str());
            out.append("]");
            Some(out)
        },
        (None, Some(hi)) => {
            let mut out = "[最大 ".to_owned();
            out.append(signed_decimal_of(hi).as_str());
            out.append("]");
            Some(out)
        },
        (None, None) => None,
    }
}

/// A field name as it is written on a command line: hyphens for underscores.
pub open spec fn kebab_case(name: Seq<char>) -> Seq<char> {
    text::replaced(name, '_', '-')
}

/// A field name as it is written on a command line.
pub fn kebab(name: &str) -> (res: String)
    ensures
        res@ == kebab_case(name@),
{
    replace_char(name, '_', '-')
}

/// Whether a number is outside a declared range.
pub open spec fn out_of(n: int, min: Option<i64>, max: Option<i64>) -> bool {
    (min is Some && n < min->0) || (max is Some && n > max->0)
}

/// What a value that is no integer is told.
pub open spec fn int_refusal(name: Seq<char>, raw: Seq<char>) -> Seq<char> {
    "--"@ + kebab_case(name) + ": "@ + args::not_an_integer(raw)
}

/// A typed value as the schema's type wants it, or why it cannot be.
pub open spec fn coerced(
    raw: Seq<char>,
    kind: ShapeView,
    d: DefView,
    name: Seq<char>,
) -> Result<Json, Seq<char>> {
    match kind {
        ShapeView::Integer { min, max } => match args::int_value(raw) {
            None => Err(int_refusal(name, raw)),
            Some(n) => if out_of(n, min, max) {
                Err(
                    "--"@ + kebab_case(name) + ": "@ + text::signed_decimal(n)
                        + " 超出 schema 声明的范围 "@ + range_words(min, max)->0,
                )
            } else {
                Ok(Json::Integer(n))
            },
        },
        ShapeView::Number => match args::int_value(raw) {
            None => Err(int_refusal(name, raw)),
            Some(n) => Ok(Json::Integer(n)),
        },
        ShapeView::Bool => if raw == "true"@ || raw == "1"@ || raw == "yes"@ {
            Ok(Json::Bool(true))
        } else if raw == "false"@ || raw == "0"@ || raw == "no"@ {
            Ok(Json::Bool(false))
        } else {
            Err("--"@ + kebab_case(name) + ": "@ + text::debug_text(raw) + " is not a boolean"@)
        },
        _ => if d.int_args.contains(name) {
            match args::int_value(raw) {
                None => Err(int_refusal(name, raw)),
                Some(n) => Ok(Json::Integer(n)),
            }
        } else {
            Ok(Json::Text(raw))
        },
    }
}

fn integer(raw: &str, name: &str) -> (res: Result<i64, String>)
    ensures
        match res {
            Ok(n) => args::int_value(raw@) == Some(n as int),
            Err(message) => args::int_value(raw@) is None && message@ == int_refusal(name@, raw@),
        },
{
    match parse_int(raw) {
        Ok(n) => Ok(n),
        Err(reason) => {
            let mut message = "--".to_owned();
            message.append(kebab(name).as_str());
            message.append(": ");
            message.append(reason.as_str());
            Err(message)
        },
    }
}

/// Gives a typed value the type its schema declares.
pub fn coerce(raw: &str, kind: &Shape, d: &ToolDef, name: &str) -> (res: Result<JsonValue, String>)
    ensures
        match res {
            Ok(value) => coerced(raw@, kind.said(), d.said(), name@) == Ok::<Json, Seq<char>>(
                value.json(),
            ),
            Err(message) => coerced(raw@, kind.said(), d.said(), name@) == Err::<Json, Seq<char>>(
                message@,
            ),
        },
{
    match kind {
        Shape::Known(Known::Integer { min, max }) => {
            let n = match integer(raw, name) {
                Ok(n) => n,
                Err(message) => return Err(message),
            };
            let under = match *min {
                Some(lo) => n < lo,
                None => false,
            };
            let over = match *max {
                Some(hi) => n > hi,
                None => false,
            };
            if under || over {
                let mut message = "--".to_owned();
                message.append(kebab(name).as_str());
                message.append(": ");
                message.append(signed_decimal_of(n).as_str());
                message.append(" 超出 schema 声明的范围 ");
                match range_note(*min, *max) {
                    Some(note) => message.append(note.as_str()),
                    None => {},
                }
                return Err(message);
            }
            Ok(JsonValue::Numeral(Numeral::from_i64(n)))
        },
        Shape::Known(Known::Number) => match integer(raw, name) {
            Ok(n) => Ok(JsonValue::Numeral(Numeral::from_i64(n))),
            Err(message) => Err(message),
        },
        Shape::Known(Known::Bool) => if same(raw, "true") || same(raw, "1") || same(raw, "yes") {
            Ok(JsonValue::Bool(true))
        } else if same(raw, "false") || same(raw, "0") || same(raw, "no") {
            Ok(JsonValue::Bool(false))
        } else {
            let mut message = "--".to_owned();
            message.append(kebab(name).as_str());
            message.append(": ");
            message.append(quoted(raw).as_str());
            message.append(" is not a boolean");
            Err(message)
        },
        _ => if strs_have(d.cli.int_args, name) {
            match integer(raw, name) {
                Ok(n) => Ok(JsonValue::Numeral(Numeral::from_i64(n))),
                Err(message) => Err(message),
            }
        } else {
            Ok(JsonValue::Text(raw.to_owned()))
        },
    }
}

} // verus!
