//! A size for documents, by which recursion over rewritten documents ends.

use vstd::prelude::*;

use crate::json;
use crate::json::Json;

verus! {

/// The number of nodes of a document.
pub open spec fn weight(doc: Json) -> nat
    decreases doc,
{
    match doc {
        Json::List(items) => 1 + total(items),
        Json::Object(fields) => 1 + total_fields(fields),
        _ => 1,
    }
}

/// The number of nodes of a list of documents.
pub open spec fn total(items: Seq<Json>) -> nat
    decreases items,
{
    if items.len() == 0 {
        0
    } else {
        total(items.drop_last()) + weight(items.last())
    }
}

/// The number of nodes of an object's values.
pub open spec fn total_fields(fields: Seq<(Seq<char>, Json)>) -> nat
    decreases fields,
{
    if fields.len() == 0 {
        0
    } else {
        total_fields(fields.drop_last()) + weight(fields.last().1)
    }
}

pub proof fn total_split(a: Seq<(Seq<char>, Json)>, b: Seq<(Seq<char>, Json)>)
    ensures
        total_fields(a + b) == total_fields(a) + total_fields(b),
    decreases b.len(),
{
    if b.len() == 0 {
        assert(a + b =~= a);
    } else {
        total_split(a, b.drop_last());
        assert((a + b).drop_last() =~= a + b.drop_last());
        assert((a + b).last() == b.last());
    }
}

/// An item weighs no more than its list.
pub proof fn item_weight(items: Seq<Json>, i: int)
    requires
        0 <= i < items.len(),
    ensures
        weight(items[i]) <= total(items),
    decreases items.len(),
{
    if i < items.len() - 1 {
        item_weight(items.drop_last(), i);
        assert(items.drop_last()[i] == items[i]);
    }
}

/// A value weighs no more than its object.
pub proof fn field_weight(fields: Seq<(Seq<char>, Json)>, i: int)
    requires
        0 <= i < fields.len(),
    ensures
        weight(fields[i].1) <= total_fields(fields),
    decreases fields.len(),
{
    if i < fields.len() - 1 {
        field_weight(fields.drop_last(), i);
        assert(fields.drop_last()[i] == fields[i]);
    }
}

/// Leaving items out adds no weight, and takes off at least one for each.
pub proof fn kept_weight(items: Seq<Json>, keep: spec_fn(Json) -> bool)
    ensures
        total(items.filter(keep)) + (items.len() - items.filter(keep).len()) <= total(items),
        items.filter(keep).len() <= items.len(),
        (exists|i: int| 0 <= i < items.len() && !keep(#[trigger] items[i])) ==> items.filter(
            keep,
        ).len() < items.len(),
    decreases items.len(),
{
    reveal(Seq::filter);
    if items.len() > 0 {
        let less = items.drop_last();
        kept_weight(less, keep);
        let before = less.filter(keep);
        assert(weight(items.last()) >= 1);
        if keep(items.last()) {
            assert(before.push(items.last()).drop_last() =~= before);
            if exists|i: int| 0 <= i < items.len() && !keep(#[trigger] items[i]) {
                let i = choose|i: int| 0 <= i < items.len() && !keep(#[trigger] items[i]);
                assert(less[i] == items[i]);
            }
        }
    }
}

/// Values that weigh no more one by one weigh no more together, and less where one
/// of them does.
pub proof fn lighter_fields(a: Seq<(Seq<char>, Json)>, b: Seq<(Seq<char>, Json)>)
    requires
        a.len() == b.len(),
        forall|i: int| 0 <= i < a.len() ==> weight((#[trigger] a[i]).1) <= weight(b[i].1),
    ensures
        total_fields(a) <= total_fields(b),
        (exists|i: int| 0 <= i < a.len() && weight((#[trigger] a[i]).1) < weight(b[i].1))
            ==> total_fields(a) < total_fields(b),
    decreases a.len(),
{
    if a.len() > 0 {
        let less = a.drop_last();
        assert forall|i: int| 0 <= i < less.len() implies weight((#[trigger] less[i]).1) <= weight(
            b.drop_last()[i].1,
        ) by {
            assert(less[i] == a[i]);
        }
        lighter_fields(less, b.drop_last());
        assert(weight(a[a.len() - 1].1) <= weight(b[a.len() - 1].1));
        if exists|i: int| 0 <= i < a.len() && weight((#[trigger] a[i]).1) < weight(b[i].1) {
            let i = choose|i: int| 0 <= i < a.len() && weight((#[trigger] a[i]).1) < weight(b[i].1);
            if i < less.len() {
                assert(less[i] == a[i] && b.drop_last()[i] == b[i]);
            }
        }
    }
}

/// Items that weigh no more one by one weigh no more together, and less where one
/// of them does.
pub proof fn lighter_items(a: Seq<Json>, b: Seq<Json>)
    requires
        a.len() == b.len(),
        forall|i: int| 0 <= i < a.len() ==> weight(#[trigger] a[i]) <= weight(b[i]),
    ensures
        total(a) <= total(b),
        (exists|i: int| 0 <= i < a.len() && weight(#[trigger] a[i]) < weight(b[i])) ==> total(a)
            < total(b),
    decreases a.len(),
{
    if a.len() > 0 {
        let less = a.drop_last();
        assert forall|i: int| 0 <= i < less.len() implies weight(#[trigger] less[i]) <= weight(
            b.drop_last()[i],
        ) by {
            assert(less[i] == a[i]);
        }
        lighter_items(less, b.drop_last());
        assert(weight(a[a.len() - 1]) <= weight(b[a.len() - 1]));
        if exists|i: int| 0 <= i < a.len() && weight(#[trigger] a[i]) < weight(b[i]) {
            let i = choose|i: int| 0 <= i < a.len() && weight(#[trigger] a[i]) < weight(b[i]);
            if i < less.len() {
                assert(less[i] == a[i] && b.drop_last()[i] == b[i]);
            }
        }
    }
}

pub proof fn one_field(key: Seq<char>, value: Json)
    ensures
        total_fields(seq![(key, value)]) == weight(value),
{
    let one = seq![(key, value)];
    assert(one.drop_last() =~= Seq::<(Seq<char>, Json)>::empty());
    assert(total_fields(one.drop_last()) == 0);
}

pub proof fn updated_weight(
    fields: Seq<(Seq<char>, Json)>,
    at: int,
    key: Seq<char>,
    value: Json,
)
    requires
        0 <= at < fields.len(),
    ensures
        total_fields(fields.update(at, (key, value))) + weight(fields[at].1) == total_fields(fields)
            + weight(value),
        total_fields(fields.remove(at)) + weight(fields[at].1) == total_fields(fields),
{
    let a = fields.take(at);
    let b = fields.skip(at + 1);
    let old_one = seq![fields[at]];
    let new_one = seq![(key, value)];
    one_field(key, value);
    one_field(fields[at].0, fields[at].1);
    assert(fields =~= a + old_one + b);
    assert(fields.update(at, (key, value)) =~= a + new_one + b);
    assert(fields.remove(at) =~= a + b);
    total_split(a, old_one);
    total_split(a + old_one, b);
    total_split(a, new_one);
    total_split(a + new_one, b);
    total_split(a, b);
}

pub proof fn inserted_weight(
    fields: Seq<(Seq<char>, Json)>,
    at: int,
    key: Seq<char>,
    value: Json,
)
    requires
        0 <= at <= fields.len(),
    ensures
        total_fields(fields.insert(at, (key, value))) == total_fields(fields) + weight(value),
{
    let a = fields.take(at);
    let b = fields.skip(at);
    let new_one = seq![(key, value)];
    one_field(key, value);
    assert(fields =~= a + b);
    assert(fields.insert(at, (key, value)) =~= a + new_one + b);
    total_split(a, b);
    total_split(a, new_one);
    total_split(a + new_one, b);
}

/// Setting a field adds at most the weight of its value, and exactly the
/// difference where the field was there.
pub proof fn added_weight(fields: Seq<(Seq<char>, Json)>, key: Seq<char>, value: Json)
    ensures
        total_fields(json::with_field(fields, key, value)) <= total_fields(fields) + weight(value),
        match json::field(fields, key) {
            Some(former) => total_fields(json::with_field(fields, key, value)) + weight(former)
                == total_fields(fields) + weight(value),
            None => true,
        },
{
    json::position_bounds(fields, key, 0);
    let at = json::position_from(fields, key, 0);
    if at < fields.len() {
        updated_weight(fields, at, key, value);
    } else {
        inserted_weight(fields, json::slot_from(fields, key, 0), key, value);
    }
}

/// Taking a field out takes off its weight.
pub proof fn removed_weight(fields: Seq<(Seq<char>, Json)>, key: Seq<char>)
    ensures
        total_fields(json::without_field(fields, key)) <= total_fields(fields),
        if json::has_field(fields, key) {
            total_fields(json::without_field(fields, key)) < total_fields(fields)
        } else {
            json::without_field(fields, key) == fields
        },
{
    json::position_bounds(fields, key, 0);
    let at = json::position_from(fields, key, 0);
    if at < fields.len() {
        updated_weight(fields, at, key, Json::Null);
    }
}

} // verus!
