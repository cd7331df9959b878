//! Sets of names, kept in ascending order.

use vstd::prelude::*;

use crate::text;
use crate::text::{is_text_before, list_has};

verus! {

/// Where a name goes: before the first greater one at or after `from`.
pub open spec fn slot_from(names: Seq<Seq<char>>, name: Seq<char>, from: int) -> int
    decreases names.len() - from,
{
    if from >= names.len() {
        names.len() as int
    } else if text::text_before(name, names[from]) {
        from
    } else {
        slot_from(names, name, from + 1)
    }
}

/// A set of names with one more in it.
pub open spec fn entered(names: Seq<Seq<char>>, name: Seq<char>) -> Seq<Seq<char>> {
    if names.contains(name) {
        names
    } else {
        names.insert(slot_from(names, name, 0), name)
    }
}

/// The set of the names of a list.
pub open spec fn set_of(list: Seq<Seq<char>>) -> Seq<Seq<char>>
    decreases list.len(),
{
    if list.len() == 0 {
        Seq::empty()
    } else {
        entered(set_of(list.drop_last()), list.last())
    }
}

/// The names of one set that are not in another.
pub open spec fn difference(names: Seq<Seq<char>>, other: Seq<Seq<char>>) -> Seq<Seq<char>> {
    names.filter(|name: Seq<char>| !other.contains(name))
}

/// Names in strictly ascending order.
pub open spec fn ascending(names: Seq<Seq<char>>) -> bool {
    forall|i: int, j: int|
        0 <= i < j < names.len() ==> text::text_before(#[trigger] names[i], #[trigger] names[j])
}

pub proof fn slot_bounds(names: Seq<Seq<char>>, name: Seq<char>, from: int)
    requires
        0 <= from <= names.len(),
    ensures
        from <= slot_from(names, name, from) <= names.len(),
        slot_from(names, name, from) < names.len() ==> text::text_before(
            name,
            names[slot_from(names, name, from)],
        ),
        forall|i: int|
            from <= i < slot_from(names, name, from) ==> !text::text_before(
                name,
                #[trigger] names[i],
            ),
    decreases names.len() - from,
{
    if from < names.len() {
        slot_bounds(names, name, from + 1);
    }
}

/// Entering a name keeps the others, adds that one and keeps the order.
pub proof fn entering(names: Seq<Seq<char>>, name: Seq<char>, other: Seq<char>)
    ensures
        entered(names, name).contains(other) <==> names.contains(other) || other == name,
        ascending(names) ==> ascending(entered(names, name)),
{
    slot_bounds(names, name, 0);
    let slot = slot_from(names, name, 0);
    let after = entered(names, name);
    if !names.contains(name) {
        assert(after[slot] == name);
        if names.contains(other) {
            let i = choose|i: int| 0 <= i < names.len() && names[i] == other;
            if i < slot {
                assert(after[i] == other);
            } else {
                assert(after[i + 1] == other);
            }
        }
        if after.contains(other) && other != name {
            let i = choose|i: int| 0 <= i < after.len() && after[i] == other;
            if i < slot {
                assert(names[i] == other);
            } else {
                assert(names[i - 1] == other);
            }
        }
        if ascending(names) {
            assert forall|i: int, j: int| 0 <= i < j < after.len() implies text::text_before(
                #[trigger] after[i],
                #[trigger] after[j],
            ) by {
                if j < slot {
                    assert(after[i] == names[i] && after[j] == names[j]);
                } else if j == slot {
                    assert(after[i] == names[i]);
                    assert(names.contains(names[i]));
                    text::text_order(names[i], name, name);
                } else if i == slot {
                    assert(after[j] == names[j - 1]);
                    text::text_order(name, names[slot], names[j - 1]);
                } else if i < slot {
                    assert(after[i] == names[i] && after[j] == names[j - 1]);
                } else {
                    assert(after[i] == names[i - 1] && after[j] == names[j - 1]);
                }
            }
        }
    }
}

/// The set of a list holds exactly the names of the list, in ascending order.
pub proof fn set_holds(list: Seq<Seq<char>>, name: Seq<char>)
    ensures
        set_of(list).contains(name) <==> list.contains(name),
        ascending(set_of(list)),
    decreases list.len(),
{
    if list.len() > 0 {
        let less = list.drop_last();
        set_holds(less, name);
        entering(set_of(less), list.last(), name);
        if list.contains(name) && !less.contains(name) {
            let i = choose|i: int| 0 <= i < list.len() && list[i] == name;
            if i < less.len() {
                assert(less[i] == name);
            }
        }
        if less.contains(name) {
            let i = choose|i: int| 0 <= i < less.len() && less[i] == name;
            assert(list[i] == name);
        }
        assert(list.contains(list.last())) by {
            assert(list[list.len() - 1] == list.last());
        }
    }
}

/// Adds a name to a set.
pub fn enter(names: &mut Vec<String>, name: &str)
    ensures
        text::texts(final(names)@) == entered(text::texts(old(names)@), name@),
{
    let ghost before = text::texts(names@);
    if list_has(names.as_slice(), name) {
        return;
    }
    let mut slot: usize = 0;
    while slot < names.len() && !is_text_before(name, names[slot].as_str())
        invariant
            slot <= names.len(),
            names@ == old(names)@,
            before == text::texts(names@),
            slot_from(before, name@, 0) == slot_from(before, name@, slot as int),
        decreases names.len() - slot,
    {
        slot += 1;
    }
    names.insert(slot, name.to_owned());
    assert(text::texts(names@) =~= before.insert(slot as int, name@));
}

/// The set of the names of a list.
pub fn collect(list: &[String]) -> (res: Vec<String>)
    ensures
        text::texts(res@) == set_of(text::texts(list@)),
{
    let ghost all = text::texts(list@);
    let mut out: Vec<String> = Vec::new();
    let mut i: usize = 0;
    assert(text::texts(out@) =~= set_of(all.take(0)));
    while i < list.len()
        invariant
            i <= list.len(),
            all == text::texts(list@),
            text::texts(out@) == set_of(all.take(i as int)),
        decreases list.len() - i,
    {
        assert(all.take(i + 1).drop_last() =~= all.take(i as int));
        enter(&mut out, list[i].as_str());
        i += 1;
    }
    assert(all.take(all.len() as int) =~= all);
    out
}

/// The names of one set that are not in another.
pub fn without(names: &[String], other: &[String]) -> (res: Vec<String>)
    ensures
        text::texts(res@) == difference(text::texts(names@), text::texts(other@)),
{
    let ghost all = text::texts(names@);
    let ghost rest = text::texts(other@);
    let ghost keep = |name: Seq<char>| !rest.contains(name);
    let mut out: Vec<String> = Vec::new();
    let mut i: usize = 0;
    assert(text::texts(out@) =~= all.take(0).filter(keep)) by {
        reveal(Seq::filter);
    }
    while i < names.len()
        invariant
            i <= names.len(),
            all == text::texts(names@),
            rest == text::texts(other@),
            keep == (|name: Seq<char>| !rest.contains(name)),
            text::texts(out@) == all.take(i as int).filter(keep),
        decreases names.len() - i,
    {
        let ghost former = out@;
        reveal(Seq::filter);
        assert(all.take(i + 1).drop_last() =~= all.take(i as int));
        assert(all.take(i + 1).last() == names@[i as int]@);
        if !list_has(other, names[i].as_str()) {
            out.push(names[i].clone());
            assert(text::texts(out@) =~= text::texts(former).push(names@[i as int]@));
        }
        i += 1;
    }
    assert(all.take(all.len() as int) =~= all);
    out
}

} // verus!
