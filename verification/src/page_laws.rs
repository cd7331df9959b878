//! What holds of every page that is cut out of a longer answer.

use vstd::prelude::*;

use crate::args::OutOfRange;
use crate::page;
use crate::page::Page;

verus! {

/// A page holds the entries from its offset on, in order and without a gap, as many as
/// were asked for or as are left.
pub proof fn pages_are_cut_in_order<T>(all: Seq<T>, offset: int, limit: int, at: int)
    requires
        0 <= offset,
        0 <= limit,
    ensures
        offset >= all.len() ==> page::window(all, offset, limit).len() == 0,
        offset < all.len() && limit <= all.len() - offset ==> page::window(
            all,
            offset,
            limit,
        ).len() == limit,
        offset < all.len() && limit > all.len() - offset ==> page::window(
            all,
            offset,
            limit,
        ).len() == all.len() - offset,
        0 <= at < page::window(all, offset, limit).len() ==> page::window(all, offset, limit)[at]
            == all[offset + at],
{
}

/// A page says how many entries there are in all, and where the next one starts exactly
/// where it moved and left something behind.
pub proof fn pages_say_what_is_left<T>(all: Vec<T>, offset: usize, limit: usize, cut: Page<T>)
    requires
        call_ensures(Page::<T>::of, (all, offset, limit), cut),
    ensures
        cut.total == all@.len(),
        cut.items@.len() <= limit,
        forall|i: int|
            0 <= i < cut.items@.len() ==> offset + i < all@.len() && #[trigger] cut.items@[i]
                == all@[offset + i],
        cut.next_offset is Some <==> 0 < cut.items@.len() && offset + cut.items@.len() < all@.len(),
        cut.next_offset is Some ==> cut.next_offset->0 == offset + cut.items@.len(),
        cut.next_offset is None ==> cut.items@.len() == 0 || offset + cut.items@.len()
            == all@.len(),
{
    pages_are_cut_in_order(all@, offset as int, limit as int, 0);
}

/// The size that is served is the one asked for where it lies between one and the
/// most, and else the nearest that does.
pub proof fn the_nearest_size_is_served(limit: Option<i64>, default: int, max: int)
    ensures
        max >= 1 && limit is Some && 1 <= limit->0 <= max ==> page::served(limit, default, max)
            == limit->0,
        max >= 1 && limit is None && 1 <= default <= max ==> page::served(limit, default, max)
            == default,
        max >= 1 && limit is Some && limit->0 > max ==> page::served(limit, default, max) == max,
        max >= 1 && limit is None && default > max ==> page::served(limit, default, max) == max,
        limit is Some && limit->0 < 1 ==> page::served(limit, default, max) == 1,
        limit is None && default < 1 ==> page::served(limit, default, max) == 1,
        max < 1 ==> page::served(limit, default, max) == 1,
{
}

/// An offset is taken as it is, or as zero where none is given; one that no count can
/// be is refused by name, whatever the limit.
pub proof fn offsets_are_taken_or_refused(
    offset: Option<i64>,
    limit: Option<i64>,
    default: usize,
    max: usize,
    found: Result<(usize, usize), OutOfRange>,
)
    requires
        call_ensures(page::bounds, (offset, limit, default, max), found),
    ensures
        found is Err <==> offset is Some && (offset->0 < 0 || offset->0 > usize::MAX),
        found matches Ok(both) ==> both.0 == (if offset is Some {
            offset->0 as int
        } else {
            0
        }) && both.1 == page::served(limit, default as int, max as int),
        found matches Err(refusal) ==> refusal.field@ == "offset"@ && refusal.value == offset->0,
{
}

} // verus!
