//! One page of a longer answer, and the truth about what is left behind it.
//!
//! A list of a hundred names is a believable answer whether a hundred exist or
//! ten thousand do. [`next_offset`] is the one definition of where the rest
//! starts, and it says there is none wherever a page did not move.

use vstd::prelude::*;

use crate::args::{parse_optional_unsigned, OutOfRange};

verus! {

/// A page cut out of a longer answer, carrying what the caller needs to ask for
/// the rest of it.
#[derive(Debug, Clone, PartialEq, Eq)]
pub struct Page<T> {
    /// The entries in this page, in the order the collection had them.
    pub items: Vec<T>,
    /// How many entries exist in total, not how many are in `items`.
    pub total: usize,
    /// Where the next page starts, or `None` when this page ended the answer.
    pub next_offset: Option<usize>,
}

/// What follows a page of `returned` entries that began at `offset`.
pub open spec fn follow_on(offset: int, returned: int, total: int) -> Option<int> {
    if returned > 0 && offset + returned < total {
        Some(offset + returned)
    } else {
        None
    }
}

/// The entries of the page that begins at `offset`.
pub open spec fn window<T>(all: Seq<T>, offset: int, limit: int) -> Seq<T> {
    if offset >= all.len() {
        Seq::empty()
    } else if all.len() - offset <= limit {
        all.skip(offset)
    } else {
        all.subrange(offset, offset + limit)
    }
}

impl<T> Page<T> {
    /// Cuts a page out of a collection that is complete in memory.
    pub fn of(all: Vec<T>, offset: usize, limit: usize) -> (res: Self)
        ensures
            res.items@ == window(all@, offset as int, limit as int),
            res.total == all@.len(),
            match res.next_offset {
                Some(next) => follow_on(
                    offset as int,
                    res.items@.len() as int,
                    all@.len() as int,
                ) == Some(next as int),
                None => follow_on(offset as int, res.items@.len() as int, all@.len() as int) is None,
            },
    {
        let mut rest = all;
        let total = rest.len();
        let from = if offset < total {
            offset
        } else {
            total
        };
        let mut items = rest.split_off(from);
        if limit < items.len() {
            items.truncate(limit);
        }
        assert(items@ =~= window(all@, offset as int, limit as int));
        let next = next_offset(offset, items.len(), total);
        Page { items, total, next_offset: next }
    }

    /// A page that was cut during the walk, with the count kept separately.
    pub fn counted(items: Vec<T>, offset: usize, total: usize) -> (res: Self)
        ensures
            res.items == items,
            res.total == total,
            match res.next_offset {
                Some(next) => follow_on(offset as int, items@.len() as int, total as int) == Some(
                    next as int,
                ),
                None => follow_on(offset as int, items@.len() as int, total as int) is None,
            },
    {
        let next = next_offset(offset, items.len(), total);
        Page { items, total, next_offset: next }
    }

    /// Was anything held back?
    pub fn is_truncated(&self) -> (res: bool)
        ensures
            res == (self.items@.len() < self.total),
    {
        self.items.len() < self.total
    }
}

/// Where the next page starts, or `None` when this page ended the answer.
///
/// There has to be something past this page, and this page has to have moved: a
/// `limit` of zero, or an `offset` past the end, would otherwise hand back the
/// offset it was given, and a client that follows it would never stop.
pub fn next_offset(offset: usize, returned: usize, total: usize) -> (res: Option<usize>)
    ensures
        match res {
            Some(next) => follow_on(offset as int, returned as int, total as int) == Some(
                next as int,
            ),
            None => follow_on(offset as int, returned as int, total as int) is None,
        },
{
    let consumed = offset.saturating_add(returned);
    if returned > 0 && consumed < total {
        Some(consumed)
    } else {
        None
    }
}

/// The page size that is served for what was asked.
pub open spec fn served(limit: Option<i64>, default: int, max: int) -> int {
    let most = if max < 1 {
        1
    } else {
        max
    };
    let asked = match limit {
        Some(limit) => limit as int,
        None => default,
    };
    if asked < 1 {
        1
    } else if asked > most {
        most
    } else {
        asked
    }
}

/// Resolves the wire's `offset` and `limit` into the numbers a tool counts in.
///
/// An unreasonable `limit` gets the nearest reasonable one. A negative `offset`
/// is not a question, and is refused.
pub fn bounds(
    offset: Option<i64>,
    limit: Option<i64>,
    default: usize,
    max: usize,
) -> (res: Result<(usize, usize), OutOfRange>)
    ensures
        match res {
            Ok((from, size)) => (match offset {
                Some(asked) => from == asked,
                None => from == 0,
            }) && size == served(limit, default as int, max as int),
            Err(refusal) => offset is Some && (offset->0 < 0 || offset->0 > usize::MAX)
                && refusal.field@ == "offset"@ && refusal.value == offset->0 && refusal.expected@
                == "usize"@,
        },
{
    match parse_optional_unsigned::<usize>(offset, "offset") {
        Ok(Some(from)) => Ok((from, capped(limit, default, max))),
        Ok(None) => Ok((0, capped(limit, default, max))),
        Err(refusal) => Err(refusal),
    }
}

/// A page size the tool will actually serve, from whatever arrived: in
/// `1..=max`, and at least one.
pub fn capped(limit: Option<i64>, default: usize, max: usize) -> (res: usize)
    ensures
        res == served(limit, default as int, max as int),
{
    let most = if max < 1 {
        1
    } else {
        max
    };
    match limit {
        Some(limit) => if limit < 1 {
            1
        } else if limit as i128 > most as i128 {
            most
        } else {
            limit as usize
        },
        None => if default < 1 {
            1
        } else if default > most {
            most
        } else {
            default
        },
    }
}

/// A next page starts past this one and inside the answer, so a client that
/// follows `next_offset` always arrives.
pub proof fn next_page_advances(offset: int, returned: int, total: int)
    ensures
        match follow_on(offset, returned, total) {
            Some(next) => offset < next < total,
            None => true,
        },
{
}

/// A served page size is at least one and at most the greatest allowed, so a
/// served page that is not past the end always moves.
pub proof fn served_page_moves<T>(
    all: Seq<T>,
    offset: int,
    limit: Option<i64>,
    default: int,
    max: int,
)
    requires
        0 <= offset < all.len(),
    ensures
        1 <= served(limit, default, max),
        served(limit, default, max) <= max || max < 1,
        window(all, offset, served(limit, default, max)).len() > 0,
{
}

/// What a client gets that starts at `offset` and follows `next_offset` until
/// there is none.
pub open spec fn followed<T>(all: Seq<T>, offset: int, limit: int) -> Seq<T>
    decreases all.len() - offset,
{
    let page = window(all, offset, limit);
    match follow_on(offset, page.len() as int, all.len() as int) {
        Some(next) => page + followed(all, next, limit),
        None => page,
    }
}

/// Following the pages gives every entry once, in order, from where the client
/// began.
pub proof fn pages_cover_everything<T>(all: Seq<T>, offset: int, limit: int)
    requires
        0 <= offset <= all.len(),
        limit >= 1,
    ensures
        followed(all, offset, limit) == all.skip(offset),
    decreases all.len() - offset,
{
    let page = window(all, offset, limit);
    match follow_on(offset, page.len() as int, all.len() as int) {
        Some(next) => {
            pages_cover_everything(all, next, limit);
            assert(page + all.skip(next) =~= all.skip(offset));
        },
        None => {
            assert(page =~= all.skip(offset));
        },
    }
}

/// How many pages a client asks for that starts at `offset` and follows
/// `next_offset` until there is none.
pub open spec fn calls<T>(all: Seq<T>, offset: int, limit: int) -> nat
    decreases all.len() - offset,
{
    let page = window(all, offset, limit);
    match follow_on(offset, page.len() as int, all.len() as int) {
        Some(next) => 1 + calls(all, next, limit),
        None => 1,
    }
}

/// The walk ends after as many pages as it takes to hold what is there, and after
/// one where there is nothing.
pub proof fn walk_ends_in_time<T>(all: Seq<T>, offset: int, limit: int)
    requires
        0 <= offset <= all.len(),
        limit >= 1,
    ensures
        calls(all, offset, limit) == (if offset == all.len() {
            1
        } else {
            (all.len() - offset + limit - 1) / limit
        }),
    decreases all.len() - offset,
{
    let left = all.len() - offset;
    let page = window(all, offset, limit);
    match follow_on(offset, page.len() as int, all.len() as int) {
        Some(next) => {
            assert(page.len() == limit);
            walk_ends_in_time(all, next, limit);
            vstd::arithmetic::div_mod::lemma_div_minus_one(left + limit - 1, limit);
        },
        None => {
            if left > 0 {
                assert(left <= limit);
                assert((left + limit - 1) / limit == 1) by (nonlinear_arith)
                    requires
                        1 <= left <= limit,
                ;
            }
        },
    }
}

} // verus!
