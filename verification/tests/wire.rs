use vibrev::args::{parse_int, parse_optional_unsigned, parse_u64, parse_unsigned};
use vibrev::page::{bounds, capped, next_offset, Page};

#[test]
fn a_negative_wire_value_is_refused_rather_than_wrapped() {
    assert_eq!(parse_unsigned::<usize>(7, "limit"), Ok(7));
    let refused = parse_unsigned::<usize>(-1, "offset").expect_err("negative offset");
    assert_eq!(refused.message(), "offset (-1) is out of range for usize");
    // The cast this exists to prevent, for the record.
    assert_eq!(-1i64 as usize, usize::MAX);
}

#[test]
fn a_value_too_wide_for_the_destination_is_refused_too() {
    assert!(parse_unsigned::<u32>(i64::from(u32::MAX) + 1, "length").is_err());
    assert_eq!(
        parse_unsigned::<u32>(i64::from(u32::MAX), "length"),
        Ok(u32::MAX)
    );
}

#[test]
fn an_absent_parameter_stays_absent() {
    assert_eq!(
        parse_optional_unsigned::<u64>(None, "timeout_secs"),
        Ok(None)
    );
    assert_eq!(
        parse_optional_unsigned::<u64>(Some(60), "timeout_secs"),
        Ok(Some(60))
    );
    assert!(parse_optional_unsigned::<u64>(Some(-60), "timeout_secs").is_err());
}

#[test]
fn integers_accept_every_base_an_agent_might_use() {
    assert_eq!(parse_int("184"), Ok(184));
    assert_eq!(parse_int("0xb8"), Ok(184));
    assert_eq!(parse_int("0XB8"), Ok(184));
    assert_eq!(parse_int("0b1011"), Ok(11));
    assert_eq!(parse_int("-0x10"), Ok(-16));
    assert!(parse_int("main").is_err());
}

#[test]
fn integers_at_the_edges_are_read() {
    assert_eq!(parse_int("9223372036854775807"), Ok(i64::MAX));
    assert!(parse_int("9223372036854775808").is_err());
    assert!(parse_int("").is_err());
    assert!(parse_int("0x").is_err());
    assert_eq!(parse_int("  42  "), Ok(42));
    assert_eq!(parse_int("-9223372036854775807"), Ok(-i64::MAX));
    assert!(parse_int("-9223372036854775808").is_err());
    assert_eq!(parse_int("main"), Err("\"main\" is not a valid integer (use 184 or 0xb8)".to_owned()));
}

/// One optional leading minus, and no sign anywhere behind it.
#[test]
fn an_integer_has_one_sign_at_most() {
    for bad in ["--5", "--9223372036854775808", "-+5", "+-5", "0x-5", "0x+5", "0b-1", "-0x-1", "5-"] {
        assert!(parse_int(bad).is_err(), "{bad}");
    }
    assert_eq!(parse_int("-5"), Ok(-5));
    assert_eq!(parse_int("+5"), Ok(5));
}

#[test]
fn unsigned_numbers_are_read_in_decimal() {
    assert_eq!(parse_u64("18446744073709551615"), Some(u64::MAX));
    assert_eq!(parse_u64("18446744073709551616"), None);
    assert_eq!(parse_u64("+7"), Some(7));
    assert_eq!(parse_u64("-7"), None);
    assert_eq!(parse_u64(""), None);
}

#[test]
fn a_full_page_with_more_behind_it_advances() {
    let page = Page::of((0..250).collect(), 0, 100);

    assert_eq!(page.items.len(), 100);
    assert_eq!(page.total, 250);
    assert_eq!(page.next_offset, Some(100));
    assert!(page.is_truncated());
}

#[test]
fn the_page_that_reaches_the_end_stops() {
    let page = Page::of((0..250).collect(), 200, 100);

    assert_eq!(page.items.len(), 50);
    assert_eq!(page.total, 250);
    assert_eq!(page.next_offset, None);
}

/// The three shapes that produce a `next_offset` which does not advance.
#[test]
fn a_page_that_did_not_move_never_offers_a_next_one() {
    // Nothing was asked for.
    assert_eq!(next_offset(0, 0, 250), None);
    // The offset is past everything there is.
    let page = Page::of((0..250).collect::<Vec<_>>(), 900, 100);
    assert!(page.items.is_empty());
    assert_eq!(page.next_offset, None);
    // The offset is a number a caller can type, and arithmetic on it must
    // not wrap.
    assert_eq!(next_offset(usize::MAX, 10, 250), None);
}

/// A scan that filled its page and stopped at its own ceiling.
#[test]
fn a_page_that_is_all_the_scan_saw_does_not_invent_a_next_one() {
    let page = Page::counted((0..20_000).collect::<Vec<_>>(), 0, 20_000);

    assert_eq!(page.next_offset, None);
    assert!(!page.is_truncated());
}

/// The count comes from the walk, not from what the walk kept.
#[test]
fn a_streamed_page_reports_the_total_it_was_given() {
    // Filled entries 100..=199 of a table with 4,000 matches in it.
    let page = Page::counted((100..200).collect::<Vec<_>>(), 100, 4_000);

    assert_eq!(page.total, 4_000);
    assert_eq!(page.next_offset, Some(200));
    assert!(page.is_truncated());
}

#[test]
fn a_negative_offset_is_refused_and_a_wild_limit_is_clamped() {
    assert!(bounds(Some(-1), None, 100, 10_000).is_err());
    assert_eq!(bounds(None, None, 100, 10_000), Ok((0, 100)));
    assert_eq!(
        bounds(Some(40), Some(1_000_000), 100, 10_000),
        Ok((40, 10_000))
    );
}

/// `limit = 0` is the request that pages forever, so it is not served.
#[test]
fn the_smallest_page_a_caller_can_ask_for_is_one_entry() {
    assert_eq!(capped(Some(0), 100, 10_000), 1);
    assert_eq!(capped(Some(-5), 100, 10_000), 1);
    assert_eq!(capped(Some(7), 100, 10_000), 7);
    assert_eq!(capped(Some(5), 100, usize::MAX), 5);

    let page = Page::of(
        (0..250).collect::<Vec<_>>(),
        0,
        capped(Some(0), 100, 10_000),
    );
    assert_eq!(page.next_offset, Some(1), "a served page always advances");
}

/// A default outside the engine's own ceiling is the engine's bug, but it
/// is not worth a panic in a request path: the ceiling wins.
#[test]
fn a_default_larger_than_the_maximum_is_brought_back_inside_it() {
    assert_eq!(capped(None, 5_000, 100), 100);
    assert_eq!(capped(None, 0, 100), 1);
}

#[test]
fn following_the_pages_gives_every_entry_once() {
    let all: Vec<u32> = (0..97).collect();
    let mut seen: Vec<u32> = Vec::new();
    let mut offset = Some(0);
    while let Some(at) = offset {
        let page = Page::of(all.clone(), at, 10);
        seen.extend(page.items);
        offset = page.next_offset;
    }
    assert_eq!(seen, all);
}

#[test]
fn the_walk_ends_after_as_many_pages_as_it_takes() {
    for (entries, limit, expected) in [(97, 10, 10), (100, 10, 10), (101, 10, 11), (0, 10, 1), (3, 7, 1)] {
        let all: Vec<u32> = (0..entries).collect();
        let mut calls = 0;
        let mut offset = Some(0);
        while let Some(at) = offset {
            let page = Page::of(all.clone(), at, limit);
            calls += 1;
            assert!(page.next_offset.is_none_or(|next| next > at));
            offset = page.next_offset;
        }
        assert_eq!(calls, expected, "{entries} entries, {limit} at a time");
    }
}
