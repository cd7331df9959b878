//! What holds of every answer of the toy engine.

use vstd::prelude::*;

use crate::json;
use crate::json::Json;
use crate::outcome::{ErrorData, Rendered};
use crate::page;
use crate::text;
use crate::toy;
use crate::toy::{
    DecompileArgs, Decompiled, Dialect, FunctionPage, FunctionsArgs, InfoView, RenameArgs, Renamed,
    Toy,
};

verus! {

/// The functions that match are those whose name holds one of the parts asked for, in
/// order, and all of them where nothing is asked for.
pub proof fn what_matches_is_listed(all: Seq<InfoView>, parts: Seq<Seq<char>>)
    ensures
        toy::matching(all, parts) == all.filter(
            |entry: InfoView|
                parts.len() == 0 || exists|i: int|
                    0 <= i < parts.len() && toy::occurs(#[trigger] parts[i], entry.name),
        ),
        parts.len() == 0 ==> toy::matching(all, parts) == all,
    decreases all.len(),
{
    reveal(Seq::filter);
    let keep = |entry: InfoView|
        parts.len() == 0 || exists|i: int|
            0 <= i < parts.len() && toy::occurs(#[trigger] parts[i], entry.name);
    if all.len() > 0 {
        let less = all.drop_last();
        what_matches_is_listed(less, parts);
        assert(keep(all.last()) == toy::is_wanted(all.last().name, parts));
        assert(all =~= less.push(all.last()));
    } else {
        assert(toy::matching(all, parts) =~= all.filter(keep));
        assert(toy::matching(all, parts) =~= all);
    }
}

/// A part occurs in a name exactly where the name is something, the part and something.
pub proof fn parts_occur_in_their_names(before: Seq<char>, part: Seq<char>, after: Seq<char>)
    ensures
        toy::occurs(part, before + part + after),
{
    let whole = before + part + after;
    let at = before.len() as int;
    assert(whole.subrange(at, at + part.len()) =~= part);
}

/// A page of functions says how many match, not how many it holds, and holds functions
/// that do; an offset that is none is the only thing that is refused.
pub proof fn pages_count_what_matches(
    engine: &Toy,
    a: FunctionsArgs,
    answer: Result<Rendered<FunctionPage>, ErrorData>,
)
    requires
        call_ensures(Toy::list_functions, (engine, a), answer),
    ensures
        answer is Err <==> a.offset is Some && (a.offset->0 < 0 || a.offset->0 > usize::MAX),
        answer matches Ok(shown) ==> ({
            let wanted = toy::matching(toy::known_functions(), toy::parts_wanted(a.filter));
            let start = if a.offset is Some {
                a.offset->0 as int
            } else {
                0
            };
            &&& shown.0.total == wanted.len()
            &&& forall|i: int|
                0 <= i < shown.0.functions@.len() ==> start + i < wanted.len()
                    && (#[trigger] shown.0.functions@[i])@ == wanted[start + i]
            &&& shown.0.next_offset is Some <==> shown.0.functions@.len() > 0 && start
                + shown.0.functions@.len() < wanted.len()
            &&& shown.0.next_offset is Some ==> shown.0.next_offset->0 == start
                + shown.0.functions@.len()
        }),
{
    if let Ok(shown) = answer {
        let wanted = toy::matching(toy::known_functions(), toy::parts_wanted(a.filter));
        let start = if a.offset is Some {
            a.offset->0 as int
        } else {
            0
        };
        let list = toy::infos(shown.0.functions@);
        let limit = page::served(a.limit, 1000, 1000);
        assert(list.len() == shown.0.functions@.len());
        assert forall|i: int| 0 <= i < shown.0.functions@.len() implies start + i < wanted.len()
            && (#[trigger] shown.0.functions@[i])@ == wanted[start + i] by {
            assert(list[i] == shown.0.functions@[i]@);
            assert(page::window(wanted, start, limit)[i] == wanted[start + i]);
        }
    }
}

/// A decompilation has as many lines as were asked for or as there are, and says
/// whether any were left out.
pub proof fn cut_code_says_so(
    engine: &Toy,
    a: DecompileArgs,
    answer: Result<Rendered<Decompiled>, ErrorData>,
)
    requires
        call_ensures(Toy::decompile, (engine, a), answer),
    ensures
        answer matches Ok(shown) && ({
            let code = toy::pseudocode(a.func@, a.with_body != Some(false), a.dialect);
            let all = text::lines(code);
            &&& a.limit is None && all.len() <= 10_000 ==> !shown.0.truncated && shown.0.c_code@
                == text::joined(all, "\n"@)
            &&& a.limit is Some && 1 <= a.limit->0 <= 10_000 ==> (shown.0.truncated
                <==> a.limit->0 < all.len())
            &&& a.limit is Some && 1 <= a.limit->0 <= 10_000 && a.limit->0 < all.len()
                ==> shown.0.c_code@ == text::joined(all.take(a.limit->0 as int), "\n"@)
            &&& a.limit is Some && a.limit->0 < 1 && all.len() > 1 ==> shown.0.truncated
                && shown.0.c_code@ == text::joined(all.take(1), "\n"@)
        }),
{
}

/// Pseudocode names the function and its dialect, C where none is said, and ends with a
/// body or without one.
pub proof fn code_is_in_its_dialect(func: Seq<char>)
    ensures
        toy::pseudocode(func, false, None) == "// "@ + "c"@ + "\nint "@ + func + "(void)"@ + ";"@,
        toy::pseudocode(func, true, None) == "// "@ + "c"@ + "\nint "@ + func + "(void)"@
            + " {\n    return 0;\n}"@,
        toy::pseudocode(func, true, Some(Dialect::Rust)) == "// "@ + "rust"@ + "\nint "@ + func
            + "(void)"@ + " {\n    return 0;\n}"@,
        toy::pseudocode(func, true, Some(Dialect::Objc)) == "// "@ + "objc"@ + "\nint "@ + func
            + "(void)"@ + " {\n    return 0;\n}"@,
        toy::pseudocode(func, true, Some(Dialect::C)) == toy::pseudocode(func, true, None),
{
}

/// What a hexadecimal digit counts.
pub open spec fn hex_value(c: char) -> int {
    if '0' <= c <= '9' {
        c as u32 - '0' as u32
    } else {
        c as u32 - 'a' as u32 + 10
    }
}

/// What hexadecimal digits spell.
pub open spec fn hex_number(digits: Seq<char>) -> int
    decreases digits.len(),
{
    if digits.len() == 0 {
        0
    } else {
        hex_number(digits.drop_last()) * 16 + hex_value(digits.last())
    }
}

/// An address is written in small hexadecimal digits that spell it, without a leading
/// zero; a negative one stands for what its sixty-four bits do.
pub proof fn addresses_spell_their_bits(n: nat, signed: i64)
    ensures
        hex_number(toy::hex(n)) == n,
        toy::hex(n).len() > 0,
        toy::hex(n).len() > 1 ==> toy::hex(n)[0] != '0',
        forall|i: int|
            0 <= i < toy::hex(n).len() ==> ('0' <= #[trigger] toy::hex(n)[i] <= '9' || 'a'
                <= toy::hex(n)[i] <= 'f'),
        signed >= 0 ==> toy::bits(signed) == signed,
        signed < 0 ==> toy::bits(signed) == 18_446_744_073_709_551_616 + signed,
    decreases n,
{
    reveal_with_fuel(hex_number, 2);
    let all = toy::hex(n);
    if n < 16 {
        assert(all.drop_last() =~= Seq::empty());
    } else {
        addresses_spell_their_bits(n / 16, signed);
        assert(all.drop_last() =~= toy::hex(n / 16));
        assert(all[0] == toy::hex(n / 16)[0]);
        if toy::hex(n / 16).len() == 1 && toy::hex(n / 16)[0] == '0' {
            assert(hex_number(toy::hex(n / 16)) == 0) by {
                assert(toy::hex(n / 16).drop_last() =~= Seq::empty());
            }
        }
    }
}

/// A renaming answers with the address and the new name as they were given.
pub proof fn renamings_answer_what_was_asked(
    engine: &Toy,
    a: RenameArgs,
    answer: Result<Rendered<Renamed>, ErrorData>,
)
    requires
        call_ensures(Toy::rename, (engine, a), answer),
    ensures
        answer matches Ok(done) && done.0.ok && done.0.new_name@ == a.new_name@ && done.0.addr@.len()
            > 2 && done.0.addr@[0] == '0' && done.0.addr@[1] == 'x' && hex_number(
            done.0.addr@.skip(2),
        ) == toy::bits(a.addr),
{
    reveal_strlit("0x");
    addresses_spell_their_bits(toy::bits(a.addr), a.addr);
    if let Ok(done) = answer {
        assert(done.0.addr@.skip(2) =~= toy::hex(toy::bits(a.addr)));
        assert(done.0.addr@[0] == "0x"@[0] && done.0.addr@[1] == "0x"@[1]);
    }
}

/// The manifest lists every tool by name, in order.
pub proof fn the_manifest_lists_every_tool(names: Seq<Seq<char>>, at: int)
    requires
        0 <= at < names.len(),
    ensures
        toy::manifest(names).get("tools"@) matches Some(Json::List(items)) && items.len()
            == names.len() && items[at] == Json::Text(names[at]),
{
    let list = Json::List(names.map_values(|name: Seq<char>| Json::Text(name)));
    json::set_field(Seq::empty(), "tools"@, list, "tools"@);
}

} // verus!
