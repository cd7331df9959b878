//! What holds of every selection of tools that a user asks for.

use vstd::prelude::*;

use crate::command::{Action, Matches};
use crate::names;
use crate::policy;
use crate::policy::{Refusal, Request, TaxonomyView, ToolPolicy};
use crate::text;
use crate::tool::ToolView;

verus! {

// ---------------------------------------------------------------------------
// The selection
// ---------------------------------------------------------------------------

/// Whether a name was asked for by a category.
pub open spec fn in_a_category(request: Request, name: Seq<char>) -> bool {
    exists|i: int|
        0 <= i < request.categories.len() && (request.taxonomy.members_of(
            #[trigger] request.categories[i],
        ) matches Some(members) && members.contains(name))
}

/// Whether a name was asked for by name.
pub open spec fn is_named(request: Request, name: Seq<char>) -> bool {
    exists|i: int|
        0 <= i < request.tools.len() && request.tool_meant(#[trigger] request.tools[i]) == Ok::<
            Seq<char>,
            Refusal,
        >(name)
}

/// Whether a name was excluded.
pub open spec fn is_excluded(request: Request, name: Seq<char>) -> bool {
    exists|i: int|
        0 <= i < request.excluded.len() && request.tool_meant(#[trigger] request.excluded[i])
            == Ok::<Seq<char>, Refusal>(name)
}

/// Whether a tool is left: it is in the catalog, it was asked for where anything was,
/// it was not excluded, and where only reading is allowed it only reads. Essential
/// tools need not be asked for, and may write.
pub open spec fn is_left(request: Request, name: Seq<char>) -> bool {
    &&& request.catalog.dom().contains(name)
    &&& request.categories.len() == 0 && request.tools.len() == 0 || in_a_category(request, name)
        || is_named(request, name) || request.essential.contains(name)
    &&& !is_excluded(request, name)
    &&& request.read_only ==> request.essential.contains(name) || !request.catalog[name]
}

/// Whether everything that a request names is there.
pub open spec fn is_known(request: Request) -> bool {
    &&& forall|i: int|
        0 <= i < request.categories.len() ==> request.taxonomy.members_of(
            #[trigger] request.categories[i],
        ) is Some
    &&& forall|i: int|
        0 <= i < request.tools.len() ==> request.tool_meant(#[trigger] request.tools[i]) is Ok
    &&& forall|i: int|
        0 <= i < request.excluded.len() ==> request.tool_meant(
            #[trigger] request.excluded[i],
        ) is Ok
}

proof fn categories_add_up(request: Request, start: Set<Seq<char>>, n: int, name: Seq<char>)
    requires
        0 <= n <= request.categories.len(),
    ensures
        request.with_categories(start, n) is Ok <==> forall|i: int|
            0 <= i < n ==> request.taxonomy.members_of(#[trigger] request.categories[i]) is Some,
        match request.with_categories(start, n) {
            Ok(left) => left.contains(name) <==> start.contains(name) || (
            request.catalog.dom().contains(name) && exists|i: int|
                0 <= i < n && (request.taxonomy.members_of(
                    #[trigger] request.categories[i],
                ) matches Some(members) && members.contains(name))),
            Err(refusal) => refusal is UnknownCategory && refusal->known
                == request.taxonomy.categories() && request.categories.contains(refusal->name)
                && request.taxonomy.members_of(refusal->name) is None,
        },
    decreases n,
{
    if n > 0 {
        categories_add_up(request, start, n - 1, name);
        assert(request.categories.contains(request.categories[n - 1]));
    }
}

proof fn tools_add_up(request: Request, start: Set<Seq<char>>, n: int, name: Seq<char>)
    requires
        0 <= n <= request.tools.len(),
    ensures
        request.with_tools(start, n) is Ok <==> forall|i: int|
            0 <= i < n ==> request.tool_meant(#[trigger] request.tools[i]) is Ok,
        match request.with_tools(start, n) {
            Ok(left) => left.contains(name) <==> start.contains(name) || exists|i: int|
                0 <= i < n && request.tool_meant(#[trigger] request.tools[i]) == Ok::<
                    Seq<char>,
                    Refusal,
                >(name),
            Err(refusal) => refusal is UnknownTool && request.tools.contains(refusal->0),
        },
    decreases n,
{
    if n > 0 {
        tools_add_up(request, start, n - 1, name);
        assert(request.tools.contains(request.tools[n - 1]));
    }
}

proof fn exclusions_add_up(request: Request, start: Set<Seq<char>>, n: int, name: Seq<char>)
    requires
        0 <= n <= request.excluded.len(),
    ensures
        request.without_excluded(start, n) is Ok <==> forall|i: int|
            0 <= i < n ==> request.tool_meant(#[trigger] request.excluded[i]) is Ok,
        match request.without_excluded(start, n) {
            Ok(left) => left.contains(name) <==> start.contains(name) && !exists|i: int|
                0 <= i < n && request.tool_meant(#[trigger] request.excluded[i]) == Ok::<
                    Seq<char>,
                    Refusal,
                >(name),
            Err(refusal) => refusal is UnknownTool && request.excluded.contains(refusal->0),
        },
    decreases n,
{
    if n > 0 {
        exclusions_add_up(request, start, n - 1, name);
        assert(request.excluded.contains(request.excluded[n - 1]));
    }
}

/// A selection that is made holds exactly the tools that are left.
pub proof fn what_is_left_is_selected(request: Request, name: Seq<char>)
    ensures
        match request.selection() {
            Ok(left) => left.contains(name) <==> is_left(request, name),
            Err(_) => true,
        },
{
    let n = request.categories.len() as int;
    let m = request.tools.len() as int;
    categories_add_up(request, request.start(), n, name);
    if let Ok(one) = request.with_categories(request.start(), n) {
        tools_add_up(request, one, m, name);
        if let Ok(two) = request.with_tools(one, m) {
            exclusions_add_up(
                request,
                request.with_essential(two),
                request.excluded.len() as int,
                name,
            );
            names_are_in_the_catalog(request, name);
        }
    }
}

proof fn names_are_in_the_catalog(request: Request, name: Seq<char>)
    ensures
        is_named(request, name) ==> request.catalog.dom().contains(name),
{
}

/// A selection is made exactly where everything that was named is there and a tool is
/// left that is not essential anyway. Otherwise the refusal says what is wrong: a
/// category that there is not, with those there are; a tool that there is not; or that
/// nothing is left.
pub proof fn refusals_say_what_is_wrong(request: Request)
    ensures
        request.selection() is Ok <==> is_known(request) && exists|name: Seq<char>| #[trigger]
            is_left(request, name) && !request.essential.contains(name),
        match request.selection() {
            Ok(_) => true,
            Err(Refusal::UnknownCategory { name, known }) => request.categories.contains(name)
                && request.taxonomy.members_of(name) is None && known
                == request.taxonomy.categories(),
            Err(Refusal::UnknownTool(name)) => (request.tools.contains(name)
                || request.excluded.contains(name)) && request.tool_meant(name) is Err,
            Err(Refusal::Empty) => is_known(request) && forall|name: Seq<char>| #[trigger]
                is_left(request, name) ==> request.essential.contains(name),
        },
{
    let n = request.categories.len() as int;
    let m = request.tools.len() as int;
    let k = request.excluded.len() as int;
    let any = Seq::<char>::empty();
    categories_add_up(request, request.start(), n, any);
    if let Ok(one) = request.with_categories(request.start(), n) {
        tools_add_up(request, one, m, any);
        unknown_tools_are_told(request, one, m);
        if let Ok(two) = request.with_tools(one, m) {
            let base = request.with_essential(two);
            exclusions_add_up(request, base, k, any);
            unknown_exclusions_are_told(request, base, k);
            if let Ok(three) = request.without_excluded(base, k) {
                let left = request.readable(three);
                assert forall|name: Seq<char>| left.contains(name) == is_left(request, name) by {
                    categories_add_up(request, request.start(), n, name);
                    tools_add_up(request, one, m, name);
                    exclusions_add_up(request, base, k, name);
                    names_are_in_the_catalog(request, name);
                }
                if exists|name: Seq<char>| #[trigger]
                    is_left(request, name) && !request.essential.contains(name) {
                    let name = choose|name: Seq<char>| #[trigger]
                        is_left(request, name) && !request.essential.contains(name);
                    assert(left.contains(name));
                }
                if exists|name: Seq<char>|
                    #[trigger] left.contains(name) && !request.essential.contains(name) {
                    let name = choose|name: Seq<char>|
                        #[trigger] left.contains(name) && !request.essential.contains(name);
                    assert(is_left(request, name));
                } else {
                    assert forall|name: Seq<char>| #[trigger]
                        is_left(request, name) implies request.essential.contains(name) by {
                        assert(left.contains(name));
                    }
                }
            }
        }
    }
}

proof fn unknown_tools_are_told(request: Request, start: Set<Seq<char>>, n: int)
    requires
        0 <= n <= request.tools.len(),
    ensures
        match request.with_tools(start, n) {
            Ok(_) => true,
            Err(refusal) => refusal is UnknownTool && request.tool_meant(refusal->0) is Err,
        },
    decreases n,
{
    if n > 0 {
        unknown_tools_are_told(request, start, n - 1);
    }
}

proof fn unknown_exclusions_are_told(request: Request, start: Set<Seq<char>>, n: int)
    requires
        0 <= n <= request.excluded.len(),
    ensures
        match request.without_excluded(start, n) {
            Ok(_) => true,
            Err(refusal) => refusal is UnknownTool && request.tool_meant(refusal->0) is Err,
        },
    decreases n,
{
    if n > 0 {
        unknown_exclusions_are_told(request, start, n - 1);
    }
}

/// A name means the tool that is called so; where none is, the tool that the engine
/// calls what was typed; and nothing where there is neither.
pub proof fn a_name_means_its_tool(request: Request, name: Seq<char>)
    ensures
        request.catalog.dom().contains(name) ==> request.tool_meant(name) == Ok::<
            Seq<char>,
            Refusal,
        >(name),
        !request.catalog.dom().contains(name) && request.catalog.dom().contains(
            request.taxonomy.canonical(name),
        ) ==> request.tool_meant(name) == Ok::<Seq<char>, Refusal>(
            request.taxonomy.canonical(name),
        ),
        !request.catalog.dom().contains(name) && !request.catalog.dom().contains(
            request.taxonomy.canonical(name),
        ) ==> request.tool_meant(name) == Err::<Seq<char>, Refusal>(Refusal::UnknownTool(name)),
{
}

// ---------------------------------------------------------------------------
// The taxonomy
// ---------------------------------------------------------------------------

proof fn category_found(
    members: Seq<(Seq<char>, Seq<Seq<char>>)>,
    name: Seq<char>,
    from: int,
)
    requires
        0 <= from <= members.len(),
    ensures
        from <= policy::category_from(members, name, from) <= members.len(),
        policy::category_from(members, name, from) < members.len()
            ==> members[policy::category_from(members, name, from)].0 == name,
        forall|i: int|
            from <= i < policy::category_from(members, name, from) ==> (#[trigger] members[i]).0
                != name,
        from <= policy::category_slot(members, name, from) <= members.len(),
    decreases members.len() - from,
{
    if from < members.len() {
        category_found(members, name, from + 1);
    }
}

proof fn alias_found(aliases: Seq<(Seq<char>, Seq<char>)>, name: Seq<char>, from: int)
    requires
        0 <= from <= aliases.len(),
    ensures
        from <= policy::alias_from(aliases, name, from) <= aliases.len(),
        policy::alias_from(aliases, name, from) < aliases.len() ==> aliases[policy::alias_from(
            aliases,
            name,
            from,
        )].0 == name,
        forall|i: int|
            from <= i < policy::alias_from(aliases, name, from) ==> (#[trigger] aliases[i]).0
                != name,
    decreases aliases.len() - from,
{
    if from < aliases.len() {
        alias_found(aliases, name, from + 1);
    }
}

/// The tools that are in a category of exactly this name.
pub open spec fn tools_under(
    members: Seq<(Seq<char>, Seq<Seq<char>>)>,
    category: Seq<char>,
) -> Seq<Seq<char>> {
    let at = policy::category_from(members, category, 0);
    if at < members.len() {
        members[at].1
    } else {
        Seq::empty()
    }
}

/// To put a tool in a category is to add it there, and to leave every other category,
/// and every other tool of that one, as it was.
pub proof fn a_tool_joins_its_category(
    members: Seq<(Seq<char>, Seq<Seq<char>>)>,
    tool: Seq<char>,
    category: Seq<char>,
    other: Seq<char>,
    name: Seq<char>,
)
    ensures
        ({
            let after = policy::assigned(members, tool, category);
            &&& tools_under(after, category).contains(name) <==> name == tool || tools_under(
                members,
                category,
            ).contains(name)
            &&& other != category ==> tools_under(after, other) == tools_under(members, other)
        }),
{
    let after = policy::assigned(members, tool, category);
    category_found(members, category, 0);
    category_found(members, other, 0);
    category_found(after, category, 0);
    category_found(after, other, 0);
    let at = policy::category_from(members, category, 0);
    let slot = policy::category_slot(members, category, 0);
    if at < members.len() {
        names::entering(members[at].1, tool, name);
        assert(policy::category_from(after, category, 0) == at) by {
            let p = policy::category_from(after, category, 0);
            if p < at {
                assert(members[p].0 != category);
            } else if p > at {
                assert(after[at].0 != category);
            }
        }
        if other != category {
            same_place(members, after, other, 0);
        }
    } else {
        assert(after[slot] == (category, seq![tool]));
        let p = policy::category_from(after, category, 0);
        if p < slot {
            assert(after[p] == members[p]);
        } else if p > slot {
            assert(after[slot].0 != category);
        }
        assert(seq![tool].contains(name) <==> name == tool) by {
            assert(seq![tool][0] == tool);
        }
        if other != category {
            let q = policy::category_from(members, other, 0);
            let r = policy::category_from(after, other, 0);
            let want = if q < slot {
                q
            } else {
                q + 1
            };
            if r < want {
                if r < slot {
                    assert(after[r] == members[r]);
                } else if r > slot {
                    assert(after[r] == members[r - 1]);
                }
            } else if r > want {
                if want < slot {
                    assert(after[want] == members[want]);
                } else {
                    assert(after[want] == members[want - 1]);
                }
            }
        }
    }
}

proof fn same_place(
    a: Seq<(Seq<char>, Seq<Seq<char>>)>,
    b: Seq<(Seq<char>, Seq<Seq<char>>)>,
    name: Seq<char>,
    from: int,
)
    requires
        a.len() == b.len(),
        0 <= from <= a.len(),
        forall|i: int| 0 <= i < a.len() ==> (#[trigger] a[i]).0 == b[i].0,
    ensures
        policy::category_from(a, name, from) == policy::category_from(b, name, from),
    decreases a.len() - from,
{
    if from < a.len() {
        assert(a[from].0 == b[from].0);
        same_place(a, b, name, from + 1);
    }
}

/// An alias stands for what it was last said to, and leaves every other one as it was.
pub proof fn the_last_alias_counts(
    taxonomy: TaxonomyView,
    from: Seq<char>,
    to: Seq<char>,
    other: Seq<char>,
)
    ensures
        ({
            let after = TaxonomyView {
                aliases: policy::aliased(taxonomy.aliases, from, to),
                ..taxonomy
            };
            &&& after.alias(from) == Some(to)
            &&& other != from ==> after.alias(other) == taxonomy.alias(other)
        }),
{
    let aliases = taxonomy.aliases;
    let after = policy::aliased(aliases, from, to);
    alias_found(aliases, from, 0);
    alias_found(aliases, other, 0);
    alias_found(after, from, 0);
    alias_found(after, other, 0);
    let at = policy::alias_from(aliases, from, 0);
    let p = policy::alias_from(after, from, 0);
    let mine = if at < aliases.len() {
        at
    } else {
        aliases.len() as int
    };
    assert(after[mine] == (from, to));
    if p < mine {
        assert(after[p] == aliases[p]);
    } else if p > mine {
        assert(after[mine].0 != from);
    }
    if other != from {
        let q = policy::alias_from(aliases, other, 0);
        let r = policy::alias_from(after, other, 0);
        if r < q {
            if r < aliases.len() && r != mine {
                assert(after[r] == aliases[r]);
            }
        }
        if q < aliases.len() {
            assert(after[q] == aliases[q]);
            if r > q {
                assert(after[q].0 != other);
            }
        } else if r < after.len() {
            assert(after[r].0 == other);
            if r != mine {
                assert(after[r] == aliases[r]);
            }
        }
    }
}

/// What a user typed is taken as it stands where a category is called so; else as what
/// it is an alias of; else in lower case, with underscores for hyphens and blanks and
/// without the white space around it, and again as a category before as an alias.
pub proof fn what_was_typed_is_resolved(taxonomy: TaxonomyView, input: Seq<char>)
    ensures
        ({
            let plain = policy::folded(input);
            let meant = taxonomy.canonical(input);
            &&& taxonomy.has(input) ==> meant == input
            &&& !taxonomy.has(input) && taxonomy.alias(input) is Some ==> Some(meant)
                == taxonomy.alias(input)
            &&& !taxonomy.has(input) && taxonomy.alias(input) is None && taxonomy.has(plain)
                ==> meant == plain
            &&& !taxonomy.has(input) && taxonomy.alias(input) is None && !taxonomy.has(plain)
                && taxonomy.alias(plain) is Some ==> Some(meant) == taxonomy.alias(plain)
            &&& !taxonomy.has(input) && taxonomy.alias(input) is None && !taxonomy.has(plain)
                && taxonomy.alias(plain) is None ==> meant == plain
            &&& plain.len() == text::lowercase(text::trimmed(input)).len()
            &&& forall|i: int|
                0 <= i < plain.len() ==> #[trigger] plain[i] == ({
                    let c = text::lowercase(text::trimmed(input))[i];
                    if c == '-' || c == ' ' {
                        '_'
                    } else {
                        c
                    }
                })
            &&& taxonomy.members_of(input) == (if taxonomy.has(meant) {
                Some(tools_under(taxonomy.members, meant))
            } else {
                None
            })
        }),
{
}

/// A catalog with dotted names has the categories that stand before the points, each
/// with the tools that are called so; a name without a point is in none.
pub proof fn dotted_names_are_categories(
    tools: Seq<ToolView>,
    category: Seq<char>,
    name: Seq<char>,
)
    ensures
        tools_under(policy::dotted(tools), category).contains(name) <==> (exists|i: int|
            0 <= i < tools.len() && (#[trigger] tools[i]).name == name) && name.contains('.')
            && text::begins(name, category.push('.')) && !category.contains('.'),
    decreases tools.len(),
{
    if tools.len() > 0 {
        let less = tools.drop_last();
        let last = tools.len() - 1;
        dotted_names_are_categories(less, category, name);
        let own = tools[last].name;
        let dot = text::index_from(own, '.', 0);
        text::index_bounds(own, '.', 0);
        let before = policy::dotted(less);
        points_split(own, category);
        if dot < own.len() {
            a_tool_joins_its_category(before, own, own.take(dot), category, name);
        }
        if exists|i: int| 0 <= i < less.len() && (#[trigger] less[i]).name == name {
            let i = choose|i: int| 0 <= i < less.len() && (#[trigger] less[i]).name == name;
            assert(tools[i].name == name);
        }
        if exists|i: int| 0 <= i < tools.len() && (#[trigger] tools[i]).name == name {
            let i = choose|i: int| 0 <= i < tools.len() && (#[trigger] tools[i]).name == name;
            if i < last {
                assert(less[i].name == name);
            }
        }
        assert(tools[last].name == own);
    }
}

proof fn points_split(name: Seq<char>, category: Seq<char>)
    ensures
        ({
            let dot = text::index_from(name, '.', 0);
            (dot < name.len() && name.take(dot) == category) <==> (name.contains('.')
                && text::begins(name, category.push('.')) && !category.contains('.'))
        }),
{
    text::index_bounds(name, '.', 0);
    let dot = text::index_from(name, '.', 0);
    let n = category.len() as int;
    if dot < name.len() && name.take(dot) == category {
        assert(name.contains(name[dot]));
        assert(name.take(n + 1) =~= category.push('.'));
        if category.contains('.') {
            let k = choose|k: int| 0 <= k < category.len() && category[k] == '.';
            assert(name[k] == '.');
        }
    }
    if text::begins(name, category.push('.')) && !category.contains('.') {
        let start = name.take(n + 1);
        assert(start == category.push('.'));
        assert(start[n] == '.');
        assert(name[n] == '.');
        if dot < n {
            assert(start[dot] == category[dot]);
            assert(category[dot] == '.');
        }
        assert(dot == n);
        assert(name.take(n) =~= category) by {
            assert forall|i: int| 0 <= i < n implies name[i] == category[i] by {
                assert(start[i] == category[i]);
            }
        }
    }
}

// ---------------------------------------------------------------------------
// What a user types
// ---------------------------------------------------------------------------

/// A list of names is what stands between the commas of its values, without the white
/// space around it, where there is anything.
pub proof fn lists_name_what_stands_between_commas(values: Seq<Seq<char>>, name: Seq<char>)
    ensures
        policy::listed(values).contains(name) <==> name.len() > 0 && exists|i: int, k: int|
            0 <= i < values.len() && 0 <= k < text::pieces(#[trigger] values[i], ',').len()
                && text::trimmed(#[trigger] text::pieces(values[i], ',')[k]) == name,
    decreases values.len(),
{
    if values.len() > 0 {
        let less = values.drop_last();
        let last = values.len() - 1;
        lists_name_what_stands_between_commas(less, name);
        let parts = text::pieces(values[last], ',');
        parts_are_trimmed(parts, name);
        let a = policy::listed(less);
        let b = policy::names_in(values[last]);
        assert(policy::listed(values) == a + b);
        if a.contains(name) {
            let x = choose|x: int| 0 <= x < a.len() && a[x] == name;
            assert((a + b)[x] == name);
            let (i, k) = choose|i: int, k: int|
                0 <= i < less.len() && 0 <= k < text::pieces(#[trigger] less[i], ',').len()
                    && text::trimmed(#[trigger] text::pieces(less[i], ',')[k]) == name;
            assert(values[i] == less[i]);
            assert(text::trimmed(text::pieces(values[i], ',')[k]) == name);
        }
        if b.contains(name) {
            let x = choose|x: int| 0 <= x < b.len() && b[x] == name;
            assert((a + b)[a.len() + x] == name);
            let k = choose|k: int| 0 <= k < parts.len() && text::trimmed(#[trigger] parts[k])
                == name;
            assert(text::trimmed(text::pieces(values[last], ',')[k]) == name);
        }
        if (a + b).contains(name) {
            let x = choose|x: int| 0 <= x < (a + b).len() && (a + b)[x] == name;
            if x < a.len() {
                assert(a[x] == name);
            } else {
                assert(b[x - a.len()] == name);
            }
        }
        if name.len() > 0 && exists|i: int, k: int|
            0 <= i < values.len() && 0 <= k < text::pieces(#[trigger] values[i], ',').len()
                && text::trimmed(#[trigger] text::pieces(values[i], ',')[k]) == name {
            let (i, k) = choose|i: int, k: int|
                0 <= i < values.len() && 0 <= k < text::pieces(#[trigger] values[i], ',').len()
                    && text::trimmed(#[trigger] text::pieces(values[i], ',')[k]) == name;
            if i < last {
                assert(less[i] == values[i]);
                assert(text::trimmed(text::pieces(less[i], ',')[k]) == name);
            } else {
                assert(text::trimmed(parts[k]) == name);
            }
        }
    }
}

proof fn parts_are_trimmed(parts: Seq<Seq<char>>, name: Seq<char>)
    ensures
        policy::trimmed_parts(parts).contains(name) <==> name.len() > 0 && exists|k: int|
            0 <= k < parts.len() && text::trimmed(#[trigger] parts[k]) == name,
    decreases parts.len(),
{
    if parts.len() > 0 {
        let less = parts.drop_last();
        let last = parts.len() - 1;
        parts_are_trimmed(less, name);
        let a = policy::trimmed_parts(less);
        let b = policy::trimmed_parts(parts);
        if a.contains(name) {
            let x = choose|x: int| 0 <= x < a.len() && a[x] == name;
            assert(b[x] == name);
            let k = choose|k: int| 0 <= k < less.len() && text::trimmed(#[trigger] less[k])
                == name;
            assert(parts[k] == less[k]);
        }
        if text::trimmed(parts[last]) == name && name.len() > 0 {
            assert(b[b.len() - 1] == name);
        }
        if b.contains(name) && !a.contains(name) {
            let x = choose|x: int| 0 <= x < b.len() && b[x] == name;
            if x < a.len() {
                assert(a[x] == name);
            }
            assert(text::trimmed(parts[last]) == name);
        }
        if exists|k: int| 0 <= k < parts.len() && text::trimmed(#[trigger] parts[k]) == name {
            let k = choose|k: int| 0 <= k < parts.len() && text::trimmed(#[trigger] parts[k])
                == name;
            if k < last {
                assert(less[k] == parts[k]);
            }
        }
    }
}

/// A tool writes unless it says of itself that it only reads. Of several tools of one
/// name the last counts.
pub proof fn only_a_hint_makes_a_reader(tools: Seq<ToolView>, at: int)
    requires
        0 <= at < tools.len(),
        forall|i: int| at < i < tools.len() ==> (#[trigger] tools[i]).name != tools[at].name,
    ensures
        policy::writers(tools).dom().contains(tools[at].name),
        policy::writers(tools)[tools[at].name] <==> match tools[at].annotations {
            Some(said) => said.read_only_hint != Some(true),
            None => true,
        },
    decreases tools.len(),
{
    if at < tools.len() - 1 {
        let less = tools.drop_last();
        assert forall|i: int| at < i < less.len() implies (#[trigger] less[i]).name
            != less[at].name by {
            assert(tools[i].name != tools[at].name);
        }
        only_a_hint_makes_a_reader(less, at);
        assert(tools[tools.len() - 1].name != tools[at].name);
    }
}

/// The catalog that a selection is made from holds the tools and nothing else.
pub proof fn the_catalog_is_the_tools(tools: Seq<ToolView>, name: Seq<char>)
    ensures
        policy::writers(tools).dom().contains(name) <==> exists|i: int|
            0 <= i < tools.len() && (#[trigger] tools[i]).name == name,
    decreases tools.len(),
{
    if tools.len() > 0 {
        let less = tools.drop_last();
        let last = tools.len() - 1;
        the_catalog_is_the_tools(less, name);
        if exists|i: int| 0 <= i < less.len() && (#[trigger] less[i]).name == name {
            let i = choose|i: int| 0 <= i < less.len() && (#[trigger] less[i]).name == name;
            assert(tools[i].name == name);
        }
        if exists|i: int| 0 <= i < tools.len() && (#[trigger] tools[i]).name == name {
            let i = choose|i: int| 0 <= i < tools.len() && (#[trigger] tools[i]).name == name;
            if i < last {
                assert(less[i].name == name);
            }
        }
        assert(tools[last].name == tools.last().name);
    }
}

/// The four flags are spelled the same everywhere and accepted at every level. Those
/// that name something may be repeated.
pub proof fn flags_are_spelled_alike(i: int)
    requires
        0 <= i < 4,
    ensures
        policy::policy_flags().len() == 4,
        policy::policy_flags()[i].global,
        policy::policy_flags()[i].long == Some(
            seq!["toolsets"@, "tools"@, "exclude-tools"@, "read-only"@][i],
        ),
        i < 3 ==> policy::policy_flags()[i].action == Action::Append,
        i == 3 ==> policy::policy_flags()[i].action == Action::Switch,
{
}

/// What was given for a flag is what is read, and nothing is read where nothing was.
pub proof fn nothing_given_is_nothing_read(m: Matches, id: Seq<char>)
    ensures
        m.given(id) is None ==> policy::values_or_none(m, id).len() == 0,
        m.given(id) is Some ==> policy::values_or_none(m, id) == m.given(id)->0,
{
}

/// A policy that was built narrows the catalog exactly where a tool of it is left out,
/// and asks for something exactly where anything was asked for.
pub proof fn policies_narrow_where_they_leave_out(policy: ToolPolicy, request: Request)
    requires
        policy::is_policy_for(policy, request),
    ensures
        policy.narrows() ==> exists|name: Seq<char>| #[trigger]
            request.catalog.dom().contains(name) && !policy.selected().contains(name),
        !policy.narrows() ==> forall|name: Seq<char>| #[trigger]
            request.catalog.dom().contains(name) ==> policy.selected().contains(name),
        policy.asks() <==> request.categories.len() > 0 || request.tools.len() > 0
            || request.excluded.len() > 0 || request.read_only,
        request.selection() matches Ok(left) && left == policy.selected(),
{
}

} // verus!
