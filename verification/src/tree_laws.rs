//! What holds of every command tree that is derived from a catalog.

use vstd::prelude::*;

use crate::cli;
use crate::cli::EngineView;
use crate::command::{CommandView, Matches};
use crate::json;
use crate::json::Json;
use crate::names;
use crate::session;
use crate::session::SessionSpec;
use crate::shape;
use crate::text;
use crate::tool::DefView;

verus! {

/// Whether a tool is called by a group and a verb: `group.verb`, split at the first
/// point.
pub open spec fn is_verb_of(name: Seq<char>, group: Seq<char>, verb: Seq<char>) -> bool {
    name == group + "."@ + verb && !group.contains('.')
}

/// A grouped name comes apart into its group and its verb, and a name without a point
/// stays whole.
pub proof fn names_come_apart(name: Seq<char>, group: Seq<char>, verb: Seq<char>)
    ensures
        is_verb_of(name, group, verb) ==> cli::has_group(name) && cli::group_of(name) == group
            && cli::leaf_name(name) == verb,
        !name.contains('.') ==> !cli::has_group(name) && cli::leaf_name(name) == name,
{
    text::index_bounds(name, '.', 0);
    let p = text::index_from(name, '.', 0);
    reveal_strlit(".");
    if is_verb_of(name, group, verb) {
        let n = group.len() as int;
        assert(name[n] == '.');
        if p < n {
            assert(group[p] == name[p]);
        }
        assert(p == n);
        assert(name.take(n) =~= group);
        assert(name.skip(n + 1) =~= verb);
    }
    if !name.contains('.') && p < name.len() {
        assert(name[p] == '.');
    }
}

proof fn grouped_names_are_verbs(name: Seq<char>)
    requires
        cli::has_group(name),
    ensures
        is_verb_of(name, cli::group_of(name), cli::leaf_name(name)),
{
    text::index_bounds(name, '.', 0);
    let p = text::index_from(name, '.', 0);
    reveal_strlit(".");
    let group = cli::group_of(name);
    assert(name =~= group + "."@ + cli::leaf_name(name));
    if group.contains('.') {
        let k = choose|k: int| 0 <= k < group.len() && group[k] == '.';
        assert(name[k] == '.');
    }
}

// ---------------------------------------------------------------------------
// Groups
// ---------------------------------------------------------------------------

proof fn group_found(groups: Seq<(Seq<char>, Seq<int>)>, name: Seq<char>, from: int)
    requires
        0 <= from <= groups.len(),
    ensures
        from <= cli::group_at(groups, name, from) <= groups.len(),
        cli::group_at(groups, name, from) < groups.len() ==> groups[cli::group_at(
            groups,
            name,
            from,
        )].0 == name,
        forall|i: int|
            from <= i < cli::group_at(groups, name, from) ==> (#[trigger] groups[i]).0 != name,
        from <= cli::group_slot(groups, name, from) <= groups.len(),
    decreases groups.len() - from,
{
    if from < groups.len() {
        group_found(groups, name, from + 1);
    }
}

/// Whether a list of groups is that of the first tools of a catalog: every enabled
/// tool with a group is in the group of its name, nothing else is, no group is empty
/// and none is there twice.
pub open spec fn groups_of(
    groups: Seq<(Seq<char>, Seq<int>)>,
    defs: Seq<DefView>,
    n: int,
) -> bool {
    &&& forall|k: int|
        0 <= k < n && (#[trigger] defs[k]).enabled && cli::has_group(defs[k].tool.name) ==> exists|
            i: int,
        |
            0 <= i < groups.len() && (#[trigger] groups[i]).0 == cli::group_of(defs[k].tool.name)
                && groups[i].1.contains(k)
    &&& forall|i: int, m: int|
        0 <= i < groups.len() && 0 <= m < (#[trigger] groups[i]).1.len() ==> ({
            let k = #[trigger] groups[i].1[m];
            0 <= k < n && defs[k].enabled && cli::has_group(defs[k].tool.name) && cli::group_of(
                defs[k].tool.name,
            ) == groups[i].0
        })
    &&& forall|i: int| 0 <= i < groups.len() ==> (#[trigger] groups[i]).1.len() > 0
    &&& forall|i: int, j: int|
        0 <= i < j < groups.len() ==> (#[trigger] groups[i]).0 != (#[trigger] groups[j]).0
}

proof fn groups_are_of_their_tools(defs: Seq<DefView>, n: int)
    requires
        0 <= n <= defs.len(),
    ensures
        groups_of(cli::tool_groups(defs, n), defs, n),
    decreases n,
{
    if n > 0 {
        groups_are_of_their_tools(defs, n - 1);
        let before = cli::tool_groups(defs, n - 1);
        let d = defs[n - 1];
        if d.enabled && cli::has_group(d.tool.name) {
            member_is_added(before, defs, n);
        }
    }
}

proof fn member_is_added(before: Seq<(Seq<char>, Seq<int>)>, defs: Seq<DefView>, n: int)
    requires
        0 < n <= defs.len(),
        groups_of(before, defs, n - 1),
        defs[n - 1].enabled,
        cli::has_group(defs[n - 1].tool.name),
    ensures
        groups_of(
            cli::with_member(before, cli::group_of(defs[n - 1].tool.name), n - 1),
            defs,
            n,
        ),
{
    let name = cli::group_of(defs[n - 1].tool.name);
    let after = cli::with_member(before, name, n - 1);
    group_found(before, name, 0);
    let at = cli::group_at(before, name, 0);
    let slot = cli::group_slot(before, name, 0);
    let old_at = |i: int|
        if at < before.len() || i < slot {
            i
        } else {
            i - 1
        };
    let new_at = |i: int|
        if at < before.len() || i < slot {
            i
        } else {
            i + 1
        };
    let mine = if at < before.len() {
        at
    } else {
        slot
    };
    assert(after[mine].0 == name);
    assert(after[mine].1.last() == n - 1);
    assert(after[mine].1[after[mine].1.len() - 1] == n - 1);
    assert forall|k: int|
        0 <= k < n && (#[trigger] defs[k]).enabled && cli::has_group(
            defs[k].tool.name,
        ) implies exists|i: int|
        0 <= i < after.len() && (#[trigger] after[i]).0 == cli::group_of(defs[k].tool.name)
            && after[i].1.contains(k) by {
        if k == n - 1 {
            assert(after[mine].1.contains(k));
        } else {
            let i = choose|i: int|
                0 <= i < before.len() && (#[trigger] before[i]).0 == cli::group_of(
                    defs[k].tool.name,
                ) && before[i].1.contains(k);
            let m = choose|m: int| 0 <= m < before[i].1.len() && before[i].1[m] == k;
            let j = new_at(i);
            assert(after[j].0 == before[i].0);
            assert(after[j].1[m] == k);
            assert(after[j].1.contains(k));
        }
    }
    assert forall|i: int, m: int|
        0 <= i < after.len() && 0 <= m < (#[trigger] after[i]).1.len() implies ({
        let k = #[trigger] after[i].1[m];
        0 <= k < n && defs[k].enabled && cli::has_group(defs[k].tool.name) && cli::group_of(
            defs[k].tool.name,
        ) == after[i].0
    }) by {
        if i == mine {
            if at < before.len() && m < before[at].1.len() {
                assert(after[i].1[m] == before[at].1[m]);
            }
        } else {
            let j = old_at(i);
            assert(after[i] == before[j]);
            assert(after[i].1[m] == before[j].1[m]);
        }
    }
    assert forall|i: int| 0 <= i < after.len() implies (#[trigger] after[i]).1.len() > 0 by {
        if i != mine {
            assert(after[i] == before[old_at(i)]);
        }
    }
    assert forall|i: int, j: int| 0 <= i < j < after.len() implies (#[trigger] after[i]).0 != (
    #[trigger] after[j]).0 by {
        if i == mine {
            assert(after[j].0 == before[old_at(j)].0);
            if at < before.len() {
                assert(before[i].0 != before[j].0);
            }
        } else if j == mine {
            assert(after[i].0 == before[old_at(i)].0);
            if at < before.len() {
                assert(before[i].0 != before[j].0);
            }
        } else {
            assert(after[i].0 == before[old_at(i)].0);
            assert(after[j].0 == before[old_at(j)].0);
        }
    }
}

proof fn flat_are_without_group(defs: Seq<DefView>, n: int)
    requires
        0 <= n <= defs.len(),
    ensures
        ({
            let flat = cli::flat_tools(defs, n);
            &&& forall|k: int|
                0 <= k < n && (#[trigger] defs[k]).enabled && !cli::has_group(defs[k].tool.name)
                    ==> flat.contains(k)
            &&& forall|i: int|
                0 <= i < flat.len() ==> 0 <= #[trigger] flat[i] < n && defs[flat[i]].enabled
                    && !cli::has_group(defs[flat[i]].tool.name)
        }),
    decreases n,
{
    if n > 0 {
        flat_are_without_group(defs, n - 1);
        let before = cli::flat_tools(defs, n - 1);
        let after = cli::flat_tools(defs, n);
        assert forall|k: int|
            0 <= k < n && (#[trigger] defs[k]).enabled && !cli::has_group(
                defs[k].tool.name,
            ) implies after.contains(k) by {
            if k < n - 1 {
                assert(before.contains(k));
                let i = choose|i: int| 0 <= i < before.len() && before[i] == k;
                assert(after[i] == k);
            } else {
                assert(after[after.len() - 1] == k);
            }
        }
        assert forall|i: int| 0 <= i < after.len() implies 0 <= #[trigger] after[i] < n
            && defs[after[i]].enabled && !cli::has_group(defs[after[i]].tool.name) by {
            if i < before.len() {
                assert(after[i] == before[i]);
            }
        }
    }
}

proof fn leaves_are_commands(defs: Seq<DefView>, list: Seq<int>, session: Option<SessionSpec>)
    requires
        cli::leaf_commands(defs, list, session) is Ok,
    ensures
        ({
            let leaves = cli::leaf_commands(defs, list, session)->Ok_0;
            &&& leaves.len() == list.len()
            &&& forall|i: int|
                0 <= i < list.len() ==> cli::leaf_command(
                    defs[#[trigger] list[i]],
                    cli::leaf_name(defs[list[i]].tool.name),
                    session,
                ) == Ok::<CommandView, Seq<char>>(leaves[i])
        }),
    decreases list.len(),
{
    if list.len() > 0 {
        let less = list.drop_last();
        leaves_are_commands(defs, less, session);
        let before = cli::leaf_commands(defs, less, session)->Ok_0;
        let after = cli::leaf_commands(defs, list, session)->Ok_0;
        assert forall|i: int| 0 <= i < list.len() implies cli::leaf_command(
            defs[#[trigger] list[i]],
            cli::leaf_name(defs[list[i]].tool.name),
            session,
        ) == Ok::<CommandView, Seq<char>>(after[i]) by {
            if i < less.len() {
                assert(less[i] == list[i]);
                assert(after[i] == before[i]);
            }
        }
    }
}

proof fn groups_are_commands(
    defs: Seq<DefView>,
    groups: Seq<(Seq<char>, Seq<int>)>,
    session: Option<SessionSpec>,
    about: Seq<(Seq<char>, Seq<char>)>,
)
    requires
        cli::group_commands(defs, groups, session, about) is Ok,
    ensures
        ({
            let all = cli::group_commands(defs, groups, session, about)->Ok_0;
            &&& all.len() == groups.len()
            &&& forall|i: int|
                0 <= i < groups.len() ==> {
                    &&& (#[trigger] all[i]).name == groups[i].0
                    &&& all[i].about == cli::about_group(about, groups[i].0)
                    &&& all[i].needs_subcommand
                    &&& all[i].args.len() == 0
                    &&& cli::leaf_commands(defs, groups[i].1, session) == Ok::<
                        Seq<CommandView>,
                        Seq<char>,
                    >(all[i].subcommands)
                }
        }),
    decreases groups.len(),
{
    if groups.len() > 0 {
        groups_are_commands(defs, groups.drop_last(), session, about);
    }
}

// ---------------------------------------------------------------------------
// The tree
// ---------------------------------------------------------------------------

/// Whether a command stands under the tool command for a tool: at once where its name
/// has no point, and inside the command of its group where it has.
pub open spec fn stands_for(tree: CommandView, d: DefView, leaf: CommandView) -> bool {
    if d.tool.name.contains('.') {
        exists|i: int, j: int|
            0 <= i < tree.subcommands.len() && 0 <= j < (
            #[trigger] tree.subcommands[i]).subcommands.len() && #[trigger] tree.subcommands[i].subcommands[j]
                == leaf && is_verb_of(d.tool.name, tree.subcommands[i].name, leaf.name)
    } else {
        leaf.name == d.tool.name && tree.subcommands.contains(leaf)
    }
}

/// Every enabled tool has its command: under its own name, or under its verb inside
/// its group. The command is the one that its schema asks for.
pub proof fn every_tool_has_its_command(
    defs: Seq<DefView>,
    management: Seq<Seq<char>>,
    declared: bool,
    session: Option<SessionSpec>,
    about: Seq<(Seq<char>, Seq<char>)>,
    k: int,
)
    requires
        cli::tools_command(defs, management, declared, session, about) is Ok,
        0 <= k < defs.len(),
        defs[k].enabled,
    ensures
        exists|leaf: CommandView| #[trigger]
            stands_for(
                cli::tools_command(defs, management, declared, session, about)->Ok_0,
                defs[k],
                leaf,
            ) && cli::leaf_command(defs[k], leaf.name, session) == Ok::<CommandView, Seq<char>>(
                leaf,
            ),
{
    let n = defs.len() as int;
    let tree = cli::tools_command(defs, management, declared, session, about)->Ok_0;
    let flat = cli::flat_tools(defs, n);
    let groups = cli::tool_groups(defs, n);
    let first = cli::leaf_commands(defs, flat, session)->Ok_0;
    let second = cli::group_commands(defs, groups, session, about)->Ok_0;
    let name = defs[k].tool.name;
    flat_are_without_group(defs, n);
    groups_are_of_their_tools(defs, n);
    leaves_are_commands(defs, flat, session);
    groups_are_commands(defs, groups, session, about);
    assert(tree.subcommands == first + second);
    text::index_bounds(name, '.', 0);
    if cli::has_group(name) {
        let i = choose|i: int|
            0 <= i < groups.len() && (#[trigger] groups[i]).0 == cli::group_of(name)
                && groups[i].1.contains(k);
        let m = choose|m: int| 0 <= m < groups[i].1.len() && groups[i].1[m] == k;
        leaves_are_commands(defs, groups[i].1, session);
        let at = first.len() + i;
        assert(tree.subcommands[at] == second[i]);
        let leaf = second[i].subcommands[m];
        assert(tree.subcommands[at].subcommands[m] == leaf);
        grouped_names_are_verbs(name);
        assert(name[text::index_from(name, '.', 0)] == '.');
        assert(stands_for(tree, defs[k], leaf));
    } else {
        let i = choose|i: int| 0 <= i < flat.len() && flat[i] == k;
        let leaf = first[i];
        assert(tree.subcommands[i] == leaf);
        assert(!name.contains('.')) by {
            if name.contains('.') {
                let c = choose|c: int| 0 <= c < name.len() && name[c] == '.';
                assert(name[c] != '.');
            }
        }
        assert(stands_for(tree, defs[k], leaf));
    }
}

/// Every command under the tool command is there for an enabled tool: its own, or, in
/// the command of a group, one of the group's.
pub proof fn every_command_has_its_tool(
    defs: Seq<DefView>,
    management: Seq<Seq<char>>,
    declared: bool,
    session: Option<SessionSpec>,
    about: Seq<(Seq<char>, Seq<char>)>,
    i: int,
    j: int,
)
    requires
        cli::tools_command(defs, management, declared, session, about) is Ok,
        0 <= i < (cli::tools_command(
            defs,
            management,
            declared,
            session,
            about,
        )->Ok_0).subcommands.len(),
    ensures
        ({
            let tree = cli::tools_command(defs, management, declared, session, about)->Ok_0;
            let sub = tree.subcommands[i];
            ||| exists|k: int|
                0 <= k < defs.len() && (#[trigger] defs[k]).enabled && !cli::has_group(
                    defs[k].tool.name,
                ) && sub.name == defs[k].tool.name && cli::leaf_command(
                    defs[k],
                    sub.name,
                    session,
                ) == Ok::<CommandView, Seq<char>>(sub)
            ||| sub.subcommands.len() > 0 && (0 <= j < sub.subcommands.len() ==> exists|k: int|
                0 <= k < defs.len() && (#[trigger] defs[k]).enabled && is_verb_of(
                    defs[k].tool.name,
                    sub.name,
                    sub.subcommands[j].name,
                ) && cli::leaf_command(defs[k], sub.subcommands[j].name, session) == Ok::<
                    CommandView,
                    Seq<char>,
                >(sub.subcommands[j]))
        }),
{
    let n = defs.len() as int;
    let tree = cli::tools_command(defs, management, declared, session, about)->Ok_0;
    let flat = cli::flat_tools(defs, n);
    let groups = cli::tool_groups(defs, n);
    let first = cli::leaf_commands(defs, flat, session)->Ok_0;
    let second = cli::group_commands(defs, groups, session, about)->Ok_0;
    flat_are_without_group(defs, n);
    groups_are_of_their_tools(defs, n);
    leaves_are_commands(defs, flat, session);
    groups_are_commands(defs, groups, session, about);
    assert(tree.subcommands == first + second);
    if i < first.len() {
        let k = flat[i];
        assert(tree.subcommands[i] == first[i]);
        assert(defs[k].enabled);
    } else {
        let g = i - first.len();
        assert(tree.subcommands[i] == second[g]);
        leaves_are_commands(defs, groups[g].1, session);
        if 0 <= j < second[g].subcommands.len() {
            let k = groups[g].1[j];
            assert(defs[k].enabled);
            grouped_names_are_verbs(defs[k].tool.name);
        }
    }
}

/// The tool command says which session a call goes to, where the engine has
/// sessions, and asks for one of its subcommands.
pub proof fn the_tool_command_carries_the_session(
    defs: Seq<DefView>,
    management: Seq<Seq<char>>,
    declared: bool,
    session: Option<SessionSpec>,
    about: Seq<(Seq<char>, Seq<char>)>,
)
    requires
        cli::tools_command(defs, management, declared, session, about) is Ok,
    ensures
        ({
            let tree = cli::tools_command(defs, management, declared, session, about)->Ok_0;
            &&& tree.name == "tool"@
            &&& tree.needs_subcommand
            &&& session is None ==> tree.args.len() == 0
            &&& session is Some ==> tree.args == session::session_args(session->0)
        }),
{
}

/// What was said of a group last is what its command says of itself.
pub proof fn the_last_word_on_a_group_counts(
    about: Seq<(Seq<char>, Seq<char>)>,
    group: Seq<char>,
    at: int,
)
    requires
        0 <= at < about.len(),
        about[at].0 == group,
        forall|i: int| at < i < about.len() ==> (#[trigger] about[i]).0 != group,
    ensures
        cli::about_group(about, group) == Some(about[at].1),
    decreases about.len(),
{
    if at < about.len() - 1 {
        assert(about[about.len() - 1].0 != group);
        let less = about.drop_last();
        assert forall|i: int| at < i < less.len() implies (#[trigger] less[i]).0 != group by {
            assert(less[i] == about[i]);
        }
        the_last_word_on_a_group_counts(less, group, at);
    }
}

// ---------------------------------------------------------------------------
// From the tree back to the tool
// ---------------------------------------------------------------------------

/// A command line names the tool whose command it went through: the subcommand of the
/// tool command, or a group and its verb with a point between them. A command line
/// that is not under the tool command names none.
pub proof fn the_path_names_the_tool(m: Matches, name: Seq<char>)
    ensures
        match m.subcommand {
            None => cli::resolved(m) is None,
            Some(root) => if root.0@ != "tool"@ {
                cli::resolved(m) is None
            } else {
                match root.1.subcommand {
                    None => cli::resolved(m) is None,
                    Some(head) => match head.1.subcommand {
                        None => cli::resolved(m) == Some((head.0@, head.1)),
                        Some(leaf) => is_verb_of(name, head.0@, leaf.0@) ==> cli::resolved(m)
                            == Some((name, leaf.1)),
                    },
                }
            },
        },
{
}

// ---------------------------------------------------------------------------
// Collisions
// ---------------------------------------------------------------------------

/// The name that a tool takes directly under the tool command.
pub open spec fn head_of(d: DefView) -> Seq<char> {
    if cli::has_group(d.tool.name) {
        cli::group_of(d.tool.name)
    } else {
        d.tool.name
    }
}

/// Whether two tools can both have their command: they differ in name, and no group
/// is called like a tool.
pub open spec fn agree(a: DefView, b: DefView) -> bool {
    &&& a.tool.name != b.tool.name
    &&& cli::has_group(a.tool.name) != cli::has_group(b.tool.name) ==> head_of(a) != head_of(b)
}

/// Whether a tool can have its command at all: it takes neither a management name nor
/// that of the generated help, neither at the top nor inside its group.
pub open spec fn is_free(d: DefView, management: Seq<Seq<char>>) -> bool {
    &&& !management.contains(head_of(d))
    &&& head_of(d) != "help"@
    &&& cli::leaf_name(d.tool.name) != "help"@
}

/// A catalog whose tools can all have their commands.
pub open spec fn is_clear(defs: Seq<DefView>, management: Seq<Seq<char>>) -> bool {
    &&& forall|i: int| 0 <= i < defs.len() && (#[trigger] defs[i]).enabled ==> is_free(
        defs[i],
        management,
    )
    &&& forall|i: int, j: int|
        0 <= i < j < defs.len() && (#[trigger] defs[i]).enabled && (#[trigger] defs[j]).enabled
            ==> agree(defs[i], defs[j])
}

proof fn nobody_holds(claims: Seq<(Seq<char>, Seq<char>)>, name: Seq<char>, from: int)
    requires
        0 <= from,
    ensures
        cli::holder(claims, name, from) is None <==> forall|i: int|
            from <= i < claims.len() ==> (#[trigger] claims[i]).0 != name,
    decreases claims.len() - from,
{
    if from < claims.len() {
        nobody_holds(claims, name, from + 1);
    }
}

proof fn flat_are_ordered(defs: Seq<DefView>, n: int)
    requires
        0 <= n <= defs.len(),
    ensures
        forall|i: int, j: int|
            0 <= i < j < cli::flat_tools(defs, n).len() ==> #[trigger] cli::flat_tools(defs, n)[i]
                < #[trigger] cli::flat_tools(defs, n)[j],
    decreases n,
{
    if n > 0 {
        flat_are_ordered(defs, n - 1);
        flat_are_without_group(defs, n - 1);
    }
}

proof fn flat_names_are_claimed(
    defs: Seq<DefView>,
    flat: Seq<int>,
    management: Seq<Seq<char>>,
    declared: bool,
)
    requires
        is_clear(defs, management),
        forall|i: int|
            0 <= i < flat.len() ==> 0 <= #[trigger] flat[i] < defs.len() && defs[flat[i]].enabled
                && !cli::has_group(defs[flat[i]].tool.name),
        forall|i: int, j: int|
            0 <= i < j < flat.len() ==> #[trigger] flat[i] < #[trigger] flat[j],
    ensures
        ({
            let claims = cli::flat_claims(defs, flat, management, declared);
            &&& claims is Ok
            &&& claims->Ok_0.len() == flat.len()
            &&& forall|i: int|
                0 <= i < flat.len() ==> (#[trigger] (claims->Ok_0)[i]).0
                    == defs[flat[i]].tool.name
        }),
    decreases flat.len(),
{
    if flat.len() > 0 {
        let less = flat.drop_last();
        assert forall|i: int| 0 <= i < less.len() implies 0 <= #[trigger] less[i] < defs.len()
            && defs[less[i]].enabled && !cli::has_group(defs[less[i]].tool.name) by {
            assert(less[i] == flat[i]);
        }
        flat_names_are_claimed(defs, less, management, declared);
        let before = cli::flat_claims(defs, less, management, declared)->Ok_0;
        let last = flat.len() - 1;
        let d = defs[flat[last]];
        assert(is_free(d, management));
        assert forall|i: int| 0 <= i < before.len() implies (#[trigger] before[i]).0
            != d.tool.name by {
            assert(before[i].0 == defs[less[i]].tool.name);
            assert(flat[i] < flat[last]);
            assert(agree(defs[flat[i]], defs[flat[last]]));
        }
        nobody_holds(before, d.tool.name, 0);
    }
}

proof fn verbs_are_claimed(
    defs: Seq<DefView>,
    group: Seq<char>,
    list: Seq<int>,
    management: Seq<Seq<char>>,
)
    requires
        is_clear(defs, management),
        forall|i: int|
            0 <= i < list.len() ==> 0 <= #[trigger] list[i] < defs.len() && defs[list[i]].enabled
                && cli::has_group(defs[list[i]].tool.name) && cli::group_of(
                defs[list[i]].tool.name,
            ) == group,
        list.no_duplicates(),
    ensures
        ({
            let claims = cli::verb_claims(defs, group, list);
            &&& claims is Ok
            &&& claims->Ok_0.len() == list.len()
            &&& forall|i: int|
                0 <= i < list.len() ==> (#[trigger] (claims->Ok_0)[i]).0 == cli::leaf_name(
                    defs[list[i]].tool.name,
                )
        }),
    decreases list.len(),
{
    if list.len() > 0 {
        let less = list.drop_last();
        assert forall|i: int| 0 <= i < less.len() implies 0 <= #[trigger] less[i] < defs.len()
            && defs[less[i]].enabled && cli::has_group(defs[less[i]].tool.name) && cli::group_of(
            defs[less[i]].tool.name,
        ) == group by {
            assert(less[i] == list[i]);
        }
        verbs_are_claimed(defs, group, less, management);
        let before = cli::verb_claims(defs, group, less)->Ok_0;
        let last = list.len() - 1;
        let d = defs[list[last]];
        assert(is_free(d, management));
        let verb = cli::leaf_name(d.tool.name);
        assert forall|i: int| 0 <= i < before.len() implies (#[trigger] before[i]).0 != verb by {
            let other = defs[list[i]];
            assert(before[i].0 == cli::leaf_name(defs[less[i]].tool.name));
            assert(list[i] != list[last]);
            if list[i] < list[last] {
                assert(agree(defs[list[i]], defs[list[last]]));
            } else {
                assert(agree(defs[list[last]], defs[list[i]]));
            }
            grouped_names_are_verbs(d.tool.name);
            grouped_names_are_verbs(other.tool.name);
        }
        nobody_holds(before, verb, 0);
    }
}

proof fn members_are_there_once(defs: Seq<DefView>, n: int)
    requires
        0 <= n <= defs.len(),
    ensures
        forall|i: int|
            0 <= i < cli::tool_groups(defs, n).len() ==> (#[trigger] cli::tool_groups(
                defs,
                n,
            )[i]).1.no_duplicates(),
    decreases n,
{
    if n > 0 {
        members_are_there_once(defs, n - 1);
        groups_are_of_their_tools(defs, n - 1);
        let before = cli::tool_groups(defs, n - 1);
        let after = cli::tool_groups(defs, n);
        let d = defs[n - 1];
        if d.enabled && cli::has_group(d.tool.name) {
            let name = cli::group_of(d.tool.name);
            group_found(before, name, 0);
            let at = cli::group_at(before, name, 0);
            let slot = cli::group_slot(before, name, 0);
            assert forall|i: int| 0 <= i < after.len() implies (
            #[trigger] after[i]).1.no_duplicates() by {
                if at < before.len() {
                    if i == at {
                        assert(before[at].1.no_duplicates());
                        assert forall|a: int, b: int|
                            0 <= a < after[i].1.len() && 0 <= b < after[i].1.len() && a
                                != b implies after[i].1[a] != after[i].1[b] by {
                            let m = before[at].1.len() as int;
                            if a < m {
                                assert(before[at].1[a] < n - 1);
                            }
                            if b < m {
                                assert(before[at].1[b] < n - 1);
                            }
                        }
                    } else {
                        assert(after[i] == before[i]);
                    }
                } else if i < slot {
                    assert(after[i] == before[i]);
                } else if i > slot {
                    assert(after[i] == before[i - 1]);
                }
            }
        }
    }
}

proof fn groups_are_claimed(
    defs: Seq<DefView>,
    taken: Seq<(Seq<char>, Seq<char>)>,
    groups: Seq<(Seq<char>, Seq<int>)>,
    management: Seq<Seq<char>>,
    declared: bool,
)
    requires
        is_clear(defs, management),
        forall|i: int, m: int|
            0 <= i < groups.len() && 0 <= m < (#[trigger] groups[i]).1.len() ==> ({
                let k = #[trigger] groups[i].1[m];
                0 <= k < defs.len() && defs[k].enabled && cli::has_group(defs[k].tool.name)
                    && cli::group_of(defs[k].tool.name) == groups[i].0
            }),
        forall|i: int|
            0 <= i < groups.len() ==> (#[trigger] groups[i]).1.len() > 0
                && groups[i].1.no_duplicates(),
        forall|i: int, j: int|
            0 <= i < j < groups.len() ==> (#[trigger] groups[i]).0 != (#[trigger] groups[j]).0,
        forall|i: int, j: int|
            0 <= i < taken.len() && 0 <= j < groups.len() ==> (#[trigger] taken[i]).0 != (
            #[trigger] groups[j]).0,
    ensures
        ({
            let claims = cli::group_claims(defs, taken, groups, management, declared);
            &&& claims is Ok
            &&& claims->Ok_0.len() == taken.len() + groups.len()
            &&& forall|i: int|
                0 <= i < taken.len() ==> #[trigger] (claims->Ok_0)[i] == taken[i]
            &&& forall|i: int|
                taken.len() <= i < taken.len() + groups.len() ==> (#[trigger] (claims->Ok_0)[i]).0
                    == groups[i - taken.len()].0
        }),
    decreases groups.len(),
{
    if groups.len() > 0 {
        let less = groups.drop_last();
        assert forall|i: int, m: int|
            0 <= i < less.len() && 0 <= m < (#[trigger] less[i]).1.len() implies ({
            let k = #[trigger] less[i].1[m];
            0 <= k < defs.len() && defs[k].enabled && cli::has_group(defs[k].tool.name)
                && cli::group_of(defs[k].tool.name) == less[i].0
        }) by {
            assert(groups[i].1[m] == less[i].1[m]);
        }
        assert forall|i: int| 0 <= i < less.len() implies (#[trigger] less[i]).1.len() > 0
            && less[i].1.no_duplicates() by {
            assert(less[i] == groups[i]);
        }
        assert forall|i: int, j: int| 0 <= i < j < less.len() implies (#[trigger] less[i]).0 != (
        #[trigger] less[j]).0 by {
            assert(groups[i].0 != groups[j].0);
        }
        assert forall|i: int, j: int| 0 <= i < taken.len() && 0 <= j < less.len() implies (
        #[trigger] taken[i]).0 != (#[trigger] less[j]).0 by {
            assert(groups[j].0 != taken[i].0);
        }
        groups_are_claimed(defs, taken, less, management, declared);
        let before = cli::group_claims(defs, taken, less, management, declared)->Ok_0;
        let last = groups.len() - 1;
        let (group, list) = groups[last];
        let k = groups[last].1[0];
        assert(is_free(defs[k], management));
        assert forall|i: int| 0 <= i < before.len() implies (#[trigger] before[i]).0 != group by {
            if i < taken.len() {
                assert(taken[i].0 != groups[last].0);
            } else {
                assert(before[i].0 == less[i - taken.len()].0);
                assert(groups[i - taken.len()].0 != groups[last].0);
            }
        }
        nobody_holds(before, group, 0);
        assert forall|i: int| 0 <= i < list.len() implies 0 <= #[trigger] list[i] < defs.len()
            && defs[list[i]].enabled && cli::has_group(defs[list[i]].tool.name) && cli::group_of(
            defs[list[i]].tool.name,
        ) == group by {
            assert(groups[last].1[i] == list[i]);
        }
        verbs_are_claimed(defs, group, list, management);
        let after = cli::group_claims(defs, taken, groups, management, declared)->Ok_0;
        assert(after == before.push((group, defs[list[0]].tool.name)));
        assert forall|i: int| taken.len() <= i < taken.len() + groups.len() implies (
        #[trigger] after[i]).0 == groups[i - taken.len()].0 by {
            if i < before.len() {
                assert(before[i].0 == less[i - taken.len()].0);
            }
        }
    }
}

/// A catalog whose tools can all have their commands is not refused for its names.
pub proof fn clear_names_are_accepted(
    defs: Seq<DefView>,
    management: Seq<Seq<char>>,
    declared: bool,
)
    requires
        is_clear(defs, management),
    ensures
        cli::name_collision(defs, management, declared) is None,
{
    let n = defs.len() as int;
    let flat = cli::flat_tools(defs, n);
    let groups = cli::tool_groups(defs, n);
    flat_are_without_group(defs, n);
    flat_are_ordered(defs, n);
    groups_are_of_their_tools(defs, n);
    members_are_there_once(defs, n);
    flat_names_are_claimed(defs, flat, management, declared);
    let claims = cli::flat_claims(defs, flat, management, declared)->Ok_0;
    assert forall|i: int, j: int| 0 <= i < claims.len() && 0 <= j < groups.len() implies (
    #[trigger] claims[i]).0 != (#[trigger] groups[j]).0 by {
        let a = flat[i];
        let b = groups[j].1[0];
        if a < b {
            assert(agree(defs[a], defs[b]));
        } else if b < a {
            assert(agree(defs[b], defs[a]));
        }
    }
    groups_are_claimed(defs, claims, groups, management, declared);
}

proof fn claimed_flat_is_free(
    defs: Seq<DefView>,
    flat: Seq<int>,
    management: Seq<Seq<char>>,
    declared: bool,
)
    requires
        cli::flat_claims(defs, flat, management, declared) is Ok,
    ensures
        ({
            let claims = cli::flat_claims(defs, flat, management, declared)->Ok_0;
            &&& claims.len() == flat.len()
            &&& forall|i: int|
                0 <= i < flat.len() ==> {
                    &&& (#[trigger] claims[i]).0 == defs[flat[i]].tool.name
                    &&& claims[i].0 != "help"@
                    &&& !management.contains(claims[i].0)
                }
            &&& forall|i: int, j: int|
                0 <= i < j < claims.len() ==> (#[trigger] claims[i]).0 != (#[trigger] claims[j]).0
        }),
    decreases flat.len(),
{
    if flat.len() > 0 {
        claimed_flat_is_free(defs, flat.drop_last(), management, declared);
        let before = cli::flat_claims(defs, flat.drop_last(), management, declared)->Ok_0;
        nobody_holds(before, defs[flat.last()].tool.name, 0);
    }
}

proof fn claimed_verbs_are_free(defs: Seq<DefView>, group: Seq<char>, list: Seq<int>)
    requires
        cli::verb_claims(defs, group, list) is Ok,
    ensures
        ({
            let claims = cli::verb_claims(defs, group, list)->Ok_0;
            &&& claims.len() == list.len()
            &&& forall|i: int|
                0 <= i < list.len() ==> {
                    &&& (#[trigger] claims[i]).0 == cli::leaf_name(defs[list[i]].tool.name)
                    &&& claims[i].0 != "help"@
                }
            &&& forall|i: int, j: int|
                0 <= i < j < claims.len() ==> (#[trigger] claims[i]).0 != (#[trigger] claims[j]).0
        }),
    decreases list.len(),
{
    if list.len() > 0 {
        claimed_verbs_are_free(defs, group, list.drop_last());
        let before = cli::verb_claims(defs, group, list.drop_last())->Ok_0;
        nobody_holds(before, cli::leaf_name(defs[list.last()].tool.name), 0);
    }
}

proof fn claimed_groups_are_free(
    defs: Seq<DefView>,
    taken: Seq<(Seq<char>, Seq<char>)>,
    groups: Seq<(Seq<char>, Seq<int>)>,
    management: Seq<Seq<char>>,
    declared: bool,
    g: int,
)
    requires
        cli::group_claims(defs, taken, groups, management, declared) is Ok,
        0 <= g < groups.len(),
    ensures
        groups[g].0 != "help"@,
        !management.contains(groups[g].0),
        forall|i: int| 0 <= i < taken.len() ==> (#[trigger] taken[i]).0 != groups[g].0,
        cli::verb_claims(defs, groups[g].0, groups[g].1) is Ok,
    decreases groups.len(),
{
    let less = groups.drop_last();
    let before = cli::group_claims(defs, taken, less, management, declared)->Ok_0;
    taken_is_kept(defs, taken, less, management, declared);
    if g == groups.len() - 1 {
        nobody_holds(before, groups[g].0, 0);
        assert forall|i: int| 0 <= i < taken.len() implies (#[trigger] taken[i]).0
            != groups[g].0 by {
            assert(before[i] == taken[i]);
        }
    } else {
        claimed_groups_are_free(defs, taken, less, management, declared, g);
    }
}

proof fn taken_is_kept(
    defs: Seq<DefView>,
    taken: Seq<(Seq<char>, Seq<char>)>,
    groups: Seq<(Seq<char>, Seq<int>)>,
    management: Seq<Seq<char>>,
    declared: bool,
)
    requires
        cli::group_claims(defs, taken, groups, management, declared) is Ok,
    ensures
        taken.len() <= (cli::group_claims(defs, taken, groups, management, declared)->Ok_0).len(),
        forall|i: int|
            0 <= i < taken.len() ==> #[trigger] (cli::group_claims(
                defs,
                taken,
                groups,
                management,
                declared,
            )->Ok_0)[i] == taken[i],
    decreases groups.len(),
{
    if groups.len() > 0 {
        taken_is_kept(defs, taken, groups.drop_last(), management, declared);
    }
}

/// A catalog that is not refused for its names is one whose tools can all have their
/// commands: none takes a management name or that of the generated help, no two have
/// one name, and no group is called like a tool.
pub proof fn accepted_names_are_clear(
    defs: Seq<DefView>,
    management: Seq<Seq<char>>,
    declared: bool,
)
    requires
        cli::name_collision(defs, management, declared) is None,
    ensures
        is_clear(defs, management),
{
    let n = defs.len() as int;
    let flat = cli::flat_tools(defs, n);
    let groups = cli::tool_groups(defs, n);
    flat_are_without_group(defs, n);
    groups_are_of_their_tools(defs, n);
    claimed_flat_is_free(defs, flat, management, declared);
    let claims = cli::flat_claims(defs, flat, management, declared)->Ok_0;
    assert forall|k: int| 0 <= k < defs.len() && (#[trigger] defs[k]).enabled implies is_free(
        defs[k],
        management,
    ) by {
        let name = defs[k].tool.name;
        if cli::has_group(name) {
            let g = choose|i: int|
                0 <= i < groups.len() && (#[trigger] groups[i]).0 == cli::group_of(name)
                    && groups[i].1.contains(k);
            let m = choose|m: int| 0 <= m < groups[g].1.len() && groups[g].1[m] == k;
            claimed_groups_are_free(defs, claims, groups, management, declared, g);
            claimed_verbs_are_free(defs, groups[g].0, groups[g].1);
            let verbs = cli::verb_claims(defs, groups[g].0, groups[g].1)->Ok_0;
            assert(verbs[m].0 == cli::leaf_name(name));
        } else {
            let i = choose|i: int| 0 <= i < flat.len() && flat[i] == k;
            assert(claims[i].0 == name);
        }
    }
    assert forall|a: int, b: int|
        0 <= a < b < defs.len() && (#[trigger] defs[a]).enabled && (
        #[trigger] defs[b]).enabled implies agree(defs[a], defs[b]) by {
        pair_agrees(defs, management, declared, a, b);
    }
}

proof fn pair_agrees(
    defs: Seq<DefView>,
    management: Seq<Seq<char>>,
    declared: bool,
    a: int,
    b: int,
)
    requires
        cli::name_collision(defs, management, declared) is None,
        0 <= a < b < defs.len(),
        defs[a].enabled,
        defs[b].enabled,
    ensures
        agree(defs[a], defs[b]),
{
    let n = defs.len() as int;
    let flat = cli::flat_tools(defs, n);
    let groups = cli::tool_groups(defs, n);
    flat_are_without_group(defs, n);
    groups_are_of_their_tools(defs, n);
    claimed_flat_is_free(defs, flat, management, declared);
    let claims = cli::flat_claims(defs, flat, management, declared)->Ok_0;
    let x = defs[a].tool.name;
    let y = defs[b].tool.name;
    if !cli::has_group(x) && !cli::has_group(y) {
        let i = choose|i: int| 0 <= i < flat.len() && flat[i] == a;
        let j = choose|j: int| 0 <= j < flat.len() && flat[j] == b;
        assert(claims[i].0 == x && claims[j].0 == y);
        if i < j {
            assert(claims[i].0 != claims[j].0);
        } else {
            assert(claims[j].0 != claims[i].0);
        }
    } else if cli::has_group(x) && cli::has_group(y) {
        let g = choose|i: int|
            0 <= i < groups.len() && (#[trigger] groups[i]).0 == cli::group_of(x)
                && groups[i].1.contains(a);
        let h = choose|i: int|
            0 <= i < groups.len() && (#[trigger] groups[i]).0 == cli::group_of(y)
                && groups[i].1.contains(b);
        if x == y {
            assert(groups[g].0 == groups[h].0);
            if g < h {
                assert(groups[g].0 != groups[h].0);
            } else if h < g {
                assert(groups[h].0 != groups[g].0);
            }
            let i = choose|i: int| 0 <= i < groups[g].1.len() && groups[g].1[i] == a;
            let j = choose|j: int| 0 <= j < groups[g].1.len() && groups[g].1[j] == b;
            claimed_groups_are_free(defs, claims, groups, management, declared, g);
            claimed_verbs_are_free(defs, groups[g].0, groups[g].1);
            let verbs = cli::verb_claims(defs, groups[g].0, groups[g].1)->Ok_0;
            assert(verbs[i].0 == cli::leaf_name(x));
            assert(verbs[j].0 == cli::leaf_name(y));
            if i < j {
                assert(verbs[i].0 != verbs[j].0);
            } else {
                assert(verbs[j].0 != verbs[i].0);
            }
        }
    } else {
        let (f, k) = if cli::has_group(x) {
            (b, a)
        } else {
            (a, b)
        };
        let name = defs[k].tool.name;
        let g = choose|i: int|
            0 <= i < groups.len() && (#[trigger] groups[i]).0 == cli::group_of(name)
                && groups[i].1.contains(k);
        let i = choose|i: int| 0 <= i < flat.len() && flat[i] == f;
        claimed_groups_are_free(defs, claims, groups, management, declared, g);
        assert(claims[i].0 == defs[f].tool.name);
        assert(claims[i].0 != groups[g].0);
    }
}

// ---------------------------------------------------------------------------
// Session flags
// ---------------------------------------------------------------------------

/// Whether a parameter of an enabled tool would derive a flag of the session: its own
/// or its negation, unless it is positional.
pub open spec fn takes_flag(d: DefView, flags: Seq<Seq<char>>) -> bool {
    &&& d.enabled
    &&& json::field(d.tool.input, "properties"@) matches Some(Json::Object(properties)) && exists|
        i: int,
    |
        0 <= i < properties.len() && !d.positional.contains((#[trigger] properties[i]).0) && (
        flags.contains(shape::kebab_case(properties[i].0)) || flags.contains(
            "no-"@ + shape::kebab_case(properties[i].0),
        ))
}

proof fn parameters_clash(
    flags: Seq<Seq<char>>,
    d: DefView,
    properties: Seq<(Seq<char>, Json)>,
    n: int,
)
    requires
        0 <= n <= properties.len(),
    ensures
        cli::parameter_clash(flags, d, properties, n) is Some <==> exists|i: int|
            0 <= i < n && !d.positional.contains((#[trigger] properties[i]).0) && (flags.contains(
                shape::kebab_case(properties[i].0),
            ) || flags.contains("no-"@ + shape::kebab_case(properties[i].0))),
    decreases n,
{
    if n > 0 {
        parameters_clash(flags, d, properties, n - 1);
        let name = properties[n - 1].0;
    }
}

/// A catalog is refused for a session's flags exactly where a parameter of one of its
/// enabled tools would derive one of them.
pub proof fn session_flags_are_nobody_elses(flags: Seq<Seq<char>>, defs: Seq<DefView>, n: int)
    requires
        0 <= n <= defs.len(),
    ensures
        cli::flag_clash(flags, defs, n) is Some <==> exists|k: int|
            0 <= k < n && takes_flag(#[trigger] defs[k], flags),
    decreases n,
{
    if n > 0 {
        session_flags_are_nobody_elses(flags, defs, n - 1);
        if let Some(properties) = cli::properties_in(defs[n - 1].tool.input) {
            parameters_clash(flags, defs[n - 1], properties, properties.len() as int);
        }
        if cli::flag_clash(flags, defs, n - 1) is Some {
            let k = choose|k: int| 0 <= k < n - 1 && takes_flag(#[trigger] defs[k], flags);
            assert(takes_flag(defs[k], flags));
        } else if cli::flag_clash(flags, defs, n) is Some {
            assert(takes_flag(defs[n - 1], flags));
        }
    }
}

// ---------------------------------------------------------------------------
// Management commands
// ---------------------------------------------------------------------------

/// The management commands of a tree are its root commands but the tool command and
/// the generated help.
pub proof fn the_rest_is_management(subcommands: Seq<CommandView>, name: Seq<char>)
    ensures
        cli::management_in(subcommands).contains(name) <==> name != "tool"@ && name != "help"@
            && exists|i: int| 0 <= i < subcommands.len() && (#[trigger] subcommands[i]).name == name,
    decreases subcommands.len(),
{
    if subcommands.len() > 0 {
        let less = subcommands.drop_last();
        the_rest_is_management(less, name);
        let before = cli::management_in(less);
        let after = cli::management_in(subcommands);
        let last = subcommands.len() - 1;
        if before.contains(name) {
            let i = choose|i: int| 0 <= i < less.len() && (#[trigger] less[i]).name == name;
            assert(subcommands[i].name == name);
            let k = choose|k: int| 0 <= k < before.len() && before[k] == name;
            assert(after[k] == name);
        }
        if subcommands[last].name == name && name != "tool"@ && name != "help"@ {
            assert(after[after.len() - 1] == name);
        }
        if after.contains(name) && !before.contains(name) {
            let k = choose|k: int| 0 <= k < after.len() && after[k] == name;
            if k < before.len() {
                assert(before[k] == name);
            }
            assert(subcommands[last].name == name);
        }
        if exists|i: int| 0 <= i < subcommands.len() && (#[trigger] subcommands[i]).name == name {
            let i = choose|i: int|
                0 <= i < subcommands.len() && (#[trigger] subcommands[i]).name == name;
            if i < last {
                assert(less[i].name == name);
            }
        }
    }
}

/// A tree agrees with its declaration exactly where both name the same commands, in
/// any order and any number of times.
pub proof fn drift_is_a_difference(listed: Seq<Seq<char>>, declared: Seq<Seq<char>>)
    ensures
        cli::drift(names::set_of(listed), declared) is None <==> forall|name: Seq<char>|
            #![trigger listed.contains(name)]
            listed.contains(name) <==> declared.contains(name),
{
    let actual = names::set_of(listed);
    let expected = names::set_of(declared);
    if actual == expected {
        assert forall|name: Seq<char>| #![trigger listed.contains(name)]
            listed.contains(name) <==> declared.contains(name) by {
            names::set_holds(listed, name);
            names::set_holds(declared, name);
        }
    }
    if forall|name: Seq<char>| #![trigger listed.contains(name)]
        listed.contains(name) <==> declared.contains(name) {
        assert forall|name: Seq<char>| actual.contains(name) <==> expected.contains(name) by {
            names::set_holds(listed, name);
            names::set_holds(declared, name);
            assert(listed.contains(name) <==> declared.contains(name));
        }
        names::set_holds(listed, Seq::empty());
        names::set_holds(declared, Seq::empty());
        same_sets(actual, expected);
    }
}

proof fn same_sets(a: Seq<Seq<char>>, b: Seq<Seq<char>>)
    requires
        names::ascending(a),
        names::ascending(b),
        forall|name: Seq<char>| a.contains(name) <==> b.contains(name),
    ensures
        a == b,
    decreases a.len() + b.len(),
{
    if a.len() == 0 && b.len() == 0 {
        assert(a =~= b);
    } else if a.len() == 0 {
        assert(b.contains(b[0]));
        assert(a.contains(b[0]));
    } else if b.len() == 0 {
        assert(a.contains(a[0]));
        assert(b.contains(a[0]));
    } else {
        let m = a.len() - 1;
        let n = b.len() - 1;
        assert(a.contains(a[m]));
        assert(b.contains(b[n]));
        let i = choose|i: int| 0 <= i < b.len() && b[i] == a[m];
        let j = choose|j: int| 0 <= j < a.len() && a[j] == b[n];
        if a[m] != b[n] {
            assert(text::text_before(b[i], b[n]));
            assert(text::text_before(a[j], a[m]));
            text::text_order(a[m], b[n], a[m]);
        }
        let c = a.drop_last();
        let d = b.drop_last();
        assert forall|x: int, y: int| 0 <= x < y < c.len() implies text::text_before(
            #[trigger] c[x],
            #[trigger] c[y],
        ) by {
            assert(text::text_before(a[x], a[y]));
        }
        assert forall|x: int, y: int| 0 <= x < y < d.len() implies text::text_before(
            #[trigger] d[x],
            #[trigger] d[y],
        ) by {
            assert(text::text_before(b[x], b[y]));
        }
        assert forall|name: Seq<char>| c.contains(name) <==> d.contains(name) by {
            if c.contains(name) {
                let x = choose|x: int| 0 <= x < c.len() && c[x] == name;
                assert(a[x] == name);
                assert(a.contains(name));
                assert(text::text_before(a[x], a[m]));
                text::text_order(a[x], a[m], a[m]);
                let y = choose|y: int| 0 <= y < b.len() && b[y] == name;
                assert(y != n);
                assert(d[y] == name);
            }
            if d.contains(name) {
                let y = choose|y: int| 0 <= y < d.len() && d[y] == name;
                assert(b[y] == name);
                assert(b.contains(name));
                assert(text::text_before(b[y], b[n]));
                text::text_order(b[y], b[n], b[n]);
                let x = choose|x: int| 0 <= x < a.len() && a[x] == name;
                assert(x != m);
                assert(c[x] == name);
            }
        }
        same_sets(c, d);
        assert(a =~= c.push(a[m]));
        assert(b =~= d.push(b[n]));
    }
}

// ---------------------------------------------------------------------------
// The root
// ---------------------------------------------------------------------------

/// An engine's tree is named like its program and holds the tool command alone. An
/// engine that declares its management commands keeps those names free of tools, and
/// may declare neither the tool command nor the generated help; one that declares none
/// keeps the usual ones free.
pub proof fn the_root_is_the_program(e: EngineView)
    ensures
        match cli::engine_command(e) {
            Ok(root) => {
                let kept = if e.management is Some {
                    e.management->0
                } else {
                    cli::reserved_names()
                };
                &&& root.name == e.bin
                &&& root.args.len() == 0
                &&& root.needs_subcommand
                &&& root.subcommands.len() == 1
                &&& root.subcommands[0].name == "tool"@
                &&& is_clear(e.defs, kept)
                &&& e.management is Some ==> !kept.contains("tool"@) && !kept.contains("help"@)
                &&& e.session is Some ==> forall|k: int|
                    0 <= k < e.defs.len() ==> !takes_flag(
                        #[trigger] e.defs[k],
                        session::session_flags(e.session->0),
                    )
            },
            Err(_) => true,
        },
{
    if let Ok(root) = cli::engine_command(e) {
        let kept = if e.management is Some {
            e.management->0
        } else {
            cli::reserved_names()
        };
        accepted_names_are_clear(e.defs, kept, e.management is Some);
        if let Some(declared) = e.management {
            declared_names_are_free(declared);
        }
        if let Some(spec) = e.session {
            session_flags_are_nobody_elses(
                session::session_flags(spec),
                e.defs,
                e.defs.len() as int,
            );
        }
    }
}

proof fn declared_names_are_free(declared: Seq<Seq<char>>)
    ensures
        cli::declaration_refusal(declared) is None <==> !declared.contains("tool"@)
            && !declared.contains("help"@),
    decreases declared.len(),
{
    if declared.len() > 0 {
        let less = declared.drop_last();
        declared_names_are_free(less);
        let last = declared.len() - 1;
        if less.contains("tool"@) {
            let i = choose|i: int| 0 <= i < less.len() && less[i] == "tool"@;
            assert(declared[i] == "tool"@);
        }
        if less.contains("help"@) {
            let i = choose|i: int| 0 <= i < less.len() && less[i] == "help"@;
            assert(declared[i] == "help"@);
        }
        assert(declared.contains(declared[last]));
        if declared.contains("tool"@) {
            let i = choose|i: int| 0 <= i < declared.len() && declared[i] == "tool"@;
            if i < last {
                assert(less[i] == "tool"@);
            }
        }
        if declared.contains("help"@) {
            let i = choose|i: int| 0 <= i < declared.len() && declared[i] == "help"@;
            if i < last {
                assert(less[i] == "help"@);
            }
        }
    }
}

/// The names that no tool may take where an engine declares none of its own are those
/// of the commands that every engine has.
pub proof fn the_common_commands_are_reserved(name: Seq<char>)
    ensures
        cli::reserved_names().contains(name) <==> ({
            ||| name == "batch"@
            ||| name == "capabilities"@
            ||| name == "doctor"@
            ||| name == "help"@
            ||| name == "logs"@
            ||| name == "mcp"@
            ||| name == "serve"@
            ||| name == "sessions"@
            ||| name == "status"@
            ||| name == "tool"@
            ||| name == "version"@
        }),
{
    let all = cli::reserved_names();
    assert(all[0] == "batch"@);
    assert(all[1] == "capabilities"@);
    assert(all[2] == "doctor"@);
    assert(all[3] == "help"@);
    assert(all[4] == "logs"@);
    assert(all[5] == "mcp"@);
    assert(all[6] == "serve"@);
    assert(all[7] == "sessions"@);
    assert(all[8] == "status"@);
    assert(all[9] == "tool"@);
    assert(all[10] == "version"@);
}

/// The difference of two sets of names is what stands in the one and not in the other,
/// and where a declaration drifts, both differences are told.
pub proof fn drifts_tell_both_differences(
    actual: Seq<Seq<char>>,
    declared: Seq<Seq<char>>,
    name: Seq<char>,
)
    ensures
        names::difference(actual, declared).contains(name) <==> actual.contains(name)
            && !declared.contains(name),
        cli::drift(actual, declared) matches Some(told) ==> told
            == "管理命令声明与 clap 树不一致：`with_management` 声明 "@ + text::quoted_list(declared)
            + "，根子命令（不含 `tool` / `help`）为 "@ + text::quoted_list(actual) + "。"@ + (
        if (exists|extra: Seq<char>|
            #![trigger actual.contains(extra)]
            actual.contains(extra) && !names::set_of(declared).contains(extra)) {
            " clap 有而声明没有: "@ + text::quoted_list(
                names::difference(actual, names::set_of(declared)),
            ) + "；"@
        } else {
            Seq::empty()
        }) + (if (exists|absent: Seq<char>|
            #![trigger names::set_of(declared).contains(absent)]
            names::set_of(declared).contains(absent) && !actual.contains(absent)) {
            " 声明有而 clap 没有: "@ + text::quoted_list(
                names::difference(names::set_of(declared), actual),
            ) + "；"@
        } else {
            Seq::empty()
        }),
{
    let expected = names::set_of(declared);
    differing(actual, declared, name);
    nothing_differs(actual, expected);
    nothing_differs(expected, actual);
}

proof fn differing(one: Seq<Seq<char>>, other: Seq<Seq<char>>, name: Seq<char>)
    ensures
        names::difference(one, other).contains(name) <==> one.contains(name) && !other.contains(
            name,
        ),
{
    broadcast use vstd::seq_lib::group_filter_ensures;

    let keep = |name: Seq<char>| !other.contains(name);
    let left = one.filter(keep);
    if left.contains(name) {
        let i = choose|i: int| 0 <= i < left.len() && left[i] == name;
        assert(keep(left[i]));
        one.lemma_filter_contains_rev(keep, name);
    }
    if one.contains(name) && !other.contains(name) {
        let i = choose|i: int| 0 <= i < one.len() && one[i] == name;
        assert(keep(one[i]));
        assert(left.contains(one[i]));
    }
}

proof fn nothing_differs(one: Seq<Seq<char>>, other: Seq<Seq<char>>)
    ensures
        names::difference(one, other).len() > 0 <==> exists|name: Seq<char>|
            #![trigger one.contains(name)]
            one.contains(name) && !other.contains(name),
{
    let left = names::difference(one, other);
    if left.len() > 0 {
        differing(one, other, left[0]);
        assert(left.contains(left[0]));
    }
    if exists|name: Seq<char>| #![trigger one.contains(name)]
        one.contains(name) && !other.contains(name) {
        let name = choose|name: Seq<char>| #![trigger one.contains(name)]
            one.contains(name) && !other.contains(name);
        differing(one, other, name);
    }
}

} // verus!
