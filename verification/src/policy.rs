//! Which tools an engine offers, when a user has asked for fewer.
//!
//! Everything is on until someone turns something off. The four inputs compose
//! in a fixed order:
//!
//! 1. No include given: start from the whole catalog. Any include given: start
//!    from nothing.
//! 2. Union in the named categories, then the named tools, then what the engine
//!    declared essential.
//! 3. Subtract the excluded tools, essential ones too.
//! 4. Subtract the writers if read-only was asked for, essential ones excepted.
//!
//! A selection that leaves nothing but essential tools is an error.

use std::sync::Arc;

use vstd::prelude::*;

use crate::command;
use crate::command::{Action, ArgSpec, ArgView, Matches};
use crate::names;
use crate::names::enter;
use crate::text;
use crate::text::{
    is_text_before, join, list_has, quoted, replace_char, same, split_once, strs_have, to_lowercase,
    trim,
};
use crate::tool;
use crate::tool::{Advertised, Tool, ToolView};

verus! {

/// A selection that cannot be satisfied.
#[derive(Debug, PartialEq, Eq)]
pub enum PolicyError {
    /// A category name nobody registered, with the names there are.
    UnknownCategory { name: String, known: Vec<String> },
    /// A tool name that is not on this surface.
    UnknownTool(String),
    /// The inputs cancelled out.
    Empty,
}

/// What a [`PolicyError`] says.
pub enum Refusal {
    UnknownCategory { name: Seq<char>, known: Seq<Seq<char>> },
    UnknownTool(Seq<char>),
    Empty,
}

impl PolicyError {
    /// What the error says.
    pub open spec fn said(&self) -> Refusal {
        match self {
            PolicyError::UnknownCategory { name, known } => Refusal::UnknownCategory {
                name: name@,
                known: text::texts(known@),
            },
            PolicyError::UnknownTool(name) => Refusal::UnknownTool(name@),
            PolicyError::Empty => Refusal::Empty,
        }
    }

    /// The error in words.
    pub fn message(&self) -> (res: String)
        ensures
            res@ == (match self.said() {
                Refusal::UnknownCategory { name, known } => "unknown tool category "@
                    + text::debug_text(name) + "; this engine has "@ + text::joined(known, ", "@),
                Refusal::UnknownTool(name) => "unknown tool "@ + text::debug_text(name),
                Refusal::Empty =>
                    "the tool selection is empty; an exclusion or --read-only removed everything the includes selected"@,
            }),
    {
        match self {
            PolicyError::UnknownCategory { name, known } => {
                let mut out = "unknown tool category ".to_owned();
                out.append(quoted(name.as_str()).as_str());
                out.append("; this engine has ");
                out.append(join(known.as_slice(), ", ").as_str());
                out
            },
            PolicyError::UnknownTool(name) => {
                let mut out = "unknown tool ".to_owned();
                out.append(quoted(name.as_str()).as_str());
                out
            },
            PolicyError::Empty =>
                "the tool selection is empty; an exclusion or --read-only removed everything the includes selected".to_owned(),
        }
    }
}

// ---------------------------------------------------------------------------
// Taxonomy
// ---------------------------------------------------------------------------

/// The engine's answer to "which tools go together".
#[derive(Debug)]
pub struct Taxonomy {
    members: Vec<(String, Vec<String>)>,
    aliases: Vec<(String, String)>,
}

/// What a [`Taxonomy`] says: categories in ascending order, each with the set of
/// its tools, and the names that stand for others.
pub struct TaxonomyView {
    pub members: Seq<(Seq<char>, Seq<Seq<char>>)>,
    pub aliases: Seq<(Seq<char>, Seq<char>)>,
}

/// The first category at or after `from` of this name, or the number of them.
pub open spec fn category_from(
    members: Seq<(Seq<char>, Seq<Seq<char>>)>,
    name: Seq<char>,
    from: int,
) -> int
    decreases members.len() - from,
{
    if from >= members.len() {
        members.len() as int
    } else if members[from].0 == name {
        from
    } else {
        category_from(members, name, from + 1)
    }
}

/// Where a new category goes: before the first greater one at or after `from`.
pub open spec fn category_slot(
    members: Seq<(Seq<char>, Seq<Seq<char>>)>,
    name: Seq<char>,
    from: int,
) -> int
    decreases members.len() - from,
{
    if from >= members.len() {
        members.len() as int
    } else if text::text_before(name, members[from].0) {
        from
    } else {
        category_slot(members, name, from + 1)
    }
}

/// Categories with a tool put in one of them.
pub open spec fn assigned(
    members: Seq<(Seq<char>, Seq<Seq<char>>)>,
    tool: Seq<char>,
    category: Seq<char>,
) -> Seq<(Seq<char>, Seq<Seq<char>>)> {
    let at = category_from(members, category, 0);
    if at < members.len() {
        members.update(at, (category, names::entered(members[at].1, tool)))
    } else {
        members.insert(category_slot(members, category, 0), (category, seq![tool]))
    }
}

/// The first alias at or after `from` of this name, or the number of them.
pub open spec fn alias_from(
    aliases: Seq<(Seq<char>, Seq<char>)>,
    name: Seq<char>,
    from: int,
) -> int
    decreases aliases.len() - from,
{
    if from >= aliases.len() {
        aliases.len() as int
    } else if aliases[from].0 == name {
        from
    } else {
        alias_from(aliases, name, from + 1)
    }
}

/// The names that stand for others, with one more or another meaning of one.
pub open spec fn aliased(
    aliases: Seq<(Seq<char>, Seq<char>)>,
    from: Seq<char>,
    to: Seq<char>,
) -> Seq<(Seq<char>, Seq<char>)> {
    let at = alias_from(aliases, from, 0);
    if at < aliases.len() {
        aliases.update(at, (from, to))
    } else {
        aliases.push((from, to))
    }
}

/// A name as a person may type it: white space off, lower case, underscores for
/// hyphens and spaces.
pub open spec fn folded(name: Seq<char>) -> Seq<char> {
    text::replaced(
        text::replaced(text::lowercase(text::trimmed(name)), '-', '_'),
        ' ',
        '_',
    )
}

impl TaxonomyView {
    /// Whether there is a category of this name.
    pub open spec fn has(self, name: Seq<char>) -> bool {
        category_from(self.members, name, 0) < self.members.len()
    }

    /// What a name stands for, if it is an alias.
    pub open spec fn alias(self, name: Seq<char>) -> Option<Seq<char>> {
        let at = alias_from(self.aliases, name, 0);
        if at < self.aliases.len() {
            Some(self.aliases[at].1)
        } else {
            None
        }
    }

    /// What the engine calls what a user typed: the name itself, what it is an
    /// alias of, or the same two of the folded name; the folded name where it is
    /// neither.
    pub open spec fn canonical(self, input: Seq<char>) -> Seq<char> {
        if self.has(input) {
            input
        } else if self.alias(input) is Some {
            self.alias(input)->0
        } else if self.has(folded(input)) {
            folded(input)
        } else if self.alias(folded(input)) is Some {
            self.alias(folded(input))->0
        } else {
            folded(input)
        }
    }

    /// The tools of a category, however it was typed.
    pub open spec fn members_of(self, category: Seq<char>) -> Option<Seq<Seq<char>>> {
        let at = category_from(self.members, self.canonical(category), 0);
        if at < self.members.len() {
            Some(self.members[at].1)
        } else {
            None
        }
    }

    /// The names of the categories.
    pub open spec fn categories(self) -> Seq<Seq<char>> {
        Seq::new(self.members.len(), |i: int| self.members[i].0)
    }
}

/// The categories that `group.verb` names spell out.
pub open spec fn dotted(tools: Seq<ToolView>) -> Seq<(Seq<char>, Seq<Seq<char>>)>
    decreases tools.len(),
{
    if tools.len() == 0 {
        Seq::empty()
    } else {
        let before = dotted(tools.drop_last());
        let name = tools.last().name;
        let dot = text::index_from(name, '.', 0);
        if dot < name.len() {
            assigned(before, name, name.take(dot))
        } else {
            before
        }
    }
}

/// Case and separator folding for a name a user typed.
fn fold(input: &str) -> (res: String)
    ensures
        res@ == folded(input@),
{
    let lowered = to_lowercase(trim(input));
    let plain = replace_char(lowered.as_str(), '-', '_');
    replace_char(plain.as_str(), ' ', '_')
}

impl Taxonomy {
    /// What the taxonomy says.
    pub closed spec fn said(&self) -> TaxonomyView {
        TaxonomyView {
            members: Seq::new(
                self.members@.len(),
                |i: int| (self.members@[i].0@, text::texts(self.members@[i].1@)),
            ),
            aliases: Seq::new(
                self.aliases@.len(),
                |i: int| (self.aliases@[i].0@, self.aliases@[i].1@),
            ),
        }
    }

    pub fn new() -> (res: Self)
        ensures
            res.said() == (TaxonomyView { members: Seq::empty(), aliases: Seq::empty() }),
    {
        let res = Taxonomy { members: Vec::new(), aliases: Vec::new() };
        assert(res.said().members =~= Seq::empty());
        assert(res.said().aliases =~= Seq::empty());
        res
    }

    /// Puts `tool` in `category`. A tool may sit in several.
    pub fn assign(&mut self, tool: &str, category: &str) -> (res: &mut Self)
        ensures
            res.said() == (TaxonomyView {
                members: assigned(old(self).said().members, tool@, category@),
                ..old(self).said()
            }),
            *final(self) == *final(res),
    {
        let ghost before = self.said().members;
        let ghost spare = self.said().aliases;
        let at = self.category(category);
        if at < self.members.len() {
            let ghost former = self.members@[at as int].1@;
            assert(before[at as int] == (
                self.members@[at as int].0@,
                text::texts(former),
            ));
            let mut entry = (String::new(), Vec::new());
            std::mem::swap(&mut entry, &mut self.members[at]);
            enter(&mut entry.1, tool);
            self.members[at] = entry;
            proof {
                category_places(before, category@, 0);
                assert(self.said().members =~= before.update(
                    at as int,
                    (category@, names::entered(before[at as int].1, tool@)),
                ));
                assert(self.said().aliases =~= spare);
            }
            return self;
        }
        let mut slot: usize = 0;
        while slot < self.members.len() && !is_text_before(
            category,
            self.members[slot].0.as_str(),
        )
            invariant
                slot <= self.members.len(),
                *self == *old(self),
                before == self.said().members,
                category_slot(before, category@, 0) == category_slot(
                    before,
                    category@,
                    slot as int,
                ),
            decreases self.members.len() - slot,
        {
            assert(before[slot as int].0 == self.members@[slot as int].0@);
            slot += 1;
        }
        if slot < self.members.len() {
            assert(before[slot as int].0 == self.members@[slot as int].0@);
        }
        let mut list: Vec<String> = Vec::new();
        list.push(tool.to_owned());
        assert(text::texts(list@) =~= seq![tool@]);
        self.members.insert(slot, (category.to_owned(), list));
        assert(self.said().members =~= before.insert(slot as int, (category@, seq![tool@])));
        assert(self.said().aliases =~= spare);
        self
    }

    fn category(&self, name: &str) -> (res: usize)
        ensures
            res == category_from(self.said().members, name@, 0),
            res <= self.said().members.len(),
    {
        let ghost all = self.said().members;
        let mut i: usize = 0;
        while i < self.members.len()
            invariant
                i <= self.members.len(),
                all == self.said().members,
                category_from(all, name@, 0) == category_from(all, name@, i as int),
            decreases self.members.len() - i,
        {
            assert(all[i as int].0 == self.members@[i as int].0@);
            if same(self.members[i].0.as_str(), name) {
                return i;
            }
            i += 1;
        }
        i
    }

    fn alias_index(&self, name: &str) -> (res: usize)
        ensures
            res == alias_from(self.said().aliases, name@, 0),
            res <= self.said().aliases.len(),
    {
        let ghost all = self.said().aliases;
        let mut i: usize = 0;
        while i < self.aliases.len()
            invariant
                i <= self.aliases.len(),
                all == self.said().aliases,
                alias_from(all, name@, 0) == alias_from(all, name@, i as int),
            decreases self.aliases.len() - i,
        {
            assert(all[i as int].0 == self.aliases@[i as int].0@);
            if same(self.aliases[i].0.as_str(), name) {
                return i;
            }
            i += 1;
        }
        i
    }

    /// Accepts `from` wherever `to` is accepted, for a category or a tool name.
    pub fn alias(&mut self, from: &str, to: &str) -> (res: &mut Self)
        ensures
            res.said() == (TaxonomyView {
                aliases: aliased(old(self).said().aliases, from@, to@),
                ..old(self).said()
            }),
            *final(self) == *final(res),
    {
        let ghost before = self.said();
        let at = self.alias_index(from);
        if at < self.aliases.len() {
            self.aliases[at] = (from.to_owned(), to.to_owned());
            assert(self.said().aliases =~= before.aliases.update(at as int, (from@, to@)));
        } else {
            self.aliases.push((from.to_owned(), to.to_owned()));
            assert(self.said().aliases =~= before.aliases.push((from@, to@)));
        }
        assert(self.said().members =~= before.members);
        self
    }

    /// Derives categories from `group.verb` tool names. Tools with no `.` are
    /// left uncategorised, and can still be selected by name.
    pub fn by_dot_prefix<T: Advertised>(tools: &[T]) -> (res: Self)
        ensures
            res.said() == (TaxonomyView {
                members: dotted(tool::catalog(tools@)),
                aliases: Seq::empty(),
            }),
    {
        let ghost all = tool::catalog(tools@);
        let mut taxonomy = Taxonomy::new();
        let mut i: usize = 0;
        assert(taxonomy.said().members =~= dotted(all.take(0)));
        while i < tools.len()
            invariant
                i <= tools.len(),
                all == tool::catalog(tools@),
                taxonomy.said().members == dotted(all.take(i as int)),
                taxonomy.said().aliases == Seq::<(Seq<char>, Seq<char>)>::empty(),
            decreases tools.len() - i,
        {
            assert(all.take(i + 1).drop_last() =~= all.take(i as int));
            assert(all.take(i + 1).last() == tools@[i as int].advertises());
            let name = tools[i].advertised().name.as_str();
            if let Some((group, _)) = split_once(name, '.') {
                let _ = taxonomy.assign(name, group);
            }
            i += 1;
        }
        assert(all.take(all.len() as int) =~= all);
        taxonomy
    }

    /// Category names, in ascending order.
    pub fn categories(&self) -> (res: Vec<String>)
        ensures
            text::texts(res@) == self.said().categories(),
    {
        let mut out: Vec<String> = Vec::new();
        let mut i: usize = 0;
        while i < self.members.len()
            invariant
                i <= self.members.len(),
                out@.len() == i,
                forall|j: int| 0 <= j < i ==> #[trigger] out@[j]@ == self.members@[j].0@,
            decreases self.members.len() - i,
        {
            out.push(self.members[i].0.clone());
            i += 1;
        }
        assert(text::texts(out@) =~= self.said().categories());
        out
    }

    /// The tools of a category, however it was typed.
    pub fn members_of(&self, category: &str) -> (res: Option<&Vec<String>>)
        ensures
            match res {
                Some(list) => self.said().members_of(category@) == Some(text::texts(list@)),
                None => self.said().members_of(category@) is None,
            },
    {
        let name = self.canonical(category);
        let at = self.category(name.as_str());
        if at < self.members.len() {
            assert(self.said().members[at as int].1 == text::texts(self.members@[at as int].1@));
            Some(&self.members[at].1)
        } else {
            None
        }
    }

    fn alias_of(&self, name: &str) -> (res: Option<String>)
        ensures
            tool::opt_text(res) == self.said().alias(name@),
    {
        let at = self.alias_index(name);
        if at < self.aliases.len() {
            assert(self.said().aliases[at as int].1 == self.aliases@[at as int].1@);
            Some(self.aliases[at].1.clone())
        } else {
            None
        }
    }

    /// Resolves what a user typed to what the engine calls it.
    ///
    /// Exact match first, then the alias table, then the same two again after
    /// folding case and separators.
    fn canonical(&self, input: &str) -> (res: String)
        ensures
            res@ == self.said().canonical(input@),
    {
        if self.category(input) < self.members.len() {
            return input.to_owned();
        }
        if let Some(target) = self.alias_of(input) {
            return target;
        }
        let plain = fold(input);
        if self.category(plain.as_str()) < self.members.len() {
            return plain;
        }
        if let Some(target) = self.alias_of(plain.as_str()) {
            return target;
        }
        plain
    }
}

proof fn category_places(
    members: Seq<(Seq<char>, Seq<Seq<char>>)>,
    name: Seq<char>,
    from: int,
)
    requires
        0 <= from <= members.len(),
    ensures
        from <= category_from(members, name, from) <= members.len(),
        category_from(members, name, from) < members.len() ==> members[category_from(
            members,
            name,
            from,
        )].0 == name,
    decreases members.len() - from,
{
    if from < members.len() {
        category_places(members, name, from + 1);
    }
}

// ---------------------------------------------------------------------------
// Selections
// ---------------------------------------------------------------------------

/// Whether a tool counts as a writer: it does not say that it only reads.
pub open spec fn writes(t: ToolView) -> bool {
    !(t.annotations is Some && t.annotations->0.read_only_hint == Some(true))
}

/// The names of a catalog, each with whether the tool writes.
pub open spec fn writers(tools: Seq<ToolView>) -> Map<Seq<char>, bool>
    decreases tools.len(),
{
    if tools.len() == 0 {
        Map::empty()
    } else {
        writers(tools.drop_last()).insert(tools.last().name, writes(tools.last()))
    }
}

/// The parts of a text between commas, without white space and without the empty
/// ones.
pub open spec fn names_in(entry: Seq<char>) -> Seq<Seq<char>> {
    trimmed_parts(text::pieces(entry, ','))
}

/// Texts without white space at their ends, the empty ones left out.
pub open spec fn trimmed_parts(parts: Seq<Seq<char>>) -> Seq<Seq<char>>
    decreases parts.len(),
{
    if parts.len() == 0 {
        Seq::empty()
    } else {
        let before = trimmed_parts(parts.drop_last());
        if text::trimmed(parts.last()).len() > 0 {
            before.push(text::trimmed(parts.last()))
        } else {
            before
        }
    }
}

/// The names of a flag that may be repeated and may hold several, comma by comma.
pub open spec fn listed(input: Seq<Seq<char>>) -> Seq<Seq<char>>
    decreases input.len(),
{
    if input.len() == 0 {
        Seq::empty()
    } else {
        listed(input.drop_last()) + names_in(input.last())
    }
}

/// What is asked of a catalog.
pub struct Request {
    /// Names, each with whether the tool writes.
    pub catalog: Map<Seq<char>, bool>,
    pub taxonomy: TaxonomyView,
    pub essential: Seq<Seq<char>>,
    pub categories: Seq<Seq<char>>,
    pub tools: Seq<Seq<char>>,
    pub excluded: Seq<Seq<char>>,
    pub read_only: bool,
}

impl Request {
    /// Whether anything is asked at all.
    pub open spec fn active(self) -> bool {
        self.categories.len() > 0 || self.tools.len() > 0 || self.excluded.len() > 0
            || self.read_only
    }

    /// Whether something is named to be included.
    pub open spec fn includes(self) -> bool {
        self.categories.len() > 0 || self.tools.len() > 0
    }

    /// The tool that a name means: the tool of exactly that name, or the one the
    /// taxonomy resolves it to.
    pub open spec fn tool_meant(self, input: Seq<char>) -> Result<Seq<char>, Refusal> {
        if self.catalog.dom().contains(input) {
            Ok(input)
        } else if self.catalog.dom().contains(self.taxonomy.canonical(input)) {
            Ok(self.taxonomy.canonical(input))
        } else {
            Err(Refusal::UnknownTool(input))
        }
    }

    /// The tools that the first `n` categories add to a selection.
    pub open spec fn with_categories(self, start: Set<Seq<char>>, n: int) -> Result<
        Set<Seq<char>>,
        Refusal,
    >
        decreases n,
    {
        if n <= 0 {
            Ok(start)
        } else {
            match self.with_categories(start, n - 1) {
                Err(refusal) => Err(refusal),
                Ok(before) => match self.taxonomy.members_of(self.categories[n - 1]) {
                    None => Err(
                        Refusal::UnknownCategory {
                            name: self.categories[n - 1],
                            known: self.taxonomy.categories(),
                        },
                    ),
                    Some(members) => Ok(
                        before.union(
                            Set::new(
                                |name: Seq<char>|
                                    members.contains(name) && self.catalog.dom().contains(name),
                            ),
                        ),
                    ),
                },
            }
        }
    }

    /// The tools that the first `n` named ones add to a selection.
    pub open spec fn with_tools(self, start: Set<Seq<char>>, n: int) -> Result<
        Set<Seq<char>>,
        Refusal,
    >
        decreases n,
    {
        if n <= 0 {
            Ok(start)
        } else {
            match self.with_tools(start, n - 1) {
                Err(refusal) => Err(refusal),
                Ok(before) => match self.tool_meant(self.tools[n - 1]) {
                    Err(refusal) => Err(refusal),
                    Ok(name) => Ok(before.insert(name)),
                },
            }
        }
    }

    /// What the first `n` exclusions leave of a selection.
    pub open spec fn without_excluded(self, start: Set<Seq<char>>, n: int) -> Result<
        Set<Seq<char>>,
        Refusal,
    >
        decreases n,
    {
        if n <= 0 {
            Ok(start)
        } else {
            match self.without_excluded(start, n - 1) {
                Err(refusal) => Err(refusal),
                Ok(before) => match self.tool_meant(self.excluded[n - 1]) {
                    Err(refusal) => Err(refusal),
                    Ok(name) => Ok(before.remove(name)),
                },
            }
        }
    }

    /// Where the composition starts: the whole catalog, or nothing where an
    /// include is named.
    pub open spec fn start(self) -> Set<Seq<char>> {
        if self.includes() {
            Set::empty()
        } else {
            self.catalog.dom()
        }
    }

    /// The essential tools of the catalog, added where an include is named.
    pub open spec fn with_essential(self, before: Set<Seq<char>>) -> Set<Seq<char>> {
        if self.includes() {
            before.union(
                Set::new(
                    |name: Seq<char>|
                        self.essential.contains(name) && self.catalog.dom().contains(name),
                ),
            )
        } else {
            before
        }
    }

    /// What read-only leaves: what only reads, and what is essential.
    pub open spec fn readable(self, before: Set<Seq<char>>) -> Set<Seq<char>> {
        if self.read_only {
            before.filter(
                |name: Seq<char>| self.essential.contains(name) || !self.catalog[name],
            )
        } else {
            before
        }
    }

    /// The tools that are left, or why the request is refused.
    pub open spec fn selection(self) -> Result<Set<Seq<char>>, Refusal> {
        match self.with_categories(self.start(), self.categories.len() as int) {
            Err(refusal) => Err(refusal),
            Ok(one) => match self.with_tools(one, self.tools.len() as int) {
                Err(refusal) => Err(refusal),
                Ok(two) => match self.without_excluded(
                    self.with_essential(two),
                    self.excluded.len() as int,
                ) {
                    Err(refusal) => Err(refusal),
                    Ok(three) => {
                        let left = self.readable(three);
                        if exists|name: Seq<char>|
                            #[trigger] left.contains(name) && !self.essential.contains(name) {
                            Ok(left)
                        } else {
                            Err(Refusal::Empty)
                        }
                    },
                },
            },
        }
    }
}

/// Whether a policy is what a request comes to: it selects what the request
/// selects, and narrows exactly where a tool of the catalog is left out.
pub open spec fn is_policy_for(policy: ToolPolicy, request: Request) -> bool {
    &&& request.selection() == Ok::<Set<Seq<char>>, Refusal>(policy.selected())
    &&& policy.asks() == request.active()
    &&& policy.narrows() <==> exists|name: Seq<char>| #[trigger]
        request.catalog.dom().contains(name) && !policy.selected().contains(name)
}

/// A configured policy: what this server offers after the user's narrowing.
#[derive(Debug)]
pub struct ToolPolicy {
    enabled: Vec<String>,
    /// Whether anything was asked for.
    asked: bool,
    /// Whether a tool of the catalog is left out.
    narrowed: bool,
}

/// The names of a list, as a set.
pub open spec fn name_set(list: Seq<String>) -> Set<Seq<char>> {
    Set::new(|name: Seq<char>| text::texts(list).contains(name))
}

/// The items of a catalog whose tools are admitted, in the order of the catalog.
pub open spec fn offered<T: Advertised>(catalog: Seq<T>, policy: ToolPolicy) -> Seq<T> {
    catalog.filter(|item: T| policy.admits(item.advertises().name))
}

impl ToolPolicy {
    /// Whether a tool is offered.
    pub closed spec fn admits(&self, name: Seq<char>) -> bool {
        !self.asked || name_set(self.enabled@).contains(name)
    }

    /// Whether anything was asked for.
    pub closed spec fn asks(&self) -> bool {
        self.asked
    }

    /// Whether anything was actually narrowed.
    pub closed spec fn narrows(&self) -> bool {
        self.narrowed
    }

    /// The tools that were selected.
    pub closed spec fn selected(&self) -> Set<Seq<char>> {
        name_set(self.enabled@)
    }

    /// A policy that was asked for something admits what was selected; another
    /// admits every tool.
    pub proof fn admission(&self, name: Seq<char>)
        ensures
            self.admits(name) == (!self.asks() || self.selected().contains(name)),
    {
    }

    /// Everything on.
    pub fn unrestricted() -> (res: Self)
        ensures
            !res.asks(),
            !res.narrows(),
            forall|name: Seq<char>| res.admits(name),
    {
        ToolPolicy { enabled: Vec::new(), asked: false, narrowed: false }
    }

    /// Starts configuring a policy over `catalog`.
    pub fn builder<T: Advertised>(catalog: &[T]) -> (res: PolicyBuilder<'static>)
        ensures
            res.request() == (Request {
                catalog: writers(tool::catalog(catalog@)),
                taxonomy: TaxonomyView { members: Seq::empty(), aliases: Seq::empty() },
                essential: Seq::empty(),
                categories: Seq::empty(),
                tools: Seq::empty(),
                excluded: Seq::empty(),
                read_only: false,
            }),
    {
        PolicyBuilder::new(catalog)
    }

    pub fn allows(&self, tool: &str) -> (res: bool)
        ensures
            res == self.admits(tool@),
    {
        !self.asked || list_has(self.enabled.as_slice(), tool)
    }

    /// Whether anything was actually narrowed: a selection that leaves out no tool
    /// of its catalog is not worth a word in a banner.
    pub fn is_active(&self) -> (res: bool)
        ensures
            res == self.narrows(),
    {
        self.narrowed
    }

    /// Drops everything this policy refuses, in the order of the catalog.
    #[must_use]
    pub fn advertise<T: Advertised>(&self, catalog: Vec<T>) -> (res: Vec<T>)
        ensures
            res@ == offered(catalog@, *self),
    {
        let ghost all = catalog@;
        let ghost keep = |item: T| self.admits(item.advertises().name);
        let mut rest = catalog;
        let mut backwards: Vec<T> = Vec::new();
        let ghost n = rest@.len() as int;
        assert(all.take(n) =~= all);
        assert(all.skip(n) =~= Seq::empty());
        assert(all.skip(n).filter(keep) =~= Seq::empty()) by {
            reveal(Seq::filter);
        }
        assert(backwards@.reverse() =~= all.skip(n).filter(keep));
        while rest.len() > 0
            invariant
                rest@.len() <= n,
                n == all.len(),
                rest@ == all.take(rest@.len() as int),
                keep == (|item: T| self.admits(item.advertises().name)),
                backwards@.reverse() == all.skip(rest@.len() as int).filter(keep),
            decreases rest@.len(),
        {
            let ghost m = rest@.len() as int;
            let ghost former = backwards@;
            if let Some(item) = rest.pop() {
                proof {
                    assert(item == all[m - 1]);
                    assert(rest@ =~= all.take(m - 1));
                    assert(all.skip(m - 1) =~= seq![item] + all.skip(m));
                    filter_front(item, all.skip(m), keep);
                }
                if self.allows(item.advertised().name.as_str()) {
                    backwards.push(item);
                    assert(backwards@.reverse() =~= seq![item] + former.reverse());
                }
            }
        }
        assert(all.skip(0) =~= all);
        let mut out: Vec<T> = Vec::new();
        let ghost turned = backwards@.reverse();
        assert(out@ =~= turned.take(0));
        assert(turned.skip(0) =~= turned);
        while backwards.len() > 0
            invariant
                backwards@.len() + out@.len() == turned.len(),
                backwards@.reverse() == turned.skip(out@.len() as int),
                out@ == turned.take(out@.len() as int),
            decreases backwards@.len(),
        {
            let ghost before = backwards@;
            let ghost k = out@.len() as int;
            if let Some(item) = backwards.pop() {
                proof {
                    assert(before.reverse()[0] == item);
                    assert(turned.skip(k)[0] == turned[k]);
                    assert(backwards@.reverse() =~= before.reverse().skip(1));
                    assert(turned.skip(k).skip(1) =~= turned.skip(k + 1));
                }
                out.push(item);
                assert(turned.take(k + 1) =~= turned.take(k).push(turned[k]));
            }
        }
        assert(turned.take(turned.len() as int) =~= turned);
        out
    }
}

proof fn filter_front<T>(one: T, rest: Seq<T>, keep: spec_fn(T) -> bool)
    ensures
        (seq![one] + rest).filter(keep) == if keep(one) {
            seq![one] + rest.filter(keep)
        } else {
            rest.filter(keep)
        },
    decreases rest.len(),
{
    reveal(Seq::filter);
    let whole = seq![one] + rest;
    if rest.len() == 0 {
        assert(whole.drop_last() =~= Seq::<T>::empty());
        assert(whole.last() == one);
        assert(whole.drop_last().filter(keep) =~= Seq::<T>::empty());
        assert(rest.filter(keep) =~= Seq::<T>::empty());
        assert(seq![one] + rest.filter(keep) =~= seq![one]);
        assert(Seq::<T>::empty().push(one) =~= seq![one]);
    } else {
        filter_front(one, rest.drop_last(), keep);
        assert(whole.drop_last() =~= seq![one] + rest.drop_last());
        assert(whole.last() == rest.last());
        let less = rest.drop_last().filter(keep);
        assert((seq![one] + less).push(rest.last()) =~= seq![one] + less.push(rest.last()));
    }
}

/// Fluent construction for [`ToolPolicy`].
#[derive(Debug)]
pub struct PolicyBuilder<'a> {
    /// Names, each with whether the tool writes.
    catalog: Vec<(String, bool)>,
    taxonomy: Taxonomy,
    essential: &'a [&'a str],
    include_categories: Vec<String>,
    include_tools: Vec<String>,
    exclude_tools: Vec<String>,
    read_only: bool,
}

/// The entries of a list, as a map in which a later one replaces an earlier.
pub open spec fn entry_map(list: Seq<(String, bool)>) -> Map<Seq<char>, bool>
    decreases list.len(),
{
    if list.len() == 0 {
        Map::empty()
    } else {
        entry_map(list.drop_last()).insert(list.last().0@, list.last().1)
    }
}

proof fn entry_known(list: Seq<(String, bool)>, at: int)
    requires
        0 <= at < list.len(),
    ensures
        entry_map(list).dom().contains(list[at].0@),
        (forall|j: int| at < j < list.len() ==> (#[trigger] list[j]).0@ != list[at].0@)
            ==> entry_map(list)[list[at].0@] == list[at].1,
    decreases list.len(),
{
    if at < list.len() - 1 {
        entry_known(list.drop_last(), at);
        assert(list.drop_last()[at] == list[at]);
        if forall|j: int| at < j < list.len() ==> (#[trigger] list[j]).0@ != list[at].0@ {
            assert forall|j: int| at < j < list.drop_last().len() implies (
            #[trigger] list.drop_last()[j]).0@ != list.drop_last()[at].0@ by {
                assert(list.drop_last()[j] == list[j]);
            }
            assert(list[list.len() - 1].0@ != list[at].0@);
        }
    }
}

proof fn entry_unknown(list: Seq<(String, bool)>, name: Seq<char>)
    requires
        forall|j: int| 0 <= j < list.len() ==> (#[trigger] list[j]).0@ != name,
    ensures
        !entry_map(list).dom().contains(name),
    decreases list.len(),
{
    if list.len() > 0 {
        assert forall|j: int| 0 <= j < list.drop_last().len() implies (
        #[trigger] list.drop_last()[j]).0@ != name by {
            assert(list.drop_last()[j] == list[j]);
        }
        entry_unknown(list.drop_last(), name);
        assert(list[list.len() - 1].0@ != name);
    }
}

/// `["a,b", " c "]` gives `["a", "b", "c"]`.
fn split(input: &[String]) -> (res: Vec<String>)
    ensures
        text::texts(res@) == listed(text::texts(input@)),
{
    let ghost all = text::texts(input@);
    let mut out: Vec<String> = Vec::new();
    let mut i: usize = 0;
    assert(text::texts(out@) =~= listed(all.take(0)));
    while i < input.len()
        invariant
            i <= input.len(),
            all == text::texts(input@),
            text::texts(out@) == listed(all.take(i as int)),
        decreases input.len() - i,
    {
        assert(all.take(i + 1).drop_last() =~= all.take(i as int));
        assert(all.take(i + 1).last() == input@[i as int]@);
        let parts = crate::text::split(input[i].as_str(), ',');
        let ghost pieces = text::texts(parts@);
        let ghost before = text::texts(out@);
        let mut k: usize = 0;
        assert(before =~= before + trimmed_parts(pieces.take(0)));
        while k < parts.len()
            invariant
                k <= parts.len(),
                pieces == text::texts(parts@),
                text::texts(out@) == before + trimmed_parts(pieces.take(k as int)),
            decreases parts.len() - k,
        {
            let ghost former = out@;
            let ghost kept = trimmed_parts(pieces.take(k as int));
            assert(pieces.take(k + 1).drop_last() =~= pieces.take(k as int));
            assert(pieces.take(k + 1).last() == parts@[k as int]@);
            let part = trim(parts[k].as_str());
            if !part.is_empty() {
                out.push(part.to_owned());
                assert(text::texts(out@) =~= text::texts(former).push(part@));
                assert((before + kept).push(part@) =~= before + kept.push(part@));
            }
            k += 1;
        }
        assert(pieces.take(pieces.len() as int) =~= pieces);
        i += 1;
    }
    assert(all.take(all.len() as int) =~= all);
    out
}

impl<'a> PolicyBuilder<'a> {
    /// What is asked.
    pub closed spec fn request(&self) -> Request {
        Request {
            catalog: entry_map(self.catalog@),
            taxonomy: self.taxonomy.said(),
            essential: text::strs(self.essential@),
            categories: text::texts(self.include_categories@),
            tools: text::texts(self.include_tools@),
            excluded: text::texts(self.exclude_tools@),
            read_only: self.read_only,
        }
    }

    fn new<T: Advertised>(catalog: &[T]) -> (res: PolicyBuilder<'static>)
        ensures
            res.request() == (Request {
                catalog: writers(tool::catalog(catalog@)),
                taxonomy: TaxonomyView { members: Seq::empty(), aliases: Seq::empty() },
                essential: Seq::empty(),
                categories: Seq::empty(),
                tools: Seq::empty(),
                excluded: Seq::empty(),
                read_only: false,
            }),
    {
        let ghost all = tool::catalog(catalog@);
        let mut entries: Vec<(String, bool)> = Vec::new();
        let mut i: usize = 0;
        assert(entry_map(entries@) =~= writers(all.take(0)));
        while i < catalog.len()
            invariant
                i <= catalog.len(),
                all == tool::catalog(catalog@),
                entry_map(entries@) == writers(all.take(i as int)),
            decreases catalog.len() - i,
        {
            let ghost former = entries@;
            let t = catalog[i].advertised();
            assert(all.take(i + 1).drop_last() =~= all.take(i as int));
            assert(all.take(i + 1).last() == t@);
            let reads = match &t.annotations {
                Some(annotations) => match annotations.read_only_hint {
                    Some(hint) => hint,
                    None => false,
                },
                None => false,
            };
            entries.push((t.name.clone(), !reads));
            assert(entries@.drop_last() =~= former);
            i += 1;
        }
        assert(all.take(all.len() as int) =~= all);
        let essential: &'static [&'static str] = &[];
        let res = PolicyBuilder {
            catalog: entries,
            taxonomy: Taxonomy::new(),
            essential,
            include_categories: Vec::new(),
            include_tools: Vec::new(),
            exclude_tools: Vec::new(),
            read_only: false,
        };
        assert(res.request().essential =~= Seq::empty());
        assert(res.request().categories =~= Seq::empty());
        assert(res.request().tools =~= Seq::empty());
        assert(res.request().excluded =~= Seq::empty());
        res
    }

    pub fn taxonomy(self, taxonomy: Taxonomy) -> (res: Self)
        ensures
            res.request() == (Request { taxonomy: taxonomy.said(), ..self.request() }),
    {
        PolicyBuilder { taxonomy, ..self }
    }

    /// Tools that survive every narrowing except an explicit exclusion.
    pub fn essential(self, tools: &'a [&'a str]) -> (res: Self)
        ensures
            res.request() == (Request { essential: text::strs(tools@), ..self.request() }),
    {
        PolicyBuilder { essential: tools, ..self }
    }

    /// Categories to include, repeated or separated by commas.
    pub fn include_categories(self, input: &[String]) -> (res: Self)
        ensures
            res.request() == (Request {
                categories: listed(text::texts(input@)),
                ..self.request()
            }),
    {
        PolicyBuilder { include_categories: split(input), ..self }
    }

    pub fn include_tools(self, input: &[String]) -> (res: Self)
        ensures
            res.request() == (Request { tools: listed(text::texts(input@)), ..self.request() }),
    {
        PolicyBuilder { include_tools: split(input), ..self }
    }

    pub fn exclude_tools(self, input: &[String]) -> (res: Self)
        ensures
            res.request() == (Request { excluded: listed(text::texts(input@)), ..self.request() }),
    {
        PolicyBuilder { exclude_tools: split(input), ..self }
    }

    pub fn read_only(self, yes: bool) -> (res: Self)
        ensures
            res.request() == (Request { read_only: yes, ..self.request() }),
    {
        PolicyBuilder { read_only: yes, ..self }
    }

    /// Whether a name is in the catalog, and whether that tool writes.
    fn lookup(&self, name: &str) -> (res: Option<bool>)
        ensures
            match res {
                Some(writer) => self.request().catalog.dom().contains(name@)
                    && self.request().catalog[name@] == writer,
                None => !self.request().catalog.dom().contains(name@),
            },
    {
        let mut i: usize = self.catalog.len();
        while i > 0
            invariant
                i <= self.catalog.len(),
                forall|j: int|
                    i <= j < self.catalog@.len() ==> (#[trigger] self.catalog@[j]).0@ != name@,
            decreases i,
        {
            i -= 1;
            if same(self.catalog[i].0.as_str(), name) {
                proof {
                    entry_known(self.catalog@, i as int);
                }
                return Some(self.catalog[i].1);
            }
        }
        proof {
            entry_unknown(self.catalog@, name@);
        }
        None
    }

    fn resolve(&self, input: &str) -> (res: Result<String, PolicyError>)
        ensures
            match res {
                Ok(name) => self.request().tool_meant(input@) == Ok::<Seq<char>, Refusal>(name@),
                Err(error) => self.request().tool_meant(input@) == Err::<Seq<char>, Refusal>(
                    error.said(),
                ),
            },
    {
        if self.lookup(input).is_some() {
            return Ok(input.to_owned());
        }
        let name = self.taxonomy.canonical(input);
        if self.lookup(name.as_str()).is_some() {
            return Ok(name);
        }
        Err(PolicyError::UnknownTool(input.to_owned()))
    }
}

/// Adds a name to a list that stands for a set.
fn put_in(list: &mut Vec<String>, name: &str)
    ensures
        name_set(final(list)@) == name_set(old(list)@).insert(name@),
{
    let ghost before = list@;
    if !list_has(list.as_slice(), name) {
        list.push(name.to_owned());
        proof {
            let after = text::texts(list@);
            assert(after =~= text::texts(before).push(name@));
            assert forall|n: Seq<char>| after.contains(n) == (text::texts(before).contains(n) || n
                == name@) by {
                if text::texts(before).contains(n) {
                    let i = choose|i: int|
                        0 <= i < text::texts(before).len() && text::texts(before)[i] == n;
                    assert(after[i] == n);
                }
                if n == name@ {
                    assert(after[before.len() as int] == n);
                }
            }
        }
    }
    assert(name_set(list@) =~= name_set(before).insert(name@));
}

/// Takes a name out of a list that stands for a set.
fn take_out(list: Vec<String>, name: &str) -> (res: Vec<String>)
    ensures
        name_set(res@) == name_set(list@).remove(name@),
{
    let mut out: Vec<String> = Vec::new();
    let ghost all = text::texts(list@);
    let mut i: usize = 0;
    assert(name_set(out@) =~= Set::empty());
    while i < list.len()
        invariant
            i <= list.len(),
            all == text::texts(list@),
            forall|n: Seq<char>|
                #![trigger name_set(out@).contains(n)]
                name_set(out@).contains(n) <==> all.take(i as int).contains(n) && n != name@,
        decreases list.len() - i,
    {
        let ghost former = out@;
        assert(all.take(i + 1) =~= all.take(i as int).push(list@[i as int]@));
        if !same(list[i].as_str(), name) {
            put_in(&mut out, list[i].as_str());
        }
        proof {
            let more = all.take(i + 1);
            let less = all.take(i as int);
            assert forall|n: Seq<char>|
                #![trigger name_set(out@).contains(n)]
                name_set(out@).contains(n) <==> more.contains(n) && n != name@ by {
                if less.contains(n) {
                    let k = choose|k: int| 0 <= k < less.len() && less[k] == n;
                    assert(more[k] == n);
                }
                if n == list@[i as int]@ {
                    assert(more[i as int] == n);
                }
                assert(name_set(former).contains(n) <==> less.contains(n) && n != name@);
            }
        }
        i += 1;
    }
    assert(all.take(all.len() as int) =~= all);
    assert(name_set(out@) =~= name_set(list@).remove(name@));
    out
}

impl<'a> PolicyBuilder<'a> {
    fn add_categories(&self, enabled: &mut Vec<String>) -> (res: Option<PolicyError>)
        ensures
            match res {
                Some(error) => self.request().with_categories(
                    name_set(old(enabled)@),
                    self.request().categories.len() as int,
                ) == Err::<Set<Seq<char>>, Refusal>(error.said()),
                None => self.request().with_categories(
                    name_set(old(enabled)@),
                    self.request().categories.len() as int,
                ) == Ok::<Set<Seq<char>>, Refusal>(name_set(final(enabled)@)),
            },
    {
        let ghost request = self.request();
        let ghost start = name_set(enabled@);
        let mut failed: Option<PolicyError> = None;
        let mut i: usize = 0;
        while i < self.include_categories.len()
            invariant
                i <= self.include_categories.len(),
                request == self.request(),
                match failed {
                    Some(error) => request.with_categories(start, i as int) == Err::<
                        Set<Seq<char>>,
                        Refusal,
                    >(error.said()),
                    None => request.with_categories(start, i as int) == Ok::<
                        Set<Seq<char>>,
                        Refusal,
                    >(name_set(enabled@)),
                },
            decreases self.include_categories.len() - i,
        {
            assert(request.categories[i as int] == self.include_categories@[i as int]@);
            if failed.is_none() {
                match self.taxonomy.members_of(self.include_categories[i].as_str()) {
                    None => {
                        failed = Some(
                            PolicyError::UnknownCategory {
                                name: self.include_categories[i].clone(),
                                known: self.taxonomy.categories(),
                            },
                        );
                    },
                    Some(members) => {
                        let ghost before = name_set(enabled@);
                        let ghost all = text::texts(members@);
                        let mut k: usize = 0;
                        assert(before =~= before.union(
                            Set::new(
                                |name: Seq<char>|
                                    all.take(0).contains(name) && request.catalog.dom().contains(
                                        name,
                                    ),
                            ),
                        ));
                        while k < members.len()
                            invariant
                                k <= members.len(),
                                request == self.request(),
                                all == text::texts(members@),
                                name_set(enabled@) == before.union(
                                    Set::new(
                                        |name: Seq<char>|
                                            all.take(k as int).contains(name)
                                                && request.catalog.dom().contains(name),
                                    ),
                                ),
                            decreases members.len() - k,
                        {
                            let ghost former = name_set(enabled@);
                            let ghost less = all.take(k as int);
                            let ghost more = all.take(k + 1);
                            assert(more =~= less.push(members@[k as int]@));
                            if self.lookup(members[k].as_str()).is_some() {
                                put_in(enabled, members[k].as_str());
                            }
                            proof {
                                assert forall|n: Seq<char>| more.contains(n) == (less.contains(n)
                                    || n == members@[k as int]@) by {
                                    if less.contains(n) {
                                        let j = choose|j: int| 0 <= j < less.len() && less[j] == n;
                                        assert(more[j] == n);
                                    }
                                    if n == members@[k as int]@ {
                                        assert(more[k as int] == n);
                                    }
                                }
                                assert(name_set(enabled@) =~= before.union(
                                    Set::new(
                                        |name: Seq<char>|
                                            more.contains(name) && request.catalog.dom().contains(
                                                name,
                                            ),
                                    ),
                                ));
                            }
                            k += 1;
                        }
                        assert(all.take(all.len() as int) =~= all);
                    },
                }
            }
            i += 1;
        }
        failed
    }

    fn add_tools(&self, enabled: &mut Vec<String>) -> (res: Option<PolicyError>)
        ensures
            match res {
                Some(error) => self.request().with_tools(
                    name_set(old(enabled)@),
                    self.request().tools.len() as int,
                ) == Err::<Set<Seq<char>>, Refusal>(error.said()),
                None => self.request().with_tools(
                    name_set(old(enabled)@),
                    self.request().tools.len() as int,
                ) == Ok::<Set<Seq<char>>, Refusal>(name_set(final(enabled)@)),
            },
    {
        let ghost request = self.request();
        let ghost start = name_set(enabled@);
        let mut failed: Option<PolicyError> = None;
        let mut i: usize = 0;
        while i < self.include_tools.len()
            invariant
                i <= self.include_tools.len(),
                request == self.request(),
                match failed {
                    Some(error) => request.with_tools(start, i as int) == Err::<
                        Set<Seq<char>>,
                        Refusal,
                    >(error.said()),
                    None => request.with_tools(start, i as int) == Ok::<Set<Seq<char>>, Refusal>(
                        name_set(enabled@),
                    ),
                },
            decreases self.include_tools.len() - i,
        {
            assert(request.tools[i as int] == self.include_tools@[i as int]@);
            if failed.is_none() {
                match self.resolve(self.include_tools[i].as_str()) {
                    Ok(name) => put_in(enabled, name.as_str()),
                    Err(error) => {
                        failed = Some(error);
                    },
                }
            }
            i += 1;
        }
        failed
    }

    fn add_essential(&self, enabled: &mut Vec<String>)
        ensures
            name_set(final(enabled)@) == self.request().with_essential(name_set(old(enabled)@)),
    {
        let ghost request = self.request();
        let ghost before = name_set(enabled@);
        if self.include_categories.len() == 0 && self.include_tools.len() == 0 {
            return;
        }
        let ghost all = request.essential;
        let mut i: usize = 0;
        assert(before =~= before.union(
            Set::new(
                |name: Seq<char>|
                    all.take(0).contains(name) && request.catalog.dom().contains(name),
            ),
        ));
        while i < self.essential.len()
            invariant
                i <= self.essential@.len(),
                request == self.request(),
                all == text::strs(self.essential@),
                name_set(enabled@) == before.union(
                    Set::new(
                        |name: Seq<char>|
                            all.take(i as int).contains(name) && request.catalog.dom().contains(
                                name,
                            ),
                    ),
                ),
            decreases self.essential@.len() - i,
        {
            let ghost less = all.take(i as int);
            let ghost more = all.take(i + 1);
            assert(more =~= less.push(self.essential@[i as int]@));
            if self.lookup(self.essential[i]).is_some() {
                put_in(enabled, self.essential[i]);
            }
            proof {
                assert forall|n: Seq<char>| more.contains(n) == (less.contains(n) || n
                    == self.essential@[i as int]@) by {
                    if less.contains(n) {
                        let j = choose|j: int| 0 <= j < less.len() && less[j] == n;
                        assert(more[j] == n);
                    }
                    if n == self.essential@[i as int]@ {
                        assert(more[i as int] == n);
                    }
                }
                assert(name_set(enabled@) =~= before.union(
                    Set::new(
                        |name: Seq<char>|
                            more.contains(name) && request.catalog.dom().contains(name),
                    ),
                ));
            }
            i += 1;
        }
        assert(all.take(all.len() as int) =~= all);
    }

    fn drop_excluded(&self, enabled: Vec<String>) -> (res: Result<Vec<String>, PolicyError>)
        ensures
            match res {
                Ok(left) => self.request().without_excluded(
                    name_set(enabled@),
                    self.request().excluded.len() as int,
                ) == Ok::<Set<Seq<char>>, Refusal>(name_set(left@)),
                Err(error) => self.request().without_excluded(
                    name_set(enabled@),
                    self.request().excluded.len() as int,
                ) == Err::<Set<Seq<char>>, Refusal>(error.said()),
            },
    {
        let ghost request = self.request();
        let ghost start = name_set(enabled@);
        let mut left = enabled;
        let mut failed: Option<PolicyError> = None;
        let mut i: usize = 0;
        while i < self.exclude_tools.len()
            invariant
                i <= self.exclude_tools.len(),
                request == self.request(),
                match failed {
                    Some(error) => request.without_excluded(start, i as int) == Err::<
                        Set<Seq<char>>,
                        Refusal,
                    >(error.said()),
                    None => request.without_excluded(start, i as int) == Ok::<
                        Set<Seq<char>>,
                        Refusal,
                    >(name_set(left@)),
                },
            decreases self.exclude_tools.len() - i,
        {
            assert(request.excluded[i as int] == self.exclude_tools@[i as int]@);
            if failed.is_none() {
                match self.resolve(self.exclude_tools[i].as_str()) {
                    Ok(name) => {
                        left = take_out(left, name.as_str());
                    },
                    Err(error) => {
                        failed = Some(error);
                    },
                }
            }
            i += 1;
        }
        match failed {
            Some(error) => Err(error),
            None => Ok(left),
        }
    }

    fn keep_readable(&self, enabled: Vec<String>) -> (res: Vec<String>)
        requires
            name_set(enabled@).subset_of(self.request().catalog.dom()),
        ensures
            name_set(res@) == self.request().readable(name_set(enabled@)),
    {
        let ghost request = self.request();
        if !self.read_only {
            return enabled;
        }
        let ghost all = text::texts(enabled@);
        let ghost keep = |name: Seq<char>|
            request.essential.contains(name) || !request.catalog[name];
        let mut out: Vec<String> = Vec::new();
        let mut i: usize = 0;
        assert(forall|n: Seq<char>| !(#[trigger] name_set(out@).contains(n)));
        while i < enabled.len()
            invariant
                i <= enabled.len(),
                request == self.request(),
                all == text::texts(enabled@),
                name_set(enabled@).subset_of(request.catalog.dom()),
                keep == (|name: Seq<char>|
                    request.essential.contains(name) || !request.catalog[name]),
                forall|n: Seq<char>|
                    #![trigger name_set(out@).contains(n)]
                    name_set(out@).contains(n) <==> all.take(i as int).contains(n) && keep(n),
            decreases enabled.len() - i,
        {
            let ghost former = out@;
            let ghost less = all.take(i as int);
            let ghost more = all.take(i + 1);
            let name = enabled[i].as_str();
            assert(more =~= less.push(name@));
            assert(all[i as int] == name@);
            assert(name_set(enabled@).contains(name@));
            let writer = match self.lookup(name) {
                Some(writer) => writer,
                None => true,
            };
            if strs_have(self.essential, name) || !writer {
                put_in(&mut out, name);
            }
            proof {
                assert forall|n: Seq<char>|
                    #![trigger name_set(out@).contains(n)]
                    name_set(out@).contains(n) <==> more.contains(n) && keep(n) by {
                    if less.contains(n) {
                        let k = choose|k: int| 0 <= k < less.len() && less[k] == n;
                        assert(more[k] == n);
                    }
                    if n == name@ {
                        assert(more[i as int] == n);
                    }
                    assert(name_set(former).contains(n) <==> less.contains(n) && keep(n));
                }
            }
            i += 1;
        }
        assert(all.take(all.len() as int) =~= all);
        assert(name_set(out@) =~= request.readable(name_set(enabled@)));
        out
    }

    /// Composes the four inputs in their fixed order.
    pub fn build(self) -> (res: Result<ToolPolicy, PolicyError>)
        ensures
            match res {
                Ok(policy) => is_policy_for(policy, self.request()),
                Err(error) => self.request().selection() == Err::<Set<Seq<char>>, Refusal>(
                    error.said(),
                ),
            },
    {
        let ghost request = self.request();
        let includes = self.include_categories.len() > 0 || self.include_tools.len() > 0;
        let asked = includes || self.exclude_tools.len() > 0 || self.read_only;
        let mut enabled: Vec<String> = Vec::new();
        assert(name_set(enabled@) =~= Set::empty());
        if !includes {
            let mut i: usize = 0;
            assert(name_set(enabled@) =~= entry_map(self.catalog@.take(0)).dom());
            while i < self.catalog.len()
                invariant
                    i <= self.catalog.len(),
                    name_set(enabled@) == entry_map(self.catalog@.take(i as int)).dom(),
                decreases self.catalog.len() - i,
            {
                let ghost before = self.catalog@.take(i as int);
                assert(self.catalog@.take(i + 1).drop_last() =~= before);
                put_in(&mut enabled, self.catalog[i].0.as_str());
                assert(name_set(enabled@) =~= entry_map(self.catalog@.take(i + 1)).dom());
                i += 1;
            }
            assert(self.catalog@.take(self.catalog@.len() as int) =~= self.catalog@);
        }
        assert(name_set(enabled@) == request.start());
        if let Some(error) = self.add_categories(&mut enabled) {
            return Err(error);
        }
        let ghost one = name_set(enabled@);
        if let Some(error) = self.add_tools(&mut enabled) {
            return Err(error);
        }
        let ghost two = name_set(enabled@);
        self.add_essential(&mut enabled);
        let ghost wide = name_set(enabled@);
        let kept = match self.drop_excluded(enabled) {
            Ok(kept) => kept,
            Err(error) => return Err(error),
        };
        proof {
            request.stays_in_catalog();
        }
        let left = self.keep_readable(kept);
        let ghost last = name_set(left@);
        let mut useful = false;
        let mut i: usize = 0;
        while i < left.len()
            invariant
                i <= left.len(),
                request == self.request(),
                last == name_set(left@),
                useful ==> exists|name: Seq<char>|
                    #[trigger] last.contains(name) && !request.essential.contains(name),
                !useful ==> forall|j: int|
                    0 <= j < i ==> request.essential.contains(#[trigger] text::texts(left@)[j]),
            decreases left.len() - i,
        {
            assert(text::texts(left@)[i as int] == left@[i as int]@);
            if !strs_have(self.essential, left[i].as_str()) {
                assert(text::texts(left@).contains(left@[i as int]@));
                assert(last.contains(left@[i as int]@));
                useful = true;
            }
            i += 1;
        }
        if !useful {
            assert forall|name: Seq<char>| #[trigger]
                last.contains(name) implies request.essential.contains(name) by {
                let j = choose|j: int|
                    0 <= j < text::texts(left@).len() && text::texts(left@)[j] == name;
                assert(request.essential.contains(text::texts(left@)[j]));
            }
            return Err(PolicyError::Empty);
        }
        let mut narrowed = false;
        let mut at: usize = 0;
        while at < self.catalog.len()
            invariant
                at <= self.catalog.len(),
                last == name_set(left@),
                narrowed == exists|j: int|
                    0 <= j < at && !last.contains((#[trigger] self.catalog@[j]).0@),
            decreases self.catalog.len() - at,
        {
            if !list_has(left.as_slice(), self.catalog[at].0.as_str()) {
                assert(!last.contains(self.catalog@[at as int].0@));
                narrowed = true;
            }
            at += 1;
        }
        proof {
            let catalog = request.catalog.dom();
            if narrowed {
                let j = choose|j: int|
                    0 <= j < self.catalog@.len() && !last.contains(
                        (#[trigger] self.catalog@[j]).0@,
                    );
                entry_names(self.catalog@, self.catalog@[j].0@);
                assert(catalog.contains(self.catalog@[j].0@));
            }
            assert forall|name: Seq<char>| #[trigger]
                catalog.contains(name) && !last.contains(name) implies narrowed by {
                entry_names(self.catalog@, name);
            }
        }
        Ok(ToolPolicy { enabled: left, asked, narrowed })
    }
}

// ---------------------------------------------------------------------------
// Laws
// ---------------------------------------------------------------------------

/// The names of a map of entries are those of the entries.
proof fn entry_names(list: Seq<(String, bool)>, name: Seq<char>)
    ensures
        entry_map(list).dom().contains(name) <==> exists|j: int|
            0 <= j < list.len() && (#[trigger] list[j]).0@ == name,
{
    if exists|j: int| 0 <= j < list.len() && (#[trigger] list[j]).0@ == name {
        entry_known(list, choose|j: int| 0 <= j < list.len() && (#[trigger] list[j]).0@ == name);
    } else {
        entry_unknown(list, name);
    }
}

impl Request {
    proof fn categories_stay(self, start: Set<Seq<char>>, n: int)
        requires
            start.subset_of(self.catalog.dom()),
        ensures
            match self.with_categories(start, n) {
                Ok(set) => set.subset_of(self.catalog.dom()) && start.subset_of(set),
                Err(_) => true,
            },
        decreases n,
    {
        if n > 0 {
            self.categories_stay(start, n - 1);
        }
    }

    proof fn tools_stay(self, start: Set<Seq<char>>, n: int)
        requires
            start.subset_of(self.catalog.dom()),
        ensures
            match self.with_tools(start, n) {
                Ok(set) => set.subset_of(self.catalog.dom()) && start.subset_of(set),
                Err(_) => true,
            },
        decreases n,
    {
        if n > 0 {
            self.tools_stay(start, n - 1);
        }
    }

    proof fn exclusions_stay(self, start: Set<Seq<char>>, n: int)
        requires
            n <= self.excluded.len(),
        ensures
            match self.without_excluded(start, n) {
                Ok(set) => set.subset_of(start) && (forall|i: int|
                    #![trigger self.excluded[i]]
                    0 <= i < n ==> match self.tool_meant(self.excluded[i]) {
                        Ok(name) => !set.contains(name),
                        Err(_) => false,
                    }),
                Err(_) => true,
            },
        decreases n,
    {
        if n > 0 {
            self.exclusions_stay(start, n - 1);
        }
    }

    /// At every step of the composition the selection stays inside the catalog.
    proof fn stays_in_catalog(self)
        ensures
            match self.with_categories(self.start(), self.categories.len() as int) {
                Ok(one) => match self.with_tools(one, self.tools.len() as int) {
                    Ok(two) => match self.without_excluded(
                        self.with_essential(two),
                        self.excluded.len() as int,
                    ) {
                        Ok(three) => three.subset_of(self.catalog.dom()),
                        Err(_) => true,
                    },
                    Err(_) => true,
                },
                Err(_) => true,
            },
    {
        self.categories_stay(self.start(), self.categories.len() as int);
        if let Ok(one) = self.with_categories(self.start(), self.categories.len() as int) {
            self.tools_stay(one, self.tools.len() as int);
            if let Ok(two) = self.with_tools(one, self.tools.len() as int) {
                self.exclusions_stay(self.with_essential(two), self.excluded.len() as int);
            }
        }
    }

    /// What is selected is in the catalog.
    pub proof fn selects_from_the_catalog(self)
        ensures
            match self.selection() {
                Ok(left) => left.subset_of(self.catalog.dom()),
                Err(_) => true,
            },
    {
        self.stays_in_catalog();
    }

    /// The same request with one more exclusion.
    pub open spec fn excluding(self, name: Seq<char>) -> Request {
        Request { excluded: self.excluded.push(name), ..self }
    }

    /// The same request with read-only switched on.
    pub open spec fn reading_only(self) -> Request {
        Request { read_only: true, ..self }
    }

    /// Requests with the same catalog, taxonomy and includes agree on what they
    /// include, and on what the exclusions they share leave of it.
    proof fn same_includes(self, other: Request, start: Set<Seq<char>>, n: int)
        requires
            other.catalog == self.catalog,
            other.taxonomy == self.taxonomy,
            other.categories == self.categories,
            other.tools == self.tools,
            n <= self.excluded.len() <= other.excluded.len(),
            forall|i: int|
                0 <= i < self.excluded.len() ==> #[trigger] self.excluded[i] == other.excluded[i],
        ensures
            forall|k: int| #[trigger]
                self.with_categories(start, k) == other.with_categories(start, k),
            forall|k: int| #[trigger] self.with_tools(start, k) == other.with_tools(start, k),
            self.without_excluded(start, n) == other.without_excluded(start, n),
    {
        assert forall|k: int| #[trigger]
            self.with_categories(start, k) == other.with_categories(start, k) by {
            self.same_categories(other, start, k);
        }
        assert forall|k: int| #[trigger]
            self.with_tools(start, k) == other.with_tools(start, k) by {
            self.same_tools(other, start, k);
        }
        self.same_exclusions(other, start, n);
    }

    proof fn same_categories(self, other: Request, start: Set<Seq<char>>, n: int)
        requires
            other.catalog == self.catalog,
            other.taxonomy == self.taxonomy,
            other.categories == self.categories,
        ensures
            self.with_categories(start, n) == other.with_categories(start, n),
        decreases n,
    {
        if n > 0 {
            self.same_categories(other, start, n - 1);
        }
    }

    proof fn same_tools(self, other: Request, start: Set<Seq<char>>, n: int)
        requires
            other.catalog == self.catalog,
            other.taxonomy == self.taxonomy,
            other.tools == self.tools,
        ensures
            self.with_tools(start, n) == other.with_tools(start, n),
        decreases n,
    {
        if n > 0 {
            self.same_tools(other, start, n - 1);
        }
    }

    proof fn same_exclusions(self, other: Request, start: Set<Seq<char>>, n: int)
        requires
            other.catalog == self.catalog,
            other.taxonomy == self.taxonomy,
            n <= self.excluded.len() <= other.excluded.len(),
            forall|i: int|
                0 <= i < self.excluded.len() ==> #[trigger] self.excluded[i] == other.excluded[i],
        ensures
            self.without_excluded(start, n) == other.without_excluded(start, n),
        decreases n,
    {
        if n > 0 {
            self.same_exclusions(other, start, n - 1);
            assert(self.excluded[n - 1] == other.excluded[n - 1]);
        }
    }

    /// What a selection that still does work is part of does work too.
    proof fn less_of_it(self, left: Set<Seq<char>>, more: Set<Seq<char>>)
        requires
            left.subset_of(more),
            exists|name: Seq<char>| #[trigger] left.contains(name) && !self.essential.contains(name),
        ensures
            exists|name: Seq<char>| #[trigger] more.contains(name) && !self.essential.contains(name),
    {
        let name = choose|name: Seq<char>| #[trigger]
            left.contains(name) && !self.essential.contains(name);
        assert(more.contains(name));
    }

    /// The flags only ever subtract: one more exclusion, or read-only switched on,
    /// selects nothing that was not selected before, and mends no request that was
    /// refused.
    pub proof fn flags_only_subtract(self, name: Seq<char>)
        ensures
            match (self.excluding(name).selection(), self.selection()) {
                (Ok(left), Ok(before)) => left.subset_of(before),
                (Ok(_), Err(_)) => false,
                (Err(_), _) => true,
            },
            match (self.reading_only().selection(), self.selection()) {
                (Ok(left), Ok(before)) => left.subset_of(before),
                (Ok(_), Err(_)) => false,
                (Err(_), _) => true,
            },
    {
        let fewer = self.excluding(name);
        let safer = self.reading_only();
        let n = self.excluded.len() as int;
        assert forall|i: int| 0 <= i < n implies #[trigger] self.excluded[i]
            == fewer.excluded[i] by {}
        let start = self.start();
        self.same_includes(fewer, start, 0);
        self.same_includes(safer, start, 0);
        assert(fewer.start() == start && safer.start() == start);
        if let Ok(one) = self.with_categories(start, self.categories.len() as int) {
            self.same_includes(fewer, one, 0);
            self.same_includes(safer, one, 0);
            if let Ok(two) = self.with_tools(one, self.tools.len() as int) {
                let three = self.with_essential(two);
                assert(fewer.with_essential(two) == three && safer.with_essential(two) == three);
                self.same_includes(fewer, three, n);
                self.same_includes(safer, three, n);
                assert(fewer.excluded[n] == name);
                if let Ok(four) = self.without_excluded(three, n) {
                    let before = self.readable(four);
                    let less = safer.readable(four);
                    assert(less.subset_of(before));
                    if safer.selection() is Ok {
                        self.less_of_it(less, before);
                    }
                    if let Ok(five) = fewer.without_excluded(three, n + 1) {
                        let left = fewer.readable(five);
                        assert(left.subset_of(before));
                        if fewer.selection() is Ok {
                            self.less_of_it(left, before);
                        }
                    }
                }
            }
        }
    }

    /// A request that asks for nothing selects the whole catalog, and is refused
    /// only where the catalog has nothing but essential tools.
    pub proof fn nothing_asked_admits_everything(self)
        requires
            !self.active(),
        ensures
            match self.selection() {
                Ok(left) => left == self.catalog.dom(),
                Err(refusal) => refusal is Empty && forall|name: Seq<char>| #[trigger]
                    self.catalog.dom().contains(name) ==> self.essential.contains(name),
            },
    {
        let all = self.catalog.dom();
        assert(self.with_categories(all, 0) == Ok::<Set<Seq<char>>, Refusal>(all));
        assert(self.with_tools(all, 0) == Ok::<Set<Seq<char>>, Refusal>(all));
        assert(self.without_excluded(all, 0) == Ok::<Set<Seq<char>>, Refusal>(all));
        assert(self.start() == all && self.with_essential(all) == all && self.readable(all) == all);
        if self.selection() is Err {
            assert forall|name: Seq<char>| #[trigger]
                self.catalog.dom().contains(name) implies self.essential.contains(name) by {
                if !self.essential.contains(name) {
                    assert(self.readable(all).contains(name));
                }
            }
        }
    }

    /// Exclusion wins over inclusion: no tool that an exclusion means is
    /// selected, whatever includes it.
    pub proof fn exclusion_wins(self, at: int)
        requires
            0 <= at < self.excluded.len(),
        ensures
            match self.selection() {
                Ok(left) => match self.tool_meant(self.excluded[at]) {
                    Ok(name) => !left.contains(name),
                    Err(_) => false,
                },
                Err(_) => true,
            },
    {
        if let Ok(one) = self.with_categories(self.start(), self.categories.len() as int) {
            if let Ok(two) = self.with_tools(one, self.tools.len() as int) {
                self.exclusions_stay(self.with_essential(two), self.excluded.len() as int);
            }
        }
    }

    /// A read-only selection holds no writer that is not essential.
    pub proof fn read_only_keeps_no_writer(self, name: Seq<char>)
        requires
            self.read_only,
        ensures
            match self.selection() {
                Ok(left) => left.contains(name) ==> self.essential.contains(name)
                    || !self.catalog[name],
                Err(_) => true,
            },
    {
    }

    /// Narrowing never takes an essential tool of the catalog away, unless an
    /// exclusion means it.
    pub proof fn essential_tools_survive(self, name: Seq<char>)
        requires
            self.essential.contains(name),
            self.catalog.dom().contains(name),
            forall|i: int|
                #![trigger self.excluded[i]]
                0 <= i < self.excluded.len() ==> self.tool_meant(self.excluded[i]) != Ok::<
                    Seq<char>,
                    Refusal,
                >(name),
        ensures
            match self.selection() {
                Ok(left) => left.contains(name),
                Err(_) => true,
            },
    {
        self.categories_stay(self.start(), self.categories.len() as int);
        if let Ok(one) = self.with_categories(self.start(), self.categories.len() as int) {
            self.tools_stay(one, self.tools.len() as int);
            if let Ok(two) = self.with_tools(one, self.tools.len() as int) {
                assert(self.with_essential(two).contains(name));
                self.unexcluded(self.with_essential(two), name, self.excluded.len() as int);
            }
        }
    }

    proof fn unexcluded(self, start: Set<Seq<char>>, name: Seq<char>, n: int)
        requires
            n <= self.excluded.len(),
            start.contains(name),
            forall|i: int|
                #![trigger self.excluded[i]]
                0 <= i < self.excluded.len() ==> self.tool_meant(self.excluded[i]) != Ok::<
                    Seq<char>,
                    Refusal,
                >(name),
        ensures
            match self.without_excluded(start, n) {
                Ok(set) => set.contains(name),
                Err(_) => true,
            },
        decreases n,
    {
        if n > 0 {
            self.unexcluded(start, name, n - 1);
            assert(self.tool_meant(self.excluded[n - 1]) != Ok::<Seq<char>, Refusal>(name));
        }
    }
}

proof fn parts_concat(a: Seq<Seq<char>>, b: Seq<Seq<char>>)
    ensures
        trimmed_parts(a + b) == trimmed_parts(a) + trimmed_parts(b),
    decreases b.len(),
{
    if b.len() == 0 {
        assert(a + b =~= a);
        assert(trimmed_parts(a) + trimmed_parts(b) =~= trimmed_parts(a));
    } else {
        parts_concat(a, b.drop_last());
        assert((a + b).drop_last() =~= a + b.drop_last());
        assert((a + b).last() == b.last());
        let left = trimmed_parts(a);
        let right = trimmed_parts(b.drop_last());
        let one = text::trimmed(b.last());
        assert((left + right).push(one) =~= left + right.push(one));
    }
}

/// Commas and repeats mean the same thing: `a,b` in one value is `a` and `b` in
/// two.
pub proof fn commas_are_repeats(a: Seq<char>, b: Seq<char>)
    ensures
        listed(seq![a + seq![','] + b]) == listed(seq![a, b]),
{
    text::pieces_split(a, b, ',');
    parts_concat(text::pieces(a, ','), text::pieces(b, ','));
    let one = seq![a + seq![','] + b];
    let two = seq![a, b];
    assert(one.drop_last() =~= Seq::empty());
    assert(two.drop_last() =~= seq![a]);
    assert(seq![a].drop_last() =~= Seq::empty());
    assert(listed(Seq::empty()) =~= Seq::empty());
    assert(listed(seq![a]) =~= names_in(a));
    assert(listed(one) =~= names_in(one[0]));
    assert(listed(two) =~= names_in(a) + names_in(b));
}

// ---------------------------------------------------------------------------
// Flags
// ---------------------------------------------------------------------------

pub const TOOLSETS_ARG: &'static str = "__vibrev_toolsets";

pub const TOOLS_ARG: &'static str = "__vibrev_tools";

pub const EXCLUDE_TOOLS_ARG: &'static str = "__vibrev_exclude_tools";

pub const READ_ONLY_ARG: &'static str = "__vibrev_read_only";

/// The four flags, defined once so that engines cannot spell them differently.
#[derive(Debug, PartialEq, Eq)]
pub struct PolicyArgs {
    pub toolsets: Vec<String>,
    pub tools: Vec<String>,
    pub exclude_tools: Vec<String>,
    pub read_only: bool,
}

impl Default for PolicyArgs {
    fn default() -> (res: Self)
        ensures
            res.toolsets@.len() == 0,
            res.tools@.len() == 0,
            res.exclude_tools@.len() == 0,
            !res.read_only,
    {
        PolicyArgs {
            toolsets: Vec::new(),
            tools: Vec::new(),
            exclude_tools: Vec::new(),
            read_only: false,
        }
    }
}

/// The values given for an argument; none where it was not given.
pub open spec fn values_or_none(m: Matches, id: Seq<char>) -> Seq<Seq<char>> {
    match m.given(id) {
        Some(list) => list,
        None => Seq::empty(),
    }
}

/// A flag that takes values, may be repeated and is accepted at every level.
pub open spec fn list_flag(
    id: Seq<char>,
    long: Seq<char>,
    value_name: Seq<char>,
    help: Seq<char>,
) -> ArgView {
    ArgView {
        long: Some(long),
        value_name: Some(value_name),
        help: Some(help),
        action: Action::Append,
        global: true,
        ..command::plain_arg(id)
    }
}

/// The four flags.
pub open spec fn policy_flags() -> Seq<ArgView> {
    seq![
        list_flag(
            TOOLSETS_ARG@,
            "toolsets"@,
            "CATEGORY"@,
            "Only expose tools in these categories (comma-separated or repeated). Naming any is a narrowing, not an addition to 'all'"@,
        ),
        list_flag(
            TOOLS_ARG@,
            "tools"@,
            "TOOL"@,
            "Also expose these tools, on top of --toolsets"@,
        ),
        list_flag(
            EXCLUDE_TOOLS_ARG@,
            "exclude-tools"@,
            "TOOL"@,
            "Exclude these tools. Exclusion always wins over inclusion"@,
        ),
        ArgView {
            long: Some("read-only"@),
            help: Some(
                "Only expose tools that do not mutate the target. Driven by each tool's own readOnlyHint, not a hand-kept list"@,
            ),
            action: Action::Switch,
            global: true,
            ..command::plain_arg(READ_ONLY_ARG@)
        },
    ]
}

fn list_arg(id: &str, long: &str, value_name: &str, help: &str) -> (res: ArgSpec)
    ensures
        res@ == list_flag(id@, long@, value_name@, help@),
{
    let mut a = ArgSpec::new(id.to_owned());
    a.long = Some(long.to_owned());
    a.value_name = Some(value_name.to_owned());
    a.help = Some(help.to_owned());
    a.action = Action::Append;
    a.global = true;
    a
}

fn all_values(m: &Matches, id: &str) -> (res: Vec<String>)
    ensures
        text::texts(res@) == values_or_none(*m, id@),
{
    let mut out: Vec<String> = Vec::new();
    assert(text::texts(out@) =~= Seq::empty());
    if let Some(list) = m.many(id) {
        let mut i: usize = 0;
        while i < list.len()
            invariant
                i <= list.len(),
                out@.len() == i,
                forall|j: int| 0 <= j < i ==> #[trigger] out@[j]@ == list@[j]@,
            decreases list.len() - i,
        {
            out.push(list[i].clone());
            i += 1;
        }
        assert(text::texts(out@) =~= text::texts(list@));
    }
    out
}

impl PolicyArgs {
    /// The flags, ready to hang on a root. They are accepted at every level.
    pub fn args() -> (res: Vec<ArgSpec>)
        ensures
            command::args_said(res@) == policy_flags(),
    {
        let mut out: Vec<ArgSpec> = Vec::new();
        out.push(
            list_arg(
                TOOLSETS_ARG,
                "toolsets",
                "CATEGORY",
                "Only expose tools in these categories (comma-separated or repeated). Naming any is a narrowing, not an addition to 'all'",
            ),
        );
        out.push(
            list_arg(TOOLS_ARG, "tools", "TOOL", "Also expose these tools, on top of --toolsets"),
        );
        out.push(
            list_arg(
                EXCLUDE_TOOLS_ARG,
                "exclude-tools",
                "TOOL",
                "Exclude these tools. Exclusion always wins over inclusion",
            ),
        );
        let mut read_only = ArgSpec::new(READ_ONLY_ARG.to_owned());
        read_only.long = Some("read-only".to_owned());
        read_only.help = Some(
            "Only expose tools that do not mutate the target. Driven by each tool's own readOnlyHint, not a hand-kept list".to_owned(),
        );
        read_only.action = Action::Switch;
        read_only.global = true;
        out.push(read_only);
        assert(command::args_said(out@) =~= policy_flags());
        out
    }

    /// Reads the flags back. A command line that never had them reads as nothing
    /// selected.
    pub fn read(m: &Matches) -> (res: Self)
        ensures
            text::texts(res.toolsets@) == values_or_none(*m, TOOLSETS_ARG@),
            text::texts(res.tools@) == values_or_none(*m, TOOLS_ARG@),
            text::texts(res.exclude_tools@) == values_or_none(*m, EXCLUDE_TOOLS_ARG@),
            res.read_only == m.set(READ_ONLY_ARG@),
    {
        PolicyArgs {
            toolsets: all_values(m, TOOLSETS_ARG),
            tools: all_values(m, TOOLS_ARG),
            exclude_tools: all_values(m, EXCLUDE_TOOLS_ARG),
            read_only: m.flag(READ_ONLY_ARG),
        }
    }

    /// Whether the user asked for nothing at all.
    pub fn is_empty(&self) -> (res: bool)
        ensures
            res == (self.toolsets@.len() == 0 && self.tools@.len() == 0
                && self.exclude_tools@.len() == 0 && !self.read_only),
    {
        self.toolsets.len() == 0 && self.tools.len() == 0 && self.exclude_tools.len() == 0
            && !self.read_only
    }

    /// Feeds these into a builder that has its taxonomy and its essential tools.
    pub fn apply<'a>(&'a self, builder: PolicyBuilder<'a>) -> (res: PolicyBuilder<'a>)
        ensures
            res.request() == (Request {
                categories: listed(text::texts(self.toolsets@)),
                tools: listed(text::texts(self.tools@)),
                excluded: listed(text::texts(self.exclude_tools@)),
                read_only: self.read_only,
                ..builder.request()
            }),
    {
        builder.include_categories(self.toolsets.as_slice()).include_tools(
            self.tools.as_slice(),
        ).exclude_tools(self.exclude_tools.as_slice()).read_only(self.read_only)
    }
}

// ---------------------------------------------------------------------------
// A server behind a policy
// ---------------------------------------------------------------------------

/// A server with a [`ToolPolicy`] in front of it.
#[derive(Debug)]
pub struct Governed<S> {
    inner: S,
    policy: Arc<ToolPolicy>,
}

/// What a client is told when the policy refuses a call.
pub open spec fn refusal_text(name: Seq<char>) -> Seq<char> {
    "tool '"@ + name
        + "' is not enabled on this server (--toolsets/--tools/--exclude-tools/--read-only)"@
}

/// What a client is told when the policy refuses a call. The message names the
/// flags, because the only way this happens is that somebody passed one.
pub fn refusal(name: &str) -> (res: String)
    ensures
        res@ == refusal_text(name@),
{
    let mut out = "tool '".to_owned();
    out.append(name);
    out.append(
        "' is not enabled on this server (--toolsets/--tools/--exclude-tools/--read-only)",
    );
    out
}

impl<S> Governed<S> {
    /// The server behind the policy.
    pub closed spec fn server(&self) -> S {
        self.inner
    }

    /// The policy in front of the server.
    pub closed spec fn rule(&self) -> ToolPolicy {
        *self.policy
    }

    pub fn new(inner: S, policy: Arc<ToolPolicy>) -> (res: Self)
        ensures
            res.server() == inner,
            res.rule() == *policy,
    {
        Governed { inner, policy }
    }

    pub fn policy(&self) -> (res: &ToolPolicy)
        ensures
            *res == self.rule(),
    {
        &self.policy
    }

    pub fn inner(&self) -> (res: &S)
        ensures
            *res == self.server(),
    {
        &self.inner
    }

    /// What a listing of the server shows.
    pub fn list_tools(&self, tools: Vec<Tool>) -> (res: Vec<Tool>)
        ensures
            res@ == offered(tools@, self.rule()),
    {
        self.policy.advertise(tools)
    }

    /// Whether a call reaches the server, or what is answered instead.
    pub fn call_tool(&self, name: &str) -> (res: Result<(), String>)
        ensures
            match res {
                Ok(_) => self.rule().admits(name@),
                Err(message) => !self.rule().admits(name@) && message@ == refusal_text(name@),
            },
    {
        if self.policy.allows(name) {
            Ok(())
        } else {
            Err(refusal(name))
        }
    }

    /// A tool the server knows, where it is offered.
    pub fn get_tool(&self, name: &str, known: Option<Tool>) -> (res: Option<Tool>)
        ensures
            self.rule().admits(name@) ==> res == known,
            !self.rule().admits(name@) ==> res is None,
    {
        if self.policy.allows(name) {
            known
        } else {
            None
        }
    }
}

/// What is listed can be called, and what is not listed is refused: a tool of
/// the server is in the listing exactly when a call of it is admitted.
pub proof fn hidden_is_refused<T: Advertised>(tools: Seq<T>, policy: ToolPolicy, at: int)
    requires
        0 <= at < tools.len(),
    ensures
        offered(tools, policy).contains(tools[at]) <==> policy.admits(
            tools[at].advertises().name,
        ),
{
    let keep = |item: T| policy.admits(item.advertises().name);
    if keep(tools[at]) {
        tools.lemma_filter_contains(keep, at);
    }
    if offered(tools, policy).contains(tools[at]) {
        let i = choose|i: int|
            0 <= i < offered(tools, policy).len() && offered(tools, policy)[i] == tools[at];
        tools.lemma_filter_pred(keep, i);
    }
}

/// A policy never offers what was excluded: the tool that an exclusion means is
/// neither admitted nor in any listing, whatever includes it.
pub proof fn excluded_is_never_offered<T: Advertised>(
    request: Request,
    policy: ToolPolicy,
    tools: Seq<T>,
    at: int,
    shown: int,
)
    requires
        is_policy_for(policy, request),
        0 <= at < request.excluded.len(),
        0 <= shown < offered(tools, policy).len(),
    ensures
        match request.tool_meant(request.excluded[at]) {
            Ok(name) => !policy.admits(name) && offered(tools, policy)[shown].advertises().name
                != name,
            Err(_) => false,
        },
{
    request.exclusion_wins(at);
    let keep = |item: T| policy.admits(item.advertises().name);
    tools.lemma_filter_pred(keep, shown);
    if let Ok(name) = request.tool_meant(request.excluded[at]) {
        policy.admission(name);
    }
}

/// Nothing is narrowed exactly where every tool of the catalog stays offered.
pub proof fn nothing_narrowed_offers_all(request: Request, policy: ToolPolicy)
    requires
        is_policy_for(policy, request),
    ensures
        !policy.narrows() <==> forall|name: Seq<char>| #[trigger]
            request.catalog.dom().contains(name) ==> policy.admits(name),
{
    if !request.active() {
        request.nothing_asked_admits_everything();
    }
    assert forall|name: Seq<char>| #[trigger] request.catalog.dom().contains(name) implies (
    policy.admits(name) <==> policy.selected().contains(name)) by {
        policy.admission(name);
    }
    if !policy.narrows() {
        assert forall|name: Seq<char>| #[trigger]
            request.catalog.dom().contains(name) implies policy.admits(name) by {
            assert(policy.selected().contains(name));
        }
    }
}

/// A policy with one more exclusion, or with read-only switched on, admits no name
/// that the policy without it does not.
pub proof fn narrower_policies_admit_less(
    request: Request,
    name: Seq<char>,
    policy: ToolPolicy,
    narrower: ToolPolicy,
    tool: Seq<char>,
)
    requires
        is_policy_for(policy, request),
        is_policy_for(narrower, request.excluding(name)) || is_policy_for(
            narrower,
            request.reading_only(),
        ),
    ensures
        narrower.admits(tool) ==> policy.admits(tool),
{
    request.flags_only_subtract(name);
    policy.admission(tool);
    narrower.admission(tool);
}

/// One call on a [`Taxonomy`].
pub enum TaxonomyStep {
    Assign { tool: Seq<char>, category: Seq<char> },
    Alias { from: Seq<char>, to: Seq<char> },
}

/// What a new taxonomy says after some calls.
pub open spec fn taught(steps: Seq<TaxonomyStep>) -> TaxonomyView
    decreases steps.len(),
{
    if steps.len() == 0 {
        TaxonomyView { members: Seq::empty(), aliases: Seq::empty() }
    } else {
        let before = taught(steps.drop_last());
        match steps.last() {
            TaxonomyStep::Assign { tool, category } => TaxonomyView {
                members: assigned(before.members, tool, category),
                ..before
            },
            TaxonomyStep::Alias { from, to } => TaxonomyView {
                aliases: aliased(before.aliases, from, to),
                ..before
            },
        }
    }
}

/// Whether some call puts a tool in the category.
pub open spec fn assigns(steps: Seq<TaxonomyStep>, category: Seq<char>) -> bool {
    exists|i: int|
        0 <= i < steps.len() && (#[trigger] steps[i] matches TaxonomyStep::Assign { category: to, .. }
            && to == category)
}

/// Names in strictly ascending order.
pub open spec fn ascending(list: Seq<Seq<char>>) -> bool {
    forall|i: int, j: int|
        0 <= i < j < list.len() ==> text::text_before(#[trigger] list[i], #[trigger] list[j])
}

spec fn category_names(members: Seq<(Seq<char>, Seq<Seq<char>>)>) -> Seq<Seq<char>> {
    Seq::new(members.len(), |i: int| members[i].0)
}

proof fn category_absent(
    members: Seq<(Seq<char>, Seq<Seq<char>>)>,
    name: Seq<char>,
    from: int,
)
    requires
        0 <= from <= members.len(),
    ensures
        category_from(members, name, from) == members.len() ==> forall|i: int|
            from <= i < members.len() ==> (#[trigger] members[i]).0 != name,
        from <= category_slot(members, name, from) <= members.len(),
        category_slot(members, name, from) < members.len() ==> text::text_before(
            name,
            members[category_slot(members, name, from)].0,
        ),
        forall|i: int|
            from <= i < category_slot(members, name, from) ==> !text::text_before(
                name,
                (#[trigger] members[i]).0,
            ),
    decreases members.len() - from,
{
    if from < members.len() {
        category_absent(members, name, from + 1);
        category_places(members, name, from + 1);
    }
}

proof fn assigned_stays_ascending(
    members: Seq<(Seq<char>, Seq<Seq<char>>)>,
    tool: Seq<char>,
    category: Seq<char>,
)
    requires
        ascending(category_names(members)),
    ensures
        ascending(category_names(assigned(members, tool, category))),
        forall|name: Seq<char>| #[trigger]
            category_names(assigned(members, tool, category)).contains(name) <==> (
            category_names(members).contains(name) || name == category),
{
    let before = category_names(members);
    let after = category_names(assigned(members, tool, category));
    category_places(members, category, 0);
    let at = category_from(members, category, 0);
    if at < members.len() {
        assert(after =~= before);
        assert(before[at] == category);
    } else {
        category_absent(members, category, 0);
        let slot = category_slot(members, category, 0);
        assert(after =~= before.insert(slot, category));
        assert forall|i: int, j: int| 0 <= i < j < after.len() implies text::text_before(
            #[trigger] after[i],
            #[trigger] after[j],
        ) by {
            if j < slot {
                assert(text::text_before(before[i], before[j]));
            } else if i < slot && j == slot {
                assert(members[i].0 != category);
                text::text_order(before[i], category, category);
            } else if i < slot {
                assert(text::text_before(before[i], before[j - 1]));
            } else if i == slot {
                if j - 1 > slot {
                    assert(text::text_before(before[slot], before[j - 1]));
                    text::text_order(category, before[slot], before[j - 1]);
                }
            } else {
                assert(text::text_before(before[i - 1], before[j - 1]));
            }
        }
        assert forall|name: Seq<char>| #[trigger] after.contains(name) <==> (before.contains(name)
            || name == category) by {
            if after.contains(name) {
                let k = choose|k: int| 0 <= k < after.len() && after[k] == name;
                if k < slot {
                    assert(before[k] == name);
                } else if k > slot {
                    assert(before[k - 1] == name);
                }
            }
            if before.contains(name) {
                let k = choose|k: int| 0 <= k < before.len() && before[k] == name;
                assert(after[if k < slot {
                    k
                } else {
                    k + 1
                }] == name);
            }
            assert(after[slot] == category);
        }
    }
}

/// However a taxonomy was put together, its categories are in strictly ascending
/// order, and they are exactly those that a tool was put in.
pub proof fn categories_are_those_assigned(steps: Seq<TaxonomyStep>)
    ensures
        ascending(taught(steps).categories()),
        forall|name: Seq<char>| #[trigger]
            taught(steps).categories().contains(name) <==> assigns(steps, name),
    decreases steps.len(),
{
    assert(taught(steps).categories() =~= category_names(taught(steps).members));
    if steps.len() > 0 {
        let less = steps.drop_last();
        let before = taught(less);
        categories_are_those_assigned(less);
        assert(before.categories() =~= category_names(before.members));
        if let TaxonomyStep::Assign { tool, category } = steps.last() {
            assigned_stays_ascending(before.members, tool, category);
        }
        assert forall|name: Seq<char>| #[trigger]
            taught(steps).categories().contains(name) <==> assigns(steps, name) by {
            assert(before.categories().contains(name) <==> assigns(less, name));
            if assigns(less, name) {
                let i = choose|i: int|
                    0 <= i < less.len() && (#[trigger] less[i] matches TaxonomyStep::Assign {
                        category: to,
                        ..
                    } && to == name);
                assert(steps[i] == less[i]);
            }
            if assigns(steps, name) {
                let i = choose|i: int|
                    0 <= i < steps.len() && (#[trigger] steps[i] matches TaxonomyStep::Assign {
                        category: to,
                        ..
                    } && to == name);
                if i < less.len() {
                    assert(less[i] == steps[i]);
                }
            }
            if let TaxonomyStep::Assign { tool: _, category } = steps.last() {
                if category == name {
                    assert(steps[steps.len() - 1] == steps.last());
                }
            }
        }
    }
}

proof fn ascending_is_unique(a: Seq<Seq<char>>, b: Seq<Seq<char>>)
    requires
        ascending(a),
        ascending(b),
        forall|name: Seq<char>| #[trigger] a.contains(name) <==> b.contains(name),
    ensures
        a == b,
    decreases a.len(),
{
    if a.len() == 0 {
        if b.len() > 0 {
            assert(b.contains(b[0]));
            assert(a.contains(b[0]));
        }
        assert(a =~= b);
    } else {
        assert(a.contains(a[a.len() - 1]));
        let k = choose|k: int| 0 <= k < b.len() && b[k] == a.last();
        assert(b.contains(b[b.len() - 1]));
        assert(a.contains(b[b.len() - 1]));
        let m = choose|m: int| 0 <= m < a.len() && a[m] == b.last();
        text::text_order(a.last(), b.last(), a.last());
        if k < b.len() - 1 {
            assert(text::text_before(b[k], b[b.len() - 1]));
        }
        if m < a.len() - 1 {
            assert(text::text_before(a[m], a[a.len() - 1]));
        }
        assert(a.last() == b.last());
        let c = a.drop_last();
        let d = b.drop_last();
        assert forall|name: Seq<char>| #[trigger] c.contains(name) <==> d.contains(name) by {
            if c.contains(name) {
                let i = choose|i: int| 0 <= i < c.len() && c[i] == name;
                assert(text::text_before(a[i], a[a.len() - 1]));
                text::text_order(name, name, name);
                assert(a.contains(a[i]));
                let j = choose|j: int| 0 <= j < b.len() && b[j] == name;
                assert(d[j] == name);
            }
            if d.contains(name) {
                let i = choose|i: int| 0 <= i < d.len() && d[i] == name;
                assert(text::text_before(b[i], b[b.len() - 1]));
                text::text_order(name, name, name);
                assert(b.contains(b[i]));
                assert(a.contains(name));
                let j = choose|j: int| 0 <= j < a.len() && a[j] == name;
                assert(c[j] == name);
            }
        }
        ascending_is_unique(c, d);
        assert(a =~= c.push(a.last()));
        assert(b =~= d.push(b.last()));
    }
}

/// The order of the calls, repeating one, and calls that put no tool anywhere do
/// not change the categories.
pub proof fn order_of_calls_does_not_matter(one: Seq<TaxonomyStep>, other: Seq<TaxonomyStep>)
    requires
        forall|name: Seq<char>| #[trigger] assigns(one, name) <==> assigns(other, name),
    ensures
        taught(one).categories() == taught(other).categories(),
{
    categories_are_those_assigned(one);
    categories_are_those_assigned(other);
    let a = taught(one).categories();
    let b = taught(other).categories();
    assert forall|name: Seq<char>| #[trigger] a.contains(name) <==> b.contains(name) by {
        assert(assigns(one, name) <==> assigns(other, name));
    }
    ascending_is_unique(a, b);
}

} // verus!
