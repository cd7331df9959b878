//! One definition, two surfaces: what a router attribute makes of its impl block.
//!
//! The attribute rewrites every marked function into a tool, and adds a list of
//! the tools with their command-line hints, a command-line builder and a
//! dispatcher by name. What is read of the source is plain data here, and what
//! comes out is a plan; omitted metadata is refused before anything is built.

use vstd::prelude::*;

use crate::outcome::{ErrorData, ErrorView, INVALID_PARAMS};
use crate::text;
use crate::text::{same, split, starts_with, strip_prefix, trim};
use crate::tool;
use crate::tool::clone_text;

verus! {

// ---------------------------------------------------------------------------
// The attribute's own list
// ---------------------------------------------------------------------------

/// One item of an attribute's list. A name is there where it is a single
/// identifier.
#[derive(Debug)]
pub enum Setting {
    /// `name`.
    Flag { name: Option<String> },
    /// `name = value`, and the value where it is a string literal.
    Assign { name: Option<String>, value: Option<String> },
    /// `name(..)`, and the items in the brackets where they can be read.
    Group { name: Option<String>, items: Option<Vec<Setting>> },
    /// A literal.
    Literal,
}

/// Whether a name is there and is this one.
pub open spec fn is_named(name: Option<String>, want: Seq<char>) -> bool {
    tool::opt_text(name) == Some(want)
}

fn named(name: &Option<String>, want: &str) -> (res: bool)
    ensures
        res == is_named(*name, want@),
{
    match name {
        Some(name) => same(name.as_str(), want),
        None => false,
    }
}

/// The last string that is assigned to a name, or what it is without one.
pub open spec fn assigned(settings: Seq<Setting>, name: Seq<char>, usual: Seq<char>) -> Seq<char>
    decreases settings.len(),
{
    if settings.len() == 0 {
        usual
    } else {
        match settings.last() {
            Setting::Assign { name: given, value: Some(value) } if is_named(given, name) => value@,
            _ => assigned(settings.drop_last(), name, usual),
        }
    }
}

fn last_assigned(settings: &[Setting], name: &str, usual: &str) -> (res: String)
    ensures
        res@ == assigned(settings@, name@, usual@),
{
    let mut out = usual.to_owned();
    let mut i: usize = 0;
    while i < settings.len()
        invariant
            i <= settings@.len(),
            out@ == assigned(settings@.take(i as int), name@, usual@),
        decreases settings@.len() - i,
    {
        assert(settings@.take(i + 1).drop_last() =~= settings@.take(i as int));
        assert(settings@.take(i + 1).last() == settings@[i as int]);
        if let Setting::Assign { name: given, value: Some(value) } = &settings[i] {
            if named(given, name) {
                out = value.as_str().to_owned();
            }
        }
        i += 1;
    }
    assert(settings@.take(settings@.len() as int) =~= settings@);
    out
}

/// The names of the three functions that are added to the impl block. A second
/// router on the same type has to choose others.
#[derive(Debug)]
pub struct RouterNames {
    pub defs_name: String,
    pub cli_name: String,
    pub call_name: String,
}

impl RouterNames {
    pub fn parse(settings: &[Setting]) -> (res: Self)
        ensures
            res.defs_name@ == assigned(settings@, "defs"@, "vibrev_tool_defs"@),
            res.cli_name@ == assigned(settings@, "cli"@, "vibrev_cli"@),
            res.call_name@ == assigned(settings@, "call"@, "vibrev_call"@),
    {
        RouterNames {
            defs_name: last_assigned(settings, "defs", "vibrev_tool_defs"),
            cli_name: last_assigned(settings, "cli", "vibrev_cli"),
            call_name: last_assigned(settings, "call", "vibrev_call"),
        }
    }

    /// The name of the dispatcher that says nothing of tools it does not have.
    pub fn try_call_name(&self) -> (res: String)
        ensures
            res@ == "try_"@ + self.call_name@,
    {
        let mut out = "try_".to_owned();
        out.append(self.call_name.as_str());
        out
    }
}

/// Whether a setting is the tool router's own, and not one of those read here.
pub open spec fn is_forwarded(setting: Setting) -> bool {
    match setting {
        Setting::Assign { name, .. } => !is_named(name, "defs"@) && !is_named(name, "cli"@)
            && !is_named(name, "call"@),
        Setting::Group { name, .. } => !is_named(name, "group_about"@),
        Setting::Flag { name } => !is_named(name, "group_about"@),
        Setting::Literal => true,
    }
}

/// The positions of the settings that are handed on.
pub open spec fn forwarded_in(settings: Seq<Setting>) -> Seq<int>
    decreases settings.len(),
{
    if settings.len() == 0 {
        Seq::empty()
    } else {
        let before = forwarded_in(settings.drop_last());
        if is_forwarded(settings.last()) {
            before.push(settings.len() - 1)
        } else {
            before
        }
    }
}

/// What positions mean.
pub open spec fn positions(list: Seq<usize>) -> Seq<int> {
    Seq::new(list.len(), |i: int| list[i] as int)
}

/// The positions of the settings that are handed on.
pub fn forwarded(settings: &[Setting]) -> (res: Vec<usize>)
    ensures
        positions(res@) == forwarded_in(settings@),
{
    let mut out: Vec<usize> = Vec::new();
    let mut i: usize = 0;
    assert(positions(out@) =~= Seq::empty());
    while i < settings.len()
        invariant
            i <= settings@.len(),
            positions(out@) == forwarded_in(settings@.take(i as int)),
        decreases settings@.len() - i,
    {
        let ghost before = out@;
        assert(settings@.take(i + 1).drop_last() =~= settings@.take(i as int));
        assert(settings@.take(i + 1).last() == settings@[i as int]);
        let keep = match &settings[i] {
            Setting::Assign { name, .. } => !named(name, "defs") && !named(name, "cli")
                && !named(name, "call"),
            Setting::Group { name, .. } => !named(name, "group_about"),
            Setting::Flag { name } => !named(name, "group_about"),
            Setting::Literal => true,
        };
        if keep {
            out.push(i);
            assert(positions(out@) =~= positions(before).push(i as int));
        }
        i += 1;
    }
    assert(settings@.take(settings@.len() as int) =~= settings@);
    out
}

// ---------------------------------------------------------------------------
// What groups are about
// ---------------------------------------------------------------------------

/// What is wrong with an entry of `group_about(..)`.
#[derive(Debug)]
pub enum EntryFault {
    NotAssignment,
    NotIdentifier,
    NotLiteral,
    Twice(String),
}

/// What an [`EntryFault`] says.
pub enum EntryTrouble {
    NotAssignment,
    NotIdentifier,
    NotLiteral,
    Twice(Seq<char>),
}

/// What is wrong with `group_about`.
#[derive(Debug)]
pub enum AboutFault {
    /// It was assigned.
    Assigned { setting: usize },
    /// It was given bare.
    Bare { setting: usize },
    /// What stands in its brackets cannot be read.
    Unreadable { setting: usize },
    Entry { setting: usize, entry: usize, fault: EntryFault },
}

/// What an [`AboutFault`] says.
pub enum AboutTrouble {
    Assigned { setting: int },
    Bare { setting: int },
    Unreadable { setting: int },
    Entry { setting: int, entry: int, fault: EntryTrouble },
}

impl EntryFault {
    pub open spec fn said(&self) -> EntryTrouble {
        match self {
            EntryFault::NotAssignment => EntryTrouble::NotAssignment,
            EntryFault::NotIdentifier => EntryTrouble::NotIdentifier,
            EntryFault::NotLiteral => EntryTrouble::NotLiteral,
            EntryFault::Twice(key) => EntryTrouble::Twice(key@),
        }
    }
}

/// What the author of an entry is told.
pub open spec fn entry_trouble_text(trouble: EntryTrouble) -> Seq<char> {
    match trouble {
        EntryTrouble::NotAssignment => "group_about entries must be `name = \"...\"`"@,
        EntryTrouble::NotIdentifier => {
            "group_about keys must be identifiers (use `r#type` for the `type` group)"@
        },
        EntryTrouble::NotLiteral => "group_about values must be string literals"@,
        EntryTrouble::Twice(key) => "group_about: `"@ + key + "` specified twice"@,
    }
}

impl AboutFault {
    pub open spec fn said(&self) -> AboutTrouble {
        match self {
            AboutFault::Assigned { setting } => AboutTrouble::Assigned { setting: *setting as int },
            AboutFault::Bare { setting } => AboutTrouble::Bare { setting: *setting as int },
            AboutFault::Unreadable { setting } => AboutTrouble::Unreadable {
                setting: *setting as int,
            },
            AboutFault::Entry { setting, entry, fault } => AboutTrouble::Entry {
                setting: *setting as int,
                entry: *entry as int,
                fault: fault.said(),
            },
        }
    }

    /// What the author is told; nothing where the reader has said it already.
    pub fn message(&self) -> (res: Option<String>)
        ensures
            tool::opt_text(res) == about_trouble_text(self.said()),
    {
        match self {
            AboutFault::Assigned { .. } => Some(
                "group_about takes nested assignments: group_about(binary = \"...\", annotation = \"...\")".to_owned(),
            ),
            AboutFault::Bare { .. } => Some(
                "group_about takes nested assignments: group_about(binary = \"...\")".to_owned(),
            ),
            AboutFault::Unreadable { .. } => None,
            AboutFault::Entry { fault, .. } => Some(
                match fault {
                    EntryFault::NotAssignment => {
                        "group_about entries must be `name = \"...\"`".to_owned()
                    },
                    EntryFault::NotIdentifier => {
                        "group_about keys must be identifiers (use `r#type` for the `type` group)".to_owned()
                    },
                    EntryFault::NotLiteral => {
                        "group_about values must be string literals".to_owned()
                    },
                    EntryFault::Twice(key) => {
                        let mut out = "group_about: `".to_owned();
                        out.append(key.as_str());
                        out.append("` specified twice");
                        out
                    },
                },
            ),
        }
    }
}

/// What the author of a `group_about` is told.
pub open spec fn about_trouble_text(trouble: AboutTrouble) -> Option<Seq<char>> {
    match trouble {
        AboutTrouble::Assigned { .. } => Some(
            "group_about takes nested assignments: group_about(binary = \"...\", annotation = \"...\")"@,
        ),
        AboutTrouble::Bare { .. } => Some(
            "group_about takes nested assignments: group_about(binary = \"...\")"@,
        ),
        AboutTrouble::Unreadable { .. } => None,
        AboutTrouble::Entry { fault, .. } => Some(entry_trouble_text(fault)),
    }
}

/// The group that an identifier names: a raw one without its mark.
pub open spec fn group_key(ident: Seq<char>) -> Seq<char> {
    if text::begins(ident, "r#"@) {
        ident.skip("r#"@.len() as int)
    } else {
        ident
    }
}

/// Whether a group has its text already.
pub open spec fn has_about(list: Seq<(Seq<char>, Seq<char>)>, key: Seq<char>) -> bool {
    exists|i: int| 0 <= i < list.len() && (#[trigger] list[i]).0 == key
}

/// The texts with those of some entries added, or the first entry that is
/// wrong.
pub open spec fn with_entries(
    before: Seq<(Seq<char>, Seq<char>)>,
    items: Seq<Setting>,
) -> Result<Seq<(Seq<char>, Seq<char>)>, (int, EntryTrouble)>
    decreases items.len(),
{
    if items.len() == 0 {
        Ok(before)
    } else {
        match with_entries(before, items.drop_last()) {
            Err(fault) => Err(fault),
            Ok(list) => {
                let at = items.len() - 1;
                match items.last() {
                    Setting::Assign { name: None, .. } => Err((at, EntryTrouble::NotIdentifier)),
                    Setting::Assign { name: Some(_), value: None } => Err(
                        (at, EntryTrouble::NotLiteral),
                    ),
                    Setting::Assign { name: Some(ident), value: Some(value) } => {
                        let key = group_key(ident@);
                        if has_about(list, key) {
                            Err((at, EntryTrouble::Twice(key)))
                        } else {
                            Ok(list.push((key, value@)))
                        }
                    },
                    _ => Err((at, EntryTrouble::NotAssignment)),
                }
            },
        }
    }
}

/// The texts that a router gives its groups, or what is wrong first.
pub open spec fn abouts(settings: Seq<Setting>) -> Result<
    Seq<(Seq<char>, Seq<char>)>,
    AboutTrouble,
>
    decreases settings.len(),
{
    if settings.len() == 0 {
        Ok(Seq::empty())
    } else {
        match abouts(settings.drop_last()) {
            Err(trouble) => Err(trouble),
            Ok(list) => {
                let setting = settings.len() - 1;
                match settings.last() {
                    Setting::Assign { name, .. } if is_named(name, "group_about"@) => Err(
                        AboutTrouble::Assigned { setting },
                    ),
                    Setting::Flag { name } if is_named(name, "group_about"@) => Err(
                        AboutTrouble::Bare { setting },
                    ),
                    Setting::Group { name, items } if is_named(name, "group_about"@) => {
                        match items {
                            None => Err(AboutTrouble::Unreadable { setting }),
                            Some(items) => match with_entries(list, items@) {
                                Ok(list) => Ok(list),
                                Err((entry, fault)) => Err(
                                    AboutTrouble::Entry { setting, entry, fault },
                                ),
                            },
                        }
                    },
                    _ => Ok(list),
                }
            },
        }
    }
}

/// What a list of groups and texts says.
pub open spec fn pairs_said(list: Seq<(String, String)>) -> Seq<(Seq<char>, Seq<char>)> {
    Seq::new(list.len(), |i: int| (list[i].0@, list[i].1@))
}

fn about_is_there(list: &Vec<(String, String)>, key: &str) -> (res: bool)
    ensures
        res == has_about(pairs_said(list@), key@),
{
    let mut i: usize = 0;
    while i < list.len()
        invariant
            i <= list.len(),
            forall|j: int| 0 <= j < i ==> (#[trigger] pairs_said(list@)[j]).0 != key@,
        decreases list.len() - i,
    {
        assert(pairs_said(list@)[i as int].0 == list@[i as int].0@);
        if same(list[i].0.as_str(), key) {
            return true;
        }
        i += 1;
    }
    false
}

/// What was wrong with the first entries stays wrong with all of them.
proof fn entries_stop(before: Seq<(Seq<char>, Seq<char>)>, items: Seq<Setting>, n: int)
    requires
        0 <= n <= items.len(),
        with_entries(before, items.take(n)) is Err,
    ensures
        with_entries(before, items) == with_entries(before, items.take(n)),
    decreases items.len() - n,
{
    if n == items.len() {
        assert(items.take(n) =~= items);
    } else {
        assert(items.take(n + 1).drop_last() =~= items.take(n));
        entries_stop(before, items, n + 1);
    }
}

fn read_entries(items: &Vec<Setting>, out: &mut Vec<(String, String)>) -> (res: Result<
    (),
    (usize, EntryFault),
>)
    ensures
        match res {
            Ok(_) => with_entries(pairs_said(old(out)@), items@) == Ok::<
                Seq<(Seq<char>, Seq<char>)>,
                (int, EntryTrouble),
            >(pairs_said(final(out)@)),
            Err((entry, fault)) => with_entries(pairs_said(old(out)@), items@) == Err::<
                Seq<(Seq<char>, Seq<char>)>,
                (int, EntryTrouble),
            >((entry as int, fault.said())),
        },
{
    let ghost before = pairs_said(out@);
    let mut i: usize = 0;
    while i < items.len()
        invariant
            i <= items.len(),
            with_entries(before, items@.take(i as int)) == Ok::<
                Seq<(Seq<char>, Seq<char>)>,
                (int, EntryTrouble),
            >(pairs_said(out@)),
            before == pairs_said(old(out)@),
        decreases items.len() - i,
    {
        let ghost former = out@;
        assert(items@.take(i + 1).drop_last() =~= items@.take(i as int));
        assert(items@.take(i + 1).last() == items@[i as int]);
        let fault = match &items[i] {
            Setting::Assign { name: None, .. } => Some(EntryFault::NotIdentifier),
            Setting::Assign { name: Some(_), value: None } => Some(EntryFault::NotLiteral),
            Setting::Assign { name: Some(ident), value: Some(value) } => {
                let key = match strip_prefix(ident.as_str(), "r#") {
                    Some(bare) => bare.to_owned(),
                    None => ident.as_str().to_owned(),
                };
                assert(key@ =~= group_key(ident@));
                if about_is_there(out, key.as_str()) {
                    Some(EntryFault::Twice(key))
                } else {
                    let ghost pair = (key@, value@);
                    out.push((key, value.as_str().to_owned()));
                    assert(pairs_said(out@) =~= pairs_said(former).push(pair));
                    None
                }
            },
            _ => Some(EntryFault::NotAssignment),
        };
        if let Some(fault) = fault {
            proof {
                entries_stop(before, items@, i + 1);
            }
            return Err((i, fault));
        }
        i += 1;
    }
    assert(items@.take(items@.len() as int) =~= items@);
    Ok(())
}

/// What was wrong with the first settings stays wrong with all of them.
proof fn abouts_stop(settings: Seq<Setting>, n: int)
    requires
        0 <= n <= settings.len(),
        abouts(settings.take(n)) is Err,
    ensures
        abouts(settings) == abouts(settings.take(n)),
    decreases settings.len() - n,
{
    if n == settings.len() {
        assert(settings.take(n) =~= settings);
    } else {
        assert(settings.take(n + 1).drop_last() =~= settings.take(n));
        abouts_stop(settings, n + 1);
    }
}

/// `group_about(binary = "...", annotation = "...")`: what the groups of the
/// command line are about.
pub fn parse_group_about(settings: &[Setting]) -> (res: Result<
    Vec<(String, String)>,
    AboutFault,
>)
    ensures
        match res {
            Ok(list) => abouts(settings@) == Ok::<Seq<(Seq<char>, Seq<char>)>, AboutTrouble>(
                pairs_said(list@),
            ),
            Err(fault) => abouts(settings@) == Err::<Seq<(Seq<char>, Seq<char>)>, AboutTrouble>(
                fault.said(),
            ),
        },
{
    let mut out: Vec<(String, String)> = Vec::new();
    let mut i: usize = 0;
    assert(pairs_said(out@) =~= Seq::empty());
    while i < settings.len()
        invariant
            i <= settings@.len(),
            abouts(settings@.take(i as int)) == Ok::<Seq<(Seq<char>, Seq<char>)>, AboutTrouble>(
                pairs_said(out@),
            ),
        decreases settings@.len() - i,
    {
        assert(settings@.take(i + 1).drop_last() =~= settings@.take(i as int));
        assert(settings@.take(i + 1).last() == settings@[i as int]);
        let mut fault: Option<AboutFault> = None;
        match &settings[i] {
            Setting::Assign { name, .. } => {
                if named(name, "group_about") {
                    fault = Some(AboutFault::Assigned { setting: i });
                }
            },
            Setting::Flag { name } => {
                if named(name, "group_about") {
                    fault = Some(AboutFault::Bare { setting: i });
                }
            },
            Setting::Group { name, items } => {
                if named(name, "group_about") {
                    match items {
                        None => {
                            fault = Some(AboutFault::Unreadable { setting: i });
                        },
                        Some(items) => {
                            if let Err((entry, wrong)) = read_entries(items, &mut out) {
                                fault = Some(
                                    AboutFault::Entry { setting: i, entry, fault: wrong },
                                );
                            }
                        },
                    }
                }
            },
            Setting::Literal => {},
        }
        if let Some(fault) = fault {
            proof {
                abouts_stop(settings@, i + 1);
            }
            return Err(fault);
        }
        i += 1;
    }
    assert(settings@.take(settings@.len() as int) =~= settings@);
    Ok(out)
}

// ---------------------------------------------------------------------------
// Signatures
// ---------------------------------------------------------------------------

/// What follows the last segment of a type's path.
#[derive(Debug)]
pub enum Brackets {
    /// No angle brackets.
    Absent,
    /// Angle brackets that do not begin with a type.
    NoType,
    /// Angle brackets that begin with this type.
    Of(Box<TypeShape>),
}

/// What is read of a type: the last segment of its path, where it is one.
#[derive(Debug)]
pub struct TypeShape {
    pub last: Option<String>,
    pub brackets: Brackets,
}

/// An argument of a function.
#[derive(Debug)]
pub enum Input {
    /// `self`, in any form.
    Receiver,
    Typed(TypeShape),
}

/// The type inside `want<..>`.
pub open spec fn inside(ty: TypeShape, want: Seq<char>) -> Option<TypeShape> {
    match ty.brackets {
        Brackets::Of(inner) => if is_named(ty.last, want) {
            Some(*inner)
        } else {
            None
        },
        _ => None,
    }
}

/// How deep in a return type the payload of a `Rendered` stands: directly, or
/// inside a `Result`.
pub open spec fn rendered_at(ret: Option<TypeShape>) -> Option<u8> {
    match ret {
        None => None,
        Some(ty) => if inside(ty, "Rendered"@) is Some {
            Some(1u8)
        } else if inside(ty, "Result"@) is Some && inside(
            inside(ty, "Result"@)->0,
            "Rendered"@,
        ) is Some {
            Some(2u8)
        } else {
            None
        },
    }
}

fn look_inside<'a>(ty: &'a TypeShape, want: &str) -> (res: Option<&'a TypeShape>)
    ensures
        match res {
            Some(inner) => inside(*ty, want@) == Some(*inner),
            None => inside(*ty, want@) is None,
        },
{
    match &ty.brackets {
        Brackets::Of(inner) => if named(&ty.last, want) {
            Some(&**inner)
        } else {
            None
        },
        _ => None,
    }
}

/// The type a function returns, where it says.
pub open spec fn opt_shape(ret: Option<&TypeShape>) -> Option<TypeShape> {
    match ret {
        Some(ty) => Some(*ty),
        None => None,
    }
}

/// How deep in a return type the payload of a `Rendered` stands.
pub fn rendered_inner(ret: Option<&TypeShape>) -> (res: Option<u8>)
    ensures
        res == rendered_at(opt_shape(ret)),
{
    match ret {
        None => None,
        Some(ty) => {
            if look_inside(ty, "Rendered").is_some() {
                return Some(1);
            }
            match look_inside(ty, "Result") {
                Some(inner) => if look_inside(inner, "Rendered").is_some() {
                    Some(2)
                } else {
                    None
                },
                None => None,
            }
        },
    }
}

/// What is wrong with the arguments of a tool.
#[derive(Debug, Clone, Copy, PartialEq, Eq, Structural)]
pub enum InputFault {
    /// A second `Parameters<..>`.
    Second,
    /// `Parameters` without its type argument.
    Unspelled,
    /// `Parameters<..>` of something that is no type.
    Untyped,
    /// An argument that a command line cannot supply.
    Foreign,
}

/// What the author of a tool is told of its arguments.
pub open spec fn input_fault_text(fault: InputFault, function: Seq<char>) -> Seq<char> {
    match fault {
        InputFault::Second => "a tool takes at most one `Parameters<..>` argument"@,
        InputFault::Unspelled => {
            "`Parameters` needs its type argument spelled out: the input schema is derived from it"@
        },
        InputFault::Untyped => {
            "`Parameters<..>` must name a type to derive the input schema from"@
        },
        InputFault::Foreign => "`"@ + function
            + "` takes an argument the CLI front end cannot supply — only `&self` and one `Parameters<T>` are dispatchable. Extractors such as `RequestContext`, `RequestState` or `InputResponses` exist on the MCP request and have no command-line equivalent; leave this tool on plain `#[rmcp::tool]` instead of `#[vibrev_tool]`."@,
    }
}

impl InputFault {
    /// What the author of a tool is told.
    pub fn message(&self, function: &str) -> (res: String)
        ensures
            res@ == input_fault_text(*self, function@),
    {
        match self {
            InputFault::Second => {
                "a tool takes at most one `Parameters<..>` argument".to_owned()
            },
            InputFault::Unspelled => {
                "`Parameters` needs its type argument spelled out: the input schema is derived from it".to_owned()
            },
            InputFault::Untyped => {
                "`Parameters<..>` must name a type to derive the input schema from".to_owned()
            },
            InputFault::Foreign => {
                let mut out = "`".to_owned();
                out.append(function);
                out.append(
                    "` takes an argument the CLI front end cannot supply — only `&self` and one `Parameters<T>` are dispatchable. Extractors such as `RequestContext`, `RequestState` or `InputResponses` exist on the MCP request and have no command-line equivalent; leave this tool on plain `#[rmcp::tool]` instead of `#[vibrev_tool]`.",
                );
                out
            },
        }
    }
}

/// What is wrong with one argument in itself.
pub open spec fn input_fault(ty: TypeShape) -> Option<InputFault> {
    if !is_named(ty.last, "Parameters"@) {
        Some(InputFault::Foreign)
    } else {
        match ty.brackets {
            Brackets::Absent => Some(InputFault::Unspelled),
            Brackets::NoType => Some(InputFault::Untyped),
            Brackets::Of(_) => None,
        }
    }
}

/// Which argument is the `Parameters<..>`, or the first that is wrong.
pub open spec fn parameters_at(inputs: Seq<Input>) -> Result<Option<int>, (int, InputFault)>
    decreases inputs.len(),
{
    if inputs.len() == 0 {
        Ok(None)
    } else {
        match parameters_at(inputs.drop_last()) {
            Err(fault) => Err(fault),
            Ok(found) => {
                let at = inputs.len() - 1;
                match inputs.last() {
                    Input::Receiver => Ok(found),
                    Input::Typed(ty) => match input_fault(ty) {
                        Some(fault) => Err((at, fault)),
                        None => if found is Some {
                            Err((at, InputFault::Second))
                        } else {
                            Ok(Some(at))
                        },
                    },
                }
            },
        }
    }
}

/// What was wrong with the first arguments stays wrong with all of them.
proof fn inputs_stop(inputs: Seq<Input>, n: int)
    requires
        0 <= n <= inputs.len(),
        parameters_at(inputs.take(n)) is Err,
    ensures
        parameters_at(inputs) == parameters_at(inputs.take(n)),
    decreases inputs.len() - n,
{
    if n == inputs.len() {
        assert(inputs.take(n) =~= inputs);
    } else {
        assert(inputs.take(n + 1).drop_last() =~= inputs.take(n));
        inputs_stop(inputs, n + 1);
    }
}

/// A position, where there is one.
pub open spec fn opt_position(at: Option<usize>) -> Option<int> {
    match at {
        Some(at) => Some(at as int),
        None => None,
    }
}

/// Finds the `Parameters<T>` argument, and refuses anything else: a command line
/// reaches a tool with a name and an object and nothing more.
pub fn parameters_arg(inputs: &[Input]) -> (res: Result<Option<usize>, (usize, InputFault)>)
    ensures
        match res {
            Ok(found) => parameters_at(inputs@) == Ok::<Option<int>, (int, InputFault)>(
                opt_position(found),
            ),
            Err((at, fault)) => parameters_at(inputs@) == Err::<Option<int>, (int, InputFault)>(
                (at as int, fault),
            ),
        },
{
    let mut found: Option<usize> = None;
    let mut i: usize = 0;
    while i < inputs.len()
        invariant
            i <= inputs@.len(),
            parameters_at(inputs@.take(i as int)) == Ok::<Option<int>, (int, InputFault)>(
                opt_position(found),
            ),
        decreases inputs@.len() - i,
    {
        assert(inputs@.take(i + 1).drop_last() =~= inputs@.take(i as int));
        assert(inputs@.take(i + 1).last() == inputs@[i as int]);
        if let Input::Typed(ty) = &inputs[i] {
            let fault = if !named(&ty.last, "Parameters") {
                Some(InputFault::Foreign)
            } else {
                match &ty.brackets {
                    Brackets::Absent => Some(InputFault::Unspelled),
                    Brackets::NoType => Some(InputFault::Untyped),
                    Brackets::Of(_) => if found.is_some() {
                        Some(InputFault::Second)
                    } else {
                        None
                    },
                }
            };
            if let Some(fault) = fault {
                proof {
                    inputs_stop(inputs@, i + 1);
                }
                return Err((i, fault));
            }
            found = Some(i);
        }
        i += 1;
    }
    assert(inputs@.take(inputs@.len() as int) =~= inputs@);
    Ok(found)
}

// ---------------------------------------------------------------------------
// Tools
// ---------------------------------------------------------------------------

/// Tool annotations, in shorthand.
#[derive(Debug, Clone, Copy, PartialEq, Eq, Structural)]
pub struct Annotations {
    pub read_only: Option<bool>,
    pub destructive: Option<bool>,
    pub idempotent: Option<bool>,
    pub open_world: Option<bool>,
}

/// Command-line hints of a tool.
#[derive(Debug)]
pub struct CliAttr {
    /// Comma-separated parameter names to render as positional arguments.
    pub positional: Option<String>,
    /// Comma-separated parameter names that accept `184`, `0xb8` or `0b1011`.
    pub int_args: Option<String>,
    /// The tool stays off the command line.
    pub none: bool,
    /// The tool does not read the engine's session.
    pub no_session: bool,
}

/// What is said of a tool where it is marked.
#[derive(Debug)]
pub struct ToolAttr {
    pub group: Option<String>,
    pub verb: Option<String>,
    pub name: Option<String>,
    pub title: Option<String>,
    pub description: Option<String>,
    /// The output payload type, as a path.
    pub output: Option<String>,
    pub ext: Option<String>,
    pub annotations: Option<Annotations>,
    pub cli: Option<CliAttr>,
}

/// The name a tool goes by: its own, else `group.verb`, else the verb, else
/// that of its function.
pub open spec fn tool_name(attr: ToolAttr, function: Seq<char>) -> Seq<char> {
    match (attr.name, attr.group, attr.verb) {
        (Some(name), _, _) => name@,
        (None, Some(group), Some(verb)) => group@ + "."@ + verb@,
        (None, None, Some(verb)) => verb@,
        _ => function,
    }
}

/// The parts that say something.
pub open spec fn nonempty(parts: Seq<Seq<char>>) -> Seq<Seq<char>>
    decreases parts.len(),
{
    if parts.len() == 0 {
        Seq::empty()
    } else {
        let before = nonempty(parts.drop_last());
        if text::trimmed(parts.last()).len() > 0 {
            before.push(text::trimmed(parts.last()))
        } else {
            before
        }
    }
}

/// The names in a comma-separated list.
pub open spec fn names_in(list: Option<Seq<char>>) -> Seq<Seq<char>> {
    match list {
        Some(list) => nonempty(text::pieces(list, ',')),
        None => Seq::empty(),
    }
}

/// The names in a comma-separated list.
pub fn csv(list: &Option<String>) -> (res: Vec<String>)
    ensures
        text::texts(res@) == names_in(tool::opt_text(*list)),
{
    let mut out: Vec<String> = Vec::new();
    assert(text::texts(out@) =~= Seq::empty());
    if let Some(list) = list {
        let parts = split(list.as_str(), ',');
        let ghost all = text::texts(parts@);
        let mut i: usize = 0;
        while i < parts.len()
            invariant
                i <= parts.len(),
                all == text::texts(parts@),
                text::texts(out@) == nonempty(all.take(i as int)),
            decreases parts.len() - i,
        {
            let ghost before = out@;
            assert(all.take(i + 1).drop_last() =~= all.take(i as int));
            assert(all.take(i + 1).last() == parts@[i as int]@);
            let name = trim(parts[i].as_str());
            if !name.is_empty() {
                out.push(name.to_owned());
                assert(text::texts(out@) =~= text::texts(before).push(name@));
            }
            i += 1;
        }
        assert(all.take(all.len() as int) =~= all);
    }
    out
}

/// Where a tool's output type comes from.
#[derive(Debug)]
pub enum Output {
    /// It is named outright.
    Explicit(String),
    /// It is the payload of a `Rendered` at this depth of the return type.
    Rendered(u8),
    /// The tool publishes none.
    Absent,
}

/// What an [`Output`] says.
pub enum OutputView {
    Explicit(Seq<char>),
    Rendered(u8),
    Absent,
}

/// What is built of a marked function.
#[derive(Debug)]
pub struct ToolPlan {
    pub name: String,
    pub title: String,
    pub read_only: bool,
    pub destructive: Option<bool>,
    pub idempotent: Option<bool>,
    pub open_world: Option<bool>,
    pub description: Option<String>,
    /// Which argument the input schema is derived from.
    pub params: Option<usize>,
    pub output: Output,
    pub positional: Vec<String>,
    pub int_args: Vec<String>,
    pub enabled: bool,
    pub needs_session: bool,
    pub ext: Option<String>,
}

/// What a [`ToolPlan`] says.
pub struct ToolPlanView {
    pub name: Seq<char>,
    pub title: Seq<char>,
    pub read_only: bool,
    pub destructive: Option<bool>,
    pub idempotent: Option<bool>,
    pub open_world: Option<bool>,
    pub description: Option<Seq<char>>,
    pub params: Option<int>,
    pub output: OutputView,
    pub positional: Seq<Seq<char>>,
    pub int_args: Seq<Seq<char>>,
    pub enabled: bool,
    pub needs_session: bool,
    pub ext: Option<Seq<char>>,
}

impl View for Output {
    type V = OutputView;

    open spec fn view(&self) -> OutputView {
        match self {
            Output::Explicit(path) => OutputView::Explicit(path@),
            Output::Rendered(depth) => OutputView::Rendered(*depth),
            Output::Absent => OutputView::Absent,
        }
    }
}

impl View for ToolPlan {
    type V = ToolPlanView;

    open spec fn view(&self) -> ToolPlanView {
        ToolPlanView {
            name: self.name@,
            title: self.title@,
            read_only: self.read_only,
            destructive: self.destructive,
            idempotent: self.idempotent,
            open_world: self.open_world,
            description: tool::opt_text(self.description),
            params: opt_position(self.params),
            output: self.output@,
            positional: text::texts(self.positional@),
            int_args: text::texts(self.int_args@),
            enabled: self.enabled,
            needs_session: self.needs_session,
            ext: tool::opt_text(self.ext),
        }
    }
}

/// A function of the impl block, and what marks it as a tool.
#[derive(Debug)]
pub struct Method {
    pub function: String,
    pub mark: Mark,
    pub inputs: Vec<Input>,
    pub ret: Option<TypeShape>,
}

/// What marks a function.
#[derive(Debug)]
pub enum Mark {
    /// It is no tool.
    Plain,
    /// It is marked, and what is said of it cannot be read.
    Unreadable,
    Tool(ToolAttr),
}

/// What is wrong with a tool.
#[derive(Debug, Clone, Copy, PartialEq, Eq, Structural)]
pub enum ToolFault {
    /// What is said of it cannot be read.
    Unreadable,
    NoTitle,
    NoAnnotations,
    NoReadOnly,
    Input { at: usize, fault: InputFault },
}

/// What the author of a tool is told; nothing where the reader has said it
/// already.
pub open spec fn tool_fault_text(
    fault: ToolFault,
    name: Seq<char>,
    function: Seq<char>,
) -> Option<Seq<char>> {
    match fault {
        ToolFault::Unreadable => None,
        ToolFault::NoTitle => Some("tool `"@ + name + "` is missing `title = \"...\"`"@),
        ToolFault::NoAnnotations => Some(
            "tool `"@ + name + "` is missing `annotations(read_only = ...)`"@,
        ),
        ToolFault::NoReadOnly => Some(
            "tool `"@ + name + "` must state `annotations(read_only = true|false)`"@,
        ),
        ToolFault::Input { at, fault } => Some(input_fault_text(fault, function)),
    }
}

impl ToolFault {
    /// What the author is told of a tool of this name.
    pub fn message(&self, name: &str, function: &str) -> (res: Option<String>)
        ensures
            tool::opt_text(res) == tool_fault_text(*self, name@, function@),
    {
        let mut out = "tool `".to_owned();
        out.append(name);
        match self {
            ToolFault::Unreadable => None,
            ToolFault::NoTitle => {
                out.append("` is missing `title = \"...\"`");
                Some(out)
            },
            ToolFault::NoAnnotations => {
                out.append("` is missing `annotations(read_only = ...)`");
                Some(out)
            },
            ToolFault::NoReadOnly => {
                out.append("` must state `annotations(read_only = true|false)`");
                Some(out)
            },
            ToolFault::Input { at: _, fault } => Some(fault.message(function)),
        }
    }
}

/// What the author is told of an output type that is no type.
pub open spec fn output_refusal(name: Seq<char>, path: Seq<char>, error: Seq<char>) -> Seq<char> {
    "tool `"@ + name + "`: `output = \""@ + path + "\"` is not a type path: "@ + error
}

/// What the author is told of an output type that is no type.
pub fn refuse_output(name: &str, path: &str, error: &str) -> (res: String)
    ensures
        res@ == output_refusal(name@, path@, error@),
{
    let mut out = "tool `".to_owned();
    out.append(name);
    out.append("`: `output = \"");
    out.append(path);
    out.append("\"` is not a type path: ");
    out.append(error);
    out
}

/// Where a tool's output type comes from. One that is named wins.
pub open spec fn output_of(attr: ToolAttr, ret: Option<TypeShape>) -> OutputView {
    match attr.output {
        Some(path) => OutputView::Explicit(path@),
        None => match rendered_at(ret) {
            Some(depth) => OutputView::Rendered(depth),
            None => OutputView::Absent,
        },
    }
}

/// The plan of a tool, or what is wrong with it first.
pub open spec fn tool_plan(
    attr: ToolAttr,
    function: Seq<char>,
    inputs: Seq<Input>,
    ret: Option<TypeShape>,
) -> Result<ToolPlanView, ToolFault> {
    match (attr.title, attr.annotations) {
        (None, _) => Err(ToolFault::NoTitle),
        (Some(_), None) => Err(ToolFault::NoAnnotations),
        (Some(title), Some(annotations)) => match annotations.read_only {
            None => Err(ToolFault::NoReadOnly),
            Some(read_only) => match parameters_at(inputs) {
                Err((at, fault)) => Err(ToolFault::Input { at: at as usize, fault }),
                Ok(params) => Ok(
                    ToolPlanView {
                        name: tool_name(attr, function),
                        title: title@,
                        read_only,
                        destructive: annotations.destructive,
                        idempotent: annotations.idempotent,
                        open_world: annotations.open_world,
                        description: tool::opt_text(attr.description),
                        params,
                        output: output_of(attr, ret),
                        positional: match attr.cli {
                            Some(cli) => names_in(tool::opt_text(cli.positional)),
                            None => Seq::empty(),
                        },
                        int_args: match attr.cli {
                            Some(cli) => names_in(tool::opt_text(cli.int_args)),
                            None => Seq::empty(),
                        },
                        enabled: !(attr.cli is Some && attr.cli->0.none),
                        needs_session: !(attr.cli is Some && attr.cli->0.no_session),
                        ext: tool::opt_text(attr.ext),
                    },
                ),
            },
        },
    }
}

/// The name a tool goes by.
pub fn name_of(attr: &ToolAttr, function: &str) -> (res: String)
    ensures
        res@ == tool_name(*attr, function@),
{
    if let Some(name) = &attr.name {
        return name.as_str().to_owned();
    }
    match &attr.verb {
        Some(verb) => match &attr.group {
            Some(group) => {
                let mut out = group.as_str().to_owned();
                out.append(".");
                out.append(verb.as_str());
                out
            },
            None => verb.as_str().to_owned(),
        },
        None => function.to_owned(),
    }
}

/// Plans one tool. The metadata that is worth most is demanded here, so that it
/// cannot be skipped in silence.
pub fn plan_tool(
    attr: &ToolAttr,
    function: &str,
    inputs: &[Input],
    ret: Option<&TypeShape>,
) -> (res: Result<ToolPlan, ToolFault>)
    ensures
        match res {
            Ok(plan) => tool_plan(*attr, function@, inputs@, opt_shape(ret)) == Ok::<
                ToolPlanView,
                ToolFault,
            >(plan@),
            Err(fault) => tool_plan(*attr, function@, inputs@, opt_shape(ret)) == Err::<
                ToolPlanView,
                ToolFault,
            >(fault),
        },
{
    let title = match &attr.title {
        Some(title) => title.as_str().to_owned(),
        None => {
            return Err(ToolFault::NoTitle);
        },
    };
    let annotations = match attr.annotations {
        Some(annotations) => annotations,
        None => {
            return Err(ToolFault::NoAnnotations);
        },
    };
    let read_only = match annotations.read_only {
        Some(read_only) => read_only,
        None => {
            return Err(ToolFault::NoReadOnly);
        },
    };
    let params = match parameters_arg(inputs) {
        Ok(params) => params,
        Err((at, fault)) => {
            return Err(ToolFault::Input { at, fault });
        },
    };
    let output = match &attr.output {
        Some(path) => Output::Explicit(path.as_str().to_owned()),
        None => match rendered_inner(ret) {
            Some(depth) => Output::Rendered(depth),
            None => Output::Absent,
        },
    };
    let (positional, int_args, enabled, needs_session) = match &attr.cli {
        Some(cli) => (csv(&cli.positional), csv(&cli.int_args), !cli.none, !cli.no_session),
        None => (Vec::new(), Vec::new(), true, true),
    };
    let plan = ToolPlan {
        name: name_of(attr, function),
        title,
        read_only,
        destructive: annotations.destructive,
        idempotent: annotations.idempotent,
        open_world: annotations.open_world,
        description: clone_text(&attr.description),
        params,
        output,
        positional,
        int_args,
        enabled,
        needs_session,
        ext: clone_text(&attr.ext),
    };
    assert(attr.cli is None ==> plan@.positional =~= Seq::empty());
    assert(attr.cli is None ==> plan@.int_args =~= Seq::empty());
    Ok(plan)
}

/// The hints that are handed on, under the names they are published by.
pub open spec fn published_hints(plan: ToolPlanView) -> Seq<(Seq<char>, bool)> {
    let stated = seq![("read_only_hint"@, plan.read_only)];
    let destructive = match plan.destructive {
        Some(b) => stated.push(("destructive_hint"@, b)),
        None => stated,
    };
    let idempotent = match plan.idempotent {
        Some(b) => destructive.push(("idempotent_hint"@, b)),
        None => destructive,
    };
    match plan.open_world {
        Some(b) => idempotent.push(("open_world_hint"@, b)),
        None => idempotent,
    }
}

/// What a list of hints says.
pub open spec fn hints_said(list: Seq<(&'static str, bool)>) -> Seq<(Seq<char>, bool)> {
    Seq::new(list.len(), |i: int| (list[i].0@, list[i].1))
}

impl ToolPlan {
    /// The hints that are handed on, under the names they are published by.
    pub fn hints(&self) -> (res: Vec<(&'static str, bool)>)
        ensures
            hints_said(res@) == published_hints(self@),
    {
        let mut out: Vec<(&'static str, bool)> = Vec::new();
        out.push(("read_only_hint", self.read_only));
        if let Some(b) = self.destructive {
            out.push(("destructive_hint", b));
        }
        if let Some(b) = self.idempotent {
            out.push(("idempotent_hint", b));
        }
        if let Some(b) = self.open_world {
            out.push(("open_world_hint", b));
        }
        assert(hints_said(out@) =~= published_hints(self@));
        out
    }
}

/// Which of a function's attributes marks it as a tool, by the last segments of
/// their paths.
pub open spec fn mark_at(attributes: Seq<Option<String>>, from: int) -> Option<int>
    decreases attributes.len() - from,
{
    if from >= attributes.len() {
        None
    } else if is_named(attributes[from], "vibrev_tool"@) {
        Some(from)
    } else {
        mark_at(attributes, from + 1)
    }
}

/// Which of a function's attributes marks it as a tool.
pub fn find_mark(attributes: &[Option<String>]) -> (res: Option<usize>)
    ensures
        opt_position(res) == mark_at(attributes@, 0),
{
    let mut i: usize = 0;
    while i < attributes.len()
        invariant
            i <= attributes@.len(),
            mark_at(attributes@, 0) == mark_at(attributes@, i as int),
        decreases attributes@.len() - i,
    {
        if named(&attributes[i], "vibrev_tool") {
            return Some(i);
        }
        i += 1;
    }
    None
}

/// The plans of the tools of an impl block, each with the position of its
/// function, or the first function that is wrong.
pub open spec fn tool_plans(methods: Seq<Method>) -> Result<
    Seq<(int, ToolPlanView)>,
    (int, ToolFault),
>
    decreases methods.len(),
{
    if methods.len() == 0 {
        Ok(Seq::empty())
    } else {
        match tool_plans(methods.drop_last()) {
            Err(fault) => Err(fault),
            Ok(plans) => {
                let at = methods.len() - 1;
                let method = methods.last();
                match method.mark {
                    Mark::Plain => Ok(plans),
                    Mark::Unreadable => Err((at, ToolFault::Unreadable)),
                    Mark::Tool(attr) => match tool_plan(
                        attr,
                        method.function@,
                        method.inputs@,
                        method.ret,
                    ) {
                        Ok(plan) => Ok(plans.push((at, plan))),
                        Err(fault) => Err((at, fault)),
                    },
                }
            },
        }
    }
}

/// Why a router cannot be built.
#[derive(Debug)]
pub enum RouterFault {
    Tool { method: usize, fault: ToolFault },
    /// No function of the impl block is marked.
    NoTools,
}

/// What the author is told of an impl block without tools.
pub const NO_TOOLS: &'static str =
    "#[vibrev_tool_router] found no #[vibrev_tool] functions in this impl block";

/// What a list of plans says.
pub open spec fn plans_said(plans: Seq<(usize, ToolPlan)>) -> Seq<(int, ToolPlanView)> {
    Seq::new(plans.len(), |i: int| (plans[i].0 as int, plans[i].1@))
}

/// What was wrong with the first functions stays wrong with all of them.
proof fn plans_stop(methods: Seq<Method>, n: int)
    requires
        0 <= n <= methods.len(),
        tool_plans(methods.take(n)) is Err,
    ensures
        tool_plans(methods) == tool_plans(methods.take(n)),
    decreases methods.len() - n,
{
    if n == methods.len() {
        assert(methods.take(n) =~= methods);
    } else {
        assert(methods.take(n + 1).drop_last() =~= methods.take(n));
        plans_stop(methods, n + 1);
    }
}

/// Plans every tool of an impl block, in the order of their functions. A block
/// without any is refused.
pub fn plan_tools(methods: &[Method]) -> (res: Result<Vec<(usize, ToolPlan)>, RouterFault>)
    ensures
        match res {
            Ok(plans) => tool_plans(methods@) == Ok::<
                Seq<(int, ToolPlanView)>,
                (int, ToolFault),
            >(plans_said(plans@)) && plans@.len() > 0,
            Err(RouterFault::Tool { method, fault }) => tool_plans(methods@) == Err::<
                Seq<(int, ToolPlanView)>,
                (int, ToolFault),
            >((method as int, fault)),
            Err(RouterFault::NoTools) => tool_plans(methods@) == Ok::<
                Seq<(int, ToolPlanView)>,
                (int, ToolFault),
            >(Seq::empty()),
        },
{
    let mut out: Vec<(usize, ToolPlan)> = Vec::new();
    let mut i: usize = 0;
    assert(plans_said(out@) =~= Seq::empty());
    while i < methods.len()
        invariant
            i <= methods@.len(),
            tool_plans(methods@.take(i as int)) == Ok::<
                Seq<(int, ToolPlanView)>,
                (int, ToolFault),
            >(plans_said(out@)),
        decreases methods@.len() - i,
    {
        let ghost before = out@;
        assert(methods@.take(i + 1).drop_last() =~= methods@.take(i as int));
        assert(methods@.take(i + 1).last() == methods@[i as int]);
        let method = &methods[i];
        let fault = match &method.mark {
            Mark::Plain => None,
            Mark::Unreadable => Some(ToolFault::Unreadable),
            Mark::Tool(attr) => {
                let ret = match &method.ret {
                    Some(ty) => Some(ty),
                    None => None,
                };
                assert(opt_shape(ret) == method.ret);
                match plan_tool(attr, method.function.as_str(), method.inputs.as_slice(), ret) {
                    Ok(plan) => {
                        let ghost pair = (i as int, plan@);
                        out.push((i, plan));
                        assert(plans_said(out@) =~= plans_said(before).push(pair));
                        None
                    },
                    Err(fault) => Some(fault),
                }
            },
        };
        if let Some(fault) = fault {
            proof {
                plans_stop(methods@, i + 1);
            }
            return Err(RouterFault::Tool { method: i, fault });
        }
        i += 1;
    }
    assert(methods@.take(methods@.len() as int) =~= methods@);
    if out.len() == 0 {
        assert(plans_said(out@) =~= Seq::empty());
        return Err(RouterFault::NoTools);
    }
    Ok(out)
}

// ---------------------------------------------------------------------------
// Dispatch
// ---------------------------------------------------------------------------

/// The first tool of a name, at or after `from`.
pub open spec fn tool_named(names: Seq<Seq<char>>, name: Seq<char>, from: int) -> Option<int>
    decreases names.len() - from,
{
    if from >= names.len() {
        None
    } else if names[from] == name {
        Some(from)
    } else {
        tool_named(names, name, from + 1)
    }
}

/// What a call of a tool that is not there is answered.
pub open spec fn unknown_tool_text(name: Seq<char>) -> Seq<char> {
    "unknown tool: "@ + name
}

/// Finds the tool a call names, or gives the error that answers it.
pub fn dispatch(names: &[String], name: &str) -> (res: Result<usize, ErrorData>)
    ensures
        match res {
            Ok(at) => tool_named(text::texts(names@), name@, 0) == Some(at as int),
            Err(error) => tool_named(text::texts(names@), name@, 0) is None && error@ == (
            ErrorView {
                code: INVALID_PARAMS as int,
                message: unknown_tool_text(name@),
                data: None,
            }),
        },
{
    let ghost all = text::texts(names@);
    let mut i: usize = 0;
    while i < names.len()
        invariant
            i <= names@.len(),
            all == text::texts(names@),
            tool_named(all, name@, 0) == tool_named(all, name@, i as int),
        decreases names@.len() - i,
    {
        assert(all[i as int] == names@[i as int]@);
        if same(names[i].as_str(), name) {
            return Ok(i);
        }
        i += 1;
    }
    let mut message = "unknown tool: ".to_owned();
    message.append(name);
    Err(ErrorData::invalid_params(message, None))
}

/// Whether an error says that the tool is not there, so that another router may
/// be asked.
pub fn is_unknown_tool(error: &ErrorData) -> (res: bool)
    ensures
        res == text::begins(error@.message, "unknown tool:"@),
{
    starts_with(error.message.as_str(), "unknown tool:")
}

// ---------------------------------------------------------------------------
// Laws
// ---------------------------------------------------------------------------

/// A router passes over every tool it does not have: the answer to a call of one
/// is recognised as saying so.
pub proof fn unknown_tools_are_passed_over(name: Seq<char>)
    ensures
        text::begins(unknown_tool_text(name), "unknown tool:"@),
{
    reveal_strlit("unknown tool: ");
    reveal_strlit("unknown tool:");
    assert(unknown_tool_text(name).take("unknown tool:"@.len() as int) =~= "unknown tool:"@);
}

/// No tool is built without a title and without saying whether it only reads.
pub proof fn metadata_is_demanded(
    attr: ToolAttr,
    function: Seq<char>,
    inputs: Seq<Input>,
    ret: Option<TypeShape>,
)
    ensures
        tool_plan(attr, function, inputs, ret) is Ok ==> attr.title is Some && attr.annotations
            is Some && attr.annotations->0.read_only is Some,
{
}

/// A tool that is built takes one `Parameters<..>` at most, and beside it
/// nothing but its receiver.
pub proof fn only_parameters_are_taken(inputs: Seq<Input>, at: int)
    requires
        parameters_at(inputs) is Ok,
        0 <= at < inputs.len(),
    ensures
        match inputs[at] {
            Input::Receiver => parameters_at(inputs)->Ok_0 != Some(at),
            Input::Typed(ty) => input_fault(ty) is None && parameters_at(inputs)->Ok_0 == Some(at),
        },
    decreases inputs.len(),
{
    let less = inputs.drop_last();
    found_is_inside(less);
    if at < inputs.len() - 1 {
        only_parameters_are_taken(less, at);
        assert(less[at] == inputs[at]);
    } else {
        assert(inputs[at] == inputs.last());
    }
}

proof fn found_is_inside(inputs: Seq<Input>)
    ensures
        parameters_at(inputs) matches Ok(Some(at)) ==> 0 <= at < inputs.len(),
    decreases inputs.len(),
{
    if inputs.len() > 0 {
        found_is_inside(inputs.drop_last());
    }
}

/// No group is given two texts.
pub proof fn groups_are_told_once(settings: Seq<Setting>, i: int, j: int)
    requires
        abouts(settings) is Ok,
        0 <= i < j < abouts(settings)->Ok_0.len(),
    ensures
        abouts(settings)->Ok_0[i].0 != abouts(settings)->Ok_0[j].0,
{
    abouts_are_distinct(settings);
}

/// Whether no group has two texts.
pub open spec fn distinct_groups(list: Seq<(Seq<char>, Seq<char>)>) -> bool {
    forall|i: int, j: int|
        0 <= i < j < list.len() ==> (#[trigger] list[i]).0 != (#[trigger] list[j]).0
}

proof fn entries_stay_distinct(before: Seq<(Seq<char>, Seq<char>)>, items: Seq<Setting>)
    requires
        distinct_groups(before),
    ensures
        with_entries(before, items) matches Ok(list) ==> distinct_groups(list),
    decreases items.len(),
{
    if items.len() > 0 {
        entries_stay_distinct(before, items.drop_last());
    }
}

proof fn abouts_are_distinct(settings: Seq<Setting>)
    ensures
        abouts(settings) matches Ok(list) ==> distinct_groups(list),
    decreases settings.len(),
{
    if settings.len() > 0 {
        abouts_are_distinct(settings.drop_last());
        if let Ok(list) = abouts(settings.drop_last()) {
            if let Setting::Group { name, items: Some(items) } = settings.last() {
                entries_stay_distinct(list, items@);
            }
        }
    }
}

} // verus!
