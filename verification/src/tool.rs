//! A tool as it is advertised, and the hints its command line is built from.

use vstd::prelude::*;

use crate::json::{Fields, Json};
use crate::text;

verus! {

/// What a tool says about its own behaviour. All of it is hints.
#[derive(Debug, Clone, Copy, PartialEq, Eq)]
pub struct ToolAnnotations {
    pub read_only_hint: Option<bool>,
    pub destructive_hint: Option<bool>,
    pub idempotent_hint: Option<bool>,
    pub open_world_hint: Option<bool>,
}

/// A tool as a client sees it in a listing.
#[derive(Debug, PartialEq)]
pub struct Tool {
    pub name: String,
    pub title: Option<String>,
    pub description: Option<String>,
    pub annotations: Option<ToolAnnotations>,
    pub input_schema: Fields,
    pub output_schema: Option<Fields>,
}

/// What a [`Tool`] says.
pub struct ToolView {
    pub name: Seq<char>,
    pub title: Option<Seq<char>>,
    pub description: Option<Seq<char>>,
    pub annotations: Option<ToolAnnotations>,
    pub input: Seq<(Seq<char>, Json)>,
    pub output: Option<Seq<(Seq<char>, Json)>>,
}

/// The characters of an optional string.
pub open spec fn opt_text(text: Option<String>) -> Option<Seq<char>> {
    match text {
        Some(text) => Some(text@),
        None => None,
    }
}

/// The fields of an optional object.
pub open spec fn opt_fields(map: Option<Fields>) -> Option<Seq<(Seq<char>, Json)>> {
    match map {
        Some(map) => Some(map.fields()),
        None => None,
    }
}

impl View for Tool {
    type V = ToolView;

    open spec fn view(&self) -> ToolView {
        ToolView {
            name: self.name@,
            title: opt_text(self.title),
            description: opt_text(self.description),
            annotations: self.annotations,
            input: self.input_schema.fields(),
            output: opt_fields(self.output_schema),
        }
    }
}

/// A copy of an optional string.
pub fn clone_text(text: &Option<String>) -> (res: Option<String>)
    ensures
        opt_text(res) == opt_text(*text),
{
    match text {
        Some(text) => Some(text.clone()),
        None => None,
    }
}

impl Clone for Tool {
    fn clone(&self) -> (res: Self)
        ensures
            res@ == self@,
    {
        Tool {
            name: self.name.clone(),
            title: clone_text(&self.title),
            description: clone_text(&self.description),
            annotations: self.annotations,
            input_schema: self.input_schema.clone(),
            output_schema: match &self.output_schema {
                Some(schema) => Some(schema.clone()),
                None => None,
            },
        }
    }
}

/// Hints for the derived command line. They never cross a process boundary.
#[derive(Debug, Clone, Copy)]
pub struct CliHints {
    /// Parameters to render as positional arguments, in order.
    pub positional: &'static [&'static str],
    /// Parameters that accept `184`, `0xb8` or `0b1011`.
    pub int_args: &'static [&'static str],
    /// Whether the tool appears on the command line at all.
    pub enabled: bool,
    /// Whether the tool reads the engine's session.
    pub needs_session: bool,
}

/// A tool with what its command line needs to know.
#[derive(Debug)]
pub struct ToolDef {
    pub tool: Tool,
    pub cli: CliHints,
    /// The extension that serves the tool, where it is not the engine itself.
    pub ext: Option<&'static str>,
}

/// What a [`ToolDef`] says.
pub struct DefView {
    pub tool: ToolView,
    pub positional: Seq<Seq<char>>,
    pub int_args: Seq<Seq<char>>,
    pub enabled: bool,
    pub needs_session: bool,
}

/// What a list of tools with their hints says.
pub open spec fn defs_said(defs: Seq<ToolDef>) -> Seq<DefView> {
    Seq::new(defs.len(), |i: int| defs[i].said())
}

impl ToolDef {
    /// The tool and its hints.
    pub open spec fn said(&self) -> DefView {
        DefView {
            tool: self.tool@,
            positional: text::strs(self.cli.positional@),
            int_args: text::strs(self.cli.int_args@),
            enabled: self.cli.enabled,
            needs_session: self.cli.needs_session,
        }
    }

    pub fn name(&self) -> (res: &str)
        ensures
            res@ == self.tool@.name,
    {
        self.tool.name.as_str()
    }
}

/// Anything that stands for an advertised tool.
pub trait Advertised {
    /// The tool it stands for.
    spec fn advertises(&self) -> ToolView;

    fn advertised(&self) -> (res: &Tool)
        ensures
            res@ == self.advertises(),
    ;
}

impl Clone for ToolDef {
    fn clone(&self) -> (res: Self)
        ensures
            res.said() == self.said(),
            res.ext == self.ext,
    {
        ToolDef { tool: self.tool.clone(), cli: self.cli, ext: self.ext }
    }
}

impl Advertised for Tool {
    open spec fn advertises(&self) -> ToolView {
        self@
    }

    fn advertised(&self) -> (res: &Tool) {
        self
    }
}

impl Advertised for ToolDef {
    open spec fn advertises(&self) -> ToolView {
        self.tool@
    }

    fn advertised(&self) -> (res: &Tool) {
        &self.tool
    }
}

impl<T: Advertised> Advertised for &T {
    open spec fn advertises(&self) -> ToolView {
        (**self).advertises()
    }

    fn advertised(&self) -> (res: &Tool) {
        (**self).advertised()
    }
}

/// The tools of a catalog.
pub open spec fn catalog<T: Advertised>(tools: Seq<T>) -> Seq<ToolView> {
    Seq::new(tools.len(), |i: int| tools[i].advertises())
}

/// The names of a catalog.
pub open spec fn names(tools: Seq<ToolView>) -> Seq<Seq<char>> {
    Seq::new(tools.len(), |i: int| tools[i].name)
}

} // verus!
