//! The tool-surface contract, as something that runs.
//!
//! The scan reads a catalog of advertised tools and reports every place the
//! surface departs from what a client is entitled to assume. The mechanism is
//! here; the lists of tools that owe something are the engine's.

use vstd::prelude::*;

use crate::json;
use crate::json::{has_pointer, to_compact, Fields, Json, JsonValue};
use crate::schema;
use crate::schema::{has_nullable_type_array, null_branch_position};
use crate::text;
use crate::text::{
    chars_of, decimal_of, is_text_before, list_has, quote_list, quoted, replace_char, same, split,
    strip_end, strip_prefix, to_ascii_lowercase, to_lowercase, trim,
};
use crate::tool;
use crate::tool::{Advertised, Tool, ToolDef, ToolView};

verus! {

/// One way a tool surface can be wrong.
#[derive(Debug, Clone, Copy, PartialEq, Eq, PartialOrd, Ord, Hash, Structural)]
pub enum Rule {
    /// The catalog handed in was empty, so nothing was checked.
    EmptySurface,
    /// Two tools share a name; whichever the router reaches second is dead.
    DuplicateName,
    /// Building the catalog twice produced different orders.
    UnstableOrder,
    /// No `title`.
    MissingTitle,
    /// A `title` that is white space.
    BlankTitle,
    /// The `title` only restates the tool name.
    TitleRestatesName,
    /// The `title` only restates the first sentence of the description.
    TitleRestatesDescription,
    /// Two tools share a `title`.
    DuplicateTitle,
    /// No `annotations` block at all.
    MissingAnnotations,
    /// `annotations` without `readOnlyHint`.
    MissingReadOnlyHint,
    /// No `outputSchema` on a tool that owes one.
    MissingOutputSchema,
    /// An `outputSchema` that describes nothing.
    EmptyOutputSchema,
    /// `$schema` survived into a published document.
    SchemaDialectLeak,
    /// A `$ref` that does not resolve inside the document that carries it.
    DanglingRef,
    /// A `$ref` pointing outside the document.
    NonLocalRef,
    /// An input schema spells optionality as a null branch.
    NullableInputBranch,
    /// An input schema publishes a numeric `format` a strict consumer does not
    /// know.
    UnportableFormat,
    /// A tool takes a `limit` and publishes nothing a caller could read to find
    /// out that part of the answer was held back.
    SilentTruncation,
    /// A property the engine declared mandatory is missing from an output schema.
    MissingRequiredProperty,
    /// The property is declared but not listed in `required`.
    PropertyNotRequired,
    /// A ratchet list names a tool that does not exist on this surface.
    StaleRatchetEntry,
    /// A ratchet list is not sorted.
    UnsortedRatchet,
}

impl Rule {
    /// The slug of a rule.
    pub open spec fn slug_text(self) -> Seq<char> {
        match self {
            Rule::EmptySurface => "empty-surface"@,
            Rule::DuplicateName => "duplicate-name"@,
            Rule::UnstableOrder => "unstable-order"@,
            Rule::MissingTitle => "missing-title"@,
            Rule::BlankTitle => "blank-title"@,
            Rule::TitleRestatesName => "title-restates-name"@,
            Rule::TitleRestatesDescription => "title-restates-description"@,
            Rule::DuplicateTitle => "duplicate-title"@,
            Rule::MissingAnnotations => "missing-annotations"@,
            Rule::MissingReadOnlyHint => "missing-read-only-hint"@,
            Rule::MissingOutputSchema => "missing-output-schema"@,
            Rule::EmptyOutputSchema => "empty-output-schema"@,
            Rule::SchemaDialectLeak => "schema-dialect-leak"@,
            Rule::DanglingRef => "dangling-ref"@,
            Rule::NonLocalRef => "non-local-ref"@,
            Rule::NullableInputBranch => "nullable-input-branch"@,
            Rule::UnportableFormat => "unportable-format"@,
            Rule::SilentTruncation => "silent-truncation"@,
            Rule::MissingRequiredProperty => "missing-required-property"@,
            Rule::PropertyNotRequired => "property-not-required"@,
            Rule::StaleRatchetEntry => "stale-ratchet-entry"@,
            Rule::UnsortedRatchet => "unsorted-ratchet"@,
        }
    }

    /// A stable slug, for grepping a log.
    pub fn slug(self) -> (res: &'static str)
        ensures
            res@ == self.slug_text(),
    {
        match self {
            Rule::EmptySurface => "empty-surface",
            Rule::DuplicateName => "duplicate-name",
            Rule::UnstableOrder => "unstable-order",
            Rule::MissingTitle => "missing-title",
            Rule::BlankTitle => "blank-title",
            Rule::TitleRestatesName => "title-restates-name",
            Rule::TitleRestatesDescription => "title-restates-description",
            Rule::DuplicateTitle => "duplicate-title",
            Rule::MissingAnnotations => "missing-annotations",
            Rule::MissingReadOnlyHint => "missing-read-only-hint",
            Rule::MissingOutputSchema => "missing-output-schema",
            Rule::EmptyOutputSchema => "empty-output-schema",
            Rule::SchemaDialectLeak => "schema-dialect-leak",
            Rule::DanglingRef => "dangling-ref",
            Rule::NonLocalRef => "non-local-ref",
            Rule::NullableInputBranch => "nullable-input-branch",
            Rule::UnportableFormat => "unportable-format",
            Rule::SilentTruncation => "silent-truncation",
            Rule::MissingRequiredProperty => "missing-required-property",
            Rule::PropertyNotRequired => "property-not-required",
            Rule::StaleRatchetEntry => "stale-ratchet-entry",
            Rule::UnsortedRatchet => "unsorted-ratchet",
        }
    }
}

/// One violation, located.
#[derive(Debug, PartialEq, Eq)]
pub struct Finding {
    /// Which catalog this came from.
    pub face: String,
    /// The offending tool, or `None` for a finding about the surface as a whole.
    pub tool: Option<String>,
    pub rule: Rule,
    /// What is wrong, in enough detail to fix it.
    pub detail: String,
}

/// What a [`Finding`] says.
pub struct FindingView {
    pub face: Seq<char>,
    pub tool: Option<Seq<char>>,
    pub rule: Rule,
    pub detail: Seq<char>,
}

impl View for Finding {
    type V = FindingView;

    open spec fn view(&self) -> FindingView {
        FindingView {
            face: self.face@,
            tool: tool::opt_text(self.tool),
            rule: self.rule,
            detail: self.detail@,
        }
    }
}

/// What a list of findings says.
pub open spec fn found(findings: Seq<Finding>) -> Seq<FindingView> {
    Seq::new(findings.len(), |i: int| findings[i]@)
}

impl FindingView {
    /// The finding on one line.
    pub open spec fn line(self) -> Seq<char> {
        "["@ + self.rule.slug_text() + "] "@ + self.face + "/"@ + (match self.tool {
            Some(name) => name,
            None => "<surface>"@,
        }) + ": "@ + self.detail
    }
}

impl Finding {
    /// The finding on one line.
    pub fn message(&self) -> (res: String)
        ensures
            res@ == self@.line(),
    {
        let mut out = "[".to_owned();
        out.append(self.rule.slug());
        out.append("] ");
        out.append(self.face.as_str());
        out.append("/");
        match &self.tool {
            Some(name) => out.append(name.as_str()),
            None => out.append("<surface>"),
        }
        out.append(": ");
        out.append(self.detail.as_str());
        out
    }
}

/// How much the scan actually looked at.
#[derive(Debug, Clone, Copy, PartialEq, Eq, Structural)]
pub struct Checked {
    pub tools: usize,
    pub input_schemas: usize,
    pub output_schemas: usize,
    pub refs: usize,
}

impl Default for Checked {
    fn default() -> (res: Self)
        ensures
            res == (Checked { tools: 0, input_schemas: 0, output_schemas: 0, refs: 0 }),
    {
        Checked { tools: 0, input_schemas: 0, output_schemas: 0, refs: 0 }
    }
}

impl Checked {
    /// Whether two counts can be added up.
    pub open spec fn addable(self, other: Checked) -> bool {
        &&& self.tools + other.tools <= usize::MAX
        &&& self.input_schemas + other.input_schemas <= usize::MAX
        &&& self.output_schemas + other.output_schemas <= usize::MAX
        &&& self.refs + other.refs <= usize::MAX
    }

    /// Two counts added up.
    pub open spec fn plus(self, other: Checked) -> Checked {
        Checked {
            tools: (self.tools + other.tools) as usize,
            input_schemas: (self.input_schemas + other.input_schemas) as usize,
            output_schemas: (self.output_schemas + other.output_schemas) as usize,
            refs: (self.refs + other.refs) as usize,
        }
    }

    fn add(&mut self, other: Checked)
        requires
            old(self).addable(other),
        ensures
            *final(self) == old(self).plus(other),
    {
        self.tools = self.tools + other.tools;
        self.input_schemas = self.input_schemas + other.input_schemas;
        self.output_schemas = self.output_schemas + other.output_schemas;
        self.refs = self.refs + other.refs;
    }

    /// The counts in words.
    pub open spec fn words(self) -> Seq<char> {
        text::decimal(self.tools as nat) + " tools, "@ + text::decimal(self.input_schemas as nat)
            + " input schemas, "@ + text::decimal(self.output_schemas as nat)
            + " output schemas, "@ + text::decimal(self.refs as nat) + " $refs"@
    }

    /// The counts in words.
    pub fn message(&self) -> (res: String)
        ensures
            res@ == self.words(),
    {
        let mut out = decimal_of(self.tools as u64);
        out.append(" tools, ");
        out.append(decimal_of(self.input_schemas as u64).as_str());
        out.append(" input schemas, ");
        out.append(decimal_of(self.output_schemas as u64).as_str());
        out.append(" output schemas, ");
        out.append(decimal_of(self.refs as u64).as_str());
        out.append(" $refs");
        out
    }
}

/// The result of one scan.
#[derive(Debug)]
pub struct SurfaceReport {
    findings: Vec<Finding>,
    checked: Checked,
}

/// The findings of one rule, in order.
pub open spec fn of_rule(findings: Seq<FindingView>, rule: Rule) -> Seq<FindingView>
    decreases findings.len(),
{
    if findings.len() == 0 {
        Seq::empty()
    } else {
        let before = of_rule(findings.drop_last(), rule);
        if findings.last().rule == rule {
            before.push(findings.last())
        } else {
            before
        }
    }
}

/// The lines of a report, each indented and ended.
pub open spec fn finding_lines(findings: Seq<FindingView>) -> Seq<char>
    decreases findings.len(),
{
    if findings.len() == 0 {
        Seq::empty()
    } else {
        finding_lines(findings.drop_last()) + "  "@ + findings.last().line() + "\n"@
    }
}

/// A whole report as text.
pub open spec fn report_text(findings: Seq<FindingView>, checked: Checked) -> Seq<char> {
    "tool-surface contract: "@ + text::decimal(findings.len()) + " finding(s) over "@
        + checked.words() + "\n"@ + finding_lines(findings)
}

impl SurfaceReport {
    /// What was found.
    pub closed spec fn all(&self) -> Seq<FindingView> {
        found(self.findings@)
    }

    /// What was looked at.
    pub closed spec fn counts(&self) -> Checked {
        self.checked
    }

    pub fn findings(&self) -> (res: &[Finding])
        ensures
            found(res@) == self.all(),
    {
        self.findings.as_slice()
    }

    pub fn checked(&self) -> (res: Checked)
        ensures
            res == self.counts(),
    {
        self.checked
    }

    pub fn is_clean(&self) -> (res: bool)
        ensures
            res == (self.all().len() == 0),
    {
        self.findings.len() == 0
    }

    /// Every finding for one rule.
    pub fn by_rule(&self, rule: Rule) -> (res: Vec<&Finding>)
        ensures
            Seq::new(res@.len(), |i: int| res@[i]@) == of_rule(self.all(), rule),
    {
        let mut out: Vec<&Finding> = Vec::new();
        let mut i: usize = 0;
        assert(Seq::new(out@.len(), |i: int| out@[i]@) =~= Seq::<FindingView>::empty());
        while i < self.findings.len()
            invariant
                i <= self.findings.len(),
                Seq::new(out@.len(), |i: int| out@[i]@) == of_rule(
                    self.all().take(i as int),
                    rule,
                ),
            decreases self.findings.len() - i,
        {
            let ghost former = out@;
            assert(self.all().take(i + 1).drop_last() =~= self.all().take(i as int));
            assert(self.all().take(i + 1).last() == self.findings@[i as int]@);
            if self.findings[i].rule == rule {
                out.push(&self.findings[i]);
                assert(Seq::new(out@.len(), |i: int| out@[i]@) =~= Seq::new(
                    former.len(),
                    |i: int| former[i]@,
                ).push(self.findings@[i as int]@));
            }
            i += 1;
        }
        assert(self.all().take(self.all().len() as int) =~= self.all());
        out
    }

    /// Folds another face's report into this one.
    pub fn merge(&mut self, other: SurfaceReport) -> (res: &mut Self)
        requires
            old(self).counts().addable(other.counts()),
        ensures
            res.all() == old(self).all() + other.all(),
            res.counts() == old(self).counts().plus(other.counts()),
            *final(self) == *final(res),
    {
        let mut rest = other.findings;
        self.findings.append(&mut rest);
        self.checked.add(other.checked);
        assert(self.all() =~= old(self).all() + other.all());
        self
    }

    /// The whole report as text, where the surface is not clean.
    pub fn assert_clean(&self) -> (res: Result<(), String>)
        ensures
            match res {
                Ok(_) => self.all().len() == 0,
                Err(report) => self.all().len() > 0 && report@ == report_text(
                    self.all(),
                    self.counts(),
                ),
            },
    {
        if self.is_clean() {
            Ok(())
        } else {
            Err(self.message())
        }
    }

    /// The whole report as text.
    pub fn message(&self) -> (res: String)
        ensures
            res@ == report_text(self.all(), self.counts()),
    {
        let mut out = "tool-surface contract: ".to_owned();
        out.append(decimal_of(self.findings.len() as u64).as_str());
        out.append(" finding(s) over ");
        out.append(self.checked.message().as_str());
        out.append("\n");
        let ghost head = out@;
        let mut i: usize = 0;
        assert(out@ =~= head + finding_lines(self.all().take(0)));
        while i < self.findings.len()
            invariant
                i <= self.findings.len(),
                out@ == head + finding_lines(self.all().take(i as int)),
            decreases self.findings.len() - i,
        {
            let ghost before = finding_lines(self.all().take(i as int));
            assert(self.all().take(i + 1).drop_last() =~= self.all().take(i as int));
            assert(self.all().take(i + 1).last() == self.findings@[i as int]@);
            out.append("  ");
            out.append(self.findings[i].message().as_str());
            out.append("\n");
            assert(out@ =~= head + (before + "  "@ + self.findings@[i as int]@.line() + "\n"@));
            i += 1;
        }
        assert(self.all().take(self.all().len() as int) =~= self.all());
        out
    }
}

// ---------------------------------------------------------------------------
// The scan, configured
// ---------------------------------------------------------------------------

/// How strictly `outputSchema` is required on this face.
#[derive(Debug, Clone, Copy)]
pub enum OutputSchemas<'a> {
    /// Every advertised tool must publish one.
    Required,
    /// Staged conversion: only the named tools owe one. The list itself is
    /// checked for stale entries and for being sorted.
    Staged(&'a [&'a str]),
    /// Not checked.
    Unchecked,
}

#[derive(Debug, Clone, Copy)]
struct RequiredProperty<'a> {
    name: &'a str,
    tools: &'a [&'a str],
}

/// Which of a tool's two published documents is being walked.
#[derive(Debug, Clone, Copy, PartialEq, Eq, Structural)]
enum Face {
    Input,
    Output,
}

impl Face {
    spec fn label_text(self) -> Seq<char> {
        match self {
            Face::Input => "input"@,
            Face::Output => "output"@,
        }
    }

    fn label(self) -> (res: &'static str)
        ensures
            res@ == self.label_text(),
    {
        match self {
            Face::Input => "input",
            Face::Output => "output",
        }
    }
}

/// A configured scan.
#[derive(Debug)]
pub struct Audit<'a> {
    face: &'a str,
    output_schemas: OutputSchemas<'a>,
    required_properties: Vec<RequiredProperty<'a>>,
    nullable_input_branches: bool,
    repeats: usize,
}

/// Which tools owe an output schema: all of them, those of a list, or none.
pub enum Owed {
    Everyone,
    Listed(Seq<Seq<char>>),
    Nobody,
}

/// What a scan is configured to do.
pub struct AuditView {
    pub face: Seq<char>,
    pub owed: Owed,
    /// Properties that tools must require in their output, with the tools.
    pub required: Seq<(Seq<char>, Seq<Seq<char>>)>,
    /// Whether a null branch in an input schema is a finding.
    pub no_null_branches: bool,
    pub repeats: nat,
}

impl OutputSchemas<'_> {
    pub open spec fn owed(self) -> Owed {
        match self {
            OutputSchemas::Required => Owed::Everyone,
            OutputSchemas::Staged(list) => Owed::Listed(text::strs(list@)),
            OutputSchemas::Unchecked => Owed::Nobody,
        }
    }
}

impl<'a> Audit<'a> {
    /// What the scan is configured to do.
    pub closed spec fn config(&self) -> AuditView {
        AuditView {
            face: self.face@,
            owed: self.output_schemas.owed(),
            required: Seq::new(
                self.required_properties@.len(),
                |i: int|
                    (
                        self.required_properties@[i].name@,
                        text::strs(self.required_properties@[i].tools@),
                    ),
            ),
            no_null_branches: self.nullable_input_branches,
            repeats: self.repeats as nat,
        }
    }

    /// A scan of the face of that name, at its defaults: every tool owes an
    /// output schema, null branches in input schemas are findings, and a catalog
    /// is built three times.
    pub fn new(face: &'a str) -> (res: Self)
        ensures
            res.config() == (AuditView {
                face: face@,
                owed: Owed::Everyone,
                required: Seq::empty(),
                no_null_branches: true,
                repeats: 3,
            }),
    {
        let res = Audit {
            face,
            output_schemas: OutputSchemas::Required,
            required_properties: Vec::new(),
            nullable_input_branches: true,
            repeats: 3,
        };
        assert(res.config().required =~= Seq::empty());
        res
    }

    pub fn output_schemas(self, policy: OutputSchemas<'a>) -> (res: Self)
        ensures
            res.config() == (AuditView { owed: policy.owed(), ..self.config() }),
    {
        Audit { output_schemas: policy, ..self }
    }

    /// Declares that the named tools must publish `name` as a required property
    /// of their output schema.
    pub fn require_output_property(self, name: &'a str, tools: &'a [&'a str]) -> (res: Self)
        ensures
            res.config() == (AuditView {
                required: self.config().required.push((name@, text::strs(tools@))),
                ..self.config()
            }),
    {
        let ghost before = self.config();
        let mut required_properties = self.required_properties;
        required_properties.push(RequiredProperty { name, tools });
        let res = Audit {
            face: self.face,
            output_schemas: self.output_schemas,
            required_properties,
            nullable_input_branches: self.nullable_input_branches,
            repeats: self.repeats,
        };
        assert(res.config().required =~= before.required.push((name@, text::strs(tools@))));
        res
    }

    /// Whether an input schema may express optionality as a null branch.
    pub fn nullable_input_branches(self, allowed: bool) -> (res: Self)
        ensures
            res.config() == (AuditView { no_null_branches: !allowed, ..self.config() }),
    {
        Audit { nullable_input_branches: !allowed, ..self }
    }

    /// How many times a catalog is built, at least two.
    pub fn repeats(self, times: usize) -> (res: Self)
        ensures
            res.config() == (AuditView {
                repeats: if times < 2 {
                    2
                } else {
                    times as nat
                },
                ..self.config()
            }),
    {
        Audit {
            repeats: if times < 2 {
                2
            } else {
                times
            },
            ..self
        }
    }
}

// ---------------------------------------------------------------------------
// Names and titles
// ---------------------------------------------------------------------------

/// A finding about one tool.
pub open spec fn tool_finding(
    face: Seq<char>,
    name: Seq<char>,
    rule: Rule,
    detail: Seq<char>,
) -> FindingView {
    FindingView { face, tool: Some(name), rule, detail }
}

/// A finding about the surface.
pub open spec fn about_surface(face: Seq<char>, rule: Rule, detail: Seq<char>) -> FindingView {
    FindingView { face, tool: None, rule, detail }
}

/// The first group at or after `from` with this key, or the number of groups.
pub open spec fn group_from(
    groups: Seq<(Seq<char>, Seq<Seq<char>>)>,
    key: Seq<char>,
    from: int,
) -> int
    decreases groups.len() - from,
{
    if from >= groups.len() {
        groups.len() as int
    } else if groups[from].0 == key {
        from
    } else {
        group_from(groups, key, from + 1)
    }
}

/// Where a new group goes: before the first greater key at or after `from`.
pub open spec fn group_slot(
    groups: Seq<(Seq<char>, Seq<Seq<char>>)>,
    key: Seq<char>,
    from: int,
) -> int
    decreases groups.len() - from,
{
    if from >= groups.len() {
        groups.len() as int
    } else if text::text_before(key, groups[from].0) {
        from
    } else {
        group_slot(groups, key, from + 1)
    }
}

/// Owners by key: keys in ascending order, owners in the order they came.
pub open spec fn grouped(
    pairs: Seq<(Seq<char>, Seq<char>)>,
) -> Seq<(Seq<char>, Seq<Seq<char>>)>
    decreases pairs.len(),
{
    if pairs.len() == 0 {
        Seq::empty()
    } else {
        let groups = grouped(pairs.drop_last());
        let (key, owner) = pairs.last();
        let at = group_from(groups, key, 0);
        if at < groups.len() {
            groups.update(at, (key, groups[at].1.push(owner)))
        } else {
            groups.insert(group_slot(groups, key, 0), (key, seq![owner]))
        }
    }
}

/// Each tool's name, twice.
pub open spec fn name_pairs(tools: Seq<ToolView>) -> Seq<(Seq<char>, Seq<char>)> {
    Seq::new(tools.len(), |i: int| (tools[i].name, tools[i].name))
}

/// Each title that is not blank, trimmed, with the tool that has it.
pub open spec fn title_pairs(tools: Seq<ToolView>) -> Seq<(Seq<char>, Seq<char>)>
    decreases tools.len(),
{
    if tools.len() == 0 {
        Seq::empty()
    } else {
        let before = title_pairs(tools.drop_last());
        match tools.last().title {
            Some(title) => if text::trimmed(title).len() > 0 {
                before.push((text::trimmed(title), tools.last().name))
            } else {
                before
            },
            None => before,
        }
    }
}

/// The findings for names that several tools share, by name.
pub open spec fn shared_names(
    face: Seq<char>,
    groups: Seq<(Seq<char>, Seq<Seq<char>>)>,
) -> Seq<FindingView>
    decreases groups.len(),
{
    if groups.len() == 0 {
        Seq::empty()
    } else {
        let before = shared_names(face, groups.drop_last());
        let (name, owners) = groups.last();
        if owners.len() > 1 {
            before.push(
                tool_finding(
                    face,
                    name,
                    Rule::DuplicateName,
                    "advertised "@ + text::decimal(owners.len())
                        + " times; only one of them is reachable"@,
                ),
            )
        } else {
            before
        }
    }
}

/// The findings for titles that several tools share, by title.
pub open spec fn shared_titles(
    face: Seq<char>,
    groups: Seq<(Seq<char>, Seq<Seq<char>>)>,
) -> Seq<FindingView>
    decreases groups.len(),
{
    if groups.len() == 0 {
        Seq::empty()
    } else {
        let before = shared_titles(face, groups.drop_last());
        let (title, owners) = groups.last();
        if owners.len() > 1 {
            before.push(
                tool_finding(
                    face,
                    owners[0],
                    Rule::DuplicateTitle,
                    text::quoted_list(owners) + " all publish the title "@ + text::debug_text(title),
                ),
            )
        } else {
            before
        }
    }
}

/// What is wrong with the names and titles of a catalog taken together.
pub open spec fn name_findings(face: Seq<char>, tools: Seq<ToolView>) -> Seq<FindingView> {
    shared_names(face, grouped(name_pairs(tools))) + shared_titles(
        face,
        grouped(title_pairs(tools)),
    )
}

/// What is wrong with one tool's title.
pub open spec fn title_findings(face: Seq<char>, t: ToolView) -> Seq<FindingView> {
    match t.title {
        None => seq![
            tool_finding(
                face,
                t.name,
                Rule::MissingTitle,
                "no title; declare one at the tool site"@,
            ),
        ],
        Some(title) => if text::trimmed(title).len() == 0 {
            seq![tool_finding(face, t.name, Rule::BlankTitle, "the title is whitespace"@)]
        } else {
            (if restates_name(title, t.name) {
                seq![
                    tool_finding(
                        face,
                        t.name,
                        Rule::TitleRestatesName,
                        "the title "@ + text::debug_text(title) + " just restates the tool name"@,
                    ),
                ]
            } else {
                Seq::empty()
            }) + (if t.description is Some && restates_description(title, t.description->0) {
                seq![
                    tool_finding(
                        face,
                        t.name,
                        Rule::TitleRestatesDescription,
                        "the title "@ + text::debug_text(title) + " just restates the description"@,
                    ),
                ]
            } else {
                Seq::empty()
            })
        },
    }
}

/// A title that is the name but for case, spaces and hyphens.
pub open spec fn restates_name(title: Seq<char>, name: Seq<char>) -> bool {
    text::replaced(text::replaced(text::lowercase(title), ' ', '_'), '-', '_') == text::lowercase(
        name,
    )
}

/// The position of the first full stop with a space after it, at or after
/// `from`, or the length.
pub open spec fn stop_from(s: Seq<char>, from: int) -> int
    decreases s.len() - from,
{
    if from + 1 >= s.len() {
        s.len() as int
    } else if s[from] == '.' && s[from + 1] == ' ' {
        from
    } else {
        stop_from(s, from + 1)
    }
}

/// The first sentence of a description, without its full stop.
pub open spec fn first_sentence(description: Seq<char>) -> Seq<char> {
    text::trimmed(text::end_stripped(description.take(stop_from(description, 0)), '.'))
}

/// A title that is the first sentence but for ASCII case.
pub open spec fn restates_description(title: Seq<char>, description: Seq<char>) -> bool {
    text::ascii_lowered(text::end_stripped(title, '.')) == text::ascii_lowered(
        first_sentence(description),
    )
}

/// What is wrong with one tool's annotations.
pub open spec fn annotation_findings(face: Seq<char>, t: ToolView) -> Seq<FindingView> {
    match t.annotations {
        None => seq![
            tool_finding(face, t.name, Rule::MissingAnnotations, "no annotations block"@),
        ],
        Some(annotations) => if annotations.read_only_hint is None {
            seq![
                tool_finding(
                    face,
                    t.name,
                    Rule::MissingReadOnlyHint,
                    "annotations without readOnlyHint; clients gate confirmation on it, so absent is not a safe default"@,
                ),
            ]
        } else {
            Seq::empty()
        },
    }
}

/// A list of owners by key.
struct Groups {
    list: Vec<(String, Vec<String>)>,
}

impl Groups {
    spec fn groups(&self) -> Seq<(Seq<char>, Seq<Seq<char>>)> {
        Seq::new(self.list@.len(), |i: int| (self.list@[i].0@, text::texts(self.list@[i].1@)))
    }

    /// Adds an owner to the group of a key.
    fn enter(&mut self, key: &str, owner: &str)
        ensures
            final(self).groups() == ({
                let groups = old(self).groups();
                let at = group_from(groups, key@, 0);
                if at < groups.len() {
                    groups.update(at, (key@, groups[at].1.push(owner@)))
                } else {
                    groups.insert(group_slot(groups, key@, 0), (key@, seq![owner@]))
                }
            }),
    {
        let ghost before = self.groups();
        let mut at: usize = 0;
        while at < self.list.len()
            invariant
                at <= self.list.len(),
                *self == *old(self),
                before == self.groups(),
                group_from(before, key@, 0) == group_from(before, key@, at as int),
            decreases self.list.len() - at,
        {
            assert(before[at as int].0 == self.list@[at as int].0@);
            if same(self.list[at].0.as_str(), key) {
                let ghost owners = self.list@[at as int].1@;
                let mut entry = (String::new(), Vec::new());
                std::mem::swap(&mut entry, &mut self.list[at]);
                entry.1.push(owner.to_owned());
                assert(text::texts(entry.1@) =~= text::texts(owners).push(owner@));
                self.list[at] = entry;
                assert(self.groups() =~= before.update(
                    at as int,
                    (key@, before[at as int].1.push(owner@)),
                ));
                return;
            }
            at += 1;
        }
        let mut slot: usize = 0;
        while slot < self.list.len() && !is_text_before(key, self.list[slot].0.as_str())
            invariant
                slot <= self.list.len(),
                *self == *old(self),
                before == self.groups(),
                group_slot(before, key@, 0) == group_slot(before, key@, slot as int),
            decreases self.list.len() - slot,
        {
            assert(before[slot as int].0 == self.list@[slot as int].0@);
            slot += 1;
        }
        if slot < self.list.len() {
            assert(before[slot as int].0 == self.list@[slot as int].0@);
        }
        let mut owners: Vec<String> = Vec::new();
        owners.push(owner.to_owned());
        assert(text::texts(owners@) =~= seq![owner@]);
        self.list.insert(slot, (key.to_owned(), owners));
        assert(self.groups() =~= before.insert(slot as int, (key@, seq![owner@])));
    }
}

fn finding(face: &str, tool: &str, rule: Rule, detail: String) -> (res: Finding)
    ensures
        res@ == tool_finding(face@, tool@, rule, detail@),
{
    Finding { face: face.to_owned(), tool: Some(tool.to_owned()), rule, detail }
}

fn surface_finding(face: &str, rule: Rule, detail: String) -> (res: Finding)
    ensures
        res@ == about_surface(face@, rule, detail@),
{
    Finding { face: face.to_owned(), tool: None, rule, detail }
}

proof fn found_push(findings: Seq<Finding>, one: Finding)
    ensures
        found(findings.push(one)) == found(findings).push(one@),
{
    assert(found(findings.push(one)) =~= found(findings).push(one@));
}

proof fn found_concat(a: Seq<Finding>, b: Seq<Finding>)
    ensures
        found(a + b) == found(a) + found(b),
{
    assert(found(a + b) =~= found(a) + found(b));
}

fn check_names_and_titles<T: Advertised>(face: &str, tools: &[T]) -> (res: Vec<Finding>)
    ensures
        found(res@) == name_findings(face@, tool::catalog(tools@)),
{
    let ghost all = tool::catalog(tools@);
    let mut by_name = Groups { list: Vec::new() };
    let mut by_title = Groups { list: Vec::new() };
    let mut i: usize = 0;
    assert(by_name.groups() =~= grouped(name_pairs(all).take(0)));
    assert(by_title.groups() =~= grouped(title_pairs(all.take(0))));
    while i < tools.len()
        invariant
            i <= tools.len(),
            all == tool::catalog(tools@),
            by_name.groups() == grouped(name_pairs(all).take(i as int)),
            by_title.groups() == grouped(title_pairs(all.take(i as int))),
        decreases tools.len() - i,
    {
        let t = tools[i].advertised();
        assert(all[i as int] == t@);
        assert(name_pairs(all).take(i + 1).drop_last() =~= name_pairs(all).take(i as int));
        by_name.enter(t.name.as_str(), t.name.as_str());
        assert(all.take(i + 1).drop_last() =~= all.take(i as int));
        let ghost before = title_pairs(all.take(i as int));
        if let Some(title) = &t.title {
            let label = trim(title.as_str());
            if !label.is_empty() {
                by_title.enter(label, t.name.as_str());
                assert(before.push((label@, t.name@)).drop_last() =~= before);
            }
        }
        i += 1;
    }
    assert(name_pairs(all).take(all.len() as int) =~= name_pairs(all));
    assert(all.take(all.len() as int) =~= all);
    let mut out: Vec<Finding> = Vec::new();
    let ghost names = by_name.groups();
    let mut n: usize = 0;
    assert(found(out@) =~= shared_names(face@, names.take(0)));
    while n < by_name.list.len()
        invariant
            n <= by_name.list.len(),
            names == by_name.groups(),
            found(out@) == shared_names(face@, names.take(n as int)),
        decreases by_name.list.len() - n,
    {
        let ghost former = out@;
        assert(names.take(n + 1).drop_last() =~= names.take(n as int));
        assert(names[n as int] == (
            by_name.list@[n as int].0@,
            text::texts(by_name.list@[n as int].1@),
        ));
        let count = by_name.list[n].1.len();
        if count > 1 {
            let mut detail = "advertised ".to_owned();
            detail.append(decimal_of(count as u64).as_str());
            detail.append(" times; only one of them is reachable");
            let one = finding(face, by_name.list[n].0.as_str(), Rule::DuplicateName, detail);
            proof {
                found_push(former, one);
            }
            out.push(one);
        }
        n += 1;
    }
    assert(names.take(names.len() as int) =~= names);
    let ghost first = found(out@);
    let ghost titles = by_title.groups();
    let mut m: usize = 0;
    assert(found(out@) =~= first + shared_titles(face@, titles.take(0)));
    while m < by_title.list.len()
        invariant
            m <= by_title.list.len(),
            titles == by_title.groups(),
            found(out@) == first + shared_titles(face@, titles.take(m as int)),
        decreases by_title.list.len() - m,
    {
        let ghost former = out@;
        let ghost before = shared_titles(face@, titles.take(m as int));
        assert(titles.take(m + 1).drop_last() =~= titles.take(m as int));
        assert(titles[m as int] == (
            by_title.list@[m as int].0@,
            text::texts(by_title.list@[m as int].1@),
        ));
        if by_title.list[m].1.len() > 1 {
            let mut detail = quote_list(&by_title.list[m].1);
            detail.append(" all publish the title ");
            detail.append(quoted(by_title.list[m].0.as_str()).as_str());
            let one = finding(
                face,
                by_title.list[m].1[0].as_str(),
                Rule::DuplicateTitle,
                detail,
            );
            proof {
                found_push(former, one);
                assert((first + before).push(one@) =~= first + before.push(one@));
            }
            out.push(one);
        }
        m += 1;
    }
    assert(titles.take(titles.len() as int) =~= titles);
    out
}

fn stop_of(chars: &Vec<char>) -> (res: usize)
    ensures
        res == stop_from(chars@, 0),
        res <= chars@.len(),
{
    let mut i: usize = 0;
    while i < chars.len() && chars.len() - i > 1
        invariant
            i <= chars.len(),
            stop_from(chars@, 0) == stop_from(chars@, i as int),
        decreases chars.len() - i,
    {
        if chars[i] == '.' && chars[i + 1] == ' ' {
            return i;
        }
        i += 1;
    }
    chars.len()
}

fn check_title(face: &str, t: &Tool) -> (res: Vec<Finding>)
    ensures
        found(res@) == title_findings(face@, t@),
{
    let name = t.name.as_str();
    let mut out: Vec<Finding> = Vec::new();
    let title = match &t.title {
        Some(title) => title.as_str(),
        None => {
            out.push(
                finding(
                    face,
                    name,
                    Rule::MissingTitle,
                    "no title; declare one at the tool site".to_owned(),
                ),
            );
            assert(found(out@) =~= title_findings(face@, t@));
            return out;
        },
    };
    if trim(title).is_empty() {
        out.push(
            finding(face, name, Rule::BlankTitle, "the title is whitespace".to_owned()),
        );
        assert(found(out@) =~= title_findings(face@, t@));
        return out;
    }
    let lowered = to_lowercase(title);
    let spaced = replace_char(lowered.as_str(), ' ', '_');
    let plain = replace_char(spaced.as_str(), '-', '_');
    if same(plain.as_str(), to_lowercase(name).as_str()) {
        let mut detail = "the title ".to_owned();
        detail.append(quoted(title).as_str());
        detail.append(" just restates the tool name");
        out.push(finding(face, name, Rule::TitleRestatesName, detail));
    }
    if let Some(description) = &t.description {
        let chars = chars_of(description.as_str());
        let stop = stop_of(&chars);
        let sentence = description.as_str().substring_char(0, stop);
        assert(sentence@ =~= description@.take(stop as int));
        let first = trim(strip_end(sentence, '.'));
        let bare = strip_end(title, '.');
        if same(to_ascii_lowercase(bare).as_str(), to_ascii_lowercase(first).as_str()) {
            let mut detail = "the title ".to_owned();
            detail.append(quoted(title).as_str());
            detail.append(" just restates the description");
            out.push(finding(face, name, Rule::TitleRestatesDescription, detail));
        }
    }
    assert(found(out@) =~= title_findings(face@, t@));
    out
}

fn check_annotations(face: &str, t: &Tool) -> (res: Vec<Finding>)
    ensures
        found(res@) == annotation_findings(face@, t@),
{
    let name = t.name.as_str();
    let mut out: Vec<Finding> = Vec::new();
    match &t.annotations {
        None => {
            out.push(
                finding(face, name, Rule::MissingAnnotations, "no annotations block".to_owned()),
            );
        },
        Some(annotations) => {
            if annotations.read_only_hint.is_none() {
                out.push(
                    finding(
                        face,
                        name,
                        Rule::MissingReadOnlyHint,
                        "annotations without readOnlyHint; clients gate confirmation on it, so absent is not a safe default".to_owned(),
                    ),
                );
            }
        },
    }
    assert(found(out@) =~= annotation_findings(face@, t@));
    out
}

// ---------------------------------------------------------------------------
// Walking a published document
// ---------------------------------------------------------------------------

/// A document being walked.
pub struct WalkView {
    /// The face, in words.
    pub label: Seq<char>,
    /// Whether this document is handed to a strict parser.
    pub strict: bool,
    /// Whether null branches are findings in it.
    pub flags_null: bool,
    pub root: Seq<(Seq<char>, Json)>,
}

/// A key as a step of a JSON Pointer: `~` and `/` escaped.
pub open spec fn pointer_step(key: Seq<char>) -> Seq<char>
    decreases key.len(),
{
    if key.len() == 0 {
        Seq::empty()
    } else {
        pointer_step(key.drop_last()) + (if key.last() == '~' {
            "~0"@
        } else if key.last() == '/' {
            "~1"@
        } else {
            seq![key.last()]
        })
    }
}

/// A place in words.
pub open spec fn place(path: Seq<char>) -> Seq<char> {
    if path.len() == 0 {
        "the root"@
    } else {
        path
    }
}

/// A type name that describes a number.
pub open spec fn numeric_name(name: Seq<char>) -> bool {
    name == "integer"@ || name == "number"@
}

/// A `type` that names a number, alone or in a list.
pub open spec fn numeric_type(declared: Json) -> bool {
    match declared {
        Json::Text(name) => numeric_name(name),
        Json::List(items) => exists|i: int|
            0 <= i < items.len() && #[trigger] items[i] is Text && numeric_name(items[i]->Text_0),
        _ => false,
    }
}

/// The `format` of a node that describes a number.
pub open spec fn number_format(fields: Seq<(Seq<char>, Json)>) -> Option<Seq<char>> {
    match (json::field(fields, "format"@), json::field(fields, "type"@)) {
        (Some(Json::Text(format)), Some(declared)) => if numeric_type(declared) {
            Some(format)
        } else {
            None
        },
        _ => None,
    }
}

/// The numeric formats a strict consumer knows.
pub open spec fn portable(format: Seq<char>) -> bool {
    format == "double"@ || format == "float"@ || format == "int32"@ || format == "int64"@
}

/// A dialect marker in a node.
pub open spec fn dialect_leak(
    w: WalkView,
    fields: Seq<(Seq<char>, Json)>,
    path: Seq<char>,
) -> Seq<(Rule, Seq<char>)> {
    if json::has_field(fields, "$schema"@) {
        seq![(Rule::SchemaDialectLeak, w.label + " schema leaks $schema at "@ + place(path))]
    } else {
        Seq::empty()
    }
}

/// A reference in a node that leads nowhere.
pub open spec fn broken_ref(
    w: WalkView,
    fields: Seq<(Seq<char>, Json)>,
    path: Seq<char>,
) -> Seq<(Rule, Seq<char>)> {
    match json::field(fields, "$ref"@) {
        Some(Json::Text(target)) => if !text::begins(target, "#"@) {
            seq![
                (
                    Rule::NonLocalRef,
                    w.label + " schema has a non-local $ref "@ + text::debug_text(target) + " at "@
                        + place(path),
                ),
            ]
        } else if !json::pointer_resolves(Json::Object(w.root), target.skip(1)) {
            seq![
                (
                    Rule::DanglingRef,
                    w.label + " schema $ref "@ + text::debug_text(target) + " at "@ + place(path)
                        + " does not resolve; a wrapper probably swallowed the $defs it points at"@,
                ),
            ]
        } else {
            Seq::empty()
        },
        _ => Seq::empty(),
    }
}

/// A numeric format that a strict consumer does not know.
pub open spec fn strange_format(
    w: WalkView,
    fields: Seq<(Seq<char>, Json)>,
    path: Seq<char>,
) -> Seq<(Rule, Seq<char>)> {
    match number_format(fields) {
        Some(format) => if w.strict && !portable(format) {
            seq![
                (
                    Rule::UnportableFormat,
                    w.label + " schema publishes format "@ + text::debug_text(format) + " at "@
                        + place(path)
                        + "; a strict consumer knows only double / float / int32 / int64 on a number, so declare the field as i64 with #[schemars(range(min = .., max = ..))] and read it back with vibrev_kit::parse_unsigned"@,
                ),
            ]
        } else {
            Seq::empty()
        },
        None => Seq::empty(),
    }
}

/// Optionality spelled as null inside a `type` list.
pub open spec fn null_in_type(
    w: WalkView,
    fields: Seq<(Seq<char>, Json)>,
    path: Seq<char>,
) -> Seq<(Rule, Seq<char>)> {
    if w.flags_null && schema::nullable_type_list(Json::Object(fields)) {
        seq![
            (
                Rule::NullableInputBranch,
                w.label + " schema spells optionality as type: "@ + json::compact_text(
                    json::field(fields, "type"@)->0,
                ) + " at "@ + place(path)
                    + "; an absent argument belongs out of `required`, not in a null branch"@,
            ),
        ]
    } else {
        Seq::empty()
    }
}

/// Optionality spelled as a null branch.
pub open spec fn null_in_branches(
    w: WalkView,
    fields: Seq<(Seq<char>, Json)>,
    path: Seq<char>,
) -> Seq<(Rule, Seq<char>)> {
    match schema::null_position(w.root, Json::Object(fields)) {
        Some(arm) => if w.flags_null {
            seq![
                (
                    Rule::NullableInputBranch,
                    w.label + " schema carries a null branch at "@ + place(path) + ", arm "@
                        + text::decimal(arm as nat)
                        + "; an absent argument belongs out of `required`"@,
                ),
            ]
        } else {
            Seq::empty()
        },
        None => Seq::empty(),
    }
}

/// What is wrong with one object node.
pub open spec fn node_findings(
    w: WalkView,
    fields: Seq<(Seq<char>, Json)>,
    path: Seq<char>,
) -> Seq<(Rule, Seq<char>)> {
    dialect_leak(w, fields, path) + broken_ref(w, fields, path) + strange_format(w, fields, path)
        + null_in_type(w, fields, path) + null_in_branches(w, fields, path)
}

/// What is wrong with a node and everything below it, from the node down.
pub open spec fn walked(w: WalkView, node: Json, path: Seq<char>) -> Seq<(Rule, Seq<char>)>
    decreases node, 0nat,
{
    match node {
        Json::Object(fields) => node_findings(w, fields, path) + walked_fields(
            w,
            fields,
            fields.len(),
            path,
        ),
        Json::List(items) => walked_items(w, items, items.len(), path),
        _ => Seq::empty(),
    }
}

/// What is wrong below the first `count` fields of an object.
pub open spec fn walked_fields(
    w: WalkView,
    fields: Seq<(Seq<char>, Json)>,
    count: nat,
    path: Seq<char>,
) -> Seq<(Rule, Seq<char>)>
    decreases fields, count,
{
    if count == 0 || count > fields.len() {
        Seq::empty()
    } else {
        walked_fields(w, fields, (count - 1) as nat, path) + walked(
            w,
            fields[count - 1].1,
            path + "/"@ + pointer_step(fields[count - 1].0),
        )
    }
}

/// What is wrong below the first `count` items of a list.
pub open spec fn walked_items(
    w: WalkView,
    items: Seq<Json>,
    count: nat,
    path: Seq<char>,
) -> Seq<(Rule, Seq<char>)>
    decreases items, count,
{
    if count == 0 || count > items.len() {
        Seq::empty()
    } else {
        walked_items(w, items, (count - 1) as nat, path) + walked(
            w,
            items[count - 1],
            path + "/"@ + text::decimal((count - 1) as nat),
        )
    }
}

/// The references of a document, from the root down.
pub open spec fn references(node: Json) -> Seq<Seq<char>>
    decreases node, 0nat,
{
    match node {
        Json::Object(fields) => (match json::field(fields, "$ref"@) {
            Some(Json::Text(target)) => seq![target],
            _ => Seq::empty(),
        }) + references_in_fields(fields, fields.len()),
        Json::List(items) => references_in_items(items, items.len()),
        _ => Seq::empty(),
    }
}

/// The references below the first `count` fields of an object.
pub open spec fn references_in_fields(
    fields: Seq<(Seq<char>, Json)>,
    count: nat,
) -> Seq<Seq<char>>
    decreases fields, count,
{
    if count == 0 || count > fields.len() {
        Seq::empty()
    } else {
        references_in_fields(fields, (count - 1) as nat) + references(fields[count - 1].1)
    }
}

/// The references below the first `count` items of a list.
pub open spec fn references_in_items(items: Seq<Json>, count: nat) -> Seq<Seq<char>>
    decreases items, count,
{
    if count == 0 || count > items.len() {
        Seq::empty()
    } else {
        references_in_items(items, (count - 1) as nat) + references(items[count - 1])
    }
}

/// A document being walked, and what was found in it so far.
struct Walk<'x> {
    label: &'x str,
    strict: bool,
    flags_null: bool,
    root: &'x Fields,
    document: &'x JsonValue,
    found: Vec<(Rule, String)>,
    refs: Vec<String>,
}

spec fn pairs(list: Seq<(Rule, String)>) -> Seq<(Rule, Seq<char>)> {
    Seq::new(list.len(), |i: int| (list[i].0, list[i].1@))
}

impl<'x> Walk<'x> {
    spec fn config(&self) -> WalkView {
        WalkView {
            label: self.label@,
            strict: self.strict,
            flags_null: self.flags_null,
            root: self.root.fields(),
        }
    }

    spec fn sound(&self) -> bool {
        self.document.json() == Json::Object(self.root.fields())
    }

    /// Same walk, more found.
    spec fn after(
        &self,
        before: &Self,
        more: Seq<(Rule, Seq<char>)>,
        refs: Seq<Seq<char>>,
    ) -> bool {
        &&& self.sound()
        &&& self.config() == before.config()
        &&& pairs(self.found@) == pairs(before.found@) + more
        &&& text::texts(self.refs@) == text::texts(before.refs@) + refs
    }

    fn note(&mut self, rule: Rule, detail: String)
        requires
            old(self).sound(),
        ensures
            final(self).after(old(self), seq![(rule, detail@)], Seq::empty()),
    {
        let ghost former = self.found@;
        self.found.push((rule, detail));
        assert(pairs(self.found@) =~= pairs(former) + seq![(rule, detail@)]);
        assert(text::texts(self.refs@) =~= text::texts(self.refs@) + Seq::<Seq<char>>::empty());
    }
}

fn location(path: &str) -> (res: &str)
    ensures
        res@ == place(path@),
{
    if path.is_empty() {
        "the root"
    } else {
        path
    }
}

fn is_numeric_type(name: &str) -> (res: bool)
    ensures
        res == numeric_name(name@),
{
    same(name, "integer") || same(name, "number")
}

fn names_a_number(declared: &JsonValue) -> (res: bool)
    ensures
        res == numeric_type(declared.json()),
{
    if let Some(name) = declared.as_str() {
        return is_numeric_type(name);
    }
    if let Some(items) = declared.as_array() {
        let ghost all = json::jsons(items@);
        let mut i: usize = 0;
        while i < items.len()
            invariant
                i <= items.len(),
                all == json::jsons(items@),
                declared.json() == Json::List(all),
                forall|j: int|
                    0 <= j < i ==> !(#[trigger] all[j] is Text && numeric_name(all[j]->Text_0)),
            decreases items.len() - i,
        {
            assert(all[i as int] == items@[i as int].json());
            if let Some(name) = items[i].as_str() {
                if is_numeric_type(name) {
                    assert(all[i as int] is Text && numeric_name(all[i as int]->Text_0));
                    return true;
                }
            }
            i += 1;
        }
    }
    false
}

fn numeric_format(map: &Fields) -> (res: Option<&str>)
    ensures
        match res {
            Some(format) => number_format(map.fields()) == Some(format@),
            None => number_format(map.fields()) is None,
        },
{
    let format = match map.get("format") {
        Some(value) => match value.as_str() {
            Some(format) => format,
            None => return None,
        },
        None => return None,
    };
    match map.get("type") {
        Some(declared) => if names_a_number(declared) {
            Some(format)
        } else {
            None
        },
        None => None,
    }
}

fn is_portable(format: &str) -> (res: bool)
    ensures
        res == portable(format@),
{
    same(format, "double") || same(format, "float") || same(format, "int32") || same(
        format,
        "int64",
    )
}

fn step_of(key: &str) -> (res: String)
    ensures
        res@ == pointer_step(key@),
{
    let chars = chars_of(key);
    let mut out = String::new();
    let mut i: usize = 0;
    while i < chars.len()
        invariant
            i <= chars.len(),
            chars@ == key@,
            out@ == pointer_step(key@.take(i as int)),
        decreases chars.len() - i,
    {
        assert(key@.take(i + 1).drop_last() =~= key@.take(i as int));
        let ghost before = out@;
        if chars[i] == '~' {
            out.append("~0");
        } else if chars[i] == '/' {
            out.append("~1");
        } else {
            out.push(chars[i]);
            assert(out@ =~= before + seq![chars@[i as int]]);
        }
        i += 1;
    }
    assert(key@.take(key@.len() as int) =~= key@);
    out
}

impl<'x> Walk<'x> {
    fn check_dialect(&mut self, map: &Fields, path: &str)
        requires
            old(self).sound(),
        ensures
            final(self).after(
                old(self),
                dialect_leak(old(self).config(), map.fields(), path@),
                Seq::empty(),
            ),
    {
        assert(pairs(self.found@) =~= pairs(self.found@) + Seq::<(Rule, Seq<char>)>::empty());
        assert(text::texts(self.refs@) =~= text::texts(self.refs@) + Seq::<Seq<char>>::empty());
        if map.contains_key("$schema") {
            let mut detail = self.label.to_owned();
            detail.append(" schema leaks $schema at ");
            detail.append(location(path));
            self.note(Rule::SchemaDialectLeak, detail);
        }
    }

    fn check_ref(&mut self, map: &Fields, path: &str)
        requires
            old(self).sound(),
        ensures
            final(self).after(
                old(self),
                broken_ref(old(self).config(), map.fields(), path@),
                (match json::field(map.fields(), "$ref"@) {
                    Some(Json::Text(target)) => seq![target],
                    _ => Seq::empty(),
                }),
            ),
    {
        assert(pairs(self.found@) =~= pairs(self.found@) + Seq::<(Rule, Seq<char>)>::empty());
        assert(text::texts(self.refs@) =~= text::texts(self.refs@) + Seq::<Seq<char>>::empty());
        let target = match map.get("$ref") {
            Some(value) => match value.as_str() {
                Some(target) => target,
                None => return,
            },
            None => return,
        };
        let ghost former = self.refs@;
        self.refs.push(target.to_owned());
        assert(text::texts(self.refs@) =~= text::texts(former) + seq![target@]);
        assert(text::texts(self.refs@) =~= text::texts(self.refs@) + Seq::<Seq<char>>::empty());
        proof {
            reveal_strlit("#");
        }
        match strip_prefix(target, "#") {
            None => {
                let mut detail = self.label.to_owned();
                detail.append(" schema has a non-local $ref ");
                detail.append(quoted(target).as_str());
                detail.append(" at ");
                detail.append(location(path));
                self.note(Rule::NonLocalRef, detail);
            },
            Some(pointer) => {
                if !has_pointer(self.document, pointer) {
                    let mut detail = self.label.to_owned();
                    detail.append(" schema $ref ");
                    detail.append(quoted(target).as_str());
                    detail.append(" at ");
                    detail.append(location(path));
                    detail.append(
                        " does not resolve; a wrapper probably swallowed the $defs it points at",
                    );
                    self.note(Rule::DanglingRef, detail);
                }
            },
        }
    }

    fn check_format(&mut self, map: &Fields, path: &str)
        requires
            old(self).sound(),
        ensures
            final(self).after(
                old(self),
                strange_format(old(self).config(), map.fields(), path@),
                Seq::empty(),
            ),
    {
        assert(pairs(self.found@) =~= pairs(self.found@) + Seq::<(Rule, Seq<char>)>::empty());
        assert(text::texts(self.refs@) =~= text::texts(self.refs@) + Seq::<Seq<char>>::empty());
        if let Some(format) = numeric_format(map) {
            if self.strict && !is_portable(format) {
                let mut detail = self.label.to_owned();
                detail.append(" schema publishes format ");
                detail.append(quoted(format).as_str());
                detail.append(" at ");
                detail.append(location(path));
                detail.append(
                    "; a strict consumer knows only double / float / int32 / int64 on a number, so declare the field as i64 with #[schemars(range(min = .., max = ..))] and read it back with vibrev_kit::parse_unsigned",
                );
                self.note(Rule::UnportableFormat, detail);
            }
        }
    }

    fn check_null(&mut self, node: &JsonValue, map: &Fields, path: &str)
        requires
            old(self).sound(),
            node.json() == Json::Object(map.fields()),
        ensures
            final(self).after(
                old(self),
                null_in_type(old(self).config(), map.fields(), path@) + null_in_branches(
                    old(self).config(),
                    map.fields(),
                    path@,
                ),
                Seq::empty(),
            ),
    {
        let ghost w = self.config();
        let ghost former = pairs(self.found@);
        let ghost one = null_in_type(w, map.fields(), path@);
        let ghost two = null_in_branches(w, map.fields(), path@);
        assert(former =~= former + Seq::<(Rule, Seq<char>)>::empty());
        assert(text::texts(self.refs@) =~= text::texts(self.refs@) + Seq::<Seq<char>>::empty());
        if self.flags_null {
            if has_nullable_type_array(node) {
                if let Some(declared) = map.get("type") {
                    let mut detail = self.label.to_owned();
                    detail.append(" schema spells optionality as type: ");
                    detail.append(to_compact(declared).as_str());
                    detail.append(" at ");
                    detail.append(location(path));
                    detail.append(
                        "; an absent argument belongs out of `required`, not in a null branch",
                    );
                    self.note(Rule::NullableInputBranch, detail);
                }
            }
            assert(pairs(self.found@) =~= former + one);
            if let Some(arm) = null_branch_position(self.root, node) {
                let mut detail = self.label.to_owned();
                detail.append(" schema carries a null branch at ");
                detail.append(location(path));
                detail.append(", arm ");
                detail.append(decimal_of(arm as u64).as_str());
                detail.append("; an absent argument belongs out of `required`");
                self.note(Rule::NullableInputBranch, detail);
            }
            assert(pairs(self.found@) =~= former + one + two);
            assert(former + one + two =~= former + (one + two));
        } else {
            assert(one + two =~= Seq::<(Rule, Seq<char>)>::empty());
        }
    }

    fn check_node(&mut self, node: &JsonValue, map: &Fields, path: &str)
        requires
            old(self).sound(),
            node.json() == Json::Object(map.fields()),
        ensures
            final(self).after(
                old(self),
                node_findings(old(self).config(), map.fields(), path@),
                (match json::field(map.fields(), "$ref"@) {
                    Some(Json::Text(target)) => seq![target],
                    _ => Seq::empty(),
                }),
            ),
    {
        let ghost w = self.config();
        let ghost f0 = pairs(self.found@);
        let ghost r0 = text::texts(self.refs@);
        let ghost f = map.fields();
        self.check_dialect(map, path);
        self.check_ref(map, path);
        self.check_format(map, path);
        self.check_null(node, map, path);
        assert(pairs(self.found@) =~= f0 + node_findings(w, f, path@));
        assert(text::texts(self.refs@) =~= r0 + (match json::field(f, "$ref"@) {
            Some(Json::Text(target)) => seq![target],
            _ => Seq::empty(),
        }));
    }

    /// One pass over a node and everything below it.
    fn visit(&mut self, node: &JsonValue, path: &str)
        requires
            old(self).sound(),
        ensures
            final(self).after(
                old(self),
                walked(old(self).config(), node.json(), path@),
                references(node.json()),
            ),
        decreases node.json(),
    {
        let ghost w = self.config();
        let ghost f0 = pairs(self.found@);
        let ghost r0 = text::texts(self.refs@);
        let ghost doc = node.json();
        match node {
            JsonValue::Object(map) => {
                self.check_node(node, map, path);
                let ghost f = map.fields();
                let ghost f1 = pairs(self.found@);
                let ghost r1 = text::texts(self.refs@);
                assert(f1 =~= f1 + walked_fields(w, f, 0, path@));
                assert(r1 =~= r1 + references_in_fields(f, 0));
                assert(doc == Json::Object(f));
                assert(decreases_to!(doc => doc->Object_0));
                let mut i: usize = 0;
                while i < map.len()
                    invariant
                        i <= f.len(),
                        f == map.fields(),
                        doc == node.json(),
                        doc == Json::Object(f),
                        decreases_to!(doc => doc->Object_0),
                        self.sound(),
                        self.config() == w,
                        pairs(self.found@) == f1 + walked_fields(w, f, i as nat, path@),
                        text::texts(self.refs@) == r1 + references_in_fields(f, i as nat),
                    decreases f.len() - i,
                {
                    let ghost f2 = walked_fields(w, f, i as nat, path@);
                    let ghost r2 = references_in_fields(f, i as nat);
                    let mut below = path.to_owned();
                    below.append("/");
                    below.append(step_of(map.key(i)).as_str());
                    proof {
                        assert(decreases_to!(doc->Object_0 => doc->Object_0[i as int]));
                        assert(decreases_to!(doc->Object_0[i as int] => doc->Object_0[i as int].1));
                    }
                    self.visit(map.value(i), below.as_str());
                    proof {
                        let more = walked(w, f[i as int].1, below@);
                        assert(f1 + f2 + more =~= f1 + (f2 + more));
                        let refs = references(f[i as int].1);
                        assert(r1 + r2 + refs =~= r1 + (r2 + refs));
                    }
                    i += 1;
                }
                assert(pairs(self.found@) =~= f0 + walked(w, doc, path@));
                assert(text::texts(self.refs@) =~= r0 + references(doc));
            },
            JsonValue::List(items) => {
                proof {
                    JsonValue::list_json(*items);
                }
                let ghost all = json::jsons(items@);
                assert(f0 =~= f0 + walked_items(w, all, 0, path@));
                assert(r0 =~= r0 + references_in_items(all, 0));
                assert(doc == Json::List(all));
                assert(decreases_to!(doc => doc->List_0));
                let mut i: usize = 0;
                while i < items.len()
                    invariant
                        i <= all.len(),
                        all == json::jsons(items@),
                        doc == node.json(),
                        doc == Json::List(all),
                        decreases_to!(doc => doc->List_0),
                        self.sound(),
                        self.config() == w,
                        pairs(self.found@) == f0 + walked_items(w, all, i as nat, path@),
                        text::texts(self.refs@) == r0 + references_in_items(all, i as nat),
                    decreases all.len() - i,
                {
                    let ghost f2 = walked_items(w, all, i as nat, path@);
                    let ghost r2 = references_in_items(all, i as nat);
                    let mut below = path.to_owned();
                    below.append("/");
                    below.append(decimal_of(i as u64).as_str());
                    proof {
                        assert(all[i as int] == items@[i as int].json());
                        assert(decreases_to!(doc->List_0 => doc->List_0[i as int]));
                    }
                    self.visit(&items[i], below.as_str());
                    proof {
                        let more = walked(w, all[i as int], below@);
                        assert(f0 + f2 + more =~= f0 + (f2 + more));
                        let refs = references(all[i as int]);
                        assert(r0 + r2 + refs =~= r0 + (r2 + refs));
                    }
                    i += 1;
                }
            },
            _ => {
                proof {
                    node.kinds();
                }
                assert(f0 =~= f0 + walked(w, doc, path@));
                assert(r0 =~= r0 + references(doc));
            },
        }
    }
}

/// The findings of a walk, as findings about the tool.
pub open spec fn as_findings(
    face: Seq<char>,
    name: Seq<char>,
    list: Seq<(Rule, Seq<char>)>,
) -> Seq<FindingView> {
    Seq::new(list.len(), |i: int| tool_finding(face, name, list[i].0, list[i].1))
}

/// One pass over a published document.
fn walk_schema(
    face: &str,
    name: &str,
    side: Face,
    flags_null: bool,
    map: &Fields,
    refs: &mut Vec<String>,
) -> (res: Vec<Finding>)
    ensures
        found(res@) == as_findings(
            face@,
            name@,
            walked(
                WalkView {
                    label: side.label_text(),
                    strict: side is Input,
                    flags_null: flags_null && side is Input,
                    root: map.fields(),
                },
                Json::Object(map.fields()),
                Seq::empty(),
            ),
        ),
        text::texts(final(refs)@) == text::texts(old(refs)@) + references(
            Json::Object(map.fields()),
        ),
{
    let strict = match side {
        Face::Input => true,
        Face::Output => false,
    };
    let document = JsonValue::Object(map.clone());
    let mut walk = Walk {
        label: side.label(),
        strict,
        flags_null: strict && flags_null,
        root: map,
        document: &document,
        found: Vec::new(),
        refs: Vec::new(),
    };
    let ghost w = walk.config();
    assert(pairs(walk.found@) =~= Seq::empty());
    assert(text::texts(walk.refs@) =~= Seq::empty());
    proof {
        reveal_strlit("");
        assert(""@ =~= Seq::empty());
    }
    walk.visit(&document, "");
    let ghost list = walked(w, document.json(), Seq::empty());
    assert(pairs(walk.found@) =~= list);
    let ghost former = text::texts(refs@);
    let ghost more = text::texts(walk.refs@);
    let mut own = walk.refs;
    let ghost r0 = refs@;
    let ghost r1 = own@;
    refs.append(&mut own);
    assert(text::texts(r0 + r1) =~= text::texts(r0) + text::texts(r1));
    assert(more =~= references(document.json()));
    let mut out: Vec<Finding> = Vec::new();
    let mut i: usize = 0;
    while i < walk.found.len()
        invariant
            i <= walk.found.len(),
            pairs(walk.found@) == list,
            found(out@) == as_findings(face@, name@, list).take(i as int),
        decreases walk.found.len() - i,
    {
        let ghost all = as_findings(face@, name@, list);
        let ghost before = out@;
        assert(list[i as int] == (walk.found@[i as int].0, walk.found@[i as int].1@));
        let one = finding(face, name, walk.found[i].0, walk.found[i].1.clone());
        proof {
            found_push(before, one);
            assert(all.take(i + 1) =~= all.take(i as int).push(all[i as int]));
        }
        out.push(one);
        i += 1;
    }
    assert(as_findings(face@, name@, list).take(list.len() as int) =~= as_findings(
        face@,
        name@,
        list,
    ));
    out
}

// ---------------------------------------------------------------------------
// Schemas of one tool
// ---------------------------------------------------------------------------

/// What is wrong inside a tool's input schema.
pub open spec fn input_findings(a: AuditView, t: ToolView) -> Seq<FindingView> {
    as_findings(
        a.face,
        t.name,
        walked(
            WalkView {
                label: "input"@,
                strict: true,
                flags_null: a.no_null_branches,
                root: t.input,
            },
            Json::Object(t.input),
            Seq::empty(),
        ),
    )
}

/// Whether a tool owes an output schema.
pub open spec fn owes_output(owed: Owed, name: Seq<char>) -> bool {
    match owed {
        Owed::Everyone => true,
        Owed::Listed(list) => list.contains(name),
        Owed::Nobody => false,
    }
}

/// A schema that says what it describes.
pub open spec fn describes_something(fields: Seq<(Seq<char>, Json)>) -> bool {
    json::has_field(fields, "type"@) || json::has_field(fields, "anyOf"@) || json::has_field(
        fields,
        "oneOf"@,
    ) || json::has_field(fields, "allOf"@) || json::has_field(fields, "$ref"@)
}

/// What is wrong with a tool's output schema.
pub open spec fn output_findings(a: AuditView, t: ToolView) -> Seq<FindingView> {
    match t.output {
        None => if owes_output(a.owed, t.name) {
            seq![
                tool_finding(
                    a.face,
                    t.name,
                    Rule::MissingOutputSchema,
                    "publishes no outputSchema"@,
                ),
            ]
        } else {
            Seq::empty()
        },
        Some(fields) => (if !describes_something(fields) {
            seq![
                tool_finding(
                    a.face,
                    t.name,
                    Rule::EmptyOutputSchema,
                    "publishes an outputSchema shell that describes nothing"@,
                ),
            ]
        } else {
            Seq::empty()
        }) + as_findings(
            a.face,
            t.name,
            walked(
                WalkView { label: "output"@, strict: false, flags_null: false, root: fields },
                Json::Object(fields),
                Seq::empty(),
            ),
        ),
    }
}

// ---------------------------------------------------------------------------
// Paging
// ---------------------------------------------------------------------------

/// What a chain of keys leads to inside a document.
pub open spec fn descended(doc: Json, keys: Seq<Seq<char>>) -> Option<Json>
    decreases keys.len(),
{
    if keys.len() == 0 {
        Some(doc)
    } else {
        match descended(doc, keys.drop_last()) {
            Some(node) => node.get(keys.last()),
            None => None,
        }
    }
}

/// What a local reference, `#/$defs/Name`, leads to inside its document.
pub open spec fn local_target(
    document: Seq<(Seq<char>, Json)>,
    pointer: Seq<char>,
) -> Option<Json> {
    if text::begins(pointer, "#/"@) {
        descended(Json::Object(document), text::pieces(pointer.skip(2), '/'))
    } else {
        None
    }
}

/// The object a document describes: itself, or what its root reference names.
pub open spec fn described(document: Seq<(Seq<char>, Json)>) -> Seq<(Seq<char>, Json)> {
    match json::field(document, "$ref"@) {
        Some(Json::Text(pointer)) => match local_target(document, pointer) {
            Some(Json::Object(fields)) => fields,
            _ => document,
        },
        _ => document,
    }
}

/// Whether an object schema has a property of this name.
pub open spec fn has_property(node: Seq<(Seq<char>, Json)>, name: Seq<char>) -> bool {
    match json::field(node, "properties"@) {
        Some(Json::Object(properties)) => json::has_field(properties, name),
        _ => false,
    }
}

/// The object that a node describes, its reference followed.
pub open spec fn entry_object(
    document: Seq<(Seq<char>, Json)>,
    node: Json,
) -> Option<Seq<(Seq<char>, Json)>> {
    match node {
        Json::Object(fields) => match json::field(fields, "$ref"@) {
            Some(Json::Text(pointer)) => match local_target(document, pointer) {
                Some(Json::Object(target)) => Some(target),
                _ => None,
            },
            _ => Some(fields),
        },
        _ => None,
    }
}

/// Whether the entries of a list property have a property of this name.
pub open spec fn entries_have(
    document: Seq<(Seq<char>, Json)>,
    property: Json,
    name: Seq<char>,
) -> bool {
    match property.get("items"@) {
        Some(items) => match entry_object(document, items) {
            Some(entry) => has_property(entry, name),
            None => false,
        },
        None => false,
    }
}

/// Whether a response says it on itself, or, where the name can mean nothing
/// else, on the entries of one of its lists.
pub open spec fn says(
    document: Seq<(Seq<char>, Json)>,
    name: Seq<char>,
    on_entries: bool,
) -> bool {
    let root = described(document);
    has_property(root, name) || (on_entries && match json::field(root, "properties"@) {
        Some(Json::Object(properties)) => exists|i: int|
            0 <= i < properties.len() && entries_have(
                document,
                (#[trigger] properties[i]).1,
                name,
            ),
        _ => false,
    })
}

/// A tool that can hold part of its answer back and does not say so.
pub open spec fn paging_findings(face: Seq<char>, t: ToolView) -> Seq<FindingView> {
    if !has_property(described(t.input), "limit"@) || t.output is None {
        Seq::empty()
    } else {
        let output = t.output->0;
        if has_property(described(t.input), "offset"@) {
            if says(output, "next_offset"@, true) {
                Seq::empty()
            } else {
                seq![
                    tool_finding(
                        face,
                        t.name,
                        Rule::SilentTruncation,
                        "takes offset and limit but publishes no next_offset; the caller is invited to page and not told where the next page starts. Build the answer with vibrev_kit::page::Page, which computes it"@,
                    ),
                ]
            }
        } else if says(output, "next_offset"@, true) || says(output, "total"@, false) || says(
            output,
            "truncated"@,
            true,
        ) {
            Seq::empty()
        } else {
            seq![
                tool_finding(
                    face,
                    t.name,
                    Rule::SilentTruncation,
                    "takes a limit and publishes none of next_offset / total / truncated; a full page and the whole answer are the same payload, so the caller cannot tell them apart"@,
                ),
            ]
        }
    }
}

/// Everything wrong with one tool on its own.
pub open spec fn tool_findings(a: AuditView, t: ToolView) -> Seq<FindingView> {
    title_findings(a.face, t) + annotation_findings(a.face, t) + input_findings(a, t)
        + output_findings(a, t) + paging_findings(a.face, t)
}

// ---------------------------------------------------------------------------
// Ratchets
// ---------------------------------------------------------------------------

/// A list in strictly ascending order.
pub open spec fn ascending(list: Seq<Seq<char>>) -> bool {
    forall|i: int|
        0 <= i < list.len() - 1 ==> text::text_before(#[trigger] list[i], list[i + 1])
}

/// Entries of a ratchet that no tool of the surface has.
pub open spec fn stale_entries(
    face: Seq<char>,
    label: Seq<char>,
    list: Seq<Seq<char>>,
    present: Seq<Seq<char>>,
) -> Seq<FindingView>
    decreases list.len(),
{
    if list.len() == 0 {
        Seq::empty()
    } else {
        let before = stale_entries(face, label, list.drop_last(), present);
        if present.contains(list.last()) {
            before
        } else {
            before.push(
                about_surface(
                    face,
                    Rule::StaleRatchetEntry,
                    "the "@ + label + " ratchet names "@ + text::debug_text(list.last())
                        + ", which is not on this surface"@,
                ),
            )
        }
    }
}

/// What is wrong with a ratchet list.
pub open spec fn ratchet_findings(
    face: Seq<char>,
    label: Seq<char>,
    list: Seq<Seq<char>>,
    present: Seq<Seq<char>>,
) -> Seq<FindingView> {
    stale_entries(face, label, list, present) + (if ascending(list) {
        Seq::empty()
    } else {
        seq![
            about_surface(
                face,
                Rule::UnsortedRatchet,
                "keep the "@ + label + " ratchet sorted and deduplicated"@,
            ),
        ]
    })
}

/// Whether an output schema requires a property.
pub open spec fn requires_property(fields: Seq<(Seq<char>, Json)>, name: Seq<char>) -> bool {
    match json::field(fields, "required"@) {
        Some(Json::List(names)) => names.contains(Json::Text(name)),
        _ => false,
    }
}

/// What is wrong with one tool that owes a property.
pub open spec fn property_findings(
    face: Seq<char>,
    property: Seq<char>,
    t: ToolView,
) -> Seq<FindingView> {
    match t.output {
        None => seq![
            tool_finding(
                face,
                t.name,
                Rule::MissingRequiredProperty,
                "owes "@ + text::debug_text(property) + " but publishes no outputSchema at all"@,
            ),
        ],
        Some(fields) => if !has_property(fields, property) {
            seq![
                tool_finding(
                    face,
                    t.name,
                    Rule::MissingRequiredProperty,
                    "does not declare "@ + text::debug_text(property) + " in its outputSchema"@,
                ),
            ]
        } else if !requires_property(fields, property) {
            seq![
                tool_finding(
                    face,
                    t.name,
                    Rule::PropertyNotRequired,
                    "declares "@ + text::debug_text(property)
                        + " but does not require it, so it can go missing from the wire exactly when it matters"@,
                ),
            ]
        } else {
            Seq::empty()
        },
    }
}

/// What is wrong with the tools that owe a property.
pub open spec fn owed_property_findings(
    face: Seq<char>,
    property: Seq<char>,
    owners: Seq<Seq<char>>,
    tools: Seq<ToolView>,
) -> Seq<FindingView>
    decreases tools.len(),
{
    if tools.len() == 0 {
        Seq::empty()
    } else {
        owed_property_findings(face, property, owners, tools.drop_last()) + (if owners.contains(
            tools.last().name,
        ) {
            property_findings(face, property, tools.last())
        } else {
            Seq::empty()
        })
    }
}

/// What is wrong with the required properties and their lists.
pub open spec fn required_findings(
    face: Seq<char>,
    required: Seq<(Seq<char>, Seq<Seq<char>>)>,
    tools: Seq<ToolView>,
) -> Seq<FindingView>
    decreases required.len(),
{
    if required.len() == 0 {
        Seq::empty()
    } else {
        let (property, owners) = required.last();
        required_findings(face, required.drop_last(), tools) + ratchet_findings(
            face,
            property,
            owners,
            tool::names(tools),
        ) + owed_property_findings(face, property, owners, tools)
    }
}

/// What is wrong with the engine's own lists.
pub open spec fn list_findings(a: AuditView, tools: Seq<ToolView>) -> Seq<FindingView> {
    (match a.owed {
        Owed::Listed(list) => ratchet_findings(
            a.face,
            "outputSchema"@,
            list,
            tool::names(tools),
        ),
        _ => Seq::empty(),
    }) + required_findings(a.face, a.required, tools)
}

// ---------------------------------------------------------------------------
// The whole scan
// ---------------------------------------------------------------------------

/// Everything wrong with the tools one by one.
pub open spec fn each_tool(a: AuditView, tools: Seq<ToolView>) -> Seq<FindingView>
    decreases tools.len(),
{
    if tools.len() == 0 {
        Seq::empty()
    } else {
        each_tool(a, tools.drop_last()) + tool_findings(a, tools.last())
    }
}

/// Everything wrong with a surface.
pub open spec fn surface_findings(a: AuditView, tools: Seq<ToolView>) -> Seq<FindingView> {
    if tools.len() == 0 {
        seq![
            about_surface(
                a.face,
                Rule::EmptySurface,
                "the audited catalog is empty, so this test asserts nothing"@,
            ),
        ]
    } else {
        name_findings(a.face, tools) + each_tool(a, tools) + list_findings(a, tools)
    }
}

/// The references in the schemas of the tools.
pub open spec fn surface_references(tools: Seq<ToolView>) -> Seq<Seq<char>>
    decreases tools.len(),
{
    if tools.len() == 0 {
        Seq::empty()
    } else {
        surface_references(tools.drop_last()) + references(Json::Object(tools.last().input)) + (
        match tools.last().output {
            Some(fields) => references(Json::Object(fields)),
            None => Seq::empty(),
        })
    }
}

/// How many tools publish an output schema.
pub open spec fn outputs(tools: Seq<ToolView>) -> nat
    decreases tools.len(),
{
    if tools.len() == 0 {
        0
    } else {
        outputs(tools.drop_last()) + (if tools.last().output is Some {
            1nat
        } else {
            0nat
        })
    }
}

/// What a scan of a catalog looks at.
pub open spec fn looked_at(tools: Seq<ToolView>, counts: Checked) -> bool {
    &&& counts.tools == tools.len()
    &&& counts.input_schemas == tools.len()
    &&& counts.output_schemas == outputs(tools)
    &&& counts.refs == surface_references(tools).len()
}

/// The position of the first difference between two lists, or the length of the
/// shorter one.
pub open spec fn differs_from(a: Seq<Seq<char>>, b: Seq<Seq<char>>, from: int) -> int
    decreases a.len() - from,
{
    if from >= a.len() || from >= b.len() || a[from] != b[from] {
        from
    } else {
        differs_from(a, b, from + 1)
    }
}

/// The finding for the first rebuild, at or after `round`, that lists the tools
/// differently.
pub open spec fn unstable(
    face: Seq<char>,
    builds: Seq<Seq<Seq<char>>>,
    round: int,
) -> Seq<FindingView>
    decreases builds.len() - round,
{
    if round >= builds.len() {
        Seq::empty()
    } else if builds[round] != builds[0] {
        seq![
            about_surface(
                face,
                Rule::UnstableOrder,
                "build #"@ + text::decimal(round as nat)
                    + " listed the tools in a different order than build #0; first divergence at index "@
                    + text::decimal(differs_from(builds[0], builds[round], 0) as nat),
            ),
        ]
    } else {
        unstable(face, builds, round + 1)
    }
}

/// The names of each build of a catalog, as many as are compared.
pub open spec fn build_names<T: Advertised>(
    builds: Seq<Vec<T>>,
    repeats: nat,
) -> Seq<Seq<Seq<char>>> {
    Seq::new(
        if repeats < builds.len() {
            repeats
        } else {
            builds.len()
        },
        |i: int| tool::names(tool::catalog(builds[i]@)),
    )
}

fn says_something(map: &Fields) -> (res: bool)
    ensures
        res == describes_something(map.fields()),
{
    map.contains_key("type") || map.contains_key("anyOf") || map.contains_key("oneOf")
        || map.contains_key("allOf") || map.contains_key("$ref")
}

/// Walks a local JSON Pointer, `#/$defs/Name`, through the document.
fn follow<'x>(document: &'x JsonValue, pointer: &str) -> (res: Option<&'x JsonValue>)
    requires
        document.json() is Object,
    ensures
        match res {
            Some(node) => local_target(document.json()->Object_0, pointer@) == Some(node.json()),
            None => local_target(document.json()->Object_0, pointer@) is None,
        },
{
    proof {
        reveal_strlit("#/");
    }
    let rest = match strip_prefix(pointer, "#/") {
        Some(rest) => rest,
        None => return None,
    };
    let keys = split(rest, '/');
    let ghost all = text::texts(keys@);
    let mut node: &'x JsonValue = document;
    let mut i: usize = 0;
    while i < keys.len()
        invariant
            i <= keys.len(),
            all == text::texts(keys@),
            all == text::pieces(rest@, '/'),
            document.json() is Object,
            local_target(document.json()->Object_0, pointer@) == descended(document.json(), all),
            descended(document.json(), all.take(i as int)) == Some(node.json()),
        decreases keys.len() - i,
    {
        assert(all.take(i + 1).drop_last() =~= all.take(i as int));
        assert(all.take(i + 1).last() == keys@[i as int]@);
        match node.get(keys[i].as_str()) {
            Some(next) => {
                node = next;
            },
            None => {
                proof {
                    dead_end(document.json(), all, i + 1);
                }
                return None;
            },
        }
        i += 1;
    }
    assert(all.take(all.len() as int) =~= all);
    Some(node)
}

proof fn dead_end(doc: Json, keys: Seq<Seq<char>>, n: int)
    requires
        0 <= n <= keys.len(),
        descended(doc, keys.take(n)) is None,
    ensures
        descended(doc, keys) is None,
    decreases keys.len() - n,
{
    if n == keys.len() {
        assert(keys.take(n) =~= keys);
    } else {
        assert(keys.take(n + 1).drop_last() =~= keys.take(n));
        dead_end(doc, keys, n + 1);
    }
}

/// The node a document actually describes: itself, or whatever its root `$ref`
/// points at within the same document.
fn resolve_root<'x>(document: &'x JsonValue, map: &'x Fields) -> (res: &'x Fields)
    requires
        document.json() == Json::Object(map.fields()),
    ensures
        res.fields() == described(map.fields()),
{
    if let Some(value) = map.get("$ref") {
        if let Some(pointer) = value.as_str() {
            if let Some(target) = follow(document, pointer) {
                if let Some(fields) = target.as_object() {
                    return fields;
                }
            }
        }
    }
    map
}

fn declares(node: &Fields, name: &str) -> (res: bool)
    ensures
        res == has_property(node.fields(), name@),
{
    match node.get("properties") {
        Some(value) => match value.as_object() {
            Some(properties) => properties.contains_key(name),
            None => false,
        },
        None => false,
    }
}

fn entries_declare(document: &JsonValue, property: &JsonValue, name: &str) -> (res: bool)
    requires
        document.json() is Object,
    ensures
        res == entries_have(document.json()->Object_0, property.json(), name@),
{
    let items = match property.get("items") {
        Some(items) => items,
        None => return false,
    };
    let fields = match items.as_object() {
        Some(fields) => fields,
        None => return false,
    };
    if let Some(value) = fields.get("$ref") {
        if let Some(pointer) = value.as_str() {
            return match follow(document, pointer) {
                Some(target) => match target.as_object() {
                    Some(entry) => declares(entry, name),
                    None => false,
                },
                None => false,
            };
        }
    }
    declares(fields, name)
}

/// Whether a response says it, on itself or on the entries of one of its lists.
fn page_state(document: &JsonValue, map: &Fields, name: &str, on_entries: bool) -> (res: bool)
    requires
        document.json() == Json::Object(map.fields()),
    ensures
        res == says(map.fields(), name@, on_entries),
{
    let root = resolve_root(document, map);
    if declares(root, name) {
        return true;
    }
    if !on_entries {
        return false;
    }
    let properties = match root.get("properties") {
        Some(value) => match value.as_object() {
            Some(properties) => properties,
            None => return false,
        },
        None => return false,
    };
    let ghost all = properties.fields();
    let mut i: usize = 0;
    while i < properties.len()
        invariant
            i <= all.len(),
            all == properties.fields(),
            document.json() == Json::Object(map.fields()),
            root.fields() == described(map.fields()),
            json::field(root.fields(), "properties"@) == Some(Json::Object(all)),
            on_entries,
            forall|j: int|
                0 <= j < i ==> !entries_have(map.fields(), (#[trigger] all[j]).1, name@),
        decreases all.len() - i,
    {
        if entries_declare(document, properties.value(i), name) {
            assert(entries_have(map.fields(), all[i as int].1, name@));
            return true;
        }
        i += 1;
    }
    false
}

fn check_pagination(face: &str, t: &Tool) -> (res: Vec<Finding>)
    ensures
        found(res@) == paging_findings(face@, t@),
{
    let mut out: Vec<Finding> = Vec::new();
    let input = JsonValue::Object(t.input_schema.clone());
    let takes = match &input {
        JsonValue::Object(map) => resolve_root(&input, map),
        _ => &t.input_schema,
    };
    assert(takes.fields() == described(t@.input));
    assert(found(out@) =~= Seq::empty());
    if !declares(takes, "limit") {
        return out;
    }
    let schema = match &t.output_schema {
        Some(schema) => schema,
        None => return out,
    };
    let output = JsonValue::Object(schema.clone());
    if declares(takes, "offset") {
        if !page_state(&output, schema, "next_offset", true) {
            let one = finding(
                face,
                t.name.as_str(),
                Rule::SilentTruncation,
                "takes offset and limit but publishes no next_offset; the caller is invited to page and not told where the next page starts. Build the answer with vibrev_kit::page::Page, which computes it".to_owned(),
            );
            out.push(one);
            assert(found(out@) =~= seq![one@]);
        }
        return out;
    }
    if !page_state(&output, schema, "next_offset", true) && !page_state(
        &output,
        schema,
        "total",
        false,
    ) && !page_state(&output, schema, "truncated", true) {
        let one = finding(
            face,
            t.name.as_str(),
            Rule::SilentTruncation,
            "takes a limit and publishes none of next_offset / total / truncated; a full page and the whole answer are the same payload, so the caller cannot tell them apart".to_owned(),
        );
        out.push(one);
        assert(found(out@) =~= seq![one@]);
    }
    out
}

fn check_ratchet_list(face: &str, label: &str, list: &[&str], present: &[String]) -> (res: Vec<
    Finding,
>)
    ensures
        found(res@) == ratchet_findings(
            face@,
            label@,
            text::strs(list@),
            text::texts(present@),
        ),
{
    let ghost all = text::strs(list@);
    let ghost here = text::texts(present@);
    let mut out: Vec<Finding> = Vec::new();
    let mut i: usize = 0;
    assert(found(out@) =~= stale_entries(face@, label@, all.take(0), here));
    while i < list.len()
        invariant
            i <= list.len(),
            all == text::strs(list@),
            here == text::texts(present@),
            found(out@) == stale_entries(face@, label@, all.take(i as int), here),
        decreases list.len() - i,
    {
        let ghost former = out@;
        assert(all.take(i + 1).drop_last() =~= all.take(i as int));
        assert(all.take(i + 1).last() == list@[i as int]@);
        if !list_has(present, list[i]) {
            let mut detail = "the ".to_owned();
            detail.append(label);
            detail.append(" ratchet names ");
            detail.append(quoted(list[i]).as_str());
            detail.append(", which is not on this surface");
            let one = surface_finding(face, Rule::StaleRatchetEntry, detail);
            proof {
                found_push(former, one);
            }
            out.push(one);
        }
        i += 1;
    }
    assert(all.take(all.len() as int) =~= all);
    let mut sorted = true;
    let mut j: usize = 1;
    while j < list.len()
        invariant
            1 <= j,
            all == text::strs(list@),
            sorted == (forall|k: int|
                0 <= k < j - 1 && k < all.len() - 1 ==> text::text_before(
                    #[trigger] all[k],
                    all[k + 1],
                )),
        decreases list.len() - j,
    {
        assert(all[j - 1] == list@[j - 1]@ && all[j as int] == list@[j as int]@);
        let pair = is_text_before(list[j - 1], list[j]);
        if !pair {
            assert(!text::text_before(all[j - 1], all[j - 1 + 1]));
            sorted = false;
        }
        j += 1;
    }
    assert(sorted == ascending(all));
    if !sorted {
        let mut detail = "keep the ".to_owned();
        detail.append(label);
        detail.append(" ratchet sorted and deduplicated");
        let one = surface_finding(face, Rule::UnsortedRatchet, detail);
        let ghost former = out@;
        proof {
            found_push(former, one);
        }
        out.push(one);
        assert(found(out@) =~= found(former) + seq![one@]);
    } else {
        assert(found(out@) =~= found(out@) + Seq::<FindingView>::empty());
    }
    out
}

fn check_property(face: &str, property: &str, t: &Tool) -> (res: Vec<Finding>)
    ensures
        found(res@) == property_findings(face@, property@, t@),
{
    let mut out: Vec<Finding> = Vec::new();
    let name = t.name.as_str();
    assert(found(out@) =~= Seq::empty());
    let schema = match &t.output_schema {
        Some(schema) => schema,
        None => {
            let mut detail = "owes ".to_owned();
            detail.append(quoted(property).as_str());
            detail.append(" but publishes no outputSchema at all");
            out.push(finding(face, name, Rule::MissingRequiredProperty, detail));
            assert(found(out@) =~= property_findings(face@, property@, t@));
            return out;
        },
    };
    if !declares(schema, property) {
        let mut detail = "does not declare ".to_owned();
        detail.append(quoted(property).as_str());
        detail.append(" in its outputSchema");
        out.push(finding(face, name, Rule::MissingRequiredProperty, detail));
        assert(found(out@) =~= property_findings(face@, property@, t@));
        return out;
    }
    if !lists_required(schema, property) {
        let mut detail = "declares ".to_owned();
        detail.append(quoted(property).as_str());
        detail.append(
            " but does not require it, so it can go missing from the wire exactly when it matters",
        );
        out.push(finding(face, name, Rule::PropertyNotRequired, detail));
        assert(found(out@) =~= property_findings(face@, property@, t@));
    }
    out
}

fn lists_required(schema: &Fields, property: &str) -> (res: bool)
    ensures
        res == requires_property(schema.fields(), property@),
{
    let names = match schema.get("required") {
        Some(value) => match value.as_array() {
            Some(names) => names,
            None => return false,
        },
        None => return false,
    };
    let ghost all = json::jsons(names@);
    let mut i: usize = 0;
    while i < names.len()
        invariant
            i <= names.len(),
            all == json::jsons(names@),
            json::field(schema.fields(), "required"@) == Some(Json::List(all)),
            forall|j: int| 0 <= j < i ==> #[trigger] all[j] != Json::Text(property@),
        decreases names.len() - i,
    {
        assert(all[i as int] == names@[i as int].json());
        if let Some(name) = names[i].as_str() {
            if same(name, property) {
                assert(all[i as int] == Json::Text(property@));
                return true;
            }
        }
        i += 1;
    }
    false
}

fn names<T: Advertised>(tools: &[T]) -> (res: Vec<String>)
    ensures
        text::texts(res@) == tool::names(tool::catalog(tools@)),
{
    let mut out: Vec<String> = Vec::new();
    let mut i: usize = 0;
    while i < tools.len()
        invariant
            i <= tools.len(),
            out@.len() == i,
            forall|j: int| 0 <= j < i ==> #[trigger] out@[j]@ == tools@[j].advertises().name,
        decreases tools.len() - i,
    {
        out.push(tools[i].advertised().name.clone());
        i += 1;
    }
    assert(text::texts(out@) =~= tool::names(tool::catalog(tools@)));
    out
}

impl<'a> Audit<'a> {
    fn check_output_schema(&self, t: &Tool, refs: &mut Vec<String>) -> (res: Vec<Finding>)
        ensures
            found(res@) == output_findings(self.config(), t@),
            text::texts(final(refs)@) == text::texts(old(refs)@) + (match t@.output {
                Some(fields) => references(Json::Object(fields)),
                None => Seq::empty(),
            }),
    {
        let name = t.name.as_str();
        let mut out: Vec<Finding> = Vec::new();
        let owes = match self.output_schemas {
            OutputSchemas::Required => true,
            OutputSchemas::Staged(list) => crate::text::strs_have(list, name),
            OutputSchemas::Unchecked => false,
        };
        assert(owes == owes_output(self.config().owed, t@.name));
        assert(found(out@) =~= Seq::empty());
        let schema = match &t.output_schema {
            Some(schema) => schema,
            None => {
                if owes {
                    let one = finding(
                        self.face,
                        name,
                        Rule::MissingOutputSchema,
                        "publishes no outputSchema".to_owned(),
                    );
                    out.push(one);
                    assert(found(out@) =~= seq![one@]);
                }
                assert(text::texts(refs@) =~= text::texts(refs@) + Seq::<Seq<char>>::empty());
                return out;
            },
        };
        if !says_something(schema) {
            let one = finding(
                self.face,
                name,
                Rule::EmptyOutputSchema,
                "publishes an outputSchema shell that describes nothing".to_owned(),
            );
            out.push(one);
            assert(found(out@) =~= seq![one@]);
        }
        let ghost first = out@;
        let mut walked = walk_schema(self.face, name, Face::Output, false, schema, refs);
        let ghost second = walked@;
        out.append(&mut walked);
        proof {
            found_concat(first, second);
        }
        out
    }

    fn check_tool(&self, t: &Tool, refs: &mut Vec<String>) -> (res: Vec<Finding>)
        ensures
            found(res@) == tool_findings(self.config(), t@),
            text::texts(final(refs)@) == text::texts(old(refs)@) + references(
                Json::Object(t@.input),
            ) + (match t@.output {
                Some(fields) => references(Json::Object(fields)),
                None => Seq::empty(),
            }),
    {
        let mut out = check_title(self.face, t);
        let ghost f1 = out@;
        let mut annotations = check_annotations(self.face, t);
        let ghost f2 = annotations@;
        out.append(&mut annotations);
        let mut input = walk_schema(
            self.face,
            t.name.as_str(),
            Face::Input,
            self.nullable_input_branches,
            &t.input_schema,
            refs,
        );
        let ghost f3 = input@;
        out.append(&mut input);
        let mut output = self.check_output_schema(t, refs);
        let ghost f4 = output@;
        out.append(&mut output);
        let mut paging = check_pagination(self.face, t);
        let ghost f5 = paging@;
        out.append(&mut paging);
        proof {
            found_concat(f1, f2);
            found_concat(f1 + f2, f3);
            found_concat(f1 + f2 + f3, f4);
            found_concat(f1 + f2 + f3 + f4, f5);
        }
        out
    }

    fn check_ratchets<T: Advertised>(&self, tools: &[T]) -> (res: Vec<Finding>)
        ensures
            found(res@) == list_findings(self.config(), tool::catalog(tools@)),
    {
        let ghost all = tool::catalog(tools@);
        let ghost required = self.config().required;
        let present = names(tools);
        let mut out: Vec<Finding> = Vec::new();
        assert(found(out@) =~= Seq::empty());
        if let OutputSchemas::Staged(list) = self.output_schemas {
            out = check_ratchet_list(self.face, "outputSchema", list, present.as_slice());
        }
        let ghost first = found(out@);
        let mut i: usize = 0;
        assert(first =~= first + required_findings(self.face@, required.take(0), all));
        while i < self.required_properties.len()
            invariant
                i <= self.required_properties.len(),
                all == tool::catalog(tools@),
                required == self.config().required,
                text::texts(present@) == tool::names(all),
                found(out@) == first + required_findings(self.face@, required.take(i as int), all),
            decreases self.required_properties.len() - i,
        {
            let property = self.required_properties[i];
            let ghost former = out@;
            let ghost before = required_findings(self.face@, required.take(i as int), all);
            assert(required.take(i + 1).drop_last() =~= required.take(i as int));
            assert(required.take(i + 1).last() == (property.name@, text::strs(property.tools@)));
            let mut list = check_ratchet_list(
                self.face,
                property.name,
                property.tools,
                present.as_slice(),
            );
            let ghost f1 = list@;
            out.append(&mut list);
            let mut owed = self.check_required_property(property, tools);
            let ghost f2 = owed@;
            out.append(&mut owed);
            proof {
                found_concat(former, f1);
                found_concat(former + f1, f2);
                assert(first + before + found(f1) + found(f2) =~= first + (before + found(f1)
                    + found(f2)));
            }
            i += 1;
        }
        assert(required.take(required.len() as int) =~= required);
        out
    }

    fn check_required_property<T: Advertised>(
        &self,
        required: RequiredProperty<'_>,
        tools: &[T],
    ) -> (res: Vec<Finding>)
        ensures
            found(res@) == owed_property_findings(
                self.config().face,
                required.name@,
                text::strs(required.tools@),
                tool::catalog(tools@),
            ),
    {
        let ghost all = tool::catalog(tools@);
        let ghost owners = text::strs(required.tools@);
        let mut out: Vec<Finding> = Vec::new();
        let mut i: usize = 0;
        assert(found(out@) =~= owed_property_findings(
            self.face@,
            required.name@,
            owners,
            all.take(0),
        ));
        while i < tools.len()
            invariant
                i <= tools.len(),
                all == tool::catalog(tools@),
                owners == text::strs(required.tools@),
                found(out@) == owed_property_findings(
                    self.face@,
                    required.name@,
                    owners,
                    all.take(i as int),
                ),
            decreases tools.len() - i,
        {
            let t = tools[i].advertised();
            let ghost former = out@;
            assert(all.take(i + 1).drop_last() =~= all.take(i as int));
            assert(all.take(i + 1).last() == t@);
            if crate::text::strs_have(required.tools, t.name.as_str()) {
                let mut more = check_property(self.face, required.name, t);
                let ghost f1 = more@;
                out.append(&mut more);
                proof {
                    found_concat(former, f1);
                }
            } else {
                assert(found(out@) =~= found(out@) + Seq::<FindingView>::empty());
            }
            i += 1;
        }
        assert(all.take(all.len() as int) =~= all);
        out
    }

    fn scan<T: Advertised>(&self, tools: &[T]) -> (res: SurfaceReport)
        ensures
            res.all() == surface_findings(self.config(), tool::catalog(tools@)),
            looked_at(tool::catalog(tools@), res.counts()),
    {
        let ghost all = tool::catalog(tools@);
        let ghost a = self.config();
        if tools.len() == 0 {
            let mut findings: Vec<Finding> = Vec::new();
            findings.push(
                surface_finding(
                    self.face,
                    Rule::EmptySurface,
                    "the audited catalog is empty, so this test asserts nothing".to_owned(),
                ),
            );
            assert(found(findings@) =~= surface_findings(a, all));
            return SurfaceReport { findings, checked: Checked::default() };
        }
        let mut findings = check_names_and_titles(self.face, tools);
        let ghost first = found(findings@);
        let mut refs: Vec<String> = Vec::new();
        let mut output_schemas: usize = 0;
        let mut i: usize = 0;
        assert(first =~= first + each_tool(a, all.take(0)));
        assert(text::texts(refs@) =~= surface_references(all.take(0)));
        while i < tools.len()
            invariant
                i <= tools.len(),
                all == tool::catalog(tools@),
                a == self.config(),
                output_schemas <= i,
                output_schemas == outputs(all.take(i as int)),
                found(findings@) == first + each_tool(a, all.take(i as int)),
                text::texts(refs@) == surface_references(all.take(i as int)),
            decreases tools.len() - i,
        {
            let t = tools[i].advertised();
            let ghost former = findings@;
            let ghost before = each_tool(a, all.take(i as int));
            assert(all.take(i + 1).drop_last() =~= all.take(i as int));
            assert(all.take(i + 1).last() == t@);
            let mut more = self.check_tool(t, &mut refs);
            let ghost f1 = more@;
            findings.append(&mut more);
            proof {
                found_concat(former, f1);
                assert(first + before + found(f1) =~= first + (before + found(f1)));
            }
            if t.output_schema.is_some() {
                output_schemas += 1;
            }
            i += 1;
        }
        assert(all.take(all.len() as int) =~= all);
        let ghost second = findings@;
        let mut lists = self.check_ratchets(tools);
        let ghost f2 = lists@;
        findings.append(&mut lists);
        proof {
            found_concat(second, f2);
        }
        assert(text::texts(refs@).len() == refs@.len());
        let checked = Checked {
            tools: tools.len(),
            input_schemas: tools.len(),
            output_schemas,
            refs: refs.len(),
        };
        SurfaceReport { findings, checked }
    }

    /// Scans one catalog.
    #[must_use]
    pub fn run<T: Advertised>(&self, tools: &[T]) -> (res: SurfaceReport)
        ensures
            res.all() == surface_findings(self.config(), tool::catalog(tools@)),
            looked_at(tool::catalog(tools@), res.counts()),
    {
        self.scan(tools)
    }

    /// Scans a catalog that was built several times, and checks that every build
    /// lists the tools in the order of the first.
    ///
    /// Order is part of the surface: clients render a listing in the order they
    /// receive it.
    #[must_use]
    pub fn run_repeated<T: Advertised>(&self, builds: &[Vec<T>]) -> (res: SurfaceReport)
        requires
            builds@.len() >= 1,
        ensures
            res.all() == unstable(
                self.config().face,
                build_names(builds@, self.config().repeats),
                1,
            ) + surface_findings(self.config(), tool::catalog(builds@[0]@)),
            looked_at(tool::catalog(builds@[0]@), res.counts()),
    {
        let baseline = names(builds[0].as_slice());
        let rounds = if self.repeats < builds.len() {
            self.repeats
        } else {
            builds.len()
        };
        let ghost all = build_names(builds@, self.config().repeats);
        let mut report = self.scan(builds[0].as_slice());
        let ghost scanned = report.all();
        let mut round: usize = 1;
        while round < rounds
            invariant
                1 <= round,
                rounds <= builds@.len(),
                all == build_names(builds@, self.config().repeats),
                all.len() == rounds,
                text::texts(baseline@) == all[0] || rounds == 0,
                scanned == report.all(),
                scanned == surface_findings(self.config(), tool::catalog(builds@[0]@)),
                looked_at(tool::catalog(builds@[0]@), report.counts()),
                unstable(self.face@, all, 1) == unstable(self.face@, all, round as int),
            decreases rounds - round,
        {
            let again = names(builds[round].as_slice());
            assert(all[round as int] == text::texts(again@));
            let mut at: usize = 0;
            while at < baseline.len() && at < again.len() && same(
                baseline[at].as_str(),
                again[at].as_str(),
            )
                invariant
                    at <= baseline.len(),
                    at <= again.len(),
                    forall|j: int| 0 <= j < at ==> #[trigger] baseline@[j]@ == again@[j]@,
                    differs_from(text::texts(baseline@), text::texts(again@), 0) == differs_from(
                        text::texts(baseline@),
                        text::texts(again@),
                        at as int,
                    ),
                decreases baseline.len() - at,
            {
                at += 1;
            }
            if at < baseline.len() || at < again.len() {
                assert(text::texts(baseline@) != text::texts(again@)) by {
                    let x = text::texts(baseline@);
                    let y = text::texts(again@);
                    if x.len() == y.len() {
                        assert(x[at as int] != y[at as int]);
                    }
                }
                let mut detail = "build #".to_owned();
                detail.append(decimal_of(round as u64).as_str());
                detail.append(
                    " listed the tools in a different order than build #0; first divergence at index ",
                );
                detail.append(decimal_of(at as u64).as_str());
                let mut findings: Vec<Finding> = Vec::new();
                let one = surface_finding(self.face, Rule::UnstableOrder, detail);
                findings.push(one);
                assert(found(findings@) =~= seq![one@]);
                let ghost f1 = findings@;
                let ghost f2 = report.findings@;
                findings.append(&mut report.findings);
                proof {
                    found_concat(f1, f2);
                }
                return SurfaceReport { findings, checked: report.checked };
            }
            assert(text::texts(baseline@) =~= text::texts(again@));
            round += 1;
        }
        assert(report.all() =~= Seq::<FindingView>::empty() + scanned);
        report
    }
}

/// The whole contract at its defaults, for an engine with nothing to stage.
pub fn audit(tools: &[ToolDef]) -> (res: SurfaceReport)
    ensures
        res.all() == surface_findings(
            AuditView {
                face: "tools"@,
                owed: Owed::Everyone,
                required: Seq::empty(),
                no_null_branches: true,
                repeats: 3,
            },
            tool::catalog(tools@),
        ),
        looked_at(tool::catalog(tools@), res.counts()),
{
    Audit::new("tools").run(tools)
}

/// An empty surface is never clean.
pub proof fn empty_surface_is_a_finding(a: AuditView)
    ensures
        surface_findings(a, Seq::empty()).len() == 1,
        surface_findings(a, Seq::empty())[0].rule == Rule::EmptySurface,
{
}

/// A clean surface has tools, and each of them has a title that is not blank,
/// annotations that say whether it only reads, and, where it owes one, an output
/// schema.
pub proof fn clean_surface_is_complete(a: AuditView, tools: Seq<ToolView>, at: int)
    requires
        surface_findings(a, tools).len() == 0,
        0 <= at < tools.len(),
    ensures
        tools[at].title is Some && text::trimmed(tools[at].title->0).len() > 0,
        tools[at].annotations is Some && tools[at].annotations->0.read_only_hint is Some,
        owes_output(a.owed, tools[at].name) ==> tools[at].output is Some,
        paging_findings(a.face, tools[at]).len() == 0,
{
    assert(each_tool(a, tools).len() == 0);
    each_tool_quiet(a, tools, at);
}

proof fn each_tool_quiet(a: AuditView, tools: Seq<ToolView>, at: int)
    requires
        each_tool(a, tools).len() == 0,
        0 <= at < tools.len(),
    ensures
        tool_findings(a, tools[at]).len() == 0,
    decreases tools.len(),
{
    if at < tools.len() - 1 {
        each_tool_quiet(a, tools.drop_last(), at);
        assert(tools.drop_last()[at] == tools[at]);
    }
}

} // verus!
