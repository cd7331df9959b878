//! JSON Schema to command tree, and parsed matches to tool arguments.
//!
//! The tree that comes out is `<bin> tool <name>`, never `<bin> <name>`: the
//! root belongs to the engine's management commands. A name that an argument
//! parser would resolve by silently dropping a command is refused.

use vstd::prelude::*;

use crate::command;
use crate::command::{Action, ArgSpec, ArgView, CommandSpec, CommandView, Matches, Need};
use crate::json;
use crate::json::{Fields, Json, JsonValue};
use crate::names;
use crate::names::{collect, without};
use crate::schema;
use crate::schema::effective;
use crate::session;
use crate::session::SessionSpec;
use crate::shape;
use crate::shape::{classify, coerce, kebab, range_note, Known, Shape, ShapeView};
use crate::text;
use crate::text::{
    is_text_before, join, list_has, quote_list, quote_strs, same, split_once, strs_have, to_uppercase,
};
use crate::tool;
use crate::tool::{DefView, ToolDef};

verus! {

/// The subcommand every derived tool hangs off.
pub const TOOL_COMMAND: &'static str = "tool";

/// The management-command names assumed for an engine that does not declare its
/// own.
pub open spec fn reserved_names() -> Seq<Seq<char>> {
    seq![
        "batch"@,
        "capabilities"@,
        "doctor"@,
        "help"@,
        "logs"@,
        "mcp"@,
        "serve"@,
        "sessions"@,
        "status"@,
        "tool"@,
        "version"@,
    ]
}

/// The management-command names assumed for an engine that does not declare its
/// own: the common management verbs, and the names the parser generates.
pub fn reserved() -> (res: Vec<&'static str>)
    ensures
        text::strs(res@) == reserved_names(),
{
    let mut out: Vec<&'static str> = Vec::new();
    out.push("batch");
    out.push("capabilities");
    out.push("doctor");
    out.push("help");
    out.push("logs");
    out.push("mcp");
    out.push("serve");
    out.push("sessions");
    out.push("status");
    out.push("tool");
    out.push("version");
    assert(text::strs(out@) =~= reserved_names());
    out
}

/// The caveat of a parameter that is mapped without being understood.
pub const DEGRADED_NOTE: &'static str =
    "[未校验：schema 未声明类型，按单个字符串原样传递；若该参数接受数组，请改用 --json-input]";

// ---------------------------------------------------------------------------
// One tool's command
// ---------------------------------------------------------------------------

/// The properties of a schema.
pub open spec fn properties_in(
    schema: Seq<(Seq<char>, Json)>,
) -> Option<Seq<(Seq<char>, Json)>> {
    match json::field(schema, "properties"@) {
        Some(Json::Object(properties)) => Some(properties),
        _ => None,
    }
}

/// The names a schema requires.
pub open spec fn required_in(schema: Seq<(Seq<char>, Json)>) -> Seq<Seq<char>> {
    match json::field(schema, "required"@) {
        Some(Json::List(items)) => schema::strings(items),
        _ => Seq::empty(),
    }
}

/// The schema property that names a session, if there is one.
pub open spec fn selector_of(session: Option<SessionSpec>) -> Option<Seq<char>> {
    match session {
        Some(spec) => match spec.selector {
            Some(name) => Some(name@),
            None => None,
        },
        None => None,
    }
}

/// The properties that become arguments: all but the session selector.
pub open spec fn mappable(
    properties: Seq<(Seq<char>, Json)>,
    selector: Option<Seq<char>>,
) -> Seq<(Seq<char>, Json)> {
    properties.filter(|entry: (Seq<char>, Json)| Some(entry.0) != selector)
}

/// The hinted parameters, in the order of the hint, or the first hint that names
/// nothing.
pub open spec fn hinted(
    properties: Seq<(Seq<char>, Json)>,
    hints: Seq<Seq<char>>,
) -> Result<Seq<(Seq<char>, Json)>, Seq<char>>
    decreases hints.len(),
{
    if hints.len() == 0 {
        Ok(Seq::empty())
    } else {
        match hinted(properties, hints.drop_last()) {
            Err(want) => Err(want),
            Ok(before) => match json::field(properties, hints.last()) {
                Some(value) => Ok(before.push((hints.last(), value))),
                None => Err(hints.last()),
            },
        }
    }
}

/// The keys of an object.
pub open spec fn keys_of(fields: Seq<(Seq<char>, Json)>) -> Seq<Seq<char>> {
    Seq::new(fields.len(), |i: int| fields[i].0)
}

/// What a hint that names no parameter is told.
pub open spec fn bad_hint(
    name: Seq<char>,
    want: Seq<char>,
    properties: Seq<(Seq<char>, Json)>,
) -> Seq<char> {
    "CLI 提示有误：工具 `"@ + name + "` 的 cli(positional) 里写了 `"@ + want
        + "`，但它的 inputSchema 没有这个参数；已有参数："@ + text::joined(
        keys_of(properties),
        ", "@,
    )
}

/// The parameters in the order their arguments are registered: the hinted ones
/// as the hint has them, then the others in order.
pub open spec fn registration(
    d: DefView,
    properties: Seq<(Seq<char>, Json)>,
) -> Result<Seq<(Seq<char>, Json)>, Seq<char>> {
    match hinted(properties, d.positional) {
        Err(want) => Err(bad_hint(d.tool.name, want, properties)),
        Ok(first) => Ok(
            first + properties.filter(
                |entry: (Seq<char>, Json)| !d.positional.contains(entry.0),
            ),
        ),
    }
}

/// The description of a parameter: its own, or that of the schema it stands for.
pub open spec fn described(outer: Json, inner: Json) -> Seq<char> {
    let own = match outer.get("description"@) {
        Some(value) => Some(value),
        None => inner.get("description"@),
    };
    match own {
        Some(Json::Text(help)) => help,
        _ => Seq::empty(),
    }
}

/// A help line with a note behind it.
pub open spec fn noted(help: Seq<char>, note: Seq<char>) -> Seq<char> {
    if help.len() > 0 {
        help.push(' ') + note
    } else {
        help + note
    }
}

/// The help line of a parameter: its description, the range it has to be in, and
/// what the command line cannot do for it.
pub open spec fn help_line(
    root: Seq<(Seq<char>, Json)>,
    node: Json,
    kind: ShapeView,
) -> Seq<char> {
    let help = described(node, schema::value_schema(root, node));
    match kind {
        ShapeView::Integer { min, max } => match shape::range_words(min, max) {
            Some(note) => noted(help, note),
            None => help,
        },
        _ => if kind.degraded() {
            noted(help, DEGRADED_NOTE@)
        } else {
            help
        },
    }
}

/// When a parameter has to be given: with a file of arguments to stand in for
/// it, only where there is no such file.
pub open spec fn need_of(required: bool, hatch: bool) -> Need {
    if !required {
        Need::Optional
    } else if hatch {
        Need::UnlessJsonInput
    } else {
        Need::Required
    }
}

/// The arguments of one parameter.
pub open spec fn arguments_of(
    d: DefView,
    root: Seq<(Seq<char>, Json)>,
    name: Seq<char>,
    node: Json,
    required: bool,
    hatch: bool,
) -> Seq<ArgView> {
    let kind = shape::shape(root, node);
    let positional = d.positional.contains(name);
    let help = help_line(root, node, kind);
    if kind is Bool && !positional {
        seq![
            ArgView {
                long: Some(shape::kebab_case(name)),
                action: Action::Switch,
                overrides: Some("no-"@ + name),
                help: Some(help),
                ..command::plain_arg(name)
            },
            ArgView {
                long: Some("no-"@ + shape::kebab_case(name)),
                action: Action::Switch,
                overrides: Some(name),
                hidden: true,
                ..command::plain_arg("no-"@ + name)
            },
        ]
    } else {
        seq![
            ArgView {
                long: if positional {
                    None
                } else {
                    Some(shape::kebab_case(name))
                },
                value_name: if positional {
                    Some(text::uppercase(name))
                } else {
                    None
                },
                need: need_of(required, hatch),
                help: if help.len() > 0 {
                    Some(help)
                } else {
                    None
                },
                values: match kind {
                    ShapeView::Enum(values) => values,
                    _ => Seq::empty(),
                },
                action: if kind is Array {
                    Action::AppendMany
                } else {
                    Action::TakeOne
                },
                ..command::plain_arg(name)
            },
        ]
    }
}

/// Whether a parameter cannot be given, or not in full, by a flag.
pub open spec fn needs_hatch(kind: ShapeView) -> bool {
    kind is Opaque || kind.degraded()
}

/// Whether a tool needs a file of arguments to offer everything it takes.
pub open spec fn has_hatch(
    root: Seq<(Seq<char>, Json)>,
    properties: Seq<(Seq<char>, Json)>,
) -> bool {
    exists|i: int|
        0 <= i < properties.len() && needs_hatch(
            shape::shape(root, (#[trigger] properties[i]).1),
        )
}

/// The arguments of the parameters, in order.
pub open spec fn all_arguments(
    d: DefView,
    order: Seq<(Seq<char>, Json)>,
    hatch: bool,
) -> Seq<ArgView>
    decreases order.len(),
{
    if order.len() == 0 {
        Seq::empty()
    } else {
        let before = all_arguments(d, order.drop_last(), hatch);
        let (name, node) = order.last();
        if shape::shape(d.tool.input, node) is Opaque {
            before
        } else {
            before + arguments_of(
                d,
                d.tool.input,
                name,
                node,
                required_in(d.tool.input).contains(name),
                hatch,
            )
        }
    }
}

/// The parameters that no flag can carry.
pub open spec fn opaque_names(
    root: Seq<(Seq<char>, Json)>,
    order: Seq<(Seq<char>, Json)>,
) -> Seq<Seq<char>>
    decreases order.len(),
{
    if order.len() == 0 {
        Seq::empty()
    } else {
        let before = opaque_names(root, order.drop_last());
        if shape::shape(root, order.last().1) is Opaque {
            before.push(order.last().0)
        } else {
            before
        }
    }
}

/// The parameters that a flag carries only in part.
pub open spec fn degraded_names(
    root: Seq<(Seq<char>, Json)>,
    order: Seq<(Seq<char>, Json)>,
) -> Seq<Seq<char>>
    decreases order.len(),
{
    if order.len() == 0 {
        Seq::empty()
    } else {
        let before = degraded_names(root, order.drop_last());
        if shape::shape(root, order.last().1).degraded() {
            before.push(order.last().0)
        } else {
            before
        }
    }
}

/// The note below the help of a tool, where its command line falls short.
pub open spec fn shortfall(
    opaque: Seq<Seq<char>>,
    degraded: Seq<Seq<char>>,
) -> Option<Seq<char>> {
    let first = "参数 "@ + text::joined(opaque, ", "@)
        + " 结构过于复杂，无法映射为命令行选项，请改用 --json-input"@;
    let second = "参数 "@ + text::joined(degraded, ", "@)
        + " 的 schema 没有声明类型：命令行只能按单个字符串原样传递，不做任何校验；若该参数在 MCP 面接受数组，命令行给不了，请改用 --json-input"@;
    if opaque.len() > 0 && degraded.len() > 0 {
        Some("注意："@ + (first + "\n      "@ + second))
    } else if opaque.len() > 0 {
        Some("注意："@ + first)
    } else if degraded.len() > 0 {
        Some("注意："@ + second)
    } else {
        None
    }
}

/// The argument that names a file with the whole of the arguments.
pub open spec fn json_input_arg() -> ArgView {
    ArgView {
        long: Some("json-input"@),
        value_name: Some("FILE"@),
        help: Some("从文件读取完整 JSON 参数（'-' 表示 stdin）"@),
        ..command::plain_arg("__json_input"@)
    }
}

/// The argument that asks for JSON output.
pub open spec fn json_arg() -> ArgView {
    ArgView {
        long: Some("json"@),
        action: Action::Switch,
        help: Some("以 JSON 输出结果"@),
        ..command::plain_arg("__json"@)
    }
}

/// A tool's command with these parameters, in this order.
pub open spec fn leaf_with(
    d: DefView,
    leaf: Seq<char>,
    order: Seq<(Seq<char>, Json)>,
    hatch: bool,
) -> CommandView {
    let note = shortfall(
        opaque_names(d.tool.input, order),
        degraded_names(d.tool.input, order),
    );
    CommandView {
        name: leaf,
        about: d.tool.title,
        long_about: d.tool.description,
        after_help: note,
        needs_subcommand: false,
        args: all_arguments(d, order, hatch) + (if note is Some {
            seq![json_input_arg()]
        } else {
            Seq::empty()
        }) + seq![json_arg()],
        subcommands: Seq::empty(),
    }
}

/// A tool's command, or why it cannot be built.
pub open spec fn leaf_command(
    d: DefView,
    leaf: Seq<char>,
    session: Option<SessionSpec>,
) -> Result<CommandView, Seq<char>> {
    match properties_in(d.tool.input) {
        None => Ok(leaf_with(d, leaf, Seq::empty(), false)),
        Some(properties) => {
            let visible = mappable(properties, selector_of(session));
            match registration(d, visible) {
                Err(message) => Err(message),
                Ok(order) => Ok(
                    leaf_with(d, leaf, order, has_hatch(d.tool.input, visible)),
                ),
            }
        },
    }
}

/// Whether every parameter of a tool has a shape.
pub open spec fn shaped(d: DefView) -> bool {
    match properties_in(d.tool.input) {
        Some(properties) => forall|i: int|
            0 <= i < properties.len() ==> shape::nests(
                d.tool.input,
                (#[trigger] properties[i]).1,
            ),
        None => true,
    }
}

fn properties(schema: &Fields) -> (res: Option<&Fields>)
    ensures
        match res {
            Some(properties) => properties_in(schema.fields()) == Some(properties.fields()),
            None => properties_in(schema.fields()) is None,
        },
{
    match schema.get("properties") {
        Some(value) => value.as_object(),
        None => None,
    }
}

fn required_names(schema: &Fields) -> (res: Vec<String>)
    ensures
        text::texts(res@) == required_in(schema.fields()),
{
    match schema.get("required") {
        Some(value) => match value.as_array() {
            Some(items) => crate::shape::texts_of(items),
            None => {
                let out: Vec<String> = Vec::new();
                assert(text::texts(out@) =~= Seq::empty());
                out
            },
        },
        None => {
            let out: Vec<String> = Vec::new();
            assert(text::texts(out@) =~= Seq::empty());
            out
        },
    }
}

/// A parameter and its schema.
struct Param<'x> {
    name: &'x str,
    node: &'x JsonValue,
}

spec fn params_said(list: Seq<Param<'_>>) -> Seq<(Seq<char>, Json)> {
    Seq::new(list.len(), |i: int| (list[i].name@, list[i].node.json()))
}

fn mappable_properties<'x>(properties: &'x Fields, selector: Option<&'static str>) -> (res: Vec<
    Param<'x>,
>)
    ensures
        params_said(res@) == mappable(
            properties.fields(),
            (match selector {
                Some(name) => Some(name@),
                None => None,
            }),
        ),
{
    let ghost all = properties.fields();
    let ghost hidden = match selector {
        Some(name) => Some(name@),
        None => None,
    };
    let ghost keep = |entry: (Seq<char>, Json)| Some(entry.0) != hidden;
    let mut out: Vec<Param<'x>> = Vec::new();
    let mut i: usize = 0;
    assert(params_said(out@) =~= all.take(0).filter(keep)) by {
        reveal(Seq::filter);
    }
    while i < properties.len()
        invariant
            i <= all.len(),
            all == properties.fields(),
            hidden == (match selector {
                Some(name) => Some(name@),
                None => None,
            }),
            keep == (|entry: (Seq<char>, Json)| Some(entry.0) != hidden),
            params_said(out@) == all.take(i as int).filter(keep),
        decreases all.len() - i,
    {
        let ghost former = out@;
        reveal(Seq::filter);
        assert(all.take(i + 1).drop_last() =~= all.take(i as int));
        assert(all.take(i + 1).last() == all[i as int]);
        let name = properties.key(i);
        let is_selector = match selector {
            Some(hidden) => same(name, hidden),
            None => false,
        };
        if !is_selector {
            out.push(Param { name, node: properties.value(i) });
            assert(params_said(out@) =~= params_said(former).push(all[i as int]));
        }
        i += 1;
    }
    assert(all.take(all.len() as int) =~= all);
    out
}

fn find_param(list: &Vec<Param<'_>>, name: &str) -> (res: Option<usize>)
    ensures
        match res {
            Some(at) => at < list@.len() && json::field(params_said(list@), name@) == Some(
                list@[at as int].node.json(),
            ) && list@[at as int].name@ == name@,
            None => json::field(params_said(list@), name@) is None,
        },
{
    let ghost all = params_said(list@);
    let mut i: usize = 0;
    while i < list.len()
        invariant
            i <= list.len(),
            all == params_said(list@),
            json::position_from(all, name@, 0) == json::position_from(all, name@, i as int),
        decreases list.len() - i,
    {
        assert(all[i as int].0 == list@[i as int].name@);
        if same(list[i].name, name) {
            return Some(i);
        }
        i += 1;
    }
    None
}

fn key_list(list: &Vec<Param<'_>>) -> (res: Vec<String>)
    ensures
        text::texts(res@) == keys_of(params_said(list@)),
{
    let mut out: Vec<String> = Vec::new();
    let mut i: usize = 0;
    while i < list.len()
        invariant
            i <= list.len(),
            out@.len() == i,
            forall|j: int| 0 <= j < i ==> #[trigger] out@[j]@ == list@[j].name@,
        decreases list.len() - i,
    {
        out.push(list[i].name.to_owned());
        i += 1;
    }
    assert(text::texts(out@) =~= keys_of(params_said(list@)));
    out
}

proof fn hint_fails(
    properties: Seq<(Seq<char>, Json)>,
    hints: Seq<Seq<char>>,
    n: int,
)
    requires
        0 <= n <= hints.len(),
        hinted(properties, hints.take(n)) is Err,
    ensures
        hinted(properties, hints) == hinted(properties, hints.take(n)),
    decreases hints.len() - n,
{
    if n == hints.len() {
        assert(hints.take(n) =~= hints);
    } else {
        assert(hints.take(n + 1).drop_last() =~= hints.take(n));
        hint_fails(properties, hints, n + 1);
    }
}

fn registration_order<'x>(d: &ToolDef, visible: &Vec<Param<'x>>) -> (res: Result<
    Vec<Param<'x>>,
    String,
>)
    ensures
        match res {
            Ok(order) => registration(d.said(), params_said(visible@)) == Ok::<
                Seq<(Seq<char>, Json)>,
                Seq<char>,
            >(params_said(order@)),
            Err(message) => registration(d.said(), params_said(visible@)) == Err::<
                Seq<(Seq<char>, Json)>,
                Seq<char>,
            >(message@),
        },
{
    let ghost all = params_said(visible@);
    let ghost hints = d.said().positional;
    let mut order: Vec<Param<'x>> = Vec::new();
    let mut h: usize = 0;
    assert(params_said(order@) =~= Seq::empty());
    while h < d.cli.positional.len()
        invariant
            h <= d.cli.positional@.len(),
            all == params_said(visible@),
            hints == text::strs(d.cli.positional@),
            hints == d.said().positional,
            hinted(all, hints.take(h as int)) == Ok::<Seq<(Seq<char>, Json)>, Seq<char>>(
                params_said(order@),
            ),
        decreases d.cli.positional@.len() - h,
    {
        let want = d.cli.positional[h];
        assert(hints.take(h + 1).drop_last() =~= hints.take(h as int));
        assert(hints.take(h + 1).last() == want@);
        match find_param(visible, want) {
            Some(at) => {
                let ghost former = order@;
                order.push(Param { name: visible[at].name, node: visible[at].node });
                assert(params_said(order@) =~= params_said(former).push(
                    (want@, visible@[at as int].node.json()),
                ));
            },
            None => {
                proof {
                    hint_fails(all, hints, h + 1);
                }
                let mut message = "CLI 提示有误：工具 `".to_owned();
                message.append(d.name());
                message.append("` 的 cli(positional) 里写了 `");
                message.append(want);
                message.append("`，但它的 inputSchema 没有这个参数；已有参数：");
                message.append(join(key_list(visible).as_slice(), ", ").as_str());
                return Err(message);
            },
        }
        h += 1;
    }
    assert(hints.take(hints.len() as int) =~= hints);
    let ghost first = params_said(order@);
    let ghost keep = |entry: (Seq<char>, Json)| !d.said().positional.contains(entry.0);
    let mut i: usize = 0;
    assert(params_said(order@) =~= first + all.take(0).filter(keep)) by {
        reveal(Seq::filter);
    }
    while i < visible.len()
        invariant
            i <= visible.len(),
            all == params_said(visible@),
            hints == d.said().positional,
            keep == (|entry: (Seq<char>, Json)| !d.said().positional.contains(entry.0)),
            params_said(order@) == first + all.take(i as int).filter(keep),
        decreases visible.len() - i,
    {
        let ghost former = order@;
        reveal(Seq::filter);
        let ghost before = all.take(i as int).filter(keep);
        assert(all.take(i + 1).drop_last() =~= all.take(i as int));
        assert(all.take(i + 1).last() == all[i as int]);
        if !strs_have(d.cli.positional, visible[i].name) {
            order.push(Param { name: visible[i].name, node: visible[i].node });
            assert(params_said(order@) =~= params_said(former).push(all[i as int]));
            assert((first + before).push(all[i as int]) =~= first + before.push(all[i as int]));
        }
        i += 1;
    }
    assert(all.take(all.len() as int) =~= all);
    Ok(order)
}

fn help_of(outer: &JsonValue, inner: &JsonValue) -> (res: String)
    ensures
        res@ == described(outer.json(), inner.json()),
{
    let own = match outer.get("description") {
        Some(value) => Some(value),
        None => inner.get("description"),
    };
    match own {
        Some(value) => match value.as_str() {
            Some(help) => help.to_owned(),
            None => String::new(),
        },
        None => String::new(),
    }
}

fn push_note(help: &mut String, note: &str)
    ensures
        final(help)@ == noted(old(help)@, note@),
{
    if !help.as_str().is_empty() {
        help.push(' ');
    }
    help.append(note);
}

/// The arguments of one parameter. A flag that says yes comes with one that says
/// no, so a true default can be overridden.
fn arg_for(
    d: &ToolDef,
    root: &Fields,
    name: &str,
    node: &JsonValue,
    kind: &Shape,
    required: bool,
    hatch: bool,
) -> (res: Vec<ArgSpec>)
    requires
        kind.said() == shape::shape(root.fields(), node.json()),
    ensures
        command::args_said(res@) == arguments_of(
            d.said(),
            root.fields(),
            name@,
            node.json(),
            required,
            hatch,
        ),
{
    let positional = strs_have(d.cli.positional, name);
    let mut help = help_of(node, effective(root, node));
    match kind {
        Shape::Known(Known::Integer { min, max }) => {
            if let Some(note) = range_note(*min, *max) {
                push_note(&mut help, note.as_str());
            }
        },
        _ => {
            if kind.is_degraded() {
                push_note(&mut help, DEGRADED_NOTE);
            }
        },
    }
    assert(help@ == help_line(root.fields(), node.json(), kind.said()));
    let mut out: Vec<ArgSpec> = Vec::new();
    let switch = match kind {
        Shape::Known(Known::Bool) => !positional,
        _ => false,
    };
    if switch {
        let mut other = "no-".to_owned();
        other.append(name);
        let mut other_long = "no-".to_owned();
        other_long.append(kebab(name).as_str());
        let mut yes = ArgSpec::new(name.to_owned());
        yes.long = Some(kebab(name));
        yes.action = Action::Switch;
        yes.overrides = Some(other.clone());
        yes.help = Some(help);
        let mut no = ArgSpec::new(other);
        no.long = Some(other_long);
        no.action = Action::Switch;
        no.overrides = Some(name.to_owned());
        no.hidden = true;
        out.push(yes);
        out.push(no);
        assert(command::args_said(out@) =~= arguments_of(
            d.said(),
            root.fields(),
            name@,
            node.json(),
            required,
            hatch,
        ));
        return out;
    }
    let mut a = ArgSpec::new(name.to_owned());
    if positional {
        a.value_name = Some(to_uppercase(name));
    } else {
        a.long = Some(kebab(name));
    }
    a.need = if !required {
        Need::Optional
    } else if hatch {
        Need::UnlessJsonInput
    } else {
        Need::Required
    };
    if !help.as_str().is_empty() {
        a.help = Some(help);
    }
    match kind {
        Shape::Known(Known::Enum(values)) => {
            a.values = copy_texts(values);
        },
        Shape::Known(Known::Array(_)) => {
            a.action = Action::AppendMany;
        },
        _ => {},
    }
    out.push(a);
    assert(command::args_said(out@) =~= arguments_of(
        d.said(),
        root.fields(),
        name@,
        node.json(),
        required,
        hatch,
    ));
    out
}

fn copy_texts(list: &Vec<String>) -> (res: Vec<String>)
    ensures
        text::texts(res@) == text::texts(list@),
{
    let mut out: Vec<String> = Vec::new();
    let mut i: usize = 0;
    while i < list.len()
        invariant
            i <= list.len(),
            out@.len() == i,
            forall|j: int| 0 <= j < i ==> #[trigger] out@[j]@ == list@[j]@,
        decreases list.len() - i,
    {
        out.push(list[i].clone());
        i += 1;
    }
    assert(text::texts(out@) =~= text::texts(list@));
    out
}

fn json_input() -> (res: ArgSpec)
    ensures
        res@ == json_input_arg(),
{
    let mut a = ArgSpec::new("__json_input".to_owned());
    a.long = Some("json-input".to_owned());
    a.value_name = Some("FILE".to_owned());
    a.help = Some("从文件读取完整 JSON 参数（'-' 表示 stdin）".to_owned());
    a
}

fn json_output() -> (res: ArgSpec)
    ensures
        res@ == json_arg(),
{
    let mut a = ArgSpec::new("__json".to_owned());
    a.long = Some("json".to_owned());
    a.action = Action::Switch;
    a.help = Some("以 JSON 输出结果".to_owned());
    a
}

fn shortfall_note(opaque: &Vec<String>, degraded: &Vec<String>) -> (res: Option<String>)
    ensures
        match res {
            Some(note) => shortfall(text::texts(opaque@), text::texts(degraded@)) == Some(note@),
            None => shortfall(text::texts(opaque@), text::texts(degraded@)) is None,
        },
{
    assert(text::texts(opaque@).len() == opaque@.len());
    assert(text::texts(degraded@).len() == degraded@.len());
    let mut first = "参数 ".to_owned();
    first.append(join(opaque.as_slice(), ", ").as_str());
    first.append(" 结构过于复杂，无法映射为命令行选项，请改用 --json-input");
    let mut second = "参数 ".to_owned();
    second.append(join(degraded.as_slice(), ", ").as_str());
    second.append(
        " 的 schema 没有声明类型：命令行只能按单个字符串原样传递，不做任何校验；若该参数在 MCP 面接受数组，命令行给不了，请改用 --json-input",
    );
    let mut note = "注意：".to_owned();
    if opaque.len() > 0 && degraded.len() > 0 {
        first.append("\n      ");
        first.append(second.as_str());
        note.append(first.as_str());
        Some(note)
    } else if opaque.len() > 0 {
        note.append(first.as_str());
        Some(note)
    } else if degraded.len() > 0 {
        note.append(second.as_str());
        Some(note)
    } else {
        None
    }
}

proof fn filtered_entries(
    fields: Seq<(Seq<char>, Json)>,
    keep: spec_fn((Seq<char>, Json)) -> bool,
    holds: spec_fn(Json) -> bool,
)
    requires
        forall|i: int| 0 <= i < fields.len() ==> holds((#[trigger] fields[i]).1),
    ensures
        forall|i: int|
            0 <= i < fields.filter(keep).len() ==> holds((#[trigger] fields.filter(keep)[i]).1),
    decreases fields.len(),
{
    reveal(Seq::filter);
    if fields.len() > 0 {
        let less = fields.drop_last();
        assert forall|i: int| 0 <= i < less.len() implies holds((#[trigger] less[i]).1) by {
            assert(less[i] == fields[i]);
        }
        filtered_entries(less, keep, holds);
        let before = less.filter(keep);
        let after = fields.filter(keep);
        assert(holds(fields[fields.len() - 1].1));
        assert forall|i: int| 0 <= i < after.len() implies holds((#[trigger] after[i]).1) by {
            if i < before.len() {
                assert(after[i] == before[i]);
            }
        }
    }
}

proof fn hinted_entries(
    fields: Seq<(Seq<char>, Json)>,
    hints: Seq<Seq<char>>,
    holds: spec_fn(Json) -> bool,
)
    requires
        forall|i: int| 0 <= i < fields.len() ==> holds((#[trigger] fields[i]).1),
    ensures
        match hinted(fields, hints) {
            Ok(list) => forall|i: int| 0 <= i < list.len() ==> holds((#[trigger] list[i]).1),
            Err(_) => true,
        },
    decreases hints.len(),
{
    if hints.len() > 0 {
        hinted_entries(fields, hints.drop_last(), holds);
        json::position_bounds(fields, hints.last(), 0);
    }
}

/// Every parameter that is registered is one of the schema's.
proof fn registered_entries(
    d: DefView,
    properties: Seq<(Seq<char>, Json)>,
    selector: Option<Seq<char>>,
    holds: spec_fn(Json) -> bool,
)
    requires
        forall|i: int| 0 <= i < properties.len() ==> holds((#[trigger] properties[i]).1),
    ensures
        forall|i: int|
            0 <= i < mappable(properties, selector).len() ==> holds(
                (#[trigger] mappable(properties, selector)[i]).1,
            ),
        match registration(d, mappable(properties, selector)) {
            Ok(list) => forall|i: int| 0 <= i < list.len() ==> holds((#[trigger] list[i]).1),
            Err(_) => true,
        },
{
    let visible = mappable(properties, selector);
    filtered_entries(
        properties,
        |entry: (Seq<char>, Json)| Some(entry.0) != selector,
        holds,
    );
    hinted_entries(visible, d.positional, holds);
    filtered_entries(
        visible,
        |entry: (Seq<char>, Json)| !d.positional.contains(entry.0),
        holds,
    );
}

fn any_hatch(root: &Fields, visible: &Vec<Param<'_>>) -> (res: bool)
    requires
        forall|i: int|
            0 <= i < visible@.len() ==> shape::nests(
                root.fields(),
                (#[trigger] params_said(visible@)[i]).1,
            ),
    ensures
        res == has_hatch(root.fields(), params_said(visible@)),
{
    let ghost all = params_said(visible@);
    let mut i: usize = 0;
    while i < visible.len()
        invariant
            i <= visible.len(),
            all == params_said(visible@),
            forall|j: int|
                0 <= j < visible@.len() ==> shape::nests(
                    root.fields(),
                    (#[trigger] params_said(visible@)[j]).1,
                ),
            forall|j: int|
                0 <= j < i ==> !needs_hatch(shape::shape(root.fields(), (#[trigger] all[j]).1)),
        decreases visible.len() - i,
    {
        assert(all[i as int] == params_said(visible@)[i as int]);
        let kind = classify(root, visible[i].node);
        if kind.is_opaque() || kind.is_degraded() {
            assert(needs_hatch(shape::shape(root.fields(), all[i as int].1)));
            return true;
        }
        i += 1;
    }
    false
}

/// A tool's command.
fn subcommand(d: &ToolDef, leaf: &str, session: Option<&'static SessionSpec>) -> (res: Result<
    CommandSpec,
    String,
>)
    requires
        shaped(d.said()),
    ensures
        match res {
            Ok(command) => leaf_command(
                d.said(),
                leaf@,
                (match session {
                    Some(spec) => Some(*spec),
                    None => None,
                }),
            ) == Ok::<CommandView, Seq<char>>(command.said()),
            Err(message) => leaf_command(
                d.said(),
                leaf@,
                (match session {
                    Some(spec) => Some(*spec),
                    None => None,
                }),
            ) == Err::<CommandView, Seq<char>>(message@),
        },
{
    let root = &d.tool.input_schema;
    let ghost given = match session {
        Some(spec) => Some(*spec),
        None => None,
    };
    let ghost view = d.said();
    let mut order: Vec<Param<'_>> = Vec::new();
    let mut hatch = false;
    assert(params_said(order@) =~= Seq::empty());
    if let Some(listed) = properties(root) {
        let selector = match session {
            Some(spec) => spec.selector,
            None => None,
        };
        let visible = mappable_properties(listed, selector);
        proof {
            registered_entries(
                view,
                listed.fields(),
                selector_of(given),
                |node: Json| shape::nests(root.fields(), node),
            );
        }
        hatch = any_hatch(root, &visible);
        match registration_order(d, &visible) {
            Ok(list) => {
                order = list;
            },
            Err(message) => return Err(message),
        }
    }
    let required = required_names(root);
    let ghost all = params_said(order@);
    let mut args: Vec<ArgSpec> = Vec::new();
    let mut opaque: Vec<String> = Vec::new();
    let mut degraded: Vec<String> = Vec::new();
    let mut i: usize = 0;
    assert(command::args_said(args@) =~= all_arguments(view, all.take(0), hatch));
    assert(text::texts(opaque@) =~= opaque_names(root.fields(), all.take(0)));
    assert(text::texts(degraded@) =~= degraded_names(root.fields(), all.take(0)));
    while i < order.len()
        invariant
            i <= order.len(),
            all == params_said(order@),
            view == d.said(),
            *root == d.tool.input_schema,
            text::texts(required@) == required_in(root.fields()),
            forall|j: int|
                0 <= j < all.len() ==> shape::nests(root.fields(), (#[trigger] all[j]).1),
            command::args_said(args@) == all_arguments(view, all.take(i as int), hatch),
            text::texts(opaque@) == opaque_names(root.fields(), all.take(i as int)),
            text::texts(degraded@) == degraded_names(root.fields(), all.take(i as int)),
        decreases order.len() - i,
    {
        let name = order[i].name;
        let node = order[i].node;
        assert(all.take(i + 1).drop_last() =~= all.take(i as int));
        assert(all.take(i + 1).last() == all[i as int]);
        assert(all[i as int] == (name@, node.json()));
        let kind = classify(root, node);
        if kind.is_opaque() {
            let ghost former = opaque@;
            opaque.push(name.to_owned());
            assert(text::texts(opaque@) =~= text::texts(former).push(name@));
        } else {
            if kind.is_degraded() {
                let ghost former = degraded@;
                degraded.push(name.to_owned());
                assert(text::texts(degraded@) =~= text::texts(former).push(name@));
            }
            let is_required = list_has(required.as_slice(), name);
            let ghost former = args@;
            let mut more = arg_for(d, root, name, node, &kind, is_required, hatch);
            let ghost added = more@;
            args.append(&mut more);
            assert(command::args_said(args@) =~= command::args_said(former) + command::args_said(
                added,
            ));
        }
        i += 1;
    }
    assert(all.take(all.len() as int) =~= all);
    let note = shortfall_note(&opaque, &degraded);
    let ghost mapped = command::args_said(args@);
    if note.is_some() {
        let ghost former = args@;
        args.push(json_input());
        assert(command::args_said(args@) =~= mapped + seq![json_input_arg()]);
    } else {
        assert(command::args_said(args@) =~= mapped + Seq::<ArgView>::empty());
    }
    let ghost before = command::args_said(args@);
    args.push(json_output());
    assert(command::args_said(args@) =~= before + seq![json_arg()]);
    let res = CommandSpec {
        name: leaf.to_owned(),
        about: crate::tool::clone_text(&d.tool.title),
        long_about: crate::tool::clone_text(&d.tool.description),
        after_help: note,
        needs_subcommand: false,
        args,
        subcommands: Vec::new(),
    };
    proof {
        res.subcommands_said();
        assert(res.said().subcommands =~= Seq::empty());
        assert(leaf_command(view, leaf@, given) == Ok::<CommandView, Seq<char>>(
            leaf_with(view, leaf@, all, hatch),
        ));
        assert(res.said() == leaf_with(view, leaf@, all, hatch));
    }
    Ok(res)
}

// ---------------------------------------------------------------------------
// Where tools hang
// ---------------------------------------------------------------------------

/// Whether a tool name has a group: `group.verb`.
pub open spec fn has_group(name: Seq<char>) -> bool {
    text::index_from(name, '.', 0) < name.len()
}

/// The group of a tool name.
pub open spec fn group_of(name: Seq<char>) -> Seq<char> {
    name.take(text::index_from(name, '.', 0))
}

/// The last level of a tool's command: its verb, or its whole name.
pub open spec fn leaf_name(name: Seq<char>) -> Seq<char> {
    if has_group(name) {
        name.skip(text::index_from(name, '.', 0) + 1)
    } else {
        name
    }
}

/// The tools among the first `n` that hang directly off the tool command.
pub open spec fn flat_tools(defs: Seq<DefView>, n: int) -> Seq<int>
    decreases n,
{
    if n <= 0 {
        Seq::empty()
    } else {
        let before = flat_tools(defs, n - 1);
        if defs[n - 1].enabled && !has_group(defs[n - 1].tool.name) {
            before.push(n - 1)
        } else {
            before
        }
    }
}

/// The first group at or after `from` of this name, or the number of groups.
pub open spec fn group_at(
    groups: Seq<(Seq<char>, Seq<int>)>,
    name: Seq<char>,
    from: int,
) -> int
    decreases groups.len() - from,
{
    if from >= groups.len() {
        groups.len() as int
    } else if groups[from].0 == name {
        from
    } else {
        group_at(groups, name, from + 1)
    }
}

/// Where a new group goes: before the first greater name at or after `from`.
pub open spec fn group_slot(
    groups: Seq<(Seq<char>, Seq<int>)>,
    name: Seq<char>,
    from: int,
) -> int
    decreases groups.len() - from,
{
    if from >= groups.len() {
        groups.len() as int
    } else if text::text_before(name, groups[from].0) {
        from
    } else {
        group_slot(groups, name, from + 1)
    }
}

/// Groups with one more tool in one of them.
pub open spec fn with_member(
    groups: Seq<(Seq<char>, Seq<int>)>,
    name: Seq<char>,
    member: int,
) -> Seq<(Seq<char>, Seq<int>)> {
    let at = group_at(groups, name, 0);
    if at < groups.len() {
        groups.update(at, (name, groups[at].1.push(member)))
    } else {
        groups.insert(group_slot(groups, name, 0), (name, seq![member]))
    }
}

/// The groups of the first `n` tools: names in ascending order, tools in the
/// order of the catalog.
pub open spec fn tool_groups(defs: Seq<DefView>, n: int) -> Seq<(Seq<char>, Seq<int>)>
    decreases n,
{
    if n <= 0 {
        Seq::empty()
    } else {
        let before = tool_groups(defs, n - 1);
        if defs[n - 1].enabled && has_group(defs[n - 1].tool.name) {
            with_member(before, group_of(defs[n - 1].tool.name), n - 1)
        } else {
            before
        }
    }
}

// ---------------------------------------------------------------------------
// Collisions
// ---------------------------------------------------------------------------

/// Who holds a name, at or after `from`.
pub open spec fn holder(
    claims: Seq<(Seq<char>, Seq<char>)>,
    name: Seq<char>,
    from: int,
) -> Option<Seq<char>>
    decreases claims.len() - from,
{
    if from >= claims.len() {
        None
    } else if claims[from].0 == name {
        Some(claims[from].1)
    } else {
        holder(claims, name, from + 1)
    }
}

/// Where the management names come from, in words.
pub open spec fn management_source(declared: bool) -> Seq<char> {
    if declared {
        "引擎声明的管理命令"@
    } else {
        "默认保留名（该引擎未调用 with_management 声明自己的管理命令）"@
    }
}

/// A name taken directly under the tool command, or why it cannot be.
pub open spec fn claim(
    claims: Seq<(Seq<char>, Seq<char>)>,
    head: Seq<char>,
    owner: Seq<char>,
    management: Seq<Seq<char>>,
    declared: bool,
) -> Result<Seq<(Seq<char>, Seq<char>)>, Seq<char>> {
    if head == "help"@ {
        Err(
            "工具名冲突：`"@ + owner
                + "` 会占用 clap 在 `tool` 下自动生成的 `help` 子命令"@,
        )
    } else if management.contains(head) {
        Err(
            "工具名冲突：工具 `"@ + owner + "` 会占用管理命令名 `"@ + head
                + "`，而该名字留给引擎的管理命令（<engine> "@ + head
                + "）。请改 group/verb，或给该工具标 cli(none)。"@ + management_source(declared)
                + ": "@ + text::joined(management, " / "@),
        )
    } else {
        match holder(claims, head, 0) {
            Some(former) => Err(
                "工具名冲突：`"@ + former + "` 与 `"@ + owner + "` 都要占用 `tool "@ + head
                    + "`；clap 会静默丢掉其中一个"@,
            ),
            None => Ok(claims.push((head, owner))),
        }
    }
}

/// A name taken inside a group, or why it cannot be.
pub open spec fn claim_verb(
    claims: Seq<(Seq<char>, Seq<char>)>,
    group: Seq<char>,
    verb: Seq<char>,
    owner: Seq<char>,
) -> Result<Seq<(Seq<char>, Seq<char>)>, Seq<char>> {
    if verb == "help"@ {
        Err("工具名冲突：`"@ + owner + "` 会占用 clap 自动生成的 `help` 子命令"@)
    } else {
        match holder(claims, verb, 0) {
            Some(former) => Err(
                "工具名冲突：`"@ + former + "` 与 `"@ + owner + "` 都解析成 `tool "@ + group
                    + " "@ + verb + "`"@,
            ),
            None => Ok(claims.push((verb, owner))),
        }
    }
}

/// The names that the tools without a group take.
pub open spec fn flat_claims(
    defs: Seq<DefView>,
    flat: Seq<int>,
    management: Seq<Seq<char>>,
    declared: bool,
) -> Result<Seq<(Seq<char>, Seq<char>)>, Seq<char>>
    decreases flat.len(),
{
    if flat.len() == 0 {
        Ok(Seq::empty())
    } else {
        match flat_claims(defs, flat.drop_last(), management, declared) {
            Err(message) => Err(message),
            Ok(claims) => claim(
                claims,
                defs[flat.last()].tool.name,
                defs[flat.last()].tool.name,
                management,
                declared,
            ),
        }
    }
}

/// The names that the tools of a group take inside it.
pub open spec fn verb_claims(
    defs: Seq<DefView>,
    group: Seq<char>,
    list: Seq<int>,
) -> Result<Seq<(Seq<char>, Seq<char>)>, Seq<char>>
    decreases list.len(),
{
    if list.len() == 0 {
        Ok(Seq::empty())
    } else {
        match verb_claims(defs, group, list.drop_last()) {
            Err(message) => Err(message),
            Ok(claims) => claim_verb(
                claims,
                group,
                leaf_name(defs[list.last()].tool.name),
                defs[list.last()].tool.name,
            ),
        }
    }
}

/// The names that the groups take, on top of those already taken.
pub open spec fn group_claims(
    defs: Seq<DefView>,
    taken: Seq<(Seq<char>, Seq<char>)>,
    groups: Seq<(Seq<char>, Seq<int>)>,
    management: Seq<Seq<char>>,
    declared: bool,
) -> Result<Seq<(Seq<char>, Seq<char>)>, Seq<char>>
    decreases groups.len(),
{
    if groups.len() == 0 {
        Ok(taken)
    } else {
        match group_claims(defs, taken, groups.drop_last(), management, declared) {
            Err(message) => Err(message),
            Ok(claims) => {
                let (group, list) = groups.last();
                match claim(claims, group, defs[list[0]].tool.name, management, declared) {
                    Err(message) => Err(message),
                    Ok(more) => match verb_claims(defs, group, list) {
                        Err(message) => Err(message),
                        Ok(_) => Ok(more),
                    },
                }
            },
        }
    }
}

/// Why the names of a catalog cannot all be commands, if they cannot.
pub open spec fn name_collision(
    defs: Seq<DefView>,
    management: Seq<Seq<char>>,
    declared: bool,
) -> Option<Seq<char>> {
    match flat_claims(
        defs,
        flat_tools(defs, defs.len() as int),
        management,
        declared,
    ) {
        Err(message) => Some(message),
        Ok(claims) => match group_claims(
            defs,
            claims,
            tool_groups(defs, defs.len() as int),
            management,
            declared,
        ) {
            Err(message) => Some(message),
            Ok(_) => None,
        },
    }
}

/// What a parameter is told whose flag the session has.
pub open spec fn flag_refusal(
    flag: Seq<char>,
    name: Seq<char>,
    parameter: Seq<char>,
) -> Seq<char> {
    "会话标志冲突：`--"@ + flag + "` 由 SessionSpec 声明，但工具 `"@ + name + "` 的参数 `"@ + parameter
        + "` 也会派生出这个长选项；clap 会静默丢掉其中一个。请改 SessionSpec 的 flag 名。"@
}

/// The first parameter, among the first `n`, that derives a flag the session has.
pub open spec fn parameter_clash(
    flags: Seq<Seq<char>>,
    d: DefView,
    properties: Seq<(Seq<char>, Json)>,
    n: int,
) -> Option<Seq<char>>
    decreases n,
{
    if n <= 0 {
        None
    } else {
        match parameter_clash(flags, d, properties, n - 1) {
            Some(message) => Some(message),
            None => {
                let name = properties[n - 1].0;
                let yes = shape::kebab_case(name);
                let no = "no-"@ + yes;
                if d.positional.contains(name) {
                    None
                } else if flags.contains(yes) {
                    Some(flag_refusal(yes, d.tool.name, name))
                } else if flags.contains(no) {
                    Some(flag_refusal(no, d.tool.name, name))
                } else {
                    None
                }
            },
        }
    }
}

/// The first tool, among the first `n`, with a parameter that derives a flag the
/// session has.
pub open spec fn flag_clash(
    flags: Seq<Seq<char>>,
    defs: Seq<DefView>,
    n: int,
) -> Option<Seq<char>>
    decreases n,
{
    if n <= 0 {
        None
    } else {
        match flag_clash(flags, defs, n - 1) {
            Some(message) => Some(message),
            None => if defs[n - 1].enabled {
                match properties_in(defs[n - 1].tool.input) {
                    Some(properties) => parameter_clash(
                        flags,
                        defs[n - 1],
                        properties,
                        properties.len() as int,
                    ),
                    None => None,
                }
            } else {
                None
            },
        }
    }
}

// ---------------------------------------------------------------------------
// The tree
// ---------------------------------------------------------------------------

/// The commands of some tools, in order.
pub open spec fn leaf_commands(
    defs: Seq<DefView>,
    list: Seq<int>,
    session: Option<SessionSpec>,
) -> Result<Seq<CommandView>, Seq<char>>
    decreases list.len(),
{
    if list.len() == 0 {
        Ok(Seq::empty())
    } else {
        match leaf_commands(defs, list.drop_last(), session) {
            Err(message) => Err(message),
            Ok(before) => match leaf_command(
                defs[list.last()],
                leaf_name(defs[list.last()].tool.name),
                session,
            ) {
                Err(message) => Err(message),
                Ok(leaf) => Ok(before.push(leaf)),
            },
        }
    }
}

/// What is said about a group: the last thing that was declared.
pub open spec fn about_group(
    about: Seq<(Seq<char>, Seq<char>)>,
    group: Seq<char>,
) -> Option<Seq<char>>
    decreases about.len(),
{
    if about.len() == 0 {
        None
    } else if about.last().0 == group {
        Some(about.last().1)
    } else {
        about_group(about.drop_last(), group)
    }
}

/// The commands of the groups, in order.
pub open spec fn group_commands(
    defs: Seq<DefView>,
    groups: Seq<(Seq<char>, Seq<int>)>,
    session: Option<SessionSpec>,
    about: Seq<(Seq<char>, Seq<char>)>,
) -> Result<Seq<CommandView>, Seq<char>>
    decreases groups.len(),
{
    if groups.len() == 0 {
        Ok(Seq::empty())
    } else {
        match group_commands(defs, groups.drop_last(), session, about) {
            Err(message) => Err(message),
            Ok(before) => {
                let (group, list) = groups.last();
                match leaf_commands(defs, list, session) {
                    Err(message) => Err(message),
                    Ok(leaves) => Ok(
                        before.push(
                            CommandView {
                                name: group,
                                about: about_group(about, group),
                                long_about: None,
                                after_help: None,
                                needs_subcommand: true,
                                args: Seq::empty(),
                                subcommands: leaves,
                            },
                        ),
                    ),
                }
            },
        }
    }
}

/// The tool command with everything below it, or why it cannot be built.
pub open spec fn tools_command(
    defs: Seq<DefView>,
    management: Seq<Seq<char>>,
    declared: bool,
    session: Option<SessionSpec>,
    about: Seq<(Seq<char>, Seq<char>)>,
) -> Result<CommandView, Seq<char>> {
    let n = defs.len() as int;
    let clash = match session {
        Some(spec) => flag_clash(session::session_flags(spec), defs, n),
        None => None,
    };
    match name_collision(defs, management, declared) {
        Some(message) => Err(message),
        None => match clash {
            Some(message) => Err(message),
            None => match leaf_commands(defs, flat_tools(defs, n), session) {
                Err(message) => Err(message),
                Ok(flat) => match group_commands(defs, tool_groups(defs, n), session, about) {
                    Err(message) => Err(message),
                    Ok(groups) => Ok(
                        CommandView {
                            name: TOOL_COMMAND@,
                            about: Some("调用引擎工具（每个工具一个子命令）"@),
                            long_about: None,
                            after_help: None,
                            needs_subcommand: true,
                            args: match session {
                                Some(spec) => session::session_args(spec),
                                None => Seq::empty(),
                            },
                            subcommands: flat + groups,
                        },
                    ),
                },
            },
        },
    }
}

/// What an engine may not declare: names the root already has.
pub open spec fn declaration_refusal(names: Seq<Seq<char>>) -> Option<Seq<char>>
    decreases names.len(),
{
    if names.len() == 0 {
        None
    } else {
        match declaration_refusal(names.drop_last()) {
            Some(message) => Some(message),
            None => if names.last() == TOOL_COMMAND@ {
                Some(
                    "管理命令冲突：`tool` 是派生工具子树的根，引擎不能再用它作管理命令；clap 会静默丢掉其中一个"@,
                )
            } else if names.last() == "help"@ {
                Some("管理命令冲突：`help` 由 clap 自动生成，引擎不能再注册同名管理命令"@)
            } else {
                None
            },
        }
    }
}

/// What an engine says of its command tree.
pub struct EngineView {
    pub bin: Seq<char>,
    pub defs: Seq<DefView>,
    pub management: Option<Seq<Seq<char>>>,
    pub session: Option<SessionSpec>,
    pub about: Seq<(Seq<char>, Seq<char>)>,
}

/// An engine's whole command tree, or why it cannot be built.
pub open spec fn engine_command(e: EngineView) -> Result<CommandView, Seq<char>> {
    let refusal = match e.management {
        Some(names) => declaration_refusal(names),
        None => None,
    };
    match refusal {
        Some(message) => Err(message),
        None => {
            let management = match e.management {
                Some(names) => names,
                None => reserved_names(),
            };
            match tools_command(e.defs, management, e.management is Some, e.session, e.about) {
                Err(message) => Err(message),
                Ok(tools) => Ok(
                    CommandView {
                        name: e.bin,
                        about: None,
                        long_about: None,
                        after_help: None,
                        needs_subcommand: true,
                        args: Seq::empty(),
                        subcommands: seq![tools],
                    },
                ),
            }
        },
    }
}

spec fn indices(list: Seq<usize>) -> Seq<int> {
    Seq::new(list.len(), |i: int| list[i] as int)
}

spec fn within(list: Seq<usize>, n: int) -> bool {
    forall|i: int| 0 <= i < list.len() ==> (#[trigger] list[i]) < n
}

/// The tools of each group, by their place in the catalog.
struct Groups {
    list: Vec<(String, Vec<usize>)>,
}

impl Groups {
    spec fn groups(&self) -> Seq<(Seq<char>, Seq<int>)> {
        Seq::new(self.list@.len(), |i: int| (self.list@[i].0@, indices(self.list@[i].1@)))
    }

    /// Every group has a tool, and every tool is one of the first `n`.
    spec fn filled(&self, n: int) -> bool {
        forall|i: int|
            0 <= i < self.list@.len() ==> (#[trigger] self.list@[i]).1@.len() > 0 && within(
                self.list@[i].1@,
                n,
            )
    }

    fn enter(&mut self, name: &str, member: usize)
        requires
            old(self).filled(member as int),
        ensures
            final(self).groups() == with_member(old(self).groups(), name@, member as int),
            final(self).filled(member + 1),
    {
        let ghost before = self.groups();
        let mut at: usize = 0;
        while at < self.list.len()
            invariant
                at <= self.list.len(),
                *self == *old(self),
                self.filled(member as int),
                before == self.groups(),
                group_at(before, name@, 0) == group_at(before, name@, at as int),
            decreases self.list.len() - at,
        {
            assert(before[at as int].0 == self.list@[at as int].0@);
            if same(self.list[at].0.as_str(), name) {
                let ghost former = self.list@;
                let ghost members = self.list@[at as int].1@;
                assert(within(members, member as int));
                let mut entry = (String::new(), Vec::new());
                std::mem::swap(&mut entry, &mut self.list[at]);
                entry.1.push(member);
                assert(indices(entry.1@) =~= indices(members).push(member as int));
                self.list[at] = entry;
                assert(self.groups() =~= before.update(
                    at as int,
                    (name@, before[at as int].1.push(member as int)),
                ));
                assert forall|i: int| 0 <= i < self.list@.len() implies (
                #[trigger] self.list@[i]).1@.len() > 0 && within(
                    self.list@[i].1@,
                    member + 1,
                ) by {
                    if i != at {
                        assert(self.list@[i] == former[i]);
                    }
                }
                return;
            }
            at += 1;
        }
        let mut slot: usize = 0;
        while slot < self.list.len() && !is_text_before(name, self.list[slot].0.as_str())
            invariant
                slot <= self.list.len(),
                *self == *old(self),
                before == self.groups(),
                group_slot(before, name@, 0) == group_slot(before, name@, slot as int),
            decreases self.list.len() - slot,
        {
            assert(before[slot as int].0 == self.list@[slot as int].0@);
            slot += 1;
        }
        if slot < self.list.len() {
            assert(before[slot as int].0 == self.list@[slot as int].0@);
        }
        let ghost former = self.list@;
        let mut members: Vec<usize> = Vec::new();
        members.push(member);
        assert(indices(members@) =~= seq![member as int]);
        self.list.insert(slot, (name.to_owned(), members));
        assert(self.groups() =~= before.insert(slot as int, (name@, seq![member as int])));
        assert forall|i: int| 0 <= i < self.list@.len() implies (#[trigger] self.list@[i]).1@.len()
            > 0 && within(self.list@[i].1@, member + 1) by {
            if i < slot {
                assert(self.list@[i] == former[i]);
            } else if i > slot {
                assert(self.list@[i] == former[i - 1]);
            }
        }
    }
}

/// The tools without a group and the groups, by their place in the catalog.
fn sort_tools(defs: &Vec<ToolDef>) -> (res: (Vec<usize>, Groups))
    ensures
        indices(res.0@) == flat_tools(tool::defs_said(defs@), defs@.len() as int),
        within(res.0@, defs@.len() as int),
        res.1.groups() == tool_groups(tool::defs_said(defs@), defs@.len() as int),
        res.1.filled(defs@.len() as int),
{
    let ghost all = tool::defs_said(defs@);
    let mut flat: Vec<usize> = Vec::new();
    let mut groups = Groups { list: Vec::new() };
    let mut i: usize = 0;
    assert(indices(flat@) =~= flat_tools(all, 0));
    assert(groups.groups() =~= tool_groups(all, 0));
    while i < defs.len()
        invariant
            i <= defs.len(),
            all == tool::defs_said(defs@),
            indices(flat@) == flat_tools(all, i as int),
            within(flat@, i as int),
            groups.groups() == tool_groups(all, i as int),
            groups.filled(i as int),
        decreases defs.len() - i,
    {
        assert(all[i as int] == defs@[i as int].said());
        let ghost former = groups.list@;
        if defs[i].cli.enabled {
            match split_once(defs[i].name(), '.') {
                Some((group, _)) => groups.enter(group, i),
                None => {
                    let ghost before = flat@;
                    flat.push(i);
                    assert(indices(flat@) =~= indices(before).push(i as int));
                    assert(groups.filled(i + 1)) by {
                        assert forall|k: int| 0 <= k < groups.list@.len() implies (
                        #[trigger] groups.list@[k]).1@.len() > 0 && within(
                            groups.list@[k].1@,
                            i + 1,
                        ) by {
                            assert(within(groups.list@[k].1@, i as int));
                        }
                    }
                },
            }
        } else {
            assert(groups.filled(i + 1)) by {
                assert forall|k: int| 0 <= k < groups.list@.len() implies (
                #[trigger] groups.list@[k]).1@.len() > 0 && within(groups.list@[k].1@, i + 1) by {
                    assert(within(groups.list@[k].1@, i as int));
                }
            }
        }
        i += 1;
    }
    (flat, groups)
}

/// The last level of a tool's command.
fn verb_of(d: &ToolDef) -> (res: &str)
    ensures
        res@ == leaf_name(d.said().tool.name),
{
    match split_once(d.name(), '.') {
        Some((_, verb)) => verb,
        None => d.name(),
    }
}

/// Names taken so far, each with the tool that took it.
struct Claims {
    list: Vec<(String, String)>,
}

impl Claims {
    spec fn claims(&self) -> Seq<(Seq<char>, Seq<char>)> {
        Seq::new(self.list@.len(), |i: int| (self.list@[i].0@, self.list@[i].1@))
    }

    fn holder(&self, name: &str) -> (res: Option<&str>)
        ensures
            match res {
                Some(owner) => holder(self.claims(), name@, 0) == Some(owner@),
                None => holder(self.claims(), name@, 0) is None,
            },
    {
        let mut i: usize = 0;
        while i < self.list.len()
            invariant
                i <= self.list.len(),
                holder(self.claims(), name@, 0) == holder(self.claims(), name@, i as int),
            decreases self.list.len() - i,
        {
            assert(self.claims()[i as int] == (
                self.list@[i as int].0@,
                self.list@[i as int].1@,
            ));
            if same(self.list[i].0.as_str(), name) {
                return Some(self.list[i].1.as_str());
            }
            i += 1;
        }
        None
    }

    fn take(&mut self, name: &str, owner: &str)
        ensures
            final(self).claims() == old(self).claims().push((name@, owner@)),
    {
        let ghost before = self.claims();
        self.list.push((name.to_owned(), owner.to_owned()));
        assert(self.claims() =~= before.push((name@, owner@)));
    }

    /// Takes a name directly under the tool command.
    fn claim(&mut self, head: &str, owner: &str, management: &Vec<&'static str>, declared: bool) -> (res:
        Option<String>)
        ensures
            match res {
                Some(message) => claim(
                    old(self).claims(),
                    head@,
                    owner@,
                    text::strs(management@),
                    declared,
                ) == Err::<Seq<(Seq<char>, Seq<char>)>, Seq<char>>(message@),
                None => claim(
                    old(self).claims(),
                    head@,
                    owner@,
                    text::strs(management@),
                    declared,
                ) == Ok::<Seq<(Seq<char>, Seq<char>)>, Seq<char>>(final(self).claims()),
            },
    {
        if same(head, "help") {
            let mut message = "工具名冲突：`".to_owned();
            message.append(owner);
            message.append("` 会占用 clap 在 `tool` 下自动生成的 `help` 子命令");
            return Some(message);
        }
        if strs_have(management.as_slice(), head) {
            let mut message = "工具名冲突：工具 `".to_owned();
            message.append(owner);
            message.append("` 会占用管理命令名 `");
            message.append(head);
            message.append("`，而该名字留给引擎的管理命令（<engine> ");
            message.append(head);
            message.append("）。请改 group/verb，或给该工具标 cli(none)。");
            message.append(
                if declared {
                    "引擎声明的管理命令"
                } else {
                    "默认保留名（该引擎未调用 with_management 声明自己的管理命令）"
                },
            );
            message.append(": ");
            message.append(join(own_all(management).as_slice(), " / ").as_str());
            return Some(message);
        }
        if let Some(former) = self.holder(head) {
            let mut message = "工具名冲突：`".to_owned();
            message.append(former);
            message.append("` 与 `");
            message.append(owner);
            message.append("` 都要占用 `tool ");
            message.append(head);
            message.append("`；clap 会静默丢掉其中一个");
            return Some(message);
        }
        self.take(head, owner);
        None
    }

    /// Takes a name inside a group.
    fn claim_verb(&mut self, group: &str, verb: &str, owner: &str) -> (res: Option<String>)
        ensures
            match res {
                Some(message) => claim_verb(old(self).claims(), group@, verb@, owner@) == Err::<
                    Seq<(Seq<char>, Seq<char>)>,
                    Seq<char>,
                >(message@),
                None => claim_verb(old(self).claims(), group@, verb@, owner@) == Ok::<
                    Seq<(Seq<char>, Seq<char>)>,
                    Seq<char>,
                >(final(self).claims()),
            },
    {
        if same(verb, "help") {
            let mut message = "工具名冲突：`".to_owned();
            message.append(owner);
            message.append("` 会占用 clap 自动生成的 `help` 子命令");
            return Some(message);
        }
        if let Some(former) = self.holder(verb) {
            let mut message = "工具名冲突：`".to_owned();
            message.append(former);
            message.append("` 与 `");
            message.append(owner);
            message.append("` 都解析成 `tool ");
            message.append(group);
            message.append(" ");
            message.append(verb);
            message.append("`");
            return Some(message);
        }
        self.take(verb, owner);
        None
    }
}

fn own_all(list: &Vec<&'static str>) -> (res: Vec<String>)
    ensures
        text::texts(res@) == text::strs(list@),
{
    let mut out: Vec<String> = Vec::new();
    let mut i: usize = 0;
    while i < list.len()
        invariant
            i <= list.len(),
            out@.len() == i,
            forall|j: int| 0 <= j < i ==> #[trigger] out@[j]@ == list@[j]@,
        decreases list.len() - i,
    {
        out.push(list[i].to_owned());
        i += 1;
    }
    assert(text::texts(out@) =~= text::strs(list@));
    out
}

fn reject_verbs(defs: &Vec<ToolDef>, group: &str, list: &Vec<usize>) -> (res: Option<String>)
    requires
        within(list@, defs@.len() as int),
    ensures
        match res {
            Some(message) => verb_claims(tool::defs_said(defs@), group@, indices(list@)) == Err::<
                Seq<(Seq<char>, Seq<char>)>,
                Seq<char>,
            >(message@),
            None => verb_claims(tool::defs_said(defs@), group@, indices(list@)) is Ok,
        },
{
    let ghost all = tool::defs_said(defs@);
    let ghost members = indices(list@);
    let mut claims = Claims { list: Vec::new() };
    let mut failed: Option<String> = None;
    let mut i: usize = 0;
    assert(claims.claims() =~= Seq::empty());
    while i < list.len()
        invariant
            i <= list.len(),
            all == tool::defs_said(defs@),
            members == indices(list@),
            within(list@, defs@.len() as int),
            match failed {
                Some(message) => verb_claims(all, group@, members.take(i as int)) == Err::<
                    Seq<(Seq<char>, Seq<char>)>,
                    Seq<char>,
                >(message@),
                None => verb_claims(all, group@, members.take(i as int)) == Ok::<
                    Seq<(Seq<char>, Seq<char>)>,
                    Seq<char>,
                >(claims.claims()),
            },
        decreases list.len() - i,
    {
        assert(members.take(i + 1).drop_last() =~= members.take(i as int));
        assert(members.take(i + 1).last() == list@[i as int] as int);
        let at = list[i];
        assert(all[at as int] == defs@[at as int].said());
        if failed.is_none() {
            failed = claims.claim_verb(group, verb_of(&defs[at]), defs[at].name());
        }
        i += 1;
    }
    assert(members.take(members.len() as int) =~= members);
    failed
}

/// Refuses any tool name that would be resolved by silently dropping a command.
fn reject_collisions(
    defs: &Vec<ToolDef>,
    flat: &Vec<usize>,
    groups: &Groups,
    management: &Vec<&'static str>,
    declared: bool,
) -> (res: Option<String>)
    requires
        within(flat@, defs@.len() as int),
        groups.filled(defs@.len() as int),
        indices(flat@) == flat_tools(tool::defs_said(defs@), defs@.len() as int),
        groups.groups() == tool_groups(tool::defs_said(defs@), defs@.len() as int),
    ensures
        match res {
            Some(message) => name_collision(
                tool::defs_said(defs@),
                text::strs(management@),
                declared,
            ) == Some(message@),
            None => name_collision(
                tool::defs_said(defs@),
                text::strs(management@),
                declared,
            ) is None,
        },
{
    let ghost all = tool::defs_said(defs@);
    let ghost heads = indices(flat@);
    let ghost names = text::strs(management@);
    let mut claims = Claims { list: Vec::new() };
    let mut failed: Option<String> = None;
    let mut i: usize = 0;
    assert(claims.claims() =~= Seq::empty());
    while i < flat.len()
        invariant
            i <= flat.len(),
            all == tool::defs_said(defs@),
            heads == indices(flat@),
            names == text::strs(management@),
            within(flat@, defs@.len() as int),
            match failed {
                Some(message) => flat_claims(all, heads.take(i as int), names, declared) == Err::<
                    Seq<(Seq<char>, Seq<char>)>,
                    Seq<char>,
                >(message@),
                None => flat_claims(all, heads.take(i as int), names, declared) == Ok::<
                    Seq<(Seq<char>, Seq<char>)>,
                    Seq<char>,
                >(claims.claims()),
            },
        decreases flat.len() - i,
    {
        assert(heads.take(i + 1).drop_last() =~= heads.take(i as int));
        assert(heads.take(i + 1).last() == flat@[i as int] as int);
        let at = flat[i];
        assert(all[at as int] == defs@[at as int].said());
        if failed.is_none() {
            failed = claims.claim(defs[at].name(), defs[at].name(), management, declared);
        }
        i += 1;
    }
    assert(heads.take(heads.len() as int) =~= heads);
    if failed.is_some() {
        return failed;
    }
    let ghost taken = claims.claims();
    let ghost members = groups.groups();
    let mut g: usize = 0;
    while g < groups.list.len()
        invariant
            g <= groups.list.len(),
            all == tool::defs_said(defs@),
            names == text::strs(management@),
            members == groups.groups(),
            groups.filled(defs@.len() as int),
            match failed {
                Some(message) => group_claims(
                    all,
                    taken,
                    members.take(g as int),
                    names,
                    declared,
                ) == Err::<Seq<(Seq<char>, Seq<char>)>, Seq<char>>(message@),
                None => group_claims(all, taken, members.take(g as int), names, declared) == Ok::<
                    Seq<(Seq<char>, Seq<char>)>,
                    Seq<char>,
                >(claims.claims()),
            },
        decreases groups.list.len() - g,
    {
        assert(members.take(g + 1).drop_last() =~= members.take(g as int));
        assert(members.take(g + 1).last() == (
            groups.list@[g as int].0@,
            indices(groups.list@[g as int].1@),
        ));
        if failed.is_none() {
            let group = groups.list[g].0.as_str();
            assert(within(groups.list@[g as int].1@, defs@.len() as int));
            let first = groups.list[g].1[0];
            assert(indices(groups.list@[g as int].1@)[0] == first as int);
            assert(all[first as int] == defs@[first as int].said());
            failed = claims.claim(group, defs[first].name(), management, declared);
            if failed.is_none() {
                failed = reject_verbs(defs, group, &groups.list[g].1);
            }
        }
        g += 1;
    }
    assert(members.take(members.len() as int) =~= members);
    failed
}

fn clashing_parameter(flags: &Vec<&'static str>, d: &ToolDef, listed: &Fields) -> (res: Option<
    String,
>)
    ensures
        match res {
            Some(message) => parameter_clash(
                text::strs(flags@),
                d.said(),
                listed.fields(),
                listed.fields().len() as int,
            ) == Some(message@),
            None => parameter_clash(
                text::strs(flags@),
                d.said(),
                listed.fields(),
                listed.fields().len() as int,
            ) is None,
        },
{
    let ghost all = text::strs(flags@);
    let mut failed: Option<String> = None;
    let mut i: usize = 0;
    while i < listed.len()
        invariant
            i <= listed.fields().len(),
            all == text::strs(flags@),
            match failed {
                Some(message) => parameter_clash(all, d.said(), listed.fields(), i as int) == Some(
                    message@,
                ),
                None => parameter_clash(all, d.said(), listed.fields(), i as int) is None,
            },
        decreases listed.fields().len() - i,
    {
        if failed.is_none() {
            let name = listed.key(i);
            if !strs_have(d.cli.positional, name) {
                let yes = kebab(name);
                let mut no = "no-".to_owned();
                no.append(yes.as_str());
                if strs_have(flags.as_slice(), yes.as_str()) {
                    failed = Some(clash_message(yes.as_str(), d.name(), name));
                } else if strs_have(flags.as_slice(), no.as_str()) {
                    failed = Some(clash_message(no.as_str(), d.name(), name));
                }
            }
        }
        i += 1;
    }
    failed
}

fn clash_message(flag: &str, name: &str, parameter: &str) -> (res: String)
    ensures
        res@ == flag_refusal(flag@, name@, parameter@),
{
    let mut message = "会话标志冲突：`--".to_owned();
    message.append(flag);
    message.append("` 由 SessionSpec 声明，但工具 `");
    message.append(name);
    message.append("` 的参数 `");
    message.append(parameter);
    message.append(
        "` 也会派生出这个长选项；clap 会静默丢掉其中一个。请改 SessionSpec 的 flag 名。",
    );
    message
}

/// Refuses a session flag that a tool's own parameters already spell.
fn reject_session_flag_collisions(spec: &SessionSpec, defs: &Vec<ToolDef>) -> (res: Option<String>)
    ensures
        match res {
            Some(message) => flag_clash(
                session::session_flags(*spec),
                tool::defs_said(defs@),
                defs@.len() as int,
            ) == Some(message@),
            None => flag_clash(
                session::session_flags(*spec),
                tool::defs_said(defs@),
                defs@.len() as int,
            ) is None,
        },
{
    let flags = spec.flags();
    let ghost all = tool::defs_said(defs@);
    let ghost taken = session::session_flags(*spec);
    let mut failed: Option<String> = None;
    let mut i: usize = 0;
    while i < defs.len()
        invariant
            i <= defs.len(),
            all == tool::defs_said(defs@),
            taken == text::strs(flags@),
            match failed {
                Some(message) => flag_clash(taken, all, i as int) == Some(message@),
                None => flag_clash(taken, all, i as int) is None,
            },
        decreases defs.len() - i,
    {
        assert(all[i as int] == defs@[i as int].said());
        if failed.is_none() && defs[i].cli.enabled {
            if let Some(listed) = properties(&defs[i].tool.input_schema) {
                failed = clashing_parameter(&flags, &defs[i], listed);
            }
        }
        i += 1;
    }
    failed
}

spec fn session_said(session: Option<&SessionSpec>) -> Option<SessionSpec> {
    match session {
        Some(spec) => Some(*spec),
        None => None,
    }
}

/// Every tool of the command line has parameters with a shape.
pub open spec fn all_shaped(defs: Seq<DefView>) -> bool {
    forall|i: int| 0 <= i < defs.len() && (#[trigger] defs[i]).enabled ==> shaped(defs[i])
}

/// The tools of a list are on the command line.
spec fn listed_enabled(defs: Seq<DefView>, list: Seq<usize>) -> bool {
    forall|i: int|
        0 <= i < list.len() ==> (#[trigger] list[i]) < defs.len() && defs[list[i] as int].enabled
}

fn leaves(defs: &Vec<ToolDef>, list: &Vec<usize>, session: Option<&'static SessionSpec>) -> (res:
    Result<Vec<CommandSpec>, String>)
    requires
        all_shaped(tool::defs_said(defs@)),
        listed_enabled(tool::defs_said(defs@), list@),
    ensures
        match res {
            Ok(commands) => leaf_commands(
                tool::defs_said(defs@),
                indices(list@),
                session_said(session),
            ) == Ok::<Seq<CommandView>, Seq<char>>(command::commands_said(commands@)),
            Err(message) => leaf_commands(
                tool::defs_said(defs@),
                indices(list@),
                session_said(session),
            ) == Err::<Seq<CommandView>, Seq<char>>(message@),
        },
{
    let ghost all = tool::defs_said(defs@);
    let ghost members = indices(list@);
    let ghost given = session_said(session);
    let mut out: Vec<CommandSpec> = Vec::new();
    let mut failed: Option<String> = None;
    let mut i: usize = 0;
    assert(command::commands_said(out@) =~= Seq::empty());
    while i < list.len()
        invariant
            i <= list.len(),
            all == tool::defs_said(defs@),
            members == indices(list@),
            given == session_said(session),
            all_shaped(all),
            listed_enabled(all, list@),
            match failed {
                Some(message) => leaf_commands(all, members.take(i as int), given) == Err::<
                    Seq<CommandView>,
                    Seq<char>,
                >(message@),
                None => leaf_commands(all, members.take(i as int), given) == Ok::<
                    Seq<CommandView>,
                    Seq<char>,
                >(command::commands_said(out@)),
            },
        decreases list.len() - i,
    {
        assert(members.take(i + 1).drop_last() =~= members.take(i as int));
        assert(members.take(i + 1).last() == list@[i as int] as int);
        let at = list[i];
        assert(all[at as int] == defs@[at as int].said());
        if failed.is_none() {
            match subcommand(&defs[at], verb_of(&defs[at]), session) {
                Ok(command) => {
                    let ghost former = out@;
                    let ghost one = command.said();
                    out.push(command);
                    assert(command::commands_said(out@) =~= command::commands_said(former).push(
                        one,
                    ));
                },
                Err(message) => {
                    failed = Some(message);
                },
            }
        }
        i += 1;
    }
    assert(members.take(members.len() as int) =~= members);
    match failed {
        Some(message) => Err(message),
        None => Ok(out),
    }
}

spec fn pairs_said(list: Seq<(String, String)>) -> Seq<(Seq<char>, Seq<char>)> {
    Seq::new(list.len(), |i: int| (list[i].0@, list[i].1@))
}

fn group_text(about: &Vec<(String, String)>, group: &str) -> (res: Option<String>)
    ensures
        tool::opt_text(res) == about_group(pairs_said(about@), group@),
{
    let ghost all = pairs_said(about@);
    let mut i: usize = about.len();
    assert(all.take(all.len() as int) =~= all);
    while i > 0
        invariant
            i <= about.len(),
            all == pairs_said(about@),
            about_group(all, group@) == about_group(all.take(i as int), group@),
        decreases i,
    {
        i -= 1;
        assert(all.take(i + 1).drop_last() =~= all.take(i as int));
        assert(all.take(i + 1).last() == (about@[i as int].0@, about@[i as int].1@));
        if same(about[i].0.as_str(), group) {
            return Some(about[i].1.clone());
        }
    }
    None
}

proof fn enabled_members(defs: Seq<DefView>, n: int)
    requires
        0 <= n <= defs.len(),
    ensures
        forall|i: int|
            0 <= i < flat_tools(defs, n).len() ==> 0 <= (#[trigger] flat_tools(defs, n)[i]) < n
                && defs[flat_tools(defs, n)[i]].enabled,
        forall|g: int, i: int|
            0 <= g < tool_groups(defs, n).len() && 0 <= i < tool_groups(defs, n)[g].1.len() ==> 0
                <= (#[trigger] tool_groups(defs, n)[g].1[i]) < n && defs[tool_groups(
                defs,
                n,
            )[g].1[i]].enabled,
    decreases n,
{
    if n > 0 {
        enabled_members(defs, n - 1);
        let before = tool_groups(defs, n - 1);
        let after = tool_groups(defs, n);
        if defs[n - 1].enabled && has_group(defs[n - 1].tool.name) {
            let name = group_of(defs[n - 1].tool.name);
            group_places(before, name, 0);
            let at = group_at(before, name, 0);
            let slot = group_slot(before, name, 0);
            assert forall|g: int, i: int|
                0 <= g < after.len() && 0 <= i < after[g].1.len() implies 0 <= (
            #[trigger] after[g].1[i]) < n && defs[after[g].1[i]].enabled by {
                if at < before.len() {
                    if g == at {
                        if i < before[at].1.len() {
                            assert(after[g].1[i] == before[at].1[i]);
                        }
                    } else {
                        assert(after[g] == before[g]);
                        assert(after[g].1[i] == before[g].1[i]);
                    }
                } else {
                    if g < slot {
                        assert(after[g] == before[g]);
                        assert(after[g].1[i] == before[g].1[i]);
                    } else if g > slot {
                        assert(after[g] == before[g - 1]);
                        assert(after[g].1[i] == before[g - 1].1[i]);
                    }
                }
            }
        }
    }
}

proof fn group_places(groups: Seq<(Seq<char>, Seq<int>)>, name: Seq<char>, from: int)
    requires
        0 <= from <= groups.len(),
    ensures
        from <= group_at(groups, name, from) <= groups.len(),
        from <= group_slot(groups, name, from) <= groups.len(),
    decreases groups.len() - from,
{
    if from < groups.len() {
        group_places(groups, name, from + 1);
    }
}

fn group_nodes(
    defs: &Vec<ToolDef>,
    groups: &Groups,
    session: Option<&'static SessionSpec>,
    about: &Vec<(String, String)>,
) -> (res: Result<Vec<CommandSpec>, String>)
    requires
        all_shaped(tool::defs_said(defs@)),
        groups.filled(defs@.len() as int),
        groups.groups() == tool_groups(tool::defs_said(defs@), defs@.len() as int),
    ensures
        match res {
            Ok(commands) => group_commands(
                tool::defs_said(defs@),
                groups.groups(),
                session_said(session),
                pairs_said(about@),
            ) == Ok::<Seq<CommandView>, Seq<char>>(command::commands_said(commands@)),
            Err(message) => group_commands(
                tool::defs_said(defs@),
                groups.groups(),
                session_said(session),
                pairs_said(about@),
            ) == Err::<Seq<CommandView>, Seq<char>>(message@),
        },
{
    let ghost all = tool::defs_said(defs@);
    let ghost members = groups.groups();
    let ghost given = session_said(session);
    let ghost words = pairs_said(about@);
    let mut out: Vec<CommandSpec> = Vec::new();
    let mut failed: Option<String> = None;
    let mut g: usize = 0;
    proof {
        enabled_members(all, defs@.len() as int);
    }
    assert(command::commands_said(out@) =~= Seq::empty());
    while g < groups.list.len()
        invariant
            g <= groups.list.len(),
            all == tool::defs_said(defs@),
            members == groups.groups(),
            members == tool_groups(all, defs@.len() as int),
            given == session_said(session),
            words == pairs_said(about@),
            all_shaped(all),
            groups.filled(defs@.len() as int),
            forall|k: int, i: int|
                0 <= k < members.len() && 0 <= i < members[k].1.len() ==> 0 <= (
                #[trigger] members[k].1[i]) < defs@.len() && all[members[k].1[i]].enabled,
            match failed {
                Some(message) => group_commands(all, members.take(g as int), given, words) == Err::<
                    Seq<CommandView>,
                    Seq<char>,
                >(message@),
                None => group_commands(all, members.take(g as int), given, words) == Ok::<
                    Seq<CommandView>,
                    Seq<char>,
                >(command::commands_said(out@)),
            },
        decreases groups.list.len() - g,
    {
        assert(members.take(g + 1).drop_last() =~= members.take(g as int));
        assert(members.take(g + 1).last() == members[g as int]);
        assert(members[g as int] == (
            groups.list@[g as int].0@,
            indices(groups.list@[g as int].1@),
        ));
        if failed.is_none() {
            let ghost list = groups.list@[g as int].1@;
            assert(listed_enabled(all, list)) by {
                assert forall|i: int| 0 <= i < list.len() implies (#[trigger] list[i]) < all.len()
                    && all[list[i] as int].enabled by {
                    assert(members[g as int].1[i] == list[i] as int);
                }
            }
            match leaves(defs, &groups.list[g].1, session) {
                Ok(subcommands) => {
                    let ghost former = out@;
                    let group = groups.list[g].0.as_str();
                    let node = CommandSpec {
                        name: group.to_owned(),
                        about: group_text(about, group),
                        long_about: None,
                        after_help: None,
                        needs_subcommand: true,
                        args: Vec::new(),
                        subcommands,
                    };
                    proof {
                        node.subcommands_said();
                        assert(node.said().args =~= Seq::empty());
                    }
                    let ghost one = node.said();
                    out.push(node);
                    assert(command::commands_said(out@) =~= command::commands_said(former).push(
                        one,
                    ));
                },
                Err(message) => {
                    failed = Some(message);
                },
            }
        }
        g += 1;
    }
    assert(members.take(members.len() as int) =~= members);
    match failed {
        Some(message) => Err(message),
        None => Ok(out),
    }
}

fn tool_tree(
    defs: &Vec<ToolDef>,
    management: &Vec<&'static str>,
    declared: bool,
    session: Option<&'static SessionSpec>,
    about: &Vec<(String, String)>,
) -> (res: Result<CommandSpec, String>)
    requires
        all_shaped(tool::defs_said(defs@)),
    ensures
        match res {
            Ok(command) => tools_command(
                tool::defs_said(defs@),
                text::strs(management@),
                declared,
                session_said(session),
                pairs_said(about@),
            ) == Ok::<CommandView, Seq<char>>(command.said()),
            Err(message) => tools_command(
                tool::defs_said(defs@),
                text::strs(management@),
                declared,
                session_said(session),
                pairs_said(about@),
            ) == Err::<CommandView, Seq<char>>(message@),
        },
{
    let ghost all = tool::defs_said(defs@);
    let ghost n = defs@.len() as int;
    let (flat, groups) = sort_tools(defs);
    if let Some(message) = reject_collisions(defs, &flat, &groups, management, declared) {
        return Err(message);
    }
    if let Some(spec) = session {
        if let Some(message) = reject_session_flag_collisions(spec, defs) {
            return Err(message);
        }
    }
    proof {
        enabled_members(all, n);
        assert forall|i: int| 0 <= i < flat@.len() implies (#[trigger] flat@[i]) < all.len()
            && all[flat@[i] as int].enabled by {
            assert(flat_tools(all, n)[i] == flat@[i] as int);
        }
    }
    let mut subcommands = match leaves(defs, &flat, session) {
        Ok(list) => list,
        Err(message) => return Err(message),
    };
    let mut grouped = match group_nodes(defs, &groups, session, about) {
        Ok(list) => list,
        Err(message) => return Err(message),
    };
    let ghost first = subcommands@;
    let ghost second = grouped@;
    subcommands.append(&mut grouped);
    assert(command::commands_said(subcommands@) =~= command::commands_said(first)
        + command::commands_said(second));
    let args = match session {
        Some(spec) => spec.args(),
        None => Vec::new(),
    };
    assert(session is None ==> command::args_said(args@) =~= Seq::empty());
    let res = CommandSpec {
        name: TOOL_COMMAND.to_owned(),
        about: Some("调用引擎工具（每个工具一个子命令）".to_owned()),
        long_about: None,
        after_help: None,
        needs_subcommand: true,
        args,
        subcommands,
    };
    proof {
        res.subcommands_said();
    }
    Ok(res)
}

/// Refuses a management name that the root already has.
fn reject_management_collisions(names: &Vec<&'static str>) -> (res: Option<String>)
    ensures
        match res {
            Some(message) => declaration_refusal(text::strs(names@)) == Some(message@),
            None => declaration_refusal(text::strs(names@)) is None,
        },
{
    let ghost all = text::strs(names@);
    let mut failed: Option<String> = None;
    let mut i: usize = 0;
    while i < names.len()
        invariant
            i <= names.len(),
            all == text::strs(names@),
            match failed {
                Some(message) => declaration_refusal(all.take(i as int)) == Some(message@),
                None => declaration_refusal(all.take(i as int)) is None,
            },
        decreases names.len() - i,
    {
        assert(all.take(i + 1).drop_last() =~= all.take(i as int));
        assert(all.take(i + 1).last() == names@[i as int]@);
        if failed.is_none() {
            if same(names[i], TOOL_COMMAND) {
                failed = Some(
                    "管理命令冲突：`tool` 是派生工具子树的根，引擎不能再用它作管理命令；clap 会静默丢掉其中一个".to_owned(),
                );
            } else if same(names[i], "help") {
                failed = Some(
                    "管理命令冲突：`help` 由 clap 自动生成，引擎不能再注册同名管理命令".to_owned(),
                );
            }
        }
        i += 1;
    }
    assert(all.take(all.len() as int) =~= all);
    failed
}

// ---------------------------------------------------------------------------
// An engine's tree
// ---------------------------------------------------------------------------

/// An engine's command tree, before it is built and checked.
///
/// The engine's own commands sit at the root next to [`TOOL_COMMAND`], and only
/// the engine knows what they are called, so it says so through
/// [`EngineCli::with_management`].
pub struct EngineCli {
    bin: &'static str,
    defs: Vec<ToolDef>,
    management: Option<Vec<&'static str>>,
    session: Option<&'static SessionSpec>,
    group_about: Vec<(String, String)>,
}

/// What the pairs of a list say.
pub open spec fn about_said(list: Seq<(&str, &str)>) -> Seq<(Seq<char>, Seq<char>)> {
    Seq::new(list.len(), |i: int| (list[i].0@, list[i].1@))
}

impl EngineCli {
    /// What the engine says of its command tree.
    pub closed spec fn said(&self) -> EngineView {
        EngineView {
            bin: self.bin@,
            defs: tool::defs_said(self.defs@),
            management: match self.management {
                Some(names) => Some(text::strs(names@)),
                None => None,
            },
            session: session_said(self.session),
            about: pairs_said(self.group_about@),
        }
    }

    pub fn new(bin: &'static str, defs: Vec<ToolDef>) -> (res: Self)
        ensures
            res.said() == (EngineView {
                bin: bin@,
                defs: tool::defs_said(defs@),
                management: None,
                session: None,
                about: Seq::empty(),
            }),
    {
        let res = EngineCli {
            bin,
            defs,
            management: None,
            session: None,
            group_about: Vec::new(),
        };
        assert(res.said().about =~= Seq::empty());
        res
    }

    /// Declares that the tools operate on a session: its flags are added to the
    /// tool subtree, and the schema property that names it becomes no flag.
    pub fn with_session(self, spec: &'static SessionSpec) -> (res: Self)
        ensures
            res.said() == (EngineView { session: Some(*spec), ..self.said() }),
    {
        EngineCli { session: Some(spec), ..self }
    }

    /// Names the root-level commands this engine handles itself. The declaration
    /// replaces the assumed names rather than adding to them.
    pub fn with_management(self, names: &[&'static str]) -> (res: Self)
        ensures
            res.said() == (EngineView { management: Some(text::strs(names@)), ..self.said() }),
    {
        let mut list: Vec<&'static str> = Vec::new();
        let mut i: usize = 0;
        while i < names.len()
            invariant
                i <= names.len(),
                list@.len() == i,
                forall|j: int| 0 <= j < i ==> #[trigger] list@[j]@ == names@[j]@,
            decreases names.len() - i,
        {
            list.push(names[i]);
            i += 1;
        }
        assert(text::strs(list@) =~= text::strs(names@));
        EngineCli { management: Some(list), ..self }
    }

    /// Sets what is shown about each group, in place of what was set before.
    pub fn with_group_about(self, about: &[(&str, &str)]) -> (res: Self)
        ensures
            res.said() == (EngineView { about: about_said(about@), ..self.said() }),
    {
        let mut list: Vec<(String, String)> = Vec::new();
        let mut i: usize = 0;
        while i < about.len()
            invariant
                i <= about.len(),
                list@.len() == i,
                forall|j: int|
                    0 <= j < i ==> (#[trigger] list@[j]).0@ == about@[j].0@ && list@[j].1@
                        == about@[j].1@,
            decreases about.len() - i,
        {
            list.push((about[i].0.to_owned(), about[i].1.to_owned()));
            i += 1;
        }
        assert(pairs_said(list@) =~= about_said(about@));
        EngineCli { group_about: list, ..self }
    }

    /// Builds the tree, or says which name would drop a command.
    pub fn command(self) -> (res: Result<CommandSpec, String>)
        requires
            all_shaped(self.said().defs),
        ensures
            match res {
                Ok(command) => engine_command(self.said()) == Ok::<CommandView, Seq<char>>(
                    command.said(),
                ),
                Err(message) => engine_command(self.said()) == Err::<CommandView, Seq<char>>(
                    message@,
                ),
            },
    {
        let ghost view = self.said();
        let declared = self.management.is_some();
        let management = match self.management {
            Some(names) => {
                if let Some(message) = reject_management_collisions(&names) {
                    return Err(message);
                }
                names
            },
            None => reserved(),
        };
        let tools = match tool_tree(
            &self.defs,
            &management,
            declared,
            self.session,
            &self.group_about,
        ) {
            Ok(tools) => tools,
            Err(message) => return Err(message),
        };
        let ghost tree = tools.said();
        let mut subcommands: Vec<CommandSpec> = Vec::new();
        subcommands.push(tools);
        let res = CommandSpec {
            name: self.bin.to_owned(),
            about: None,
            long_about: None,
            after_help: None,
            needs_subcommand: true,
            args: Vec::new(),
            subcommands,
        };
        proof {
            res.subcommands_said();
            assert(res.said().subcommands =~= seq![tree]);
            assert(res.said().args =~= Seq::empty());
        }
        Ok(res)
    }
}

/// Builds the whole command tree with the assumed management names.
pub fn build(bin: &'static str, defs: Vec<ToolDef>) -> (res: Result<CommandSpec, String>)
    requires
        all_shaped(tool::defs_said(defs@)),
    ensures
        match res {
            Ok(command) => engine_command(
                EngineView {
                    bin: bin@,
                    defs: tool::defs_said(defs@),
                    management: None,
                    session: None,
                    about: Seq::empty(),
                },
            ) == Ok::<CommandView, Seq<char>>(command.said()),
            Err(message) => engine_command(
                EngineView {
                    bin: bin@,
                    defs: tool::defs_said(defs@),
                    management: None,
                    session: None,
                    about: Seq::empty(),
                },
            ) == Err::<CommandView, Seq<char>>(message@),
        },
{
    EngineCli::new(bin, defs).command()
}

/// The names at a finished root that are management commands: all but the tool
/// subtree and the generated help.
pub open spec fn management_in(subcommands: Seq<CommandView>) -> Seq<Seq<char>>
    decreases subcommands.len(),
{
    if subcommands.len() == 0 {
        Seq::empty()
    } else {
        let before = management_in(subcommands.drop_last());
        let name = subcommands.last().name;
        if name != TOOL_COMMAND@ && name != "help"@ {
            before.push(name)
        } else {
            before
        }
    }
}

/// The management commands at the root of a finished tree, in ascending order.
pub fn root_management_names(cmd: &CommandSpec) -> (res: Vec<String>)
    ensures
        text::texts(res@) == names::set_of(management_in(cmd.said().subcommands)),
{
    let ghost all = command::commands_said(cmd.subcommands@);
    proof {
        cmd.subcommands_said();
    }
    let mut out: Vec<String> = Vec::new();
    let mut i: usize = 0;
    assert(text::texts(out@) =~= management_in(all.take(0)));
    while i < cmd.subcommands.len()
        invariant
            i <= cmd.subcommands.len(),
            all == command::commands_said(cmd.subcommands@),
            text::texts(out@) == management_in(all.take(i as int)),
        decreases cmd.subcommands.len() - i,
    {
        let ghost former = out@;
        assert(all.take(i + 1).drop_last() =~= all.take(i as int));
        assert(all.take(i + 1).last() == cmd.subcommands@[i as int].said());
        let name = cmd.subcommands[i].name.as_str();
        if !same(name, TOOL_COMMAND) && !same(name, "help") {
            out.push(name.to_owned());
            assert(text::texts(out@) =~= text::texts(former).push(name@));
        }
        i += 1;
    }
    assert(all.take(all.len() as int) =~= all);
    collect(out.as_slice())
}

/// What a tree that disagrees with its declaration is told.
pub open spec fn drift(
    actual: Seq<Seq<char>>,
    declared: Seq<Seq<char>>,
) -> Option<Seq<char>> {
    let expected = names::set_of(declared);
    let extra = names::difference(actual, expected);
    let absent = names::difference(expected, actual);
    if actual == expected {
        None
    } else {
        Some(
            "管理命令声明与 clap 树不一致：`with_management` 声明 "@ + text::quoted_list(declared)
                + "，根子命令（不含 `tool` / `help`）为 "@ + text::quoted_list(actual) + "。"@ + (
            if extra.len() > 0 {
                " clap 有而声明没有: "@ + text::quoted_list(extra) + "；"@
            } else {
                Seq::empty()
            }) + (if absent.len() > 0 {
                " 声明有而 clap 没有: "@ + text::quoted_list(absent) + "；"@
            } else {
                Seq::empty()
            }),
        )
    }
}

/// Says where the root commands of a finished tree disagree with the
/// declaration, in any order.
pub fn assert_management_matches_command(cmd: &CommandSpec, declared: &[&str]) -> (res: Result<
    (),
    String,
>)
    ensures
        match res {
            Ok(_) => drift(
                names::set_of(management_in(cmd.said().subcommands)),
                text::strs(declared@),
            ) is None,
            Err(message) => drift(
                names::set_of(management_in(cmd.said().subcommands)),
                text::strs(declared@),
            ) == Some(message@),
        },
{
    let actual = root_management_names(cmd);
    let mut listed: Vec<String> = Vec::new();
    let mut i: usize = 0;
    while i < declared.len()
        invariant
            i <= declared.len(),
            listed@.len() == i,
            forall|j: int| 0 <= j < i ==> #[trigger] listed@[j]@ == declared@[j]@,
        decreases declared.len() - i,
    {
        listed.push(declared[i].to_owned());
        i += 1;
    }
    assert(text::texts(listed@) =~= text::strs(declared@));
    let expected = collect(listed.as_slice());
    if same_texts(&actual, &expected) {
        return Ok(());
    }
    let extra = without(actual.as_slice(), expected.as_slice());
    let absent = without(expected.as_slice(), actual.as_slice());
    assert(text::texts(extra@).len() == extra@.len());
    assert(text::texts(absent@).len() == absent@.len());
    let mut message = "管理命令声明与 clap 树不一致：`with_management` 声明 ".to_owned();
    message.append(quote_strs(declared).as_str());
    message.append("，根子命令（不含 `tool` / `help`）为 ");
    message.append(quote_list(&actual).as_str());
    message.append("。");
    let ghost head = message@;
    if extra.len() > 0 {
        let mut part = " clap 有而声明没有: ".to_owned();
        part.append(quote_list(&extra).as_str());
        part.append("；");
        message.append(part.as_str());
    } else {
        assert(message@ =~= head + Seq::<char>::empty());
    }
    let ghost middle = message@;
    if absent.len() > 0 {
        let mut part = " 声明有而 clap 没有: ".to_owned();
        part.append(quote_list(&absent).as_str());
        part.append("；");
        message.append(part.as_str());
    } else {
        assert(message@ =~= middle + Seq::<char>::empty());
    }
    Err(message)
}

fn same_texts(a: &Vec<String>, b: &Vec<String>) -> (res: bool)
    ensures
        res == (text::texts(a@) == text::texts(b@)),
{
    if a.len() != b.len() {
        assert(text::texts(a@).len() != text::texts(b@).len());
        return false;
    }
    let mut i: usize = 0;
    while i < a.len()
        invariant
            i <= a.len(),
            a.len() == b.len(),
            forall|j: int| 0 <= j < i ==> #[trigger] a@[j]@ == b@[j]@,
        decreases a.len() - i,
    {
        if !same(a[i].as_str(), b[i].as_str()) {
            assert(text::texts(a@)[i as int] != text::texts(b@)[i as int]);
            return false;
        }
        i += 1;
    }
    assert(text::texts(a@) =~= text::texts(b@));
    true
}

// ---------------------------------------------------------------------------
// From matches to arguments
// ---------------------------------------------------------------------------

/// Values of a list parameter, each as its items' type wants it.
pub open spec fn coerced_all(
    list: Seq<Seq<char>>,
    items: ShapeView,
    d: DefView,
    name: Seq<char>,
) -> Result<Seq<Json>, Seq<char>>
    decreases list.len(),
{
    if list.len() == 0 {
        Ok(Seq::empty())
    } else {
        match coerced_all(list.drop_last(), items, d, name) {
            Err(message) => Err(message),
            Ok(before) => match shape::coerced(list.last(), items, d, name) {
                Err(message) => Err(message),
                Ok(value) => Ok(before.push(value)),
            },
        }
    }
}

/// What the command line says of one parameter.
pub open spec fn argument(
    d: DefView,
    name: Seq<char>,
    kind: ShapeView,
    m: Matches,
) -> Result<Option<Json>, Seq<char>> {
    if kind is Opaque {
        Ok(None)
    } else if kind is Bool && !d.positional.contains(name) {
        if m.set(name) {
            Ok(Some(Json::Bool(true)))
        } else if m.set("no-"@ + name) {
            Ok(Some(Json::Bool(false)))
        } else {
            Ok(None)
        }
    } else if let ShapeView::Array(items) = kind {
        match m.given(name) {
            None => Ok(None),
            Some(list) => match coerced_all(list, *items, d, name) {
                Err(message) => Err(message),
                Ok(values) => Ok(Some(Json::List(values))),
            },
        }
    } else {
        match m.first(name) {
            None => Ok(None),
            Some(raw) => match shape::coerced(raw, kind, d, name) {
                Err(message) => Err(message),
                Ok(value) => Ok(Some(value)),
            },
        }
    }
}

/// The arguments of the first `n` parameters.
pub open spec fn arguments_for(
    d: DefView,
    properties: Seq<(Seq<char>, Json)>,
    m: Matches,
    n: int,
) -> Result<Seq<(Seq<char>, Json)>, Seq<char>>
    decreases n,
{
    if n <= 0 {
        Ok(Seq::empty())
    } else {
        match arguments_for(d, properties, m, n - 1) {
            Err(message) => Err(message),
            Ok(before) => {
                let name = properties[n - 1].0;
                match argument(d, name, shape::shape(d.tool.input, properties[n - 1].1), m) {
                    Err(message) => Err(message),
                    Ok(None) => Ok(before),
                    Ok(Some(value)) => Ok(json::with_field(before, name, value)),
                }
            },
        }
    }
}

/// The arguments of a tool as the command line gives them.
pub open spec fn tool_arguments(d: DefView, m: Matches) -> Result<Json, Seq<char>> {
    match properties_in(d.tool.input) {
        None => Ok(Json::Object(Seq::empty())),
        Some(properties) => match arguments_for(d, properties, m, properties.len() as int) {
            Err(message) => Err(message),
            Ok(fields) => Ok(Json::Object(fields)),
        },
    }
}

fn coerce_all(list: &Vec<String>, items: &Shape, d: &ToolDef, name: &str) -> (res: Result<
    Vec<JsonValue>,
    String,
>)
    ensures
        match res {
            Ok(values) => coerced_all(text::texts(list@), items.said(), d.said(), name@) == Ok::<
                Seq<Json>,
                Seq<char>,
            >(json::jsons(values@)),
            Err(message) => coerced_all(text::texts(list@), items.said(), d.said(), name@)
                == Err::<Seq<Json>, Seq<char>>(message@),
        },
{
    let ghost all = text::texts(list@);
    let mut out: Vec<JsonValue> = Vec::new();
    let mut failed: Option<String> = None;
    let mut i: usize = 0;
    assert(json::jsons(out@) =~= Seq::empty());
    while i < list.len()
        invariant
            i <= list.len(),
            all == text::texts(list@),
            match failed {
                Some(message) => coerced_all(all.take(i as int), items.said(), d.said(), name@)
                    == Err::<Seq<Json>, Seq<char>>(message@),
                None => coerced_all(all.take(i as int), items.said(), d.said(), name@) == Ok::<
                    Seq<Json>,
                    Seq<char>,
                >(json::jsons(out@)),
            },
        decreases list.len() - i,
    {
        assert(all.take(i + 1).drop_last() =~= all.take(i as int));
        assert(all.take(i + 1).last() == all[i as int]);
        assert(all[i as int] == list@[i as int]@);
        if failed.is_none() {
            match coerce(list[i].as_str(), items, d, name) {
                Ok(value) => {
                    let ghost former = out@;
                    let ghost one = value.json();
                    out.push(value);
                    assert(json::jsons(out@) =~= json::jsons(former).push(one));
                },
                Err(message) => {
                    failed = Some(message);
                },
            }
        }
        i += 1;
    }
    assert(all.take(all.len() as int) =~= all);
    match failed {
        Some(message) => Err(message),
        None => Ok(out),
    }
}

fn argument_for(d: &ToolDef, name: &str, kind: &Shape, m: &Matches) -> (res: Result<
    Option<JsonValue>,
    String,
>)
    ensures
        match res {
            Ok(Some(value)) => argument(d.said(), name@, kind.said(), *m) == Ok::<
                Option<Json>,
                Seq<char>,
            >(Some(value.json())),
            Ok(None) => argument(d.said(), name@, kind.said(), *m) == Ok::<Option<Json>, Seq<char>>(
                None,
            ),
            Err(message) => argument(d.said(), name@, kind.said(), *m) == Err::<
                Option<Json>,
                Seq<char>,
            >(message@),
        },
{
    match kind {
        Shape::Opaque => return Ok(None),
        Shape::Known(Known::Bool) => {
            if !strs_have(d.cli.positional, name) {
                if m.flag(name) {
                    return Ok(Some(JsonValue::Bool(true)));
                }
                let mut other = "no-".to_owned();
                other.append(name);
                if m.flag(other.as_str()) {
                    return Ok(Some(JsonValue::Bool(false)));
                }
                return Ok(None);
            }
        },
        Shape::Known(Known::Array(items)) => {
            let list = match m.many(name) {
                Some(list) => list,
                None => return Ok(None),
            };
            return match coerce_all(list, items, d, name) {
                Ok(values) => {
                    proof {
                        JsonValue::list_json(values);
                    }
                    Ok(Some(JsonValue::List(values)))
                },
                Err(message) => Err(message),
            };
        },
        _ => {},
    }
    match m.one(name) {
        Some(raw) => match coerce(raw, kind, d, name) {
            Ok(value) => Ok(Some(value)),
            Err(message) => Err(message),
        },
        None => Ok(None),
    }
}

/// Rebuilds a tool's arguments from what was parsed, giving each value the type
/// its schema declares.
///
/// A property that no argument was registered for has no value, and is left out.
pub fn to_arguments(d: &ToolDef, m: &Matches) -> (res: Result<JsonValue, String>)
    requires
        shaped(d.said()),
    ensures
        match res {
            Ok(value) => tool_arguments(d.said(), *m) == Ok::<Json, Seq<char>>(value.json()),
            Err(message) => tool_arguments(d.said(), *m) == Err::<Json, Seq<char>>(message@),
        },
{
    let root = &d.tool.input_schema;
    let mut out = Fields::new();
    let listed = match properties(root) {
        Some(listed) => listed,
        None => return Ok(JsonValue::Object(out)),
    };
    let ghost all = listed.fields();
    let mut failed: Option<String> = None;
    let mut i: usize = 0;
    while i < listed.len()
        invariant
            i <= all.len(),
            all == listed.fields(),
            *root == d.tool.input_schema,
            properties_in(root.fields()) == Some(all),
            shaped(d.said()),
            match failed {
                Some(message) => arguments_for(d.said(), all, *m, i as int) == Err::<
                    Seq<(Seq<char>, Json)>,
                    Seq<char>,
                >(message@),
                None => arguments_for(d.said(), all, *m, i as int) == Ok::<
                    Seq<(Seq<char>, Json)>,
                    Seq<char>,
                >(out.fields()),
            },
        decreases all.len() - i,
    {
        if failed.is_none() {
            let name = listed.key(i);
            assert(all[i as int].0 == name@);
            proof {
                let properties = properties_in(d.said().tool.input)->0;
                assert(d.said().tool.input == root.fields());
                assert(properties == all);
                assert(shape::nests(d.said().tool.input, properties[i as int].1));
            }
            let kind = classify(root, listed.value(i));
            match argument_for(d, name, &kind, m) {
                Ok(Some(value)) => out.insert(name.to_owned(), value),
                Ok(None) => {},
                Err(message) => {
                    failed = Some(message);
                },
            }
        }
        i += 1;
    }
    match failed {
        Some(message) => Err(message),
        None => Ok(JsonValue::Object(out)),
    }
}

/// The tool a command line names, and the level its arguments are at: nothing
/// where it names one of the engine's own commands.
pub open spec fn resolved(m: Matches) -> Option<(Seq<char>, Matches)> {
    match m.subcommand {
        None => None,
        Some(root) => if root.0@ != TOOL_COMMAND@ {
            None
        } else {
            match root.1.subcommand {
                None => None,
                Some(head) => match head.1.subcommand {
                    None => Some((head.0@, head.1)),
                    Some(leaf) => Some((head.0@ + "."@ + leaf.0@, leaf.1)),
                },
            }
        },
    }
}

/// The tool that was asked for, and what was parsed for it.
pub fn resolve(m: &Matches) -> (res: Option<(String, &Matches)>)
    ensures
        match res {
            Some((name, leaf)) => resolved(*m) == Some((name@, *leaf)),
            None => resolved(*m) is None,
        },
{
    let root = match &m.subcommand {
        Some(root) => root,
        None => return None,
    };
    if !same(root.0.as_str(), TOOL_COMMAND) {
        return None;
    }
    let head = match &root.1.subcommand {
        Some(head) => head,
        None => return None,
    };
    match &head.1.subcommand {
        None => Some((head.0.clone(), &head.1)),
        Some(leaf) => {
            let mut name = head.0.clone();
            name.append(".");
            name.append(leaf.0.as_str());
            Some((name, &leaf.1))
        },
    }
}

// ---------------------------------------------------------------------------
// Laws
// ---------------------------------------------------------------------------

/// Positional arguments come in the order of the hint, whatever the order of the
/// schema.
pub proof fn positionals_follow_the_hint(
    d: DefView,
    properties: Seq<(Seq<char>, Json)>,
    at: int,
)
    requires
        registration(d, properties) is Ok,
        0 <= at < d.positional.len(),
    ensures
        d.positional.len() <= (registration(d, properties)->Ok_0).len(),
        (registration(d, properties)->Ok_0)[at].0 == d.positional[at],
{
    hint_order(properties, d.positional);
}

proof fn hint_order(properties: Seq<(Seq<char>, Json)>, hints: Seq<Seq<char>>)
    requires
        hinted(properties, hints) is Ok,
    ensures
        (hinted(properties, hints)->Ok_0).len() == hints.len(),
        forall|i: int|
            0 <= i < hints.len() ==> (#[trigger] (hinted(properties, hints)->Ok_0)[i]).0
                == hints[i],
    decreases hints.len(),
{
    if hints.len() > 0 {
        hint_order(properties, hints.drop_last());
    }
}

/// The session selector becomes no argument.
pub proof fn selector_is_not_mapped(
    properties: Seq<(Seq<char>, Json)>,
    selector: Seq<char>,
    at: int,
)
    requires
        0 <= at < mappable(properties, Some(selector)).len(),
    ensures
        mappable(properties, Some(selector))[at].0 != selector,
{
    properties.lemma_filter_pred(
        |entry: (Seq<char>, Json)| Some(entry.0) != Some(selector),
        at,
    );
}

/// Names of commands, each different from the others.
pub open spec fn distinct_names(commands: Seq<CommandView>) -> bool {
    forall|i: int, j: int|
        0 <= i < j < commands.len() ==> (#[trigger] commands[i]).name != (
        #[trigger] commands[j]).name
}

spec fn distinct_claims(claims: Seq<(Seq<char>, Seq<char>)>) -> bool {
    forall|i: int, j: int|
        0 <= i < j < claims.len() ==> (#[trigger] claims[i]).0 != (#[trigger] claims[j]).0
}

proof fn unheld(claims: Seq<(Seq<char>, Seq<char>)>, name: Seq<char>, from: int)
    requires
        0 <= from,
        holder(claims, name, from) is None,
    ensures
        forall|i: int| from <= i < claims.len() ==> (#[trigger] claims[i]).0 != name,
    decreases claims.len() - from,
{
    if from < claims.len() {
        unheld(claims, name, from + 1);
    }
}

proof fn flat_distinct(
    defs: Seq<DefView>,
    flat: Seq<int>,
    management: Seq<Seq<char>>,
    declared: bool,
)
    requires
        flat_claims(defs, flat, management, declared) is Ok,
    ensures
        distinct_claims(flat_claims(defs, flat, management, declared)->Ok_0),
        (flat_claims(defs, flat, management, declared)->Ok_0).len() == flat.len(),
        forall|i: int|
            0 <= i < flat.len() ==> (#[trigger] (flat_claims(
                defs,
                flat,
                management,
                declared,
            )->Ok_0)[i]).0 == defs[flat[i]].tool.name,
        forall|i: int|
            0 <= i < flat.len() ==> !management.contains(
                (#[trigger] (flat_claims(defs, flat, management, declared)->Ok_0)[i]).0,
            ),
    decreases flat.len(),
{
    if flat.len() > 0 {
        flat_distinct(defs, flat.drop_last(), management, declared);
        let before = flat_claims(defs, flat.drop_last(), management, declared)->Ok_0;
        unheld(before, defs[flat.last()].tool.name, 0);
    }
}

proof fn groups_distinct(
    defs: Seq<DefView>,
    taken: Seq<(Seq<char>, Seq<char>)>,
    groups: Seq<(Seq<char>, Seq<int>)>,
    management: Seq<Seq<char>>,
    declared: bool,
)
    requires
        distinct_claims(taken),
        group_claims(defs, taken, groups, management, declared) is Ok,
    ensures
        distinct_claims(group_claims(defs, taken, groups, management, declared)->Ok_0),
        (group_claims(defs, taken, groups, management, declared)->Ok_0).len() == taken.len()
            + groups.len(),
        forall|i: int|
            0 <= i < taken.len() ==> #[trigger] (group_claims(
                defs,
                taken,
                groups,
                management,
                declared,
            )->Ok_0)[i] == taken[i],
        forall|i: int|
            0 <= i < groups.len() ==> #[trigger] (group_claims(
                defs,
                taken,
                groups,
                management,
                declared,
            )->Ok_0)[taken.len() + i].0 == groups[i].0,
        forall|i: int|
            0 <= i < groups.len() ==> !management.contains((#[trigger] groups[i]).0),
    decreases groups.len(),
{
    if groups.len() > 0 {
        let less = groups.drop_last();
        groups_distinct(defs, taken, less, management, declared);
        let before = group_claims(defs, taken, less, management, declared)->Ok_0;
        let after = group_claims(defs, taken, groups, management, declared)->Ok_0;
        let (group, list) = groups.last();
        unheld(before, group, 0);
        assert(after == before.push((group, defs[list[0]].tool.name)));
        assert forall|i: int| 0 <= i < groups.len() implies #[trigger] after[taken.len() + i].0
            == groups[i].0 by {
            if i < less.len() {
                assert(before[taken.len() + i].0 == less[i].0);
            }
        }
        assert forall|i: int| 0 <= i < groups.len() implies !management.contains(
            (#[trigger] groups[i]).0,
        ) by {
            if i < less.len() {
                assert(groups[i] == less[i]);
            }
        }
    }
}

proof fn leaf_command_names(
    defs: Seq<DefView>,
    list: Seq<int>,
    session: Option<SessionSpec>,
)
    requires
        leaf_commands(defs, list, session) is Ok,
    ensures
        (leaf_commands(defs, list, session)->Ok_0).len() == list.len(),
        forall|i: int|
            0 <= i < list.len() ==> (#[trigger] (leaf_commands(
                defs,
                list,
                session,
            )->Ok_0)[i]).name == leaf_name(defs[list[i]].tool.name),
    decreases list.len(),
{
    if list.len() > 0 {
        leaf_command_names(defs, list.drop_last(), session);
    }
}

proof fn group_command_names(
    defs: Seq<DefView>,
    groups: Seq<(Seq<char>, Seq<int>)>,
    session: Option<SessionSpec>,
    about: Seq<(Seq<char>, Seq<char>)>,
)
    requires
        group_commands(defs, groups, session, about) is Ok,
    ensures
        (group_commands(defs, groups, session, about)->Ok_0).len() == groups.len(),
        forall|i: int|
            0 <= i < groups.len() ==> (#[trigger] (group_commands(
                defs,
                groups,
                session,
                about,
            )->Ok_0)[i]).name == groups[i].0,
    decreases groups.len(),
{
    if groups.len() > 0 {
        group_command_names(defs, groups.drop_last(), session, about);
    }
}

proof fn flat_have_no_group(defs: Seq<DefView>, n: int)
    requires
        0 <= n <= defs.len(),
    ensures
        forall|i: int|
            0 <= i < flat_tools(defs, n).len() ==> !has_group(
                defs[#[trigger] flat_tools(defs, n)[i]].tool.name,
            ),
    decreases n,
{
    if n > 0 {
        flat_have_no_group(defs, n - 1);
    }
}

/// No tool command is lost: in a tree that is built, the commands directly under
/// the tool command have different names, and none has a management name.
pub proof fn tool_commands_are_distinct(
    defs: Seq<DefView>,
    management: Seq<Seq<char>>,
    declared: bool,
    session: Option<SessionSpec>,
    about: Seq<(Seq<char>, Seq<char>)>,
)
    requires
        tools_command(defs, management, declared, session, about) is Ok,
    ensures
        distinct_names((tools_command(defs, management, declared, session, about)->Ok_0).subcommands),
        forall|i: int|
            0 <= i < (tools_command(
                defs,
                management,
                declared,
                session,
                about,
            )->Ok_0).subcommands.len() ==> !management.contains(
                (#[trigger] (tools_command(
                    defs,
                    management,
                    declared,
                    session,
                    about,
                )->Ok_0).subcommands[i]).name,
            ),
{
    let n = defs.len() as int;
    let flat = flat_tools(defs, n);
    let groups = tool_groups(defs, n);
    let tree = tools_command(defs, management, declared, session, about)->Ok_0;
    let claims = flat_claims(defs, flat, management, declared)->Ok_0;
    flat_distinct(defs, flat, management, declared);
    groups_distinct(defs, claims, groups, management, declared);
    let all = group_claims(defs, claims, groups, management, declared)->Ok_0;
    leaf_command_names(defs, flat, session);
    group_command_names(defs, groups, session, about);
    flat_have_no_group(defs, n);
    let first = leaf_commands(defs, flat, session)->Ok_0;
    let second = group_commands(defs, groups, session, about)->Ok_0;
    assert(tree.subcommands == first + second);
    assert forall|i: int| 0 <= i < tree.subcommands.len() implies (
    #[trigger] tree.subcommands[i]).name == all[i].0 && !management.contains(
        tree.subcommands[i].name,
    ) by {
        if i < flat.len() {
            assert(tree.subcommands[i] == first[i]);
            assert(claims[i].0 == defs[flat[i]].tool.name);
            assert(!has_group(defs[flat[i]].tool.name));
            assert(all[i] == claims[i]);
        } else {
            let g = i - flat.len();
            assert(tree.subcommands[i] == second[g]);
            assert(all[claims.len() + g].0 == groups[g].0);
        }
    }
    assert forall|i: int, j: int| 0 <= i < j < tree.subcommands.len() implies (
    #[trigger] tree.subcommands[i]).name != (#[trigger] tree.subcommands[j]).name by {
        assert(tree.subcommands[i].name == all[i].0);
        assert(tree.subcommands[j].name == all[j].0);
    }
}

} // verus!
