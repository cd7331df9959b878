//! What holds of every router that is planned from an impl block.

use vstd::prelude::*;

use crate::router;
use crate::router::{
    Annotations, Brackets, Input, InputFault, Mark, Method, OutputView, Setting, ToolAttr,
    ToolFault, ToolPlanView, TypeShape,
};
use crate::text;
use crate::tool;

verus! {

// ---------------------------------------------------------------------------
// The attribute's own list
// ---------------------------------------------------------------------------

/// Whether a setting assigns a text to a name.
pub open spec fn assigns(setting: Setting, name: Seq<char>, value: Seq<char>) -> bool {
    match setting {
        Setting::Assign { name: Some(given), value: Some(said) } => given@ == name && said@
            == value,
        _ => false,
    }
}

/// A name is what was last assigned to it, and the usual one where nothing was.
pub proof fn the_last_assignment_counts(
    settings: Seq<Setting>,
    name: Seq<char>,
    usual: Seq<char>,
    at: int,
    value: Seq<char>,
)
    ensures
        0 <= at < settings.len() && assigns(settings[at], name, value) && (forall|i: int, v: Seq<
            char,
        >|
            at < i < settings.len() ==> !#[trigger] assigns(settings[i], name, v))
            ==> router::assigned(settings, name, usual) == value,
        (forall|i: int, v: Seq<char>|
            0 <= i < settings.len() ==> !#[trigger] assigns(settings[i], name, v))
            ==> router::assigned(settings, name, usual) == usual,
    decreases settings.len(),
{
    if settings.len() > 0 {
        let less = settings.drop_last();
        let last = settings.len() - 1;
        the_last_assignment_counts(less, name, usual, at, value);
        if forall|i: int, v: Seq<char>|
            0 <= i < settings.len() ==> !#[trigger] assigns(settings[i], name, v) {
            assert forall|i: int, v: Seq<char>| 0 <= i < less.len() implies !#[trigger] assigns(
                less[i],
                name,
                v,
            ) by {
                assert(!assigns(settings[i], name, v));
            }
            if let Setting::Assign { name: Some(given), value: Some(said) } = settings[last] {
                assert(!assigns(settings[last], name, said@));
            }
        }
        if 0 <= at < settings.len() && assigns(settings[at], name, value) && (forall|
            i: int,
            v: Seq<char>,
        |
            at < i < settings.len() ==> !#[trigger] assigns(settings[i], name, v)) {
            if at < last {
                assert(less[at] == settings[at]);
                assert forall|i: int, v: Seq<char>| at < i < less.len() implies !#[trigger] assigns(
                    less[i],
                    name,
                    v,
                ) by {
                    assert(!assigns(settings[i], name, v));
                }
                if let Setting::Assign { name: Some(given), value: Some(said) } = settings[last] {
                    assert(!assigns(settings[last], name, said@));
                }
            }
        }
    }
}

/// Whether a setting is read here: one of the three names, or a text for a group.
pub open spec fn is_read_here(setting: Setting) -> bool {
    match setting {
        Setting::Assign { name: Some(name), .. } => seq!["defs"@, "cli"@, "call"@].contains(name@),
        Setting::Group { name: Some(name), .. } => name@ == "group_about"@,
        Setting::Flag { name: Some(name) } => name@ == "group_about"@,
        _ => false,
    }
}

/// Every setting that is not read here is handed on, and no other, in order.
pub proof fn the_rest_is_handed_on(settings: Seq<Setting>, i: int)
    ensures
        router::forwarded_in(settings).contains(i) <==> 0 <= i < settings.len() && !is_read_here(
            settings[i],
        ),
        forall|a: int, b: int|
            0 <= a < b < router::forwarded_in(settings).len() ==> #[trigger] router::forwarded_in(
                settings,
            )[a] < #[trigger] router::forwarded_in(settings)[b],
        forall|a: int|
            0 <= a < router::forwarded_in(settings).len() ==> 0 <= #[trigger] router::forwarded_in(
                settings,
            )[a] < settings.len(),
    decreases settings.len(),
{
    if settings.len() > 0 {
        let less = settings.drop_last();
        let last = settings.len() - 1;
        the_rest_is_handed_on(less, i);
        let before = router::forwarded_in(less);
        let after = router::forwarded_in(settings);
        let ours = seq!["defs"@, "cli"@, "call"@];
        assert(ours[0] == "defs"@ && ours[1] == "cli"@ && ours[2] == "call"@);
        assert(router::is_forwarded(settings[last]) <==> !is_read_here(settings[last])) by {
            if let Setting::Assign { name: Some(name), .. } = settings[last] {
                if ours.contains(name@) {
                    let k = choose|k: int| 0 <= k < ours.len() && ours[k] == name@;
                }
            }
        }
        if before.contains(i) {
            let k = choose|k: int| 0 <= k < before.len() && before[k] == i;
            assert(after[k] == i);
            assert(settings[i] == less[i]);
        }
        if i == last && router::is_forwarded(settings[last]) {
            assert(after[after.len() - 1] == i);
        }
        if after.contains(i) && !before.contains(i) {
            let k = choose|k: int| 0 <= k < after.len() && after[k] == i;
            if k < before.len() {
                assert(before[k] == i);
            }
        }
        if 0 <= i < last {
            assert(settings[i] == less[i]);
        }
    }
}

/// A group is named by its identifier, and a raw identifier without its mark.
pub proof fn raw_identifiers_lose_their_mark(ident: Seq<char>)
    ensures
        router::group_key(seq!['r', '#'] + ident) == ident,
        ident.len() < 2 || ident[0] != 'r' || ident[1] != '#' ==> router::group_key(ident) == ident,
{
    reveal_strlit("r#");
    let raw = seq!['r', '#'] + ident;
    assert("r#"@ =~= seq!['r', '#']);
    assert(raw.take(2) =~= "r#"@);
    assert(raw.skip(2) =~= ident);
    if text::begins(ident, "r#"@) {
        assert(ident.take(2)[0] == 'r' && ident.take(2)[1] == '#');
    }
}

/// Whether a setting gives a group its text.
pub open spec fn gives(setting: Setting, group: Seq<char>, about: Seq<char>) -> bool {
    match setting {
        Setting::Group { name: Some(name), items: Some(items) } => name@ == "group_about"@
            && exists|k: int|
            0 <= k < items@.len() && entry_gives(#[trigger] items@[k], group, about),
        _ => false,
    }
}

/// Whether an entry gives a group its text.
pub open spec fn entry_gives(entry: Setting, group: Seq<char>, about: Seq<char>) -> bool {
    match entry {
        Setting::Assign { name: Some(ident), value: Some(value) } => router::group_key(ident@)
            == group && value@ == about,
        _ => false,
    }
}

proof fn entries_are_kept(
    before: Seq<(Seq<char>, Seq<char>)>,
    items: Seq<Setting>,
    group: Seq<char>,
    about: Seq<char>,
)
    ensures
        router::with_entries(before, items) matches Ok(list) ==> (list.contains((group, about)) <==>
            before.contains((group, about)) || exists|k: int|
            0 <= k < items.len() && entry_gives(#[trigger] items[k], group, about)),
        router::with_entries(before, items) is Ok ==> forall|k: int|
            0 <= k < items.len() ==> match #[trigger] items[k] {
                Setting::Assign { name: Some(_), value: Some(_) } => true,
                _ => false,
            },
    decreases items.len(),
{
    if items.len() > 0 {
        let less = items.drop_last();
        let last = items.len() - 1;
        entries_are_kept(before, less, group, about);
        if let Ok(list) = router::with_entries(before, items) {
            let part = router::with_entries(before, less)->Ok_0;
            assert forall|k: int| 0 <= k < items.len() implies match #[trigger] items[k] {
                Setting::Assign { name: Some(_), value: Some(_) } => true,
                _ => false,
            } by {
                if k < last {
                    assert(less[k] == items[k]);
                }
            }
            let pair = list[part.len() as int];
            assert(list == part.push(pair));
            if part.contains((group, about)) {
                let i = choose|i: int| 0 <= i < part.len() && part[i] == (group, about);
                assert(list[i] == (group, about));
            }
            if list.contains((group, about)) && !part.contains((group, about)) {
                let i = choose|i: int| 0 <= i < list.len() && list[i] == (group, about);
                if i < part.len() {
                    assert(part[i] == (group, about));
                }
                assert(entry_gives(items[last], group, about));
            }
            if exists|k: int| 0 <= k < less.len() && entry_gives(#[trigger] less[k], group, about) {
                let k = choose|k: int|
                    0 <= k < less.len() && entry_gives(#[trigger] less[k], group, about);
                assert(items[k] == less[k]);
            }
            if exists|k: int| 0 <= k < items.len() && entry_gives(
                #[trigger] items[k],
                group,
                about,
            ) {
                let k = choose|k: int|
                    0 <= k < items.len() && entry_gives(#[trigger] items[k], group, about);
                if k < last {
                    assert(less[k] == items[k]);
                } else {
                    assert(list[part.len() as int] == (group, about));
                }
            }
        }
    }
}

/// The texts that the groups have are those that were given, and no text that was given
/// is left out. A `group_about` that gives none is refused.
pub proof fn groups_have_the_texts_given(
    settings: Seq<Setting>,
    group: Seq<char>,
    about: Seq<char>,
)
    ensures
        router::abouts(settings) matches Ok(list) ==> (list.contains((group, about)) <==> exists|
            i: int,
        |
            0 <= i < settings.len() && gives(#[trigger] settings[i], group, about)),
        (exists|i: int|
            0 <= i < settings.len() && match #[trigger] settings[i] {
                Setting::Assign { name: Some(name), .. } => name@ == "group_about"@,
                Setting::Flag { name: Some(name) } => name@ == "group_about"@,
                Setting::Group { name: Some(name), items: None } => name@ == "group_about"@,
                _ => false,
            }) ==> router::abouts(settings) is Err,
    decreases settings.len(),
{
    let wrong = |s: Setting|
        match s {
            Setting::Assign { name: Some(name), .. } => name@ == "group_about"@,
            Setting::Flag { name: Some(name) } => name@ == "group_about"@,
            Setting::Group { name: Some(name), items: None } => name@ == "group_about"@,
            _ => false,
        };
    if settings.len() > 0 {
        let less = settings.drop_last();
        let last = settings.len() - 1;
        groups_have_the_texts_given(less, group, about);
        if exists|i: int| 0 <= i < settings.len() && wrong(#[trigger] settings[i]) {
            let i = choose|i: int| 0 <= i < settings.len() && wrong(#[trigger] settings[i]);
            if i < last {
                assert(wrong(less[i]));
            }
        }
        if let Ok(list) = router::abouts(settings) {
            let part = router::abouts(less)->Ok_0;
            if let Setting::Group { name: Some(name), items: Some(items) } = settings[last] {
                entries_are_kept(part, items@, group, about);
            }
            if exists|i: int| 0 <= i < less.len() && gives(#[trigger] less[i], group, about) {
                let i = choose|i: int|
                    0 <= i < less.len() && gives(#[trigger] less[i], group, about);
                assert(settings[i] == less[i]);
            }
            if exists|i: int| 0 <= i < settings.len() && gives(
                #[trigger] settings[i],
                group,
                about,
            ) {
                let i = choose|i: int|
                    0 <= i < settings.len() && gives(#[trigger] settings[i], group, about);
                if i < last {
                    assert(less[i] == settings[i]);
                }
            }
        }
    }
}

// ---------------------------------------------------------------------------
// Signatures
// ---------------------------------------------------------------------------

/// Whether a type is `name<inner>`.
pub open spec fn is_of(ty: TypeShape, name: Seq<char>, inner: TypeShape) -> bool {
    tool::opt_text(ty.last) == Some(name) && ty.brackets == Brackets::Of(Box::new(inner))
}

/// A payload is looked for directly in the return type and inside a `Result`, and
/// nowhere else.
pub proof fn payloads_are_found(ty: TypeShape, inner: TypeShape, payload: TypeShape)
    ensures
        router::rendered_at(None) is None,
        is_of(ty, "Rendered"@, payload) ==> router::rendered_at(Some(ty)) == Some(1u8),
        is_of(ty, "Result"@, inner) && is_of(inner, "Rendered"@, payload) ==> router::rendered_at(
            Some(ty),
        ) == Some(2u8),
        tool::opt_text(ty.last) != Some("Rendered"@) && tool::opt_text(ty.last) != Some("Result"@)
            ==> router::rendered_at(Some(ty)) is None,
        is_of(ty, "Result"@, inner) && tool::opt_text(inner.last) != Some("Rendered"@)
            ==> router::rendered_at(Some(ty)) is None,
        !(ty.brackets is Of) ==> router::rendered_at(Some(ty)) is None,
{
    reveal_strlit("Rendered");
    reveal_strlit("Result");
    assert("Rendered"@.len() == 8 && "Result"@.len() == 6);
}

/// Whether an argument is a `Parameters` of some type.
pub open spec fn is_parameters(input: Input) -> bool {
    match input {
        Input::Typed(ty) => tool::opt_text(ty.last) == Some("Parameters"@) && ty.brackets is Of,
        Input::Receiver => false,
    }
}

/// The arguments of a tool are accepted exactly where they are its receiver and one
/// `Parameters<..>` at most; which one it is, is told.
pub proof fn arguments_are_receiver_and_parameters(inputs: Seq<Input>)
    ensures
        router::parameters_at(inputs) is Ok <==> {
            &&& forall|i: int|
                0 <= i < inputs.len() ==> #[trigger] inputs[i] is Receiver || is_parameters(
                    inputs[i],
                )
            &&& forall|i: int, j: int|
                0 <= i < j < inputs.len() ==> !(is_parameters(#[trigger] inputs[i])
                    && is_parameters(#[trigger] inputs[j]))
        },
        match router::parameters_at(inputs) {
            Ok(Some(at)) => 0 <= at < inputs.len() && is_parameters(inputs[at]),
            Ok(None) => forall|i: int| 0 <= i < inputs.len() ==> #[trigger] inputs[i] is Receiver,
            Err((at, fault)) => 0 <= at < inputs.len() && (fault == InputFault::Second <==>
                is_parameters(inputs[at])) && (fault == InputFault::Foreign <==> (match inputs[at] {
                Input::Typed(ty) => tool::opt_text(ty.last) != Some("Parameters"@),
                Input::Receiver => false,
            })),
        },
    decreases inputs.len(),
{
    if inputs.len() > 0 {
        let less = inputs.drop_last();
        let last = inputs.len() - 1;
        arguments_are_receiver_and_parameters(less);
        let well = forall|i: int|
            0 <= i < inputs.len() ==> #[trigger] inputs[i] is Receiver || is_parameters(inputs[i]);
        let once = forall|i: int, j: int|
            0 <= i < j < inputs.len() ==> !(is_parameters(#[trigger] inputs[i]) && is_parameters(
                #[trigger] inputs[j],
            ));
        if well && once {
            assert forall|i: int| 0 <= i < less.len() implies #[trigger] less[i] is Receiver
                || is_parameters(less[i]) by {
                assert(less[i] == inputs[i]);
            }
            assert forall|i: int, j: int| 0 <= i < j < less.len() implies !(is_parameters(
                #[trigger] less[i],
            ) && is_parameters(#[trigger] less[j])) by {
                assert(!(is_parameters(inputs[i]) && is_parameters(inputs[j])));
            }
            assert(inputs[last] is Receiver || is_parameters(inputs[last]));
            if let Ok(Some(at)) = router::parameters_at(less) {
                assert(!(is_parameters(inputs[at]) && is_parameters(inputs[last])));
            }
        }
        match router::parameters_at(less) {
            Err((at, _)) => {
                assert(less[at] == inputs[at]);
                if well && once {
                    assert(false);
                }
            },
            Ok(found) => {
                if router::parameters_at(inputs) is Ok {
                    assert forall|i: int| 0 <= i < inputs.len() implies #[trigger] inputs[i] is Receiver
                        || is_parameters(inputs[i]) by {
                        if i < last {
                            assert(less[i] == inputs[i]);
                        }
                    }
                    assert forall|i: int, j: int| 0 <= i < j < inputs.len() implies !(is_parameters(
                        #[trigger] inputs[i],
                    ) && is_parameters(#[trigger] inputs[j])) by {
                        assert(less[i] == inputs[i]);
                        if j < last {
                            assert(less[j] == inputs[j]);
                        } else if is_parameters(inputs[j]) {
                            assert(found is None);
                            assert(less[i] is Receiver);
                        }
                    }
                    if let Ok(None) = router::parameters_at(inputs) {
                        assert forall|i: int| 0 <= i < inputs.len() implies #[trigger] inputs[i] is Receiver by {
                            if i < last {
                                assert(less[i] == inputs[i]);
                            }
                        }
                    }
                }
            },
        }
    }
}

// ---------------------------------------------------------------------------
// Tools
// ---------------------------------------------------------------------------

/// A tool goes by its own name where it has one; else by its group and its verb with a
/// point between them, or by its verb alone; else by the name of its function.
pub proof fn tools_go_by_their_name(attr: ToolAttr, function: Seq<char>)
    ensures
        attr.name is Some ==> router::tool_name(attr, function) == attr.name->0@,
        attr.name is None && attr.verb is Some && attr.group is Some ==> router::tool_name(
            attr,
            function,
        ) == attr.group->0@ + "."@ + attr.verb->0@,
        attr.name is None && attr.verb is Some && attr.group is None ==> router::tool_name(
            attr,
            function,
        ) == attr.verb->0@,
        attr.name is None && attr.verb is None ==> router::tool_name(attr, function) == function,
{
}

/// Everything that is said of a tool is in its plan. It is on the command line, and it
/// reads the session, unless it says that it does not.
pub proof fn plans_say_what_was_said(
    attr: ToolAttr,
    function: Seq<char>,
    inputs: Seq<Input>,
    ret: Option<TypeShape>,
)
    ensures
        match router::tool_plan(attr, function, inputs, ret) {
            Ok(plan) => {
                &&& attr.title is Some && plan.title == attr.title->0@
                &&& attr.annotations is Some
                &&& attr.annotations->0.read_only == Some(plan.read_only)
                &&& plan.destructive == attr.annotations->0.destructive
                &&& plan.idempotent == attr.annotations->0.idempotent
                &&& plan.open_world == attr.annotations->0.open_world
                &&& plan.description == tool::opt_text(attr.description)
                &&& plan.ext == tool::opt_text(attr.ext)
                &&& plan.name == router::tool_name(attr, function)
                &&& router::parameters_at(inputs) == Ok::<Option<int>, (int, InputFault)>(
                    plan.params,
                )
                &&& plan.enabled <==> !(attr.cli is Some && attr.cli->0.none)
                &&& plan.needs_session <==> !(attr.cli is Some && attr.cli->0.no_session)
                &&& attr.cli is None ==> plan.positional.len() == 0 && plan.int_args.len() == 0
                &&& attr.cli is Some ==> plan.positional == router::names_in(
                    tool::opt_text(attr.cli->0.positional),
                ) && plan.int_args == router::names_in(tool::opt_text(attr.cli->0.int_args))
                &&& attr.output is Some ==> plan.output == OutputView::Explicit(attr.output->0@)
                &&& attr.output is None && router::rendered_at(ret) is Some ==> plan.output
                    == OutputView::Rendered(router::rendered_at(ret)->0)
                &&& attr.output is None && router::rendered_at(ret) is None
                    ==> plan.output is Absent
            },
            Err(ToolFault::NoTitle) => attr.title is None,
            Err(ToolFault::NoAnnotations) => attr.title is Some && attr.annotations is None,
            Err(ToolFault::NoReadOnly) => attr.annotations is Some
                && attr.annotations->0.read_only is None,
            Err(ToolFault::Input { .. }) => router::parameters_at(inputs) is Err,
            Err(ToolFault::Unreadable) => false,
        },
{
}

/// The names in a list are what stands between its commas, without the white space
/// around it, where there is anything.
pub proof fn lists_name_what_stands_between_commas(list: Seq<char>, name: Seq<char>)
    ensures
        router::names_in(None).len() == 0,
        router::names_in(Some(list)).contains(name) <==> name.len() > 0 && exists|k: int|
            0 <= k < text::pieces(list, ',').len() && text::trimmed(
                #[trigger] text::pieces(list, ',')[k],
            ) == name,
{
    parts_are_trimmed(text::pieces(list, ','), name);
}

proof fn parts_are_trimmed(parts: Seq<Seq<char>>, name: Seq<char>)
    ensures
        router::nonempty(parts).contains(name) <==> name.len() > 0 && exists|k: int|
            0 <= k < parts.len() && text::trimmed(#[trigger] parts[k]) == name,
    decreases parts.len(),
{
    if parts.len() > 0 {
        let less = parts.drop_last();
        let last = parts.len() - 1;
        parts_are_trimmed(less, name);
        let a = router::nonempty(less);
        let b = router::nonempty(parts);
        if a.contains(name) {
            let x = choose|x: int| 0 <= x < a.len() && a[x] == name;
            assert(b[x] == name);
            let k = choose|k: int| 0 <= k < less.len() && text::trimmed(#[trigger] less[k])
                == name;
            assert(parts[k] == less[k]);
        }
        if text::trimmed(parts[last]) == name && name.len() > 0 {
            assert(b[b.len() - 1] == name);
        }
        if b.contains(name) && !a.contains(name) {
            let x = choose|x: int| 0 <= x < b.len() && b[x] == name;
            if x < a.len() {
                assert(a[x] == name);
            }
            assert(text::trimmed(parts[last]) == name);
        }
        if exists|k: int| 0 <= k < parts.len() && text::trimmed(#[trigger] parts[k]) == name {
            let k = choose|k: int| 0 <= k < parts.len() && text::trimmed(#[trigger] parts[k])
                == name;
            if k < last {
                assert(less[k] == parts[k]);
            }
        }
    }
}

/// Each hint that a tool states is published under its own name with its own value, and
/// one that it does not state is not published.
pub proof fn hints_keep_their_values(plan: ToolPlanView, value: bool)
    ensures
        ({
            let hints = router::published_hints(plan);
            &&& hints.contains(("read_only_hint"@, value)) <==> plan.read_only == value
            &&& hints.contains(("destructive_hint"@, value)) <==> plan.destructive == Some(value)
            &&& hints.contains(("idempotent_hint"@, value)) <==> plan.idempotent == Some(value)
            &&& hints.contains(("open_world_hint"@, value)) <==> plan.open_world == Some(value)
        }),
{
    reveal_strlit("read_only_hint");
    reveal_strlit("destructive_hint");
    reveal_strlit("idempotent_hint");
    reveal_strlit("open_world_hint");
    assert("read_only_hint"@[0] == 'r' && "destructive_hint"@[0] == 'd' && "idempotent_hint"@[0]
        == 'i' && "open_world_hint"@[0] == 'o');
    let stated = seq![("read_only_hint"@, plan.read_only)];
    let one = match plan.destructive {
        Some(b) => stated.push(("destructive_hint"@, b)),
        None => stated,
    };
    let two = match plan.idempotent {
        Some(b) => one.push(("idempotent_hint"@, b)),
        None => one,
    };
    let hints = router::published_hints(plan);
    assert(hints[0] == ("read_only_hint"@, plan.read_only));
    if let Some(b) = plan.destructive {
        assert(hints[1] == ("destructive_hint"@, b));
    }
    if let Some(b) = plan.idempotent {
        assert(hints[one.len() as int] == ("idempotent_hint"@, b));
    }
    if let Some(b) = plan.open_world {
        assert(hints[two.len() as int] == ("open_world_hint"@, b));
    }
}

/// A function is marked by the first of its attributes that is the mark.
pub proof fn the_first_mark_counts(attributes: Seq<Option<String>>, from: int)
    requires
        0 <= from <= attributes.len(),
    ensures
        match router::mark_at(attributes, from) {
            Some(at) => from <= at < attributes.len() && tool::opt_text(attributes[at]) == Some(
                "vibrev_tool"@,
            ) && forall|i: int|
                from <= i < at ==> tool::opt_text(#[trigger] attributes[i]) != Some(
                    "vibrev_tool"@,
                ),
            None => forall|i: int|
                from <= i < attributes.len() ==> tool::opt_text(#[trigger] attributes[i]) != Some(
                    "vibrev_tool"@,
                ),
        },
    decreases attributes.len() - from,
{
    if from < attributes.len() {
        the_first_mark_counts(attributes, from + 1);
    }
}

/// Every marked function has its plan, in order, and no other has one. Where one is
/// wrong the first of them is told.
pub proof fn every_marked_function_is_planned(methods: Seq<Method>, at: int)
    requires
        0 <= at < methods.len(),
    ensures
        match router::tool_plans(methods) {
            Ok(plans) => match methods[at].mark {
                Mark::Plain => forall|k: int|
                    0 <= k < plans.len() ==> (#[trigger] plans[k]).0 != at,
                Mark::Unreadable => false,
                Mark::Tool(attr) => match router::tool_plan(
                    attr,
                    methods[at].function@,
                    methods[at].inputs@,
                    methods[at].ret,
                ) {
                    Ok(plan) => plans.contains((at, plan)),
                    Err(_) => false,
                },
            },
            Err((bad, fault)) => 0 <= bad < methods.len() && match methods[bad].mark {
                Mark::Plain => false,
                Mark::Unreadable => fault == ToolFault::Unreadable,
                Mark::Tool(attr) => router::tool_plan(
                    attr,
                    methods[bad].function@,
                    methods[bad].inputs@,
                    methods[bad].ret,
                ) == Err::<ToolPlanView, ToolFault>(fault),
            },
        },
        router::tool_plans(methods) matches Ok(plans) ==> forall|i: int, j: int|
            0 <= i < j < plans.len() ==> (#[trigger] plans[i]).0 < (#[trigger] plans[j]).0,
        router::tool_plans(methods) matches Ok(plans) ==> forall|i: int|
            0 <= i < plans.len() ==> 0 <= (#[trigger] plans[i]).0 < methods.len(),
    decreases methods.len(),
{
    let less = methods.drop_last();
    let last = methods.len() - 1;
    if methods.len() > 1 {
        let inner = if at < last {
            at
        } else {
            0
        };
        every_marked_function_is_planned(less, inner);
        assert(less[inner] == methods[inner]);
    } else {
        assert(less =~= Seq::empty());
    }
    match router::tool_plans(less) {
        Err((bad, _)) => {
            assert(less[bad] == methods[bad]);
        },
        Ok(before) => {
            if let Ok(plans) = router::tool_plans(methods) {
                if at == last {
                    if let Mark::Tool(_) = methods[last].mark {
                        assert(plans[before.len() as int].0 == last);
                        assert(plans.contains(plans[before.len() as int]));
                    } else {
                        assert forall|k: int| 0 <= k < plans.len() implies (
                        #[trigger] plans[k]).0 != at by {
                            assert(before[k].0 < less.len());
                        }
                    }
                } else {
                    if let Mark::Tool(attr) = methods[at].mark {
                        let plan = router::tool_plan(
                            attr,
                            methods[at].function@,
                            methods[at].inputs@,
                            methods[at].ret,
                        )->Ok_0;
                        let k = choose|k: int| 0 <= k < before.len() && before[k] == (at, plan);
                        assert(plans[k] == (at, plan));
                    }
                }
            }
        },
    }
}

/// A call reaches the first tool of its name, and none where there is no such tool.
pub proof fn calls_reach_the_tool_they_name(names: Seq<Seq<char>>, name: Seq<char>, from: int)
    requires
        0 <= from <= names.len(),
    ensures
        match router::tool_named(names, name, from) {
            Some(at) => from <= at < names.len() && names[at] == name && forall|i: int|
                from <= i < at ==> #[trigger] names[i] != name,
            None => forall|i: int| from <= i < names.len() ==> #[trigger] names[i] != name,
        },
    decreases names.len() - from,
{
    if from < names.len() {
        calls_reach_the_tool_they_name(names, name, from + 1);
    }
}

/// An argument of a foreign type, `Parameters` without its type and `Parameters` around
/// none are three faults; `Parameters` around a type is none.
pub proof fn argument_faults_are_told_apart(ty: TypeShape)
    ensures
        router::input_fault(ty) == Some(InputFault::Foreign) <==> !(ty.last matches Some(name)
            && name@ == "Parameters"@),
        ty.last matches Some(name) ==> name@ == "Parameters"@ ==> {
            &&& ty.brackets is Absent ==> router::input_fault(ty) == Some(InputFault::Unspelled)
            &&& ty.brackets is NoType ==> router::input_fault(ty) == Some(InputFault::Untyped)
            &&& ty.brackets is Of ==> router::input_fault(ty) is None
        },
{
}

/// Who calls a tool that there is not is told its name.
pub proof fn unknown_tools_are_named(name: Seq<char>)
    ensures
        text::ends(router::unknown_tool_text(name), name),
        router::unknown_tool_text(name).len() > name.len(),
{
    reveal_strlit("unknown tool: ");
    let told = router::unknown_tool_text(name);
    assert(told.skip(told.len() - name.len()) =~= name);
}

} // verus!
