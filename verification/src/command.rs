//! Command lines as data: what is registered, and what was parsed.
//!
//! A [`CommandSpec`] is handed to the argument parser, and [`Matches`] is what
//! comes back of it.

use vstd::prelude::*;

use crate::text;
use crate::text::{list_has, same};
use crate::tool;

verus! {

/// When an argument has to be given.
#[derive(Debug, Clone, Copy, PartialEq, Eq, Structural)]
pub enum Need {
    Optional,
    Required,
    /// Required unless the argument of this meaning stands in for it: a file
    /// with the whole of the arguments.
    UnlessJsonInput,
}

/// What an occurrence of an argument does.
#[derive(Debug, Clone, Copy, PartialEq, Eq, Structural)]
pub enum Action {
    /// Takes one value.
    TakeOne,
    /// Takes none, and says yes.
    Switch,
    /// Takes one value, and adds it to those given before.
    Append,
    /// Takes one value or more, and adds them to those given before.
    AppendMany,
}

/// What the value of an argument has to be.
#[derive(Debug, Clone, Copy, PartialEq, Eq, Structural)]
pub enum Kind {
    /// Any text.
    Text,
    /// A socket address.
    Address,
    /// A path.
    Path,
    /// A number without a sign.
    Unsigned,
    /// A number in a range, both ends in it.
    UnsignedIn { low: u64, high: u64 },
}

/// One argument of a command.
#[derive(Debug)]
pub struct ArgSpec {
    pub id: String,
    /// The long flag, without dashes; a positional has none.
    pub long: Option<String>,
    pub value_name: Option<String>,
    pub help: Option<String>,
    pub need: Need,
    pub action: Action,
    /// The permitted values, in any case; empty where any value is.
    pub values: Vec<String>,
    /// The argument that this one overrides.
    pub overrides: Option<String>,
    pub hidden: bool,
    /// Accepted by every subcommand too.
    pub global: bool,
    /// The value where none is given.
    pub default: Option<String>,
    /// What separates several values in one.
    pub delimiter: Option<char>,
    pub kind: Kind,
}

/// What an [`ArgSpec`] says.
pub struct ArgView {
    pub id: Seq<char>,
    pub long: Option<Seq<char>>,
    pub value_name: Option<Seq<char>>,
    pub help: Option<Seq<char>>,
    pub need: Need,
    pub action: Action,
    pub values: Seq<Seq<char>>,
    pub overrides: Option<Seq<char>>,
    pub hidden: bool,
    pub global: bool,
    pub default: Option<Seq<char>>,
    pub delimiter: Option<char>,
    pub kind: Kind,
}

impl View for ArgSpec {
    type V = ArgView;

    open spec fn view(&self) -> ArgView {
        ArgView {
            id: self.id@,
            long: tool::opt_text(self.long),
            value_name: tool::opt_text(self.value_name),
            help: tool::opt_text(self.help),
            need: self.need,
            action: self.action,
            values: text::texts(self.values@),
            overrides: tool::opt_text(self.overrides),
            hidden: self.hidden,
            global: self.global,
            default: tool::opt_text(self.default),
            delimiter: self.delimiter,
            kind: self.kind,
        }
    }
}

/// A plain argument with this id: optional, one value, nothing said of it.
pub open spec fn plain_arg(id: Seq<char>) -> ArgView {
    ArgView {
        id,
        long: None,
        value_name: None,
        help: None,
        need: Need::Optional,
        action: Action::TakeOne,
        values: Seq::empty(),
        overrides: None,
        hidden: false,
        global: false,
        default: None,
        delimiter: None,
        kind: Kind::Text,
    }
}

impl ArgSpec {
    /// A plain argument with this id.
    pub fn new(id: String) -> (res: Self)
        ensures
            res@ == plain_arg(id@),
    {
        let res = ArgSpec {
            id,
            long: None,
            value_name: None,
            help: None,
            need: Need::Optional,
            action: Action::TakeOne,
            values: Vec::new(),
            overrides: None,
            hidden: false,
            global: false,
            default: None,
            delimiter: None,
            kind: Kind::Text,
        };
        assert(text::texts(res.values@) =~= Seq::empty());
        res
    }
}

/// What a list of arguments says.
pub open spec fn args_said(args: Seq<ArgSpec>) -> Seq<ArgView> {
    Seq::new(args.len(), |i: int| args[i]@)
}

/// A command with its arguments and subcommands.
#[derive(Debug)]
pub struct CommandSpec {
    pub name: String,
    pub about: Option<String>,
    pub long_about: Option<String>,
    pub after_help: Option<String>,
    /// Whether one of the subcommands has to be given; with none the help shows.
    pub needs_subcommand: bool,
    pub args: Vec<ArgSpec>,
    pub subcommands: Vec<CommandSpec>,
}

/// What a [`CommandSpec`] says.
pub struct CommandView {
    pub name: Seq<char>,
    pub about: Option<Seq<char>>,
    pub long_about: Option<Seq<char>>,
    pub after_help: Option<Seq<char>>,
    pub needs_subcommand: bool,
    pub args: Seq<ArgView>,
    pub subcommands: Seq<CommandView>,
}

impl CommandSpec {
    /// What the command says.
    pub open spec fn said(&self) -> CommandView
        decreases self,
    {
        CommandView {
            name: self.name@,
            about: tool::opt_text(self.about),
            long_about: tool::opt_text(self.long_about),
            after_help: tool::opt_text(self.after_help),
            needs_subcommand: self.needs_subcommand,
            args: args_said(self.args@),
            subcommands: Seq::new(
                self.subcommands@.len(),
                |i: int|
                    if 0 <= i < self.subcommands@.len() {
                        self.subcommands@[i].said()
                    } else {
                        arbitrary()
                    },
            ),
        }
    }

    /// A command says what its subcommands say.
    pub proof fn subcommands_said(&self)
        ensures
            self.said().subcommands == commands_said(self.subcommands@),
    {
        reveal_with_fuel(CommandSpec::said, 2);
        assert(self.said().subcommands =~= commands_said(self.subcommands@));
    }

    /// The subcommand of this name.
    pub fn find_subcommand(&self, name: &str) -> (res: Option<&CommandSpec>)
        ensures
            match res {
                Some(command) => exists|i: int|
                    0 <= i < self.subcommands@.len() && #[trigger] self.subcommands@[i] == *command
                        && self.subcommands@[i].name@ == name@ && (forall|j: int|
                        0 <= j < i ==> (#[trigger] self.subcommands@[j]).name@ != name@),
                None => forall|j: int|
                    0 <= j < self.subcommands@.len() ==> (#[trigger] self.subcommands@[j]).name@
                        != name@,
            },
    {
        let mut i: usize = 0;
        while i < self.subcommands.len()
            invariant
                i <= self.subcommands.len(),
                forall|j: int|
                    0 <= j < i ==> (#[trigger] self.subcommands@[j]).name@ != name@,
            decreases self.subcommands.len() - i,
        {
            if same(self.subcommands[i].name.as_str(), name) {
                return Some(&self.subcommands[i]);
            }
            i += 1;
        }
        None
    }
}

/// What a list of commands says.
pub open spec fn commands_said(commands: Seq<CommandSpec>) -> Seq<CommandView> {
    Seq::new(commands.len(), |i: int| commands[i].said())
}

/// What was parsed of a command line.
#[derive(Debug)]
pub struct Matches {
    /// The flags that were set.
    pub flags: Vec<String>,
    /// The values of the other arguments that were given, by id.
    pub values: Vec<(String, Vec<String>)>,
    /// The paths that were given, by id. A path is bytes: it need not be text.
    pub paths: Vec<(String, Vec<u8>)>,
    /// The subcommand, if one was given.
    pub subcommand: Option<Box<(String, Matches)>>,
}

/// The values given for an argument, at or after `from`.
pub open spec fn values_from(
    values: Seq<(String, Vec<String>)>,
    id: Seq<char>,
    from: int,
) -> Option<Seq<Seq<char>>>
    decreases values.len() - from,
{
    if from >= values.len() {
        None
    } else if values[from].0@ == id {
        Some(text::texts(values[from].1@))
    } else {
        values_from(values, id, from + 1)
    }
}

/// The path given for an argument, at or after `from`.
pub open spec fn path_from(
    paths: Seq<(String, Vec<u8>)>,
    id: Seq<char>,
    from: int,
) -> Option<Seq<u8>>
    decreases paths.len() - from,
{
    if from >= paths.len() {
        None
    } else if paths[from].0@ == id {
        Some(paths[from].1@)
    } else {
        path_from(paths, id, from + 1)
    }
}

impl Matches {
    /// Whether a flag was set.
    pub open spec fn set(&self, id: Seq<char>) -> bool {
        text::texts(self.flags@).contains(id)
    }

    /// The values given for an argument.
    pub open spec fn given(&self, id: Seq<char>) -> Option<Seq<Seq<char>>> {
        values_from(self.values@, id, 0)
    }

    /// The first value given for an argument.
    pub open spec fn first(&self, id: Seq<char>) -> Option<Seq<char>> {
        match self.given(id) {
            Some(list) => if list.len() > 0 {
                Some(list[0])
            } else {
                None
            },
            None => None,
        }
    }

    /// The path given for an argument.
    pub open spec fn placed(&self, id: Seq<char>) -> Option<Seq<u8>> {
        path_from(self.paths@, id, 0)
    }

    /// Whether a flag was set.
    pub fn flag(&self, id: &str) -> (res: bool)
        ensures
            res == self.set(id@),
    {
        list_has(self.flags.as_slice(), id)
    }

    /// The values given for an argument.
    pub fn many(&self, id: &str) -> (res: Option<&Vec<String>>)
        ensures
            match res {
                Some(list) => self.given(id@) == Some(text::texts(list@)),
                None => self.given(id@) is None,
            },
    {
        let mut i: usize = 0;
        while i < self.values.len()
            invariant
                i <= self.values.len(),
                self.given(id@) == values_from(self.values@, id@, i as int),
            decreases self.values.len() - i,
        {
            if same(self.values[i].0.as_str(), id) {
                return Some(&self.values[i].1);
            }
            i += 1;
        }
        None
    }

    /// The path given for an argument.
    pub fn path(&self, id: &str) -> (res: Option<&Vec<u8>>)
        ensures
            match res {
                Some(path) => self.placed(id@) == Some(path@),
                None => self.placed(id@) is None,
            },
    {
        let mut i: usize = 0;
        while i < self.paths.len()
            invariant
                i <= self.paths.len(),
                self.placed(id@) == path_from(self.paths@, id@, i as int),
            decreases self.paths.len() - i,
        {
            if same(self.paths[i].0.as_str(), id) {
                return Some(&self.paths[i].1);
            }
            i += 1;
        }
        None
    }

    /// The first value given for an argument.
    pub fn one(&self, id: &str) -> (res: Option<&str>)
        ensures
            match res {
                Some(value) => self.first(id@) == Some(value@),
                None => self.first(id@) is None,
            },
    {
        match self.many(id) {
            Some(list) => {
                assert(text::texts(list@).len() == list@.len());
                if list.len() > 0 {
                    assert(text::texts(list@)[0] == list@[0]@);
                    Some(list[0].as_str())
                } else {
                    None
                }
            },
            None => None,
        }
    }
}

} // verus!
