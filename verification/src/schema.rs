//! What a command declares: its name, its help text, its argument slots,
//! and what completes each slot.

use vstd::prelude::*;

use crate::command::{Account, Command};
use crate::decode::ArgType;
use crate::lexer::{lex, LexError};
use crate::text::{indent, indented, push_char};

verus! {

/// One declared argument of a command.
///
/// `completion` tells whether the command brings a hook that suggests
/// values for the slot, `lookup` whether it brings one that finds a value
/// where the line has none. The hooks themselves stay with the caller.
#[derive(Debug)]
pub enum ArgumentSpec {
    /// A positional argument that must be on the line.
    Required { name: String, kind: ArgType, completion: bool },
    /// A positional argument that may be missing.
    Optional { name: String, kind: ArgType, lookup: bool, completion: bool },
    /// An argument written `name=value`, anywhere on the line.
    Named { name: String, kind: ArgType, completion: bool },
    /// A secret, typed on the line or asked for later.
    Secret { name: String, lookup: bool, completion: bool },
    /// The name of one of the commands `children`, which takes over.
    Subcommand { name: String, children: Vec<CommandParser> },
}

/// What suggests values for a slot.
#[derive(Debug, PartialEq, Eq)]
pub enum Completion {
    /// Nothing does.
    Nothing,
    /// The hook that the command brings for the slot.
    Hook,
    /// The names of the subcommands.
    Children(Vec<String>),
}

/// What suggests values for a slot, as a mathematical value.
pub enum CompletionView {
    Nothing,
    Hook,
    Children(Seq<Seq<char>>),
}

impl View for Completion {
    type V = CompletionView;

    open spec fn view(&self) -> CompletionView {
        match self {
            Completion::Nothing => CompletionView::Nothing,
            Completion::Hook => CompletionView::Hook,
            Completion::Children(names) => CompletionView::Children(names.deep_view()),
        }
    }
}

/// A command as it is declared: the schema that a command line is bound
/// against.
#[derive(Debug)]
pub struct CommandParser {
    pub name: String,
    /// The description, then the help of each subcommand.
    pub help: String,
    /// The argument slots, in the order they are declared in.
    pub args: Vec<ArgumentSpec>,
    /// What completes the slots: one entry for each, in the same order.
    pub autocompletions: Vec<Completion>,
}

impl ArgumentSpec {
    /// The name that the slot is declared under.
    pub open spec fn name(self) -> Seq<char> {
        match self {
            ArgumentSpec::Required { name, .. } => name@,
            ArgumentSpec::Optional { name, .. } => name@,
            ArgumentSpec::Named { name, .. } => name@,
            ArgumentSpec::Secret { name, .. } => name@,
            ArgumentSpec::Subcommand { name, .. } => name@,
        }
    }

    /// What completes the slot: the subcommands' names for a subcommand
    /// slot, the hook where the slot has one, nothing otherwise.
    pub open spec fn completion(self) -> CompletionView {
        match self {
            ArgumentSpec::Required { completion, .. }
            | ArgumentSpec::Optional { completion, .. }
            | ArgumentSpec::Named { completion, .. }
            | ArgumentSpec::Secret { completion, .. } => if completion {
                CompletionView::Hook
            } else {
                CompletionView::Nothing
            },
            ArgumentSpec::Subcommand { children, .. } => CompletionView::Children(
                names_of(children@),
            ),
        }
    }

    /// What the slot adds to the help of its command: the help of each
    /// subcommand, for a subcommand slot.
    pub open spec fn help(self) -> Seq<char> {
        match self {
            ArgumentSpec::Subcommand { children, .. } => children_help(children@),
            _ => Seq::empty(),
        }
    }
}

/// The names of the commands `children`, in order.
pub open spec fn names_of(children: Seq<CommandParser>) -> Seq<Seq<char>> {
    Seq::new(children.len(), |i: int| children[i].name@)
}

/// What completes each of the slots `args`, in order.
pub open spec fn completions(args: Seq<ArgumentSpec>) -> Seq<CompletionView> {
    Seq::new(args.len(), |i: int| args[i].completion())
}

/// The completions `list`, as mathematical values.
pub open spec fn completions_view(list: Seq<Completion>) -> Seq<CompletionView> {
    Seq::new(list.len(), |i: int| list[i]@)
}

/// What sets the help of a subcommand off from what stands before it: a
/// blank line.
pub open spec fn help_break() -> Seq<char> {
    seq!['\n', '\n']
}

/// What one level of help is indented by.
pub open spec fn help_indent() -> Seq<char> {
    seq!['\t']
}

/// The help of the commands `children`: for each a blank line, then its
/// own help indented by one level.
pub open spec fn children_help(children: Seq<CommandParser>) -> Seq<char>
    decreases children.len(),
{
    if children.len() == 0 {
        Seq::empty()
    } else {
        children_help(children.drop_last()) + help_break() + indented(
            children.last().help@,
            help_indent(),
        )
    }
}

/// The help of a command: its description, then what each slot adds.
pub open spec fn help_text(description: Seq<char>, args: Seq<ArgumentSpec>) -> Seq<char>
    decreases args.len(),
{
    if args.len() == 0 {
        description
    } else {
        help_text(description, args.drop_last()) + args.last().help()
    }
}

/// Adds the help of one subcommand, already indented, to the help `help`.
pub fn append_child_help(help: &mut String, child: &str)
    ensures
        final(help)@ == old(help)@ + help_break() + child@,
{
    push_char(help, '\n');
    push_char(help, '\n');
    help.append(child);
    assert(help@ =~= old(help)@ + help_break() + child@);
}

/// The names of the commands `children`.
fn child_names(children: &Vec<CommandParser>) -> (names: Vec<String>)
    ensures
        names.deep_view() == names_of(children@),
{
    let mut names: Vec<String> = Vec::new();
    let mut i: usize = 0;
    while i < children.len()
        invariant
            i <= children.len(),
            names.deep_view() == names_of(children@.take(i as int)),
        decreases children.len() - i,
    {
        let ghost before = names.deep_view();
        names.push(children[i].name.clone());
        assert(names.deep_view() =~= before.push(children@[i as int].name@));
        assert(names_of(children@.take(i as int + 1)) =~= names_of(children@.take(i as int)).push(
            children@[i as int].name@,
        ));
        i = i + 1;
    }
    assert(children@.take(children.len() as int) =~= children@);
    names
}

/// What completes the slot `slot`.
fn completion_of(slot: &ArgumentSpec) -> (r: Completion)
    ensures
        r@ == slot.completion(),
{
    match slot {
        ArgumentSpec::Required { completion, .. }
        | ArgumentSpec::Optional { completion, .. }
        | ArgumentSpec::Named { completion, .. }
        | ArgumentSpec::Secret { completion, .. } => if *completion {
            Completion::Hook
        } else {
            Completion::Nothing
        },
        ArgumentSpec::Subcommand { children, .. } => Completion::Children(child_names(children)),
    }
}

impl CommandParser {
    /// Whether each slot has its entry in the completions: the entry at
    /// the index of a slot is what completes that slot.
    pub open spec fn wf(&self) -> bool {
        completions_view(self.autocompletions@) == completions(self.args@)
    }

    /// Declares the command `name`, described by `description`, with the
    /// argument slots `args`.
    pub fn new(name: &str, description: &str, args: Vec<ArgumentSpec>) -> (r: CommandParser)
        ensures
            r.name@ == name@,
            r.help@ == help_text(description@, args@),
            r.args == args,
            r.wf(),
            r.autocompletions@.len() == args@.len(),
    {
        let mut help = description.to_owned();
        let mut autocompletions: Vec<Completion> = Vec::new();
        let mut i: usize = 0;
        assert(args@.take(0) =~= Seq::<ArgumentSpec>::empty());
        while i < args.len()
            invariant
                i <= args.len(),
                help@ == help_text(description@, args@.take(i as int)),
                completions_view(autocompletions@) == completions(args@.take(i as int)),
                autocompletions@.len() == i,
            decreases args.len() - i,
        {
            let ghost seen = args@.take(i as int + 1);
            assert(seen.drop_last() =~= args@.take(i as int));
            assert(seen.last() == args@[i as int]);
            match &args[i] {
                ArgumentSpec::Subcommand { children, .. } => {
                    let ghost before = help@;
                    let mut j: usize = 0;
                    assert(children@.take(0) =~= Seq::<CommandParser>::empty());
                    while j < children.len()
                        invariant
                            j <= children.len(),
                            help@ == before + children_help(children@.take(j as int)),
                        decreases children.len() - j,
                    {
                        let ghost part = children@.take(j as int + 1);
                        assert(part.drop_last() =~= children@.take(j as int));
                        assert(part.last() == children@[j as int]);
                        proof {
                            reveal_strlit("\t");
                            assert("\t"@ =~= help_indent());
                        }
                        let child = indent(children[j].help.as_str(), "\t");
                        append_child_help(&mut help, child.as_str());
                        assert(help@ =~= before + children_help(part));
                        j = j + 1;
                    }
                    assert(children@.take(children.len() as int) =~= children@);
                },
                _ => {
                    assert(help@ + args@[i as int].help() =~= help@);
                },
            }
            let ghost listed = completions_view(autocompletions@);
            autocompletions.push(completion_of(&args[i]));
            assert(completions_view(autocompletions@) =~= listed.push(args@[i as int].completion()));
            assert(completions(seen) =~= completions(args@.take(i as int)).push(
                args@[i as int].completion(),
            ));
            i = i + 1;
        }
        assert(args@.take(args.len() as int) =~= args@);
        CommandParser { name: name.to_owned(), help, args, autocompletions }
    }

    /// Lexes the line `buf` for this command, with the edit cursor at its
    /// end.
    pub fn parse(&self, account: &Option<Account>, context: &str, buf: &str) -> (r: Result<
        Command,
        LexError,
    >)
        ensures
            match lex(buf@, Command::end_cursor(buf@)) {
                Ok(lexed) => r matches Ok(command) && command.account == *account
                    && command.context@ == context@ && command.tokens() == lexed.args
                    && command.cursor == lexed.cursor && command.wf(),
                Err(e) => r matches Err(x) && x == e,
            },
    {
        let account = match account {
            Some(account) => Some(account.duplicate()),
            None => None,
        };
        Command::new(account, context.to_owned(), buf.to_owned())
    }
}

} // verus!
