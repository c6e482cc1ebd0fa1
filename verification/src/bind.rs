//! Binding the tokens of a command to the argument slots that the command
//! declares.
//!
//! Binding walks the slots in the order they are declared in, starting at
//! the token after the command's name. It stops early where a slot has no
//! token and declares a lookup: the caller runs the lookup and resumes the
//! binding with the answer.

use vstd::prelude::*;

use crate::command::{Command, CommandView};
use crate::decode::{bound_view, decode, decoded, values_view, ArgType, Value, ValueView};
use crate::schema::{ArgumentSpec, CommandParser};
use crate::text::chars_of;

verus! {

/// Why a command could not be bound.
#[derive(Debug, PartialEq, Eq)]
pub enum BindError {
    /// The line has no token for the slot `name`.
    MissingArgument { name: String },
    /// The token `token` of the slot `name` does not write a value of the
    /// type `expected`.
    TypeError { name: String, token: String, expected: ArgType },
    /// The line has more than one token for the named slot `name`.
    MultipleOccurrences { name: String },
    /// No subcommand is called `token`.
    InvalidSubcommand { token: String },
}

/// Why a command could not be bound, as a mathematical value.
pub enum Failure {
    MissingArgument { name: Seq<char> },
    TypeError { name: Seq<char>, token: Seq<char>, expected: ArgType },
    MultipleOccurrences { name: Seq<char> },
    InvalidSubcommand { token: Seq<char> },
}

impl View for BindError {
    type V = Failure;

    open spec fn view(&self) -> Failure {
        match self {
            BindError::MissingArgument { name } => Failure::MissingArgument { name: name@ },
            BindError::TypeError { name, token, expected } => Failure::TypeError {
                name: name@,
                token: token@,
                expected: *expected,
            },
            BindError::MultipleOccurrences { name } => Failure::MultipleOccurrences {
                name: name@,
            },
            BindError::InvalidSubcommand { token } => Failure::InvalidSubcommand {
                token: token@,
            },
        }
    }
}

impl Failure {
    /// The one-line text of the error.
    pub open spec fn text(self) -> Seq<char> {
        match self {
            Failure::MissingArgument { name } => "Missing "@ + name + " argument"@,
            Failure::TypeError { name, token, expected } => "Invalid "@ + name + " argument "@
                + token + ": "@ + expected.label() + " expected"@,
            Failure::MultipleOccurrences { name } => "Multiple occurance of "@ + name
                + " argument"@,
            Failure::InvalidSubcommand { token } => "Invalid subcommand "@ + token,
        }
    }
}

impl BindError {
    /// The error as a line to show to the user.
    pub fn message(&self) -> (r: String)
        ensures
            r@ == self@.text(),
    {
        match self {
            BindError::MissingArgument { name } => {
                let mut line = "Missing ".to_owned();
                line.append(name.as_str());
                line.append(" argument");
                line
            },
            BindError::TypeError { name, token, expected } => {
                let mut line = "Invalid ".to_owned();
                line.append(name.as_str());
                line.append(" argument ");
                line.append(token.as_str());
                line.append(": ");
                line.append(expected.name().as_str());
                line.append(" expected");
                line
            },
            BindError::MultipleOccurrences { name } => {
                let mut line = "Multiple occurance of ".to_owned();
                line.append(name.as_str());
                line.append(" argument");
                line
            },
            BindError::InvalidSubcommand { token } => {
                let mut line = "Invalid subcommand ".to_owned();
                line.append(token.as_str());
                line
            },
        }
    }
}

/// How far a binding has come: the command as it was given, the command as
/// it stands, with the named tokens that were bound taken out, the number
/// of positional slots passed, the slot that is next, and the values bound
/// so far, one for each slot passed.
pub struct Progress {
    pub given: CommandView,
    pub command: CommandView,
    pub position: nat,
    pub slot: nat,
    pub values: Seq<Option<ValueView>>,
}

/// How a binding ended, as a mathematical value.
pub enum Outcome {
    /// Every slot is bound, to these values. The command is left as it
    /// stands.
    Bound { command: CommandView, values: Seq<Option<ValueView>> },
    /// The slot that is next has no token and declares a lookup.
    Lookup(Progress),
    /// A secret is neither on the line nor found: it is to be asked for,
    /// for the command as it was given.
    RequestSecret(CommandView),
    /// The subcommand `child` of the slot `slot` takes over, with the
    /// command `command`.
    Dispatch { slot: nat, child: nat, command: CommandView },
}

impl Progress {
    /// The first state of a binding of `command`.
    pub open spec fn start(command: CommandView) -> Progress {
        Progress { given: command, command, position: 0, slot: 0, values: Seq::empty() }
    }

    /// The token of the positional slot that is next, if the line has it.
    /// The command's name is no argument: it is skipped.
    pub open spec fn token(self) -> Option<Seq<char>> {
        if self.position + 1 < self.command.args.len() {
            Some(self.command.args[self.position as int + 1])
        } else {
            None
        }
    }

    /// The state after a positional slot was bound to `value`.
    pub open spec fn passed(self, value: Option<ValueView>) -> Progress {
        Progress {
            given: self.given,
            command: self.command,
            position: self.position + 1,
            slot: self.slot + 1,
            values: self.values.push(value),
        }
    }

    /// The state after a named slot was bound to `value`, with the tokens
    /// `args` left.
    pub open spec fn named(self, args: Seq<Seq<char>>, value: Option<ValueView>) -> Progress {
        Progress {
            given: self.given,
            command: CommandView {
                account: self.command.account,
                context: self.command.context,
                args,
                cursor: self.command.cursor,
            },
            position: self.position,
            slot: self.slot + 1,
            values: self.values.push(value),
        }
    }

    /// The command that a subcommand takes over with: the tokens from the
    /// one of the slot that is next on, so that the subcommand finds its
    /// own name first.
    pub open spec fn handed_over(self) -> CommandView {
        CommandView {
            account: self.command.account,
            context: self.command.context,
            args: self.command.args.skip(self.position as int + 1),
            cursor: self.command.cursor,
        }
    }
}

/// Whether `token` starts with `name`.
pub open spec fn starts_with(token: Seq<char>, name: Seq<char>) -> bool {
    name.len() <= token.len() && token.take(name.len() as int) == name
}

/// The tokens among `args` that start with `name`, in order.
pub open spec fn matching(args: Seq<Seq<char>>, name: Seq<char>) -> Seq<Seq<char>>
    decreases args.len(),
{
    if args.len() == 0 {
        Seq::empty()
    } else if starts_with(args.last(), name) {
        matching(args.drop_last(), name).push(args.last())
    } else {
        matching(args.drop_last(), name)
    }
}

/// The tokens among `args` that do not start with `name`, in order.
pub open spec fn remaining(args: Seq<Seq<char>>, name: Seq<char>) -> Seq<Seq<char>>
    decreases args.len(),
{
    if args.len() == 0 {
        Seq::empty()
    } else if starts_with(args.last(), name) {
        remaining(args.drop_last(), name)
    } else {
        remaining(args.drop_last(), name).push(args.last())
    }
}

/// What follows the first `=` of `token`, if it has one.
pub open spec fn after_equals(token: Seq<char>) -> Option<Seq<char>>
    decreases token.len(),
{
    if token.len() == 0 {
        None
    } else if token[0] == '=' {
        Some(token.skip(1))
    } else {
        after_equals(token.skip(1))
    }
}

/// The command among `children` that is called `token`: the last one so
/// called, if several are.
pub open spec fn find_child(children: Seq<CommandParser>, token: Seq<char>) -> Option<nat>
    decreases children.len(),
{
    if children.len() == 0 {
        None
    } else if children.last().name@ == token {
        Some((children.len() - 1) as nat)
    } else {
        find_child(children.drop_last(), token)
    }
}

/// What the named token `token` of the slot `name` binds to.
pub open spec fn named_value(name: Seq<char>, kind: ArgType, token: Seq<char>) -> Result<
    ValueView,
    Failure,
> {
    match after_equals(token) {
        Some(written) => match decoded(kind, written) {
            Some(value) => Ok(value),
            None => Err(Failure::TypeError { name, token, expected: kind }),
        },
        None => Err(Failure::TypeError { name, token, expected: kind }),
    }
}

/// How the binding of a command to the slots `slots` ends, taken up in the
/// state `at`.
///
/// - A required slot takes the token that is next. Without one the
///   argument is missing; a token that does not decode is a type error.
/// - An optional slot takes the token that is next, if there is one.
///   Without one the binding stops for the slot's lookup, if it has one,
///   and else binds nothing. The slot is passed in either case.
/// - A named slot takes out every token of the whole line that starts
///   with the slot's name, the command's name included. One such token
///   binds what follows its first `=`; none binds nothing; several are an
///   error. No positional slot is passed.
/// - A secret slot takes the token that is next, as it stands. Without
///   one the binding stops for the slot's lookup, if it has one, and else
///   ends with the request to ask for the secret.
/// - A subcommand slot needs the token that is next to be the name of one
///   of its commands, and hands the rest of the line over to it.
pub open spec fn bind_from(slots: Seq<ArgumentSpec>, at: Progress) -> Result<Outcome, Failure>
    decreases slots.len() - at.slot,
{
    if at.slot >= slots.len() {
        Ok(Outcome::Bound { command: at.command, values: at.values })
    } else {
        match slots[at.slot as int] {
            ArgumentSpec::Required { name, kind, .. } => match at.token() {
                Some(token) => match decoded(kind, token) {
                    Some(value) => bind_from(slots, at.passed(Some(value))),
                    None => Err(Failure::TypeError { name: name@, token, expected: kind }),
                },
                None => Err(Failure::MissingArgument { name: name@ }),
            },
            ArgumentSpec::Optional { name, kind, lookup, .. } => match at.token() {
                Some(token) => match decoded(kind, token) {
                    Some(value) => bind_from(slots, at.passed(Some(value))),
                    None => Err(Failure::TypeError { name: name@, token, expected: kind }),
                },
                None => if lookup {
                    Ok(Outcome::Lookup(at))
                } else {
                    bind_from(slots, at.passed(None))
                },
            },
            ArgumentSpec::Named { name, kind, .. } => {
                let found = matching(at.command.args, name@);
                let rest = remaining(at.command.args, name@);
                if found.len() == 0 {
                    bind_from(slots, at.named(rest, None))
                } else if found.len() == 1 {
                    match named_value(name@, kind, found[0]) {
                        Ok(value) => bind_from(slots, at.named(rest, Some(value))),
                        Err(e) => Err(e),
                    }
                } else {
                    Err(Failure::MultipleOccurrences { name: name@ })
                }
            },
            ArgumentSpec::Secret { lookup, .. } => match at.token() {
                Some(token) => bind_from(slots, at.passed(Some(ValueView::Secret(token)))),
                None => if lookup {
                    Ok(Outcome::Lookup(at))
                } else {
                    Ok(Outcome::RequestSecret(at.given))
                },
            },
            ArgumentSpec::Subcommand { name, children } => match at.token() {
                Some(token) => match find_child(children@, token) {
                    Some(child) => Ok(
                        Outcome::Dispatch { slot: at.slot, child, command: at.handed_over() },
                    ),
                    None => Err(Failure::InvalidSubcommand { token }),
                },
                None => Err(Failure::MissingArgument { name: name@ }),
            },
        }
    }
}

/// How a binding that stopped in the state `at` for a lookup ends, once
/// the lookup has answered `answer`.
///
/// An optional slot binds the answer, be it a value or none. A secret slot
/// binds the value that was found; where none was, the binding ends with
/// the request to ask for the secret. On a slot of another kind, which no
/// binding stops at, the answer is dropped and the binding goes on.
pub open spec fn resume_from(slots: Seq<ArgumentSpec>, at: Progress, answer: Option<ValueView>)
    -> Result<Outcome, Failure> {
    if at.slot >= slots.len() {
        bind_from(slots, at)
    } else {
        match slots[at.slot as int] {
            ArgumentSpec::Optional { .. } => bind_from(slots, at.passed(answer)),
            ArgumentSpec::Secret { .. } => match answer {
                Some(value) => bind_from(slots, at.passed(Some(value))),
                None => Ok(Outcome::RequestSecret(at.given)),
            },
            _ => bind_from(slots, at),
        }
    }
}

/// A binding that stopped for a lookup.
#[derive(Debug)]
pub struct Pending {
    given: Command,
    command: Command,
    position: usize,
    slot: usize,
    values: Vec<Option<Value>>,
}

impl View for Pending {
    type V = Progress;

    closed spec fn view(&self) -> Progress {
        Progress {
            given: self.given@,
            command: self.command@,
            position: self.position as nat,
            slot: self.slot as nat,
            values: values_view(self.values@),
        }
    }
}

impl Pending {
    /// No more positional slots were passed than slots.
    #[verifier::type_invariant]
    spec fn inv(self) -> bool {
        self.position <= self.slot
    }

    /// The index of the slot whose lookup the binding waits for.
    pub fn slot(&self) -> (r: usize)
        ensures
            r == self@.slot,
    {
        self.slot
    }

    /// The command as it stands, for the lookup to look at.
    pub fn command(&self) -> (r: &Command)
        ensures
            r@ == self@.command,
    {
        &self.command
    }

    /// The command as it was given.
    pub fn given(&self) -> (r: &Command)
        ensures
            r@ == self@.given,
    {
        &self.given
    }
}

/// How a binding ended.
#[derive(Debug)]
pub enum Binding {
    /// Every slot is bound: one value for each, in order. The value of an
    /// optional or named slot that the line leaves out is `None`. The
    /// command is the one that was given, without the named tokens.
    Bound { command: Command, values: Vec<Option<Value>> },
    /// A slot has no token and declares a lookup: run it, on
    /// `Pending::command`, and hand the answer to `CommandParser::resume`.
    Lookup(Pending),
    /// A secret is missing: ask for it, and bind the line again once it
    /// has the secret as one more token. Nothing is wrong, and nothing of
    /// the command is to run yet.
    RequestSecret(Command),
    /// The subcommand `children[child]` of the slot `slot` takes over:
    /// bind `command` against it.
    Dispatch { slot: usize, child: usize, command: Command },
}

impl View for Binding {
    type V = Outcome;

    open spec fn view(&self) -> Outcome {
        match self {
            Binding::Bound { command, values } => Outcome::Bound {
                command: command@,
                values: values_view(values@),
            },
            Binding::Lookup(pending) => Outcome::Lookup(pending@),
            Binding::RequestSecret(command) => Outcome::RequestSecret(command@),
            Binding::Dispatch { slot, child, command } => Outcome::Dispatch {
                slot: *slot as nat,
                child: *child as nat,
                command: command@,
            },
        }
    }
}

/// The result of a binding, as a mathematical value.
pub open spec fn result_view(r: Result<Binding, BindError>) -> Result<Outcome, Failure> {
    match r {
        Ok(binding) => Ok(binding@),
        Err(e) => Err(e@),
    }
}

/// Whether `token` starts with the characters `name`.
fn token_starts_with(token: &str, name: &Vec<char>) -> (r: bool)
    ensures
        r == starts_with(token@, name@),
{
    let chars = chars_of(token);
    if name.len() > chars.len() {
        return false;
    }
    let mut i: usize = 0;
    while i < name.len()
        invariant
            i <= name.len() <= chars.len(),
            chars@ == token@,
            chars@.take(i as int) == name@.take(i as int),
        decreases name.len() - i,
    {
        if chars[i] != name[i] {
            assert(token@.take(name.len() as int)[i as int] != name@[i as int]);
            return false;
        }
        assert(chars@.take(i as int + 1) =~= chars@.take(i as int).push(chars@[i as int]));
        assert(name@.take(i as int + 1) =~= name@.take(i as int).push(name@[i as int]));
        i = i + 1;
    }
    assert(name@.take(name.len() as int) =~= name@);
    true
}

/// Takes the tokens that start with `name` out of `args`, and returns
/// them.
fn take_named(args: &mut Vec<String>, name: &str) -> (found: Vec<String>)
    ensures
        found.deep_view() == matching(old(args).deep_view(), name@),
        final(args).deep_view() == remaining(old(args).deep_view(), name@),
{
    let letters = chars_of(name);
    let mut found: Vec<String> = Vec::new();
    let mut i: usize = 0;
    let ghost all = args.deep_view();
    let ghost mut seen: int = 0;
    assert(all.take(0) =~= Seq::<Seq<char>>::empty());
    assert(found.deep_view() =~= Seq::<Seq<char>>::empty());
    assert(args.deep_view() =~= Seq::<Seq<char>>::empty() + all.skip(0));
    while i != args.len()
        invariant
            letters@ == name@,
            all == old(args).deep_view(),
            0 <= seen <= all.len(),
            i <= args.len(),
            i == remaining(all.take(seen), name@).len(),
            found.deep_view() == matching(all.take(seen), name@),
            args.deep_view() == remaining(all.take(seen), name@) + all.skip(seen),
        decreases all.len() - seen,
    {
        let ghost kept = remaining(all.take(seen), name@);
        let ghost taken = matching(all.take(seen), name@);
        let ghost tokens = args.deep_view();
        proof {
            assert(tokens.len() == kept.len() + all.skip(seen).len());
            assert(seen < all.len());
            assert(tokens[i as int] == all.skip(seen)[0]);
            assert(all.take(seen + 1).drop_last() =~= all.take(seen));
            assert(all.take(seen + 1).last() == all[seen]);
        }
        if token_starts_with(args[i].as_str(), &letters) {
            let token = args.remove(i);
            found.push(token);
            proof {
                assert(found.deep_view() =~= taken.push(all[seen]));
                assert(args.deep_view() =~= tokens.remove(i as int));
                assert(tokens.remove(i as int) =~= kept + all.skip(seen + 1));
            }
        } else {
            i = i + 1;
            proof {
                assert(tokens =~= kept.push(all[seen]) + all.skip(seen + 1));
            }
        }
        proof {
            seen = seen + 1;
        }
    }
    proof {
        assert(args.deep_view().len() == remaining(all.take(seen), name@).len() + all.skip(
            seen,
        ).len());
        assert(seen == all.len());
        assert(all.take(seen) =~= all);
        assert(args.deep_view() =~= remaining(all, name@));
    }
    found
}

/// What follows the first `=` of `token`, if it has one.
fn written_after_equals(token: &str) -> (r: Option<&str>)
    ensures
        match after_equals(token@) {
            Some(written) => r matches Some(s) && s@ == written,
            None => r is None,
        },
{
    let chars = chars_of(token);
    let n = chars.len();
    let mut i: usize = 0;
    assert(token@.skip(0) =~= token@);
    while i < n
        invariant
            n == chars.len(),
            chars@ == token@,
            i <= n,
            after_equals(token@) == after_equals(token@.skip(i as int)),
        decreases n - i,
    {
        assert(token@.skip(i as int)[0] == chars@[i as int]);
        assert(token@.skip(i as int).skip(1) =~= token@.skip(i as int + 1));
        if chars[i] == '=' {
            let written = token.substring_char(i + 1, n);
            assert(written@ =~= token@.skip(i as int + 1));
            return Some(written);
        }
        i = i + 1;
    }
    None
}

/// The index of the command among `children` that is called `token`.
fn child_called(children: &Vec<CommandParser>, token: &str) -> (r: Option<usize>)
    ensures
        match r {
            Some(child) => find_child(children@, token@) == Some(child as nat) && child
                < children@.len(),
            None => find_child(children@, token@) is None,
        },
{
    let name = chars_of(token);
    let mut found: Option<usize> = None;
    let mut i: usize = 0;
    assert(children@.take(0) =~= Seq::<CommandParser>::empty());
    while i < children.len()
        invariant
            i <= children.len(),
            name@ == token@,
            match found {
                Some(child) => find_child(children@.take(i as int), token@) == Some(child as nat)
                    && child < i,
                None => find_child(children@.take(i as int), token@) is None,
            },
        decreases children.len() - i,
    {
        let candidate = chars_of(children[i].name.as_str());
        proof {
            assert(children@.take(i as int + 1).drop_last() =~= children@.take(i as int));
            assert(children@.take(i as int + 1).last() == children@[i as int]);
        }
        if same_chars(&candidate, &name) {
            found = Some(i);
        }
        i = i + 1;
    }
    assert(children@.take(children.len() as int) =~= children@);
    found
}

/// Whether `a` and `b` hold the same characters.
fn same_chars(a: &Vec<char>, b: &Vec<char>) -> (r: bool)
    ensures
        r == (a@ == b@),
{
    if a.len() != b.len() {
        return false;
    }
    let mut i: usize = 0;
    while i < a.len()
        invariant
            i <= a.len(),
            a.len() == b.len(),
            a@.take(i as int) == b@.take(i as int),
        decreases a.len() - i,
    {
        if a[i] != b[i] {
            return false;
        }
        assert(a@.take(i as int + 1) =~= a@.take(i as int).push(a@[i as int]));
        assert(b@.take(i as int + 1) =~= b@.take(i as int).push(b@[i as int]));
        i = i + 1;
    }
    assert(a@.take(a.len() as int) =~= a@);
    assert(b@.take(b.len() as int) =~= b@);
    true
}

impl CommandParser {
    /// Binds `command` to the slots of this command.
    pub fn bind(&self, command: Command) -> (r: Result<Binding, BindError>)
        ensures
            result_view(r) == bind_from(self.args@, Progress::start(command@)),
    {
        let given = command.duplicate();
        let values: Vec<Option<Value>> = Vec::new();
        assert(values_view(values@) =~= Seq::<Option<ValueView>>::empty());
        self.run(Pending { given, command, position: 0, slot: 0, values })
    }

    /// Takes up the binding `pending`, which stopped for a lookup on this
    /// command, with what the lookup answered.
    pub fn resume(&self, pending: Pending, answer: Option<Value>) -> (r: Result<
        Binding,
        BindError,
    >)
        ensures
            result_view(r) == resume_from(self.args@, pending@, bound_view(answer)),
    {
        proof {
            use_type_invariant(&pending);
        }
        if pending.slot >= self.args.len() {
            return self.run(pending);
        }
        match &self.args[pending.slot] {
            ArgumentSpec::Optional { .. } => {
                let Pending { given, command, position, slot, values } = pending;
                let mut values = values;
                let ghost bound = values_view(values@);
                values.push(answer);
                assert(values_view(values@) =~= bound.push(bound_view(answer)));
                self.run(
                    Pending { given, command, position: position + 1, slot: slot + 1, values },
                )
            },
            ArgumentSpec::Secret { .. } => match answer {
                Some(value) => {
                    let Pending { given, command, position, slot, values } = pending;
                    let mut values = values;
                    let ghost bound = values_view(values@);
                    values.push(Some(value));
                    assert(values_view(values@) =~= bound.push(Some(value@)));
                    self.run(
                        Pending {
                            given,
                            command,
                            position: position + 1,
                            slot: slot + 1,
                            values,
                        },
                    )
                },
                None => {
                    let Pending { given, .. } = pending;
                    Ok(Binding::RequestSecret(given))
                },
            },
            _ => self.run(pending),
        }
    }

    /// Goes on with the binding `from`, slot by slot.
    fn run(&self, from: Pending) -> (r: Result<Binding, BindError>)
        ensures
            result_view(r) == bind_from(self.args@, from@),
    {
        proof {
            use_type_invariant(&from);
        }
        let ghost goal = bind_from(self.args@, from@);
        let Pending { given, command, position, slot, values } = from;
        let mut command = command;
        let mut position = position;
        let mut slot = slot;
        let mut values = values;
        while slot < self.args.len()
            invariant
                position <= slot,
                goal == bind_from(self.args@, from@),
                goal == bind_from(
                    self.args@,
                    Progress {
                        given: given@,
                        command: command@,
                        position: position as nat,
                        slot: slot as nat,
                        values: values_view(values@),
                    },
                ),
            decreases self.args.len() - slot,
        {
            let ghost at = Progress {
                given: given@,
                command: command@,
                position: position as nat,
                slot: slot as nat,
                values: values_view(values@),
            };
            let has_token = command.args.len() > 0 && position < command.args.len() - 1;
            assert(has_token == at.token() is Some);
            match &self.args[slot] {
                ArgumentSpec::Required { name, kind, .. } => {
                    if !has_token {
                        return Err(BindError::MissingArgument { name: name.clone() });
                    }
                    match decode(*kind, command.args[position + 1].as_str()) {
                        Some(value) => {
                            values.push(Some(value));
                            assert(values_view(values@) =~= at.values.push(Some(value@)));
                            position = position + 1;
                        },
                        None => {
                            return Err(
                                BindError::TypeError {
                                    name: name.clone(),
                                    token: command.args[position + 1].clone(),
                                    expected: *kind,
                                },
                            );
                        },
                    }
                },
                ArgumentSpec::Optional { name, kind, lookup, .. } => {
                    if has_token {
                        match decode(*kind, command.args[position + 1].as_str()) {
                            Some(value) => {
                                values.push(Some(value));
                                assert(values_view(values@) =~= at.values.push(Some(value@)));
                            },
                            None => {
                                return Err(
                                    BindError::TypeError {
                                        name: name.clone(),
                                        token: command.args[position + 1].clone(),
                                        expected: *kind,
                                    },
                                );
                            },
                        }
                    } else if *lookup {
                        return Ok(
                            Binding::Lookup(Pending { given, command, position, slot, values }),
                        );
                    } else {
                        values.push(None);
                        assert(values_view(values@) =~= at.values.push(None));
                    }
                    position = position + 1;
                },
                ArgumentSpec::Named { name, kind, .. } => {
                    let Command { account, context, args, cursor } = command;
                    let mut args = args;
                    let found = take_named(&mut args, name.as_str());
                    command = Command { account, context, args, cursor };
                    if found.len() == 0 {
                        values.push(None);
                        assert(values_view(values@) =~= at.values.push(None));
                    } else if found.len() == 1 {
                        let value = match written_after_equals(found[0].as_str()) {
                            Some(written) => decode(*kind, written),
                            None => None,
                        };
                        match value {
                            Some(value) => {
                                values.push(Some(value));
                                assert(values_view(values@) =~= at.values.push(Some(value@)));
                            },
                            None => {
                                return Err(
                                    BindError::TypeError {
                                        name: name.clone(),
                                        token: found[0].clone(),
                                        expected: *kind,
                                    },
                                );
                            },
                        }
                    } else {
                        return Err(BindError::MultipleOccurrences { name: name.clone() });
                    }
                },
                ArgumentSpec::Secret { lookup, .. } => {
                    if has_token {
                        let secret = Value::Secret(command.args[position + 1].clone());
                        values.push(Some(secret));
                        assert(values_view(values@) =~= at.values.push(Some(secret@)));
                    } else if *lookup {
                        return Ok(
                            Binding::Lookup(Pending { given, command, position, slot, values }),
                        );
                    } else {
                        return Ok(Binding::RequestSecret(given));
                    }
                    position = position + 1;
                },
                ArgumentSpec::Subcommand { name, children } => {
                    if !has_token {
                        return Err(BindError::MissingArgument { name: name.clone() });
                    }
                    match child_called(children, command.args[position + 1].as_str()) {
                        Some(child) => {
                            let Command { account, context, args, cursor } = command;
                            let mut args = args;
                            let rest = args.split_off(position + 1);
                            assert(rest.deep_view() =~= at.command.args.skip(position + 1));
                            return Ok(
                                Binding::Dispatch {
                                    slot,
                                    child,
                                    command: Command { account, context, args: rest, cursor },
                                },
                            );
                        },
                        None => {
                            return Err(
                                BindError::InvalidSubcommand {
                                    token: command.args[position + 1].clone(),
                                },
                            );
                        },
                    }
                },
            }
            slot = slot + 1;
        }
        Ok(Binding::Bound { command, values })
    }
}

/// A binding that goes through binds one value for each slot.
pub proof fn lemma_bound_one_value_for_each_slot(slots: Seq<ArgumentSpec>, at: Progress)
    requires
        at.slot <= slots.len(),
        at.values.len() == at.slot,
    ensures
        bind_from(slots, at) matches Ok(Outcome::Bound { values, .. }) ==> values.len()
            == slots.len(),
    decreases slots.len() - at.slot,
{
    if at.slot < slots.len() {
        match slots[at.slot as int] {
            ArgumentSpec::Required { kind, .. } => {
                if let Some(token) = at.token() {
                    if let Some(value) = decoded(kind, token) {
                        lemma_bound_one_value_for_each_slot(slots, at.passed(Some(value)));
                    }
                }
            },
            ArgumentSpec::Optional { kind, lookup, .. } => {
                if let Some(token) = at.token() {
                    if let Some(value) = decoded(kind, token) {
                        lemma_bound_one_value_for_each_slot(slots, at.passed(Some(value)));
                    }
                } else if !lookup {
                    lemma_bound_one_value_for_each_slot(slots, at.passed(None));
                }
            },
            ArgumentSpec::Named { name, kind, .. } => {
                let found = matching(at.command.args, name@);
                let rest = remaining(at.command.args, name@);
                if found.len() == 0 {
                    lemma_bound_one_value_for_each_slot(slots, at.named(rest, None));
                } else if found.len() == 1 {
                    if let Ok(value) = named_value(name@, kind, found[0]) {
                        lemma_bound_one_value_for_each_slot(slots, at.named(rest, Some(value)));
                    }
                }
            },
            ArgumentSpec::Secret { .. } => {
                if let Some(token) = at.token() {
                    lemma_bound_one_value_for_each_slot(
                        slots,
                        at.passed(Some(ValueView::Secret(token))),
                    );
                }
            },
            ArgumentSpec::Subcommand { .. } => {},
        }
    }
}

/// A required slot without a token is a missing argument, whatever the
/// slots after it are.
pub proof fn lemma_required_needs_token(slots: Seq<ArgumentSpec>, at: Progress)
    requires
        at.slot < slots.len(),
        slots[at.slot as int] is Required,
        at.token() is None,
    ensures
        bind_from(slots, at) == Err::<Outcome, Failure>(
            Failure::MissingArgument { name: slots[at.slot as int].name() },
        ),
{
}

/// A named slot that two tokens of the line or more start with the name of
/// is an error, whatever the slots after it are.
pub proof fn lemma_named_only_once(slots: Seq<ArgumentSpec>, at: Progress)
    requires
        at.slot < slots.len(),
        slots[at.slot as int] is Named,
        matching(at.command.args, slots[at.slot as int].name()).len() >= 2,
    ensures
        bind_from(slots, at) == Err::<Outcome, Failure>(
            Failure::MultipleOccurrences { name: slots[at.slot as int].name() },
        ),
{
}

/// A secret slot without a token and without a lookup is no error: the
/// binding ends there with the request to ask for the secret, for the
/// command as it was given, and binds none of the slots after it.
pub proof fn lemma_secret_is_asked_for(slots: Seq<ArgumentSpec>, at: Progress)
    requires
        at.slot < slots.len(),
        slots[at.slot as int] matches ArgumentSpec::Secret { lookup, .. } && !lookup,
        at.token() is None,
    ensures
        bind_from(slots, at) == Ok::<Outcome, Failure>(Outcome::RequestSecret(at.given)),
{
}

/// The same, of a lookup that finds nothing.
pub proof fn lemma_secret_not_found_is_asked_for(slots: Seq<ArgumentSpec>, at: Progress)
    requires
        at.slot < slots.len(),
        slots[at.slot as int] is Secret,
    ensures
        resume_from(slots, at, None) == Ok::<Outcome, Failure>(
            Outcome::RequestSecret(at.given),
        ),
{
}

} // verus!
