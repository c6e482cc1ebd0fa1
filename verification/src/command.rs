//! The command value: a lexed command line, and the line it assembles to.

use vstd::prelude::*;

pub use crate::schema::CommandParser;

use crate::escape::{
    assembled, escaped, escaped_body, first_quote, has_space, joined, lemma_body_without_quote,
    lemma_first_quote_none,
};
use crate::lexer::{
    cursor_token, has_prefix, lemma_run_keeps_tokens, lemma_run_push, lex, scan, tokens_at_end,
    LexError, LexState, PREFIX,
};
use crate::text::{
    char_is_alphanumeric, chars_of, grapheme_clusters, graphemes, is_alphanumeric, push_char,
};

verus! {

/// The account a command is issued under.
#[derive(Debug, Clone, PartialEq, Eq)]
pub struct Account {
    pub jid: String,
}

impl Account {
    /// A copy of this account.
    pub fn duplicate(&self) -> (r: Account)
        ensures
            r == *self,
    {
        Account { jid: self.jid.clone() }
    }
}

/// A command, as a mathematical value.
pub struct CommandView {
    pub account: Option<Seq<char>>,
    pub context: Seq<char>,
    pub args: Seq<Seq<char>>,
    pub cursor: nat,
}

/// How far the serializer has decided on the quotes round a token.
enum QuoteStyle {
    /// Nothing seen that asks for quotes.
    Unset,
    /// A space seen: quotes are needed, either kind will do.
    Spaced,
    /// Committed to `'...'`.
    Single,
    /// Committed to `"..."`.
    Double,
}

impl QuoteStyle {
    /// The quote character that is escaped under this style.
    spec fn quote(self) -> Option<char> {
        match self {
            QuoteStyle::Unset | QuoteStyle::Spaced => None,
            QuoteStyle::Single => Some('\''),
            QuoteStyle::Double => Some('"'),
        }
    }

    /// Whether this style is the one that a single pass over `seen` ends in.
    spec fn follows(self, seen: Seq<char>) -> bool {
        match self {
            QuoteStyle::Unset => first_quote(seen) is None && !has_space(seen),
            QuoteStyle::Spaced => first_quote(seen) is None && has_space(seen),
            QuoteStyle::Single => first_quote(seen) == Some('"'),
            QuoteStyle::Double => first_quote(seen) == Some('\''),
        }
    }
}

/// A command line split into tokens.
///
/// `args[0]` is the name of the command. `cursor` is the index of the token
/// that the edit cursor stands on; it equals `args.len()` when the cursor
/// stands where the next token would be typed.
#[derive(Debug, Clone, PartialEq, Eq)]
pub struct Command {
    pub account: Option<Account>,
    pub context: String,
    pub args: Vec<String>,
    pub cursor: usize,
}

impl View for Command {
    type V = CommandView;

    open spec fn view(&self) -> CommandView {
        CommandView {
            account: match self.account {
                Some(account) => Some(account.jid@),
                None => None,
            },
            context: self.context@,
            args: self.args.deep_view(),
            cursor: self.cursor as nat,
        }
    }
}

/// A copy of the tokens `tokens`.
pub fn duplicate_tokens(tokens: &Vec<String>) -> (r: Vec<String>)
    ensures
        r@ == tokens@,
{
    let mut copy: Vec<String> = Vec::new();
    let mut i: usize = 0;
    while i < tokens.len()
        invariant
            i <= tokens.len(),
            copy@ == tokens@.take(i as int),
        decreases tokens.len() - i,
    {
        copy.push(tokens[i].clone());
        assert(copy@ =~= tokens@.take(i as int + 1));
        i = i + 1;
    }
    assert(tokens@.take(tokens.len() as int) =~= tokens@);
    copy
}

impl Command {
    /// A copy of this command.
    pub fn duplicate(&self) -> (r: Command)
        ensures
            r@ == self@,
            r.account == self.account,
            r.context == self.context,
            r.args@ == self.args@,
            r.cursor == self.cursor,
    {
        let account = match &self.account {
            Some(account) => Some(account.duplicate()),
            None => None,
        };
        let args = duplicate_tokens(&self.args);
        assert(args.deep_view() =~= self.args.deep_view());
        Command { account, context: self.context.clone(), args, cursor: self.cursor }
    }

    /// The tokens, each as its sequence of characters.
    pub open spec fn tokens(&self) -> Seq<Seq<char>> {
        self.args.deep_view()
    }

    /// What the lexer establishes of a command: there is at least one
    /// token, and the cursor is on a token or just past the last one.
    pub open spec fn wf(&self) -> bool {
        &&& self.args@.len() > 0
        &&& self.cursor <= self.args@.len()
    }

    /// Where the cursor stands at the end of the line `text`: as many
    /// characters in as the line has grapheme clusters before its last.
    pub open spec fn end_cursor(text: Seq<char>) -> nat {
        let clusters = graphemes(text, true);
        if clusters.len() == 0 {
            0
        } else {
            (clusters.len() - 1) as nat
        }
    }

    /// Lexes the line `buf`, with the edit cursor at its end: on its last
    /// grapheme cluster.
    pub fn new(account: Option<Account>, context: String, buf: String) -> (r: Result<
        Command,
        LexError,
    >)
        ensures
            match lex(buf@, Self::end_cursor(buf@)) {
                Ok(lexed) => r matches Ok(command) && command.account == account
                    && command.context == context && command.tokens() == lexed.args
                    && command.cursor == lexed.cursor && command.wf(),
                Err(e) => r matches Err(x) && x == e,
            },
    {
        let count = grapheme_clusters(buf.as_str(), true).len();
        let cursor = if count == 0 {
            0
        } else {
            count - 1
        };
        Command::parse_with_cursor(account, context, buf, cursor)
    }

    /// Whether `name` is the longest run of letters and digits that follows
    /// the first character of `text`.
    pub open spec fn is_name_of(name: Seq<char>, text: Seq<char>) -> bool {
        let end = name.len() as int + 1;
        &&& end <= text.len()
        &&& name == text.subrange(1, end)
        &&& forall|i: int| 1 <= i < end ==> is_alphanumeric(#[trigger] text[i])
        &&& end < text.len() ==> !is_alphanumeric(text[end])
    }

    /// The name of the command on the line `buf`: the longest run of
    /// letters and digits that follows the prefix. Nothing else of the line
    /// is looked at, so quotes and escapes cannot make this fail.
    pub fn parse_name(buf: &str) -> (r: Result<&str, LexError>)
        ensures
            match r {
                Ok(name) => has_prefix(buf@) && Self::is_name_of(name@, buf@),
                Err(e) => !has_prefix(buf@) && e == LexError::MissingPrefix,
            },
    {
        let chars = chars_of(buf);
        let n = chars.len();
        if n == 0 || chars[0] != PREFIX {
            return Err(LexError::MissingPrefix);
        }
        let mut end: usize = 1;
        while end < n && char_is_alphanumeric(chars[end])
            invariant
                n == chars.len(),
                chars@ == buf@,
                1 <= end <= n,
                forall|i: int| 1 <= i < end ==> is_alphanumeric(#[trigger] chars@[i]),
            decreases n - end,
        {
            end = end + 1;
        }
        Ok(buf.substring_char(1, end))
    }

    /// Lexes the line `buf`, with the edit cursor at character offset
    /// `cursor`.
    pub fn parse_with_cursor(
        account: Option<Account>,
        context: String,
        buf: String,
        cursor: usize,
    ) -> (r: Result<Command, LexError>)
        ensures
            match lex(buf@, cursor as nat) {
                Ok(lexed) => r matches Ok(command) && command.account == account
                    && command.context == context && command.tokens() == lexed.args
                    && command.cursor == lexed.cursor && command.wf(),
                Err(e) => r matches Err(x) && x == e,
            },
    {
        let chars = chars_of(buf.as_str());
        let n = chars.len();
        let mut countdown: usize = cursor;
        let mut tokens: Vec<String> = Vec::new();
        let mut token = String::new();
        let mut state = LexState::Initial;
        let mut token_cursor: Option<usize> = None;
        let mut i: usize = 0;

        assert(chars@.take(0) =~= Seq::<char>::empty());
        assert(tokens.deep_view() =~= Seq::<Seq<char>>::empty());
        while i < n
            invariant
                n == chars.len(),
                chars@ == buf@,
                i <= n,
                state == scan(chars@.take(i as int)).state,
                tokens.deep_view() == scan(chars@.take(i as int)).tokens,
                token@ == scan(chars@.take(i as int)).token,
                i > 0 ==> has_prefix(chars@) && state != LexState::Initial,
                tokens.len() <= i,
                i <= cursor ==> countdown == cursor - i && token_cursor is None,
                i > cursor ==> token_cursor == Some(
                    scan(chars@.take(cursor as int + 1)).tokens.len() as usize,
                ) && scan(chars@.take(cursor as int + 1)).tokens.len() <= i,
            decreases n - i,
        {
            let c = chars[i];
            proof {
                assert(chars@.take(i as int + 1) =~= chars@.take(i as int).push(c));
                lemma_run_push(crate::lexer::start(), chars@.take(i as int), c);
            }
            let ghost before = tokens.deep_view();
            state =
            match state {
                LexState::Initial => {
                    if c == PREFIX {
                        LexState::Delimiter
                    } else {
                        return Err(LexError::MissingPrefix);
                    }
                },
                LexState::Delimiter => {
                    if c == ' ' {
                        LexState::Delimiter
                    } else if c == '\'' {
                        LexState::SimplyQuoted
                    } else if c == '"' {
                        LexState::DoublyQuoted
                    } else if c == '\\' {
                        LexState::UnquotedEscaped
                    } else {
                        crate::text::push_char(&mut token, c);
                        LexState::Unquoted
                    }
                },
                LexState::SimplyQuoted => {
                    if c == '\'' {
                        LexState::Unquoted
                    } else if c == '\\' {
                        LexState::SimplyQuotedEscaped
                    } else {
                        crate::text::push_char(&mut token, c);
                        LexState::SimplyQuoted
                    }
                },
                LexState::DoublyQuoted => {
                    if c == '"' {
                        LexState::Unquoted
                    } else if c == '\\' {
                        LexState::DoublyQuotedEscaped
                    } else {
                        crate::text::push_char(&mut token, c);
                        LexState::DoublyQuoted
                    }
                },
                LexState::Unquoted => {
                    if c == '\'' {
                        LexState::SimplyQuoted
                    } else if c == '"' {
                        LexState::DoublyQuoted
                    } else if c == '\\' {
                        LexState::UnquotedEscaped
                    } else if c == ' ' {
                        let ghost done = token@;
                        tokens.push(token);
                        token = String::new();
                        assert(tokens.deep_view() =~= before.push(done));
                        LexState::Delimiter
                    } else {
                        crate::text::push_char(&mut token, c);
                        LexState::Unquoted
                    }
                },
                LexState::UnquotedEscaped => {
                    crate::text::push_char(&mut token, c);
                    LexState::Unquoted
                },
                LexState::SimplyQuotedEscaped => {
                    crate::text::push_char(&mut token, c);
                    LexState::SimplyQuoted
                },
                LexState::DoublyQuotedEscaped => {
                    crate::text::push_char(&mut token, c);
                    LexState::DoublyQuoted
                },
            };
            assert(tokens.deep_view() == scan(chars@.take(i as int + 1)).tokens);
            assert(token@ == scan(chars@.take(i as int + 1)).token);

            if countdown == 0 {
                if token_cursor.is_none() {
                    token_cursor = Some(tokens.len());
                }
            } else {
                countdown = countdown - 1;
            }
            i = i + 1;
        }
        assert(chars@.take(n as int) =~= chars@);

        let args_cursor: usize;
        match state {
            LexState::Initial => {
                return Err(LexError::MissingPrefix);
            },
            LexState::SimplyQuoted | LexState::DoublyQuoted => {
                return Err(LexError::UnterminatedQuote);
            },
            LexState::UnquotedEscaped
            | LexState::SimplyQuotedEscaped
            | LexState::DoublyQuotedEscaped => {
                return Err(LexError::DanglingEscape);
            },
            LexState::Delimiter => {
                args_cursor =
                match token_cursor {
                    Some(k) => k,
                    None => tokens.len(),
                };
            },
            LexState::Unquoted => {
                let ghost before = tokens.deep_view();
                let ghost done = token@;
                tokens.push(token);
                assert(tokens.deep_view() =~= before.push(done));
                args_cursor =
                match token_cursor {
                    Some(k) => k,
                    None => tokens.len() - 1,
                };
            },
        }
        assert(tokens.deep_view() == tokens_at_end(scan(buf@)));
        proof {
            if cursor < n {
                lemma_run_keeps_tokens(
                    scan(buf@.take(cursor as int + 1)),
                    buf@.skip(cursor as int + 1),
                );
                crate::lexer::lemma_run_concat(
                    crate::lexer::start(),
                    buf@.take(cursor as int + 1),
                    buf@.skip(cursor as int + 1),
                );
                assert(buf@.take(cursor as int + 1) + buf@.skip(cursor as int + 1) =~= buf@);
            }
        }

        if tokens.len() == 0 {
            tokens.push(String::new());
            assert(tokens.deep_view() =~= seq![Seq::<char>::empty()]);
            Ok(Command { account, context, args: tokens, cursor: 0 })
        } else {
            assert(args_cursor == cursor_token(buf@, cursor as nat));
            Ok(Command { account, context, args: tokens, cursor: args_cursor })
        }
    }

    /// Writes one token so that it lexes back to itself: quoted where it
    /// holds spaces or quotes, with backslashes before what would otherwise
    /// end the token early.
    pub fn escape(arg: &str) -> (r: String)
        ensures
            r@ == escaped(arg@),
    {
        let chars = chars_of(arg);
        let n = chars.len();
        let mut style = QuoteStyle::Unset;
        let mut out = String::new();
        let mut i: usize = 0;
        assert(chars@.take(0) =~= Seq::<char>::empty());
        while i < n
            invariant
                n == chars.len(),
                chars@ == arg@,
                i <= n,
                style.follows(chars@.take(i as int)),
                out@ == escaped_body(chars@.take(i as int), style.quote()),
            decreases n - i,
        {
            let c = chars[i];
            let ghost seen = chars@.take(i as int);
            let ghost body = out@;
            proof {
                assert(chars@.take(i as int + 1).drop_last() =~= seen);
                lemma_first_quote_none(seen);
            }
            if c == '\\' {
                push_char(&mut out, '\\');
                push_char(&mut out, '\\');
                assert(out@ =~= body + seq!['\\', c]);
            } else if c == ' ' {
                match style {
                    QuoteStyle::Unset => {
                        style = QuoteStyle::Spaced;
                    },
                    _ => {},
                }
                push_char(&mut out, ' ');
                assert(out@ =~= body + seq![c]);
            } else if c == '\'' {
                match style {
                    QuoteStyle::Single => {
                        push_char(&mut out, '\\');
                        push_char(&mut out, '\'');
                        assert(out@ =~= body + seq!['\\', c]);
                    },
                    QuoteStyle::Double => {
                        push_char(&mut out, '\'');
                        assert(out@ =~= body + seq![c]);
                    },
                    QuoteStyle::Unset | QuoteStyle::Spaced => {
                        proof {
                            lemma_body_without_quote(seen, '"');
                        }
                        style = QuoteStyle::Double;
                        push_char(&mut out, '\'');
                        assert(out@ =~= body + seq![c]);
                    },
                }
            } else if c == '"' {
                match style {
                    QuoteStyle::Single => {
                        push_char(&mut out, '"');
                        assert(out@ =~= body + seq![c]);
                    },
                    QuoteStyle::Double => {
                        push_char(&mut out, '\\');
                        push_char(&mut out, '"');
                        assert(out@ =~= body + seq!['\\', c]);
                    },
                    QuoteStyle::Unset | QuoteStyle::Spaced => {
                        proof {
                            lemma_body_without_quote(seen, '\'');
                        }
                        style = QuoteStyle::Single;
                        push_char(&mut out, '"');
                        assert(out@ =~= body + seq![c]);
                    },
                }
            } else {
                push_char(&mut out, c);
                assert(out@ =~= body + seq![c]);
            }
            i = i + 1;
        }
        assert(chars@.take(n as int) =~= chars@);
        let quote: char;
        match style {
            QuoteStyle::Unset => {
                return out;
            },
            QuoteStyle::Spaced => {
                proof {
                    lemma_first_quote_none(arg@);
                    lemma_body_without_quote(arg@, '"');
                }
                quote = '"';
            },
            QuoteStyle::Single => {
                quote = '\'';
            },
            QuoteStyle::Double => {
                quote = '"';
            },
        }
        let mut wrapped = String::new();
        push_char(&mut wrapped, quote);
        wrapped.append(out.as_str());
        push_char(&mut wrapped, quote);
        assert(wrapped@ =~= seq![quote] + out@ + seq![quote]);
        wrapped
    }

    /// Writes the tokens out with one space between neighbours.
    pub fn assemble_args(args: &[String]) -> (r: String)
        ensures
            r@ == joined(args.deep_view()),
    {
        let mut command = String::new();
        let mut i: usize = 0;
        let ghost tokens = args.deep_view();
        assert(tokens.take(0) =~= Seq::<Seq<char>>::empty());
        while i < args.len()
            invariant
                i <= args.len(),
                tokens == args.deep_view(),
                command@ == joined(tokens.take(i as int)),
            decreases args.len() - i,
        {
            let ghost line = command@;
            if i != 0 {
                push_char(&mut command, ' ');
            }
            let token = Command::escape(args[i].as_str());
            command.append(token.as_str());
            proof {
                let next = tokens.take(i as int + 1);
                assert(next.drop_last() =~= tokens.take(i as int));
                assert(next.last() == args[i as int]@);
                if i == 0 {
                    assert(command@ =~= escaped(next[0]));
                } else {
                    assert(command@ =~= line + seq![' '] + escaped(next.last()));
                }
            }
            i = i + 1;
        }
        assert(tokens.take(args.len() as int) =~= tokens);
        command
    }

    /// The command line that this command's tokens make: it lexes back to
    /// them.
    pub fn assemble(&self) -> (r: String)
        ensures
            r@ == assembled(self.tokens()),
    {
        let mut command = String::new();
        push_char(&mut command, PREFIX);
        let tokens = self.args.as_slice();
        assert(tokens.deep_view() =~= self.args.deep_view());
        let args = Command::assemble_args(tokens);
        command.append(args.as_str());
        assert(command@ =~= seq![PREFIX] + args@);
        command
    }
}

} // verus!
