//! The model of the command-line lexer: a state machine over the characters
//! of a line, and what a whole line lexes to.

use vstd::prelude::*;

verus! {

/// The character every command line starts with.
pub const PREFIX: char = '/';

/// Where the lexer stands between two characters.
#[derive(Clone, Copy, Debug, PartialEq, Eq, Structural)]
pub enum LexState {
    /// Nothing read yet.
    Initial,
    /// Between tokens.
    Delimiter,
    /// Inside `'...'`.
    SimplyQuoted,
    /// Inside `"..."`.
    DoublyQuoted,
    /// Inside a token, outside any quotes.
    Unquoted,
    /// Just after a backslash outside quotes.
    UnquotedEscaped,
    /// Just after a backslash inside `'...'`.
    SimplyQuotedEscaped,
    /// Just after a backslash inside `"..."`.
    DoublyQuotedEscaped,
}

/// Why a line could not be lexed.
#[derive(Clone, Copy, Debug, PartialEq, Eq, Structural)]
pub enum LexError {
    /// The line does not start with the prefix character.
    MissingPrefix,
    /// The line ends inside a quoted segment.
    UnterminatedQuote,
    /// The line ends just after a backslash.
    DanglingEscape,
}

impl LexError {
    /// The one-line text of the error.
    pub open spec fn text(self) -> Seq<char> {
        match self {
            LexError::MissingPrefix => "Missing starting /"@,
            LexError::UnterminatedQuote => "Missing closing quote"@,
            LexError::DanglingEscape => "Missing escaped char"@,
        }
    }

    /// The error as a line to show to the user.
    pub fn message(&self) -> (r: String)
        ensures
            r@ == self.text(),
    {
        match self {
            LexError::MissingPrefix => "Missing starting /".to_owned(),
            LexError::UnterminatedQuote => "Missing closing quote".to_owned(),
            LexError::DanglingEscape => "Missing escaped char".to_owned(),
        }
    }
}

/// What the lexer holds between two characters: its state, the tokens
/// completed so far, and the characters of the token under construction.
pub struct Scan {
    pub state: LexState,
    pub tokens: Seq<Seq<char>>,
    pub token: Seq<char>,
}

/// The lexer before any character.
pub open spec fn start() -> Scan {
    Scan { state: LexState::Initial, tokens: Seq::empty(), token: Seq::empty() }
}

/// The same scan in another state.
pub open spec fn enter(s: Scan, state: LexState) -> Scan {
    Scan { state, tokens: s.tokens, token: s.token }
}

/// The scan after `c` joined the token under construction, in `state`.
pub open spec fn append(s: Scan, c: char, state: LexState) -> Scan {
    Scan { state, tokens: s.tokens, token: s.token.push(c) }
}

/// The scan after the token under construction was completed.
pub open spec fn complete(s: Scan) -> Scan {
    Scan { state: LexState::Delimiter, tokens: s.tokens.push(s.token), token: Seq::empty() }
}

/// One transition of the lexer, on the character `c`.
///
/// From `Initial` only the prefix leads on; `lex` rejects every line on
/// which the lexer would stay there.
pub open spec fn advance(s: Scan, c: char) -> Scan {
    match s.state {
        LexState::Initial => if c == PREFIX {
            enter(s, LexState::Delimiter)
        } else {
            s
        },
        LexState::Delimiter => if c == ' ' {
            s
        } else if c == '\'' {
            enter(s, LexState::SimplyQuoted)
        } else if c == '"' {
            enter(s, LexState::DoublyQuoted)
        } else if c == '\\' {
            enter(s, LexState::UnquotedEscaped)
        } else {
            append(s, c, LexState::Unquoted)
        },
        LexState::SimplyQuoted => if c == '\'' {
            enter(s, LexState::Unquoted)
        } else if c == '\\' {
            enter(s, LexState::SimplyQuotedEscaped)
        } else {
            append(s, c, LexState::SimplyQuoted)
        },
        LexState::DoublyQuoted => if c == '"' {
            enter(s, LexState::Unquoted)
        } else if c == '\\' {
            enter(s, LexState::DoublyQuotedEscaped)
        } else {
            append(s, c, LexState::DoublyQuoted)
        },
        LexState::Unquoted => if c == '\'' {
            enter(s, LexState::SimplyQuoted)
        } else if c == '"' {
            enter(s, LexState::DoublyQuoted)
        } else if c == '\\' {
            enter(s, LexState::UnquotedEscaped)
        } else if c == ' ' {
            complete(s)
        } else {
            append(s, c, LexState::Unquoted)
        },
        LexState::UnquotedEscaped => append(s, c, LexState::Unquoted),
        LexState::SimplyQuotedEscaped => append(s, c, LexState::SimplyQuoted),
        LexState::DoublyQuotedEscaped => append(s, c, LexState::DoublyQuoted),
    }
}

/// The lexer after `text` was read from `from`, character by character.
pub open spec fn run(from: Scan, text: Seq<char>) -> Scan
    decreases text.len(),
{
    if text.len() == 0 {
        from
    } else {
        advance(run(from, text.drop_last()), text.last())
    }
}

/// The lexer after the whole of `text`.
pub open spec fn scan(text: Seq<char>) -> Scan {
    run(start(), text)
}

/// Whether `text` starts with the prefix character.
pub open spec fn has_prefix(text: Seq<char>) -> bool {
    text.len() > 0 && text[0] == PREFIX
}

/// The tokens of a line that ends in `Delimiter` or `Unquoted`: the
/// completed ones, and the one under construction if there is one.
pub open spec fn tokens_at_end(s: Scan) -> Seq<Seq<char>> {
    if s.state == LexState::Unquoted {
        s.tokens.push(s.token)
    } else {
        s.tokens
    }
}

/// The token index that the character offset `cursor` falls on.
///
/// With the cursor on a character of the line it is the number of tokens
/// completed once that character has been read. With the cursor past the
/// end it is the index of the next, not yet typed token if the line ends
/// between tokens, and of the last token otherwise.
pub open spec fn cursor_token(text: Seq<char>, cursor: nat) -> nat {
    if cursor < text.len() {
        scan(text.take(cursor as int + 1)).tokens.len()
    } else if scan(text).state == LexState::Delimiter {
        tokens_at_end(scan(text)).len()
    } else {
        (tokens_at_end(scan(text)).len() - 1) as nat
    }
}

/// A lexed line: its tokens and the token index of the cursor.
pub struct Lexed {
    pub args: Seq<Seq<char>>,
    pub cursor: nat,
}

/// What the line `text` lexes to, with the edit cursor at character offset
/// `cursor`.
///
/// A line that holds no token yields one empty token, with the cursor on it.
pub open spec fn lex(text: Seq<char>, cursor: nat) -> Result<Lexed, LexError> {
    if !has_prefix(text) {
        Err(LexError::MissingPrefix)
    } else {
        match scan(text).state {
            LexState::Initial => Err(LexError::MissingPrefix),
            LexState::SimplyQuoted | LexState::DoublyQuoted => Err(LexError::UnterminatedQuote),
            LexState::UnquotedEscaped
            | LexState::SimplyQuotedEscaped
            | LexState::DoublyQuotedEscaped => Err(LexError::DanglingEscape),
            LexState::Delimiter | LexState::Unquoted => {
                let tokens = tokens_at_end(scan(text));
                if tokens.len() == 0 {
                    Ok(Lexed { args: seq![Seq::empty()], cursor: 0 })
                } else {
                    Ok(Lexed { args: tokens, cursor: cursor_token(text, cursor) })
                }
            },
        }
    }
}

/// Reading one more character is one more transition.
pub proof fn lemma_run_push(from: Scan, text: Seq<char>, c: char)
    ensures
        run(from, text.push(c)) == advance(run(from, text), c),
{
    assert(text.push(c).drop_last() =~= text);
}

/// Reading one character is one transition.
pub proof fn lemma_run_one(from: Scan, c: char)
    ensures
        run(from, seq![c]) == advance(from, c),
{
    assert(seq![c] =~= Seq::<char>::empty().push(c));
    lemma_run_push(from, Seq::empty(), c);
}

/// Reading `a` and then `b` is reading `a + b`.
pub proof fn lemma_run_concat(from: Scan, a: Seq<char>, b: Seq<char>)
    ensures
        run(from, a + b) == run(run(from, a), b),
    decreases b.len(),
{
    if b.len() == 0 {
        assert(a + b =~= a);
    } else {
        lemma_run_concat(from, a, b.drop_last());
        assert((a + b).drop_last() =~= a + b.drop_last());
        assert((a + b).last() == b.last());
    }
}

/// The lexer never loses a completed token.
pub proof fn lemma_run_keeps_tokens(from: Scan, text: Seq<char>)
    ensures
        run(from, text).tokens.len() >= from.tokens.len(),
    decreases text.len(),
{
    if text.len() > 0 {
        lemma_run_keeps_tokens(from, text.drop_last());
    }
}

/// A line that lexes has at least one token, and its cursor stands on a
/// token or just past the last one.
pub proof fn lemma_lex_in_range(text: Seq<char>, cursor: nat)
    ensures
        lex(text, cursor) matches Ok(lexed) ==> lexed.args.len() > 0 && lexed.cursor
            <= lexed.args.len(),
{
    if cursor < text.len() {
        let seen = text.take(cursor as int + 1);
        let rest = text.skip(cursor as int + 1);
        assert(seen + rest =~= text);
        lemma_run_concat(start(), seen, rest);
        lemma_run_keeps_tokens(scan(seen), rest);
    }
}

} // verus!
