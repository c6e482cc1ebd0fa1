//! The serializer undoes the lexer: a line assembled from tokens lexes back
//! to the same tokens.

use vstd::prelude::*;

use crate::escape::{
    assembled, escaped, escaped_body, escaped_char, first_quote, has_space, is_quote, joined,
    lemma_first_quote_none, wrapping,
};
use crate::lexer::{
    advance, lemma_run_concat, lemma_run_one, lemma_run_push, lex, run, scan, start, LexState,
    Scan, PREFIX,
};

verus! {

/// Whether `token` holds no space, no quote character and no backslash.
pub open spec fn is_plain(token: Seq<char>) -> bool {
    forall|i: int|
        0 <= i < token.len() ==> {
            let c = #[trigger] token[i];
            c != ' ' && c != '\'' && c != '"' && c != '\\'
        }
}

/// The state that the lexer is in inside a segment quoted with `q`.
pub open spec fn quoted_state(q: char) -> LexState {
    if q == '\'' {
        LexState::SimplyQuoted
    } else {
        LexState::DoublyQuoted
    }
}

/// A token has a space exactly if one of its characters is a space.
pub proof fn lemma_has_space(token: Seq<char>)
    ensures
        has_space(token) <==> exists|i: int| 0 <= i < token.len() && token[i] == ' ',
    decreases token.len(),
{
    if token.len() > 0 {
        let front = token.drop_last();
        lemma_has_space(front);
        if has_space(token) {
            if token.last() == ' ' {
                assert(token[token.len() - 1] == ' ');
            } else {
                let i = choose|i: int| 0 <= i < front.len() && front[i] == ' ';
                assert(token[i] == ' ');
            }
        } else {
            assert forall|i: int| 0 <= i < token.len() implies token[i] != ' ' by {
                if i < front.len() {
                    assert(front[i] == token[i]);
                }
            }
        }
    }
}

/// A plain token is written as it stands.
pub proof fn lemma_plain_token_stands_bare(token: Seq<char>)
    requires
        is_plain(token),
    ensures
        escaped(token) == token,
{
    lemma_first_quote_none(token);
    lemma_has_space(token);
    assert(wrapping(token) is None);
    lemma_plain_body(token);
}

proof fn lemma_plain_body(token: Seq<char>)
    requires
        is_plain(token),
    ensures
        escaped_body(token, None) == token,
    decreases token.len(),
{
    if token.len() > 0 {
        let front = token.drop_last();
        assert forall|i: int| 0 <= i < front.len() implies {
            let c = #[trigger] front[i];
            c != ' ' && c != '\'' && c != '"' && c != '\\'
        } by {
            assert(front[i] == token[i]);
        }
        lemma_plain_body(front);
        assert(token[token.len() - 1] == token.last());
        assert(front + seq![token.last()] =~= token);
    } else {
        assert(token =~= Seq::<char>::empty());
    }
}

/// Outside quotes, the lexer reads what a token without quotes and spaces
/// is written as, and has the token's characters added to the one under
/// construction.
proof fn lemma_lex_bare_body(from: Scan, token: Seq<char>)
    requires
        from.state == LexState::Delimiter || from.state == LexState::Unquoted,
        forall|i: int| 0 <= i < token.len() ==> !is_quote(#[trigger] token[i]) && token[i] != ' ',
    ensures
        run(from, escaped_body(token, None)) == (Scan {
            state: if token.len() == 0 {
                from.state
            } else {
                LexState::Unquoted
            },
            tokens: from.tokens,
            token: from.token + token,
        }),
    decreases token.len(),
{
    if token.len() == 0 {
        assert(from.token + token =~= from.token);
    } else {
        let front = token.drop_last();
        let c = token.last();
        assert forall|i: int| 0 <= i < front.len() implies !is_quote(#[trigger] front[i])
            && front[i] != ' ' by {
            assert(front[i] == token[i]);
        }
        assert(token[token.len() - 1] == c);
        lemma_lex_bare_body(from, front);
        let mid = run(from, escaped_body(front, None));
        lemma_run_concat(from, escaped_body(front, None), escaped_char(c, None));
        lemma_lex_char(mid, c, None);
        assert(from.token + front + seq![c] =~= from.token + token);
        assert((from.token + front).push(c) =~= from.token + token);
    }
}

/// Inside a segment quoted with `q`, the lexer reads what a token is
/// written as, and has the token's characters added to the one under
/// construction.
proof fn lemma_lex_quoted_body(from: Scan, token: Seq<char>, q: char)
    requires
        is_quote(q),
        from.state == quoted_state(q),
    ensures
        run(from, escaped_body(token, Some(q))) == (Scan {
            state: quoted_state(q),
            tokens: from.tokens,
            token: from.token + token,
        }),
    decreases token.len(),
{
    if token.len() == 0 {
        assert(from.token + token =~= from.token);
    } else {
        let front = token.drop_last();
        let c = token.last();
        lemma_lex_quoted_body(from, front, q);
        let mid = run(from, escaped_body(front, Some(q)));
        lemma_run_concat(from, escaped_body(front, Some(q)), escaped_char(c, Some(q)));
        lemma_lex_char(mid, c, Some(q));
        assert((from.token + front).push(c) =~= from.token + token);
    }
}

/// The lexer reads what one character is written as, and has that
/// character added to the token under construction.
proof fn lemma_lex_char(from: Scan, c: char, quote: Option<char>)
    requires
        match quote {
            Some(q) => is_quote(q) && from.state == quoted_state(q),
            None => (from.state == LexState::Delimiter || from.state == LexState::Unquoted)
                && !is_quote(c) && c != ' ',
        },
    ensures
        run(from, escaped_char(c, quote)) == (Scan {
            state: match quote {
                Some(q) => quoted_state(q),
                None => LexState::Unquoted,
            },
            tokens: from.tokens,
            token: from.token.push(c),
        }),
{
    if c == '\\' || quote == Some(c) {
        let one = seq!['\\'];
        lemma_run_one(from, '\\');
        assert(escaped_char(c, quote) =~= one.push(c));
        lemma_run_push(from, one, c);
    } else {
        lemma_run_one(from, c);
    }
}

/// Between tokens, the lexer reads what a token that is not empty is
/// written as, and has that token under construction.
pub proof fn lemma_lex_escaped(from: Scan, token: Seq<char>)
    requires
        from.state == LexState::Delimiter,
        from.token.len() == 0,
        token.len() > 0,
    ensures
        run(from, escaped(token)) == (Scan {
            state: LexState::Unquoted,
            tokens: from.tokens,
            token,
        }),
{
    lemma_first_quote_none(token);
    lemma_has_space(token);
    assert(from.token + token =~= token);
    match wrapping(token) {
        None => {
            lemma_lex_bare_body(from, token);
        },
        Some(q) => {
            let open = seq![q];
            let body = escaped_body(token, Some(q));
            lemma_run_one(from, q);
            let inside = run(from, open);
            lemma_lex_quoted_body(inside, token, q);
            lemma_run_concat(from, open, body);
            lemma_run_push(from, open + body, q);
            assert((open + body).push(q) =~= open + body + seq![q]);
        },
    }
}

/// Past the prefix, the lexer reads the tokens written out one after
/// another, and ends with the last one under construction.
pub proof fn lemma_lex_joined(tokens: Seq<Seq<char>>)
    requires
        tokens.len() > 0,
        forall|i: int| 0 <= i < tokens.len() ==> (#[trigger] tokens[i]).len() > 0,
    ensures
        run(
            Scan { state: LexState::Delimiter, tokens: Seq::empty(), token: Seq::empty() },
            joined(tokens),
        ) == (Scan {
            state: LexState::Unquoted,
            tokens: tokens.drop_last(),
            token: tokens.last(),
        }),
    decreases tokens.len(),
{
    let from = Scan { state: LexState::Delimiter, tokens: Seq::empty(), token: Seq::empty() };
    if tokens.len() == 1 {
        lemma_lex_escaped(from, tokens[0]);
        assert(tokens.drop_last() =~= Seq::<Seq<char>>::empty());
    } else {
        let front = tokens.drop_last();
        assert forall|i: int| 0 <= i < front.len() implies (#[trigger] front[i]).len() > 0 by {
            assert(front[i] == tokens[i]);
        }
        lemma_lex_joined(front);
        let line = joined(front);
        lemma_run_push(from, line, ' ');
        assert(line.push(' ') =~= line + seq![' ']);
        let between = run(from, line + seq![' ']);
        assert(between.tokens =~= front);
        assert(between == Scan {
            state: LexState::Delimiter,
            tokens: front,
            token: Seq::empty(),
        });
        lemma_lex_escaped(between, tokens.last());
        lemma_run_concat(from, line + seq![' '], escaped(tokens.last()));
    }
}

/// Round trip: the line assembled from tokens lexes back to these tokens,
/// wherever the cursor stands. This holds of tokens with any characters in
/// them, spaces, quotes and backslashes included.
///
/// An empty token leaves no trace on the line, so none of the tokens may be
/// empty, but for the single empty token that an empty command line holds.
pub proof fn lemma_lex_assembled(tokens: Seq<Seq<char>>, cursor: nat)
    requires
        tokens.len() > 0,
        tokens == seq![Seq::<char>::empty()] || forall|i: int|
            0 <= i < tokens.len() ==> (#[trigger] tokens[i]).len() > 0,
    ensures
        lex(assembled(tokens), cursor) matches Ok(lexed) && lexed.args == tokens,
{
    let line = assembled(tokens);
    let first = seq![PREFIX];
    lemma_run_one(start(), PREFIX);
    let from = run(start(), first);
    assert(from == Scan {
        state: LexState::Delimiter,
        tokens: Seq::empty(),
        token: Seq::empty(),
    });
    lemma_run_concat(start(), first, joined(tokens));
    assert(line[0] == PREFIX);
    if tokens[0].len() == 0 {
        assert(tokens.len() == 1);
        assert(escaped_body(tokens[0], None) =~= Seq::<char>::empty());
        lemma_first_quote_none(tokens[0]);
        assert(joined(tokens) =~= Seq::<char>::empty());
        assert(scan(line) == from);
    } else {
        lemma_lex_joined(tokens);
        assert(tokens.drop_last().push(tokens.last()) =~= tokens);
    }
}

/// Round trip for plain tokens: tokens without spaces, quotes and
/// backslashes are written as they stand, with one space between
/// neighbours, and the line lexes back to them.
pub proof fn lemma_lex_assembled_plain(tokens: Seq<Seq<char>>, cursor: nat)
    requires
        tokens.len() > 0,
        forall|i: int| 0 <= i < tokens.len() ==> is_plain(#[trigger] tokens[i]),
        tokens == seq![Seq::<char>::empty()] || forall|i: int|
            0 <= i < tokens.len() ==> (#[trigger] tokens[i]).len() > 0,
    ensures
        lex(assembled(tokens), cursor) matches Ok(lexed) && lexed.args == tokens,
        forall|i: int| 0 <= i < tokens.len() ==> escaped(#[trigger] tokens[i]) == tokens[i],
{
    lemma_lex_assembled(tokens, cursor);
    assert forall|i: int| 0 <= i < tokens.len() implies escaped(#[trigger] tokens[i])
        == tokens[i] by {
        lemma_plain_token_stands_bare(tokens[i]);
    }
}

} // verus!
