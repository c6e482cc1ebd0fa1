//! The model of the serializer: how one token is quoted and escaped, and
//! how tokens are joined into a line that lexes back to them.

use vstd::prelude::*;

use crate::lexer::PREFIX;

verus! {

/// Whether `c` is one of the two quote characters.
pub open spec fn is_quote(c: char) -> bool {
    c == '\'' || c == '"'
}

/// The first quote character of `token`, if it has one.
pub open spec fn first_quote(token: Seq<char>) -> Option<char>
    decreases token.len(),
{
    if token.len() == 0 {
        None
    } else {
        match first_quote(token.drop_last()) {
            Some(q) => Some(q),
            None => if is_quote(token.last()) {
                Some(token.last())
            } else {
                None
            },
        }
    }
}

/// Whether `token` holds a space.
pub open spec fn has_space(token: Seq<char>) -> bool
    decreases token.len(),
{
    token.len() > 0 && (token.last() == ' ' || has_space(token.drop_last()))
}

/// The quote character that `token` is wrapped in, if it is wrapped.
///
/// A token that holds a quote character is wrapped in the other one than
/// the first it holds. A token that holds spaces but no quote character is
/// wrapped in double quotes. Any other token stands bare.
pub open spec fn wrapping(token: Seq<char>) -> Option<char> {
    match first_quote(token) {
        Some(q) => Some(if q == '\'' { '"' } else { '\'' }),
        None => if has_space(token) {
            Some('"')
        } else {
            None
        },
    }
}

/// What one character of a token is written as, inside `quote`: a
/// backslash and the wrapping quote character get a backslash before them.
pub open spec fn escaped_char(c: char, quote: Option<char>) -> Seq<char> {
    if c == '\\' || quote == Some(c) {
        seq!['\\', c]
    } else {
        seq![c]
    }
}

/// What the characters of `token` are written as, inside `quote`.
pub open spec fn escaped_body(token: Seq<char>, quote: Option<char>) -> Seq<char>
    decreases token.len(),
{
    if token.len() == 0 {
        Seq::empty()
    } else {
        escaped_body(token.drop_last(), quote) + escaped_char(token.last(), quote)
    }
}

/// What `token` is written as.
pub open spec fn escaped(token: Seq<char>) -> Seq<char> {
    match wrapping(token) {
        None => escaped_body(token, None),
        Some(q) => seq![q] + escaped_body(token, Some(q)) + seq![q],
    }
}

/// The tokens, each written out, with one space between neighbours.
pub open spec fn joined(tokens: Seq<Seq<char>>) -> Seq<char>
    decreases tokens.len(),
{
    if tokens.len() == 0 {
        Seq::empty()
    } else if tokens.len() == 1 {
        escaped(tokens[0])
    } else {
        joined(tokens.drop_last()) + seq![' '] + escaped(tokens.last())
    }
}

/// The command line that the tokens make.
pub open spec fn assembled(tokens: Seq<Seq<char>>) -> Seq<char> {
    seq![PREFIX] + joined(tokens)
}

/// A token without the character `q` is written the same inside `q` as
/// outside any quote.
pub proof fn lemma_body_without_quote(token: Seq<char>, q: char)
    requires
        forall|i: int| 0 <= i < token.len() ==> token[i] != q,
    ensures
        escaped_body(token, Some(q)) == escaped_body(token, None),
    decreases token.len(),
{
    if token.len() > 0 {
        lemma_body_without_quote(token.drop_last(), q);
    }
}

/// A token has no first quote exactly if it has no quote character.
pub proof fn lemma_first_quote_none(token: Seq<char>)
    ensures
        first_quote(token) is None <==> forall|i: int|
            0 <= i < token.len() ==> !is_quote(#[trigger] token[i]),
        first_quote(token) matches Some(q) ==> is_quote(q),
    decreases token.len(),
{
    if token.len() > 0 {
        let front = token.drop_last();
        lemma_first_quote_none(front);
        if first_quote(token) is None {
            assert forall|i: int| 0 <= i < token.len() implies !is_quote(#[trigger] token[i]) by {
                if i < front.len() {
                    assert(front[i] == token[i]);
                }
            }
        } else if first_quote(front) is None {
            assert(is_quote(token[token.len() - 1]));
        } else {
            let i = choose|i: int| 0 <= i < front.len() && is_quote(#[trigger] front[i]);
            assert(is_quote(token[i]));
        }
    }
}

} // verus!
