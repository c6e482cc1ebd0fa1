//! Decoding one token to the typed value that a slot declares.

use vstd::prelude::*;

use crate::text::chars_of;

verus! {

/// The type that the token of a slot is decoded to.
#[derive(Clone, Copy, Debug, PartialEq, Eq, Structural)]
pub enum ArgType {
    /// Any token, taken as it stands.
    Text,
    /// A decimal integer that fits 64 bits.
    Int,
}

impl ArgType {
    /// What the type is called in messages.
    pub open spec fn label(self) -> Seq<char> {
        match self {
            ArgType::Text => "text"@,
            ArgType::Int => "integer"@,
        }
    }

    /// What the type is called in messages.
    pub fn name(&self) -> (r: String)
        ensures
            r@ == self.label(),
    {
        match self {
            ArgType::Text => "text".to_owned(),
            ArgType::Int => "integer".to_owned(),
        }
    }
}

/// A decoded argument.
#[derive(Clone, Debug, PartialEq, Eq)]
pub enum Value {
    Text(String),
    Int(i64),
    /// A secret that was typed in or looked up.
    Secret(String),
}

/// A decoded argument, as a mathematical value.
pub enum ValueView {
    Text(Seq<char>),
    Int(int),
    Secret(Seq<char>),
}

impl View for Value {
    type V = ValueView;

    open spec fn view(&self) -> ValueView {
        match self {
            Value::Text(s) => ValueView::Text(s@),
            Value::Int(i) => ValueView::Int(*i as int),
            Value::Secret(s) => ValueView::Secret(s@),
        }
    }
}

/// An argument that may be absent, as a mathematical value.
pub open spec fn bound_view(value: Option<Value>) -> Option<ValueView> {
    match value {
        Some(v) => Some(v@),
        None => None,
    }
}

/// The arguments bound so far, as mathematical values.
pub open spec fn values_view(values: Seq<Option<Value>>) -> Seq<Option<ValueView>> {
    Seq::new(values.len(), |i: int| bound_view(values[i]))
}

/// Whether `c` is one of the digits `0` to `9`.
pub open spec fn is_digit(c: char) -> bool {
    48 <= c as u32 <= 57
}

/// The number that the digit `c` stands for.
pub open spec fn digit_value(c: char) -> int {
    c as u32 - 48
}

/// Whether `text` is made of digits only.
pub open spec fn all_digits(text: Seq<char>) -> bool {
    forall|i: int| 0 <= i < text.len() ==> is_digit(#[trigger] text[i])
}

/// The number that the digits `text` write in base ten.
pub open spec fn digits_value(text: Seq<char>) -> int
    decreases text.len(),
{
    if text.len() == 0 {
        0
    } else {
        10 * digits_value(text.drop_last()) + digit_value(text.last())
    }
}

/// Whether `text` starts with a sign.
pub open spec fn is_signed(text: Seq<char>) -> bool {
    text.len() > 0 && (text[0] == '-' || text[0] == '+')
}

/// The integer that `text` writes: an optional `+` or `-`, then one digit
/// or more, and nothing else.
pub open spec fn decimal(text: Seq<char>) -> Option<int> {
    let digits = if is_signed(text) {
        text.skip(1)
    } else {
        text
    };
    if digits.len() == 0 || !all_digits(digits) {
        None
    } else if is_signed(text) && text[0] == '-' {
        Some(-digits_value(digits))
    } else {
        Some(digits_value(digits))
    }
}

/// What the token `token` decodes to as a value of type `kind`, if it
/// does: any token is a text, and a token is an integer if it writes one
/// that fits 64 bits.
pub open spec fn decoded(kind: ArgType, token: Seq<char>) -> Option<ValueView> {
    match kind {
        ArgType::Text => Some(ValueView::Text(token)),
        ArgType::Int => match decimal(token) {
            Some(v) => if i64::MIN <= v <= i64::MAX {
                Some(ValueView::Int(v))
            } else {
                None
            },
            None => None,
        },
    }
}

/// More digits never write a smaller number.
pub proof fn lemma_digits_value_grows(text: Seq<char>, k: int)
    requires
        all_digits(text),
        0 <= k <= text.len(),
    ensures
        0 <= digits_value(text.take(k)) <= digits_value(text),
    decreases text.len(),
{
    if text.len() == 0 {
        assert(text.take(k) =~= text);
    } else if k == text.len() {
        assert(text.take(k) =~= text);
        lemma_digits_value_grows(text.drop_last(), k - 1);
        assert(is_digit(text[text.len() - 1]));
    } else {
        let front = text.drop_last();
        assert forall|i: int| 0 <= i < front.len() implies is_digit(#[trigger] front[i]) by {
            assert(front[i] == text[i]);
        }
        lemma_digits_value_grows(front, k);
        lemma_digits_value_grows(front, front.len() as int);
        assert(front.take(front.len() as int) =~= front);
        assert(text.take(k) =~= front.take(k));
        assert(is_digit(text[text.len() - 1]));
    }
}

/// The largest magnitude that a 64-bit integer has: that of `i64::MIN`.
const LIMIT: u64 = 0x8000_0000_0000_0000;

/// Decodes `token` as a decimal integer.
pub fn decode_int(token: &str) -> (r: Option<i64>)
    ensures
        match decoded(ArgType::Int, token@) {
            Some(v) => r matches Some(i) && v == ValueView::Int(i as int),
            None => r is None,
        },
{
    let chars = chars_of(token);
    let n = chars.len();
    if n == 0 {
        return None;
    }
    let negative = chars[0] == '-';
    let start: usize = if chars[0] == '-' || chars[0] == '+' {
        1
    } else {
        0
    };
    let ghost digits = if is_signed(token@) {
        token@.skip(1)
    } else {
        token@
    };
    if start == n {
        return None;
    }
    let mut magnitude: u64 = 0;
    let mut i: usize = start;
    assert(digits.take(0) =~= Seq::<char>::empty());
    assert(token@.skip(0) =~= token@);
    while i < n
        invariant
            n == chars.len(),
            chars@ == token@,
            start <= i <= n,
            digits == token@.skip(start as int),
            digits == if is_signed(token@) {
                token@.skip(1)
            } else {
                token@
            },
            all_digits(digits.take(i - start)),
            magnitude == digits_value(digits.take(i - start)),
            magnitude <= LIMIT,
        decreases n - i,
    {
        let code = chars[i] as u32;
        assert(digits[i - start] == chars@[i as int]);
        if code < 48 || code > 57 {
            assert(!is_digit(digits[i - start]));
            return None;
        }
        let d = (code - 48) as u64;
        let ghost seen = digits.take(i - start + 1);
        proof {
            assert(seen.drop_last() =~= digits.take(i - start));
            assert(seen.last() == chars@[i as int]);
            assert forall|j: int| 0 <= j < seen.len() implies is_digit(#[trigger] seen[j]) by {
                if j < i - start {
                    assert(digits.take(i - start)[j] == seen[j]);
                }
            }
        }
        if magnitude > (LIMIT - d) / 10 {
            proof {
                assert(digits_value(seen) > LIMIT);
                if all_digits(digits) {
                    lemma_digits_value_grows(digits, i - start + 1);
                }
            }
            return None;
        }
        magnitude = magnitude * 10 + d;
        i = i + 1;
    }
    assert(digits.take(n - start) =~= digits);
    if negative {
        if magnitude == LIMIT {
            Some(i64::MIN)
        } else {
            Some(-(magnitude as i64))
        }
    } else if magnitude == LIMIT {
        None
    } else {
        Some(magnitude as i64)
    }
}

/// Decodes `token` as a value of type `kind`.
pub fn decode(kind: ArgType, token: &str) -> (r: Option<Value>)
    ensures
        bound_view(r) == decoded(kind, token@),
{
    match kind {
        ArgType::Text => Some(Value::Text(token.to_owned())),
        ArgType::Int => match decode_int(token) {
            Some(i) => Some(Value::Int(i)),
            None => None,
        },
    }
}

} // verus!
