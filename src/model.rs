use vstd::prelude::*;
use crate::lexer::TokenType;

verus! {

/// Space, tab or newline.
pub open spec fn is_ws(c: char) -> bool {
    c == ' ' || c == '\t' || c == '\n'
}

/// A double or a single quote.
pub open spec fn is_quote_char(c: char) -> bool {
    c == '"' || c == '\''
}

/// An ASCII digit.
pub open spec fn is_digit(c: char) -> bool {
    48 <= (c as u32) && (c as u32) <= 57
}

/// An ASCII letter or an underscore.
pub open spec fn is_word_char(c: char) -> bool {
    (65 <= (c as u32) && (c as u32) <= 90) || c == '_' || (97 <= (c as u32) && (c as u32) <= 122)
}

/// Anything that is neither a digit nor a word character (this includes quotes and whitespace).
pub open spec fn is_special(c: char) -> bool {
    !is_digit(c) && !is_word_char(c)
}

/// The position after consuming `c` at position `p`.
pub open spec fn advance(p: (int, int), c: char) -> (int, int) {
    if c == '\n' {
        (p.0 + 1, 1)
    } else {
        (p.0, p.1 + 1)
    }
}

/// The position after consuming every character of `t`, starting at `p`.
pub open spec fn pos_after(p: (int, int), t: Seq<char>) -> (int, int)
    decreases t.len(),
{
    if t.len() == 0 {
        p
    } else {
        advance(pos_after(p, t.drop_last()), t.last())
    }
}

/// Strict lexicographic order on (line, column) pairs.
pub open spec fn pos_lt(a: (int, int), b: (int, int)) -> bool {
    a.0 < b.0 || (a.0 == b.0 && a.1 < b.1)
}

/// First index at or after `i` that does not hold whitespace (or the length).
pub open spec fn ws_end(s: Seq<char>, i: int) -> int
    decreases s.len() - i,
{
    if 0 <= i < s.len() && is_ws(s[i]) {
        ws_end(s, i + 1)
    } else {
        i
    }
}

/// First index at or after `i` that does not hold a digit (or the length).
pub open spec fn digits_end(s: Seq<char>, i: int) -> int
    decreases s.len() - i,
{
    if 0 <= i < s.len() && is_digit(s[i]) {
        digits_end(s, i + 1)
    } else {
        i
    }
}

/// First index at or after `i` that holds neither a digit nor a word character (or the length).
pub open spec fn word_end(s: Seq<char>, i: int) -> int
    decreases s.len() - i,
{
    if 0 <= i < s.len() && !is_special(s[i]) {
        word_end(s, i + 1)
    } else {
        i
    }
}

/// First index at or after `i` that holds a quote (or the length).
pub open spec fn quote_search(s: Seq<char>, i: int) -> int
    decreases s.len() - i,
{
    if 0 <= i < s.len() && !is_quote_char(s[i]) {
        quote_search(s, i + 1)
    } else {
        i
    }
}

/// The kind of a word: one of the three keywords, or a name.
pub open spec fn keyword_kind(t: Seq<char>) -> TokenType {
    if t == "function"@ {
        TokenType::Function
    } else if t == "return"@ {
        TokenType::Return
    } else if t == "const"@ {
        TokenType::Const
    } else {
        TokenType::Name
    }
}

/// The kind of a one-character punctuation token; unknown characters are names.
pub open spec fn special_kind(c: char) -> TokenType {
    if c == '.' {
        TokenType::Dot
    } else if c == ',' {
        TokenType::Comma
    } else if c == ';' {
        TokenType::Semicolon
    } else if c == '=' {
        TokenType::Equal
    } else if c == '+' {
        TokenType::Plus
    } else if c == '\'' {
        TokenType::SingleQuote
    } else if c == '(' {
        TokenType::RoundBraceOpen
    } else if c == ')' {
        TokenType::RoundBraceClose
    } else if c == '{' {
        TokenType::CurlyBraceOpen
    } else if c == '}' {
        TokenType::CurlyBraceClose
    } else {
        TokenType::Name
    }
}

/// Index just past the token that starts at `k` (a closing quote included).
pub open spec fn token_end(s: Seq<char>, k: int) -> int {
    let c = s[k];
    if is_quote_char(c) {
        let q = quote_search(s, k + 1);
        if q < s.len() {
            q + 1
        } else {
            q
        }
    } else if is_special(c) {
        k + 1
    } else if is_digit(c) {
        digits_end(s, k)
    } else {
        word_end(s, k)
    }
}

/// Text of the token that starts at `k`: a string literal loses its quotes.
pub open spec fn token_text(s: Seq<char>, k: int) -> Seq<char> {
    let c = s[k];
    if is_quote_char(c) {
        s.subrange(k + 1, quote_search(s, k + 1))
    } else if is_special(c) {
        s.subrange(k, k + 1)
    } else if is_digit(c) {
        s.subrange(k, digits_end(s, k))
    } else {
        s.subrange(k, word_end(s, k))
    }
}

/// Kind of the token that starts at `k`.
pub open spec fn token_kind(s: Seq<char>, k: int) -> TokenType {
    let c = s[k];
    if is_quote_char(c) {
        TokenType::String
    } else if is_special(c) {
        special_kind(c)
    } else if is_digit(c) {
        TokenType::Int
    } else {
        keyword_kind(token_text(s, k))
    }
}

/// Where the scan that starts at cursor `i` leaves the cursor: past the next token, or at
/// the end when only whitespace is left.
pub open spec fn cursor_after(s: Seq<char>, i: int) -> int {
    let k = ws_end(s, i);
    if k < s.len() {
        token_end(s, k)
    } else {
        k
    }
}

/// Position of the next token when the cursor is at `i` and the position is `p`.
pub open spec fn token_pos(s: Seq<char>, i: int, p: (int, int)) -> (int, int) {
    pos_after(p, s.subrange(i, ws_end(s, i)))
}

/// Position after the scan that starts at cursor `i` with position `p`.
pub open spec fn pos_after_scan(s: Seq<char>, i: int, p: (int, int)) -> (int, int) {
    pos_after(p, s.subrange(i, cursor_after(s, i)))
}

/// Consuming one more character extends the position by one step.
pub proof fn lemma_pos_after_push(p: (int, int), s: Seq<char>, a: int, b: int)
    requires
        0 <= a <= b < s.len(),
    ensures
        pos_after(p, s.subrange(a, b + 1)) == advance(pos_after(p, s.subrange(a, b)), s[b]),
{
    assert(s.subrange(a, b + 1).drop_last() =~= s.subrange(a, b));
}

/// Consuming `t` then `u` is consuming `t + u`.
pub proof fn lemma_pos_after_concat(p: (int, int), t: Seq<char>, u: Seq<char>)
    ensures
        pos_after(p, t + u) == pos_after(pos_after(p, t), u),
    decreases u.len(),
{
    if u.len() == 0 {
        assert(t + u =~= t);
    } else {
        assert((t + u).drop_last() =~= t + u.drop_last());
        lemma_pos_after_concat(p, t, u.drop_last());
    }
}

/// Consuming characters never moves the position back, and consuming at least one moves it on.
pub proof fn lemma_pos_after_grows(p: (int, int), t: Seq<char>)
    ensures
        t.len() == 0 ==> pos_after(p, t) == p,
        t.len() > 0 ==> pos_lt(p, pos_after(p, t)),
    decreases t.len(),
{
    if t.len() > 0 {
        lemma_pos_after_grows(p, t.drop_last());
    }
}

/// The scan bounds stay within the text.
pub proof fn lemma_ends_in_bounds(s: Seq<char>, i: int)
    requires
        0 <= i <= s.len(),
    ensures
        i <= ws_end(s, i) <= s.len(),
        i <= digits_end(s, i) <= s.len(),
        i <= word_end(s, i) <= s.len(),
        i <= quote_search(s, i) <= s.len(),
    decreases s.len() - i,
{
    if i < s.len() {
        lemma_ends_in_bounds(s, i + 1);
    }
}

} // verus!
