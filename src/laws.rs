use vstd::prelude::*;
use crate::lexer::TokenType;
use crate::model::{
    cursor_after, digits_end, is_digit, is_quote_char, is_special, is_ws,
    lemma_ends_in_bounds, lemma_pos_after_concat, lemma_pos_after_grows, lemma_pos_after_push,
    pos_after, pos_after_scan, pos_lt, quote_search, token_end, token_kind, token_pos,
    token_text, word_end, ws_end,
};

verus! {

/// Whitespace on `[i, e)` followed by the end or a non-whitespace character ends at `e`.
proof fn lemma_ws_end_at(s: Seq<char>, i: int, e: int)
    requires
        0 <= i <= e <= s.len(),
        forall|j: int| i <= j < e ==> is_ws(#[trigger] s[j]),
        e == s.len() || !is_ws(s[e]),
    ensures
        ws_end(s, i) == e,
    decreases e - i,
{
    if i < e {
        lemma_ws_end_at(s, i + 1, e);
    }
}

/// Word characters on `[i, e)` followed by the end or a special character end at `e`.
proof fn lemma_word_end_at(s: Seq<char>, i: int, e: int)
    requires
        0 <= i <= e <= s.len(),
        forall|j: int| i <= j < e ==> !is_special(#[trigger] s[j]),
        e == s.len() || is_special(s[e]),
    ensures
        word_end(s, i) == e,
    decreases e - i,
{
    if i < e {
        lemma_word_end_at(s, i + 1, e);
    }
}

/// Digits on `[i, e)` followed by the end or a non-digit end at `e`.
proof fn lemma_digits_end_at(s: Seq<char>, i: int, e: int)
    requires
        0 <= i <= e <= s.len(),
        forall|j: int| i <= j < e ==> is_digit(#[trigger] s[j]),
        e == s.len() || !is_digit(s[e]),
    ensures
        digits_end(s, i) == e,
    decreases e - i,
{
    if i < e {
        lemma_digits_end_at(s, i + 1, e);
    }
}

/// Non-quotes on `[i, e)` followed by a quote: the search stops at `e`.
proof fn lemma_quote_search_at(s: Seq<char>, i: int, e: int)
    requires
        0 <= i <= e < s.len(),
        forall|j: int| i <= j < e ==> !is_quote_char(#[trigger] s[j]),
        is_quote_char(s[e]),
    ensures
        quote_search(s, i) == e,
    decreases e - i,
{
    if i < e {
        lemma_quote_search_at(s, i + 1, e);
    }
}

/// Text made only of whitespace holds no token: from any cursor, the scan reaches the end.
pub proof fn lemma_whitespace_only_yields_nothing(s: Seq<char>, i: int)
    requires
        0 <= i <= s.len(),
        forall|j: int| 0 <= j < s.len() ==> is_ws(#[trigger] s[j]),
    ensures
        ws_end(s, i) == s.len(),
        cursor_after(s, i) == s.len(),
{
    lemma_ws_end_at(s, i, s.len() as int);
}

/// A word of letters, digits and underscores that starts with a letter or an underscore,
/// is no keyword, and is followed by the end or a character outside words, is read after
/// leading whitespace as one name whose text is exactly the word.
pub proof fn lemma_identifier(pre: Seq<char>, w: Seq<char>, post: Seq<char>)
    requires
        forall|j: int| 0 <= j < pre.len() ==> is_ws(#[trigger] pre[j]),
        w.len() > 0,
        !is_digit(w[0]),
        forall|j: int| 0 <= j < w.len() ==> !is_special(#[trigger] w[j]),
        post.len() == 0 || is_special(post[0]),
        w != "function"@,
        w != "return"@,
        w != "const"@,
    ensures
        ws_end(pre + w + post, 0) == pre.len(),
        token_kind(pre + w + post, pre.len() as int) == TokenType::Name,
        token_text(pre + w + post, pre.len() as int) == w,
        token_end(pre + w + post, pre.len() as int) == pre.len() + w.len(),
{
    let s = pre + w + post;
    let k = pre.len() as int;
    let e = k + w.len();
    assert forall|j: int| 0 <= j < k implies is_ws(#[trigger] s[j]) by {
        assert(s[j] == pre[j]);
    }
    assert(s[k] == w[0]);
    lemma_ws_end_at(s, 0, k);
    assert forall|j: int| k <= j < e implies !is_special(#[trigger] s[j]) by {
        assert(s[j] == w[j - k]);
    }
    if e < s.len() {
        assert(s[e] == post[0]);
    }
    lemma_word_end_at(s, k, e);
    assert(s.subrange(k, e) =~= w);
}

/// Each of the three keywords, after leading whitespace and followed by the end or a
/// character outside words, is read as its own keyword kind, never as a name.
pub proof fn lemma_keyword(pre: Seq<char>, w: Seq<char>, post: Seq<char>)
    requires
        forall|j: int| 0 <= j < pre.len() ==> is_ws(#[trigger] pre[j]),
        w == "function"@ || w == "return"@ || w == "const"@,
        post.len() == 0 || is_special(post[0]),
    ensures
        w == "function"@ ==> token_kind(pre + w + post, pre.len() as int) == TokenType::Function,
        w == "return"@ ==> token_kind(pre + w + post, pre.len() as int) == TokenType::Return,
        w == "const"@ ==> token_kind(pre + w + post, pre.len() as int) == TokenType::Const,
        token_kind(pre + w + post, pre.len() as int) != TokenType::Name,
        ws_end(pre + w + post, 0) == pre.len(),
        token_text(pre + w + post, pre.len() as int) == w,
{
    reveal_strlit("function");
    reveal_strlit("return");
    reveal_strlit("const");
    let s = pre + w + post;
    let k = pre.len() as int;
    let e = k + w.len();
    assert forall|j: int| 0 <= j < k implies is_ws(#[trigger] s[j]) by {
        assert(s[j] == pre[j]);
    }
    assert(s[k] == w[0]);
    lemma_ws_end_at(s, 0, k);
    assert forall|j: int| k <= j < e implies !is_special(#[trigger] s[j]) by {
        assert(s[j] == w[j - k]);
    }
    if e < s.len() {
        assert(s[e] == post[0]);
    }
    lemma_word_end_at(s, k, e);
    assert(s.subrange(k, e) =~= w);
}

/// A run of digits after leading whitespace is read as one integer literal whose text is
/// exactly the run; the scan stops at the first non-digit.
pub proof fn lemma_integer(pre: Seq<char>, d: Seq<char>, post: Seq<char>)
    requires
        forall|j: int| 0 <= j < pre.len() ==> is_ws(#[trigger] pre[j]),
        d.len() > 0,
        forall|j: int| 0 <= j < d.len() ==> is_digit(#[trigger] d[j]),
        post.len() == 0 || !is_digit(post[0]),
    ensures
        ws_end(pre + d + post, 0) == pre.len(),
        token_kind(pre + d + post, pre.len() as int) == TokenType::Int,
        token_text(pre + d + post, pre.len() as int) == d,
        token_end(pre + d + post, pre.len() as int) == pre.len() + d.len(),
{
    let s = pre + d + post;
    let k = pre.len() as int;
    let e = k + d.len();
    assert forall|j: int| 0 <= j < k implies is_ws(#[trigger] s[j]) by {
        assert(s[j] == pre[j]);
    }
    assert(s[k] == d[0]);
    lemma_ws_end_at(s, 0, k);
    assert forall|j: int| k <= j < e implies is_digit(#[trigger] s[j]) by {
        assert(s[j] == d[j - k]);
    }
    if e < s.len() {
        assert(s[e] == post[0]);
    }
    lemma_digits_end_at(s, k, e);
    assert(s.subrange(k, e) =~= d);
}

/// A string literal between two quote characters with no quote inside is read, after
/// leading whitespace, as a string whose text is exactly what lies between the quotes.
pub proof fn lemma_string_literal(
    pre: Seq<char>,
    open: char,
    body: Seq<char>,
    close: char,
    post: Seq<char>,
)
    requires
        forall|j: int| 0 <= j < pre.len() ==> is_ws(#[trigger] pre[j]),
        is_quote_char(open),
        forall|j: int| 0 <= j < body.len() ==> !is_quote_char(#[trigger] body[j]),
        is_quote_char(close),
    ensures
        ws_end(pre + seq![open] + body + seq![close] + post, 0) == pre.len(),
        token_kind(pre + seq![open] + body + seq![close] + post, pre.len() as int)
            == TokenType::String,
        token_text(pre + seq![open] + body + seq![close] + post, pre.len() as int) == body,
        token_end(pre + seq![open] + body + seq![close] + post, pre.len() as int) == pre.len()
            + body.len() + 2,
{
    let s = pre + seq![open] + body + seq![close] + post;
    let k = pre.len() as int;
    let q = k + 1 + body.len();
    assert forall|j: int| 0 <= j < k implies is_ws(#[trigger] s[j]) by {
        assert(s[j] == pre[j]);
    }
    assert(s[k] == open);
    lemma_ws_end_at(s, 0, k);
    assert forall|j: int| k + 1 <= j < q implies !is_quote_char(#[trigger] s[j]) by {
        assert(s[j] == body[j - k - 1]);
    }
    assert(s[q] == close);
    lemma_quote_search_at(s, k + 1, q);
    assert(s.subrange(k + 1, q) =~= body);
}

/// Every token takes at least one character.
proof fn lemma_token_nonempty(s: Seq<char>, k: int)
    requires
        0 <= k < s.len(),
    ensures
        k < token_end(s, k) <= s.len(),
{
    lemma_ends_in_bounds(s, k + 1);
    lemma_ends_in_bounds(s, k);
}

/// Successive tokens come at strictly increasing (line, column) positions: the position
/// of a token is before the position that the scan leaves, and that is at or before the
/// position of the next token.
pub proof fn lemma_positions_increase(s: Seq<char>, i: int, p: (int, int))
    requires
        0 <= i <= s.len(),
        ws_end(s, i) < s.len(),
    ensures
        pos_lt(token_pos(s, i, p), pos_after_scan(s, i, p)),
        ws_end(s, cursor_after(s, i)) < s.len() ==> pos_lt(
            token_pos(s, i, p),
            token_pos(s, cursor_after(s, i), pos_after_scan(s, i, p)),
        ),
{
    let k = ws_end(s, i);
    lemma_ends_in_bounds(s, i);
    lemma_token_nonempty(s, k);
    let e = cursor_after(s, i);
    assert(s.subrange(i, e) =~= s.subrange(i, k) + s.subrange(k, e));
    lemma_pos_after_concat(p, s.subrange(i, k), s.subrange(k, e));
    lemma_pos_after_grows(pos_after(p, s.subrange(i, k)), s.subrange(k, e));
    lemma_ends_in_bounds(s, e);
    lemma_pos_after_grows(pos_after_scan(s, i, p), s.subrange(e, ws_end(s, e)));
}

/// A newline just before a token puts the token on a later line than the scan started on,
/// one past the line reached before the newline, and at column 1.
pub proof fn lemma_newline_before_token(s: Seq<char>, i: int, p: (int, int))
    requires
        0 <= i < ws_end(s, i),
        ws_end(s, i) < s.len(),
        s[ws_end(s, i) - 1] == '\n',
    ensures
        token_pos(s, i, p) == (pos_after(p, s.subrange(i, ws_end(s, i) - 1)).0 + 1, 1int),
        token_pos(s, i, p).0 > p.0,
{
    let k = ws_end(s, i);
    lemma_pos_after_push(p, s, i, k - 1);
    lemma_pos_after_grows(p, s.subrange(i, k - 1));
}

} // verus!
