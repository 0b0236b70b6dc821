use vstd::prelude::*;
use vstd::string::*;
use crate::decimal::{decimal, push_decimal};
use crate::input::Input;
use crate::model::{
    advance, cursor_after, digits_end, is_digit, is_quote_char, is_special, is_ws, keyword_kind,
    lemma_ends_in_bounds, lemma_pos_after_concat, lemma_pos_after_push, pos_after, pos_after_scan,
    quote_search, token_end, token_kind, token_pos, token_text, word_end, ws_end,
};

verus! {

/// The kinds of token.
#[derive(Debug, Clone, Copy, PartialEq, Eq, Structural)]
pub enum TokenType {
    Name,
    Function,
    Return,
    Const,
    Dot,
    Comma,
    Semicolon,
    Equal,
    Plus,
    SingleQuote,
    RoundBraceOpen,
    RoundBraceClose,
    CurlyBraceOpen,
    CurlyBraceClose,
    String,
    Int,
}

/// The name of a token kind as the diagnostic format prints it.
pub open spec fn kind_name(t: TokenType) -> Seq<char> {
    match t {
        TokenType::Name => "Name"@,
        TokenType::Function => "Function"@,
        TokenType::Return => "Return"@,
        TokenType::Const => "Const"@,
        TokenType::Dot => "Dot"@,
        TokenType::Comma => "Comma"@,
        TokenType::Semicolon => "Semicolon"@,
        TokenType::Equal => "Equal"@,
        TokenType::Plus => "Plus"@,
        TokenType::SingleQuote => "SingleQuote"@,
        TokenType::RoundBraceOpen => "RoundBraceOpen"@,
        TokenType::RoundBraceClose => "RoundBraceClose"@,
        TokenType::CurlyBraceOpen => "CurlyBraceOpen"@,
        TokenType::CurlyBraceClose => "CurlyBraceClose"@,
        TokenType::String => "String"@,
        TokenType::Int => "Int"@,
    }
}

impl TokenType {
    /// The kind's name.
    pub fn to_string(&self) -> (r: &'static str)
        ensures
            r@ == kind_name(*self),
    {
        match self {
            TokenType::Name => "Name",
            TokenType::Function => "Function",
            TokenType::Return => "Return",
            TokenType::Const => "Const",
            TokenType::Dot => "Dot",
            TokenType::Comma => "Comma",
            TokenType::Semicolon => "Semicolon",
            TokenType::Equal => "Equal",
            TokenType::Plus => "Plus",
            TokenType::SingleQuote => "SingleQuote",
            TokenType::RoundBraceOpen => "RoundBraceOpen",
            TokenType::RoundBraceClose => "RoundBraceClose",
            TokenType::CurlyBraceOpen => "CurlyBraceOpen",
            TokenType::CurlyBraceClose => "CurlyBraceClose",
            TokenType::String => "String",
            TokenType::Int => "Int",
        }
    }
}

/// A classified slice of the source, with the line and column of its first character.
#[derive(Debug)]
pub struct Token {
    pub token_type: TokenType,
    pub line: u32,
    pub column: u32,
    pub content: String,
}

/// Scanning state over one input: a cursor (a character index) and the current position.
pub struct Lexer {
    pub input: Input,
    pub cursor: u32,
    pub line: u32,
    pub column: u32,
}

impl Lexer {
    /// The characters being scanned.
    pub open spec fn text(&self) -> Seq<char> {
        self.input.content@
    }

    /// The current (line, column) position.
    pub open spec fn pos(&self) -> (int, int) {
        (self.line as int, self.column as int)
    }

    /// The text fits the `u32` cursor, the cursor lies within it, positions are 1-based, and
    /// no position can pass `u32::MAX` before the text runs out.
    pub open spec fn wf(&self) -> bool {
        let n = self.text().len();
        &&& n < u32::MAX
        &&& self.cursor <= n
        &&& self.line >= 1
        &&& self.column >= 1
        &&& self.line + (n - self.cursor) <= u32::MAX
        &&& self.column + (n - self.cursor) <= u32::MAX
    }

    /// Starts at the first character, line 1, column 1.
    pub fn new(input: Input) -> (r: Lexer)
        requires
            input.content@.len() < u32::MAX,
        ensures
            r.input == input,
            r.cursor == 0,
            r.line == 1,
            r.column == 1,
            r.wf(),
    {
        Lexer { input: input, cursor: 0, line: 1, column: 1 }
    }

    /// Renders a token as `<file>:<line>:<column> <kind> "<text>"`.
    pub fn pretty_format_token(&self, token: &Token) -> (r: String)
        ensures
            r@ == self.input.file@ + ":"@ + decimal(token.line as nat) + ":"@ + decimal(
                token.column as nat,
            ) + " "@ + kind_name(token.token_type) + " \""@ + token.content@ + "\""@,
    {
        let mut out: String = self.input.file.clone();
        out.append(":");
        push_decimal(&mut out, token.line);
        out.append(":");
        push_decimal(&mut out, token.column);
        out.append(" ");
        out.append(token.token_type.to_string());
        out.append(" \"");
        out.append(token.content.as_str());
        out.append("\"");
        out
    }

    fn end_reached(&self) -> (r: bool)
        requires
            self.wf(),
        ensures
            r == (self.cursor >= self.text().len()),
    {
        self.cursor as usize >= self.input.content.as_str().unicode_len()
    }

    fn get_character(&self, cursor: u32) -> (r: char)
        requires
            cursor < self.text().len(),
        ensures
            r == self.text()[cursor as int],
    {
        self.input.content.as_str().get_char(cursor as usize)
    }

    /// Consumes one character and moves the position past it.
    fn increment_cursor(&mut self)
        requires
            old(self).wf(),
            old(self).cursor < old(self).text().len(),
        ensures
            final(self).wf(),
            final(self).input == old(self).input,
            final(self).cursor == old(self).cursor + 1,
            final(self).pos() == advance(old(self).pos(), old(self).text()[old(self).cursor as int]),
    {
        self.cursor += 1;
        self.column += 1;

        if self.get_character(self.cursor - 1) == '\n' {
            self.column = 1;
            self.line += 1;
        }
    }

    fn is_number(&self, character: &char) -> (r: bool)
        ensures
            r == is_digit(*character),
    {
        let ascii_value: u32 = *character as u32;
        ascii_value > 47 && ascii_value < 58
    }

    fn is_special_character(&self, character: &char) -> (r: bool)
        ensures
            r == is_special(*character),
    {
        let ascii_value: u32 = *character as u32;

        if self.is_number(character) {
            return false;
        }
        // uppercase letter
        if ascii_value > 64 && ascii_value < 91 {
            return false;
        }
        // underscore
        if ascii_value == 95 {
            return false;
        }
        // lowercase letter
        if ascii_value > 96 && ascii_value < 123 {
            return false;
        }
        true
    }

    fn is_quote(&self, character: &char) -> (r: bool)
        ensures
            r == is_quote_char(*character),
    {
        *character == '"' || *character == '\''
    }

    fn is_whitespace(&self, character: &char) -> (r: bool)
        ensures
            r == is_ws(*character),
    {
        *character == ' ' || *character == '\t' || *character == '\n'
    }

    /// The text between `from` and `to` as a new string.
    fn slice(&self, from: u32, to: u32) -> (r: String)
        requires
            from <= to <= self.text().len(),
        ensures
            r@ == self.text().subrange(from as int, to as int),
    {
        self.input.content.as_str().substring_char(from as usize, to as usize).to_owned()
    }

    fn keyword_type(content: &String) -> (r: TokenType)
        ensures
            r == keyword_kind(content@),
    {
        if *content == String::from_str("function") {
            TokenType::Function
        } else if *content == String::from_str("return") {
            TokenType::Return
        } else if *content == String::from_str("const") {
            TokenType::Const
        } else {
            TokenType::Name
        }
    }

    /// Scans a word (letters, digits and underscores) and tells keywords from names.
    fn parse_word(&mut self) -> (r: Token)
        requires
            old(self).wf(),
            old(self).cursor < old(self).text().len(),
            !is_special(old(self).text()[old(self).cursor as int]),
            !is_digit(old(self).text()[old(self).cursor as int]),
        ensures
            final(self).wf(),
            final(self).input == old(self).input,
            final(self).cursor == token_end(old(self).text(), old(self).cursor as int),
            final(self).pos() == pos_after(
                old(self).pos(),
                old(self).text().subrange(old(self).cursor as int, final(self).cursor as int),
            ),
            r.token_type == token_kind(old(self).text(), old(self).cursor as int),
            r.content@ == token_text(old(self).text(), old(self).cursor as int),
            r.line == old(self).line,
            r.column == old(self).column,
    {
        let ghost s = self.text();
        let ghost p = self.pos();
        let start: u32 = self.cursor;
        let start_line: u32 = self.line;
        let start_column: u32 = self.column;

        while !self.end_reached() && !self.is_special_character(&self.get_character(self.cursor))
            invariant
                self.wf(),
                self.input == old(self).input,
                s == self.text(),
                start <= self.cursor <= s.len(),
                word_end(s, self.cursor as int) == word_end(s, start as int),
                self.pos() == pos_after(p, s.subrange(start as int, self.cursor as int)),
            decreases s.len() - self.cursor,
        {
            let ghost before = self.cursor as int;
            self.increment_cursor();
            proof {
                lemma_pos_after_push(p, s, start as int, before);
            }
        }

        let content: String = self.slice(start, self.cursor);
        let token_type: TokenType = Self::keyword_type(&content);

        Token { token_type: token_type, line: start_line, column: start_column, content: content }
    }

    /// Scans a string literal: the text between the opening quote and the next quote of
    /// either kind. Without a closing quote the literal runs to the end of the text.
    fn parse_string(&mut self) -> (r: Token)
        requires
            old(self).wf(),
            old(self).cursor < old(self).text().len(),
            is_quote_char(old(self).text()[old(self).cursor as int]),
        ensures
            final(self).wf(),
            final(self).input == old(self).input,
            final(self).cursor == token_end(old(self).text(), old(self).cursor as int),
            final(self).pos() == pos_after(
                old(self).pos(),
                old(self).text().subrange(old(self).cursor as int, final(self).cursor as int),
            ),
            r.token_type == token_kind(old(self).text(), old(self).cursor as int),
            r.content@ == token_text(old(self).text(), old(self).cursor as int),
            r.line == old(self).line,
            r.column == old(self).column,
    {
        let ghost s = self.text();
        let ghost p = self.pos();
        let start: u32 = self.cursor;
        let start_line: u32 = self.line;
        let start_column: u32 = self.column;

        self.increment_cursor();
        proof {
            lemma_pos_after_push(p, s, start as int, start as int);
        }
        let body_start: u32 = self.cursor;

        while !self.end_reached() && !self.is_quote(&self.get_character(self.cursor))
            invariant
                self.wf(),
                self.input == old(self).input,
                s == self.text(),
                body_start == start + 1,
                body_start <= self.cursor <= s.len(),
                quote_search(s, self.cursor as int) == quote_search(s, body_start as int),
                self.pos() == pos_after(p, s.subrange(start as int, self.cursor as int)),
            decreases s.len() - self.cursor,
        {
            let ghost before = self.cursor as int;
            self.increment_cursor();
            proof {
                lemma_pos_after_push(p, s, start as int, before);
            }
        }

        let content: String = self.slice(body_start, self.cursor);

        if !self.end_reached() {
            let ghost before = self.cursor as int;
            self.increment_cursor();
            proof {
                lemma_pos_after_push(p, s, start as int, before);
            }
        }

        Token {
            token_type: TokenType::String,
            line: start_line,
            column: start_column,
            content: content,
        }
    }

    /// Scans a run of digits.
    fn parse_number(&mut self) -> (r: Token)
        requires
            old(self).wf(),
            old(self).cursor < old(self).text().len(),
            is_digit(old(self).text()[old(self).cursor as int]),
        ensures
            final(self).wf(),
            final(self).input == old(self).input,
            final(self).cursor == token_end(old(self).text(), old(self).cursor as int),
            final(self).pos() == pos_after(
                old(self).pos(),
                old(self).text().subrange(old(self).cursor as int, final(self).cursor as int),
            ),
            r.token_type == token_kind(old(self).text(), old(self).cursor as int),
            r.content@ == token_text(old(self).text(), old(self).cursor as int),
            r.line == old(self).line,
            r.column == old(self).column,
    {
        let ghost s = self.text();
        let ghost p = self.pos();
        let start: u32 = self.cursor;
        let start_line: u32 = self.line;
        let start_column: u32 = self.column;

        while !self.end_reached() && self.is_number(&self.get_character(self.cursor))
            invariant
                self.wf(),
                self.input == old(self).input,
                s == self.text(),
                start <= self.cursor <= s.len(),
                digits_end(s, self.cursor as int) == digits_end(s, start as int),
                self.pos() == pos_after(p, s.subrange(start as int, self.cursor as int)),
            decreases s.len() - self.cursor,
        {
            let ghost before = self.cursor as int;
            self.increment_cursor();
            proof {
                lemma_pos_after_push(p, s, start as int, before);
            }
        }

        Token {
            token_type: TokenType::Int,
            line: start_line,
            column: start_column,
            content: self.slice(start, self.cursor),
        }
    }

    /// Scans one punctuation character; one outside the table becomes a name.
    fn parse_special_character(&mut self) -> (r: Token)
        requires
            old(self).wf(),
            old(self).cursor < old(self).text().len(),
            is_special(old(self).text()[old(self).cursor as int]),
            !is_quote_char(old(self).text()[old(self).cursor as int]),
        ensures
            final(self).wf(),
            final(self).input == old(self).input,
            final(self).cursor == token_end(old(self).text(), old(self).cursor as int),
            final(self).pos() == pos_after(
                old(self).pos(),
                old(self).text().subrange(old(self).cursor as int, final(self).cursor as int),
            ),
            r.token_type == token_kind(old(self).text(), old(self).cursor as int),
            r.content@ == token_text(old(self).text(), old(self).cursor as int),
            r.line == old(self).line,
            r.column == old(self).column,
    {
        let ghost s = self.text();
        let ghost p = self.pos();
        let start: u32 = self.cursor;
        let character: char = self.get_character(self.cursor);

        let token_type: TokenType = match character {
            '.' => TokenType::Dot,
            ',' => TokenType::Comma,
            ';' => TokenType::Semicolon,
            '=' => TokenType::Equal,
            '+' => TokenType::Plus,
            '\'' => TokenType::SingleQuote,
            '(' => TokenType::RoundBraceOpen,
            ')' => TokenType::RoundBraceClose,
            '{' => TokenType::CurlyBraceOpen,
            '}' => TokenType::CurlyBraceClose,
            _ => TokenType::Name,
        };

        let token: Token = Token {
            token_type: token_type,
            line: self.line,
            column: self.column,
            content: self.slice(start, start + 1),
        };

        self.increment_cursor();
        proof {
            lemma_pos_after_push(p, s, start as int, start as int);
        }

        token
    }

    /// Skips whitespace and returns the next token, or `None` once only whitespace is left.
    /// The token's kind, text and position are those of the model at the first
    /// non-whitespace character; the cursor and position are left just past it.
    pub fn next_token(&mut self) -> (r: Option<Token>)
        requires
            old(self).wf(),
        ensures
            final(self).wf(),
            final(self).input == old(self).input,
            final(self).cursor == cursor_after(old(self).text(), old(self).cursor as int),
            final(self).pos() == pos_after_scan(old(self).text(), old(self).cursor as int, old(self).pos()),
            r is None <==> ws_end(old(self).text(), old(self).cursor as int) >= old(self).text().len(),
            r matches Some(t) ==> {
                let k = ws_end(old(self).text(), old(self).cursor as int);
                &&& t.token_type == token_kind(old(self).text(), k)
                &&& t.content@ == token_text(old(self).text(), k)
                &&& (t.line as int, t.column as int) == token_pos(
                    old(self).text(),
                    old(self).cursor as int,
                    old(self).pos(),
                )
            },
    {
        let ghost s = self.text();
        let ghost p = self.pos();
        let ghost i = self.cursor as int;

        if self.end_reached() {
            return None;
        }

        while !self.end_reached() && self.is_whitespace(&self.get_character(self.cursor))
            invariant
                self.wf(),
                self.input == old(self).input,
                s == self.text(),
                0 <= i <= self.cursor <= s.len(),
                ws_end(s, self.cursor as int) == ws_end(s, i),
                self.pos() == pos_after(p, s.subrange(i, self.cursor as int)),
            decreases s.len() - self.cursor,
        {
            let ghost before = self.cursor as int;
            self.increment_cursor();
            proof {
                lemma_pos_after_push(p, s, i, before);
            }
        }

        if self.end_reached() {
            return None;
        }

        let ghost k = self.cursor as int;
        let ghost q = self.pos();
        let character: char = self.get_character(self.cursor);
        let token: Token;

        if self.is_special_character(&character) {
            if self.is_quote(&character) {
                token = self.parse_string();
            } else {
                token = self.parse_special_character();
            }
        } else {
            if self.is_number(&character) {
                token = self.parse_number();
            } else {
                token = self.parse_word();
            }
        }

        proof {
            let e = self.cursor as int;
            lemma_ends_in_bounds(s, k);
            lemma_ends_in_bounds(s, k + 1);
            assert(s.subrange(i, e) =~= s.subrange(i, k) + s.subrange(k, e));
            lemma_pos_after_concat(p, s.subrange(i, k), s.subrange(k, e));
        }

        Some(token)
    }
}

} // verus!
