use vstd::prelude::*;
use vstd::string::*;

use super::model::TokenView;
use super::token::{Token, TokenType};
use crate::vm::chunk::object::bytes_equal;

verus! {

/// Whether a byte is an ASCII digit.
pub open spec fn is_digit(c: u8) -> bool {
    48 <= c <= 57
}

/// Whether a byte is an ASCII letter or an underscore.
pub open spec fn is_alpha(c: u8) -> bool {
    (97 <= c <= 122) || (65 <= c <= 90) || c == 95
}

/// Whether a byte may stand inside an identifier.
pub open spec fn is_ident(c: u8) -> bool {
    is_alpha(c) || is_digit(c)
}

/// Whether a byte is a space, a tab, a carriage return, a form feed or a newline.
pub open spec fn is_blank(c: u8) -> bool {
    c == 32 || c == 9 || c == 13 || c == 12 || c == 10
}

/// The first offset from `pos` on that holds a newline, or the length of the source.
pub open spec fn line_end(src: Seq<u8>, pos: int) -> int
    decreases src.len() - pos,
{
    if 0 <= pos < src.len() && src[pos] != 10u8 {
        line_end(src, pos + 1)
    } else {
        pos
    }
}

/// The first offset from `pos` on that holds a double quote, or the length of the source.
pub open spec fn quote_at(src: Seq<u8>, pos: int) -> int
    decreases src.len() - pos,
{
    if 0 <= pos < src.len() && src[pos] != 34u8 {
        quote_at(src, pos + 1)
    } else {
        pos
    }
}

/// The end of the longest run of digits from `pos` on.
pub open spec fn digits_end(src: Seq<u8>, pos: int) -> int
    decreases src.len() - pos,
{
    if 0 <= pos < src.len() && is_digit(src[pos]) {
        digits_end(src, pos + 1)
    } else {
        pos
    }
}

/// The end of the longest run of identifier bytes from `pos` on.
pub open spec fn ident_end(src: Seq<u8>, pos: int) -> int
    decreases src.len() - pos,
{
    if 0 <= pos < src.len() && is_ident(src[pos]) {
        ident_end(src, pos + 1)
    } else {
        pos
    }
}

/// The number of newlines in `src` from `from` up to `to`.
pub open spec fn newlines(src: Seq<u8>, from: int, to: int) -> nat
    decreases to - from,
{
    if from < to {
        newlines(src, from, to - 1) + if src[to - 1] == 10u8 {
            1nat
        } else {
            0nat
        }
    } else {
        0
    }
}

/// Where the next token starts: the first offset from `pos` on that is neither blank nor
/// inside a `//` comment, which runs to the end of its line.
pub open spec fn skip_blank(src: Seq<u8>, pos: int) -> int
    decreases src.len() - pos,
{
    if 0 <= pos < src.len() {
        if is_blank(src[pos]) {
            skip_blank(src, pos + 1)
        } else if src[pos] == 47u8 && pos + 1 < src.len() && src[pos + 1] == 47u8 {
            if pos < line_end(src, pos + 2) <= src.len() {
                skip_blank(src, line_end(src, pos + 2))
            } else {
                pos
            }
        } else {
            pos
        }
    } else {
        pos
    }
}

/// The kind of the word `text`: that of the keyword it spells, or else an identifier.
pub open spec fn word_kind(text: Seq<u8>) -> TokenType {
    if text == "and".spec_bytes() {
        TokenType::And
    } else if text == "class".spec_bytes() {
        TokenType::Class
    } else if text == "else".spec_bytes() {
        TokenType::Else
    } else if text == "false".spec_bytes() {
        TokenType::False
    } else if text == "for".spec_bytes() {
        TokenType::For
    } else if text == "fn".spec_bytes() {
        TokenType::Fun
    } else if text == "if".spec_bytes() {
        TokenType::If
    } else if text == "nil".spec_bytes() {
        TokenType::Nil
    } else if text == "or".spec_bytes() {
        TokenType::Or
    } else if text == "print".spec_bytes() {
        TokenType::Print
    } else if text == "return".spec_bytes() {
        TokenType::Return
    } else if text == "super".spec_bytes() {
        TokenType::Super
    } else if text == "this".spec_bytes() {
        TokenType::This
    } else if text == "true".spec_bytes() {
        TokenType::True
    } else if text == "var".spec_bytes() {
        TokenType::Var
    } else if text == "while".spec_bytes() {
        TokenType::While
    } else {
        TokenType::Identifier
    }
}

/// Where a number that starts at `s` ends: after its digits and, where a dot and a digit
/// follow them, after the digits of the fraction.
pub open spec fn number_end(src: Seq<u8>, s: int) -> int {
    let e = digits_end(src, s);
    if e + 1 < src.len() && src[e] == 46u8 && is_digit(src[e + 1]) {
        digits_end(src, e + 1)
    } else {
        e
    }
}

/// Whether `second` follows the byte at `s`.
pub open spec fn followed_by(src: Seq<u8>, s: int, second: u8) -> bool {
    s + 1 < src.len() && src[s + 1] == second
}

/// The kind of the token that starts at `s`, where `s` is not blank.
pub open spec fn token_kind(src: Seq<u8>, s: int) -> TokenType {
    if s >= src.len() {
        TokenType::EOF
    } else {
        let c = src[s];
        if is_alpha(c) {
            word_kind(src.subrange(s, ident_end(src, s)))
        } else if is_digit(c) {
            TokenType::Number
        } else if c == 40 {
            TokenType::LeftParen
        } else if c == 41 {
            TokenType::RightParen
        } else if c == 123 {
            TokenType::LeftBrace
        } else if c == 125 {
            TokenType::RightBrace
        } else if c == 59 {
            TokenType::Semicolon
        } else if c == 44 {
            TokenType::Comma
        } else if c == 46 {
            TokenType::Dot
        } else if c == 45 {
            TokenType::Minus
        } else if c == 43 {
            TokenType::Plus
        } else if c == 47 {
            TokenType::Slash
        } else if c == 42 {
            TokenType::Star
        } else if c == 33 {
            if followed_by(src, s, 61) {
                TokenType::BangEqual
            } else {
                TokenType::Bang
            }
        } else if c == 61 {
            if followed_by(src, s, 61) {
                TokenType::EqualEqual
            } else {
                TokenType::Equal
            }
        } else if c == 60 {
            if followed_by(src, s, 61) {
                TokenType::LessEqual
            } else {
                TokenType::Less
            }
        } else if c == 62 {
            if followed_by(src, s, 61) {
                TokenType::GreaterEqual
            } else {
                TokenType::Greater
            }
        } else if c == 34 {
            if quote_at(src, s + 1) < src.len() {
                TokenType::String
            } else {
                TokenType::Error
            }
        } else {
            TokenType::Error
        }
    }
}

/// Where the token that starts at `s` ends.
pub open spec fn token_end(src: Seq<u8>, s: int) -> int {
    if s >= src.len() {
        s
    } else {
        let c = src[s];
        if is_alpha(c) {
            ident_end(src, s)
        } else if is_digit(c) {
            number_end(src, s)
        } else if (c == 33 || c == 61 || c == 60 || c == 62) && followed_by(src, s, 61) {
            s + 2
        } else if c == 34 {
            if quote_at(src, s + 1) < src.len() {
                quote_at(src, s + 1) + 1
            } else {
                src.len() as int
            }
        } else {
            s + 1
        }
    }
}

/// The text of the token that starts at `s`: its bytes in the source, or for an error
/// token the message.
pub open spec fn token_text(src: Seq<u8>, s: int) -> Seq<u8> {
    if token_kind(src, s) == TokenType::Error {
        if s < src.len() && src[s] == 34u8 {
            "Unterminated string.".spec_bytes()
        } else {
            "Unexpected character.".spec_bytes()
        }
    } else {
        src.subrange(s, token_end(src, s))
    }
}

/// The token that the scanner hands out from the offset `current` on line `line`.
pub open spec fn scanned_token(src: Seq<u8>, current: int, line: int) -> TokenView {
    let at = skip_blank(src, current);
    let text = token_text(src, at);
    TokenView {
        token_type: token_kind(src, at),
        length: text.len() as usize,
        line: (line + newlines(src, current, token_end(src, at))) as usize,
        start: at as usize,
        lexeme: text,
    }
}

/// The tokens that the scanner hands out from the offset `current` on line `line`, up to
/// and with the one that marks the end of the source.
pub open spec fn tokens_from(src: Seq<u8>, current: int, line: int) -> Seq<TokenView>
    decreases src.len() - current,
{
    let at = skip_blank(src, current);
    let end = token_end(src, at);
    let token = scanned_token(src, current, line);
    if token.token_type != TokenType::EOF && current < end <= src.len() {
        seq![token] + tokens_from(src, end, line + newlines(src, current, end))
    } else {
        seq![token]
    }
}

/// The views of tokens, in order.
pub open spec fn token_views(tokens: Seq<Token>) -> Seq<TokenView> {
    tokens.map_values(|t: Token| t@)
}

/// The newlines of two adjoining ranges add up.
pub proof fn lemma_newlines_split(src: Seq<u8>, a: int, b: int, c: int)
    requires
        a <= b <= c,
    ensures
        newlines(src, a, c) == newlines(src, a, b) + newlines(src, b, c),
    decreases c - b,
{
    if b < c {
        lemma_newlines_split(src, a, b, c - 1);
    }
}

/// A range holds no more newlines than bytes.
pub proof fn lemma_newlines_bound(src: Seq<u8>, a: int, b: int)
    requires
        a <= b,
    ensures
        newlines(src, a, b) <= b - a,
    decreases b - a,
{
    if a < b {
        lemma_newlines_bound(src, a, b - 1);
    }
}

/// Copies the bytes of `src` from `from` up to `to`.
pub fn copy_range(src: &Vec<u8>, from: usize, to: usize) -> (r: Vec<u8>)
    requires
        from <= to <= src@.len(),
    ensures
        r@ == src@.subrange(from as int, to as int),
{
    let mut r: Vec<u8> = Vec::new();
    let mut i: usize = from;
    while i < to
        invariant
            from <= i <= to <= src@.len(),
            r@ == src@.subrange(from as int, i as int),
        decreases to - i,
    {
        r.push(src[i]);
        proof {
            assert(r@ =~= src@.subrange(from as int, i + 1));
        }
        i += 1;
    }
    r
}

/// The kind of a word: a keyword or an identifier.
pub fn keyword_kind(text: &[u8]) -> (r: TokenType)
    ensures
        r == word_kind(text@),
{
    if bytes_equal(text, "and".as_bytes()) {
        TokenType::And
    } else if bytes_equal(text, "class".as_bytes()) {
        TokenType::Class
    } else if bytes_equal(text, "else".as_bytes()) {
        TokenType::Else
    } else if bytes_equal(text, "false".as_bytes()) {
        TokenType::False
    } else if bytes_equal(text, "for".as_bytes()) {
        TokenType::For
    } else if bytes_equal(text, "fn".as_bytes()) {
        TokenType::Fun
    } else if bytes_equal(text, "if".as_bytes()) {
        TokenType::If
    } else if bytes_equal(text, "nil".as_bytes()) {
        TokenType::Nil
    } else if bytes_equal(text, "or".as_bytes()) {
        TokenType::Or
    } else if bytes_equal(text, "print".as_bytes()) {
        TokenType::Print
    } else if bytes_equal(text, "return".as_bytes()) {
        TokenType::Return
    } else if bytes_equal(text, "super".as_bytes()) {
        TokenType::Super
    } else if bytes_equal(text, "this".as_bytes()) {
        TokenType::This
    } else if bytes_equal(text, "true".as_bytes()) {
        TokenType::True
    } else if bytes_equal(text, "var".as_bytes()) {
        TokenType::Var
    } else if bytes_equal(text, "while".as_bytes()) {
        TokenType::While
    } else {
        TokenType::Identifier
    }
}

/// Whether a byte is an ASCII digit.
pub fn byte_is_digit(c: u8) -> (r: bool)
    ensures
        r == is_digit(c),
{
    48 <= c && c <= 57
}

/// Whether a byte may stand inside an identifier.
pub fn byte_is_ident(c: u8) -> (r: bool)
    ensures
        r == is_ident(c),
{
    (97 <= c && c <= 122) || (65 <= c && c <= 90) || c == 95 || (48 <= c && c <= 57)
}

/// A cursor over the bytes of a source text that hands out one token at a time.
#[derive(Debug)]
pub struct Scanner {
    pub source: Vec<u8>,
    pub start: usize,
    pub current: usize,
    pub line: usize,
}

impl Scanner {
    /// The invariant of a scanner: the cursor lies in the source, and the line counter
    /// has room for every newline still ahead.
    pub open spec fn wf(&self) -> bool {
        &&& self.start <= self.current <= self.source@.len()
        &&& self.line + (self.source@.len() - self.current) <= usize::MAX
    }

    /// What `scan_token` does: it skips blanks and comments, and hands out the token that
    /// starts there, leaving the cursor behind it and the line counter advanced by the
    /// newlines passed.
    pub open spec fn scanned(&self, before: &Scanner, token: &Token) -> bool {
        let src = before.source@;
        let s = skip_blank(src, before.current as int);
        &&& self.wf()
        &&& self.source@ == src
        &&& before.current <= s <= src.len()
        &&& token.start == s
        &&& self.start == s
        &&& self.current == token_end(src, s)
        &&& token.token_type == token_kind(src, s)
        &&& token.lexeme@ == token_text(src, s)
        &&& token.length == token.lexeme@.len()
        &&& self.line == before.line + newlines(src, before.current as int, self.current as int)
        &&& token.line == self.line
        &&& (token.token_type == TokenType::EOF <==> s == src.len())
        &&& (token.token_type != TokenType::EOF ==> s < self.current)
        &&& (token.token_type == TokenType::EOF ==> self.current == s)
    }

    /// A scanner at the start of `source`, on line 1.
    pub fn new(source: &str) -> (r: Self)
        requires
            source.spec_bytes().len() < usize::MAX,
        ensures
            r.wf(),
            r.source@ == source.spec_bytes(),
            r.start == 0,
            r.current == 0,
            r.line == 1,
    {
        Scanner { source: source.as_bytes_vec(), start: 0, current: 0, line: 1 }
    }

    /// Moves the cursor over blanks and `//` comments.
    fn skip_whitespace(&mut self)
        requires
            old(self).wf(),
        ensures
            final(self).wf(),
            final(self).source@ == old(self).source@,
            final(self).start == old(self).start,
            old(self).current <= final(self).current,
            final(self).current == skip_blank(old(self).source@, old(self).current as int),
            final(self).line == old(self).line + newlines(
                old(self).source@,
                old(self).current as int,
                final(self).current as int,
            ),
            final(self).current < final(self).source@.len() ==> !is_blank(
                final(self).source@[final(self).current as int],
            ),
    {
        let ghost src = self.source@;
        let ghost c0 = self.current as int;
        let len = self.source.len();
        loop
            invariant
                self.wf(),
                self.source@ == src,
                len == src.len(),
                self.start == old(self).start,
                c0 == old(self).current,
                c0 <= self.current <= len,
                skip_blank(src, self.current as int) == skip_blank(src, c0),
                self.line == old(self).line + newlines(src, c0, self.current as int),
                old(self).wf(),
            ensures
                self.current == skip_blank(src, c0),
                self.current < len ==> !is_blank(src[self.current as int]),
            decreases len - self.current,
        {
            if self.current >= len {
                break ;
            }
            let c = self.source[self.current];
            if c == 32 || c == 9 || c == 13 || c == 12 {
                self.current += 1;
            } else if c == 10 {
                self.line += 1;
                self.current += 1;
            } else if c == 47 && self.current + 1 < len && self.source[self.current + 1] == 47 {
                let ghost from = self.current as int;
                self.current += 2;
                assert(newlines(src, c0, from + 2) == newlines(src, c0, from)) by {
                    assert(newlines(src, c0, from + 1) == newlines(src, c0, from));
                }
                while self.current < len && self.source[self.current] != 10
                    invariant
                        self.wf(),
                        self.source@ == src,
                        len == src.len(),
                        self.start == old(self).start,
                        from + 2 <= self.current <= len,
                        line_end(src, self.current as int) == line_end(src, from + 2),
                        self.line == old(self).line + newlines(src, c0, self.current as int),
                    decreases len - self.current,
                {
                    self.current += 1;
                }
            } else {
                break ;
            }
        }
    }

    /// Hands out the tokens from the cursor on, the last of them the one that marks the
    /// end of the source.
    pub fn scan_tokens(&mut self) -> (tokens: Vec<Token>)
        requires
            old(self).wf(),
        ensures
            final(self).wf(),
            final(self).source@ == old(self).source@,
            final(self).current == final(self).source@.len(),
            token_views(tokens@) == tokens_from(
                old(self).source@,
                old(self).current as int,
                old(self).line as int,
            ),
            tokens@.len() >= 1,
            tokens@.last().token_type == TokenType::EOF,
    {
        let mut tokens: Vec<Token> = Vec::new();
        let ghost src = self.source@;
        let ghost whole = tokens_from(src, self.current as int, self.line as int);
        loop
            invariant_except_break
                token_views(tokens@) + tokens_from(src, self.current as int, self.line as int)
                    == whole,
            invariant
                self.wf(),
                self.source@ == src,
            ensures
                self.wf(),
                self.source@ == src,
                self.current == src.len(),
                token_views(tokens@) == whole,
                tokens@.len() >= 1,
                tokens@.last().token_type == TokenType::EOF,
            decreases src.len() - self.current,
        {
            let ghost before = *self;
            let ghost seen = token_views(tokens@);
            let token = self.scan_token();
            let done = token.token_type == TokenType::EOF;
            let ghost view = token@;
            tokens.push(token);
            proof {
                assert(token_views(tokens@) =~= seen.push(view));
                assert(view == scanned_token(src, before.current as int, before.line as int));
                if !done {
                    assert(seen.push(view) + tokens_from(
                        src,
                        self.current as int,
                        self.line as int,
                    ) =~= seen + (seq![view] + tokens_from(
                        src,
                        self.current as int,
                        self.line as int,
                    )));
                } else {
                    assert(seen.push(view) =~= seen + seq![view]);
                }
            }
            if done {
                break ;
            }
        }
        tokens
    }

    /// Hands out the next token.
    pub fn scan_token(&mut self) -> (token: Token)
        requires
            old(self).wf(),
        ensures
            final(self).scanned(old(self), &token),
    {
        self.skip_whitespace();
        self.start = self.current;
        let ghost src = self.source@;
        let ghost s = self.current as int;
        let ghost line0 = self.line;
        let len = self.source.len();
        if self.current >= len {
            proof {
                assert(src.subrange(s, s) =~= Seq::<u8>::empty());
            }
            return Token::new(TokenType::EOF, 0, self.line, self.start, Vec::new());
        }
        let c = self.source[self.current];
        self.current += 1;
        if byte_is_ident(c) && !byte_is_digit(c) {
            while self.current < len && byte_is_ident(self.source[self.current])
                invariant
                    self.source@ == src,
                    len == src.len(),
                    self.start == s,
                    s < self.current <= len,
                    self.line == line0,
                    ident_end(src, self.current as int) == ident_end(src, s),
                decreases len - self.current,
            {
                self.current += 1;
            }
            let lexeme = copy_range(&self.source, self.start, self.current);
            let kind = keyword_kind(lexeme.as_slice());
            proof {
                lemma_no_newline_in_word(src, s, self.current as int);
                lemma_newlines_split(src, old(self).current as int, s, self.current as int);
            }
            return Token::new(kind, lexeme.len(), self.line, self.start, lexeme);
        }
        if byte_is_digit(c) {
            while self.current < len && byte_is_digit(self.source[self.current])
                invariant
                    self.source@ == src,
                    len == src.len(),
                    self.start == s,
                    s < self.current <= len,
                    self.line == line0,
                    digits_end(src, self.current as int) == digits_end(src, s),
                    forall|i: int| s <= i < self.current ==> is_digit(#[trigger] src[i]),
                decreases len - self.current,
            {
                self.current += 1;
            }
            if self.current < len && self.source[self.current] == 46 && self.current + 1 < len
                && byte_is_digit(self.source[self.current + 1]) {
                let ghost dot = self.current as int;
                self.current += 1;
                while self.current < len && byte_is_digit(self.source[self.current])
                    invariant
                        self.source@ == src,
                        len == src.len(),
                        self.start == s,
                        dot < self.current <= len,
                        self.line == line0,
                        digits_end(src, self.current as int) == digits_end(src, dot + 1),
                        forall|i: int| s <= i < self.current ==> #[trigger] src[i] != 10u8,
                    decreases len - self.current,
                {
                    self.current += 1;
                }
            }
            let lexeme = copy_range(&self.source, self.start, self.current);
            proof {
                lemma_no_newline(src, s, self.current as int);
                lemma_newlines_split(src, old(self).current as int, s, self.current as int);
            }
            return Token::new(TokenType::Number, lexeme.len(), self.line, self.start, lexeme);
        }
        proof {
            lemma_newlines_split(src, old(self).current as int, s, s + 1);
            lemma_newlines_split(src, old(self).current as int, s, s + 2);
            assert(newlines(src, s, s + 1) == if src[s] == 10u8 { 1nat } else { 0nat }) by {
                assert(newlines(src, s, s) == 0);
            }
        }
        if c == 34 {
            while self.current < len && self.source[self.current] != 34
                invariant
                    self.wf(),
                    self.source@ == src,
                    len == src.len(),
                    self.start == s,
                    s < self.current <= len,
                    self.line == line0 + newlines(src, s, self.current as int),
                    quote_at(src, self.current as int) == quote_at(src, s + 1),
                decreases len - self.current,
            {
                if self.source[self.current] == 10 {
                    self.line += 1;
                }
                self.current += 1;
            }
            proof {
                lemma_newlines_split(src, old(self).current as int, s, self.current as int);
            }
            if self.current >= len {
                let message = "Unterminated string.".as_bytes_vec();
                return Token::new(TokenType::Error, message.len(), self.line, self.start, message);
            }
            self.current += 1;
            proof {
                lemma_newlines_split(src, old(self).current as int, s, self.current as int);
                assert(newlines(src, s, self.current as int) == newlines(
                    src,
                    s,
                    self.current - 1,
                ));
            }
            let lexeme = copy_range(&self.source, self.start, self.current);
            return Token::new(TokenType::String, lexeme.len(), self.line, self.start, lexeme);
        }
        let two = (c == 33 || c == 61 || c == 60 || c == 62) && self.current < len
            && self.source[self.current] == 61;
        if two {
            self.current += 1;
            assert(newlines(src, s, s + 2) == 0) by {
                assert(newlines(src, s, s + 1) == 0);
            }
        }
        let kind = if c == 40 {
            TokenType::LeftParen
        } else if c == 41 {
            TokenType::RightParen
        } else if c == 123 {
            TokenType::LeftBrace
        } else if c == 125 {
            TokenType::RightBrace
        } else if c == 59 {
            TokenType::Semicolon
        } else if c == 44 {
            TokenType::Comma
        } else if c == 46 {
            TokenType::Dot
        } else if c == 45 {
            TokenType::Minus
        } else if c == 43 {
            TokenType::Plus
        } else if c == 47 {
            TokenType::Slash
        } else if c == 42 {
            TokenType::Star
        } else if c == 33 {
            if two {
                TokenType::BangEqual
            } else {
                TokenType::Bang
            }
        } else if c == 61 {
            if two {
                TokenType::EqualEqual
            } else {
                TokenType::Equal
            }
        } else if c == 60 {
            if two {
                TokenType::LessEqual
            } else {
                TokenType::Less
            }
        } else if c == 62 {
            if two {
                TokenType::GreaterEqual
            } else {
                TokenType::Greater
            }
        } else {
            TokenType::Error
        };
        if kind == TokenType::Error {
            let message = "Unexpected character.".as_bytes_vec();
            return Token::new(TokenType::Error, message.len(), self.line, self.start, message);
        }
        let lexeme = copy_range(&self.source, self.start, self.current);
        Token::new(kind, lexeme.len(), self.line, self.start, lexeme)
    }
}

/// A range of bytes that are no newlines holds no newline.
pub proof fn lemma_no_newline(src: Seq<u8>, a: int, b: int)
    requires
        0 <= a <= b <= src.len(),
        forall|i: int| a <= i < b ==> #[trigger] src[i] != 10u8,
    ensures
        newlines(src, a, b) == 0,
    decreases b - a,
{
    if a < b {
        lemma_no_newline(src, a, b - 1);
    }
}

/// A word holds no newline.
pub proof fn lemma_no_newline_in_word(src: Seq<u8>, a: int, b: int)
    requires
        0 <= a <= b <= src.len(),
        b <= ident_end(src, a),
    ensures
        newlines(src, a, b) == 0,
        forall|i: int| a <= i < b ==> is_ident(#[trigger] src[i]),
    decreases b - a,
{
    if a < b {
        lemma_ident_end_step(src, a, b - 1);
        lemma_no_newline_in_word(src, a, b - 1);
    }
}

/// Every byte before the end of a run of identifier bytes is an identifier byte.
pub proof fn lemma_ident_end_step(src: Seq<u8>, a: int, i: int)
    requires
        0 <= a <= i < src.len(),
        i < ident_end(src, a),
    ensures
        is_ident(src[i]),
    decreases i - a,
{
    if a < i {
        if is_ident(src[a]) {
            lemma_ident_end_step(src, a + 1, i);
        }
    }
}

} // verus!
