//! The lexer: turns source text into tokens, one at a time.
//!
//! The scanner counts its positions in characters; a token knows the byte at
//! which it starts in the source. What `scan_token` returns is stated by
//! `scan_spec`, a function of the source text, the position and the line.

use vstd::prelude::*;
use vstd::string::*;
use vstd::utf8::{
    char_is_scalar, encode_scalar, encode_utf8, encode_utf8_decode_utf8, encode_utf8_first_scalar,
    encode_utf8_valid_utf8, is_char_boundary, pop_first_scalar,
};

verus! {

#[derive(Clone, Copy, Debug, Hash, PartialEq, Eq, Structural)]
pub enum TokenKind {
    // Single-char tokens
    LeftParen,
    RightParen,
    LeftBrace,
    RightBrace,
    Comma,
    Dot,
    Minus,
    Plus,
    Semicolon,
    Slash,
    Star,
    // One or two char tokens
    Bang,
    BangEqual,
    Equal,
    EqualEqual,
    Greater,
    GreaterEqual,
    Less,
    LessEqual,
    // Literals
    Identifier,
    String,
    Number,
    // Keywords
    And,
    Class,
    Else,
    False,
    For,
    Fun,
    If,
    Nil,
    Or,
    Print,
    Return,
    Super,
    This,
    True,
    Var,
    While,
    Comment,
    Eof,
    Dummy,
}

impl Default for TokenKind {
    fn default() -> (kind: Self)
        ensures
            kind == TokenKind::Dummy,
    {
        TokenKind::Dummy
    }
}

impl TokenKind {
    /// Returns `true` if the token kind is `Eof`.
    #[must_use]
    pub fn is_eof(&self) -> (b: bool)
        ensures
            b == (*self == TokenKind::Eof),
    {
        matches!(self, Self::Eof)
    }
}

/// What a token is, for contracts.
pub struct TokenView {
    pub kind: TokenKind,
    pub line: usize,
    /// The byte of the source at which the token starts.
    pub start: usize,
    pub lexeme: Option<Seq<char>>,
}

#[derive(Copy, Clone, Debug, PartialEq, Eq)]
pub struct Token<'source> {
    pub kind: TokenKind,
    pub line: usize,
    pub start: usize,
    pub lexeme: Option<&'source str>,
}

impl<'source> View for Token<'source> {
    type V = TokenView;

    open spec fn view(&self) -> TokenView {
        TokenView {
            kind: self.kind,
            line: self.line,
            start: self.start,
            lexeme: match self.lexeme {
                Some(text) => Some(text@),
                None => None,
            },
        }
    }
}

impl<'source> Default for Token<'source> {
    fn default() -> (token: Self)
        ensures
            token@ == dummy_token(),
    {
        Token { kind: TokenKind::Dummy, line: 0, start: 0, lexeme: None }
    }
}

/// The placeholder token: kind `Dummy`, no lexeme.
pub open spec fn dummy_token() -> TokenView {
    TokenView { kind: TokenKind::Dummy, line: 0, start: 0, lexeme: None }
}

impl<'source> Token<'source> {
    pub fn new(kind: TokenKind, line: usize, start: usize, lexeme: Option<&'source str>) -> (token:
        Self)
        ensures
            token@ == (TokenView {
                kind,
                line,
                start,
                lexeme: match lexeme {
                    Some(text) => Some(text@),
                    None => None,
                },
            }),
    {
        Self { kind, line, start, lexeme }
    }

    pub fn dummy() -> (token: Self)
        ensures
            token@ == dummy_token(),
    {
        Self { kind: TokenKind::Dummy, line: 0, start: 0, lexeme: None }
    }

    pub fn is_eof(&self) -> (b: bool)
        ensures
            b == (self@.kind == TokenKind::Eof),
    {
        self.kind.is_eof()
    }

    pub fn kind(&self) -> (kind: &TokenKind)
        ensures
            *kind == self@.kind,
    {
        &self.kind
    }

    pub fn lexeme(&self) -> (lexeme: Option<&'source str>)
        ensures
            lexeme is Some == self@.lexeme is Some,
            lexeme is Some ==> lexeme->0@ == self@.lexeme->0,
    {
        self.lexeme
    }
}

#[derive(Debug, PartialEq, Eq)]
pub struct ScannerError {
    msg: String,
    line: usize,
}

/// What a scanner error is, for contracts.
pub struct ScannerErrorView {
    pub msg: Seq<char>,
    pub line: usize,
}

impl View for ScannerError {
    type V = ScannerErrorView;

    closed spec fn view(&self) -> ScannerErrorView {
        ScannerErrorView { msg: self.msg@, line: self.line }
    }
}

impl ScannerError {
    /// The message as the error holds it.
    pub closed spec fn spec_msg(&self) -> String {
        self.msg
    }

    /// Takes the error apart: its message and its line.
    pub fn into_parts(self) -> (parts: (String, usize))
        ensures
            parts.0 == self.spec_msg(),
            parts.0@ == self@.msg,
            parts.1 == self@.line,
    {
        (self.msg, self.line)
    }

    pub fn msg(&self) -> (msg: &str)
        ensures
            msg@ == self@.msg,
    {
        self.msg.as_str()
    }

    pub fn line(&self) -> (line: usize)
        ensures
            line == self@.line,
    {
        self.line
    }
}

/// `[A-Za-z_]`
pub open spec fn is_alpha_char(c: char) -> bool {
    ('a' <= c && c <= 'z') || ('A' <= c && c <= 'Z') || c == '_'
}

/// `[0-9]`
pub open spec fn is_digit_char(c: char) -> bool {
    '0' <= c && c <= '9'
}

/// Space, carriage return, tab or newline.
pub open spec fn is_blank_char(c: char) -> bool {
    c == ' ' || c == '\r' || c == '\t' || c == '\n'
}

/// The line after one more newline. The counter stops at the largest `usize`.
pub open spec fn next_line(line: usize) -> usize {
    if line < usize::MAX {
        (line + 1) as usize
    } else {
        line
    }
}

/// The first position at or after `pos` that holds no blank, or the end.
pub open spec fn blank_end(s: Seq<char>, pos: int) -> int
    decreases s.len() - pos,
{
    if 0 <= pos < s.len() && is_blank_char(s[pos]) {
        blank_end(s, pos + 1)
    } else {
        pos
    }
}

/// The line reached after the blanks that start at `pos`, when `pos` is on `line`.
pub open spec fn blank_line(s: Seq<char>, pos: int, line: usize) -> usize
    decreases s.len() - pos,
{
    if 0 <= pos < s.len() && is_blank_char(s[pos]) {
        blank_line(s, pos + 1, if s[pos] == '\n' { next_line(line) } else { line })
    } else {
        line
    }
}

/// The first position at or after `pos` that holds a newline, or the end.
pub open spec fn comment_end(s: Seq<char>, pos: int) -> int
    decreases s.len() - pos,
{
    if 0 <= pos < s.len() && s[pos] != '\n' {
        comment_end(s, pos + 1)
    } else {
        pos
    }
}

/// The first position at or after `pos` that holds no digit, or the end.
pub open spec fn digits_end(s: Seq<char>, pos: int) -> int
    decreases s.len() - pos,
{
    if 0 <= pos < s.len() && is_digit_char(s[pos]) {
        digits_end(s, pos + 1)
    } else {
        pos
    }
}

/// The end of the number whose digits go on at `pos`: digits, then
/// a dot and more digits if a digit follows the dot.
pub open spec fn number_end(s: Seq<char>, pos: int) -> int {
    let whole = digits_end(s, pos);
    if 0 <= whole && whole + 1 < s.len() && s[whole] == '.' && is_digit_char(s[whole + 1]) {
        digits_end(s, whole + 1)
    } else {
        whole
    }
}

/// The first position at or after `pos` that holds neither a letter,
/// an underscore nor a digit, or the end.
pub open spec fn identifier_end(s: Seq<char>, pos: int) -> int
    decreases s.len() - pos,
{
    if 0 <= pos < s.len() && (is_alpha_char(s[pos]) || is_digit_char(s[pos])) {
        identifier_end(s, pos + 1)
    } else {
        pos
    }
}

/// The first position at or after `pos` that holds a double quote, or the end.
pub open spec fn quote_position(s: Seq<char>, pos: int) -> int
    decreases s.len() - pos,
{
    if 0 <= pos < s.len() && s[pos] != '"' {
        quote_position(s, pos + 1)
    } else {
        pos
    }
}

/// The line reached at `quote_position(s, pos)`, when `pos` is on `line`.
pub open spec fn quote_line(s: Seq<char>, pos: int, line: usize) -> usize
    decreases s.len() - pos,
{
    if 0 <= pos < s.len() && s[pos] != '"' {
        quote_line(s, pos + 1, if s[pos] == '\n' { next_line(line) } else { line })
    } else {
        line
    }
}

/// The kind of an identifier-shaped lexeme: a keyword's kind, else `Identifier`.
pub open spec fn word_kind(word: Seq<char>) -> TokenKind {
    if word == "and"@ {
        TokenKind::And
    } else if word == "class"@ {
        TokenKind::Class
    } else if word == "else"@ {
        TokenKind::Else
    } else if word == "false"@ {
        TokenKind::False
    } else if word == "for"@ {
        TokenKind::For
    } else if word == "fun"@ {
        TokenKind::Fun
    } else if word == "if"@ {
        TokenKind::If
    } else if word == "nil"@ {
        TokenKind::Nil
    } else if word == "or"@ {
        TokenKind::Or
    } else if word == "print"@ {
        TokenKind::Print
    } else if word == "return"@ {
        TokenKind::Return
    } else if word == "super"@ {
        TokenKind::Super
    } else if word == "this"@ {
        TokenKind::This
    } else if word == "true"@ {
        TokenKind::True
    } else if word == "var"@ {
        TokenKind::Var
    } else if word == "while"@ {
        TokenKind::While
    } else {
        TokenKind::Identifier
    }
}

/// The kind of a token made of punctuation that starts with `c`, and how many
/// characters it takes, given whether `next` follows. `None` where `c` starts
/// no such token. A slash followed by a slash starts a comment and is not
/// covered here.
pub open spec fn punctuation(c: char, next: Option<char>) -> Option<(TokenKind, int)> {
    let followed_by_equal = next == Some('=');
    if c == '(' {
        Some((TokenKind::LeftParen, 1))
    } else if c == ')' {
        Some((TokenKind::RightParen, 1))
    } else if c == '{' {
        Some((TokenKind::LeftBrace, 1))
    } else if c == '}' {
        Some((TokenKind::RightBrace, 1))
    } else if c == ';' {
        Some((TokenKind::Semicolon, 1))
    } else if c == ',' {
        Some((TokenKind::Comma, 1))
    } else if c == '.' {
        Some((TokenKind::Dot, 1))
    } else if c == '-' {
        Some((TokenKind::Minus, 1))
    } else if c == '+' {
        Some((TokenKind::Plus, 1))
    } else if c == '/' {
        Some((TokenKind::Slash, 1))
    } else if c == '*' {
        Some((TokenKind::Star, 1))
    } else if c == '!' {
        if followed_by_equal {
            Some((TokenKind::BangEqual, 2))
        } else {
            Some((TokenKind::Bang, 1))
        }
    } else if c == '=' {
        if followed_by_equal {
            Some((TokenKind::EqualEqual, 2))
        } else {
            Some((TokenKind::Equal, 1))
        }
    } else if c == '<' {
        if followed_by_equal {
            Some((TokenKind::LessEqual, 2))
        } else {
            Some((TokenKind::Less, 1))
        }
    } else if c == '>' {
        if followed_by_equal {
            Some((TokenKind::GreaterEqual, 2))
        } else {
            Some((TokenKind::Greater, 1))
        }
    } else {
        None
    }
}

/// The character of `s` at `pos`, if there is one.
pub open spec fn char_at(s: Seq<char>, pos: int) -> Option<char> {
    if 0 <= pos < s.len() {
        Some(s[pos])
    } else {
        None
    }
}

/// What one call of `scan_token` finds.
pub struct Scan {
    /// The token, or the error.
    pub token: Result<TokenView, ScannerErrorView>,
    /// Where the token starts: the first position after the blanks.
    pub start: int,
    /// Where scanning stops.
    pub end: int,
    /// The line on which scanning stops.
    pub line: usize,
}

pub open spec fn unterminated_string() -> Seq<char> {
    "unterminated string literal"@
}

pub open spec fn unexpected_character() -> Seq<char> {
    "unexpected character."@
}

/// The byte at which the character at `position` starts: how many bytes the
/// characters before it take in UTF-8.
pub open spec fn byte_offset(s: Seq<char>, position: int) -> int {
    encode_utf8(s.take(position)).len() as int
}

/// The token of kind `kind` that spans `s[start..end]`.
pub open spec fn token_at(s: Seq<char>, kind: TokenKind, start: int, end: int, line: usize) -> Scan {
    Scan {
        token: Ok(
            TokenView {
                kind,
                line,
                start: byte_offset(s, start) as usize,
                lexeme: Some(s.subrange(start, end)),
            },
        ),
        start,
        end,
        line,
    }
}

/// What scanning finds in `s` from `pos`, which is on `line`: blanks are
/// skipped, then one token is read. At the end of the text the token is `Eof`,
/// without a lexeme.
pub open spec fn scan_spec(s: Seq<char>, pos: int, line: usize) -> Scan {
    let start = blank_end(s, pos);
    let line = blank_line(s, pos, line);
    if start >= s.len() {
        Scan {
            token: Ok(
                TokenView {
                    kind: TokenKind::Eof,
                    line,
                    start: byte_offset(s, start) as usize,
                    lexeme: None,
                },
            ),
            start,
            end: start,
            line,
        }
    } else {
        let c = s[start];
        if is_alpha_char(c) {
            let end = identifier_end(s, start + 1);
            token_at(s, word_kind(s.subrange(start, end)), start, end, line)
        } else if is_digit_char(c) {
            token_at(s, TokenKind::Number, start, number_end(s, start + 1), line)
        } else if c == '/' && char_at(s, start + 1) == Some('/') {
            token_at(s, TokenKind::Comment, start, comment_end(s, start + 2), line)
        } else if c == '"' {
            let quote = quote_position(s, start + 1);
            let line = quote_line(s, start + 1, line);
            if quote >= s.len() {
                Scan {
                    token: Err(ScannerErrorView { msg: unterminated_string(), line }),
                    start,
                    end: quote,
                    line,
                }
            } else {
                token_at(s, TokenKind::String, start, quote + 1, line)
            }
        } else {
            match punctuation(c, char_at(s, start + 1)) {
                Some((kind, width)) => token_at(s, kind, start, start + width, line),
                None => Scan {
                    token: Err(ScannerErrorView { msg: unexpected_character(), line }),
                    start,
                    end: start + 1,
                    line,
                },
            }
        }
    }
}

/// The tokens of `s` from `pos`, which is on `line`, up to the end of the
/// text, or the first error. `Eof` is left out.
pub open spec fn tokens_from(s: Seq<char>, pos: int, line: usize) -> Result<
    Seq<TokenView>,
    ScannerErrorView,
>
    decreases s.len() - pos,
{
    let scan = scan_spec(s, pos, line);
    match scan.token {
        Err(error) => Err(error),
        Ok(token) => if token.kind == TokenKind::Eof || scan.end <= pos || scan.end > s.len() {
            Ok(Seq::empty())
        } else {
            match tokens_from(s, scan.end, scan.line) {
                Ok(rest) => Ok(seq![token] + rest),
                Err(error) => Err(error),
            }
        },
    }
}

/// Where the scanner stands, and on which line, after it has read the
/// tokens of `s` from `pos` up to the end of the text or the first error:
/// behind the last token that it read, or behind what it could not read.
pub open spec fn tokens_end(s: Seq<char>, pos: int, line: usize) -> (int, usize)
    decreases s.len() - pos,
{
    let scan = scan_spec(s, pos, line);
    match scan.token {
        Err(_) => (scan.end, scan.line),
        Ok(token) => if token.kind == TokenKind::Eof || scan.end <= pos || scan.end > s.len() {
            (scan.end, scan.line)
        } else {
            tokens_end(s, scan.end, scan.line)
        },
    }
}

/// `first` followed by what `rest` holds, or the error of `rest`.
pub open spec fn tokens_after(first: Seq<TokenView>, rest: Result<Seq<TokenView>, ScannerErrorView>) -> Result<
    Seq<TokenView>,
    ScannerErrorView,
> {
    match rest {
        Ok(rest) => Ok(first + rest),
        Err(error) => Err(error),
    }
}

/// The views of `tokens`, in order.
pub open spec fn token_views(tokens: Seq<Token>) -> Seq<TokenView> {
    Seq::new(tokens.len(), |i: int| tokens[i]@)
}

/// The texts of the number tokens of `s` from `pos`, which is on `line`, in
/// order, up to the end of the text or the first error.
pub open spec fn number_texts_from(s: Seq<char>, pos: int, line: usize) -> Seq<Seq<char>>
    decreases s.len() - pos,
{
    let scan = scan_spec(s, pos, line);
    match scan.token {
        Err(_) => Seq::empty(),
        Ok(token) => if token.kind == TokenKind::Eof || scan.end <= pos || scan.end > s.len() {
            Seq::empty()
        } else if token.kind == TokenKind::Number {
            seq![token.lexeme->0] + number_texts_from(s, scan.end, scan.line)
        } else {
            number_texts_from(s, scan.end, scan.line)
        },
    }
}

/// The texts of `literals`, in order.
pub open spec fn texts_of(literals: Seq<&str>) -> Seq<Seq<char>> {
    Seq::new(literals.len(), |i: int| literals[i]@)
}

/// The state of a scanner, for contracts.
pub struct ScannerView {
    pub source: Seq<char>,
    pub current: int,
    pub start: int,
    pub line: usize,
}

#[derive(Debug)]
pub struct Scanner<'source> {
    source: &'source str,
    chars: Vec<char>,
    current: usize,
    start: usize,
    line: usize,
    /// How many bytes the source has.
    bytes: usize,
    /// The byte at which the character at `current` starts.
    current_byte: usize,
    /// The byte at which the character at `start` starts.
    start_byte: usize,
}

impl<'source> View for Scanner<'source> {
    type V = ScannerView;

    closed spec fn view(&self) -> ScannerView {
        ScannerView {
            source: self.chars@,
            current: self.current as int,
            start: self.start as int,
            line: self.line,
        }
    }
}

impl<'source> Scanner<'source> {
    /// The scanner's invariant: the two positions lie in the text, in order.
    pub closed spec fn wf(&self) -> bool {
        &&& self.chars@ == self.source@
        &&& self.start <= self.current <= self.chars.len()
        &&& self.bytes == encode_utf8(self.chars@).len()
        &&& self.current_byte == byte_offset(self.chars@, self.current as int)
        &&& self.start_byte == byte_offset(self.chars@, self.start as int)
    }

    pub proof fn lemma_wf(&self)
        requires
            self.wf(),
        ensures
            0 <= self@.start <= self@.current <= self@.source.len() <= usize::MAX,
    {
    }

    pub fn new(source: &'source str) -> (scanner: Self)
        ensures
            scanner.wf(),
            scanner@ == (ScannerView { source: source@, current: 0, start: 0, line: 1 }),
    {
        let mut chars: Vec<char> = Vec::new();
        for c in it: source.chars()
            invariant
                chars@ == it.seq().take(it.index() as int),
                it.seq() == source@,
        {
            chars.push(c);
        }
        assert(chars@ == source@);
        let bytes = source.as_bytes().len();
        assert(encode_utf8(chars@.take(0)).len() == 0) by {
            assert(chars@.take(0) =~= Seq::<char>::empty());
        }
        Self { source, chars, current: 0, start: 0, line: 1, bytes, current_byte: 0, start_byte: 0 }
    }

    pub fn line(&self) -> (line: usize)
        ensures
            line == self@.line,
    {
        self.line
    }

    pub fn is_at_end(&self) -> (b: bool)
        requires
            self.wf(),
        ensures
            b == (self@.current >= self@.source.len()),
    {
        self.current >= self.chars.len()
    }

    pub fn advance(&mut self) -> (c: Option<char>)
        requires
            old(self).wf(),
        ensures
            final(self).wf(),
            final(self)@.current >= old(self)@.current,
            c == char_at(old(self)@.source, old(self)@.current),
            final(self)@ == (ScannerView {
                current: if c is Some {
                    old(self)@.current + 1
                } else {
                    old(self)@.current
                },
                ..old(self)@
            }),
    {
        self.next()
    }

    pub fn peek(&self) -> (c: Option<char>)
        requires
            self.wf(),
        ensures
            c == char_at(self@.source, self@.current),
    {
        if self.current < self.chars.len() {
            Some(self.chars[self.current])
        } else {
            None
        }
    }

    pub fn peek_next(&self) -> (c: Option<char>)
        requires
            self.wf(),
        ensures
            c == char_at(self@.source, self@.current + 1),
    {
        if self.current < self.chars.len() && self.current + 1 < self.chars.len() {
            Some(self.chars[self.current + 1])
        } else {
            None
        }
    }

    /// Takes the next character if it is `c`.
    pub fn matches(&mut self, c: char) -> (b: bool)
        requires
            old(self).wf(),
        ensures
            final(self).wf(),
            final(self)@.current >= old(self)@.current,
            b == (char_at(old(self)@.source, old(self)@.current) == Some(c)),
            final(self)@ == (ScannerView {
                current: if b {
                    old(self)@.current + 1
                } else {
                    old(self)@.current
                },
                ..old(self)@
            }),
    {
        if self.is_at_end() {
            return false;
        }
        if let Some(ch) = self.peek() {
            if ch == c {
                let _ = self.advance();
                return true;
            }
        }
        false
    }

    fn bump_line(&mut self)
        ensures
            final(self).wf() == old(self).wf(),
            final(self)@ == (ScannerView { line: next_line(old(self)@.line), ..old(self)@ }),
    {
        if self.line < usize::MAX {
            self.line += 1;
        }
    }

    /// Skips blanks and counts the newlines among them.
    pub fn skip_whitespace(&mut self)
        requires
            old(self).wf(),
        ensures
            final(self).wf(),
            final(self)@.current >= old(self)@.current,
            final(self)@ == (ScannerView {
                current: blank_end(old(self)@.source, old(self)@.current),
                line: blank_line(old(self)@.source, old(self)@.current, old(self)@.line),
                ..old(self)@
            }),
    {
        loop
            invariant
                self.wf(),
                self@.source == old(self)@.source,
                self@.start == old(self)@.start,
                self@.current >= old(self)@.current,
                blank_end(self.chars@, self.current as int) == blank_end(
                    old(self).chars@,
                    old(self).current as int,
                ),
                blank_line(self.chars@, self.current as int, self.line) == blank_line(
                    old(self).chars@,
                    old(self).current as int,
                    old(self).line,
                ),
            decreases self.chars.len() - self.current,
        {
            let c = match self.peek() {
                Some(c) => c,
                None => return ,
            };
            match c {
                ' ' | '\r' | '\t' => {
                    self.advance();
                },
                '\n' => {
                    self.bump_line();
                    self.advance();
                },
                _ => return ,
            }
        }
    }

    /// Reads a comment to the end of its line; the newline stays.
    pub fn comment(&mut self) -> (token: Token<'source>)
        requires
            old(self).wf(),
        ensures
            final(self).wf(),
            final(self)@.current >= old(self)@.current,
            final(self)@ == (ScannerView {
                current: comment_end(old(self)@.source, old(self)@.current),
                ..old(self)@
            }),
            token@ == token_at(
                old(self)@.source,
                TokenKind::Comment,
                old(self)@.start,
                final(self)@.current,
                old(self)@.line,
            ).token->Ok_0,
    {
        while self.current < self.chars.len() && self.chars[self.current] != '\n'
            invariant
                self.wf(),
                self@.source == old(self)@.source,
                self@.start == old(self)@.start,
                self@.line == old(self)@.line,
                self@.current >= old(self)@.current,
                comment_end(self.chars@, self.current as int) == comment_end(
                    old(self).chars@,
                    old(self).current as int,
                ),
            decreases self.chars.len() - self.current,
        {
            self.advance();
        }
        self.make_token(TokenKind::Comment)
    }

    /// Skips blanks, then reads one token.
    pub fn scan_token(&mut self) -> (result: Result<Token<'source>, ScannerError>)
        requires
            old(self).wf(),
        ensures
            final(self).wf(),
            final(self)@.source == old(self)@.source,
            old(self)@.current <= final(self)@.start <= final(self)@.current,
            result is Ok && result->Ok_0@.kind != TokenKind::Eof
                ==> final(self)@.start < final(self)@.current,
            result is Err ==> final(self)@.start < final(self)@.current,
            result is Ok ==> result->Ok_0@.line == final(self)@.line,
            result is Ok && result->Ok_0@.kind == TokenKind::Eof
                ==> final(self)@.current == final(self)@.source.len(),
            ({
                let scan = scan_spec(old(self)@.source, old(self)@.current, old(self)@.line);
                &&& final(self)@.start == scan.start
                &&& final(self)@.current == scan.end
                &&& final(self)@.line == scan.line
                &&& match result {
                    Ok(token) => scan.token == Ok::<TokenView, ScannerErrorView>(token@),
                    Err(error) => scan.token == Err::<TokenView, ScannerErrorView>(error@),
                }
            }),
    {
        self.skip_whitespace();

        self.start = self.current;
        self.start_byte = self.current_byte;

        if self.is_at_end() {
            return Ok(Token::new(TokenKind::Eof, self.line, self.start_byte, None));
        }
        let c = match self.advance() {
            Some(c) => c,
            None => return Ok(Token::new(TokenKind::Eof, self.line, self.start_byte, None)),
        };

        if self.is_alpha(c) {
            return Ok(self.identifier());
        }
        if is_ascii_digit(c) {
            return Ok(self.number());
        }
        let result = match c {
            '(' => self.make_token(TokenKind::LeftParen),
            ')' => self.make_token(TokenKind::RightParen),
            '{' => self.make_token(TokenKind::LeftBrace),
            '}' => self.make_token(TokenKind::RightBrace),
            ';' => self.make_token(TokenKind::Semicolon),
            ',' => self.make_token(TokenKind::Comma),
            '.' => self.make_token(TokenKind::Dot),
            '-' => self.make_token(TokenKind::Minus),
            '+' => self.make_token(TokenKind::Plus),
            '/' => {
                if self.matches('/') {
                    self.comment()
                } else {
                    self.make_token(TokenKind::Slash)
                }
            },
            '*' => self.make_token(TokenKind::Star),
            '!' => {
                if self.matches('=') {
                    self.make_token(TokenKind::BangEqual)
                } else {
                    self.make_token(TokenKind::Bang)
                }
            },
            '=' => {
                if self.matches('=') {
                    self.make_token(TokenKind::EqualEqual)
                } else {
                    self.make_token(TokenKind::Equal)
                }
            },
            '<' => {
                if self.matches('=') {
                    self.make_token(TokenKind::LessEqual)
                } else {
                    self.make_token(TokenKind::Less)
                }
            },
            '>' => {
                if self.matches('=') {
                    self.make_token(TokenKind::GreaterEqual)
                } else {
                    self.make_token(TokenKind::Greater)
                }
            },
            '"' => {
                match self.string() {
                    Ok(token) => token,
                    Err(error) => return Err(error),
                }
            },
            _ => {
                return Err(
                    ScannerError { msg: "unexpected character.".to_owned(), line: self.line },
                );
            },
        };

        Ok(result)
    }

    /// Reads every token up to the end of the text, `Eof` left out, or stops
    /// at the first error, behind what it could not read.
    pub fn tokens(&mut self) -> (result: Result<Vec<Token<'source>>, ScannerError>)
        requires
            old(self).wf(),
        ensures
            final(self).wf(),
            final(self)@.source == old(self)@.source,
            result is Ok ==> final(self)@.current == final(self)@.source.len(),
            (final(self)@.current, final(self)@.line) == tokens_end(
                old(self)@.source,
                old(self)@.current,
                old(self)@.line,
            ),
            match result {
                Ok(tokens) => tokens_from(old(self)@.source, old(self)@.current, old(self)@.line)
                    == Ok::<Seq<TokenView>, ScannerErrorView>(token_views(tokens@)),
                Err(error) => tokens_from(old(self)@.source, old(self)@.current, old(self)@.line)
                    == Err::<Seq<TokenView>, ScannerErrorView>(error@),
            },
    {
        let mut tokens: Vec<Token<'source>> = Vec::new();
        loop
            invariant
                self.wf(),
                self@.source == old(self)@.source,
                tokens_end(self@.source, self@.current, self@.line) == tokens_end(
                    old(self)@.source,
                    old(self)@.current,
                    old(self)@.line,
                ),
                tokens_from(old(self)@.source, old(self)@.current, old(self)@.line) == tokens_after(
                    token_views(tokens@),
                    tokens_from(self@.source, self@.current, self@.line),
                ),
            decreases self@.source.len() - self@.current,
        {
            let ghost before = token_views(tokens@);
            let ghost rest = tokens_from(self@.source, self@.current, self@.line);
            match self.scan_token() {
                Err(error) => {
                    return Err(error);
                },
                Ok(token) => {
                    if token.is_eof() {
                        proof {
                            assert(before + Seq::<TokenView>::empty() =~= before);
                        }
                        return Ok(tokens);
                    }
                    tokens.push(token);
                    proof {
                        let after = tokens_from(self@.source, self@.current, self@.line);
                        assert(token_views(tokens@) =~= before + seq![token@]);
                        assert(rest == tokens_after(seq![token@], after));
                        if after is Ok {
                            assert(before + (seq![token@] + after->Ok_0) =~= (before + seq![
                                token@,
                            ]) + after->Ok_0);
                        }
                    }
                },
            }
        }
    }

    /// The token of kind `kind` that spans the text from `start` to `current`.
    pub fn make_token(&self, kind: TokenKind) -> (token: Token<'source>)
        requires
            self.wf(),
        ensures
            token@ == token_at(
                self@.source,
                kind,
                self@.start,
                self@.current,
                self@.line,
            ).token->Ok_0,
    {
        let ghost text = self.chars@;
        let ghost taken = text.take(self.current as int);
        let ghost before = text.take(self.start as int);
        let ghost word = text.subrange(self.start as int, self.current as int);
        proof {
            assert(text =~= taken + text.skip(self.current as int));
            lemma_boundary_concat(taken, text.skip(self.current as int));
            lemma_encode_concat(taken, text.skip(self.current as int));
        }
        let (head, _) = self.source.split_at(self.current_byte);
        proof {
            assert(head.spec_bytes() =~= encode_utf8(taken));
            lemma_encode_injective(head@, taken);
            assert(taken =~= before + word);
            lemma_boundary_concat(before, word);
            lemma_encode_concat(before, word);
            assert(before =~= text.take(self.start as int));
        }
        let (_, lexeme) = head.split_at(self.start_byte);
        proof {
            assert(lexeme.spec_bytes() =~= encode_utf8(word));
            lemma_encode_injective(lexeme@, word);
        }

        Token::new(kind, self.line, self.start_byte, Some(lexeme))
    }

    /// Reads a string literal whose opening quote has been taken.
    fn string(&mut self) -> (result: Result<Token<'source>, ScannerError>)
        requires
            old(self).wf(),
        ensures
            final(self).wf(),
            final(self)@.current >= old(self)@.current,
            final(self)@.source == old(self)@.source,
            final(self)@.start == old(self)@.start,
            final(self)@.line == quote_line(
                old(self)@.source,
                old(self)@.current,
                old(self)@.line,
            ),
            ({
                let quote = quote_position(old(self)@.source, old(self)@.current);
                if quote >= old(self)@.source.len() {
                    &&& final(self)@.current == quote
                    &&& result is Err
                    &&& result->Err_0@ == (ScannerErrorView {
                        msg: unterminated_string(),
                        line: final(self)@.line,
                    })
                } else {
                    &&& final(self)@.current == quote + 1
                    &&& result is Ok
                    &&& result->Ok_0@ == token_at(
                        old(self)@.source,
                        TokenKind::String,
                        old(self)@.start,
                        quote + 1,
                        final(self)@.line,
                    ).token->Ok_0
                }
            }),
    {
        while self.current < self.chars.len() && self.chars[self.current] != '"'
            invariant
                self.wf(),
                self@.source == old(self)@.source,
                self@.start == old(self)@.start,
                self@.current >= old(self)@.current,
                quote_position(self.chars@, self.current as int) == quote_position(
                    old(self).chars@,
                    old(self).current as int,
                ),
                quote_line(self.chars@, self.current as int, self.line) == quote_line(
                    old(self).chars@,
                    old(self).current as int,
                    old(self).line,
                ),
            decreases self.chars.len() - self.current,
        {
            if self.chars[self.current] == '\n' {
                self.bump_line();
            }
            self.advance();
        }

        if self.advance().is_none() {
            return Err(
                ScannerError { msg: "unterminated string literal".to_owned(), line: self.line },
            );
        }
        Ok(self.make_token(TokenKind::String))
    }

    fn skip_digits(&mut self)
        requires
            old(self).wf(),
        ensures
            final(self).wf(),
            final(self)@.current >= old(self)@.current,
            final(self)@ == (ScannerView {
                current: digits_end(old(self)@.source, old(self)@.current),
                ..old(self)@
            }),
    {
        while self.current < self.chars.len() && is_ascii_digit(self.chars[self.current])
            invariant
                self.wf(),
                self@.source == old(self)@.source,
                self@.start == old(self)@.start,
                self@.line == old(self)@.line,
                self@.current >= old(self)@.current,
                digits_end(self.chars@, self.current as int) == digits_end(
                    old(self).chars@,
                    old(self).current as int,
                ),
            decreases self.chars.len() - self.current,
        {
            self.advance();
        }
    }

    /// Reads a number whose first digit has been taken.
    fn number(&mut self) -> (token: Token<'source>)
        requires
            old(self).wf(),
        ensures
            final(self).wf(),
            final(self)@.current >= old(self)@.current,
            final(self)@ == (ScannerView {
                current: number_end(old(self)@.source, old(self)@.current),
                ..old(self)@
            }),
            token@ == token_at(
                old(self)@.source,
                TokenKind::Number,
                old(self)@.start,
                final(self)@.current,
                old(self)@.line,
            ).token->Ok_0,
    {
        self.skip_digits();

        if let Some(c) = self.peek() {
            if let Some(after_dot) = self.peek_next() {
                if c == '.' && is_ascii_digit(after_dot) {
                    self.advance();
                    self.skip_digits();
                }
            }
        }
        self.make_token(TokenKind::Number)
    }

    /// Reads an identifier or keyword whose first character has been taken.
    fn identifier(&mut self) -> (token: Token<'source>)
        requires
            old(self).wf(),
            old(self).start < old(self).current,
        ensures
            final(self).wf(),
            final(self)@.current >= old(self)@.current,
            final(self)@ == (ScannerView {
                current: identifier_end(old(self)@.source, old(self)@.current),
                ..old(self)@
            }),
            token@ == token_at(
                old(self)@.source,
                word_kind(old(self)@.source.subrange(old(self)@.start, final(self)@.current)),
                old(self)@.start,
                final(self)@.current,
                old(self)@.line,
            ).token->Ok_0,
    {
        while self.current < self.chars.len() && (self.is_alpha(self.chars[self.current])
            || is_ascii_digit(self.chars[self.current]))
            invariant
                self.wf(),
                self@.source == old(self)@.source,
                self@.start == old(self)@.start,
                self@.line == old(self)@.line,
                self@.current >= old(self)@.current,
                identifier_end(self.chars@, self.current as int) == identifier_end(
                    old(self).chars@,
                    old(self).current as int,
                ),
            decreases self.chars.len() - self.current,
        {
            self.advance();
        }
        let kind = self.identifier_kind();
        self.make_token(kind)
    }

    /// The kind of the word from `start` to `current`: found by its first
    /// character, then by comparing the rest.
    fn identifier_kind(&self) -> (kind: TokenKind)
        requires
            self.wf(),
            self.start < self.current,
        ensures
            kind == word_kind(self@.source.subrange(self@.start, self@.current)),
    {
        let ghost s = self.chars@;
        let ghost from = self.start as int;
        let ghost to = self.current as int;
        let ghost word = s.subrange(from, to);
        proof {
            reveal_strlit("and");
            reveal_strlit("class");
            reveal_strlit("else");
            reveal_strlit("false");
            reveal_strlit("for");
            reveal_strlit("fun");
            reveal_strlit("if");
            reveal_strlit("nil");
            reveal_strlit("or");
            reveal_strlit("print");
            reveal_strlit("return");
            reveal_strlit("super");
            reveal_strlit("this");
            reveal_strlit("true");
            reveal_strlit("var");
            reveal_strlit("while");
            reveal_strlit("nd");
            reveal_strlit("lass");
            reveal_strlit("lse");
            reveal_strlit("r");
            reveal_strlit("n");
            reveal_strlit("f");
            reveal_strlit("il");
            reveal_strlit("rint");
            reveal_strlit("eturn");
            reveal_strlit("uper");
            reveal_strlit("is");
            reveal_strlit("ue");
            reveal_strlit("ar");
            reveal_strlit("hile");
            assert(word.len() == to - from);
            assert(word[0] == s[from]);
            if word.len() > 1 {
                assert(word[1] == s[from + 1]);
            }
        }
        let first = self.chars[self.start];
        let kind = match first {
            'a' => {
                proof {
                    lemma_keyword(s, from, to, 1, "nd"@, "and"@);
                }
                self.check_keyword(1, 2, "nd", TokenKind::And)
            },
            'c' => {
                proof {
                    lemma_keyword(s, from, to, 1, "lass"@, "class"@);
                }
                self.check_keyword(1, 4, "lass", TokenKind::Class)
            },
            'e' => {
                proof {
                    lemma_keyword(s, from, to, 1, "lse"@, "else"@);
                }
                self.check_keyword(1, 3, "lse", TokenKind::Else)
            },
            'f' => {
                if self.current - self.start > 1 {
                    match self.chars[self.start + 1] {
                        'a' => {
                            proof {
                                lemma_keyword(s, from, to, 2, "lse"@, "false"@);
                            }
                            self.check_keyword(2, 3, "lse", TokenKind::False)
                        },
                        'o' => {
                            proof {
                                lemma_keyword(s, from, to, 2, "r"@, "for"@);
                            }
                            self.check_keyword(2, 1, "r", TokenKind::For)
                        },
                        'u' => {
                            proof {
                                lemma_keyword(s, from, to, 2, "n"@, "fun"@);
                            }
                            self.check_keyword(2, 1, "n", TokenKind::Fun)
                        },
                        _ => TokenKind::Identifier,
                    }
                } else {
                    TokenKind::Identifier
                }
            },
            'i' => {
                proof {
                    lemma_keyword(s, from, to, 1, "f"@, "if"@);
                }
                self.check_keyword(1, 1, "f", TokenKind::If)
            },
            'n' => {
                proof {
                    lemma_keyword(s, from, to, 1, "il"@, "nil"@);
                }
                self.check_keyword(1, 2, "il", TokenKind::Nil)
            },
            'o' => {
                proof {
                    lemma_keyword(s, from, to, 1, "r"@, "or"@);
                }
                self.check_keyword(1, 1, "r", TokenKind::Or)
            },
            'p' => {
                proof {
                    lemma_keyword(s, from, to, 1, "rint"@, "print"@);
                }
                self.check_keyword(1, 4, "rint", TokenKind::Print)
            },
            'r' => {
                proof {
                    lemma_keyword(s, from, to, 1, "eturn"@, "return"@);
                }
                self.check_keyword(1, 5, "eturn", TokenKind::Return)
            },
            's' => {
                proof {
                    lemma_keyword(s, from, to, 1, "uper"@, "super"@);
                }
                self.check_keyword(1, 4, "uper", TokenKind::Super)
            },
            't' => {
                if self.current - self.start > 1 {
                    match self.chars[self.start + 1] {
                        'h' => {
                            proof {
                                lemma_keyword(s, from, to, 2, "is"@, "this"@);
                            }
                            self.check_keyword(2, 2, "is", TokenKind::This)
                        },
                        'r' => {
                            proof {
                                lemma_keyword(s, from, to, 2, "ue"@, "true"@);
                            }
                            self.check_keyword(2, 2, "ue", TokenKind::True)
                        },
                        _ => TokenKind::Identifier,
                    }
                } else {
                    TokenKind::Identifier
                }
            },
            'v' => {
                proof {
                    lemma_keyword(s, from, to, 1, "ar"@, "var"@);
                }
                self.check_keyword(1, 2, "ar", TokenKind::Var)
            },
            'w' => {
                proof {
                    lemma_keyword(s, from, to, 1, "hile"@, "while"@);
                }
                self.check_keyword(1, 4, "hile", TokenKind::While)
            },
            _ => TokenKind::Identifier,
        };
        kind
    }

    fn is_alpha(&self, c: char) -> (b: bool)
        ensures
            b == is_alpha_char(c),
    {
        ('a' <= c && c <= 'z') || ('A' <= c && c <= 'Z') || c == '_'
    }

    /// `token_kind` where the word is `start + len` long and goes on with
    /// `rest` after its first `start` characters, else `Identifier`.
    fn check_keyword(&self, start: usize, len: usize, rest: &str, token_kind: TokenKind) -> (kind:
        TokenKind)
        requires
            self.wf(),
            rest@.len() == len,
            start <= 2,
            len <= 8,
        ensures
            kind == if self@.current - self@.start == start + len && self@.source.subrange(
                self@.start + start,
                self@.current,
            ) == rest@ {
                token_kind
            } else {
                TokenKind::Identifier
            },
    {
        if self.current - self.start != start + len {
            return TokenKind::Identifier;
        }
        let ghost tail = self.chars@.subrange(self.start + start, self.current as int);
        let mut i: usize = 0;
        while i < len
            invariant
                self.wf(),
                i <= len,
                rest@.len() == len,
                start <= 2,
                len <= 8,
                self.current - self.start == start + len,
                tail == self.chars@.subrange(self.start + start, self.current as int),
                forall|j: int| 0 <= j < i ==> tail[j] == rest@[j],
            decreases len - i,
        {
            if self.chars[self.start + start + i] != rest.get_char(i) {
                assert(tail[i as int] != rest@[i as int]);
                return TokenKind::Identifier;
            }
            i += 1;
        }
        assert(tail =~= rest@);
        token_kind
    }

    /// Takes the next character, if there is one.
    pub fn next(&mut self) -> (c: Option<char>)
        requires
            old(self).wf(),
        ensures
            final(self).wf(),
            final(self)@.current >= old(self)@.current,
            c == char_at(old(self)@.source, old(self)@.current),
            final(self)@ == (ScannerView {
                current: if c is Some {
                    old(self)@.current + 1
                } else {
                    old(self)@.current
                },
                ..old(self)@
            }),
    {
        if self.current < self.chars.len() {
            let ch = self.chars[self.current];
            proof {
                lemma_offset_step(self.chars@, self.current as int);
            }
            self.current_byte += utf8_width(ch);
            self.current += 1;
            Some(ch)
        } else {
            None
        }
    }
}

/// How many bytes `c` takes in UTF-8.
fn utf8_width(c: char) -> (width: usize)
    ensures
        width == encode_scalar(c as u32).len(),
{
    proof {
        char_is_scalar(c);
    }
    let scalar = c as u32;
    if scalar <= 0x7f {
        1
    } else if scalar <= 0x7ff {
        2
    } else if scalar <= 0xffff {
        3
    } else {
        4
    }
}

/// The bytes of two texts, one behind the other, are the bytes of the one
/// behind the bytes of the other.
proof fn lemma_encode_concat(a: Seq<char>, b: Seq<char>)
    ensures
        encode_utf8(a + b) == encode_utf8(a) + encode_utf8(b),
    decreases a.len(),
{
    if a.len() == 0 {
        assert(a + b =~= b);
        assert(encode_utf8(a) + encode_utf8(b) =~= encode_utf8(b));
    } else {
        lemma_encode_concat(a.drop_first(), b);
        assert((a + b).drop_first() =~= a.drop_first() + b);
        assert(encode_utf8(a + b) =~= encode_utf8(a) + encode_utf8(b));
    }
}

/// In the bytes of two texts, one behind the other, a character starts
/// where the second text starts.
proof fn lemma_boundary_concat(a: Seq<char>, b: Seq<char>)
    ensures
        is_char_boundary(encode_utf8(a + b), encode_utf8(a).len() as int),
    decreases a.len(),
{
    let bytes = encode_utf8(a + b);
    encode_utf8_valid_utf8(a + b);
    if a.len() == 0 {
    } else {
        lemma_encode_concat(a, b);
        encode_utf8_first_scalar(a + b);
        assert((a + b).drop_first() =~= a.drop_first() + b);
        assert(pop_first_scalar(bytes) =~= encode_utf8((a + b).drop_first()));
        lemma_boundary_concat(a.drop_first(), b);
        encode_utf8_valid_utf8(a.drop_first() + b);
        assert(encode_utf8(a).len() == encode_scalar(a[0] as u32).len() + encode_utf8(
            a.drop_first(),
        ).len());
        assert(encode_scalar(a[0] as u32).len() > 0);
    }
}

/// Texts with the same bytes are the same text.
proof fn lemma_encode_injective(a: Seq<char>, b: Seq<char>)
    requires
        encode_utf8(a) == encode_utf8(b),
    ensures
        a == b,
{
    encode_utf8_decode_utf8(a);
    encode_utf8_decode_utf8(b);
}

/// A character starts as many bytes after the one before it as that one
/// takes, and no character starts behind the end of the text.
proof fn lemma_offset_step(s: Seq<char>, position: int)
    requires
        0 <= position < s.len(),
    ensures
        byte_offset(s, position + 1) == byte_offset(s, position) + encode_scalar(
            s[position] as u32,
        ).len(),
        byte_offset(s, position + 1) <= encode_utf8(s).len(),
{
    let before = s.take(position);
    let one = seq![s[position]];
    assert(s.take(position + 1) =~= before + one);
    lemma_encode_concat(before, one);
    assert(one.drop_first() =~= Seq::<char>::empty());
    assert(encode_utf8(one.drop_first()) =~= Seq::<u8>::empty());
    assert(encode_utf8(one) == encode_scalar(one[0] as u32) + encode_utf8(one.drop_first()));
    assert(encode_utf8(one) =~= encode_scalar(s[position] as u32));
    assert(s =~= s.take(position + 1) + s.skip(position + 1));
    lemma_encode_concat(s.take(position + 1), s.skip(position + 1));
}

/// A word is the keyword `full` exactly when it has that length and goes on
/// with `rest` after the first `start` characters, which are known to agree.
proof fn lemma_keyword(s: Seq<char>, from: int, to: int, start: int, rest: Seq<char>, full: Seq<char>)
    requires
        0 <= from,
        0 <= start,
        from + start <= to <= s.len(),
        full.len() == start + rest.len(),
        full.subrange(start, full.len() as int) =~= rest,
        forall|j: int| 0 <= j < start ==> s[from + j] == full[j],
    ensures
        (to - from == start + rest.len() && s.subrange(from + start, to) == rest) <==> s.subrange(
            from,
            to,
        ) == full,
{
    let word = s.subrange(from, to);
    let tail = s.subrange(from + start, to);
    if to - from == start + rest.len() && tail == rest {
        assert forall|j: int| 0 <= j < word.len() implies word[j] == full[j] by {
            if j >= start {
                assert(word[j] == tail[j - start]);
                assert(full[j] == full.subrange(start, full.len() as int)[j - start]);
            }
        }
        assert(word =~= full);
    }
    if word == full {
        assert(tail =~= word.subrange(start, word.len() as int));
    }
}

fn is_ascii_digit(c: char) -> (b: bool)
    ensures
        b == is_digit_char(c),
{
    '0' <= c && c <= '9'
}

/// The texts of the number literals of `source`, in order, up to the end of
/// the source or the first error of the scanner. The compiler wants the value
/// of each.
pub fn number_literals<'a>(source: &'a str) -> (literals: Vec<&'a str>)
    ensures
        texts_of(literals@) == number_texts_from(source@, 0, 1),
{
    let mut scanner = Scanner::new(source);
    let mut literals: Vec<&'a str> = Vec::new();
    loop
        invariant
            scanner.wf(),
            scanner@.source == source@,
            number_texts_from(source@, 0, 1) == texts_of(literals@) + number_texts_from(
                scanner@.source,
                scanner@.current,
                scanner@.line,
            ),
        decreases scanner@.source.len() - scanner@.current,
    {
        let ghost before = texts_of(literals@);
        let ghost rest = number_texts_from(scanner@.source, scanner@.current, scanner@.line);
        match scanner.scan_token() {
            Err(_) => {
                assert(before + Seq::<Seq<char>>::empty() =~= before);
                return literals;
            },
            Ok(token) => {
                if token.is_eof() {
                    assert(before + Seq::<Seq<char>>::empty() =~= before);
                    return literals;
                }
                if matches!(token.kind, TokenKind::Number) {
                    match token.lexeme() {
                        Some(text) => {
                            literals.push(text);
                            proof {
                                let after = number_texts_from(
                                    scanner@.source,
                                    scanner@.current,
                                    scanner@.line,
                                );
                                assert(texts_of(literals@) =~= before + seq![text@]);
                                assert(rest == seq![text@] + after);
                                assert(before + (seq![text@] + after) =~= (before + seq![text@])
                                    + after);
                            }
                        },
                        None => {
                            assert(false);
                        },
                    }
                }
            },
        }
    }
}

} // verus!
