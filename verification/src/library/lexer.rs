//! The lexer: a character cursor over the source that hands out one
//! token at a time.
//!
//! Whitespace and comments are skipped silently.  Identifiers are
//! checked against the keyword table; a lone `_` is its own token.
//! Numbers are exact decimals, strings know the escape sequences
//! `\n \t \r \\ \" \'`, and `$"…"` opens an interpolated string whose
//! escapes are kept in escaped form.  The contract of [`Lexer::next`]
//! pins every token down through the spec relation [`lexes_at`].

use crate::library::number::{
    digits_of, dv, frac_len, is_digit_char, numeric_lexeme, pow10, representable_lexeme, Rational,
};
use crate::library::fmt::push_char;
use vstd::prelude::*;
use vstd::string::{StrSliceExecFns, StringExecFns};

verus! {

/// The kind of a lexical token.
#[derive(Debug, Clone, Copy, PartialEq, Eq, Hash, Structural)]
pub enum TokenKind {
    Identifier,
    Number,
    String,
    InterpolatedString,
    Let,
    Func,
    If,
    Else,
    True,
    False,
    Match,
    Fn,
    Async,
    Await,
    Import,
    Enum,
    Power,
    Equal,
    EqualEqual,
    BangEqual,
    GreaterEqual,
    LessEqual,
    Greater,
    Less,
    Plus,
    Minus,
    Star,
    Slash,
    Comma,
    Semicolon,
    Colon,
    DoubleColon,
    Bang,
    LBrace,
    RBrace,
    LBracket,
    RBracket,
    LParen,
    RParen,
    Dot,
    And,
    Or,
    Arrow,
    Question,
    Reflect,
    Pipe,
    Pipeline,
    LArrow,
    Dollar,
    Underscore,
    Eof,
    Error,
}

/// The payload of a token, present only for the kinds that carry one.
#[derive(Debug, Clone, PartialEq)]
pub enum TokenValue {
    Empty,
    Identifier(String),
    Number(Rational),
    String(String),
    Error(String),
}

/// A lexical token: its kind, its payload, and the 1-based source line
/// on which it ends.
#[derive(Debug, Clone, PartialEq)]
pub struct Token {
    pub kind: TokenKind,
    pub value: TokenValue,
    pub line: usize,
}

/// The payload has the shape the kind demands.
pub open spec fn token_wf(t: Token) -> bool {
    match t.kind {
        TokenKind::Identifier => t.value is Identifier,
        TokenKind::Number => t.value matches TokenValue::Number(q) && q.wf(),
        TokenKind::String => t.value is String,
        TokenKind::InterpolatedString => t.value is String,
        TokenKind::Error => t.value is Error,
        _ => t.value is Empty,
    }
}

impl Token {
    /// The synthesized end-of-stream sentinel, at line zero.
    pub fn eof() -> (t: Token)
        ensures
            t.kind == TokenKind::Eof,
            t.value is Empty,
            t.line == 0,
    {
        Token { kind: TokenKind::Eof, value: TokenValue::Empty, line: 0 }
    }
}

/// Whitespace: every character with the Unicode White_Space property,
/// from the ASCII blanks and control characters to the typographic
/// spaces, separators and the ideographic space.
pub open spec fn is_ws_char(c: char) -> bool {
    ||| c == ' '
    ||| c == '\t'
    ||| c == '\r'
    ||| c == '\n'
    ||| c as u32 == 11
    ||| c as u32 == 12
    ||| c as u32 == 0x85
    ||| c as u32 == 0xa0
    ||| c as u32 == 0x1680
    ||| (0x2000 <= c as u32 && c as u32 <= 0x200a)
    ||| c as u32 == 0x2028
    ||| c as u32 == 0x2029
    ||| c as u32 == 0x202f
    ||| c as u32 == 0x205f
    ||| c as u32 == 0x3000
}

/// An ASCII letter.
pub open spec fn is_alpha_char(c: char) -> bool {
    (97 <= c as u32 && c as u32 <= 122) || (65 <= c as u32 && c as u32 <= 90)
}

/// A character that may continue an identifier.
pub open spec fn is_ident_char(c: char) -> bool {
    is_alpha_char(c) || is_digit_char(c) || c == '_'
}

/// A character that may open an identifier.
pub open spec fn is_ident_start(c: char) -> bool {
    is_alpha_char(c) || c == '_'
}

/// A character that may continue a numeric lexeme.
pub open spec fn is_num_char(c: char) -> bool {
    is_digit_char(c) || c == '.'
}

/// How many newlines the sequence holds.
pub open spec fn count_nl(s: Seq<char>) -> int
    decreases s.len(),
{
    if s.len() == 0 {
        0
    } else {
        count_nl(s.drop_last()) + if s.last() == '\n' {
            1int
        } else {
            0int
        }
    }
}

/// Where a line comment opened before `i` ends: at the next newline,
/// which is not consumed, or at the end of the source.
pub open spec fn line_comment_end(s: Seq<char>, i: int) -> int
    decreases s.len() - i when 0 <= i <= s.len()
{
    if i == s.len() || s[i] == '\n' {
        i
    } else {
        line_comment_end(s, i + 1)
    }
}

/// Where a block comment opened before `i` ends: just past the first
/// `*/`, or at the end of the source when unterminated.
pub open spec fn block_comment_end(s: Seq<char>, i: int) -> int
    decreases s.len() - i when 0 <= i <= s.len()
{
    if i == s.len() {
        i
    } else if s[i] == '*' && i + 1 < s.len() && s[i + 1] == '/' {
        i + 2
    } else {
        block_comment_end(s, i + 1)
    }
}

pub proof fn lemma_line_comment_end_bounds(s: Seq<char>, i: int)
    requires
        0 <= i <= s.len(),
    ensures
        i <= line_comment_end(s, i) <= s.len(),
    decreases s.len() - i,
{
    if i < s.len() && s[i] != '\n' {
        lemma_line_comment_end_bounds(s, i + 1);
    }
}

pub proof fn lemma_block_comment_end_bounds(s: Seq<char>, i: int)
    requires
        0 <= i <= s.len(),
    ensures
        i <= block_comment_end(s, i) <= s.len(),
    decreases s.len() - i,
{
    if i < s.len() && !(s[i] == '*' && i + 1 < s.len() && s[i + 1] == '/') {
        lemma_block_comment_end_bounds(s, i + 1);
    }
}

/// Where the next token can begin: past all whitespace and comments
/// from `i` on.
pub open spec fn trivia_end(s: Seq<char>, i: int) -> int
    decreases s.len() - i when 0 <= i <= s.len()
{
    if i == s.len() {
        i
    } else if is_ws_char(s[i]) {
        trivia_end(s, i + 1)
    } else if s[i] == '/' && i + 1 < s.len() && s[i + 1] == '/' {
        let e = line_comment_end(s, i + 2);
        if e <= i || e > s.len() {
            i
        } else {
            trivia_end(s, e)
        }
    } else if s[i] == '/' && i + 1 < s.len() && s[i + 1] == '*' {
        let e = block_comment_end(s, i + 2);
        if e <= i || e > s.len() {
            i
        } else {
            trivia_end(s, e)
        }
    } else {
        i
    }
}



/// Where the identifier running at `i` ends.
pub open spec fn ident_end(s: Seq<char>, i: int) -> int
    decreases s.len() - i when 0 <= i <= s.len()
{
    if i < s.len() && is_ident_char(s[i]) {
        ident_end(s, i + 1)
    } else {
        i
    }
}

/// Where the numeric lexeme running at `i` ends.
pub open spec fn num_end(s: Seq<char>, i: int) -> int
    decreases s.len() - i when 0 <= i <= s.len()
{
    if i < s.len() && is_num_char(s[i]) {
        num_end(s, i + 1)
    } else {
        i
    }
}

proof fn lemma_ident_end_ge(s: Seq<char>, i: int)
    requires
        0 <= i <= s.len(),
    ensures
        i <= ident_end(s, i) <= s.len(),
    decreases s.len() - i,
{
    if i < s.len() && is_ident_char(s[i]) {
        lemma_ident_end_ge(s, i + 1);
    }
}

proof fn lemma_num_end_ge(s: Seq<char>, i: int)
    requires
        0 <= i <= s.len(),
    ensures
        i <= num_end(s, i) <= s.len(),
    decreases s.len() - i,
{
    if i < s.len() && is_num_char(s[i]) {
        lemma_num_end_ge(s, i + 1);
    }
}

/// A whitespace-only source holds no token: the next token can only
/// begin past its end.  With [`Lexer::next`]'s contract this is why a
/// blank source parses exactly like an empty one.
pub proof fn lemma_trivia_only_reaches_end(s: Seq<char>, i: int)
    requires
        0 <= i <= s.len(),
        forall|k: int| 0 <= k < s.len() ==> is_ws_char(#[trigger] s[k]),
    ensures
        trivia_end(s, i) == s.len(),
    decreases s.len() - i,
{
    if i < s.len() {
        lemma_trivia_only_reaches_end(s, i + 1);
    }
}

/// What an escape sequence in a plain string denotes: the named
/// control characters and quotes collapse, anything else keeps the
/// backslash.
pub open spec fn esc_expansion(c: char) -> Seq<char> {
    if c == 'n' {
        seq!['\n']
    } else if c == 't' {
        seq!['\t']
    } else if c == 'r' {
        seq!['\r']
    } else if c == '\\' {
        seq!['\\']
    } else if c == '"' {
        seq!['"']
    } else if c == '\'' {
        seq!['\'']
    } else {
        seq!['\\', c]
    }
}

/// The payload and end of a plain string opened by quote `q` whose
/// body starts at `i`; `None` when the string never closes.
pub open spec fn scan_string(s: Seq<char>, i: int, q: char) -> Option<(Seq<char>, int)>
    decreases s.len() - i when 0 <= i <= s.len()
{
    if i == s.len() {
        None
    } else if s[i] == q {
        Some((Seq::empty(), i + 1))
    } else if s[i] == '\\' {
        if i + 1 >= s.len() {
            None
        } else {
            match scan_string(s, i + 2, q) {
                Some((p, e)) => Some((esc_expansion(s[i + 1]) + p, e)),
                None => None,
            }
        }
    } else {
        match scan_string(s, i + 1, q) {
            Some((p, e)) => Some((seq![s[i]] + p, e)),
            None => None,
        }
    }
}

/// The payload and end of an interpolated string whose body starts at
/// `i`: escapes are kept in escaped form, backslash included.
pub open spec fn scan_interp(s: Seq<char>, i: int) -> Option<(Seq<char>, int)>
    decreases s.len() - i when 0 <= i <= s.len()
{
    if i == s.len() {
        None
    } else if s[i] == '"' {
        Some((Seq::empty(), i + 1))
    } else if s[i] == '\\' {
        if i + 1 >= s.len() {
            None
        } else {
            match scan_interp(s, i + 2) {
                Some((p, e)) => Some((seq!['\\', s[i + 1]] + p, e)),
                None => None,
            }
        }
    } else {
        match scan_interp(s, i + 1) {
            Some((p, e)) => Some((seq![s[i]] + p, e)),
            None => None,
        }
    }
}

/// The token kind a finished word denotes: a keyword, the lone
/// underscore, or an identifier.
pub open spec fn word_kind(w: Seq<char>) -> TokenKind {
    if w == "let"@ {
        TokenKind::Let
    } else if w == "func"@ {
        TokenKind::Func
    } else if w == "if"@ {
        TokenKind::If
    } else if w == "else"@ {
        TokenKind::Else
    } else if w == "true"@ {
        TokenKind::True
    } else if w == "false"@ {
        TokenKind::False
    } else if w == "match"@ {
        TokenKind::Match
    } else if w == "fn"@ {
        TokenKind::Fn
    } else if w == "async"@ {
        TokenKind::Async
    } else if w == "await"@ {
        TokenKind::Await
    } else if w == "import"@ {
        TokenKind::Import
    } else if w == "enum"@ {
        TokenKind::Enum
    } else if w == "_"@ {
        TokenKind::Underscore
    } else {
        TokenKind::Identifier
    }
}

/// The operator or punctuation token at `j`, with how many characters
/// it spans; `None` when the character opens no token.
pub open spec fn op_token(s: Seq<char>, j: int) -> Option<(TokenKind, int)> {
    let c = s[j];
    let two = j + 1 < s.len();
    if c == '(' {
        Some((TokenKind::LParen, 1int))
    } else if c == ')' {
        Some((TokenKind::RParen, 1int))
    } else if c == '{' {
        Some((TokenKind::LBrace, 1int))
    } else if c == '}' {
        Some((TokenKind::RBrace, 1int))
    } else if c == '[' {
        Some((TokenKind::LBracket, 1int))
    } else if c == ']' {
        Some((TokenKind::RBracket, 1int))
    } else if c == ',' {
        Some((TokenKind::Comma, 1int))
    } else if c == ';' {
        Some((TokenKind::Semicolon, 1int))
    } else if c == '+' {
        Some((TokenKind::Plus, 1int))
    } else if c == '/' {
        Some((TokenKind::Slash, 1int))
    } else if c == '.' {
        Some((TokenKind::Dot, 1int))
    } else if c == '?' {
        Some((TokenKind::Question, 1int))
    } else if c == '-' {
        if two && s[j + 1] == '>' {
            Some((TokenKind::Arrow, 2int))
        } else {
            Some((TokenKind::Minus, 1int))
        }
    } else if c == '*' {
        if two && s[j + 1] == '*' {
            Some((TokenKind::Power, 2int))
        } else {
            Some((TokenKind::Star, 1int))
        }
    } else if c == '=' {
        if two && s[j + 1] == '=' {
            Some((TokenKind::EqualEqual, 2int))
        } else {
            Some((TokenKind::Equal, 1int))
        }
    } else if c == '!' {
        if two && s[j + 1] == '=' {
            Some((TokenKind::BangEqual, 2int))
        } else {
            Some((TokenKind::Bang, 1int))
        }
    } else if c == '<' {
        if two && s[j + 1] == '=' {
            Some((TokenKind::LessEqual, 2int))
        } else if two && s[j + 1] == '-' {
            Some((TokenKind::LArrow, 2int))
        } else {
            Some((TokenKind::Less, 1int))
        }
    } else if c == '>' {
        if two && s[j + 1] == '=' {
            Some((TokenKind::GreaterEqual, 2int))
        } else {
            Some((TokenKind::Greater, 1int))
        }
    } else if c == ':' {
        if two && s[j + 1] == ':' {
            Some((TokenKind::DoubleColon, 2int))
        } else {
            Some((TokenKind::Colon, 1int))
        }
    } else if c == '&' {
        if two && s[j + 1] == '&' {
            Some((TokenKind::And, 2int))
        } else {
            Some((TokenKind::Reflect, 1int))
        }
    } else if c == '|' {
        if two && s[j + 1] == '|' {
            Some((TokenKind::Or, 2int))
        } else if two && s[j + 1] == '>' {
            Some((TokenKind::Pipeline, 2int))
        } else {
            Some((TokenKind::Pipe, 1int))
        }
    } else {
        None
    }
}

/// The token `t`, ending at `e`, is what the source yields at position
/// `j`, the first position past whitespace and comments.
pub open spec fn lexes_at(s: Seq<char>, j: int, t: Token, e: int) -> bool {
    let c = s[j];
    if is_ident_start(c) {
        let w = s.subrange(j, ident_end(s, j));
        &&& e == ident_end(s, j)
        &&& t.kind == word_kind(w)
        &&& (t.kind == TokenKind::Identifier ==> (t.value matches TokenValue::Identifier(nm)
            && nm@ == w))
        &&& (t.kind != TokenKind::Identifier ==> t.value is Empty)
    } else if is_digit_char(c) {
        let w = s.subrange(j, num_end(s, j));
        &&& e == num_end(s, j)
        &&& (representable_lexeme(w) ==> t.kind == TokenKind::Number && (t.value matches
        TokenValue::Number(q) && q.wf() && q.spec_num() == dv(digits_of(w)) && q.spec_den()
            == pow10(frac_len(w) as nat)))
        &&& (!representable_lexeme(w) ==> t.kind == TokenKind::Error && (t.value matches
        TokenValue::Error(m) && m@ == "Invalid number: "@ + w))
    } else if c == '"' || c == '\'' {
        match scan_string(s, j + 1, c) {
            Some((p, e2)) => {
                &&& e == e2
                &&& t.kind == TokenKind::String
                &&& (t.value matches TokenValue::String(v) && v@ == p)
            },
            None => {
                &&& e == s.len()
                &&& t.kind == TokenKind::Error
                &&& (t.value matches TokenValue::Error(m) && m@ == "Unterminated string"@)
            },
        }
    } else if c == '$' {
        if j + 1 < s.len() && s[j + 1] == '"' {
            match scan_interp(s, j + 2) {
                Some((p, e2)) => {
                    &&& e == e2
                    &&& t.kind == TokenKind::InterpolatedString
                    &&& (t.value matches TokenValue::String(v) && v@ == p)
                },
                None => {
                    &&& e == s.len()
                    &&& t.kind == TokenKind::Error
                    &&& (t.value matches TokenValue::Error(m) && m@
                        == "Unterminated interpolated string"@)
                },
            }
        } else {
            &&& e == j + 1
            &&& t.kind == TokenKind::Dollar
            &&& t.value is Empty
        }
    } else {
        match op_token(s, j) {
            Some((k, n)) => {
                &&& e == j + n
                &&& t.kind == k
                &&& t.value is Empty
            },
            None => {
                &&& e == j + 1
                &&& t.kind == TokenKind::Error
                &&& (t.value matches TokenValue::Error(m) && m@ == "Unexpected character: "@
                    + seq![c])
            },
        }
    }
}

/// A string holding exactly the given characters.
fn chars_to_string(v: &Vec<char>) -> (r: String)
    ensures
        r@ == v@,
{
    let mut r = String::new();
    let mut i: usize = 0;
    while i < v.len()
        invariant
            0 <= i <= v@.len(),
            r@ == v@.take(i as int),
        decreases v@.len() - i,
    {
        push_char(&mut r, v[i]);
        proof {
            assert(v@.take(i + 1) =~= v@.take(i as int).push(v@[i as int]));
        }
        i = i + 1;
    }
    proof {
        assert(v@.take(v@.len() as int) =~= v@);
    }
    r
}

proof fn lemma_count_nl_le(s: Seq<char>)
    ensures
        0 <= count_nl(s) <= s.len(),
    decreases s.len(),
{
    if s.len() > 0 {
        lemma_count_nl_le(s.drop_last());
    }
}

/// The character cursor: the source, the position of the next unread
/// character, and the 1-based line that position stands on.
pub struct Lexer {
    src: Vec<char>,
    pos: usize,
    line: usize,
}

impl Lexer {
    /// The cursor is inside the source and the line count agrees with
    /// the newlines already passed.
    pub closed spec fn wf(self) -> bool {
        &&& self.pos <= self.src@.len()
        &&& self.src@.len() < usize::MAX
        &&& self.line == 1 + count_nl(self.src@.take(self.pos as int))
    }

    /// The characters of the source.
    pub closed spec fn chars(self) -> Seq<char> {
        self.src@
    }

    /// The cursor position.
    pub closed spec fn at(self) -> int {
        self.pos as int
    }

    /// A cursor at the start of the source, on line one.
    pub fn new(source: &str) -> (lx: Lexer)
        requires
            source@.len() < usize::MAX,
        ensures
            lx.wf(),
            lx.chars() == source@,
            lx.at() == 0,
    {
        let n = source.unicode_len();
        let mut v: Vec<char> = Vec::new();
        let mut i: usize = 0;
        while i < n
            invariant
                n == source@.len() < usize::MAX,
                0 <= i <= n,
                v@ == source@.take(i as int),
            decreases n - i,
        {
            v.push(source.get_char(i));
            proof {
                assert(source@.take(i + 1) =~= source@.take(i as int).push(source@[i as int]));
            }
            i = i + 1;
        }
        proof {
            assert(source@.take(n as int) =~= source@);
            assert(source@.take(0) =~= Seq::<char>::empty());
        }
        Lexer { src: v, pos: 0, line: 1 }
    }

    /// Consume one character, keeping the line count true.
    fn bump(&mut self)
        requires
            old(self).wf(),
            old(self).at() < old(self).chars().len(),
        ensures
            final(self).wf(),
            final(self).chars() == old(self).chars(),
            final(self).at() == old(self).at() + 1,
    {
        proof {
            let s = self.src@;
            let p = self.pos as int;
            assert(s.take(p + 1).drop_last() =~= s.take(p));
            assert(s.take(p + 1).last() == s[p]);
            lemma_count_nl_le(s.take(p));
            lemma_count_nl_le(s.take(p + 1));
        }
        if self.src[self.pos] == '\n' {
            self.line = self.line + 1;
        }
        self.pos = self.pos + 1;
    }

    /// The character under the cursor.
    fn cur(&self) -> (c: char)
        requires
            self.at() < self.chars().len(),
        ensures
            c == self.chars()[self.at()],
    {
        self.src[self.pos]
    }

    /// Whether the whole source has been read.
    fn at_end(&self) -> (r: bool)
        requires
            self.wf(),
        ensures
            r == (self.at() == self.chars().len()),
    {
        self.pos == self.src.len()
    }

    /// Classify one character as whitespace.
    fn ws_char(c: char) -> (r: bool)
        ensures
            r == is_ws_char(c),
    {
        let u = c as u32;
        u == 32 || u == 9 || u == 13 || u == 10 || u == 11 || u == 12 || u == 0x85 || u == 0xa0
            || u == 0x1680 || (0x2000 <= u && u <= 0x200a) || u == 0x2028 || u == 0x2029 || u
            == 0x202f || u == 0x205f || u == 0x3000
    }

    /// Classify one character as able to continue an identifier.
    fn ident_char(c: char) -> (r: bool)
        ensures
            r == is_ident_char(c),
    {
        let u = c as u32;
        (97 <= u && u <= 122) || (65 <= u && u <= 90) || (48 <= u && u <= 57) || u == 95
    }

    /// Classify one character as able to open an identifier.
    fn ident_start(c: char) -> (r: bool)
        ensures
            r == is_ident_start(c),
    {
        let u = c as u32;
        (97 <= u && u <= 122) || (65 <= u && u <= 90) || u == 95
    }

    /// Classify one character as a decimal digit.
    fn digit_char(c: char) -> (r: bool)
        ensures
            r == is_digit_char(c),
    {
        let u = c as u32;
        48 <= u && u <= 57
    }

    /// Move the cursor past whitespace and comments.
    #[verifier::loop_isolation(false)]
    fn skip_trivia(&mut self)
        requires
            old(self).wf(),
        ensures
            final(self).wf(),
            final(self).chars() == old(self).chars(),
            old(self).at() <= final(self).at(),
            final(self).at() == trivia_end(old(self).chars(), old(self).at()),
            final(self).at() == trivia_end(final(self).chars(), final(self).at()),
    {
        let ghost s = self.src@;
        let ghost p0 = self.pos as int;
        loop
            invariant
                self.wf(),
                self.src@ == s,
                p0 <= self.pos as int <= s.len(),
                trivia_end(s, p0) == trivia_end(s, self.pos as int),
            decreases s.len() - self.pos as int,
        {
            let ghost it0 = self.pos as int;
            while !self.at_end() && Self::ws_char(self.cur())
                invariant
                    self.wf(),
                    self.src@ == s,
                    p0 <= self.pos as int <= s.len(),
                    it0 <= self.pos as int,
                    trivia_end(s, p0) == trivia_end(s, self.pos as int),
                decreases s.len() - self.pos as int,
            {
                self.bump();
            }
            if self.pos + 1 < self.src.len() && self.cur() == '/' {
                let c2 = self.src[self.pos + 1];
                if c2 == '/' {
                    proof {
                        lemma_line_comment_end_bounds(s, self.pos + 2);
                        assert(trivia_end(s, self.pos as int) == trivia_end(
                            s,
                            line_comment_end(s, self.pos + 2),
                        ));
                    }
                    let ghost target = line_comment_end(s, self.pos + 2);
                    self.bump();
                    self.bump();
                    while !self.at_end() && self.cur() != '\n'
                        invariant
                            self.wf(),
                            self.src@ == s,
                            p0 <= self.pos as int <= s.len(),
                            it0 < self.pos as int,
                            target == line_comment_end(s, self.pos as int),
                        decreases s.len() - self.pos as int,
                    {
                        self.bump();
                    }
                    proof {
                        assert(line_comment_end(s, self.pos as int) == self.pos as int);
                    }
                } else if c2 == '*' {
                    proof {
                        lemma_block_comment_end_bounds(s, self.pos + 2);
                        assert(trivia_end(s, self.pos as int) == trivia_end(
                            s,
                            block_comment_end(s, self.pos + 2),
                        ));
                    }
                    let ghost target = block_comment_end(s, self.pos + 2);
                    self.bump();
                    self.bump();
                    loop
                        invariant
                            self.wf(),
                            self.src@ == s,
                            p0 <= self.pos as int <= s.len(),
                            it0 < self.pos as int,
                            target == block_comment_end(s, self.pos as int),
                        decreases s.len() - self.pos as int,
                    {
                        if self.at_end() {
                            break ;
                        }
                        if self.cur() == '*' && self.pos + 1 < self.src.len() && self.src[self.pos
                            + 1] == '/' {
                            self.bump();
                            self.bump();
                            break ;
                        }
                        self.bump();
                    }
                } else {
                    return ;
                }
            } else {
                return ;
            }
        }
    }

    /// Compare a word against one keyword spelling.
    fn word_is(w: &String, kw: &str) -> (r: bool)
        ensures
            r == (w@ == kw@),
    {
        *w == String::from_str(kw)
    }

    /// The token kind a finished word denotes.
    fn lookup_word(w: &String) -> (k: TokenKind)
        ensures
            k == word_kind(w@),
    {
        if Self::word_is(w, "let") {
            TokenKind::Let
        } else if Self::word_is(w, "func") {
            TokenKind::Func
        } else if Self::word_is(w, "if") {
            TokenKind::If
        } else if Self::word_is(w, "else") {
            TokenKind::Else
        } else if Self::word_is(w, "true") {
            TokenKind::True
        } else if Self::word_is(w, "false") {
            TokenKind::False
        } else if Self::word_is(w, "match") {
            TokenKind::Match
        } else if Self::word_is(w, "fn") {
            TokenKind::Fn
        } else if Self::word_is(w, "async") {
            TokenKind::Async
        } else if Self::word_is(w, "await") {
            TokenKind::Await
        } else if Self::word_is(w, "import") {
            TokenKind::Import
        } else if Self::word_is(w, "enum") {
            TokenKind::Enum
        } else if Self::word_is(w, "_") {
            TokenKind::Underscore
        } else {
            TokenKind::Identifier
        }
    }

    /// Read an identifier, keyword or the lone underscore.
    #[verifier::loop_isolation(false)]
    fn make_identifier(&mut self) -> (t: Token)
        requires
            old(self).wf(),
            old(self).at() < old(self).chars().len(),
            is_ident_start(old(self).chars()[old(self).at()]),
        ensures
            final(self).wf(),
            final(self).chars() == old(self).chars(),
            final(self).at() == ident_end(old(self).chars(), old(self).at()),
            old(self).at() < final(self).at() <= old(self).chars().len(),
            token_wf(t),
            t.kind != TokenKind::Eof,
            t.line == 1 + count_nl(old(self).chars().take(final(self).at())),
            lexes_at(old(self).chars(), old(self).at(), t, final(self).at()),
    {
        let ghost s = self.src@;
        let ghost p0 = self.pos as int;
        let mut word = String::new();
        proof {
            assert(s.subrange(p0, p0) =~= Seq::<char>::empty());
        }
        while !self.at_end() && Self::ident_char(self.cur())
            invariant
                self.wf(),
                self.src@ == s,
                p0 <= self.pos as int <= s.len(),
                ident_end(s, p0) == ident_end(s, self.pos as int),
                word@ == s.subrange(p0, self.pos as int),
            decreases s.len() - self.pos as int,
        {
            let c = self.cur();
            push_char(&mut word, c);
            proof {
                assert(s.subrange(p0, self.pos + 1) =~= s.subrange(p0, self.pos as int).push(
                    s[self.pos as int],
                ));
            }
            self.bump();
        }
        proof {
            assert(ident_end(s, self.pos as int) == self.pos as int);
            assert(is_ident_char(s[p0]));
            lemma_ident_end_ge(s, p0 + 1);
        }
        let kind = Self::lookup_word(&word);
        let value = if let TokenKind::Identifier = kind {
            TokenValue::Identifier(word)
        } else {
            TokenValue::Empty
        };
        Token { kind, value, line: self.line }
    }

    /// Read a number: digits and dots, handed to the exact-decimal
    /// parser; a lexeme it rejects becomes an error token.
    #[verifier::loop_isolation(false)]
    fn make_number(&mut self) -> (t: Token)
        requires
            old(self).wf(),
            old(self).at() < old(self).chars().len(),
            is_digit_char(old(self).chars()[old(self).at()]),
            !is_ident_start(old(self).chars()[old(self).at()]),
        ensures
            final(self).wf(),
            final(self).chars() == old(self).chars(),
            final(self).at() == num_end(old(self).chars(), old(self).at()),
            old(self).at() < final(self).at() <= old(self).chars().len(),
            token_wf(t),
            t.kind != TokenKind::Eof,
            t.line == 1 + count_nl(old(self).chars().take(final(self).at())),
            lexes_at(old(self).chars(), old(self).at(), t, final(self).at()),
    {
        let ghost s = self.src@;
        let ghost p0 = self.pos as int;
        let mut lexeme: Vec<char> = Vec::new();
        proof {
            assert(s.subrange(p0, p0) =~= Seq::<char>::empty());
        }
        while !self.at_end() && (Self::digit_char(self.cur()) || self.cur() == '.')
            invariant
                self.wf(),
                self.src@ == s,
                p0 <= self.pos as int <= s.len(),
                num_end(s, p0) == num_end(s, self.pos as int),
                lexeme@ == s.subrange(p0, self.pos as int),
                forall|k: int|
                    p0 <= k < self.pos as int ==> is_digit_char(#[trigger] s[k]) || s[k] == '.',
            decreases s.len() - self.pos as int,
        {
            let c = self.cur();
            lexeme.push(c);
            proof {
                assert(s.subrange(p0, self.pos + 1) =~= s.subrange(p0, self.pos as int).push(
                    s[self.pos as int],
                ));
            }
            self.bump();
        }
        proof {
            assert(num_end(s, self.pos as int) == self.pos as int);
            lemma_num_end_ge(s, p0 + 1);
            let w = s.subrange(p0, self.pos as int);
            assert(w[0] == s[p0]);
            assert forall|i: int| 0 <= i < w.len() implies is_digit_char(#[trigger] w[i]) || w[i]
                == '.' by {
                assert(w[i] == s[p0 + i]);
            }
        }
        match Rational::from_decimal_chars(&lexeme) {
            Some(q) => Token { kind: TokenKind::Number, value: TokenValue::Number(q), line: self.line },
            None => {
                let mut msg = String::from_str("Invalid number: ");
                let tail = chars_to_string(&lexeme);
                msg.append(tail.as_str());
                Token { kind: TokenKind::Error, value: TokenValue::Error(msg), line: self.line }
            },
        }
    }

    /// Read a plain string opened by the quote under the cursor.
    #[verifier::loop_isolation(false)]
    fn make_string(&mut self, q: char) -> (t: Token)
        requires
            old(self).wf(),
            old(self).at() < old(self).chars().len(),
            old(self).chars()[old(self).at()] == q,
            q == '"' || q == '\'',
        ensures
            final(self).wf(),
            final(self).chars() == old(self).chars(),
            old(self).at() < final(self).at() <= old(self).chars().len(),
            token_wf(t),
            t.kind != TokenKind::Eof,
            t.line == 1 + count_nl(old(self).chars().take(final(self).at())),
            match scan_string(old(self).chars(), old(self).at() + 1, q) {
                Some((p, e2)) => final(self).at() == e2 && t.kind == TokenKind::String && (t.value
                    matches TokenValue::String(v) && v@ == p),
                None => final(self).at() == old(self).chars().len() && t.kind == TokenKind::Error
                    && (t.value matches TokenValue::Error(m) && m@ == "Unterminated string"@),
            },
    {
        let ghost s = self.src@;
        self.bump();
        let ghost p1 = self.pos as int;
        let mut payload = String::new();
        loop
            invariant
                self.wf(),
                self.src@ == s,
                q == '"' || q == '\'',
                p1 <= self.pos as int <= s.len(),
                scan_string(s, p1, q) == match scan_string(s, self.pos as int, q) {
                    Some((p, e)) => Some::<(Seq<char>, int)>((payload@ + p, e)),
                    None => None::<(Seq<char>, int)>,
                },
            decreases s.len() - self.pos as int,
        {
            if self.at_end() {
                return Token {
                    kind: TokenKind::Error,
                    value: TokenValue::Error(String::from_str("Unterminated string")),
                    line: self.line,
                };
            }
            let c = self.cur();
            if c == q {
                self.bump();
                proof {
                    assert(payload@ + Seq::<char>::empty() =~= payload@);
                }
                return Token {
                    kind: TokenKind::String,
                    value: TokenValue::String(payload),
                    line: self.line,
                };
            }
            if c == '\\' {
                if self.pos + 1 < self.src.len() {
                    let e = self.src[self.pos + 1];
                    let ghost before = payload@;
                    if e == 'n' {
                        push_char(&mut payload, '\n');
                    } else if e == 't' {
                        push_char(&mut payload, '\t');
                    } else if e == 'r' {
                        push_char(&mut payload, '\r');
                    } else if e == '\\' {
                        push_char(&mut payload, '\\');
                    } else if e == '"' {
                        push_char(&mut payload, '"');
                    } else if e == '\'' {
                        push_char(&mut payload, '\'');
                    } else {
                        push_char(&mut payload, '\\');
                        push_char(&mut payload, e);
                    }
                    proof {
                        assert(payload@ =~= before + esc_expansion(s[self.pos + 1]));
                        if let Some((p, e2)) = scan_string(s, self.pos + 2, q) {
                            assert(before + (esc_expansion(s[self.pos + 1]) + p) =~= payload@ + p);
                        }
                    }
                    self.bump();
                    self.bump();
                } else {
                    self.bump();
                }
            } else {
                let ghost before = payload@;
                push_char(&mut payload, c);
                proof {
                    assert(payload@ =~= before + seq![s[self.pos as int]]);
                    if let Some((p, e2)) = scan_string(s, self.pos + 1, q) {
                        assert(before + (seq![s[self.pos as int]] + p) =~= payload@ + p);
                    }
                }
                self.bump();
            }
        }
    }

    /// Read an interpolated string; the opening quote is under the
    /// cursor and the dollar sign has been consumed.
    #[verifier::loop_isolation(false)]
    fn make_interpolated_string(&mut self) -> (t: Token)
        requires
            old(self).wf(),
            old(self).at() < old(self).chars().len(),
            old(self).chars()[old(self).at()] == '"',
        ensures
            final(self).wf(),
            final(self).chars() == old(self).chars(),
            old(self).at() < final(self).at() <= old(self).chars().len(),
            token_wf(t),
            t.kind != TokenKind::Eof,
            t.line == 1 + count_nl(old(self).chars().take(final(self).at())),
            match scan_interp(old(self).chars(), old(self).at() + 1) {
                Some((p, e2)) => final(self).at() == e2 && t.kind == TokenKind::InterpolatedString
                    && (t.value matches TokenValue::String(v) && v@ == p),
                None => final(self).at() == old(self).chars().len() && t.kind == TokenKind::Error
                    && (t.value matches TokenValue::Error(m) && m@
                    == "Unterminated interpolated string"@),
            },
    {
        let ghost s = self.src@;
        self.bump();
        let ghost p1 = self.pos as int;
        let mut payload = String::new();
        loop
            invariant
                self.wf(),
                self.src@ == s,
                p1 <= self.pos as int <= s.len(),
                scan_interp(s, p1) == match scan_interp(s, self.pos as int) {
                    Some((p, e)) => Some::<(Seq<char>, int)>((payload@ + p, e)),
                    None => None::<(Seq<char>, int)>,
                },
            decreases s.len() - self.pos as int,
        {
            if self.at_end() {
                return Token {
                    kind: TokenKind::Error,
                    value: TokenValue::Error(String::from_str("Unterminated interpolated string")),
                    line: self.line,
                };
            }
            let c = self.cur();
            if c == '"' {
                self.bump();
                proof {
                    assert(payload@ + Seq::<char>::empty() =~= payload@);
                }
                return Token {
                    kind: TokenKind::InterpolatedString,
                    value: TokenValue::String(payload),
                    line: self.line,
                };
            }
            if c == '\\' {
                if self.pos + 1 < self.src.len() {
                    let e = self.src[self.pos + 1];
                    let ghost before = payload@;
                    push_char(&mut payload, '\\');
                    push_char(&mut payload, e);
                    proof {
                        assert(payload@ =~= before + seq!['\\', s[self.pos + 1]]);
                        if let Some((p, e2)) = scan_interp(s, self.pos + 2) {
                            assert(before + (seq!['\\', s[self.pos + 1]] + p) =~= payload@ + p);
                        }
                    }
                    self.bump();
                    self.bump();
                } else {
                    self.bump();
                }
            } else {
                let ghost before = payload@;
                push_char(&mut payload, c);
                proof {
                    assert(payload@ =~= before + seq![s[self.pos as int]]);
                    if let Some((p, e2)) = scan_interp(s, self.pos + 1) {
                        assert(before + (seq![s[self.pos as int]] + p) =~= payload@ + p);
                    }
                }
                self.bump();
            }
        }
    }

    /// The next token, or `None` past the last one.  The token is
    /// exactly what [`lexes_at`] says the source yields past the
    /// skipped whitespace and comments.
    pub fn next(&mut self) -> (r: Option<Token>)
        requires
            old(self).wf(),
        ensures
            final(self).wf(),
            final(self).chars() == old(self).chars(),
            old(self).at() <= final(self).at(),
            r is Some ==> old(self).at() < final(self).at(),
            ({
                let s = old(self).chars();
                let j = trivia_end(s, old(self).at());
                &&& (r is None <==> j == s.len())
                &&& (r is None ==> final(self).at() == s.len())
                &&& (r matches Some(t) ==> {
                    &&& token_wf(t)
                    &&& t.kind != TokenKind::Eof
                    &&& j < final(self).at() <= s.len()
                    &&& t.line == 1 + count_nl(s.take(final(self).at()))
                    &&& lexes_at(s, j, t, final(self).at())
                })
            }),
    {
        let ghost s = self.src@;
        self.skip_trivia();
        let ghost j = self.pos as int;
        if self.at_end() {
            return None;
        }
        let c = self.cur();
        if Self::ident_start(c) {
            return Some(self.make_identifier());
        }
        if Self::digit_char(c) {
            return Some(self.make_number());
        }
        if c == '"' || c == '\'' {
            return Some(self.make_string(c));
        }
        if c == '$' {
            if self.pos + 1 < self.src.len() && self.src[self.pos + 1] == '"' {
                self.bump();
                return Some(self.make_interpolated_string());
            }
            self.bump();
            return Some(
                Token { kind: TokenKind::Dollar, value: TokenValue::Empty, line: self.line },
            );
        }
        let kind_one = match c {
            '(' => Some(TokenKind::LParen),
            ')' => Some(TokenKind::RParen),
            '{' => Some(TokenKind::LBrace),
            '}' => Some(TokenKind::RBrace),
            '[' => Some(TokenKind::LBracket),
            ']' => Some(TokenKind::RBracket),
            ',' => Some(TokenKind::Comma),
            ';' => Some(TokenKind::Semicolon),
            '+' => Some(TokenKind::Plus),
            '/' => Some(TokenKind::Slash),
            '.' => Some(TokenKind::Dot),
            '?' => Some(TokenKind::Question),
            _ => None,
        };
        if let Some(k) = kind_one {
            self.bump();
            return Some(Token { kind: k, value: TokenValue::Empty, line: self.line });
        }
        if c == '-' {
            self.bump();
            let k = if !self.at_end() && self.cur() == '>' {
                self.bump();
                TokenKind::Arrow
            } else {
                TokenKind::Minus
            };
            return Some(Token { kind: k, value: TokenValue::Empty, line: self.line });
        }
        if c == '*' {
            self.bump();
            let k = if !self.at_end() && self.cur() == '*' {
                self.bump();
                TokenKind::Power
            } else {
                TokenKind::Star
            };
            return Some(Token { kind: k, value: TokenValue::Empty, line: self.line });
        }
        if c == '=' {
            self.bump();
            let k = if !self.at_end() && self.cur() == '=' {
                self.bump();
                TokenKind::EqualEqual
            } else {
                TokenKind::Equal
            };
            return Some(Token { kind: k, value: TokenValue::Empty, line: self.line });
        }
        if c == '!' {
            self.bump();
            let k = if !self.at_end() && self.cur() == '=' {
                self.bump();
                TokenKind::BangEqual
            } else {
                TokenKind::Bang
            };
            return Some(Token { kind: k, value: TokenValue::Empty, line: self.line });
        }
        if c == '<' {
            self.bump();
            let k = if !self.at_end() && self.cur() == '=' {
                self.bump();
                TokenKind::LessEqual
            } else if !self.at_end() && self.cur() == '-' {
                self.bump();
                TokenKind::LArrow
            } else {
                TokenKind::Less
            };
            return Some(Token { kind: k, value: TokenValue::Empty, line: self.line });
        }
        if c == '>' {
            self.bump();
            let k = if !self.at_end() && self.cur() == '=' {
                self.bump();
                TokenKind::GreaterEqual
            } else {
                TokenKind::Greater
            };
            return Some(Token { kind: k, value: TokenValue::Empty, line: self.line });
        }
        if c == ':' {
            self.bump();
            let k = if !self.at_end() && self.cur() == ':' {
                self.bump();
                TokenKind::DoubleColon
            } else {
                TokenKind::Colon
            };
            return Some(Token { kind: k, value: TokenValue::Empty, line: self.line });
        }
        if c == '&' {
            self.bump();
            let k = if !self.at_end() && self.cur() == '&' {
                self.bump();
                TokenKind::And
            } else {
                TokenKind::Reflect
            };
            return Some(Token { kind: k, value: TokenValue::Empty, line: self.line });
        }
        if c == '|' {
            self.bump();
            let k = if !self.at_end() && self.cur() == '|' {
                self.bump();
                TokenKind::Or
            } else if !self.at_end() && self.cur() == '>' {
                self.bump();
                TokenKind::Pipeline
            } else {
                TokenKind::Pipe
            };
            return Some(Token { kind: k, value: TokenValue::Empty, line: self.line });
        }
        self.bump();
        let mut msg = String::from_str("Unexpected character: ");
        push_char(&mut msg, c);
        proof {
            assert(msg@ =~= "Unexpected character: "@ + seq![c]);
        }
        Some(Token { kind: TokenKind::Error, value: TokenValue::Error(msg), line: self.line })
    }
}

/// The tokens are exactly what lexing the source from its start
/// yields: a chain of cursor positions runs through the stream, each
/// token is read at its position past the skipped trivia, and only
/// trivia follows the last one before the sentinel.
pub open spec fn stream_ok(s: Seq<char>, ps: Seq<int>, toks: Seq<Token>) -> bool {
    &&& ps.len() == toks.len()
    &&& toks.len() >= 1
    &&& forall|i: int|
        0 <= i < toks.len() - 1 ==> lexes_at(
            s,
            trivia_end(s, ps[i]),
            #[trigger] toks[i],
            ps[i + 1],
        )
    &&& forall|i: int| 0 <= i < ps.len() - 1 ==> #[trigger] ps[i] < ps[i + 1] <= s.len()
    &&& trivia_end(s, ps[ps.len() - 1]) == s.len()
}

/// The tokens the cursor still yields, closed by one end-of-stream
/// sentinel on the last line: the stream ends with `Eof` exactly once,
/// every other token is well formed with a positive line number, and
/// the whole stream is pinned to the source by [`stream_ok`].
#[verifier::loop_isolation(false)]
pub fn tokens_of(lexer: Lexer) -> (tokens: Vec<Token>)
    requires
        lexer.wf(),
    ensures
        tokens@.len() >= 1,
        tokens@.last().kind == TokenKind::Eof,
        tokens@.last().value is Empty,
        forall|i: int|
            0 <= i < tokens@.len() - 1 ==> (#[trigger] tokens@[i]).kind != TokenKind::Eof,
        forall|i: int| 0 <= i < tokens@.len() - 1 ==> (#[trigger] tokens@[i]).line >= 1,
        forall|i: int| 0 <= i < tokens@.len() - 1 ==> token_wf(#[trigger] tokens@[i]),
        exists|ps: Seq<int>|
            ps.len() > 0 && ps[0] == lexer.at() && stream_ok(lexer.chars(), ps, tokens@),
{
    let mut lx = lexer;
    let mut out: Vec<Token> = Vec::new();
    let ghost s = lexer.chars();
    let ghost mut ps: Seq<int> = seq![lexer.at()];
    loop
        invariant
            lx.wf(),
            lx.chars() == s,
            ps.len() == out@.len() + 1,
            ps[0] == lexer.at(),
            ps[ps.len() - 1] == lx.at(),
            forall|i: int| 0 <= i < ps.len() - 1 ==> #[trigger] ps[i] < ps[i + 1] <= s.len(),
            forall|i: int|
                0 <= i < out@.len() ==> lexes_at(s, trivia_end(s, ps[i]), #[trigger] out@[i], ps[i + 1]),
            forall|i: int|
                0 <= i < out@.len() ==> (#[trigger] out@[i]).kind != TokenKind::Eof
                    && out@[i].line >= 1 && token_wf(out@[i]),
        decreases lx.chars().len() - lx.at(),
    {
        match lx.next() {
            Some(t) => {
                proof {
                    lemma_count_nl_le(lx.chars().take(lx.at()));
                    ps = ps.push(lx.at());
                }
                out.push(t);
            },
            None => {
                proof {
                    assert(trivia_end(s, ps[ps.len() - 1]) == s.len());
                }
                break ;
            },
        }
    }
    let ghost before_eof = out@;
    out.push(Token { kind: TokenKind::Eof, value: TokenValue::Empty, line: lx.line });
    proof {
        assert(stream_ok(s, ps, out@)) by {
            assert forall|i: int| 0 <= i < out@.len() - 1 implies lexes_at(
                s,
                trivia_end(s, ps[i]),
                #[trigger] out@[i],
                ps[i + 1],
            ) by {
                assert(out@[i] == before_eof[i]);
            }
        }
    }
    out
}

/// The whole token stream of a source: see [`tokens_of`].
pub fn tokenize(source: &str) -> (tokens: Vec<Token>)
    requires
        source@.len() < usize::MAX,
    ensures
        tokens@.len() >= 1,
        tokens@.last().kind == TokenKind::Eof,
        forall|i: int|
            0 <= i < tokens@.len() - 1 ==> (#[trigger] tokens@[i]).kind != TokenKind::Eof,
        forall|i: int| 0 <= i < tokens@.len() - 1 ==> (#[trigger] tokens@[i]).line >= 1,
        forall|i: int| 0 <= i < tokens@.len() - 1 ==> token_wf(#[trigger] tokens@[i]),
        exists|ps: Seq<int>| ps.len() > 0 && ps[0] == 0 && stream_ok(source@, ps, tokens@),
{
    tokens_of(Lexer::new(source))
}

} // verus!
