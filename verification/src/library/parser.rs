//! The Pratt parser: tokens to a [`Program`] of AST nodes.
//!
//! Statements are `let`, `func`, `import`, `enum`, `match` and bare
//! expressions.  Expressions are parsed by binding power over the
//! precedence ladder; the right operand of a left-associative operator
//! is read one level higher, update (`<-`) reads its right side at the
//! same level.  Errors set `had_error`, leave a line-tagged diagnostic
//! behind, and the parser resynchronizes at the next statement
//! boundary: `had_error` is true exactly when a diagnostic was
//! emitted.

use crate::library::ast::{
    arms_wf, pattern_is_valid, stmt_node, ASTNode, BinaryOp, EnumVariant, LiteralValue, MatchArm,
    Program, UnaryOp,
};
use crate::library::fmt::u64_to_string;
use crate::library::lexer::{stream_ok, token_wf, tokens_of, Lexer, Token, TokenKind, TokenValue};
use vstd::prelude::*;
use vstd::string::StringExecFns;

verus! {

/// The binding power of an infix token: zero for tokens that do not
/// continue an expression.
pub open spec fn spec_prec(k: TokenKind) -> u8 {
    match k {
        TokenKind::Pipeline => 1,
        TokenKind::LArrow => 1,
        TokenKind::EqualEqual => 2,
        TokenKind::BangEqual => 2,
        TokenKind::Less => 2,
        TokenKind::Greater => 2,
        TokenKind::LessEqual => 2,
        TokenKind::GreaterEqual => 2,
        TokenKind::Plus => 3,
        TokenKind::Minus => 3,
        TokenKind::Star => 4,
        TokenKind::Slash => 4,
        TokenKind::LParen => 5,
        TokenKind::LBracket => 5,
        TokenKind::Dot => 5,
        _ => 0,
    }
}

/// A token kind that alone forms an expression atom.
pub open spec fn is_atom_kind(k: TokenKind) -> bool {
    ||| k == TokenKind::Number
    ||| k == TokenKind::String
    ||| k == TokenKind::InterpolatedString
    ||| k == TokenKind::Identifier
    ||| k == TokenKind::True
    ||| k == TokenKind::False
}

/// The node an atom token parses to: a literal carrying the token's
/// payload, or an identifier carrying its name.
pub open spec fn atom_node(t: Token, n: ASTNode) -> bool {
    match t.kind {
        TokenKind::Number => n matches ASTNode::Literal { value } && (value
            matches LiteralValue::Number(q) && (t.value matches TokenValue::Number(q2) && q
            == q2)),
        TokenKind::String => n matches ASTNode::Literal { value } && (value
            matches LiteralValue::String(s) && (t.value matches TokenValue::String(sv) && s@
            == sv@)),
        TokenKind::InterpolatedString => n matches ASTNode::Literal { value } && (value
            matches LiteralValue::String(s) && (t.value matches TokenValue::String(sv) && s@
            == sv@)),
        TokenKind::Identifier => n matches ASTNode::Identifier { name } && (t.value
            matches TokenValue::Identifier(nm) && name@ == nm@),
        TokenKind::True => n == (ASTNode::Literal { value: LiteralValue::Boolean(true) }),
        TokenKind::False => n == (ASTNode::Literal { value: LiteralValue::Boolean(false) }),
        _ => true,
    }
}

/// A token kind that is a binary arithmetic or comparison operator.
pub open spec fn is_binop_kind(k: TokenKind) -> bool {
    ||| k == TokenKind::Plus
    ||| k == TokenKind::Minus
    ||| k == TokenKind::Star
    ||| k == TokenKind::Slash
    ||| k == TokenKind::EqualEqual
    ||| k == TokenKind::BangEqual
    ||| k == TokenKind::Less
    ||| k == TokenKind::Greater
    ||| k == TokenKind::LessEqual
    ||| k == TokenKind::GreaterEqual
}

/// The operator a binary token denotes.
pub open spec fn binop_for(k: TokenKind) -> BinaryOp {
    match k {
        TokenKind::Plus => BinaryOp::Add,
        TokenKind::Minus => BinaryOp::Sub,
        TokenKind::Star => BinaryOp::Mul,
        TokenKind::Slash => BinaryOp::Div,
        TokenKind::EqualEqual => BinaryOp::Eq,
        TokenKind::BangEqual => BinaryOp::Ne,
        TokenKind::Less => BinaryOp::Lt,
        TokenKind::Greater => BinaryOp::Gt,
        TokenKind::LessEqual => BinaryOp::Le,
        _ => BinaryOp::Ge,
    }
}

/// A display name for a token kind, for diagnostics.
fn kind_name(k: TokenKind) -> (s: String)
{
    match k {
        TokenKind::Identifier => String::from_str("identifier"),
        TokenKind::Number => String::from_str("number"),
        TokenKind::String => String::from_str("string"),
        TokenKind::InterpolatedString => String::from_str("interpolated string"),
        TokenKind::Let => String::from_str("'let'"),
        TokenKind::Func => String::from_str("'func'"),
        TokenKind::If => String::from_str("'if'"),
        TokenKind::Else => String::from_str("'else'"),
        TokenKind::True => String::from_str("'true'"),
        TokenKind::False => String::from_str("'false'"),
        TokenKind::Match => String::from_str("'match'"),
        TokenKind::Fn => String::from_str("'fn'"),
        TokenKind::Async => String::from_str("'async'"),
        TokenKind::Await => String::from_str("'await'"),
        TokenKind::Import => String::from_str("'import'"),
        TokenKind::Enum => String::from_str("'enum'"),
        TokenKind::Power => String::from_str("'**'"),
        TokenKind::Equal => String::from_str("'='"),
        TokenKind::EqualEqual => String::from_str("'=='"),
        TokenKind::BangEqual => String::from_str("'!='"),
        TokenKind::GreaterEqual => String::from_str("'>='"),
        TokenKind::LessEqual => String::from_str("'<='"),
        TokenKind::Greater => String::from_str("'>'"),
        TokenKind::Less => String::from_str("'<'"),
        TokenKind::Plus => String::from_str("'+'"),
        TokenKind::Minus => String::from_str("'-'"),
        TokenKind::Star => String::from_str("'*'"),
        TokenKind::Slash => String::from_str("'/'"),
        TokenKind::Comma => String::from_str("','"),
        TokenKind::Semicolon => String::from_str("';'"),
        TokenKind::Colon => String::from_str("':'"),
        TokenKind::DoubleColon => String::from_str("'::'"),
        TokenKind::Bang => String::from_str("'!'"),
        TokenKind::LBrace => String::from_str("'{'"),
        TokenKind::RBrace => String::from_str("'}'"),
        TokenKind::LBracket => String::from_str("'['"),
        TokenKind::RBracket => String::from_str("']'"),
        TokenKind::LParen => String::from_str("'('"),
        TokenKind::RParen => String::from_str("')'"),
        TokenKind::Dot => String::from_str("'.'"),
        TokenKind::And => String::from_str("'&&'"),
        TokenKind::Or => String::from_str("'||'"),
        TokenKind::Arrow => String::from_str("'->'"),
        TokenKind::Question => String::from_str("'?'"),
        TokenKind::Reflect => String::from_str("'&'"),
        TokenKind::Pipe => String::from_str("'|'"),
        TokenKind::Pipeline => String::from_str("'|>'"),
        TokenKind::LArrow => String::from_str("'<-'"),
        TokenKind::Dollar => String::from_str("'$'"),
        TokenKind::Underscore => String::from_str("'_'"),
        TokenKind::Eof => String::from_str("end of input"),
        TokenKind::Error => String::from_str("invalid token"),
    }
}

/// The upcoming tokens form `atom operator atom` and parsing at the
/// given binding power consumes exactly the three: the operator binds
/// at least as strongly as asked, and what follows stops both the
/// operand and the loop.
pub open spec fn triple_cond(toks: Seq<Token>, i: int, min_prec: u8) -> bool {
    &&& is_atom_kind(toks[i].kind)
    &&& is_binop_kind(toks[i + 1].kind)
    &&& spec_prec(toks[i + 1].kind) >= min_prec
    &&& is_atom_kind(toks[i + 2].kind)
    &&& (spec_prec(toks[i + 3].kind) == 0 || (spec_prec(toks[i + 3].kind) < min_prec && spec_prec(
        toks[i + 3].kind,
    ) < spec_prec(toks[i + 1].kind) + 1))
}

/// The node is the exact binary tree of `atom operator atom` read at
/// position `i`.
pub open spec fn triple_node(toks: Seq<Token>, i: int, n: ASTNode) -> bool {
    n matches ASTNode::Binary { op, left, right } && op == binop_for(toks[i + 1].kind)
        && atom_node(toks[i], *left) && atom_node(toks[i + 2], *right)
}

/// The node is the exact tree of `atom op1 (atom op2 atom)` read at
/// position `i`: the first operand an atom, the second the whole inner
/// triple.
pub open spec fn penta_node(toks: Seq<Token>, i: int, n: ASTNode) -> bool {
    n matches ASTNode::Binary { op, left, right } && op == binop_for(toks[i + 1].kind)
        && atom_node(toks[i], *left) && triple_node(toks, i + 2, *right)
}

/// The upcoming tokens form `atom op1 atom op2 atom` where the second
/// operator binds tighter than the first, the first binds at least as
/// strongly as asked, and what follows stops the whole parse: the
/// classic precedence-nesting shape.
pub open spec fn penta_cond(toks: Seq<Token>, i: int, min_prec: u8) -> bool {
    &&& is_atom_kind(toks[i].kind)
    &&& is_binop_kind(toks[i + 1].kind)
    &&& spec_prec(toks[i + 1].kind) >= min_prec
    &&& triple_cond(toks, i + 2, (spec_prec(toks[i + 1].kind) + 1) as u8)
    &&& (spec_prec(toks[i + 5].kind) == 0 || spec_prec(toks[i + 5].kind) < min_prec)
}

/// The upcoming tokens open a match whose first arm joins a struct
/// pattern with another pattern by `|`: an atom scrutinee, then
/// `{ { field } | …`.
pub open spec fn struct_or_cond(toks: Seq<Token>, i: int) -> bool {
    &&& is_atom_kind(toks[i].kind)
    &&& toks[i + 1].kind == TokenKind::LBrace
    &&& toks[i + 2].kind == TokenKind::LBrace
    &&& toks[i + 3].kind == TokenKind::Identifier
    &&& toks[i + 4].kind == TokenKind::RBrace
    &&& toks[i + 5].kind == TokenKind::Pipe
}

/// The upcoming tokens declare a function of no parameters whose body
/// is one atom: `func name ( ) { atom }`.
pub open spec fn func_atom_cond(toks: Seq<Token>, i: int) -> bool {
    &&& toks[i].kind == TokenKind::Func
    &&& toks[i + 1].kind == TokenKind::Identifier
    &&& toks[i + 2].kind == TokenKind::LParen
    &&& toks[i + 3].kind == TokenKind::RParen
    &&& toks[i + 4].kind == TokenKind::LBrace
    &&& is_atom_kind(toks[i + 5].kind)
    &&& toks[i + 6].kind == TokenKind::RBrace
}

/// Copy one token, payload included.
fn clone_token(t: &Token) -> (r: Token)
    ensures
        r == *t,
{
    let value = match &t.value {
        TokenValue::Empty => TokenValue::Empty,
        TokenValue::Identifier(s) => TokenValue::Identifier(s.clone()),
        TokenValue::Number(q) => TokenValue::Number(*q),
        TokenValue::String(s) => TokenValue::String(s.clone()),
        TokenValue::Error(s) => TokenValue::Error(s.clone()),
    };
    Token { kind: t.kind, value, line: t.line }
}

/// The parser: the token stream, a cursor, and the error state.
pub struct Parser {
    pub tokens: Vec<Token>,
    pub pos: usize,
    /// True exactly when at least one diagnostic was emitted.
    pub had_error: bool,
    /// The diagnostics emitted so far, line-tagged, in order.
    pub diagnostics: Vec<String>,
}

impl Parser {
    /// The token stream is closed by one `Eof`, every earlier token is
    /// well formed, the cursor is inside the stream, and `had_error`
    /// agrees with the diagnostics.
    pub closed spec fn wf(self) -> bool {
        &&& self.tokens@.len() >= 1
        &&& self.pos < self.tokens@.len()
        &&& self.tokens@.last().kind == TokenKind::Eof
        &&& self.tokens@.last().value is Empty
        &&& forall|i: int|
            0 <= i < self.tokens@.len() - 1 ==> (#[trigger] self.tokens@[i]).kind
                != TokenKind::Eof
        &&& forall|i: int| 0 <= i < self.tokens@.len() - 1 ==> token_wf(#[trigger] self.tokens@[i])
        &&& self.had_error == (self.diagnostics@.len() > 0)
    }

    /// The token stream.
    pub closed spec fn toks(self) -> Seq<Token> {
        self.tokens@
    }

    /// The cursor position.
    pub closed spec fn at(self) -> int {
        self.pos as int
    }

    /// A parser over the tokens the lexer yields, with the sentinel
    /// appended and no error recorded: the token stream is pinned to
    /// the lexer's source by the same position chain the lexer
    /// guarantees.
    pub fn new(lexer: Lexer) -> (p: Parser)
        requires
            lexer.wf(),
        ensures
            p.wf(),
            p.at() == 0,
            !p.had_error,
            p.diagnostics@.len() == 0,
            exists|ps: Seq<int>|
                ps.len() > 0 && ps[0] == lexer.at() && stream_ok(lexer.chars(), ps, p.toks()),
    {
        let tokens = tokens_of(lexer);
        Parser { tokens, pos: 0, had_error: false, diagnostics: Vec::new() }
    }

    /// The kind of the token under the cursor.
    fn current_kind(&self) -> (k: TokenKind)
        requires
            self.wf(),
        ensures
            k == self.toks()[self.at()].kind,
    {
        self.tokens[self.pos].kind
    }

    /// The line of the token under the cursor.
    fn current_line(&self) -> (l: usize)
        requires
            self.wf(),
    {
        self.tokens[self.pos].line
    }

    /// Hand out the token under the cursor and move past it; the
    /// cursor never leaves the sentinel.
    fn advance(&mut self) -> (t: Token)
        requires
            old(self).wf(),
        ensures
            final(self).wf(),
            final(self).toks() == old(self).toks(),
            final(self).had_error == old(self).had_error,
            final(self).diagnostics == old(self).diagnostics,
            t == old(self).toks()[old(self).at()],
            t.kind != TokenKind::Eof ==> final(self).at() == old(self).at() + 1,
            t.kind == TokenKind::Eof ==> final(self).at() == old(self).at(),
            old(self).at() <= final(self).at() < final(self).toks().len(),
    {
        let t = clone_token(&self.tokens[self.pos]);
        if self.pos < self.tokens.len() - 1 {
            self.pos = self.pos + 1;
        }
        t
    }

    /// Record a diagnostic, tagged with the current line, and raise
    /// the error flag.
    fn error_here(&mut self, what: &str)
        requires
            old(self).wf(),
        ensures
            final(self).wf(),
            final(self).toks() == old(self).toks(),
            final(self).at() == old(self).at(),
            final(self).had_error,
    {
        let mut msg = String::from_str(what);
        msg.append(" at line ");
        let line = self.current_line();
        let digits = u64_to_string(line as u64);
        msg.append(digits.as_str());
        self.diagnostics.push(msg);
        self.had_error = true;
    }

    /// Consume the current token when it has the wanted kind; record
    /// an error otherwise.
    fn expect(&mut self, k: TokenKind) -> (r: bool)
        requires
            old(self).wf(),
            k != TokenKind::Eof,
        ensures
            final(self).wf(),
            final(self).toks() == old(self).toks(),
            old(self).had_error ==> final(self).had_error,
            r == (old(self).toks()[old(self).at()].kind == k),
            r ==> final(self).at() == old(self).at() + 1,
            r ==> final(self).had_error == old(self).had_error,
            !r ==> final(self).at() == old(self).at() && final(self).had_error,
    {
        if self.current_kind() == k {
            let _ = self.advance();
            true
        } else {
            let mut what = String::from_str("Expected ");
            let want = kind_name(k);
            what.append(want.as_str());
            what.append(", found ");
            let got = kind_name(self.current_kind());
            what.append(got.as_str());
            self.error_here(what.as_str());
            false
        }
    }

    /// Parse the whole token stream into a program.  An empty stream
    /// parses to an empty program with no error; every diagnostic
    /// recorded along the way is reflected in `had_error`.
    #[verifier::loop_isolation(false)]
    pub fn parse_program(&mut self) -> (prog: Program)
        requires
            old(self).wf(),
        ensures
            final(self).wf(),
            final(self).had_error <==> final(self).diagnostics@.len() > 0,
            old(self).had_error ==> final(self).had_error,
            (old(self).at() == old(self).toks().len() - 1 && !old(self).had_error) ==> (
            prog.nodes@.len() == 0 && !final(self).had_error),
            forall|i: int| 0 <= i < prog.nodes@.len() ==> stmt_node(#[trigger] prog.nodes@[i]),
            (!final(self).had_error && old(self).toks()[old(self).at()].kind != TokenKind::Eof
                && old(self).toks()[old(self).at()].kind != TokenKind::Semicolon) ==> prog.nodes@.len()
                >= 1,
            (is_atom_kind(old(self).toks()[old(self).at()].kind) && old(self).toks()[old(self).at()
                + 1].kind == TokenKind::Eof && !old(self).had_error) ==> (!final(self).had_error
                && prog.nodes@.len() == 1 && (prog.nodes@[0] matches ASTNode::ExpressionStatement {
                expression,
            } && atom_node(old(self).toks()[old(self).at()], *expression))),
            (penta_cond(old(self).toks(), old(self).at(), 1) && old(self).toks()[old(self).at()
                + 5].kind == TokenKind::Eof && !old(self).had_error) ==> (!final(self).had_error
                && prog.nodes@.len() == 1 && (prog.nodes@[0] matches ASTNode::ExpressionStatement {
                expression,
            } && penta_node(old(self).toks(), old(self).at(), *expression))),
            (old(self).toks()[old(self).at()].kind == TokenKind::Import && old(self).toks()[old(self).at() + 1].kind != TokenKind::String) ==> final(self).had_error,
            (old(self).toks()[old(self).at()].kind == TokenKind::Match && is_atom_kind(
                old(self).toks()[old(self).at() + 1].kind,
            ) && old(self).toks()[old(self).at() + 2].kind == TokenKind::LBrace && old(self).toks()[old(self).at() + 3].kind == TokenKind::LBrace && old(self).toks()[old(self).at()
                + 4].kind == TokenKind::RBrace) ==> final(self).had_error,
            (old(self).toks()[old(self).at()].kind == TokenKind::Match && struct_or_cond(
                old(self).toks(),
                old(self).at() + 1,
            )) ==> final(self).had_error,
    {
        let mut nodes: Vec<ASTNode> = Vec::new();
        let ghost entry_at = self.pos as int;
        let ghost entry_err = self.had_error;
        loop
            invariant
                self.wf(),
                self.toks() == old(self).toks(),
                entry_at <= self.pos as int,
                (entry_err ==> self.had_error),
                (entry_at == self.toks().len() - 1 && !entry_err) ==> (nodes@.len() == 0
                    && self.had_error == entry_err),
                forall|i: int| 0 <= i < nodes@.len() ==> stmt_node(#[trigger] nodes@[i]),
                (self.toks()[entry_at].kind != TokenKind::Eof && self.toks()[entry_at].kind
                    != TokenKind::Semicolon) ==> (nodes@.len() >= 1 || self.had_error
                    || self.pos as int == entry_at),
                (is_atom_kind(self.toks()[entry_at].kind) && self.toks()[entry_at + 1].kind
                    == TokenKind::Eof && !entry_err) ==> ((self.pos as int == entry_at
                    && nodes@.len() == 0 && !self.had_error) || (self.pos as int == entry_at + 1
                    && !self.had_error && nodes@.len() == 1 && (nodes@[0]
                    matches ASTNode::ExpressionStatement { expression } && atom_node(
                    self.toks()[entry_at],
                    *expression,
                )))),
                (penta_cond(self.toks(), entry_at, 1) && self.toks()[entry_at + 5].kind
                    == TokenKind::Eof && !entry_err) ==> ((self.pos as int == entry_at
                    && nodes@.len() == 0 && !self.had_error) || (self.pos as int == entry_at + 5
                    && !self.had_error && nodes@.len() == 1 && (nodes@[0]
                    matches ASTNode::ExpressionStatement { expression } && penta_node(
                    self.toks(),
                    entry_at,
                    *expression,
                )))),
                (self.toks()[entry_at].kind == TokenKind::Import && self.toks()[entry_at + 1].kind
                    != TokenKind::String) ==> (self.pos as int == entry_at || self.had_error),
                (self.toks()[entry_at].kind == TokenKind::Match && is_atom_kind(
                    self.toks()[entry_at + 1].kind,
                ) && self.toks()[entry_at + 2].kind == TokenKind::LBrace && self.toks()[entry_at
                    + 3].kind == TokenKind::LBrace && self.toks()[entry_at + 4].kind
                    == TokenKind::RBrace) ==> (self.pos as int == entry_at || self.had_error),
                (self.toks()[entry_at].kind == TokenKind::Match && struct_or_cond(
                    self.toks(),
                    entry_at + 1,
                )) ==> (self.pos as int == entry_at || self.had_error),
            decreases self.toks().len() - self.pos as int,
        {
            let k = self.current_kind();
            if let TokenKind::Eof = k {
                break ;
            }
            if let TokenKind::Semicolon = k {
                let _ = self.advance();
                continue ;
            }
            match self.statement() {
                Some(node) => {
                    nodes.push(node);
                },
                None => {
                    self.synchronize();
                },
            }
        }
        Program { nodes }
    }

    /// Parse the whole token stream, failing on the first recorded
    /// diagnostic: the result is the program exactly when no error was
    /// met.
    pub fn parse(&mut self) -> (r: Result<Program, String>)
        requires
            old(self).wf(),
        ensures
            final(self).wf(),
            r is Ok <==> !final(self).had_error,
            r matches Ok(prog) ==> (forall|i: int|
                0 <= i < prog.nodes@.len() ==> stmt_node(#[trigger] prog.nodes@[i])),
            r matches Ok(prog) ==> ((old(self).toks()[old(self).at()].kind != TokenKind::Eof
                && old(self).toks()[old(self).at()].kind != TokenKind::Semicolon)
                ==> prog.nodes@.len() >= 1),
            r matches Ok(prog) ==> ((old(self).at() == old(self).toks().len() - 1 && !old(self).had_error) ==> prog.nodes@.len() == 0),
            (old(self).at() == old(self).toks().len() - 1 && !old(self).had_error) ==> r is Ok,
            (is_atom_kind(old(self).toks()[old(self).at()].kind) && old(self).toks()[old(self).at()
                + 1].kind == TokenKind::Eof && !old(self).had_error) ==> (r matches Ok(prog)
                && prog.nodes@.len() == 1 && (prog.nodes@[0] matches ASTNode::ExpressionStatement {
                expression,
            } && atom_node(old(self).toks()[old(self).at()], *expression))),
            (penta_cond(old(self).toks(), old(self).at(), 1) && old(self).toks()[old(self).at()
                + 5].kind == TokenKind::Eof && !old(self).had_error) ==> (r matches Ok(prog)
                && prog.nodes@.len() == 1 && (prog.nodes@[0] matches ASTNode::ExpressionStatement {
                expression,
            } && penta_node(old(self).toks(), old(self).at(), *expression))),
            (old(self).toks()[old(self).at()].kind == TokenKind::Import && old(self).toks()[old(self).at() + 1].kind != TokenKind::String) ==> r is Err,
            (old(self).toks()[old(self).at()].kind == TokenKind::Match && is_atom_kind(
                old(self).toks()[old(self).at() + 1].kind,
            ) && old(self).toks()[old(self).at() + 2].kind == TokenKind::LBrace && old(self).toks()[old(self).at() + 3].kind == TokenKind::LBrace && old(self).toks()[old(self).at()
                + 4].kind == TokenKind::RBrace) ==> r is Err,
            (old(self).toks()[old(self).at()].kind == TokenKind::Match && struct_or_cond(
                old(self).toks(),
                old(self).at() + 1,
            )) ==> r is Err,
    {
        let program = self.parse_program();
        if self.had_error {
            if self.diagnostics.len() > 0 {
                Err(self.diagnostics[0].clone())
            } else {
                Err(String::from_str("Parse error"))
            }
        } else {
            Ok(program)
        }
    }

    /// Skip to the next statement boundary: past the next semicolon,
    /// or to the next statement keyword or the end.
    #[verifier::loop_isolation(false)]
    fn synchronize(&mut self)
        requires
            old(self).wf(),
        ensures
            final(self).wf(),
            final(self).toks() == old(self).toks(),
            old(self).had_error ==> final(self).had_error,
            old(self).at() <= final(self).at(),
    {
        loop
            invariant
                self.wf(),
                self.toks() == old(self).toks(),
                old(self).at() <= self.pos as int,
                old(self).had_error ==> self.had_error,
            decreases self.toks().len() - self.pos as int,
        {
            match self.current_kind() {
                TokenKind::Eof => {
                    return ;
                },
                TokenKind::Semicolon => {
                    let _ = self.advance();
                    return ;
                },
                TokenKind::Let | TokenKind::Func | TokenKind::Import | TokenKind::Enum
                    | TokenKind::Match => {
                    return ;
                },
                _ => {
                    let _ = self.advance();
                },
            }
        }
    }

    /// Parse one statement; the cursor moves forward whether or not it
    /// succeeds.
    fn statement(&mut self) -> (r: Option<ASTNode>)
        requires
            old(self).wf(),
            old(self).toks()[old(self).at()].kind != TokenKind::Eof,
        ensures
            final(self).wf(),
            final(self).toks() == old(self).toks(),
            old(self).had_error ==> final(self).had_error,
            old(self).at() < final(self).at(),
            r is None ==> final(self).had_error,
            r matches Some(n) ==> stmt_node(n),
            old(self).toks()[old(self).at()].kind == TokenKind::Import ==> (r matches Some(n)
                ==> n is Import),
            old(self).toks()[old(self).at()].kind == TokenKind::Import ==> (r is Some <==> old(self).toks()[old(self).at() + 1].kind == TokenKind::String),
            old(self).toks()[old(self).at()].kind != TokenKind::Import ==> (r matches Some(n)
                ==> !(n is Import)),
            old(self).toks()[old(self).at()].kind == TokenKind::Let ==> (r matches Some(n)
                ==> n is LetStatement),
            old(self).toks()[old(self).at()].kind == TokenKind::Func ==> (r matches Some(n)
                ==> n is FuncDeclaration),
            old(self).toks()[old(self).at()].kind == TokenKind::Enum ==> (r matches Some(n)
                ==> n is EnumDeclaration),
            old(self).toks()[old(self).at()].kind == TokenKind::Match ==> (r matches Some(n)
                ==> n is MatchStatement),
            (old(self).toks()[old(self).at()].kind != TokenKind::Let && old(self).toks()[old(self).at()].kind != TokenKind::Func && old(self).toks()[old(self).at()].kind
                != TokenKind::Import && old(self).toks()[old(self).at()].kind != TokenKind::Enum
                && old(self).toks()[old(self).at()].kind != TokenKind::Match) ==> (r matches Some(n) ==> n is ExpressionStatement),
            (is_atom_kind(old(self).toks()[old(self).at()].kind) && spec_prec(
                old(self).toks()[old(self).at() + 1].kind,
            ) == 0) ==> (r matches Some(n) && (n matches ASTNode::ExpressionStatement {
                expression,
            } && atom_node(old(self).toks()[old(self).at()], *expression)) && final(self).at()
                == old(self).at() + 1 && final(self).had_error == old(self).had_error),
            penta_cond(old(self).toks(), old(self).at(), 1) ==> (r matches Some(n) && (n
                matches ASTNode::ExpressionStatement { expression } && penta_node(
                old(self).toks(),
                old(self).at(),
                *expression,
            )) && final(self).at() == old(self).at() + 5 && final(self).had_error == old(self).had_error),
            (old(self).toks()[old(self).at()].kind == TokenKind::Match && is_atom_kind(
                old(self).toks()[old(self).at() + 1].kind,
            ) && old(self).toks()[old(self).at() + 2].kind == TokenKind::LBrace && old(self).toks()[old(self).at() + 3].kind == TokenKind::LBrace && old(self).toks()[old(self).at()
                + 4].kind == TokenKind::RBrace) ==> r is None,
            (old(self).toks()[old(self).at()].kind == TokenKind::Match && struct_or_cond(
                old(self).toks(),
                old(self).at() + 1,
            )) ==> r is None,
        decreases old(self).toks().len() - old(self).at(), 7int,
    {
        match self.current_kind() {
            TokenKind::Let => self.let_statement(),
            TokenKind::Func => self.func_statement(),
            TokenKind::Import => self.import_statement(),
            TokenKind::Enum => self.enum_statement(),
            TokenKind::Match => self.match_statement(),
            TokenKind::Error => {
                let t = self.advance();
                let mut msg = String::from_str("Lexical error: ");
                if let TokenValue::Error(detail) = t.value {
                    msg.append(detail.as_str());
                }
                self.diagnostics.push(msg);
                self.had_error = true;
                None
            },
            _ => {
                let e = self.parse_expression(1)?;
                Some(ASTNode::ExpressionStatement { expression: Box::new(e) })
            },
        }
    }

    /// `let name = expr`.
    fn let_statement(&mut self) -> (r: Option<ASTNode>)
        requires
            old(self).wf(),
            old(self).toks()[old(self).at()].kind == TokenKind::Let,
        ensures
            final(self).wf(),
            final(self).toks() == old(self).toks(),
            old(self).had_error ==> final(self).had_error,
            old(self).at() < final(self).at(),
            r is None ==> final(self).had_error,
            r matches Some(n) ==> (n matches ASTNode::LetStatement { name, initializer } && (old(self).toks()[old(self).at() + 1].value matches TokenValue::Identifier(nm) && name@
                == nm@)),
            r is Some ==> old(self).toks()[old(self).at() + 1].kind == TokenKind::Identifier && old(self).toks()[old(self).at() + 2].kind == TokenKind::Equal,
        decreases old(self).toks().len() - old(self).at(), 5int,
    {
        let _ = self.advance();
        let t = self.advance();
        let name = if let TokenValue::Identifier(nm) = t.value {
            nm
        } else {
            self.error_here("Expected identifier after let");
            return None;
        };
        if !self.expect(TokenKind::Equal) {
            return None;
        }
        let value = self.parse_expression(1)?;
        Some(ASTNode::LetStatement { name, initializer: Box::new(value) })
    }

    /// `func name(params) { body }`.
    #[verifier::loop_isolation(false)]
    fn func_statement(&mut self) -> (r: Option<ASTNode>)
        requires
            old(self).wf(),
            old(self).toks()[old(self).at()].kind == TokenKind::Func,
        ensures
            final(self).wf(),
            final(self).toks() == old(self).toks(),
            old(self).had_error ==> final(self).had_error,
            old(self).at() < final(self).at(),
            r is None ==> final(self).had_error,
            r matches Some(n) ==> (n matches ASTNode::FuncDeclaration { name, params, body } && (
            old(self).toks()[old(self).at() + 1].value matches TokenValue::Identifier(nm) && name@
                == nm@)),
            func_atom_cond(old(self).toks(), old(self).at()) ==> (r matches Some(n) && (n
                matches ASTNode::FuncDeclaration { name, params, body } && params@.len() == 0
                && body@.len() == 1 && (body@[0] matches ASTNode::ExpressionStatement {
                expression,
            } && atom_node(old(self).toks()[old(self).at() + 5], *expression))) && final(self).at()
                == old(self).at() + 7),
        decreases old(self).toks().len() - old(self).at(), 5int,
    {
        let ghost fac = func_atom_cond(old(self).toks(), old(self).at());
        let _ = self.advance();
        let t = self.advance();
        let name = if let TokenValue::Identifier(nm) = t.value {
            nm
        } else {
            self.error_here("Expected identifier after func");
            return None;
        };
        if !self.expect(TokenKind::LParen) {
            return None;
        }
        let mut params: Vec<String> = Vec::new();
        loop
            invariant
                self.wf(),
                self.toks() == old(self).toks(),
                old(self).at() < self.pos as int,
                old(self).had_error ==> self.had_error,
                fac ==> (self.pos as int == old(self).at() + 3 && params@.len() == 0
                    && self.had_error == old(self).had_error),
            decreases self.toks().len() - self.pos as int,
        {
            match self.current_kind() {
                TokenKind::RParen => {
                    break ;
                },
                TokenKind::Identifier => {
                    let pt = self.advance();
                    if let TokenValue::Identifier(pn) = pt.value {
                        params.push(pn);
                    }
                    if self.current_kind() == TokenKind::Comma {
                        let _ = self.advance();
                    }
                },
                _ => {
                    self.error_here("Expected parameter name");
                    return None;
                },
            }
        }
        if !self.expect(TokenKind::RParen) {
            return None;
        }
        let body = self.parse_block()?;
        Some(ASTNode::FuncDeclaration { name, params, body })
    }

    /// `import "path"`; any other operand is a parse error.
    fn import_statement(&mut self) -> (r: Option<ASTNode>)
        requires
            old(self).wf(),
            old(self).toks()[old(self).at()].kind == TokenKind::Import,
        ensures
            final(self).wf(),
            final(self).toks() == old(self).toks(),
            old(self).had_error ==> final(self).had_error,
            old(self).at() < final(self).at(),
            r is None ==> final(self).had_error,
            r is Some <==> old(self).toks()[old(self).at() + 1].kind == TokenKind::String,
            r matches Some(n) ==> (n matches ASTNode::Import { path } && (
            old(self).toks()[old(self).at() + 1].value matches TokenValue::String(s) && path@
                == s@)),
        decreases old(self).toks().len() - old(self).at(), 5int,
    {
        let _ = self.advance();
        if self.current_kind() == TokenKind::String {
            let t = self.advance();
            if let TokenValue::String(path) = t.value {
                return Some(ASTNode::Import { path });
            }
        }
        self.error_here("Expected module path string after import");
        None
    }

    /// `enum Name { Variant, Variant { field, field } }`.
    #[verifier::loop_isolation(false)]
    fn enum_statement(&mut self) -> (r: Option<ASTNode>)
        requires
            old(self).wf(),
            old(self).toks()[old(self).at()].kind == TokenKind::Enum,
        ensures
            final(self).wf(),
            final(self).toks() == old(self).toks(),
            old(self).had_error ==> final(self).had_error,
            old(self).at() < final(self).at(),
            r is None ==> final(self).had_error,
            r matches Some(n) ==> (n matches ASTNode::EnumDeclaration { name, variants } && (old(self).toks()[old(self).at() + 1].value matches TokenValue::Identifier(nm) && name@
                == nm@)),
        decreases old(self).toks().len() - old(self).at(), 5int,
    {
        let _ = self.advance();
        let t = self.advance();
        let name = if let TokenValue::Identifier(nm) = t.value {
            nm
        } else {
            self.error_here("Expected identifier after enum");
            return None;
        };
        if !self.expect(TokenKind::LBrace) {
            return None;
        }
        let mut variants: Vec<EnumVariant> = Vec::new();
        loop
            invariant
                self.wf(),
                self.toks() == old(self).toks(),
                old(self).at() < self.pos as int,
                old(self).had_error ==> self.had_error,
            decreases self.toks().len() - self.pos as int,
        {
            match self.current_kind() {
                TokenKind::RBrace => {
                    break ;
                },
                TokenKind::Identifier => {
                    let ghost it0 = self.pos as int;
                    let vt = self.advance();
                    let vname = if let TokenValue::Identifier(vn) = vt.value {
                        vn
                    } else {
                        self.error_here("Expected variant name");
                        return None;
                    };
                    let mut fields: Vec<String> = Vec::new();
                    if self.current_kind() == TokenKind::LBrace {
                        let _ = self.advance();
                        loop
                            invariant
                                self.wf(),
                                self.toks() == old(self).toks(),
                                old(self).at() < self.pos as int,
                                it0 < self.pos as int,
                                old(self).had_error ==> self.had_error,
                            decreases self.toks().len() - self.pos as int,
                        {
                            match self.current_kind() {
                                TokenKind::RBrace => {
                                    break ;
                                },
                                TokenKind::Identifier => {
                                    let ft = self.advance();
                                    if let TokenValue::Identifier(fname) = ft.value {
                                        fields.push(fname);
                                    }
                                    if self.current_kind() == TokenKind::Comma {
                                        let _ = self.advance();
                                    }
                                },
                                _ => {
                                    self.error_here("Expected field name");
                                    return None;
                                },
                            }
                        }
                        if !self.expect(TokenKind::RBrace) {
                            return None;
                        }
                    }
                    variants.push(EnumVariant { name: vname, fields });
                    if self.current_kind() == TokenKind::Comma {
                        let _ = self.advance();
                    }
                },
                _ => {
                    self.error_here("Expected variant name");
                    return None;
                },
            }
        }
        if !self.expect(TokenKind::RBrace) {
            return None;
        }
        Some(ASTNode::EnumDeclaration { name, variants })
    }

    /// `match value { pattern (| pattern)* -> body, ... }`.
    fn match_statement(&mut self) -> (r: Option<ASTNode>)
        requires
            old(self).wf(),
            old(self).toks()[old(self).at()].kind == TokenKind::Match,
        ensures
            final(self).wf(),
            final(self).toks() == old(self).toks(),
            old(self).had_error ==> final(self).had_error,
            old(self).at() < final(self).at(),
            r is None ==> final(self).had_error,
            r matches Some(n) ==> n is MatchStatement,
            (is_atom_kind(old(self).toks()[old(self).at() + 1].kind) && old(self).toks()[old(self).at() + 2].kind == TokenKind::LBrace && old(self).toks()[old(self).at() + 3].kind
                == TokenKind::LBrace && old(self).toks()[old(self).at() + 4].kind
                == TokenKind::RBrace) ==> r is None,
            struct_or_cond(old(self).toks(), old(self).at() + 1) ==> r is None,
        decreases old(self).toks().len() - old(self).at(), 6int,
    {
        let _ = self.advance();
        self.match_tail()
    }

    /// The rest of a `match`, after its keyword was consumed: the
    /// scrutinee and the arm list.  A struct pattern may not be joined
    /// with any other pattern by `|`.
    #[verifier::loop_isolation(false)]
    fn match_tail(&mut self) -> (r: Option<ASTNode>)
        requires
            old(self).wf(),
        ensures
            final(self).wf(),
            final(self).toks() == old(self).toks(),
            old(self).had_error ==> final(self).had_error,
            old(self).at() <= final(self).at(),
            r is None ==> final(self).had_error,
            r matches Some(n) ==> (n matches ASTNode::MatchStatement { value, arms } && arms_wf(
                arms@,
            )),
            (is_atom_kind(old(self).toks()[old(self).at()].kind) && old(self).toks()[old(self).at()
                + 1].kind == TokenKind::LBrace && old(self).toks()[old(self).at() + 2].kind
                == TokenKind::LBrace && old(self).toks()[old(self).at() + 3].kind
                == TokenKind::RBrace) ==> r is None,
            struct_or_cond(old(self).toks(), old(self).at()) ==> r is None,
        decreases old(self).toks().len() - old(self).at(), 5int,
    {
        let value = self.parse_expression(1)?;
        if !self.expect(TokenKind::LBrace) {
            return None;
        }
        let mut arms: Vec<MatchArm> = Vec::new();
        loop
            invariant
                self.wf(),
                self.toks() == old(self).toks(),
                old(self).at() < self.pos as int,
                old(self).had_error ==> self.had_error,
                arms_wf(arms@),
                (is_atom_kind(old(self).toks()[old(self).at()].kind) && old(self).toks()[old(self).at() + 1].kind == TokenKind::LBrace && old(self).toks()[old(self).at() + 2].kind
                    == TokenKind::LBrace && old(self).toks()[old(self).at() + 3].kind
                    == TokenKind::RBrace) ==> self.pos as int == old(self).at() + 2,
                struct_or_cond(old(self).toks(), old(self).at()) ==> self.pos as int == old(self).at() + 2,
            decreases self.toks().len() - self.pos as int,
        {
            match self.current_kind() {
                TokenKind::RBrace => {
                    break ;
                },
                TokenKind::Eof => {
                    self.error_here("Unterminated match");
                    return None;
                },
                _ => {
                    let ghost it0 = self.pos as int;
                    let mut patterns: Vec<ASTNode> = Vec::new();
                    let first = self.parse_pattern()?;
                    patterns.push(first);
                    loop
                        invariant
                            self.wf(),
                            self.toks() == old(self).toks(),
                            old(self).at() < self.pos as int,
                            it0 < self.pos as int,
                            old(self).had_error ==> self.had_error,
                            patterns@.len() >= 1,
                            forall|q: int|
                                0 <= q < patterns@.len() ==> pattern_is_valid(
                                    #[trigger] patterns@[q],
                                ),
                            struct_or_cond(old(self).toks(), old(self).at()) ==> (patterns@[0]
                                is StructDeconstructPattern && (patterns@.len() >= 2
                                || self.pos as int == old(self).at() + 5)),
                        decreases self.toks().len() - self.pos as int,
                    {
                        if self.current_kind() == TokenKind::Pipe {
                            let _ = self.advance();
                            let next = self.parse_pattern()?;
                            patterns.push(next);
                        } else {
                            break ;
                        }
                    }
                    if patterns.len() > 1 {
                        let mut has_struct = false;
                        let mut i: usize = 0;
                        while i < patterns.len()
                            invariant
                                0 <= i <= patterns@.len(),
                                !has_struct ==> (forall|q: int|
                                    0 <= q < i ==> !((#[trigger] patterns@[q])
                                        is StructDeconstructPattern)),
                            decreases patterns@.len() - i,
                        {
                            if matches!(patterns[i], ASTNode::StructDeconstructPattern { .. }) {
                                has_struct = true;
                            }
                            i = i + 1;
                        }
                        if has_struct {
                            self.error_here(
                                "Struct patterns cannot be combined with | in a match arm",
                            );
                            return None;
                        }
                    }
                    if !self.expect(TokenKind::Arrow) {
                        return None;
                    }
                    let body = self.parse_expression(1)?;
                    let ghost arms0 = arms@;
                    let arm = MatchArm { patterns, body: Box::new(body) };
                    proof {
                        assert(arm.patterns@.len() >= 1);
                    }
                    arms.push(arm);
                    proof {
                        assert forall|a: int| 0 <= a < arms@.len() implies ((
                        #[trigger] arms@[a]).patterns@.len() >= 1 && (forall|q: int|
                            0 <= q < arms@[a].patterns@.len() ==> pattern_is_valid(
                                #[trigger] arms@[a].patterns@[q],
                            )) && (arms@[a].patterns@.len() > 1 ==> (forall|q: int|
                            0 <= q < arms@[a].patterns@.len() ==> !((
                            #[trigger] arms@[a].patterns@[q]) is StructDeconstructPattern)))) by {
                            if a < arms0.len() {
                                assert(arms@[a] == arms0[a]);
                            } else {
                                assert(arms@[a] == arm);
                            }
                        }
                    }
                    if self.current_kind() == TokenKind::Comma {
                        let _ = self.advance();
                    }
                },
            }
        }
        if !self.expect(TokenKind::RBrace) {
            return None;
        }
        Some(ASTNode::MatchStatement { value: Box::new(value), arms })
    }

    /// One pattern of a match arm: `_`, a literal, or a struct
    /// destructuring `{ field, field }` with at least one field and no
    /// field assignments.
    #[verifier::loop_isolation(false)]
    fn parse_pattern(&mut self) -> (r: Option<ASTNode>)
        requires
            old(self).wf(),
        ensures
            final(self).wf(),
            final(self).toks() == old(self).toks(),
            old(self).had_error ==> final(self).had_error,
            old(self).at() <= final(self).at(),
            r is Some ==> old(self).at() < final(self).at(),
            r is None ==> final(self).had_error,
            r matches Some(n) ==> pattern_is_valid(n),
            old(self).toks()[old(self).at()].kind == TokenKind::Underscore ==> (r matches Some(n)
                && n is WildcardPattern && final(self).at() == old(self).at() + 1),
            old(self).toks()[old(self).at()].kind == TokenKind::Number ==> (r matches Some(n) && (
            n matches ASTNode::Literal { value } && (value matches LiteralValue::Number(q) && (old(self).toks()[old(self).at()].value matches TokenValue::Number(q2) && q == q2))) && final(self).at() == old(self).at() + 1),
            old(self).toks()[old(self).at()].kind == TokenKind::String ==> (r matches Some(n) && (
            n matches ASTNode::Literal { value } && (value matches LiteralValue::String(s) && (old(self).toks()[old(self).at()].value matches TokenValue::String(sv) && s@ == sv@))) && final(self).at() == old(self).at() + 1),
            old(self).toks()[old(self).at()].kind == TokenKind::True ==> (r matches Some(n) && n
                == (ASTNode::Literal { value: LiteralValue::Boolean(true) }) && final(self).at()
                == old(self).at() + 1),
            old(self).toks()[old(self).at()].kind == TokenKind::False ==> (r matches Some(n) && n
                == (ASTNode::Literal { value: LiteralValue::Boolean(false) }) && final(self).at()
                == old(self).at() + 1),
            (old(self).toks()[old(self).at()].kind == TokenKind::LBrace && old(self).toks()[old(self).at() + 1].kind == TokenKind::RBrace) ==> r is None,
            (old(self).toks()[old(self).at()].kind == TokenKind::LBrace && old(self).toks()[old(self).at() + 1].kind == TokenKind::Identifier && old(self).toks()[old(self).at()
                + 2].kind == TokenKind::Equal) ==> r is None,
            r matches Some(n) ==> (n matches ASTNode::StructDeconstructPattern { field_names }
                ==> field_names@[0] == old(self).toks()[old(self).at() + 1]),
            (old(self).toks()[old(self).at()].kind == TokenKind::LBrace && old(self).toks()[old(self).at() + 1].kind == TokenKind::Identifier && old(self).toks()[old(self).at()
                + 2].kind == TokenKind::RBrace) ==> (r matches Some(n) && (n
                matches ASTNode::StructDeconstructPattern { field_names } && field_names@.len()
                == 1 && field_names@[0] == old(self).toks()[old(self).at() + 1]) && final(self).at()
                == old(self).at() + 3 && final(self).had_error == old(self).had_error),
        decreases old(self).toks().len() - old(self).at(), 1int,
    {
        match self.current_kind() {
            TokenKind::Underscore => {
                let _ = self.advance();
                Some(ASTNode::WildcardPattern)
            },
            TokenKind::Number => {
                let t = self.advance();
                if let TokenValue::Number(q) = t.value {
                    Some(ASTNode::Literal { value: LiteralValue::Number(q) })
                } else {
                    self.error_here("Malformed number token");
                    None
                }
            },
            TokenKind::String => {
                let t = self.advance();
                if let TokenValue::String(sv) = t.value {
                    Some(ASTNode::Literal { value: LiteralValue::String(sv) })
                } else {
                    self.error_here("Malformed string token");
                    None
                }
            },
            TokenKind::True => {
                let _ = self.advance();
                Some(ASTNode::Literal { value: LiteralValue::Boolean(true) })
            },
            TokenKind::False => {
                let _ = self.advance();
                Some(ASTNode::Literal { value: LiteralValue::Boolean(false) })
            },
            TokenKind::LBrace => {
                let _ = self.advance();
                if self.current_kind() == TokenKind::RBrace {
                    self.error_here("Empty struct pattern");
                    return None;
                }
                let mut field_names: Vec<Token> = Vec::new();
                loop
                    invariant
                        self.wf(),
                        self.toks() == old(self).toks(),
                        old(self).at() + 1 <= self.pos as int,
                        old(self).had_error ==> self.had_error,
                        forall|q: int|
                            0 <= q < field_names@.len() ==> (#[trigger] field_names@[q]).value
                                is Identifier,
                        field_names@.len() >= 1 || self.pos as int == old(self).at() + 1,
                        field_names@.len() >= 1 ==> field_names@[0] == old(self).toks()[old(self).at() + 1],
                        (old(self).toks()[old(self).at() + 1].kind == TokenKind::Identifier && old(self).toks()[old(self).at() + 2].kind == TokenKind::Equal) ==> self.pos as int
                            == old(self).at() + 1,
                        (old(self).toks()[old(self).at() + 1].kind == TokenKind::Identifier && old(self).toks()[old(self).at() + 2].kind == TokenKind::RBrace) ==> ((self.pos as int
                            == old(self).at() + 1 && field_names@.len() == 0
                            && self.had_error == old(self).had_error) || (self.pos as int == old(self).at() + 2 && field_names@.len() == 1 && field_names@[0] == old(self).toks()[old(self).at() + 1] && self.had_error == old(self).had_error)),
                    decreases self.toks().len() - self.pos as int,
                {
                    match self.current_kind() {
                        TokenKind::RBrace => {
                            break ;
                        },
                        TokenKind::Identifier => {
                            let t = self.advance();
                            field_names.push(t);
                            match self.current_kind() {
                                TokenKind::Comma => {
                                    let _ = self.advance();
                                },
                                TokenKind::RBrace => {},
                                TokenKind::Equal => {
                                    self.error_here(
                                        "Field assignments are not allowed in struct patterns",
                                    );
                                    return None;
                                },
                                _ => {
                                    self.error_here("Expected , or } in struct pattern");
                                    return None;
                                },
                            }
                        },
                        _ => {
                            self.error_here("Expected field name in struct pattern");
                            return None;
                        },
                    }
                }
                if !self.expect(TokenKind::RBrace) {
                    return None;
                }
                Some(ASTNode::StructDeconstructPattern { field_names })
            },
            _ => {
                self.error_here("Unexpected token in pattern");
                None
            },
        }
    }

    /// `{ stmt* }`, the body of a function or an `if` branch.
    #[verifier::loop_isolation(false)]
    fn parse_block(&mut self) -> (r: Option<Vec<ASTNode>>)
        requires
            old(self).wf(),
        ensures
            final(self).wf(),
            final(self).toks() == old(self).toks(),
            old(self).had_error ==> final(self).had_error,
            old(self).at() <= final(self).at(),
            r is Some ==> old(self).at() < final(self).at(),
            r is None ==> final(self).had_error,
            (old(self).toks()[old(self).at()].kind == TokenKind::LBrace && is_atom_kind(
                old(self).toks()[old(self).at() + 1].kind,
            ) && old(self).toks()[old(self).at() + 2].kind == TokenKind::RBrace) ==> (r
                matches Some(body) && body@.len() == 1 && (body@[0]
                matches ASTNode::ExpressionStatement { expression } && atom_node(
                old(self).toks()[old(self).at() + 1],
                *expression,
            )) && final(self).at() == old(self).at() + 3 && final(self).had_error == old(self).had_error),
        decreases old(self).toks().len() - old(self).at(), 5int,
    {
        if !self.expect(TokenKind::LBrace) {
            return None;
        }
        let ghost blk = old(self).toks()[old(self).at()].kind == TokenKind::LBrace
            && is_atom_kind(old(self).toks()[old(self).at() + 1].kind) && old(self).toks()[old(self).at() + 2].kind == TokenKind::RBrace;
        let mut body: Vec<ASTNode> = Vec::new();
        loop
            invariant
                self.wf(),
                self.toks() == old(self).toks(),
                old(self).at() < self.pos as int,
                old(self).had_error ==> self.had_error,
                blk ==> ((self.pos as int == old(self).at() + 1 && body@.len() == 0
                    && self.had_error == old(self).had_error) || (self.pos as int == old(self).at()
                    + 2 && self.had_error == old(self).had_error && body@.len() == 1 && (body@[0]
                    matches ASTNode::ExpressionStatement { expression } && atom_node(
                    old(self).toks()[old(self).at() + 1],
                    *expression,
                )))),
            decreases self.toks().len() - self.pos as int,
        {
            match self.current_kind() {
                TokenKind::RBrace => {
                    break ;
                },
                TokenKind::Eof => {
                    self.error_here("Unterminated block");
                    return None;
                },
                TokenKind::Semicolon => {
                    let _ = self.advance();
                },
                _ => {
                    let stmt = self.statement()?;
                    body.push(stmt);
                },
            }
        }
        if !self.expect(TokenKind::RBrace) {
            return None;
        }
        Some(body)
    }

    /// Parse an expression whose operators bind at least `min_prec`.
    #[verifier::loop_isolation(false)]
    pub fn parse_expression(&mut self, min_prec: u8) -> (r: Option<ASTNode>)
        requires
            old(self).wf(),
        ensures
            final(self).wf(),
            final(self).toks() == old(self).toks(),
            old(self).had_error ==> final(self).had_error,
            old(self).at() <= final(self).at(),
            r is Some ==> old(self).at() < final(self).at(),
            old(self).toks()[old(self).at()].kind != TokenKind::Eof ==> old(self).at() < final(self).at(),
            r is None ==> final(self).had_error,
            (is_atom_kind(old(self).toks()[old(self).at()].kind) && (spec_prec(
                old(self).toks()[old(self).at() + 1].kind,
            ) < min_prec || spec_prec(old(self).toks()[old(self).at() + 1].kind) == 0)) ==> (r
                matches Some(n) && atom_node(old(self).toks()[old(self).at()], n) && final(self).at()
                == old(self).at() + 1 && final(self).had_error == old(self).had_error),
            triple_cond(old(self).toks(), old(self).at(), min_prec) ==> (r matches Some(n)
                && triple_node(old(self).toks(), old(self).at(), n) && final(self).at() == old(self).at() + 3 && final(self).had_error == old(self).had_error),
            penta_cond(old(self).toks(), old(self).at(), min_prec) ==> (r matches Some(n)
                && penta_node(old(self).toks(), old(self).at(), n) && final(self).at() == old(self).at() + 5 && final(self).had_error == old(self).had_error),
        decreases old(self).toks().len() - old(self).at(), 3int,
    {
        let mut left = self.nud()?;
        loop
            invariant
                self.wf(),
                self.toks() == old(self).toks(),
                old(self).at() < self.pos as int,
                old(self).had_error ==> self.had_error,
                (is_atom_kind(old(self).toks()[old(self).at()].kind) && (spec_prec(
                    old(self).toks()[old(self).at() + 1].kind,
                ) < min_prec || spec_prec(old(self).toks()[old(self).at() + 1].kind) == 0)) ==> (
                self.pos as int == old(self).at() + 1 && atom_node(
                    old(self).toks()[old(self).at()],
                    left,
                ) && self.had_error == old(self).had_error),
                triple_cond(old(self).toks(), old(self).at(), min_prec) ==> ((self.pos as int
                    == old(self).at() + 1 && atom_node(old(self).toks()[old(self).at()], left)
                    && self.had_error == old(self).had_error) || (self.pos as int == old(self).at()
                    + 3 && triple_node(old(self).toks(), old(self).at(), left) && self.had_error
                    == old(self).had_error)),
                penta_cond(old(self).toks(), old(self).at(), min_prec) ==> ((self.pos as int
                    == old(self).at() + 1 && atom_node(old(self).toks()[old(self).at()], left)
                    && self.had_error == old(self).had_error) || (self.pos as int == old(self).at()
                    + 5 && penta_node(old(self).toks(), old(self).at(), left) && self.had_error
                    == old(self).had_error)),
            decreases self.toks().len() - self.pos as int,
        {
            let p = self.prec_of_current();
            if p >= 1 && p >= min_prec {
                match self.led(left) {
                    Some(next) => {
                        left = next;
                    },
                    None => {
                        return None;
                    },
                }
            } else {
                break ;
            }
        }
        Some(left)
    }

    /// The binding power of the token under the cursor.
    fn prec_of_current(&self) -> (p: u8)
        requires
            self.wf(),
        ensures
            p == spec_prec(self.toks()[self.at()].kind),
    {
        match self.current_kind() {
            TokenKind::Pipeline => 1,
            TokenKind::LArrow => 1,
            TokenKind::EqualEqual => 2,
            TokenKind::BangEqual => 2,
            TokenKind::Less => 2,
            TokenKind::Greater => 2,
            TokenKind::LessEqual => 2,
            TokenKind::GreaterEqual => 2,
            TokenKind::Plus => 3,
            TokenKind::Minus => 3,
            TokenKind::Star => 4,
            TokenKind::Slash => 4,
            TokenKind::LParen => 5,
            TokenKind::LBracket => 5,
            TokenKind::Dot => 5,
            _ => 0,
        }
    }

    /// The rest of an array literal, after its opening bracket was
    /// consumed: elements separated by commas, a trailing comma
    /// allowed, empty permitted.
    #[verifier::loop_isolation(false)]
    fn array_tail(&mut self) -> (r: Option<ASTNode>)
        requires
            old(self).wf(),
        ensures
            final(self).wf(),
            final(self).toks() == old(self).toks(),
            old(self).had_error ==> final(self).had_error,
            old(self).at() <= final(self).at(),
            r is Some ==> old(self).at() < final(self).at(),
            r is None ==> final(self).had_error,
            r matches Some(n) ==> n is Array,
            (is_atom_kind(old(self).toks()[old(self).at()].kind) && old(self).toks()[old(self).at()
                + 1].kind == TokenKind::RBracket) ==> (r matches Some(n) && (n
                matches ASTNode::Array { elements } && elements@.len() == 1 && atom_node(
                old(self).toks()[old(self).at()],
                elements@[0],
            )) && final(self).at() == old(self).at() + 2),
            (is_atom_kind(old(self).toks()[old(self).at()].kind) && old(self).toks()[old(self).at()
                + 1].kind == TokenKind::Comma && old(self).toks()[old(self).at() + 2].kind
                == TokenKind::RBracket) ==> (r matches Some(n) && (n matches ASTNode::Array {
                elements,
            } && elements@.len() == 1 && atom_node(old(self).toks()[old(self).at()], elements@[0]))
                && final(self).at() == old(self).at() + 3),
        decreases old(self).toks().len() - old(self).at(), 4int,
    {
        let ghost plain = is_atom_kind(old(self).toks()[old(self).at()].kind) && old(self).toks()[
            old(self).at() + 1].kind == TokenKind::RBracket;
        let ghost trailing = is_atom_kind(old(self).toks()[old(self).at()].kind) && old(self).toks()[old(self).at() + 1].kind == TokenKind::Comma && old(self).toks()[old(self).at()
            + 2].kind == TokenKind::RBracket;
        let mut elements: Vec<ASTNode> = Vec::new();
        loop
            invariant
                self.wf(),
                self.toks() == old(self).toks(),
                old(self).at() <= self.pos as int,
                old(self).had_error ==> self.had_error,
                plain ==> ((self.pos as int == old(self).at() && elements@.len() == 0) || (
                self.pos as int == old(self).at() + 1 && elements@.len() == 1 && atom_node(
                    old(self).toks()[old(self).at()],
                    elements@[0],
                ))),
                trailing ==> ((self.pos as int == old(self).at() && elements@.len() == 0) || (
                self.pos as int == old(self).at() + 2 && elements@.len() == 1 && atom_node(
                    old(self).toks()[old(self).at()],
                    elements@[0],
                ))),
            decreases self.toks().len() - self.pos as int,
        {
            match self.current_kind() {
                TokenKind::RBracket => {
                    break ;
                },
                TokenKind::Eof => {
                    self.error_here("Unterminated array literal");
                    return None;
                },
                _ => {
                    let e = self.parse_expression(1)?;
                    elements.push(e);
                    if self.current_kind() == TokenKind::Comma {
                        let _ = self.advance();
                    } else if self.current_kind() != TokenKind::RBracket {
                        self.error_here("Expected , or ] in array literal");
                        return None;
                    }
                },
            }
        }
        if !self.expect(TokenKind::RBracket) {
            return None;
        }
        Some(ASTNode::Array { elements })
    }

    /// The rest of a struct literal, after its opening brace was
    /// consumed: `name = expr` fields separated by commas, a trailing
    /// comma allowed, empty permitted.
    #[verifier::loop_isolation(false)]
    fn struct_literal_tail(&mut self) -> (r: Option<ASTNode>)
        requires
            old(self).wf(),
        ensures
            final(self).wf(),
            final(self).toks() == old(self).toks(),
            old(self).had_error ==> final(self).had_error,
            old(self).at() <= final(self).at(),
            r is Some ==> old(self).at() < final(self).at(),
            r is None ==> final(self).had_error,
            r matches Some(n) ==> n is StructLiteral,
        decreases old(self).toks().len() - old(self).at(), 4int,
    {
        let mut fields: Vec<(String, ASTNode)> = Vec::new();
        loop
            invariant
                self.wf(),
                self.toks() == old(self).toks(),
                old(self).at() <= self.pos as int,
                old(self).had_error ==> self.had_error,
            decreases self.toks().len() - self.pos as int,
        {
            match self.current_kind() {
                TokenKind::RBrace => {
                    break ;
                },
                TokenKind::Identifier => {
                    let ft = self.advance();
                    let fname = if let TokenValue::Identifier(fn_) = ft.value {
                        fn_
                    } else {
                        self.error_here("Malformed identifier token");
                        return None;
                    };
                    if !self.expect(TokenKind::Equal) {
                        return None;
                    }
                    let fval = self.parse_expression(1)?;
                    fields.push((fname, fval));
                    if self.current_kind() == TokenKind::Comma {
                        let _ = self.advance();
                    } else if self.current_kind() != TokenKind::RBrace {
                        self.error_here("Expected , or } in struct literal");
                        return None;
                    }
                },
                _ => {
                    self.error_here("Expected field name in struct literal");
                    return None;
                },
            }
        }
        if !self.expect(TokenKind::RBrace) {
            return None;
        }
        Some(ASTNode::StructLiteral { fields })
    }

    /// The rest of an `if`, after its keyword was consumed: the
    /// condition, the then block, and the optional else block.
    fn if_tail(&mut self) -> (r: Option<ASTNode>)
        requires
            old(self).wf(),
        ensures
            final(self).wf(),
            final(self).toks() == old(self).toks(),
            old(self).had_error ==> final(self).had_error,
            old(self).at() <= final(self).at(),
            r is Some ==> old(self).at() < final(self).at(),
            r is None ==> final(self).had_error,
            r matches Some(n) ==> n is IfExpression,
        decreases old(self).toks().len() - old(self).at(), 4int,
    {
        let condition = self.parse_expression(1)?;
        let then_branch = self.parse_block()?;
        let else_branch = if self.current_kind() == TokenKind::Else {
            let _ = self.advance();
            Some(self.parse_block()?)
        } else {
            None
        };
        Some(
            ASTNode::IfExpression {
                condition: Box::new(condition),
                then_branch,
                else_branch,
            },
        )
    }

    /// Null denotation: the token under the cursor opens an
    /// expression.  A grouped `(e)` yields exactly the node of `e`.
    #[verifier::loop_isolation(false)]
    #[verifier::rlimit(30)]
    #[verifier::spinoff_prover]
    fn nud(&mut self) -> (r: Option<ASTNode>)
        requires
            old(self).wf(),
        ensures
            final(self).wf(),
            final(self).toks() == old(self).toks(),
            old(self).had_error ==> final(self).had_error,
            old(self).at() <= final(self).at(),
            r is Some ==> old(self).at() < final(self).at(),
            old(self).toks()[old(self).at()].kind != TokenKind::Eof ==> old(self).at() < final(self).at(),
            r is None ==> final(self).had_error,
            is_atom_kind(old(self).toks()[old(self).at()].kind) ==> (r matches Some(n)
                && atom_node(old(self).toks()[old(self).at()], n) && final(self).at() == old(self).at() + 1 && final(self).had_error == old(self).had_error),
            old(self).toks()[old(self).at()].kind == TokenKind::Minus ==> (r matches Some(n)
                ==> (n matches ASTNode::Unary { op, right } && op == UnaryOp::Neg)),
            old(self).toks()[old(self).at()].kind == TokenKind::Bang ==> (r matches Some(n)
                ==> (n matches ASTNode::Unary { op, right } && op == UnaryOp::Not)),
            (old(self).toks()[old(self).at()].kind == TokenKind::Minus && is_atom_kind(
                old(self).toks()[old(self).at() + 1].kind,
            ) && spec_prec(old(self).toks()[old(self).at() + 2].kind) < 5) ==> (r matches Some(n)
                && (n matches ASTNode::Unary { op, right } && op == UnaryOp::Neg && atom_node(
                old(self).toks()[old(self).at() + 1],
                *right,
            )) && final(self).at() == old(self).at() + 2),
            old(self).toks()[old(self).at()].kind == TokenKind::LBracket ==> (r matches Some(n)
                ==> n is Array),
            old(self).toks()[old(self).at()].kind == TokenKind::LBrace ==> (r matches Some(n)
                ==> n is StructLiteral),
            old(self).toks()[old(self).at()].kind == TokenKind::If ==> (r matches Some(n)
                ==> n is IfExpression),
            old(self).toks()[old(self).at()].kind == TokenKind::Match ==> (r matches Some(n)
                ==> n is MatchStatement),
            (old(self).toks()[old(self).at()].kind == TokenKind::LParen && is_atom_kind(
                old(self).toks()[old(self).at() + 1].kind,
            ) && old(self).toks()[old(self).at() + 2].kind == TokenKind::RParen) ==> (r
                matches Some(n) && atom_node(old(self).toks()[old(self).at() + 1], n) && final(self).at() == old(self).at() + 3),
        decreases old(self).toks().len() - old(self).at(), 2int,
    {
        let t = self.advance();
        match t.kind {
            TokenKind::Identifier => {
                if let TokenValue::Identifier(name) = t.value {
                    Some(ASTNode::Identifier { name })
                } else {
                    self.error_here("Malformed identifier token");
                    None
                }
            },
            TokenKind::Number => {
                if let TokenValue::Number(q) = t.value {
                    Some(ASTNode::Literal { value: LiteralValue::Number(q) })
                } else {
                    self.error_here("Malformed number token");
                    None
                }
            },
            TokenKind::String | TokenKind::InterpolatedString => {
                if let TokenValue::String(sv) = t.value {
                    Some(ASTNode::Literal { value: LiteralValue::String(sv) })
                } else {
                    self.error_here("Malformed string token");
                    None
                }
            },
            TokenKind::True => Some(ASTNode::Literal { value: LiteralValue::Boolean(true) }),
            TokenKind::False => Some(ASTNode::Literal { value: LiteralValue::Boolean(false) }),
            TokenKind::LParen => {
                let inner = self.parse_expression(1)?;
                if !self.expect(TokenKind::RParen) {
                    return None;
                }
                Some(inner)
            },
            TokenKind::Minus => {
                let rhs = self.parse_expression(5)?;
                Some(ASTNode::Unary { op: UnaryOp::Neg, right: Box::new(rhs) })
            },
            TokenKind::Bang => {
                let rhs = self.parse_expression(5)?;
                Some(ASTNode::Unary { op: UnaryOp::Not, right: Box::new(rhs) })
            },
            TokenKind::LBracket => self.array_tail(),
            TokenKind::LBrace => self.struct_literal_tail(),
            TokenKind::If => self.if_tail(),
            TokenKind::Match => self.match_tail(),
            TokenKind::Error => {
                let mut msg = String::from_str("Lexical error: ");
                if let TokenValue::Error(detail) = t.value {
                    msg.append(detail.as_str());
                }
                self.diagnostics.push(msg);
                self.had_error = true;
                None
            },
            _ => {
                self.error_here("Unexpected token in expression");
                None
            },
        }
    }

    /// Left denotation: fold one infix operator, call, index, member
    /// access, pipeline or update into the expression.
    #[verifier::loop_isolation(false)]
    fn led(&mut self, left: ASTNode) -> (r: Option<ASTNode>)
        requires
            old(self).wf(),
            spec_prec(old(self).toks()[old(self).at()].kind) >= 1,
        ensures
            final(self).wf(),
            final(self).toks() == old(self).toks(),
            old(self).had_error ==> final(self).had_error,
            old(self).at() < final(self).at(),
            r is None ==> final(self).had_error,
            is_binop_kind(old(self).toks()[old(self).at()].kind) ==> (r matches Some(n) ==> (n
                matches ASTNode::Binary { op, left: l, right } && op == binop_for(
                old(self).toks()[old(self).at()].kind,
            ) && *l == left)),
            old(self).toks()[old(self).at()].kind == TokenKind::LParen ==> (r matches Some(n)
                ==> (n matches ASTNode::Call { callee, args } && *callee == left)),
            (old(self).toks()[old(self).at()].kind == TokenKind::LParen && is_atom_kind(
                old(self).toks()[old(self).at() + 1].kind,
            ) && old(self).toks()[old(self).at() + 2].kind == TokenKind::RParen) ==> (r
                matches Some(n) && (n matches ASTNode::Call { callee, args } && *callee == left
                && args@.len() == 1 && atom_node(old(self).toks()[old(self).at() + 1], args@[0]))
                && final(self).at() == old(self).at() + 3),
            (old(self).toks()[old(self).at()].kind == TokenKind::LParen && is_atom_kind(
                old(self).toks()[old(self).at() + 1].kind,
            ) && old(self).toks()[old(self).at() + 2].kind == TokenKind::Comma && is_atom_kind(
                old(self).toks()[old(self).at() + 3].kind,
            ) && old(self).toks()[old(self).at() + 4].kind == TokenKind::RParen) ==> (r
                matches Some(n) && (n matches ASTNode::Call { callee, args } && *callee == left
                && args@.len() == 2 && atom_node(old(self).toks()[old(self).at() + 1], args@[0])
                && atom_node(old(self).toks()[old(self).at() + 3], args@[1])) && final(self).at()
                == old(self).at() + 5),
            old(self).toks()[old(self).at()].kind == TokenKind::LBracket ==> (r matches Some(n)
                ==> (n matches ASTNode::IndexAccess { target, index } && *target == left)),
            old(self).toks()[old(self).at()].kind == TokenKind::Dot ==> ((r is Some <==> old(self).toks()[old(self).at() + 1].kind == TokenKind::Identifier) && (r matches Some(n) ==> (
            n matches ASTNode::PropertyAccess { target, member } && *target == left && (old(self).toks()[old(self).at() + 1].value matches TokenValue::Identifier(nm) && member@
                == nm@)))),
            old(self).toks()[old(self).at()].kind == TokenKind::Pipeline ==> (r matches Some(n)
                ==> (n matches ASTNode::Pipeline { left: l, right } && *l == left)),
            (old(self).toks()[old(self).at()].kind == TokenKind::Pipeline && is_atom_kind(
                old(self).toks()[old(self).at() + 1].kind,
            ) && spec_prec(old(self).toks()[old(self).at() + 2].kind) < 2) ==> (r matches Some(n)
                && (n matches ASTNode::Pipeline { left: l, right } && *l == left && atom_node(
                old(self).toks()[old(self).at() + 1],
                *right,
            )) && final(self).at() == old(self).at() + 2),
            old(self).toks()[old(self).at()].kind == TokenKind::LArrow ==> (r matches Some(n)
                ==> (n matches ASTNode::Update { left: l, right } && *l == left)),
            (is_binop_kind(old(self).toks()[old(self).at()].kind) && is_atom_kind(
                old(self).toks()[old(self).at() + 1].kind,
            ) && (spec_prec(old(self).toks()[old(self).at() + 2].kind) < spec_prec(
                old(self).toks()[old(self).at()].kind,
            ) + 1 || spec_prec(old(self).toks()[old(self).at() + 2].kind) == 0)) ==> (r
                matches Some(n) && (n matches ASTNode::Binary { op, left: l, right } && op
                == binop_for(old(self).toks()[old(self).at()].kind) && *l == left && atom_node(
                old(self).toks()[old(self).at() + 1],
                *right,
            )) && final(self).at() == old(self).at() + 2 && final(self).had_error == old(self).had_error),
            (is_binop_kind(old(self).toks()[old(self).at()].kind) && triple_cond(
                old(self).toks(),
                old(self).at() + 1,
                (spec_prec(old(self).toks()[old(self).at()].kind) + 1) as u8,
            )) ==> (r matches Some(n) && (n matches ASTNode::Binary { op, left: l, right } && op
                == binop_for(old(self).toks()[old(self).at()].kind) && *l == left && triple_node(
                old(self).toks(),
                old(self).at() + 1,
                *right,
            )) && final(self).at() == old(self).at() + 4 && final(self).had_error == old(self).had_error),
        decreases old(self).toks().len() - old(self).at(), 2int,
    {
        let k = self.current_kind();
        match k {
            TokenKind::Plus | TokenKind::Minus | TokenKind::Star | TokenKind::Slash
                | TokenKind::EqualEqual | TokenKind::BangEqual | TokenKind::Less
                | TokenKind::Greater | TokenKind::LessEqual | TokenKind::GreaterEqual => {
                let p = self.prec_of_current();
                let _ = self.advance();
                let op = match k {
                    TokenKind::Plus => BinaryOp::Add,
                    TokenKind::Minus => BinaryOp::Sub,
                    TokenKind::Star => BinaryOp::Mul,
                    TokenKind::Slash => BinaryOp::Div,
                    TokenKind::EqualEqual => BinaryOp::Eq,
                    TokenKind::BangEqual => BinaryOp::Ne,
                    TokenKind::Less => BinaryOp::Lt,
                    TokenKind::Greater => BinaryOp::Gt,
                    TokenKind::LessEqual => BinaryOp::Le,
                    _ => BinaryOp::Ge,
                };
                let rhs = self.parse_expression(if p < 255 {
                    p + 1
                } else {
                    p
                })?;
                Some(ASTNode::Binary { op, left: Box::new(left), right: Box::new(rhs) })
            },
            TokenKind::LParen => {
                let ghost one_arg = is_atom_kind(old(self).toks()[old(self).at() + 1].kind)
                    && old(self).toks()[old(self).at() + 2].kind == TokenKind::RParen;
                let ghost two_args = is_atom_kind(old(self).toks()[old(self).at() + 1].kind)
                    && old(self).toks()[old(self).at() + 2].kind == TokenKind::Comma
                    && is_atom_kind(old(self).toks()[old(self).at() + 3].kind) && old(self).toks()[old(self).at() + 4].kind == TokenKind::RParen;
                let _ = self.advance();
                let mut args: Vec<ASTNode> = Vec::new();
                loop
                    invariant
                        self.wf(),
                        self.toks() == old(self).toks(),
                        old(self).at() < self.pos as int,
                        old(self).had_error ==> self.had_error,
                        one_arg ==> ((self.pos as int == old(self).at() + 1 && args@.len() == 0)
                            || (self.pos as int == old(self).at() + 2 && args@.len() == 1
                            && atom_node(old(self).toks()[old(self).at() + 1], args@[0]))),
                        two_args ==> ((self.pos as int == old(self).at() + 1 && args@.len() == 0)
                            || (self.pos as int == old(self).at() + 3 && args@.len() == 1
                            && atom_node(old(self).toks()[old(self).at() + 1], args@[0])) || (
                        self.pos as int == old(self).at() + 4 && args@.len() == 2 && atom_node(
                            old(self).toks()[old(self).at() + 1],
                            args@[0],
                        ) && atom_node(old(self).toks()[old(self).at() + 3], args@[1]))),
                    decreases self.toks().len() - self.pos as int,
                {
                    match self.current_kind() {
                        TokenKind::RParen => {
                            break ;
                        },
                        TokenKind::Eof => {
                            self.error_here("Unterminated argument list");
                            return None;
                        },
                        _ => {
                            let e = self.parse_expression(1)?;
                            args.push(e);
                            if self.current_kind() == TokenKind::Comma {
                                let _ = self.advance();
                            } else if self.current_kind() != TokenKind::RParen {
                                self.error_here("Expected , or ) in argument list");
                                return None;
                            }
                        },
                    }
                }
                if !self.expect(TokenKind::RParen) {
                    return None;
                }
                Some(ASTNode::Call { callee: Box::new(left), args })
            },
            TokenKind::LBracket => {
                let _ = self.advance();
                let index = self.parse_expression(1)?;
                if !self.expect(TokenKind::RBracket) {
                    return None;
                }
                Some(ASTNode::IndexAccess { target: Box::new(left), index: Box::new(index) })
            },
            TokenKind::Dot => {
                let _ = self.advance();
                let t = self.advance();
                if let TokenValue::Identifier(member) = t.value {
                    Some(ASTNode::PropertyAccess { target: Box::new(left), member })
                } else {
                    self.error_here("Expected member name after .");
                    None
                }
            },
            TokenKind::Pipeline => {
                let _ = self.advance();
                let rhs = self.parse_expression(2)?;
                Some(ASTNode::Pipeline { left: Box::new(left), right: Box::new(rhs) })
            },
            TokenKind::LArrow => {
                let _ = self.advance();
                let rhs = self.parse_expression(1)?;
                Some(ASTNode::Update { left: Box::new(left), right: Box::new(rhs) })
            },
            _ => {
                self.error_here("Unexpected operator");
                None
            },
        }
    }
}

} // verus!
