use vstd::prelude::*;

use crate::language::ast::{
    self, arg_decl_view, arg_decls_view, arg_view, args_view, child_view, children_view,
    component_decl_view, expr_view, exprs_view, parsed_part_view, parsed_parts_view, top_decl_view,
    top_decls_view, SArg, SArgDecl, SChildNode, SComponentDecl, SExpr, SExprKind, SParsedPart,
    SPartKindAst, STopDecl,
};
use crate::language::lexer::{
    self, close_brace, flush_text, kind_of, lex_from, lex_result_view, mk_span, scan, spec_lex,
    string_body, tokens_view, unescape, LexError, SPart, SPartKind, SSpanned, SToken, Scan,
    SpannedToken, StringPartKind, SyntaxKind, Token,
};
use crate::language::text::{bpos, byte_len};
use crate::language::utils::{max_usize, merge_span, min_usize, Span};

verus! {

/// Why parsing failed.
#[derive(Debug, PartialEq, Eq)]
pub enum ParseError {
    /// The source (or the text of an interpolation) holds no token at this span.
    Lex(LexError),
    /// A token of kind `expected` was required.
    Expected { expected: SyntaxKind, found: SyntaxKind, span: Span },
    /// A top-level declaration (`const` or `component`) was required.
    ExpectedDeclaration { found: SyntaxKind, span: Span },
    /// A child node (`If`, `For`, `Slot` or a component call) was required.
    ExpectedNode { found: SyntaxKind },
    /// An argument name was declared twice.
    DuplicateArgument { name: String, span: Span },
    /// An atom (literal, name, parenthesised expression, array) was required.
    ExpectedAtom { found: SyntaxKind, span: Span },
    /// An interpolation `${}` holds no token.
    EmptyInterpolation { span: Span },
}

pub enum SParseError {
    Lex(Span),
    Expected { expected: SyntaxKind, found: SyntaxKind, span: Span },
    ExpectedDeclaration { found: SyntaxKind, span: Span },
    ExpectedNode { found: SyntaxKind },
    DuplicateArgument { name: Seq<char>, span: Span },
    ExpectedAtom { found: SyntaxKind, span: Span },
    EmptyInterpolation { span: Span },
    /// Never produced: stands where the grammar below would fail to make progress.
    Unreachable,
}

impl View for ParseError {
    type V = SParseError;

    open spec fn view(&self) -> SParseError {
        match self {
            ParseError::Lex(LexError::InvalidSyntax { span }) => SParseError::Lex(*span),
            ParseError::Expected { expected, found, span } => SParseError::Expected {
                expected: *expected,
                found: *found,
                span: *span,
            },
            ParseError::ExpectedDeclaration { found, span } => SParseError::ExpectedDeclaration {
                found: *found,
                span: *span,
            },
            ParseError::ExpectedNode { found } => SParseError::ExpectedNode { found: *found },
            ParseError::DuplicateArgument { name, span } => SParseError::DuplicateArgument {
                name: name@,
                span: *span,
            },
            ParseError::ExpectedAtom { found, span } => SParseError::ExpectedAtom {
                found: *found,
                span: *span,
            },
            ParseError::EmptyInterpolation { span } => SParseError::EmptyInterpolation { span: *span },
        }
    }
}

/// A result of the grammar: the value read and the position after it.
pub type SRes<A> = Result<(A, int), SParseError>;

// ---------------------------------------------------------------------------
// The grammar, over the tokens `t` of a source whose byte length is `l`
// ---------------------------------------------------------------------------
pub open spec fn merge(a: Span, b: Span) -> Span {
    Span { start: min_usize(a.start, b.start), end: max_usize(a.end, b.end) }
}

/// The token that stands past the last one.
pub open spec fn eof_tok(l: usize) -> SSpanned {
    SSpanned { token: SToken::EOF, span: Span { start: l, end: l } }
}

pub open spec fn peek_at(t: Seq<SSpanned>, l: usize, p: int) -> SSpanned {
    if 0 <= p < t.len() {
        t[p]
    } else {
        eof_tok(l)
    }
}

pub open spec fn kind_at(t: Seq<SSpanned>, l: usize, p: int) -> SyntaxKind {
    kind_of(peek_at(t, l, p).token)
}

pub open spec fn next_pos(t: Seq<SSpanned>, p: int) -> int {
    if 0 <= p < t.len() {
        p + 1
    } else {
        p
    }
}

pub open spec fn expect_at(t: Seq<SSpanned>, l: usize, p: int, k: SyntaxKind) -> SRes<SSpanned> {
    if kind_at(t, l, p) == k {
        Ok((peek_at(t, l, p), next_pos(t, p)))
    } else {
        Err(SParseError::Expected { expected: k, found: kind_at(t, l, p), span: peek_at(t, l, p).span })
    }
}

pub open spec fn ident_name(t: SToken) -> Seq<char> {
    match t {
        SToken::Identifier(n) => n,
        _ => Seq::empty(),
    }
}

pub open spec fn number_text(t: SToken) -> Seq<char> {
    match t {
        SToken::Int(n) => n,
        SToken::Float(n) => n,
        _ => Seq::empty(),
    }
}

pub open spec fn string_parts(t: SToken) -> Seq<SPart> {
    match t {
        SToken::String(parts) => parts,
        _ => Seq::empty(),
    }
}

pub open spec fn infix_bp(op: ast::BinOp) -> (u8, u8) {
    match op {
        ast::BinOp::Eq | ast::BinOp::Neq => (1, 2),
        ast::BinOp::Plus | ast::BinOp::Minus => (3, 4),
        ast::BinOp::Multiply | ast::BinOp::Divide => (5, 6),
    }
}

pub open spec fn prefix_bp(op: ast::UnaryOp) -> u8 {
    match op {
        ast::UnaryOp::Plus | ast::UnaryOp::Minus => 8,
        ast::UnaryOp::Not => 10,
    }
}

/// The binary operator that a token kind spells, if any.
pub open spec fn bin_op_of(k: SyntaxKind) -> Option<ast::BinOp> {
    match k {
        SyntaxKind::Plus => Some(ast::BinOp::Plus),
        SyntaxKind::Minus => Some(ast::BinOp::Minus),
        SyntaxKind::Multiple => Some(ast::BinOp::Multiply),
        SyntaxKind::Divide => Some(ast::BinOp::Divide),
        SyntaxKind::Eq => Some(ast::BinOp::Eq),
        SyntaxKind::Neq => Some(ast::BinOp::Neq),
        _ => None,
    }
}

// The nesting rank of a token sequence: one more than the longest interpolation text in it.
pub open spec fn part_rank(p: SPart) -> nat {
    match p.kind {
        SPartKind::Interpolation(r) => r.len() + 1,
        SPartKind::Text(_) => 0,
    }
}

pub open spec fn parts_rank(s: Seq<SPart>) -> nat
    decreases s.len(),
{
    if s.len() == 0 {
        0
    } else {
        let a = parts_rank(s.drop_last());
        let b = part_rank(s.last());
        if a >= b {
            a
        } else {
            b
        }
    }
}

pub open spec fn token_rank(t: SToken) -> nat {
    match t {
        SToken::String(parts) => parts_rank(parts),
        _ => 0,
    }
}

pub open spec fn rank(t: Seq<SSpanned>) -> nat
    decreases t.len(),
{
    if t.len() == 0 {
        0
    } else {
        let a = rank(t.drop_last());
        let b = token_rank(t.last().token);
        if a >= b {
            a
        } else {
            b
        }
    }
}

/// Every interpolation in `t` can be lexed at its offset without leaving `usize`.
pub open spec fn tokens_wf(t: Seq<SSpanned>) -> bool {
    forall|i: int, j: int|
        #![trigger string_parts(t[i].token)[j]]
        0 <= i < t.len() && 0 <= j < string_parts(t[i].token).len() ==> match string_parts(
            t[i].token,
        )[j].kind {
            SPartKind::Interpolation(r) => string_parts(t[i].token)[j].span.start + byte_len(r)
                <= usize::MAX,
            SPartKind::Text(_) => true,
        }
}

/// The interpolations among `parts` are shorter than `n` characters and end within `bl` bytes.
pub open spec fn parts_ok(parts: Seq<SPart>, n: nat, bl: nat) -> bool {
    forall|j: int|
        #![trigger parts[j]]
        0 <= j < parts.len() ==> match parts[j].kind {
            SPartKind::Interpolation(r) => r.len() + 1 <= n && parts[j].span.start + byte_len(r) <= bl,
            SPartKind::Text(_) => true,
        }
}

pub open spec fn tokens_ok(t: Seq<SSpanned>, n: nat, bl: nat) -> bool {
    forall|i: int| #![trigger t[i]] 0 <= i < t.len() ==> parts_ok(string_parts(t[i].token), n, bl)
}

proof fn lemma_string_body_ok(
    s: Seq<char>,
    j: int,
    parts: Seq<SPart>,
    text: Seq<char>,
    seg: int,
)
    requires
        0 <= j,
        0 <= seg <= s.len(),
        byte_len(s) <= usize::MAX,
        parts_ok(parts, s.len(), byte_len(s)),
    ensures
        string_body(s, j, parts, text, seg) matches Some((ps, _)) ==> parts_ok(ps, s.len(), byte_len(s)),
    decreases s.len() - j,
{
    if 0 <= j < s.len() {
        if s[j] == '"' {
            crate::language::text::lemma_bpos_mono(s, seg, s.len() as int);
        } else if s[j] == '\\' {
            if j + 1 < s.len() {
                lemma_string_body_ok(s, j + 2, parts, text.push(unescape(s[j + 1])), seg);
            }
        } else if s[j] == '$' && j + 1 < s.len() && s[j + 1] == '{' {
            let parts2 = flush_text(s, parts, text, seg, j);
            if seg <= j {
                crate::language::text::lemma_bpos_mono(s, seg, j);
            }
            crate::language::text::lemma_bpos_mono(s, j, s.len() as int);
            assert(parts_ok(parts2, s.len(), byte_len(s)));
            match close_brace(s, j + 2, 1) {
                None => {},
                Some(k) => {
                    if !(k < j + 2 || k >= s.len()) {
                        let np = SPart {
                            kind: SPartKind::Interpolation(s.subrange(j + 2, k)),
                            span: mk_span(bpos(s, j + 2) as int, bpos(s, k) as int),
                        };
                        crate::language::text::lemma_bpos_subrange(s, j + 2, k);
                        crate::language::text::lemma_bpos_mono(s, j + 2, s.len() as int);
                        crate::language::text::lemma_bpos_mono(s, k, s.len() as int);
                        let parts3 = parts2.push(np);
                        assert(parts_ok(parts3, s.len(), byte_len(s)));
                        if k + 1 <= s.len() {
                            lemma_string_body_ok(s, k + 1, parts3, Seq::<char>::empty(), k + 1);
                        }
                    }
                },
            }
        } else {
            lemma_string_body_ok(s, j + 1, parts, text.push(s[j]), seg);
        }
    }
}

proof fn lemma_lex_from_ok(s: Seq<char>, i: int, offset: int, acc: Seq<SSpanned>)
    requires
        0 <= i,
        byte_len(s) <= usize::MAX,
        tokens_ok(acc, s.len(), byte_len(s)),
    ensures
        lex_from(s, i, offset, acc) matches Ok(u) ==> tokens_ok(u, s.len(), byte_len(s)),
    decreases s.len() - i,
{
    if 0 <= i < s.len() {
        match scan(s, i) {
            Scan::Skip(e) => {
                if !(e <= i || e > s.len()) {
                    lemma_lex_from_ok(s, e, offset, acc);
                }
            },
            Scan::Tok(t, e) => {
                if !(e <= i || e > s.len()) {
                    if t is Comment {
                        lemma_lex_from_ok(s, e, offset, acc);
                    } else {
                        if s[i] == '"' {
                            lemma_string_body_ok(s, i + 1, Seq::empty(), Seq::empty(), i + 1);
                        }
                        let acc2 = acc.push(
                            SSpanned { token: t, span: mk_span(offset + bpos(s, i), offset + bpos(s, e)) },
                        );
                        assert(tokens_ok(acc2, s.len(), byte_len(s)));
                        lemma_lex_from_ok(s, e, offset, acc2);
                    }
                }
            },
            Scan::Bad(_) => {},
        }
    }
}

proof fn lemma_parts_rank_bound(parts: Seq<SPart>, n: nat, bl: nat)
    requires
        parts_ok(parts, n, bl),
    ensures
        parts_rank(parts) <= n,
    decreases parts.len(),
{
    if parts.len() > 0 {
        assert(parts_ok(parts.drop_last(), n, bl)) by {
            assert forall|j: int| 0 <= j < parts.drop_last().len() implies #[trigger] parts.drop_last()[j] == parts[j] by {}
        }
        lemma_parts_rank_bound(parts.drop_last(), n, bl);
        assert(parts.last() == parts[parts.len() - 1]);
    }
}

proof fn lemma_rank_bound(t: Seq<SSpanned>, n: nat, bl: nat)
    requires
        tokens_ok(t, n, bl),
    ensures
        rank(t) <= n,
    decreases t.len(),
{
    if t.len() > 0 {
        assert(tokens_ok(t.drop_last(), n, bl)) by {
            assert forall|i: int| 0 <= i < t.drop_last().len() implies #[trigger] t.drop_last()[i] == t[i] by {}
        }
        lemma_rank_bound(t.drop_last(), n, bl);
        assert(t.last() == t[t.len() - 1]);
        lemma_parts_rank_bound(string_parts(t.last().token), n, bl);
    }
}

pub proof fn lemma_parts_rank_member(parts: Seq<SPart>, j: int)
    requires
        0 <= j < parts.len(),
    ensures
        part_rank(parts[j]) <= parts_rank(parts),
    decreases parts.len(),
{
    if j < parts.len() - 1 {
        lemma_parts_rank_member(parts.drop_last(), j);
    }
}

pub proof fn lemma_rank_member(t: Seq<SSpanned>, i: int)
    requires
        0 <= i < t.len(),
    ensures
        token_rank(t[i].token) <= rank(t),
    decreases t.len(),
{
    if i < t.len() - 1 {
        lemma_rank_member(t.drop_last(), i);
    }
}

/// What the lexer returns is well formed, and its nesting rank is below the length of the text.
pub proof fn lemma_lex_output(s: Seq<char>, offset: int)
    requires
        byte_len(s) <= usize::MAX,
    ensures
        spec_lex(s, offset) matches Ok(u) ==> rank(u) <= s.len() && tokens_wf(u),
{
    lemma_lex_from_ok(s, 0, offset, Seq::empty());
    if let Ok(u) = spec_lex(s, offset) {
        lemma_rank_bound(u, s.len(), byte_len(s));
        assert forall|i: int, j: int|
            0 <= i < u.len() && 0 <= j < string_parts(u[i].token).len() implies match #[trigger] string_parts(
                u[i].token,
            )[j].kind {
                SPartKind::Interpolation(r) => string_parts(u[i].token)[j].span.start + byte_len(r)
                    <= usize::MAX,
                SPartKind::Text(_) => true,
            } by {
            assert(parts_ok(string_parts(u[i].token), s.len(), byte_len(s)));
        }
    }
}

// ---------------------------------------------------------------------------
// Expressions
// ---------------------------------------------------------------------------
/// An expression whose operators bind at least as tightly as `min_bp`, read at `p`.
pub open spec fn sp_expr_bp(t: Seq<SSpanned>, l: usize, p: int, min_bp: u8) -> SRes<SExpr>
    decreases rank(t), t.len() - p, 3nat, 0nat,
{
    if p < 0 || p > t.len() {
        Err(SParseError::Unreachable)
    } else {
        let k = kind_at(t, l, p);
        let lhs = if k == SyntaxKind::Plus || k == SyntaxKind::Minus {
            let op = if k == SyntaxKind::Plus {
                ast::UnaryOp::Plus
            } else {
                ast::UnaryOp::Minus
            };
            let op_span = peek_at(t, l, p).span;
            match sp_expr_bp(t, l, p + 1, prefix_bp(op)) {
                Err(e) => Err(e),
                Ok((rhs, p2)) => Ok(
                    (
                        SExpr {
                            kind: SExprKind::Unary { op, expr: Box::new(rhs) },
                            span: merge(op_span, rhs.span),
                        },
                        p2,
                    ),
                ),
            }
        } else {
            sp_atom(t, l, p)
        };
        match lhs {
            Err(e) => Err(e),
            Ok((lhs, p2)) => if p2 <= p || p2 > t.len() {
                Err(SParseError::Unreachable)
            } else {
                sp_expr_loop(t, l, p2, min_bp, lhs)
            },
        }
    }
}

/// After the operand `lhs`, read calls, indexing and binary operators from `p` on.
pub open spec fn sp_expr_loop(t: Seq<SSpanned>, l: usize, p: int, min_bp: u8, lhs: SExpr) -> SRes<
    SExpr,
>
    decreases rank(t), t.len() - p, 2nat, 0nat,
{
    if p < 0 || p > t.len() {
        Err(SParseError::Unreachable)
    } else {
        let k = kind_at(t, l, p);
        if k == SyntaxKind::LParen {
            match sp_call(t, l, p, lhs) {
                Err(e) => Err(e),
                Ok((l2, p2)) => if p2 <= p || p2 > t.len() {
                    Err(SParseError::Unreachable)
                } else {
                    sp_expr_loop(t, l, p2, min_bp, l2)
                },
            }
        } else if k == SyntaxKind::LBracket {
            match sp_index(t, l, p, lhs) {
                Err(e) => Err(e),
                Ok((l2, p2)) => if p2 <= p || p2 > t.len() {
                    Err(SParseError::Unreachable)
                } else {
                    sp_expr_loop(t, l, p2, min_bp, l2)
                },
            }
        } else {
            match bin_op_of(k) {
                None => Ok((lhs, p)),
                Some(op) => {
                    let (l_bp, r_bp) = infix_bp(op);
                    if l_bp < min_bp {
                        Ok((lhs, p))
                    } else {
                        match sp_expr_bp(t, l, p + 1, r_bp) {
                            Err(e) => Err(e),
                            Ok((rhs, p2)) => if p2 <= p || p2 > t.len() {
                                Err(SParseError::Unreachable)
                            } else {
                                sp_expr_loop(
                                    t,
                                    l,
                                    p2,
                                    min_bp,
                                    SExpr {
                                        kind: SExprKind::Bin { lhs: Box::new(lhs), op, rhs: Box::new(rhs) },
                                        span: merge(lhs.span, rhs.span),
                                    },
                                )
                            },
                        }
                    }
                },
            }
        }
    }
}

/// A call of `callee`: `(` arguments `)`, read at `p`.
pub open spec fn sp_call(t: Seq<SSpanned>, l: usize, p: int, callee: SExpr) -> SRes<SExpr>
    decreases rank(t), t.len() - p, 1nat, 0nat,
{
    if p < 0 || p > t.len() {
        Err(SParseError::Unreachable)
    } else {
        match expect_at(t, l, p, SyntaxKind::LParen) {
            Err(e) => Err(e),
            Ok((_, p1)) => {
                let items = if kind_at(t, l, p1) != SyntaxKind::RParen {
                    sp_items(t, l, p1, SyntaxKind::RParen, Seq::empty())
                } else {
                    Ok((Seq::empty(), p1))
                };
                match items {
                    Err(e) => Err(e),
                    Ok((args, p2)) => match expect_at(t, l, p2, SyntaxKind::RParen) {
                        Err(e) => Err(e),
                        Ok((end, p3)) => Ok(
                            (
                                SExpr {
                                    kind: SExprKind::Call { callee: Box::new(callee), args },
                                    span: merge(callee.span, end.span),
                                },
                                p3,
                            ),
                        ),
                    },
                }
            },
        }
    }
}

/// A comma-separated list of expressions (a trailing comma allowed) before a `close` token,
/// read at `p`, after the items `acc`.
pub open spec fn sp_items(t: Seq<SSpanned>, l: usize, p: int, close: SyntaxKind, acc: Seq<SExpr>) -> SRes<
    Seq<SExpr>,
>
    decreases rank(t), t.len() - p, 4nat, 0nat,
{
    if p < 0 || p > t.len() {
        Err(SParseError::Unreachable)
    } else {
        match sp_expr_bp(t, l, p, 0) {
            Err(e) => Err(e),
            Ok((a, p2)) => if p2 <= p || p2 > t.len() {
                Err(SParseError::Unreachable)
            } else {
                let acc2 = acc.push(a);
                if kind_at(t, l, p2) != SyntaxKind::Comma {
                    Ok((acc2, p2))
                } else if kind_at(t, l, p2 + 1) == close {
                    Ok((acc2, p2 + 1))
                } else {
                    sp_items(t, l, p2 + 1, close, acc2)
                }
            },
        }
    }
}

/// An index of `target`: `[` expression `]`, read at `p`.
pub open spec fn sp_index(t: Seq<SSpanned>, l: usize, p: int, target: SExpr) -> SRes<SExpr>
    decreases rank(t), t.len() - p, 1nat, 0nat,
{
    if p < 0 || p > t.len() {
        Err(SParseError::Unreachable)
    } else {
        match expect_at(t, l, p, SyntaxKind::LBracket) {
            Err(e) => Err(e),
            Ok((_, p1)) => match sp_expr_bp(t, l, p1, 0) {
                Err(e) => Err(e),
                Ok((index, p2)) => match expect_at(t, l, p2, SyntaxKind::RBracket) {
                    Err(e) => Err(e),
                    Ok((end, p3)) => Ok(
                        (
                            SExpr {
                                kind: SExprKind::Index { target: Box::new(target), index: Box::new(index) },
                                span: merge(target.span, end.span),
                            },
                            p3,
                        ),
                    ),
                },
            },
        }
    }
}

/// An atom, read at `p`.
pub open spec fn sp_atom(t: Seq<SSpanned>, l: usize, p: int) -> SRes<SExpr>
    decreases rank(t), t.len() - p, 1nat, 0nat,
{
    if p < 0 || p > t.len() {
        Err(SParseError::Unreachable)
    } else {
        let tok = peek_at(t, l, p);
        let k = kind_of(tok.token);
        if k == SyntaxKind::LParen {
            match sp_expr_bp(t, l, p + 1, 0) {
                Err(e) => Err(e),
                Ok((e, p2)) => match expect_at(t, l, p2, SyntaxKind::RParen) {
                    Err(e) => Err(e),
                    Ok((_, p3)) => Ok((e, p3)),
                },
            }
        } else if k == SyntaxKind::Identifier {
            Ok((SExpr { kind: SExprKind::Ident(ident_name(tok.token)), span: tok.span }, p + 1))
        } else if k == SyntaxKind::True || k == SyntaxKind::False {
            Ok((SExpr { kind: SExprKind::Bool(k == SyntaxKind::True), span: tok.span }, p + 1))
        } else if k == SyntaxKind::Null {
            Ok((SExpr { kind: SExprKind::Null, span: tok.span }, p + 1))
        } else if k == SyntaxKind::String {
            match sp_parts(t, l, p, 0, Seq::empty()) {
                Err(e) => Err(e),
                Ok(parts) => Ok(
                    (SExpr { kind: SExprKind::StringInterpolation(parts), span: tok.span }, p + 1),
                ),
            }
        } else if k == SyntaxKind::Int || k == SyntaxKind::Float {
            Ok((SExpr { kind: SExprKind::Number(number_text(tok.token)), span: tok.span }, p + 1))
        } else if k == SyntaxKind::LBracket {
            let items = if kind_at(t, l, p + 1) != SyntaxKind::RBracket {
                sp_items(t, l, p + 1, SyntaxKind::RBracket, Seq::empty())
            } else {
                Ok((Seq::empty(), p + 1))
            };
            match items {
                Err(e) => Err(e),
                Ok((values, p2)) => match expect_at(t, l, p2, SyntaxKind::RBracket) {
                    Err(e) => Err(e),
                    Ok((end, p3)) => Ok(
                        (SExpr { kind: SExprKind::Array(values), span: merge(tok.span, end.span) }, p3),
                    ),
                },
            }
        } else {
            Err(SParseError::ExpectedAtom { found: k, span: tok.span })
        }
    }
}

/// The parts of the string literal at `p`, from part `i` on, after the parts `acc`: text is
/// kept, and each interpolation is lexed at its own offset and read as an expression.
pub open spec fn sp_parts(t: Seq<SSpanned>, l: usize, p: int, i: int, acc: Seq<SParsedPart>) -> Result<
    Seq<SParsedPart>,
    SParseError,
>
    decreases rank(t), t.len() - p, 0nat, string_parts(peek_at(t, l, p).token).len() - i,
{
    let parts = string_parts(peek_at(t, l, p).token);
    if p < 0 || p >= t.len() || i < 0 || i >= parts.len() {
        Ok(acc)
    } else {
        let part = parts[i];
        match part.kind {
            SPartKind::Text(x) => sp_parts(
                t,
                l,
                p,
                i + 1,
                acc.push(SParsedPart { kind: SPartKindAst::Text(x), span: part.span }),
            ),
            SPartKind::Interpolation(raw) => match spec_lex(raw, part.span.start as int) {
                Err(sp) => Err(SParseError::Lex(sp)),
                Ok(u) => if u.len() == 0 {
                    Err(SParseError::EmptyInterpolation { span: part.span })
                } else if byte_len(raw) > usize::MAX {
                    Err(SParseError::Unreachable)
                } else {
                    proof {
                        lemma_lex_output(raw, part.span.start as int);
                        lemma_rank_member(t, p);
                        lemma_parts_rank_member(parts, i);
                    }
                    match sp_expr_bp(u, l, 0, 0) {
                        Err(e) => Err(e),
                        Ok((e, _)) => sp_parts(
                            t,
                            l,
                            p,
                            i + 1,
                            acc.push(
                                SParsedPart { kind: SPartKindAst::Interpolation(Box::new(e)), span: part.span },
                            ),
                        ),
                    }
                },
            },
        }
    }
}

/// A whole expression, read at `p`.
pub open spec fn sp_expr(t: Seq<SSpanned>, l: usize, p: int) -> SRes<SExpr> {
    sp_expr_bp(t, l, p, 0)
}

// ---------------------------------------------------------------------------
// Child nodes
// ---------------------------------------------------------------------------
/// A child node (`If`, `For`, `Slot()`, or a component call), read at `p`.
pub open spec fn sp_child_node(t: Seq<SSpanned>, l: usize, p: int) -> SRes<SChildNode>
    decreases t.len() - p, 2nat,
{
    if p < 0 || p > t.len() {
        Err(SParseError::Unreachable)
    } else {
        match peek_at(t, l, p).token {
            SToken::If => sp_if(t, l, p),
            SToken::For => sp_for(t, l, p),
            SToken::Identifier(_) => sp_component_call(t, l, p),
            SToken::Slot => sp_slot(t, l, p),
            tok => Err(SParseError::ExpectedNode { found: kind_of(tok) }),
        }
    }
}

/// `Slot()`, the place of the children given to a component, read at `p`.
pub open spec fn sp_slot(t: Seq<SSpanned>, l: usize, p: int) -> SRes<SChildNode> {
    match expect_at(t, l, p, SyntaxKind::Slot) {
        Err(e) => Err(e),
        Ok((_, p1)) => match expect_at(t, l, p1, SyntaxKind::LParen) {
            Err(e) => Err(e),
            Ok((_, p2)) => match expect_at(t, l, p2, SyntaxKind::RParen) {
                Err(e) => Err(e),
                Ok((_, p3)) => Ok((SChildNode::Slot, p3)),
            },
        },
    }
}

/// `If ( condition ) children`, read at `p`.
pub open spec fn sp_if(t: Seq<SSpanned>, l: usize, p: int) -> SRes<SChildNode>
    decreases t.len() - p, 1nat,
{
    if p < 0 || p > t.len() {
        Err(SParseError::Unreachable)
    } else {
        match expect_at(t, l, p, SyntaxKind::If) {
            Err(e) => Err(e),
            Ok((_, p1)) => match expect_at(t, l, p1, SyntaxKind::LParen) {
                Err(e) => Err(e),
                Ok((_, p2)) => match sp_expr(t, l, p2) {
                    Err(e) => Err(e),
                    Ok((condition, p3)) => match expect_at(t, l, p3, SyntaxKind::RParen) {
                        Err(e) => Err(e),
                        Ok((_, p4)) => if p4 <= p || p4 > t.len() {
                            Err(SParseError::Unreachable)
                        } else {
                            match sp_child_nodes(t, l, p4) {
                                Err(e) => Err(e),
                                Ok((body, p5)) => Ok((SChildNode::If { condition, body }, p5)),
                            }
                        },
                    },
                },
            },
        }
    }
}

/// `For ( [index ,] item in iterable ) children`, read at `p`.
pub open spec fn sp_for(t: Seq<SSpanned>, l: usize, p: int) -> SRes<SChildNode>
    decreases t.len() - p, 1nat,
{
    if p < 0 || p > t.len() {
        Err(SParseError::Unreachable)
    } else {
        match expect_at(t, l, p, SyntaxKind::For) {
            Err(e) => Err(e),
            Ok((_, p1)) => match expect_at(t, l, p1, SyntaxKind::LParen) {
                Err(e) => Err(e),
                Ok((_, p2)) => match expect_at(t, l, p2, SyntaxKind::Identifier) {
                    Err(e) => Err(e),
                    Ok((n1, p3)) => {
                        let name1 = ident_name(n1.token);
                        let second: SRes<Option<Seq<char>>> = if kind_at(t, l, p3)
                            == SyntaxKind::Comma {
                            match expect_at(t, l, next_pos(t, p3), SyntaxKind::Identifier) {
                                Err(e) => Err(e),
                                Ok((n2, p4)) => Ok((Some(ident_name(n2.token)), p4)),
                            }
                        } else {
                            Ok((None, p3))
                        };
                        match second {
                            Err(e) => Err(e),
                            Ok((name2, p4)) => match expect_at(t, l, p4, SyntaxKind::In) {
                                Err(e) => Err(e),
                                Ok((_, p5)) => match sp_expr(t, l, p5) {
                                    Err(e) => Err(e),
                                    Ok((iterable, p6)) => match expect_at(t, l, p6, SyntaxKind::RParen) {
                                        Err(e) => Err(e),
                                        Ok((_, p7)) => if p7 <= p || p7 > t.len() {
                                            Err(SParseError::Unreachable)
                                        } else {
                                            match sp_child_nodes(t, l, p7) {
                                                Err(e) => Err(e),
                                                Ok((body, p8)) => Ok(
                                                    (
                                                        match name2 {
                                                            Some(n2) => SChildNode::For {
                                                                index_name: Some(name1),
                                                                item_name: n2,
                                                                iterable,
                                                                body,
                                                            },
                                                            None => SChildNode::For {
                                                                index_name: None,
                                                                item_name: name1,
                                                                iterable,
                                                                body,
                                                            },
                                                        },
                                                        p8,
                                                    ),
                                                ),
                                            }
                                        },
                                    },
                                },
                            },
                        }
                    },
                },
            },
        }
    }
}

/// `Name ( args ) children`, read at `p`.
pub open spec fn sp_component_call(t: Seq<SSpanned>, l: usize, p: int) -> SRes<SChildNode>
    decreases t.len() - p, 1nat,
{
    if p < 0 || p > t.len() {
        Err(SParseError::Unreachable)
    } else {
        match expect_at(t, l, p, SyntaxKind::Identifier) {
            Err(e) => Err(e),
            Ok((n, p1)) => match sp_args(t, l, p1) {
                Err(e) => Err(e),
                Ok((args, p2)) => if p2 <= p || p2 > t.len() {
                    Err(SParseError::Unreachable)
                } else {
                    match sp_child_nodes(t, l, p2) {
                        Err(e) => Err(e),
                        Ok((body, p3)) => Ok(
                            (SChildNode::ComponentCall { name: ident_name(n.token), args, body }, p3),
                        ),
                    }
                },
            },
        }
    }
}

/// An optional `[ children ]`, read at `p`.
pub open spec fn sp_child_nodes(t: Seq<SSpanned>, l: usize, p: int) -> SRes<Seq<SChildNode>>
    decreases t.len() - p, 0nat,
{
    if p < 0 || p > t.len() {
        Err(SParseError::Unreachable)
    } else if kind_at(t, l, p) == SyntaxKind::LBracket {
        match sp_child_items(t, l, p + 1, Seq::empty()) {
            Err(e) => Err(e),
            Ok((body, p2)) => match expect_at(t, l, p2, SyntaxKind::RBracket) {
                Err(e) => Err(e),
                Ok((_, p3)) => Ok((body, p3)),
            },
        }
    } else {
        Ok((Seq::empty(), p))
    }
}

/// Child nodes up to a `]`, read at `p`, after the nodes `acc`.
pub open spec fn sp_child_items(t: Seq<SSpanned>, l: usize, p: int, acc: Seq<SChildNode>) -> SRes<
    Seq<SChildNode>,
>
    decreases t.len() - p, 3nat,
{
    if p < 0 || p > t.len() {
        Err(SParseError::Unreachable)
    } else if kind_at(t, l, p) == SyntaxKind::RBracket {
        Ok((acc, p))
    } else {
        match sp_child_node(t, l, p) {
            Err(e) => Err(e),
            Ok((n, p2)) => if p2 <= p || p2 > t.len() {
                Err(SParseError::Unreachable)
            } else {
                sp_child_items(t, l, p2, acc.push(n))
            },
        }
    }
}

// ---------------------------------------------------------------------------
// Arguments and declarations
// ---------------------------------------------------------------------------
/// `( name = value, ... )`, read at `p`.
pub open spec fn sp_args(t: Seq<SSpanned>, l: usize, p: int) -> SRes<Seq<SArg>> {
    match expect_at(t, l, p, SyntaxKind::LParen) {
        Err(e) => Err(e),
        Ok((_, p1)) => {
            let items = if kind_at(t, l, p1) != SyntaxKind::RParen {
                sp_arg_items(t, l, p1, Seq::empty())
            } else {
                Ok((Seq::empty(), p1))
            };
            match items {
                Err(e) => Err(e),
                Ok((args, p2)) => match expect_at(t, l, p2, SyntaxKind::RParen) {
                    Err(e) => Err(e),
                    Ok((_, p3)) => Ok((args, p3)),
                },
            }
        },
    }
}

/// `name = value` pairs separated by commas, read at `p`, after the arguments `acc`.
pub open spec fn sp_arg_items(t: Seq<SSpanned>, l: usize, p: int, acc: Seq<SArg>) -> SRes<Seq<SArg>>
    decreases t.len() - p,
{
    if p < 0 || p > t.len() {
        Err(SParseError::Unreachable)
    } else {
        match expect_at(t, l, p, SyntaxKind::Identifier) {
            Err(e) => Err(e),
            Ok((n, p1)) => match expect_at(t, l, p1, SyntaxKind::Assign) {
                Err(e) => Err(e),
                Ok((_, p2)) => match sp_expr(t, l, p2) {
                    Err(e) => Err(e),
                    Ok((value, p3)) => if p3 <= p || p3 > t.len() {
                        Err(SParseError::Unreachable)
                    } else {
                        let acc2 = acc.push(SArg { name: ident_name(n.token), value });
                        if kind_at(t, l, p3) != SyntaxKind::Comma {
                            Ok((acc2, p3))
                        } else if kind_at(t, l, p3 + 1) == SyntaxKind::RParen {
                            Ok((acc2, p3 + 1))
                        } else {
                            sp_arg_items(t, l, p3 + 1, acc2)
                        }
                    },
                },
            },
        }
    }
}

/// `name [= default]`, read at `p`.
pub open spec fn sp_arg_decl(t: Seq<SSpanned>, l: usize, p: int) -> SRes<SArgDecl> {
    match expect_at(t, l, p, SyntaxKind::Identifier) {
        Err(e) => Err(e),
        Ok((n, p1)) => if kind_at(t, l, p1) == SyntaxKind::Assign {
            match sp_expr(t, l, p1 + 1) {
                Err(e) => Err(e),
                Ok((e, p2)) => Ok(
                    (SArgDecl { name: ident_name(n.token), default: Some(e), span: merge(n.span, e.span) }, p2),
                ),
            }
        } else {
            Ok((SArgDecl { name: ident_name(n.token), default: None, span: n.span }, p1))
        },
    }
}

/// Whether some declaration among `decls` has the name `name`.
pub open spec fn declares(decls: Seq<SArgDecl>, name: Seq<char>) -> bool {
    exists|i: int| 0 <= i < decls.len() && #[trigger] decls[i].name == name
}

/// `( name [= default], ... )`, read at `p`.
pub open spec fn sp_arg_decls(t: Seq<SSpanned>, l: usize, p: int) -> SRes<Seq<SArgDecl>> {
    match expect_at(t, l, p, SyntaxKind::LParen) {
        Err(e) => Err(e),
        Ok((_, p1)) => {
            let items = if kind_at(t, l, p1) != SyntaxKind::RParen {
                sp_arg_decl_items(t, l, p1, Seq::empty())
            } else {
                Ok((Seq::empty(), p1))
            };
            match items {
                Err(e) => Err(e),
                Ok((decls, p2)) => match expect_at(t, l, p2, SyntaxKind::RParen) {
                    Err(e) => Err(e),
                    Ok((_, p3)) => Ok((decls, p3)),
                },
            }
        },
    }
}

/// Argument declarations separated by commas, read at `p`, after the declarations `acc`; a
/// name declared twice is an error.
pub open spec fn sp_arg_decl_items(t: Seq<SSpanned>, l: usize, p: int, acc: Seq<SArgDecl>) -> SRes<
    Seq<SArgDecl>,
>
    decreases t.len() - p,
{
    if p < 0 || p > t.len() {
        Err(SParseError::Unreachable)
    } else {
        match sp_arg_decl(t, l, p) {
            Err(e) => Err(e),
            Ok((a, p2)) => if p2 <= p || p2 > t.len() {
                Err(SParseError::Unreachable)
            } else if declares(acc, a.name) {
                Err(SParseError::DuplicateArgument { name: a.name, span: a.span })
            } else {
                let acc2 = acc.push(a);
                if kind_at(t, l, p2) == SyntaxKind::Comma {
                    if kind_at(t, l, p2 + 1) == SyntaxKind::RParen {
                        Ok((acc2, p2 + 1))
                    } else {
                        sp_arg_decl_items(t, l, p2 + 1, acc2)
                    }
                } else {
                    Ok((acc2, p2))
                }
            },
        }
    }
}

/// `const name = value`, read at `p`.
pub open spec fn sp_const_decl(t: Seq<SSpanned>, l: usize, p: int) -> SRes<STopDecl> {
    match expect_at(t, l, p, SyntaxKind::Const) {
        Err(e) => Err(e),
        Ok((_, p1)) => match expect_at(t, l, p1, SyntaxKind::Identifier) {
            Err(e) => Err(e),
            Ok((n, p2)) => match expect_at(t, l, p2, SyntaxKind::Assign) {
                Err(e) => Err(e),
                Ok((_, p3)) => match sp_expr(t, l, p3) {
                    Err(e) => Err(e),
                    Ok((value, p4)) => Ok((STopDecl::Const { name: ident_name(n.token), value }, p4)),
                },
            },
        },
    }
}

/// `component Name ( declarations ) : child`, read at `p`.
pub open spec fn sp_component_decl(t: Seq<SSpanned>, l: usize, p: int) -> SRes<SComponentDecl> {
    match expect_at(t, l, p, SyntaxKind::Component) {
        Err(e) => Err(e),
        Ok((_, p1)) => match expect_at(t, l, p1, SyntaxKind::Identifier) {
            Err(e) => Err(e),
            Ok((n, p2)) => match sp_arg_decls(t, l, p2) {
                Err(e) => Err(e),
                Ok((decls, p3)) => match expect_at(t, l, p3, SyntaxKind::Colon) {
                    Err(e) => Err(e),
                    Ok((_, p4)) => match sp_child_node(t, l, p4) {
                        Err(e) => Err(e),
                        Ok((body, p5)) => Ok(
                            (SComponentDecl { name: ident_name(n.token), arg_declarations: decls, body }, p5),
                        ),
                    },
                },
            },
        },
    }
}

/// Top-level declarations up to the end of the tokens, read at `p`, after the declarations
/// `acc`.
pub open spec fn sp_top_decls(t: Seq<SSpanned>, l: usize, p: int, acc: Seq<STopDecl>) -> SRes<
    Seq<STopDecl>,
>
    decreases t.len() - p,
{
    if p < 0 || p > t.len() {
        Err(SParseError::Unreachable)
    } else {
        let tok = peek_at(t, l, p);
        let k = kind_of(tok.token);
        if k == SyntaxKind::Const {
            match sp_const_decl(t, l, p) {
                Err(e) => Err(e),
                Ok((d, p2)) => if p2 <= p || p2 > t.len() {
                    Err(SParseError::Unreachable)
                } else {
                    sp_top_decls(t, l, p2, acc.push(d))
                },
            }
        } else if k == SyntaxKind::Component {
            match sp_component_decl(t, l, p) {
                Err(e) => Err(e),
                Ok((d, p2)) => if p2 <= p || p2 > t.len() {
                    Err(SParseError::Unreachable)
                } else {
                    sp_top_decls(t, l, p2, acc.push(STopDecl::Component(d)))
                },
            }
        } else if k == SyntaxKind::EOF {
            Ok((acc, p))
        } else {
            Err(SParseError::ExpectedDeclaration { found: k, span: tok.span })
        }
    }
}

/// A whole program: declarations up to the end of the tokens, read at `p`.
pub open spec fn sp_program(t: Seq<SSpanned>, l: usize, p: int) -> SRes<Seq<STopDecl>> {
    sp_top_decls(t, l, p, Seq::empty())
}

// ---------------------------------------------------------------------------
// Results of the exec parser, in the terms of the grammar
// ---------------------------------------------------------------------------
pub open spec fn expr_res(r: Result<ast::Expr, ParseError>, p: int) -> SRes<SExpr> {
    match r {
        Ok(e) => Ok((expr_view(e), p)),
        Err(e) => Err(e@),
    }
}

pub open spec fn node_res(r: Result<ast::ChildNode, ParseError>, p: int) -> SRes<SChildNode> {
    match r {
        Ok(n) => Ok((child_view(n), p)),
        Err(e) => Err(e@),
    }
}

pub open spec fn nodes_res(r: Result<Vec<ast::ChildNode>, ParseError>, p: int) -> SRes<
    Seq<SChildNode>,
> {
    match r {
        Ok(v) => Ok((children_view(v@), p)),
        Err(e) => Err(e@),
    }
}

pub open spec fn tok_res(r: Result<SpannedToken, ParseError>, p: int) -> SRes<SSpanned> {
    match r {
        Ok(t) => Ok((t@, p)),
        Err(e) => Err(e@),
    }
}

/// The byte length of a source text, as `str::len` gives it.
pub open spec fn src_len_of(s: Seq<char>) -> usize {
    vstd::utf8::encode_utf8(s).len() as usize
}

/// A Pratt parser over the tokens of a source text.
pub struct Parser {
    tokens: Vec<SpannedToken>,
    source: String,
    pos: usize,
}

/// The binding powers (left, right) of a binary operator.
pub fn infix_binding_power(op: &ast::BinOp) -> (r: (u8, u8))
    ensures
        r == infix_bp(*op),
{
    match op {
        ast::BinOp::Eq | ast::BinOp::Neq => (1, 2),
        ast::BinOp::Plus | ast::BinOp::Minus => (3, 4),
        ast::BinOp::Multiply | ast::BinOp::Divide => (5, 6),
    }
}

/// The binding power of the operand of a prefix operator.
pub fn prefix_binding_power(op: &ast::UnaryOp) -> (r: ((), u8))
    ensures
        r.1 == prefix_bp(*op),
{
    match op {
        ast::UnaryOp::Plus | ast::UnaryOp::Minus => ((), 8),
        ast::UnaryOp::Not => ((), 10),
    }
}

fn ident_of(t: Token) -> (r: String)
    ensures
        r@ == ident_name(t@),
{
    match t {
        Token::Identifier(n) => n,
        _ => String::new(),
    }
}

fn clone_tokens(v: &Vec<SpannedToken>) -> (r: Vec<SpannedToken>)
    ensures
        tokens_view(r@) == tokens_view(v@),
{
    let mut r: Vec<SpannedToken> = Vec::new();
    for i in 0..v.len()
        invariant
            tokens_view(r@) =~= tokens_view(v@.take(i as int)),
    {
        let ghost r0 = r@;
        let t = v[i].clone_spanned();
        r.push(t);
        assert(tokens_view(r@) =~= tokens_view(r0).push(t@));
        assert(v@.take(i + 1) =~= v@.take(i as int).push(v@[i as int]));
        assert(tokens_view(v@.take(i + 1)) =~= tokens_view(v@.take(i as int)).push(v@[i as int]@));
    }
    assert(v@.take(v.len() as int) =~= v@);
    r
}

impl Parser {
    /// The tokens being parsed.
    pub closed spec fn toks(&self) -> Seq<SSpanned> {
        tokens_view(self.tokens@)
    }

    /// The byte length of the source text.
    pub closed spec fn src_len(&self) -> usize {
        src_len_of(self.source@)
    }

    /// The index of the next token.
    pub closed spec fn pos_of(&self) -> int {
        self.pos as int
    }

    pub closed spec fn wf(&self) -> bool {
        &&& self.pos <= self.tokens.len()
        &&& tokens_wf(self.toks())
    }

    /// A parser over `tokens` (which must be well formed), at its first token.
    pub fn from_tokens(src: &str, tokens: &Vec<SpannedToken>) -> (r: Result<Parser, ParseError>)
        requires
            tokens_wf(tokens_view(tokens@)),
        ensures
            r matches Ok(p) && p.wf() && p.toks() == tokens_view(tokens@) && p.src_len()
                == src_len_of(src@) && p.pos_of() == 0,
    {
        Ok(Parser { tokens: clone_tokens(tokens), source: src.to_string(), pos: 0 })
    }

    /// A parser over the tokens of `src`, or the error of lexing it.
    pub fn from_src(src: &str) -> (r: Result<Parser, ParseError>)
        requires
            byte_len(src@) <= usize::MAX,
        ensures
            match r {
                Ok(p) => spec_lex(src@, 0) == Ok::<_, Span>(p.toks()) && p.wf() && p.src_len()
                    == src_len_of(src@) && p.pos_of() == 0,
                Err(e) => spec_lex(src@, 0) matches Err(sp) && e@ == SParseError::Lex(sp),
            },
    {
        let tokens = match lexer::lex(src) {
            Ok(t) => t,
            Err(e) => {
                return Err(ParseError::Lex(e));
            },
        };
        proof {
            lemma_lex_output(src@, 0);
        }
        Ok(Parser { tokens, source: src.to_string(), pos: 0 })
    }

    fn eof_token(&self) -> (r: SpannedToken)
        ensures
            r@ == eof_tok(self.src_len()),
    {
        let n = self.source.as_str().len();
        SpannedToken { token: Token::EOF, span: Span { start: n, end: n } }
    }

    /// Whether the token `offset` places ahead lies past the last token.
    pub fn is_eof(&self, offset: usize) -> (r: bool)
        requires
            self.wf(),
        ensures
            r == (self.pos_of() + offset >= self.toks().len()),
    {
        offset >= self.tokens.len() - self.pos
    }

    /// The current token when the token `offset` places ahead exists, else the end token.
    pub fn peek(&self, offset: usize) -> (r: SpannedToken)
        requires
            self.wf(),
        ensures
            r@ == if self.pos_of() + offset >= self.toks().len() {
                eof_tok(self.src_len())
            } else {
                self.toks()[self.pos_of()]
            },
    {
        if self.is_eof(offset) {
            return self.eof_token();
        }
        self.tokens[self.pos].clone_spanned()
    }

    /// The current token; the position moves past it unless it is the end.
    pub fn next(&mut self) -> (r: SpannedToken)
        requires
            old(self).wf(),
        ensures
            final(self).wf(),
            final(self).toks() == old(self).toks(),
            final(self).src_len() == old(self).src_len(),
            r@ == peek_at(old(self).toks(), old(self).src_len(), old(self).pos_of()),
            final(self).pos_of() == next_pos(old(self).toks(), old(self).pos_of()),
    {
        if self.is_eof(0) {
            return self.eof_token();
        }
        let token = self.tokens[self.pos].clone_spanned();
        self.pos = self.pos + 1;
        token
    }

    /// The current token, if it is of kind `kind` (and then the position moves past it).
    pub fn expect(&mut self, kind: SyntaxKind) -> (r: Result<SpannedToken, ParseError>)
        requires
            old(self).wf(),
        ensures
            final(self).wf(),
            final(self).toks() == old(self).toks(),
            final(self).src_len() == old(self).src_len(),
            tok_res(r, final(self).pos_of()) == expect_at(
                old(self).toks(),
                old(self).src_len(),
                old(self).pos_of(),
                kind,
            ),
            r is Err ==> final(self).pos_of() == old(self).pos_of(),
    {
        let peek = self.peek(0);
        if peek.token.kind() == kind {
            Ok(self.next())
        } else {
            Err(ParseError::Expected { expected: kind, found: peek.token.kind(), span: peek.span })
        }
    }

    fn peek_kind(&self, offset: usize) -> (r: SyntaxKind)
        requires
            self.wf(),
        ensures
            r == kind_of(
                if self.pos_of() + offset >= self.toks().len() {
                    eof_tok(self.src_len())
                } else {
                    self.toks()[self.pos_of()]
                }.token,
            ),
            offset == 0 ==> r == kind_at(self.toks(), self.src_len(), self.pos_of()),
    {
        self.peek(offset).token.kind()
    }
}

impl Parser {
    /// An expression.
    pub fn parse_expr(&mut self) -> (r: Result<ast::Expr, ParseError>)
        requires
            old(self).wf(),
        ensures
            final(self).wf(),
            final(self).toks() == old(self).toks(),
            final(self).src_len() == old(self).src_len(),
            expr_res(r, final(self).pos_of()) == sp_expr(old(self).toks(), old(self).src_len(), old(self).pos_of()),
            r is Ok ==> old(self).pos_of() < final(self).pos_of(),
        decreases rank(old(self).toks()), old(self).toks().len() - old(self).pos_of(), 4nat,
    {
        self.parse_expr_bp(0)
    }

    /// An expression whose binary operators bind at least as tightly as `min_bp`.
    fn parse_expr_bp(&mut self, min_bp: u8) -> (r: Result<ast::Expr, ParseError>)
        requires
            old(self).wf(),
        ensures
            final(self).wf(),
            final(self).toks() == old(self).toks(),
            final(self).src_len() == old(self).src_len(),
            expr_res(r, final(self).pos_of()) == sp_expr_bp(
                old(self).toks(),
                old(self).src_len(),
                old(self).pos_of(),
                min_bp,
            ),
            r is Ok ==> old(self).pos_of() < final(self).pos_of(),
        decreases rank(old(self).toks()), old(self).toks().len() - old(self).pos_of(), 3nat,
    {
        let ghost t = self.toks();
        let ghost l = self.src_len();
        let ghost p0 = self.pos_of();
        let k = self.peek_kind(0);
        let mut lhs = if k == SyntaxKind::Plus || k == SyntaxKind::Minus {
            let op = if k == SyntaxKind::Plus {
                ast::UnaryOp::Plus
            } else {
                ast::UnaryOp::Minus
            };
            let op_span = self.next().span;
            let (_, r_bp) = prefix_binding_power(&op);
            let rhs = match self.parse_expr_bp(r_bp) {
                Ok(e) => e,
                Err(e) => {
                    return Err(e);
                },
            };
            let span = merge_span(&op_span, &rhs.span);
            ast::Expr { kind: ast::ExprKind::Unary { op, expr: Box::new(rhs) }, span }
        } else {
            match self.parse_atom() {
                Ok(e) => e,
                Err(e) => {
                    return Err(e);
                },
            }
        };
        assert(sp_expr_bp(t, l, p0, min_bp) == sp_expr_loop(t, l, self.pos_of(), min_bp, expr_view(lhs)));
        loop
            invariant
                self.wf(),
                self.toks() == t,
                self.src_len() == l,
                t == old(self).toks(),
                l == old(self).src_len(),
                p0 == old(self).pos_of(),
                p0 < self.pos_of() <= t.len(),
                sp_expr_loop(t, l, self.pos_of(), min_bp, expr_view(lhs)) == sp_expr_bp(t, l, p0, min_bp),
            decreases t.len() - self.pos_of(),
        {
            let ghost p1 = self.pos_of();
            let k = self.peek_kind(0);
            if k == SyntaxKind::LParen {
                lhs = match self.parse_call(lhs) {
                    Ok(e) => e,
                    Err(e) => {
                        return Err(e);
                    },
                };
                continue ;
            }
            if k == SyntaxKind::LBracket {
                lhs = match self.parse_index(lhs) {
                    Ok(e) => e,
                    Err(e) => {
                        return Err(e);
                    },
                };
                continue ;
            }
            let op = match k {
                SyntaxKind::Plus => ast::BinOp::Plus,
                SyntaxKind::Minus => ast::BinOp::Minus,
                SyntaxKind::Multiple => ast::BinOp::Multiply,
                SyntaxKind::Divide => ast::BinOp::Divide,
                SyntaxKind::Eq => ast::BinOp::Eq,
                SyntaxKind::Neq => ast::BinOp::Neq,
                _ => {
                    return Ok(lhs);
                },
            };
            let (l_bp, r_bp) = infix_binding_power(&op);
            if l_bp < min_bp {
                return Ok(lhs);
            }
            self.next();
            let rhs = match self.parse_expr_bp(r_bp) {
                Ok(e) => e,
                Err(e) => {
                    return Err(e);
                },
            };
            let span = merge_span(&lhs.span, &rhs.span);
            lhs = ast::Expr { kind: ast::ExprKind::Bin { lhs: Box::new(lhs), op, rhs: Box::new(rhs) }, span };
        }
    }

    /// A comma-separated list of expressions before a `close` token (a trailing comma allowed).
    fn parse_items(&mut self, close: SyntaxKind) -> (r: Result<Vec<ast::Expr>, ParseError>)
        requires
            old(self).wf(),
        ensures
            final(self).wf(),
            final(self).toks() == old(self).toks(),
            final(self).src_len() == old(self).src_len(),
            match r {
                Ok(v) => sp_items(old(self).toks(), old(self).src_len(), old(self).pos_of(), close, Seq::empty())
                    == Ok::<_, SParseError>((exprs_view(v@), final(self).pos_of())),
                Err(e) => sp_items(old(self).toks(), old(self).src_len(), old(self).pos_of(), close, Seq::empty())
                    == Err::<(Seq<SExpr>, int), _>(e@),
            },
            r is Ok ==> old(self).pos_of() < final(self).pos_of(),
        decreases rank(old(self).toks()), old(self).toks().len() - old(self).pos_of(), 4nat,
    {
        let ghost t = self.toks();
        let ghost l = self.src_len();
        let ghost p0 = self.pos_of();
        let mut items: Vec<ast::Expr> = Vec::new();
        assert(exprs_view(items@) =~= Seq::<SExpr>::empty());
        loop
            invariant
                self.wf(),
                self.toks() == t,
                self.src_len() == l,
                t == old(self).toks(),
                l == old(self).src_len(),
                p0 == old(self).pos_of(),
                p0 <= self.pos_of() <= t.len(),
                items.len() > 0 ==> p0 < self.pos_of(),
                sp_items(t, l, self.pos_of(), close, exprs_view(items@)) == sp_items(t, l, p0, close, Seq::empty()),
            decreases t.len() - self.pos_of(),
        {
            let ghost p1 = self.pos_of();
            let ghost items0 = items@;
            let e = match self.parse_expr_bp(0) {
                Ok(e) => e,
                Err(e) => {
                    return Err(e);
                },
            };
            items.push(e);
            assert(exprs_view(items@) =~= exprs_view(items0).push(expr_view(e)));
            if self.peek_kind(0) != SyntaxKind::Comma {
                return Ok(items);
            }
            self.next();
            if self.peek_kind(0) == close {
                return Ok(items);
            }
        }
    }

    /// A call of `callee`: `(` arguments `)`.
    pub fn parse_call(&mut self, callee: ast::Expr) -> (r: Result<ast::Expr, ParseError>)
        requires
            old(self).wf(),
        ensures
            final(self).wf(),
            final(self).toks() == old(self).toks(),
            final(self).src_len() == old(self).src_len(),
            expr_res(r, final(self).pos_of()) == sp_call(
                old(self).toks(),
                old(self).src_len(),
                old(self).pos_of(),
                expr_view(callee),
            ),
            r is Ok ==> old(self).pos_of() < final(self).pos_of(),
        decreases rank(old(self).toks()), old(self).toks().len() - old(self).pos_of(), 1nat,
    {
        match self.expect(SyntaxKind::LParen) {
            Ok(_) => {},
            Err(e) => {
                return Err(e);
            },
        }
        let args = if self.peek_kind(0) != SyntaxKind::RParen {
            match self.parse_items(SyntaxKind::RParen) {
                Ok(v) => v,
                Err(e) => {
                    return Err(e);
                },
            }
        } else {
            let v: Vec<ast::Expr> = Vec::new();
            assert(exprs_view(v@) =~= Seq::<SExpr>::empty());
            v
        };
        let end_span = match self.expect(SyntaxKind::RParen) {
            Ok(t) => t.span,
            Err(e) => {
                return Err(e);
            },
        };
        let span = merge_span(&callee.span, &end_span);
        Ok(ast::Expr { kind: ast::ExprKind::Call { callee: Box::new(callee), args }, span })
    }

    /// An index of `target`: `[` expression `]`.
    pub fn parse_index(&mut self, target: ast::Expr) -> (r: Result<ast::Expr, ParseError>)
        requires
            old(self).wf(),
        ensures
            final(self).wf(),
            final(self).toks() == old(self).toks(),
            final(self).src_len() == old(self).src_len(),
            expr_res(r, final(self).pos_of()) == sp_index(
                old(self).toks(),
                old(self).src_len(),
                old(self).pos_of(),
                expr_view(target),
            ),
            r is Ok ==> old(self).pos_of() < final(self).pos_of(),
        decreases rank(old(self).toks()), old(self).toks().len() - old(self).pos_of(), 1nat,
    {
        match self.expect(SyntaxKind::LBracket) {
            Ok(_) => {},
            Err(e) => {
                return Err(e);
            },
        }
        let index = match self.parse_expr_bp(0) {
            Ok(e) => e,
            Err(e) => {
                return Err(e);
            },
        };
        let end_span = match self.expect(SyntaxKind::RBracket) {
            Ok(t) => t.span,
            Err(e) => {
                return Err(e);
            },
        };
        let span = merge_span(&target.span, &end_span);
        Ok(ast::Expr { kind: ast::ExprKind::Index { target: Box::new(target), index: Box::new(index) }, span })
    }
}

fn number_of(t: Token) -> (r: String)
    ensures
        r@ == number_text(t@),
{
    match t {
        Token::Int(n) => n,
        Token::Float(n) => n,
        _ => String::new(),
    }
}

fn string_parts_of(t: Token) -> (r: Vec<lexer::StringPart>)
    ensures
        lexer::parts_view(r@) == string_parts(t@),
{
    match t {
        Token::String(parts) => parts,
        _ => {
            let v: Vec<lexer::StringPart> = Vec::new();
            assert(lexer::parts_view(v@) =~= Seq::<SPart>::empty());
            v
        },
    }
}

impl Parser {
    /// An atom: a parenthesised expression, a name, a literal, or an array.
    pub fn parse_atom(&mut self) -> (r: Result<ast::Expr, ParseError>)
        requires
            old(self).wf(),
        ensures
            final(self).wf(),
            final(self).toks() == old(self).toks(),
            final(self).src_len() == old(self).src_len(),
            expr_res(r, final(self).pos_of()) == sp_atom(old(self).toks(), old(self).src_len(), old(self).pos_of()),
            r is Ok ==> old(self).pos_of() < final(self).pos_of(),
        decreases rank(old(self).toks()), old(self).toks().len() - old(self).pos_of(), 1nat,
    {
        let ghost t = self.toks();
        let ghost l = self.src_len();
        let ghost p0 = self.pos_of();
        let peek = self.peek(0);
        let k = peek.token.kind();
        if k == SyntaxKind::LParen {
            self.next();
            let expr = match self.parse_expr_bp(0) {
                Ok(e) => e,
                Err(e) => {
                    return Err(e);
                },
            };
            match self.expect(SyntaxKind::RParen) {
                Ok(_) => {},
                Err(e) => {
                    return Err(e);
                },
            }
            return Ok(expr);
        }
        if k == SyntaxKind::Identifier {
            let spanned = self.next();
            let span = spanned.span;
            return Ok(ast::Expr { kind: ast::ExprKind::Ident(ident_of(spanned.token)), span });
        }
        if k == SyntaxKind::True || k == SyntaxKind::False {
            let spanned = self.next();
            let span = spanned.span;
            return Ok(ast::Expr { kind: ast::ExprKind::Bool(spanned.token.kind() == SyntaxKind::True), span });
        }
        if k == SyntaxKind::Null {
            let span = self.next().span;
            return Ok(ast::Expr { kind: ast::ExprKind::Null, span });
        }
        if k == SyntaxKind::String {
            let src = self.source.clone();
            let spanned = self.next();
            let span = spanned.span;
            let parts = string_parts_of(spanned.token);
            let mut ast_parts: Vec<ast::ParsedStringPart> = Vec::new();
            assert(parsed_parts_view(ast_parts@) =~= Seq::<SParsedPart>::empty());
            let mut i: usize = 0;
            proof {
                lemma_rank_member(t, p0);
            }
            while i < parts.len()
                invariant
                    self.wf(),
                    self.toks() == t,
                    self.src_len() == l,
                    t == old(self).toks(),
                    l == old(self).src_len(),
                    p0 == old(self).pos_of(),
                    self.pos_of() == p0 + 1,
                    p0 < t.len(),
                    src_len_of(src@) == l,
                    lexer::parts_view(parts@) == string_parts(t[p0].token),
                    token_rank(t[p0].token) <= rank(t),
                    i <= parts.len(),
                    sp_parts(t, l, p0, i as int, parsed_parts_view(ast_parts@)) == sp_parts(t, l, p0, 0, Seq::empty()),
                decreases parts.len() - i,
            {
                let part = &parts[i];
                let ghost acc0 = ast_parts@;
                proof {
                    assert(string_parts(t[p0].token)[i as int] == parts@[i as int]@);
                }
                let kind = match &part.kind {
                    StringPartKind::Text(text) => ast::ParsedStringPartKind::Text(text.clone()),
                    StringPartKind::Interpolation(raw_expr) => {
                        let tokens = match lexer::lex_with_offset(raw_expr.as_str(), part.span.start) {
                            Ok(v) => v,
                            Err(e) => {
                                return Err(ParseError::Lex(e));
                            },
                        };
                        if tokens.len() == 0 {
                            return Err(ParseError::EmptyInterpolation { span: part.span });
                        }
                        proof {
                            lemma_lex_output(raw_expr@, part.span.start as int);
                            lemma_parts_rank_member(string_parts(t[p0].token), i as int);
                        }
                        let mut parser = match Parser::from_tokens(src.as_str(), &tokens) {
                            Ok(p) => p,
                            Err(e) => {
                                return Err(e);
                            },
                        };
                        let e = match parser.parse_expr() {
                            Ok(e) => e,
                            Err(e) => {
                                return Err(e);
                            },
                        };
                        ast::ParsedStringPartKind::Interpolation(Box::new(e))
                    },
                };
                let np = ast::ParsedStringPart { kind, span: part.span };
                ast_parts.push(np);
                assert(parsed_parts_view(ast_parts@) =~= parsed_parts_view(acc0).push(parsed_part_view(np)));
                i = i + 1;
            }
            return Ok(ast::Expr { kind: ast::ExprKind::StringInterpolation(ast_parts), span });
        }
        if k == SyntaxKind::Int || k == SyntaxKind::Float {
            let spanned = self.next();
            let span = spanned.span;
            return Ok(ast::Expr { kind: ast::ExprKind::Number(number_of(spanned.token)), span });
        }
        if k == SyntaxKind::LBracket {
            let start_span = self.next().span;
            let values = if self.peek_kind(0) != SyntaxKind::RBracket {
                match self.parse_items(SyntaxKind::RBracket) {
                    Ok(v) => v,
                    Err(e) => {
                        return Err(e);
                    },
                }
            } else {
                let v: Vec<ast::Expr> = Vec::new();
                assert(exprs_view(v@) =~= Seq::<SExpr>::empty());
                v
            };
            let end_span = match self.expect(SyntaxKind::RBracket) {
                Ok(t) => t.span,
                Err(e) => {
                    return Err(e);
                },
            };
            return Ok(ast::Expr { kind: ast::ExprKind::Array(values), span: merge_span(&start_span, &end_span) });
        }
        Err(ParseError::ExpectedAtom { found: k, span: peek.span })
    }
}

pub open spec fn args_res(r: Result<Vec<ast::Arg>, ParseError>, p: int) -> SRes<Seq<SArg>> {
    match r {
        Ok(v) => Ok((args_view(v@), p)),
        Err(e) => Err(e@),
    }
}

pub open spec fn arg_decl_res(r: Result<ast::ArgDeclaration, ParseError>, p: int) -> SRes<SArgDecl> {
    match r {
        Ok(a) => Ok((arg_decl_view(a), p)),
        Err(e) => Err(e@),
    }
}

pub open spec fn arg_decls_res(r: Result<Vec<ast::ArgDeclaration>, ParseError>, p: int) -> SRes<
    Seq<SArgDecl>,
> {
    match r {
        Ok(v) => Ok((arg_decls_view(v@), p)),
        Err(e) => Err(e@),
    }
}

impl Parser {
    fn parse_child_node(&mut self) -> (r: Result<ast::ChildNode, ParseError>)
        requires
            old(self).wf(),
        ensures
            final(self).wf(),
            final(self).toks() == old(self).toks(),
            final(self).src_len() == old(self).src_len(),
            node_res(r, final(self).pos_of()) == sp_child_node(old(self).toks(), old(self).src_len(), old(self).pos_of()),
            r is Ok ==> old(self).pos_of() < final(self).pos_of(),
        decreases old(self).toks().len() - old(self).pos_of(), 2nat,
    {
        let k = self.peek_kind(0);
        if k == SyntaxKind::If {
            self.parse_if_node()
        } else if k == SyntaxKind::For {
            self.parse_for_node()
        } else if k == SyntaxKind::Identifier {
            self.parse_component_call()
        } else if k == SyntaxKind::Slot {
            self.parse_slot()
        } else {
            Err(ParseError::ExpectedNode { found: k })
        }
    }

    fn parse_slot(&mut self) -> (r: Result<ast::ChildNode, ParseError>)
        requires
            old(self).wf(),
        ensures
            final(self).wf(),
            final(self).toks() == old(self).toks(),
            final(self).src_len() == old(self).src_len(),
            node_res(r, final(self).pos_of()) == sp_slot(old(self).toks(), old(self).src_len(), old(self).pos_of()),
            r is Ok ==> old(self).pos_of() < final(self).pos_of(),
    {
        match self.expect(SyntaxKind::Slot) {
            Ok(_) => {},
            Err(e) => {
                return Err(e);
            },
        }
        match self.expect(SyntaxKind::LParen) {
            Ok(_) => {},
            Err(e) => {
                return Err(e);
            },
        }
        match self.expect(SyntaxKind::RParen) {
            Ok(_) => {},
            Err(e) => {
                return Err(e);
            },
        }
        Ok(ast::ChildNode::Slot)
    }

    fn parse_if_node(&mut self) -> (r: Result<ast::ChildNode, ParseError>)
        requires
            old(self).wf(),
        ensures
            final(self).wf(),
            final(self).toks() == old(self).toks(),
            final(self).src_len() == old(self).src_len(),
            node_res(r, final(self).pos_of()) == sp_if(old(self).toks(), old(self).src_len(), old(self).pos_of()),
            r is Ok ==> old(self).pos_of() < final(self).pos_of(),
        decreases old(self).toks().len() - old(self).pos_of(), 1nat,
    {
        match self.expect(SyntaxKind::If) {
            Ok(_) => {},
            Err(e) => {
                return Err(e);
            },
        }
        match self.expect(SyntaxKind::LParen) {
            Ok(_) => {},
            Err(e) => {
                return Err(e);
            },
        }
        let condition = match self.parse_expr() {
            Ok(e) => e,
            Err(e) => {
                return Err(e);
            },
        };
        match self.expect(SyntaxKind::RParen) {
            Ok(_) => {},
            Err(e) => {
                return Err(e);
            },
        }
        let body = match self.parse_child_nodes() {
            Ok(b) => b,
            Err(e) => {
                return Err(e);
            },
        };
        Ok(ast::ChildNode::If(ast::IfBlock { condition, body }))
    }

    fn parse_for_node(&mut self) -> (r: Result<ast::ChildNode, ParseError>)
        requires
            old(self).wf(),
        ensures
            final(self).wf(),
            final(self).toks() == old(self).toks(),
            final(self).src_len() == old(self).src_len(),
            node_res(r, final(self).pos_of()) == sp_for(old(self).toks(), old(self).src_len(), old(self).pos_of()),
            r is Ok ==> old(self).pos_of() < final(self).pos_of(),
        decreases old(self).toks().len() - old(self).pos_of(), 1nat,
    {
        match self.expect(SyntaxKind::For) {
            Ok(_) => {},
            Err(e) => {
                return Err(e);
            },
        }
        match self.expect(SyntaxKind::LParen) {
            Ok(_) => {},
            Err(e) => {
                return Err(e);
            },
        }
        let name1 = match self.expect(SyntaxKind::Identifier) {
            Ok(t) => ident_of(t.token),
            Err(e) => {
                return Err(e);
            },
        };
        let mut name2: Option<String> = None;
        if self.peek_kind(0) == SyntaxKind::Comma {
            self.next();
            name2 = match self.expect(SyntaxKind::Identifier) {
                Ok(t) => Some(ident_of(t.token)),
                Err(e) => {
                    return Err(e);
                },
            };
        }
        match self.expect(SyntaxKind::In) {
            Ok(_) => {},
            Err(e) => {
                return Err(e);
            },
        }
        let iterable = match self.parse_expr() {
            Ok(e) => e,
            Err(e) => {
                return Err(e);
            },
        };
        match self.expect(SyntaxKind::RParen) {
            Ok(_) => {},
            Err(e) => {
                return Err(e);
            },
        }
        let body = match self.parse_child_nodes() {
            Ok(b) => b,
            Err(e) => {
                return Err(e);
            },
        };
        Ok(
            ast::ChildNode::For(
                match name2 {
                    Some(name2) => ast::ForBlock { index_name: Some(name1), item_name: name2, iterable, body },
                    None => ast::ForBlock { index_name: None, item_name: name1, iterable, body },
                },
            ),
        )
    }

    fn parse_component_call(&mut self) -> (r: Result<ast::ChildNode, ParseError>)
        requires
            old(self).wf(),
        ensures
            final(self).wf(),
            final(self).toks() == old(self).toks(),
            final(self).src_len() == old(self).src_len(),
            node_res(r, final(self).pos_of()) == sp_component_call(old(self).toks(), old(self).src_len(), old(self).pos_of()),
            r is Ok ==> old(self).pos_of() < final(self).pos_of(),
        decreases old(self).toks().len() - old(self).pos_of(), 1nat,
    {
        let name = match self.expect(SyntaxKind::Identifier) {
            Ok(t) => ident_of(t.token),
            Err(e) => {
                return Err(e);
            },
        };
        let args = match self.parse_args() {
            Ok(a) => a,
            Err(e) => {
                return Err(e);
            },
        };
        let body = match self.parse_child_nodes() {
            Ok(b) => b,
            Err(e) => {
                return Err(e);
            },
        };
        Ok(ast::ChildNode::ComponentCall(ast::ComponentCall { name, args, body }))
    }

    fn parse_child_nodes(&mut self) -> (r: Result<Vec<ast::ChildNode>, ParseError>)
        requires
            old(self).wf(),
        ensures
            final(self).wf(),
            final(self).toks() == old(self).toks(),
            final(self).src_len() == old(self).src_len(),
            nodes_res(r, final(self).pos_of()) == sp_child_nodes(old(self).toks(), old(self).src_len(), old(self).pos_of()),
            r is Ok ==> old(self).pos_of() <= final(self).pos_of(),
        decreases old(self).toks().len() - old(self).pos_of(), 0nat,
    {
        let ghost t = self.toks();
        let ghost l = self.src_len();
        let ghost p0 = self.pos_of();
        let mut body: Vec<ast::ChildNode> = Vec::new();
        assert(children_view(body@) =~= Seq::<SChildNode>::empty());
        if self.peek_kind(0) == SyntaxKind::LBracket {
            self.next();
            loop
                invariant_except_break
                    sp_child_items(t, l, self.pos_of(), children_view(body@)) == sp_child_items(t, l, p0 + 1, Seq::empty()),
                invariant
                    self.wf(),
                    self.toks() == t,
                    self.src_len() == l,
                    t == old(self).toks(),
                    l == old(self).src_len(),
                    p0 == old(self).pos_of(),
                    p0 < self.pos_of() <= t.len(),
                    kind_at(t, l, p0) == SyntaxKind::LBracket,
                ensures
                    sp_child_items(t, l, p0 + 1, Seq::empty()) == Ok::<_, SParseError>((children_view(body@), self.pos_of())),
                decreases t.len() - self.pos_of(),
            {
                if self.peek_kind(0) == SyntaxKind::RBracket {
                    break;
                }
                let ghost b0 = body@;
                let n = match self.parse_child_node() {
                    Ok(n) => n,
                    Err(e) => {
                        return Err(e);
                    },
                };
                body.push(n);
                assert(children_view(body@) =~= children_view(b0).push(child_view(n)));
            }
            match self.expect(SyntaxKind::RBracket) {
                Ok(_) => {},
                Err(e) => {
                    return Err(e);
                },
            }
        }
        Ok(body)
    }

    fn parse_args(&mut self) -> (r: Result<Vec<ast::Arg>, ParseError>)
        requires
            old(self).wf(),
        ensures
            final(self).wf(),
            final(self).toks() == old(self).toks(),
            final(self).src_len() == old(self).src_len(),
            args_res(r, final(self).pos_of()) == sp_args(old(self).toks(), old(self).src_len(), old(self).pos_of()),
            r is Ok ==> old(self).pos_of() < final(self).pos_of(),
    {
        let ghost t = self.toks();
        let ghost l = self.src_len();
        let ghost p0 = self.pos_of();
        match self.expect(SyntaxKind::LParen) {
            Ok(_) => {},
            Err(e) => {
                return Err(e);
            },
        }
        let ghost p1 = self.pos_of();
        let mut args: Vec<ast::Arg> = Vec::new();
        assert(args_view(args@) =~= Seq::<SArg>::empty());
        if self.peek_kind(0) != SyntaxKind::RParen {
            loop
                invariant_except_break
                    sp_arg_items(t, l, self.pos_of(), args_view(args@)) == sp_arg_items(t, l, p1, Seq::empty()),
                invariant
                    self.wf(),
                    self.toks() == t,
                    self.src_len() == l,
                    t == old(self).toks(),
                    l == old(self).src_len(),
                    p0 == old(self).pos_of(),
                    p0 < p1 <= self.pos_of() <= t.len(),
                    expect_at(t, l, p0, SyntaxKind::LParen) == Ok::<_, SParseError>((peek_at(t, l, p0), p1)),
                    kind_at(t, l, p1) != SyntaxKind::RParen,
                ensures
                    sp_arg_items(t, l, p1, Seq::empty()) == Ok::<_, SParseError>((args_view(args@), self.pos_of())),
                decreases t.len() - self.pos_of(),
            {
                let ghost a0 = args@;
                let name = match self.expect(SyntaxKind::Identifier) {
                    Ok(tok) => ident_of(tok.token),
                    Err(e) => {
                        return Err(e);
                    },
                };
                match self.expect(SyntaxKind::Assign) {
                    Ok(_) => {},
                    Err(e) => {
                        return Err(e);
                    },
                }
                let value = match self.parse_expr() {
                    Ok(e) => e,
                    Err(e) => {
                        return Err(e);
                    },
                };
                let arg = ast::Arg { name, value };
                args.push(arg);
                assert(args_view(args@) =~= args_view(a0).push(ast::arg_view(arg)));
                if self.peek_kind(0) != SyntaxKind::Comma {
                    break;
                }
                self.next();
                if self.peek_kind(0) == SyntaxKind::RParen {
                    break;
                }
            }
        }
        match self.expect(SyntaxKind::RParen) {
            Ok(_) => {},
            Err(e) => {
                return Err(e);
            },
        }
        Ok(args)
    }
}

fn has_arg(args: &Vec<ast::ArgDeclaration>, name: &String) -> (r: bool)
    ensures
        r == declares(arg_decls_view(args@), name@),
{
    let ghost v = arg_decls_view(args@);
    for i in 0..args.len()
        invariant
            v == arg_decls_view(args@),
            forall|j: int| 0 <= j < i ==> #[trigger] v[j].name != name@,
    {
        if args[i].name == *name {
            assert(v[i as int].name == name@);
            return true;
        }
    }
    false
}

pub open spec fn top_decls_res(r: Result<Vec<ast::TopDeclaration>, ParseError>, p: int) -> SRes<
    Seq<STopDecl>,
> {
    match r {
        Ok(v) => Ok((top_decls_view(v@), p)),
        Err(e) => Err(e@),
    }
}

impl Parser {
    fn parse_arg_decl(&mut self) -> (r: Result<ast::ArgDeclaration, ParseError>)
        requires
            old(self).wf(),
        ensures
            final(self).wf(),
            final(self).toks() == old(self).toks(),
            final(self).src_len() == old(self).src_len(),
            arg_decl_res(r, final(self).pos_of()) == sp_arg_decl(old(self).toks(), old(self).src_len(), old(self).pos_of()),
            r is Ok ==> old(self).pos_of() < final(self).pos_of(),
    {
        let (name, name_span) = match self.expect(SyntaxKind::Identifier) {
            Ok(spanned) => {
                let span = spanned.span;
                (ident_of(spanned.token), span)
            },
            Err(e) => {
                return Err(e);
            },
        };
        let mut default_expr: Option<ast::Expr> = None;
        if self.peek_kind(0) == SyntaxKind::Assign {
            self.next();
            default_expr = match self.parse_expr() {
                Ok(e) => Some(e),
                Err(e) => {
                    return Err(e);
                },
            };
        }
        let span = match default_expr.as_ref() {
            Some(expr) => merge_span(&name_span, &expr.span),
            None => name_span,
        };
        let default = match default_expr {
            Some(e) => Some(Box::new(e)),
            None => None,
        };
        Ok(ast::ArgDeclaration { name, default, span })
    }

    fn parse_arg_decls(&mut self) -> (r: Result<Vec<ast::ArgDeclaration>, ParseError>)
        requires
            old(self).wf(),
        ensures
            final(self).wf(),
            final(self).toks() == old(self).toks(),
            final(self).src_len() == old(self).src_len(),
            arg_decls_res(r, final(self).pos_of()) == sp_arg_decls(old(self).toks(), old(self).src_len(), old(self).pos_of()),
            r is Ok ==> old(self).pos_of() < final(self).pos_of(),
    {
        let ghost t = self.toks();
        let ghost l = self.src_len();
        let ghost p0 = self.pos_of();
        match self.expect(SyntaxKind::LParen) {
            Ok(_) => {},
            Err(e) => {
                return Err(e);
            },
        }
        let ghost p1 = self.pos_of();
        let mut args: Vec<ast::ArgDeclaration> = Vec::new();
        assert(arg_decls_view(args@) =~= Seq::<SArgDecl>::empty());
        if self.peek_kind(0) != SyntaxKind::RParen {
            loop
                invariant_except_break
                    sp_arg_decl_items(t, l, self.pos_of(), arg_decls_view(args@)) == sp_arg_decl_items(t, l, p1, Seq::empty()),
                invariant
                    self.wf(),
                    self.toks() == t,
                    self.src_len() == l,
                    t == old(self).toks(),
                    l == old(self).src_len(),
                    p0 == old(self).pos_of(),
                    p0 < p1 <= self.pos_of() <= t.len(),
                    expect_at(t, l, p0, SyntaxKind::LParen) == Ok::<_, SParseError>((peek_at(t, l, p0), p1)),
                    kind_at(t, l, p1) != SyntaxKind::RParen,
                ensures
                    sp_arg_decl_items(t, l, p1, Seq::empty()) == Ok::<_, SParseError>((arg_decls_view(args@), self.pos_of())),
                decreases t.len() - self.pos_of(),
            {
                let ghost a0 = args@;
                let arg = match self.parse_arg_decl() {
                    Ok(a) => a,
                    Err(e) => {
                        return Err(e);
                    },
                };
                if has_arg(&args, &arg.name) {
                    return Err(ParseError::DuplicateArgument { name: arg.name, span: arg.span });
                }
                args.push(arg);
                assert(arg_decls_view(args@) =~= arg_decls_view(a0).push(arg_decl_view(arg)));
                if self.peek_kind(0) == SyntaxKind::Comma {
                    self.next();
                    if self.peek_kind(0) == SyntaxKind::RParen {
                        break;
                    }
                } else {
                    break;
                }
            }
        }
        match self.expect(SyntaxKind::RParen) {
            Ok(_) => {},
            Err(e) => {
                return Err(e);
            },
        }
        Ok(args)
    }

    fn parse_const_decl(&mut self) -> (r: Result<ast::ConstDeclaration, ParseError>)
        requires
            old(self).wf(),
        ensures
            final(self).wf(),
            final(self).toks() == old(self).toks(),
            final(self).src_len() == old(self).src_len(),
            match r {
                Ok(d) => sp_const_decl(old(self).toks(), old(self).src_len(), old(self).pos_of())
                    == Ok::<_, SParseError>((top_decl_view(ast::TopDeclaration::ConstDeclaration(d)), final(self).pos_of())),
                Err(e) => sp_const_decl(old(self).toks(), old(self).src_len(), old(self).pos_of())
                    == Err::<(STopDecl, int), _>(e@),
            },
            r is Ok ==> old(self).pos_of() < final(self).pos_of(),
    {
        match self.expect(SyntaxKind::Const) {
            Ok(_) => {},
            Err(e) => {
                return Err(e);
            },
        }
        let name = match self.expect(SyntaxKind::Identifier) {
            Ok(t) => ident_of(t.token),
            Err(e) => {
                return Err(e);
            },
        };
        match self.expect(SyntaxKind::Assign) {
            Ok(_) => {},
            Err(e) => {
                return Err(e);
            },
        }
        let value = match self.parse_expr() {
            Ok(e) => e,
            Err(e) => {
                return Err(e);
            },
        };
        Ok(ast::ConstDeclaration { name, value })
    }

    /// A component declaration: `component Name ( declarations ) : child`.
    pub fn parse_component_decl(&mut self) -> (r: Result<ast::ComponentDeclaration, ParseError>)
        requires
            old(self).wf(),
        ensures
            final(self).wf(),
            final(self).toks() == old(self).toks(),
            final(self).src_len() == old(self).src_len(),
            match r {
                Ok(d) => sp_component_decl(old(self).toks(), old(self).src_len(), old(self).pos_of())
                    == Ok::<_, SParseError>((component_decl_view(d), final(self).pos_of())),
                Err(e) => sp_component_decl(old(self).toks(), old(self).src_len(), old(self).pos_of())
                    == Err::<(SComponentDecl, int), _>(e@),
            },
            r is Ok ==> old(self).pos_of() < final(self).pos_of(),
    {
        match self.expect(SyntaxKind::Component) {
            Ok(_) => {},
            Err(e) => {
                return Err(e);
            },
        }
        let name = match self.expect(SyntaxKind::Identifier) {
            Ok(t) => ident_of(t.token),
            Err(e) => {
                return Err(e);
            },
        };
        let arg_declarations = match self.parse_arg_decls() {
            Ok(a) => a,
            Err(e) => {
                return Err(e);
            },
        };
        match self.expect(SyntaxKind::Colon) {
            Ok(_) => {},
            Err(e) => {
                return Err(e);
            },
        }
        let body = match self.parse_child_node() {
            Ok(b) => b,
            Err(e) => {
                return Err(e);
            },
        };
        Ok(ast::ComponentDeclaration { name, arg_declarations, body })
    }

    fn parse_top_decls(&mut self) -> (r: Result<Vec<ast::TopDeclaration>, ParseError>)
        requires
            old(self).wf(),
        ensures
            final(self).wf(),
            final(self).toks() == old(self).toks(),
            final(self).src_len() == old(self).src_len(),
            top_decls_res(r, final(self).pos_of()) == sp_program(old(self).toks(), old(self).src_len(), old(self).pos_of()),
    {
        let ghost t = self.toks();
        let ghost l = self.src_len();
        let ghost p0 = self.pos_of();
        let mut decls: Vec<ast::TopDeclaration> = Vec::new();
        assert(top_decls_view(decls@) =~= Seq::<STopDecl>::empty());
        loop
            invariant
                self.wf(),
                self.toks() == t,
                self.src_len() == l,
                t == old(self).toks(),
                l == old(self).src_len(),
                p0 == old(self).pos_of(),
                p0 <= self.pos_of() <= t.len(),
                sp_top_decls(t, l, self.pos_of(), top_decls_view(decls@)) == sp_program(t, l, p0),
            decreases t.len() - self.pos_of(),
        {
            let ghost d0 = decls@;
            let peek = self.peek(0);
            let k = peek.token.kind();
            let d = if k == SyntaxKind::Const {
                match self.parse_const_decl() {
                    Ok(d) => ast::TopDeclaration::ConstDeclaration(d),
                    Err(e) => {
                        return Err(e);
                    },
                }
            } else if k == SyntaxKind::Component {
                match self.parse_component_decl() {
                    Ok(d) => ast::TopDeclaration::ComponentDeclaration(d),
                    Err(e) => {
                        return Err(e);
                    },
                }
            } else if k == SyntaxKind::EOF {
                return Ok(decls);
            } else {
                return Err(ParseError::ExpectedDeclaration { found: k, span: peek.span });
            };
            decls.push(d);
            assert(top_decls_view(decls@) =~= top_decls_view(d0).push(top_decl_view(d)));
        }
    }

    /// A whole program: declarations up to the end of the tokens.
    pub fn parse(&mut self) -> (r: Result<ast::SeruProgram, ParseError>)
        requires
            old(self).wf(),
        ensures
            final(self).wf(),
            final(self).toks() == old(self).toks(),
            final(self).src_len() == old(self).src_len(),
            match r {
                Ok(prog) => sp_program(old(self).toks(), old(self).src_len(), old(self).pos_of())
                    == Ok::<_, SParseError>((top_decls_view(prog.top_declarations@), final(self).pos_of())),
                Err(e) => sp_program(old(self).toks(), old(self).src_len(), old(self).pos_of())
                    == Err::<(Seq<STopDecl>, int), _>(e@),
            },
    {
        match self.parse_top_decls() {
            Ok(top_declarations) => Ok(ast::SeruProgram { top_declarations }),
            Err(e) => Err(e),
        }
    }
}

// ---------------------------------------------------------------------------
// Argument names of components
// ---------------------------------------------------------------------------
/// No name is declared twice among `decls`.
pub open spec fn distinct_names(decls: Seq<SArgDecl>) -> bool {
    forall|i: int, j: int| 0 <= i < j < decls.len() ==> #[trigger] decls[i].name != #[trigger] decls[j].name
}

/// Every component among `decls` declares each argument name once.
pub open spec fn components_distinct(decls: Seq<STopDecl>) -> bool {
    forall|i: int|
        0 <= i < decls.len() ==> match #[trigger] decls[i] {
            STopDecl::Component(c) => distinct_names(c.arg_declarations),
            STopDecl::Const { .. } => true,
        }
}

proof fn lemma_arg_items_distinct(t: Seq<SSpanned>, l: usize, p: int, acc: Seq<SArgDecl>)
    requires
        distinct_names(acc),
    ensures
        sp_arg_decl_items(t, l, p, acc) matches Ok((d, _)) ==> distinct_names(d),
    decreases t.len() - p,
{
    if 0 <= p <= t.len() {
        match sp_arg_decl(t, l, p) {
            Err(_) => {},
            Ok((a, p2)) => {
                if p2 > p && p2 <= t.len() && !declares(acc, a.name) {
                    let acc2 = acc.push(a);
                    assert(distinct_names(acc2)) by {
                        assert forall|i: int, j: int| 0 <= i < j < acc2.len() implies #[trigger] acc2[i].name
                            != #[trigger] acc2[j].name by {
                            if j == acc.len() {
                                assert(acc[i] == acc2[i]);
                            }
                        }
                    }
                    if kind_at(t, l, p2) == SyntaxKind::Comma && kind_at(t, l, p2 + 1)
                        != SyntaxKind::RParen {
                        lemma_arg_items_distinct(t, l, p2 + 1, acc2);
                    }
                }
            },
        }
    }
}

proof fn lemma_top_decls_distinct(t: Seq<SSpanned>, l: usize, p: int, acc: Seq<STopDecl>)
    requires
        components_distinct(acc),
    ensures
        sp_top_decls(t, l, p, acc) matches Ok((d, _)) ==> components_distinct(d),
    decreases t.len() - p,
{
    if 0 <= p <= t.len() {
        let k = kind_of(peek_at(t, l, p).token);
        if k == SyntaxKind::Const {
            match sp_const_decl(t, l, p) {
                Err(_) => {},
                Ok((d, p2)) => {
                    if p2 > p && p2 <= t.len() {
                        let acc2 = acc.push(d);
                        assert(components_distinct(acc2)) by {
                            assert forall|i: int| 0 <= i < acc2.len() implies match #[trigger] acc2[i] {
                                STopDecl::Component(c) => distinct_names(c.arg_declarations),
                                STopDecl::Const { .. } => true,
                            } by {
                                if i < acc.len() {
                                    assert(acc2[i] == acc[i]);
                                }
                            }
                        }
                        lemma_top_decls_distinct(t, l, p2, acc2);
                    }
                },
            }
        } else if k == SyntaxKind::Component {
            match sp_component_decl(t, l, p) {
                Err(_) => {},
                Ok((d, p2)) => {
                    if p2 > p && p2 <= t.len() {
                        lemma_component_distinct(t, l, p);
                        let acc2 = acc.push(STopDecl::Component(d));
                        assert(components_distinct(acc2)) by {
                            assert forall|i: int| 0 <= i < acc2.len() implies match #[trigger] acc2[i] {
                                STopDecl::Component(c) => distinct_names(c.arg_declarations),
                                STopDecl::Const { .. } => true,
                            } by {
                                if i < acc.len() {
                                    assert(acc2[i] == acc[i]);
                                }
                            }
                        }
                        lemma_top_decls_distinct(t, l, p2, acc2);
                    }
                },
            }
        }
    }
}

proof fn lemma_component_distinct(t: Seq<SSpanned>, l: usize, p: int)
    ensures
        sp_component_decl(t, l, p) matches Ok((c, _)) ==> distinct_names(c.arg_declarations),
{
    match expect_at(t, l, p, SyntaxKind::Component) {
        Err(_) => {},
        Ok((_, p1)) => match expect_at(t, l, p1, SyntaxKind::Identifier) {
            Err(_) => {},
            Ok((_, p2)) => match expect_at(t, l, p2, SyntaxKind::LParen) {
                Err(_) => {},
                Ok((_, p3)) => {
                    if kind_at(t, l, p3) != SyntaxKind::RParen {
                        lemma_arg_items_distinct(t, l, p3, Seq::empty());
                    }
                },
            },
        },
    }
}

/// A program that parses declares each argument name of each component once: a name declared
/// twice is refused.
pub proof fn lemma_parsed_argument_names_distinct(t: Seq<SSpanned>, l: usize, p: int)
    ensures
        sp_program(t, l, p) matches Ok((decls, _)) ==> components_distinct(decls),
{
    lemma_top_decls_distinct(t, l, p, Seq::empty());
}

// ---------------------------------------------------------------------------
// Operator precedence
// ---------------------------------------------------------------------------
/// The precedence of a binary operator: comparisons lowest, then `+ -`, then `* /`.
pub open spec fn bin_level(op: ast::BinOp) -> int {
    match op {
        ast::BinOp::Eq | ast::BinOp::Neq => 0,
        ast::BinOp::Plus | ast::BinOp::Minus => 1,
        ast::BinOp::Multiply | ast::BinOp::Divide => 2,
    }
}

/// In `x a y b z` the operator `b` takes `y` from `a` (`b`'s left power reaches `a`'s right
/// power) exactly when `b` has the higher precedence, so operators of one level group to the
/// left; and a prefix operator binds its operand tighter than any binary operator.
pub proof fn lemma_operator_precedence(a: ast::BinOp, b: ast::BinOp, u: ast::UnaryOp)
    ensures
        infix_bp(b).0 >= infix_bp(a).1 <==> bin_level(a) < bin_level(b),
        infix_bp(a).0 < infix_bp(a).1,
        prefix_bp(u) > infix_bp(a).0,
{
}

// ---------------------------------------------------------------------------
// Binary operators read as written
// ---------------------------------------------------------------------------
/// The token that spells the binary operator `op`: `+`, `-`, `*`, `/`, `==`, `!=`.
pub open spec fn op_token(op: ast::BinOp) -> SToken {
    match op {
        ast::BinOp::Plus => SToken::Plus,
        ast::BinOp::Minus => SToken::Minus,
        ast::BinOp::Multiply => SToken::Multiple,
        ast::BinOp::Divide => SToken::Divide,
        ast::BinOp::Eq => SToken::Eq,
        ast::BinOp::Neq => SToken::Neq,
    }
}

/// The name `n` with the span `sp`, as an expression.
pub open spec fn ident_expr(n: Seq<char>, sp: Span) -> SExpr {
    SExpr { kind: SExprKind::Ident(n), span: sp }
}

/// The tokens `a op b`: two names with a binary operator between them.
pub open spec fn binary_tokens(a: Seq<char>, op: ast::BinOp, b: Seq<char>, sa: Span, so: Span, sb: Span) -> Seq<
    SSpanned,
> {
    seq![
        SSpanned { token: SToken::Identifier(a), span: sa },
        SSpanned { token: op_token(op), span: so },
        SSpanned { token: SToken::Identifier(b), span: sb },
    ]
}

/// Every binary operator is read as the operator it spells: the tokens `a op b` make one
/// expression, the operator `op` applied to the names `a` and `b` in that order, covering all
/// three tokens (so `x != y` is an inequality, never an equality).
pub proof fn lemma_binary_operator_read_as_written(
    a: Seq<char>,
    op: ast::BinOp,
    b: Seq<char>,
    sa: Span,
    so: Span,
    sb: Span,
    l: usize,
)
    ensures
        sp_expr(binary_tokens(a, op, b, sa, so, sb), l, 0) == Ok::<(SExpr, int), SParseError>(
            (
                SExpr {
                    kind: SExprKind::Bin {
                        lhs: Box::new(ident_expr(a, sa)),
                        op,
                        rhs: Box::new(ident_expr(b, sb)),
                    },
                    span: merge(sa, sb),
                },
                3,
            ),
        ),
{
    let t = binary_tokens(a, op, b, sa, so, sb);
    let lhs = ident_expr(a, sa);
    let rhs = ident_expr(b, sb);
    let bin = SExpr {
        kind: SExprKind::Bin { lhs: Box::new(lhs), op, rhs: Box::new(rhs) },
        span: merge(sa, sb),
    };
    assert(t.len() == 3);
    assert(kind_at(t, l, 1) == kind_of(op_token(op)));
    assert(bin_op_of(kind_at(t, l, 1)) == Some(op));
    assert(kind_at(t, l, 3) == SyntaxKind::EOF);
    assert(sp_atom(t, l, 0) == Ok::<(SExpr, int), SParseError>((lhs, 1)));
    assert(sp_atom(t, l, 2) == Ok::<(SExpr, int), SParseError>((rhs, 3)));
    let r_bp = infix_bp(op).1;
    assert(sp_expr_loop(t, l, 3, r_bp, rhs) == Ok::<(SExpr, int), SParseError>((rhs, 3)));
    assert(sp_expr_bp(t, l, 2, r_bp) == Ok::<(SExpr, int), SParseError>((rhs, 3)));
    assert(sp_expr_loop(t, l, 3, 0, bin) == Ok::<(SExpr, int), SParseError>((bin, 3)));
    assert(sp_expr_loop(t, l, 1, 0, lhs) == Ok::<(SExpr, int), SParseError>((bin, 3)));
    assert(sp_expr_bp(t, l, 0, 0) == Ok::<(SExpr, int), SParseError>((bin, 3)));
}

/// What a single literal token stands for: `true` and `false` the booleans of those names,
/// `null` the null value, a number its own digits; `None` for other tokens.
pub open spec fn literal_of(tok: SToken) -> Option<SExprKind> {
    match tok {
        SToken::True => Some(SExprKind::Bool(true)),
        SToken::False => Some(SExprKind::Bool(false)),
        SToken::Null => Some(SExprKind::Null),
        SToken::Int(n) => Some(SExprKind::Number(n)),
        SToken::Float(n) => Some(SExprKind::Number(n)),
        _ => None,
    }
}

/// A literal token alone is read as the literal it writes, with the token's span.
pub proof fn lemma_literal_read_as_written(tok: SToken, sp: Span, l: usize)
    requires
        literal_of(tok) is Some,
    ensures
        sp_expr(seq![SSpanned { token: tok, span: sp }], l, 0) == Ok::<(SExpr, int), SParseError>(
            (SExpr { kind: literal_of(tok).unwrap(), span: sp }, 1),
        ),
{
    let t = seq![SSpanned { token: tok, span: sp }];
    let e = SExpr { kind: literal_of(tok).unwrap(), span: sp };
    assert(kind_at(t, l, 1) == SyntaxKind::EOF);
    assert(sp_atom(t, l, 0) == Ok::<(SExpr, int), SParseError>((e, 1)));
    assert(sp_expr_loop(t, l, 1, 0, e) == Ok::<(SExpr, int), SParseError>((e, 1)));
}

/// The token that spells a prefix operator: `+` or `-`.
pub open spec fn prefix_token(op: ast::UnaryOp) -> SToken {
    match op {
        ast::UnaryOp::Minus => SToken::Minus,
        _ => SToken::Plus,
    }
}

/// A prefix `+` or `-` before a name is read as that operator applied to the name.
pub proof fn lemma_prefix_operator_read_as_written(op: ast::UnaryOp, a: Seq<char>, so: Span, sa: Span, l: usize)
    requires
        op != ast::UnaryOp::Not,
    ensures
        sp_expr(
            seq![SSpanned { token: prefix_token(op), span: so }, SSpanned { token: SToken::Identifier(a), span: sa }],
            l,
            0,
        ) == Ok::<(SExpr, int), SParseError>(
            (SExpr { kind: SExprKind::Unary { op, expr: Box::new(ident_expr(a, sa)) }, span: merge(so, sa) }, 2),
        ),
{
    let t = seq![SSpanned { token: prefix_token(op), span: so }, SSpanned { token: SToken::Identifier(a), span: sa }];
    let x = ident_expr(a, sa);
    let u = SExpr { kind: SExprKind::Unary { op, expr: Box::new(x) }, span: merge(so, sa) };
    let bp = prefix_bp(op);
    assert(kind_at(t, l, 2) == SyntaxKind::EOF);
    assert(sp_atom(t, l, 1) == Ok::<(SExpr, int), SParseError>((x, 2)));
    assert(sp_expr_loop(t, l, 2, bp, x) == Ok::<(SExpr, int), SParseError>((x, 2)));
    assert(sp_expr_bp(t, l, 1, bp) == Ok::<(SExpr, int), SParseError>((x, 2)));
    assert(sp_expr_loop(t, l, 2, 0, u) == Ok::<(SExpr, int), SParseError>((u, 2)));
}

} // verus!
