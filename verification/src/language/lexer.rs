use vstd::prelude::*;
use vstd::slice::slice_subrange;

use crate::language::text::{
    bpos, byte_len, chars_of, chars_to_string, is_whitespace, is_ws, lemma_bpos_mono, lemma_bpos_step,
    utf8_width, width,
};
use crate::language::utils::Span;

verus! {

/// A piece of a string literal: plain text, or the raw source of a `${...}` interpolation.
#[derive(Debug, PartialEq, Clone)]
pub struct StringPart {
    pub kind: StringPartKind,
    pub span: Span,
}

#[derive(Debug, PartialEq, Clone)]
pub enum StringPartKind {
    Text(String),
    Interpolation(String),
}

#[derive(Debug, PartialEq, Clone)]
pub struct SpannedToken {
    pub token: Token,
    pub span: Span,
}

#[derive(Debug, PartialEq, Clone)]
pub enum Token {
    If,
    For,
    In,
    Component,
    Slot,
    Const,
    LParen,
    RParen,
    LBracket,
    RBracket,
    LBrace,
    RBrace,
    Comment(String),
    True,
    False,
    Plus,
    Minus,
    Divide,
    Multiple,
    Assign,
    Eq,
    Neq,
    Null,
    String(Vec<StringPart>),
    Comma,
    Colon,
    Float(String),
    Int(String),
    Identifier(String),
    EOF,
}

#[derive(Debug, PartialEq, Eq, Clone, Copy, Structural)]
pub enum SyntaxKind {
    If,
    For,
    In,
    Component,
    Slot,
    Const,
    LParen,
    RParen,
    LBracket,
    RBracket,
    LBrace,
    RBrace,
    Comment,
    True,
    False,
    Plus,
    Minus,
    Divide,
    Multiple,
    Assign,
    Eq,
    Neq,
    Null,
    String,
    Comma,
    Colon,
    Float,
    Int,
    Identifier,
    EOF,
}

/// Why lexing failed: no token starts at `span`.
#[derive(Debug, PartialEq, Eq, Clone, Copy, Structural)]
pub enum LexError {
    InvalidSyntax { span: Span },
}

// ---------------------------------------------------------------------------
// Mathematical model of tokens
// ---------------------------------------------------------------------------
pub enum SPartKind {
    Text(Seq<char>),
    Interpolation(Seq<char>),
}

pub struct SPart {
    pub kind: SPartKind,
    pub span: Span,
}

pub enum SToken {
    If,
    For,
    In,
    Component,
    Slot,
    Const,
    LParen,
    RParen,
    LBracket,
    RBracket,
    LBrace,
    RBrace,
    Comment(Seq<char>),
    True,
    False,
    Plus,
    Minus,
    Divide,
    Multiple,
    Assign,
    Eq,
    Neq,
    Null,
    String(Seq<SPart>),
    Comma,
    Colon,
    Float(Seq<char>),
    Int(Seq<char>),
    Identifier(Seq<char>),
    EOF,
}

pub struct SSpanned {
    pub token: SToken,
    pub span: Span,
}

impl View for StringPartKind {
    type V = SPartKind;

    open spec fn view(&self) -> SPartKind {
        match self {
            StringPartKind::Text(t) => SPartKind::Text(t@),
            StringPartKind::Interpolation(t) => SPartKind::Interpolation(t@),
        }
    }
}

impl View for StringPart {
    type V = SPart;

    open spec fn view(&self) -> SPart {
        SPart { kind: self.kind@, span: self.span }
    }
}

pub open spec fn parts_view(v: Seq<StringPart>) -> Seq<SPart> {
    v.map_values(|p: StringPart| p@)
}

impl View for Token {
    type V = SToken;

    open spec fn view(&self) -> SToken {
        match self {
            Token::If => SToken::If,
            Token::For => SToken::For,
            Token::In => SToken::In,
            Token::Component => SToken::Component,
            Token::Slot => SToken::Slot,
            Token::Const => SToken::Const,
            Token::LParen => SToken::LParen,
            Token::RParen => SToken::RParen,
            Token::LBracket => SToken::LBracket,
            Token::RBracket => SToken::RBracket,
            Token::LBrace => SToken::LBrace,
            Token::RBrace => SToken::RBrace,
            Token::Comment(c) => SToken::Comment(c@),
            Token::True => SToken::True,
            Token::False => SToken::False,
            Token::Plus => SToken::Plus,
            Token::Minus => SToken::Minus,
            Token::Divide => SToken::Divide,
            Token::Multiple => SToken::Multiple,
            Token::Assign => SToken::Assign,
            Token::Eq => SToken::Eq,
            Token::Neq => SToken::Neq,
            Token::Null => SToken::Null,
            Token::String(parts) => SToken::String(parts_view(parts@)),
            Token::Comma => SToken::Comma,
            Token::Colon => SToken::Colon,
            Token::Float(t) => SToken::Float(t@),
            Token::Int(t) => SToken::Int(t@),
            Token::Identifier(t) => SToken::Identifier(t@),
            Token::EOF => SToken::EOF,
        }
    }
}

impl View for SpannedToken {
    type V = SSpanned;

    open spec fn view(&self) -> SSpanned {
        SSpanned { token: self.token@, span: self.span }
    }
}

pub open spec fn tokens_view(v: Seq<SpannedToken>) -> Seq<SSpanned> {
    v.map_values(|t: SpannedToken| t@)
}

/// The syntax kind of a token: its variant, without its payload.
pub open spec fn kind_of(t: SToken) -> SyntaxKind {
    match t {
        SToken::If => SyntaxKind::If,
        SToken::For => SyntaxKind::For,
        SToken::In => SyntaxKind::In,
        SToken::Component => SyntaxKind::Component,
        SToken::Slot => SyntaxKind::Slot,
        SToken::Const => SyntaxKind::Const,
        SToken::LParen => SyntaxKind::LParen,
        SToken::RParen => SyntaxKind::RParen,
        SToken::LBracket => SyntaxKind::LBracket,
        SToken::RBracket => SyntaxKind::RBracket,
        SToken::LBrace => SyntaxKind::LBrace,
        SToken::RBrace => SyntaxKind::RBrace,
        SToken::Comment(_) => SyntaxKind::Comment,
        SToken::True => SyntaxKind::True,
        SToken::False => SyntaxKind::False,
        SToken::Plus => SyntaxKind::Plus,
        SToken::Minus => SyntaxKind::Minus,
        SToken::Divide => SyntaxKind::Divide,
        SToken::Multiple => SyntaxKind::Multiple,
        SToken::Assign => SyntaxKind::Assign,
        SToken::Eq => SyntaxKind::Eq,
        SToken::Neq => SyntaxKind::Neq,
        SToken::Null => SyntaxKind::Null,
        SToken::String(_) => SyntaxKind::String,
        SToken::Comma => SyntaxKind::Comma,
        SToken::Colon => SyntaxKind::Colon,
        SToken::Float(_) => SyntaxKind::Float,
        SToken::Int(_) => SyntaxKind::Int,
        SToken::Identifier(_) => SyntaxKind::Identifier,
        SToken::EOF => SyntaxKind::EOF,
    }
}

// ---------------------------------------------------------------------------
// The token grammar over the characters of the source
// ---------------------------------------------------------------------------
/// Whether `c` has Unicode's `XID_Start` property.
pub uninterp spec fn unicode_xid_start(c: char) -> bool;

/// Whether `c` has Unicode's `XID_Continue` property.
pub uninterp spec fn unicode_xid_continue(c: char) -> bool;

/// `unicode_ident::is_xid_start`: the result is Unicode's `XID_Start` property of `c`, a table
/// that is not restated here beyond ASCII, where it holds of the letters alone.
#[verifier::external_body]
fn char_is_xid_start(c: char) -> (r: bool)
    ensures
        r == unicode_xid_start(c),
        (c as u32) < 0x80 ==> (r <==> is_ascii_letter(c)),
{
    unicode_ident::is_xid_start(c)
}

/// `unicode_ident::is_xid_continue`: the result is Unicode's `XID_Continue` property of `c`, a
/// table that is not restated here beyond ASCII, where it holds of letters, digits and `_`.
#[verifier::external_body]
fn char_is_xid_continue(c: char) -> (r: bool)
    ensures
        r == unicode_xid_continue(c),
        (c as u32) < 0x80 ==> (r <==> (is_ascii_letter(c) || is_digit(c) || c == '_')),
{
    unicode_ident::is_xid_continue(c)
}

/// An ASCII letter, `A`-`Z` or `a`-`z`.
pub open spec fn is_ascii_letter(c: char) -> bool {
    (0x41 <= (c as u32) <= 0x5A) || (0x61 <= (c as u32) <= 0x7A)
}

pub open spec fn is_digit(c: char) -> bool {
    0x30 <= (c as u32) <= 0x39
}

/// A character that may start an identifier: among ASCII characters a letter or `_`; beyond
/// ASCII, `_` is none of them and a character may start one when it has `XID_Start`.
pub open spec fn ident_start(c: char) -> bool {
    if (c as u32) < 0x80 {
        c == '_' || is_ascii_letter(c)
    } else {
        unicode_xid_start(c)
    }
}

/// A character that may continue an identifier: among ASCII characters a letter, a digit or
/// `_`; beyond ASCII, one with `XID_Continue`.
pub open spec fn ident_continue(c: char) -> bool {
    if (c as u32) < 0x80 {
        is_ascii_letter(c) || is_digit(c) || c == '_'
    } else {
        unicode_xid_continue(c)
    }
}

/// End of the run of white space that starts at `i`.
pub open spec fn ws_end(s: Seq<char>, i: int) -> int
    decreases s.len() - i,
{
    if 0 <= i < s.len() && is_ws(s[i]) {
        ws_end(s, i + 1)
    } else {
        i
    }
}

/// End of a line comment whose text continues at `i`: the first `\r` or `\n`, or the end.
pub open spec fn comment_end(s: Seq<char>, i: int) -> int
    decreases s.len() - i,
{
    if 0 <= i < s.len() && s[i] != '\r' && s[i] != '\n' {
        comment_end(s, i + 1)
    } else {
        i
    }
}

/// End of the run of decimal digits that starts at `i`.
pub open spec fn digits_end(s: Seq<char>, i: int) -> int
    decreases s.len() - i,
{
    if 0 <= i < s.len() && is_digit(s[i]) {
        digits_end(s, i + 1)
    } else {
        i
    }
}

/// End of the run of identifier characters that starts at `i`.
pub open spec fn ident_end(s: Seq<char>, i: int) -> int
    decreases s.len() - i,
{
    if 0 <= i < s.len() && ident_continue(s[i]) {
        ident_end(s, i + 1)
    } else {
        i
    }
}

/// End of the integer `0|[1-9][0-9]*` that starts at the digit at `i`.
pub open spec fn int_end(s: Seq<char>, i: int) -> int {
    if s[i] == '0' {
        i + 1
    } else {
        digits_end(s, i + 1)
    }
}

/// The keyword spelled by `w`, if it is one. The child nodes `If` and `For` are capitalized like
/// components; the lower-case `if` is the name of a builtin function.
pub open spec fn keyword(w: Seq<char>) -> Option<SToken> {
    if w.len() == 2 && w[0] == 'I' && w[1] == 'f' {
        Some(SToken::If)
    } else if w.len() == 3 && w[0] == 'F' && w[1] == 'o' && w[2] == 'r' {
        Some(SToken::For)
    } else if w.len() == 2 && w[0] == 'i' && w[1] == 'n' {
        Some(SToken::In)
    } else if w.len() == 9 && w[0] == 'c' && w[1] == 'o' && w[2] == 'm' && w[3] == 'p' && w[4]
        == 'o' && w[5] == 'n' && w[6] == 'e' && w[7] == 'n' && w[8] == 't' {
        Some(SToken::Component)
    } else if w.len() == 4 && w[0] == 'S' && w[1] == 'l' && w[2] == 'o' && w[3] == 't' {
        Some(SToken::Slot)
    } else if w.len() == 5 && w[0] == 'c' && w[1] == 'o' && w[2] == 'n' && w[3] == 's' && w[4]
        == 't' {
        Some(SToken::Const)
    } else if w.len() == 4 && w[0] == 't' && w[1] == 'r' && w[2] == 'u' && w[3] == 'e' {
        Some(SToken::True)
    } else if w.len() == 5 && w[0] == 'f' && w[1] == 'a' && w[2] == 'l' && w[3] == 's' && w[4]
        == 'e' {
        Some(SToken::False)
    } else if w.len() == 4 && w[0] == 'n' && w[1] == 'u' && w[2] == 'l' && w[3] == 'l' {
        Some(SToken::Null)
    } else {
        None
    }
}

/// The character that the escape `\c` stands for.
pub open spec fn unescape(c: char) -> char {
    if c == 'n' {
        '\n'
    } else if c == 'r' {
        '\r'
    } else if c == 't' {
        '\t'
    } else {
        c
    }
}

/// Index of the `}` that closes an interpolation, scanning from `j` with `depth` braces open.
pub open spec fn close_brace(s: Seq<char>, j: int, depth: nat) -> Option<int>
    decreases s.len() - j,
{
    if j < 0 || j >= s.len() {
        None
    } else if s[j] == '{' {
        close_brace(s, j + 1, depth + 1)
    } else if s[j] == '}' {
        if depth <= 1 {
            Some(j)
        } else {
            close_brace(s, j + 1, (depth - 1) as nat)
        }
    } else {
        close_brace(s, j + 1, depth)
    }
}

pub open spec fn mk_span(start: int, end: int) -> Span {
    Span { start: start as usize, end: end as usize }
}

/// `parts` with the pending text `text` (spanning from character `seg` to `j`) appended,
/// when that text is not empty.
pub open spec fn flush_text(s: Seq<char>, parts: Seq<SPart>, text: Seq<char>, seg: int, j: int) -> Seq<
    SPart,
> {
    if text.len() > 0 {
        parts.push(SPart { kind: SPartKind::Text(text), span: mk_span(bpos(s, seg) as int, bpos(s, j) as int) })
    } else {
        parts
    }
}

/// The body of a string literal, from character `j` on: the parts read so far are `parts`,
/// the pending text is `text`, which started at character `seg`. The result is the parts and
/// the index just past the closing quote, or `None` when the literal is not terminated.
pub open spec fn string_body(s: Seq<char>, j: int, parts: Seq<SPart>, text: Seq<char>, seg: int) -> Option<
    (Seq<SPart>, int),
>
    decreases s.len() - j,
{
    if j < 0 || j >= s.len() {
        None
    } else if s[j] == '"' {
        Some((flush_text(s, parts, text, seg, j), j + 1))
    } else if s[j] == '\\' {
        if j + 1 >= s.len() {
            None
        } else {
            string_body(s, j + 2, parts, text.push(unescape(s[j + 1])), seg)
        }
    } else if s[j] == '$' && j + 1 < s.len() && s[j + 1] == '{' {
        let parts2 = flush_text(s, parts, text, seg, j);
        match close_brace(s, j + 2, 1) {
            None => None,
            Some(k) => if k < j + 2 || k >= s.len() {
                None
            } else {
                string_body(
                    s,
                    k + 1,
                    parts2.push(
                        SPart {
                            kind: SPartKind::Interpolation(s.subrange(j + 2, k)),
                            span: mk_span(bpos(s, j + 2) as int, bpos(s, k) as int),
                        },
                    ),
                    Seq::<char>::empty(),
                    k + 1,
                )
            },
        }
    } else {
        string_body(s, j + 1, parts, text.push(s[j]), seg)
    }
}

/// What the source holds at character `i`.
pub enum Scan {
    /// White space up to the given index.
    Skip(int),
    /// A token that ends at the given index.
    Tok(SToken, int),
    /// No token; the offending text ends at the given index.
    Bad(int),
}

/// The longest token (or white space) that starts at character `i` of `s`.
pub open spec fn scan(s: Seq<char>, i: int) -> Scan {
    let c = s[i];
    let next_is = |d: char| i + 1 < s.len() && s[i + 1] == d;
    if is_ws(c) {
        Scan::Skip(ws_end(s, i))
    } else if c == '(' {
        Scan::Tok(SToken::LParen, i + 1)
    } else if c == ')' {
        Scan::Tok(SToken::RParen, i + 1)
    } else if c == '[' {
        Scan::Tok(SToken::LBracket, i + 1)
    } else if c == ']' {
        Scan::Tok(SToken::RBracket, i + 1)
    } else if c == '{' {
        Scan::Tok(SToken::LBrace, i + 1)
    } else if c == '}' {
        Scan::Tok(SToken::RBrace, i + 1)
    } else if c == '+' {
        Scan::Tok(SToken::Plus, i + 1)
    } else if c == '-' {
        Scan::Tok(SToken::Minus, i + 1)
    } else if c == '*' {
        Scan::Tok(SToken::Multiple, i + 1)
    } else if c == ',' {
        Scan::Tok(SToken::Comma, i + 1)
    } else if c == ':' {
        Scan::Tok(SToken::Colon, i + 1)
    } else if c == '/' {
        if next_is('/') {
            let e = comment_end(s, i + 2);
            Scan::Tok(SToken::Comment(s.subrange(i, e)), e)
        } else {
            Scan::Tok(SToken::Divide, i + 1)
        }
    } else if c == '=' {
        if next_is('=') {
            Scan::Tok(SToken::Eq, i + 2)
        } else {
            Scan::Tok(SToken::Assign, i + 1)
        }
    } else if c == '!' {
        if next_is('=') {
            Scan::Tok(SToken::Neq, i + 2)
        } else {
            Scan::Bad(i + 1)
        }
    } else if c == '"' {
        match string_body(s, i + 1, Seq::empty(), Seq::empty(), i + 1) {
            Some((parts, e)) => Scan::Tok(SToken::String(parts), e),
            None => Scan::Bad(i + 1),
        }
    } else if is_digit(c) {
        let e = int_end(s, i);
        if e + 1 < s.len() && s[e] == '.' && is_digit(s[e + 1]) {
            let f = digits_end(s, e + 1);
            Scan::Tok(SToken::Float(s.subrange(i, f)), f)
        } else {
            Scan::Tok(SToken::Int(s.subrange(i, e)), e)
        }
    } else if ident_start(c) {
        let e = ident_end(s, i + 1);
        let w = s.subrange(i, e);
        match keyword(w) {
            Some(k) => Scan::Tok(k, e),
            None => Scan::Tok(SToken::Identifier(w), e),
        }
    } else {
        Scan::Bad(i + 1)
    }
}

/// Lexing from character `i` on, with the tokens `acc` already read; spans are byte offsets
/// shifted by `offset`. Comments and white space are dropped; the first position at which no
/// token starts is the error.
pub open spec fn lex_from(s: Seq<char>, i: int, offset: int, acc: Seq<SSpanned>) -> Result<
    Seq<SSpanned>,
    Span,
>
    decreases s.len() - i,
{
    if i < 0 || i >= s.len() {
        Ok(acc)
    } else {
        match scan(s, i) {
            Scan::Skip(e) => if e <= i || e > s.len() {
                Ok(acc)
            } else {
                lex_from(s, e, offset, acc)
            },
            Scan::Tok(t, e) => if e <= i || e > s.len() {
                Ok(acc)
            } else if t is Comment {
                lex_from(s, e, offset, acc)
            } else {
                lex_from(
                    s,
                    e,
                    offset,
                    acc.push(SSpanned { token: t, span: mk_span(offset + bpos(s, i), offset + bpos(s, e)) }),
                )
            },
            Scan::Bad(e) => Err(mk_span(offset + bpos(s, i), offset + bpos(s, e))),
        }
    }
}

/// The tokens of `s`, with spans shifted by `offset`.
pub open spec fn spec_lex(s: Seq<char>, offset: int) -> Result<Seq<SSpanned>, Span> {
    lex_from(s, 0, offset, Seq::empty())
}

// ---------------------------------------------------------------------------
// Facts about the token grammar
// ---------------------------------------------------------------------------
proof fn lemma_ws_end(s: Seq<char>, i: int)
    requires
        0 <= i <= s.len(),
    ensures
        i <= ws_end(s, i) <= s.len(),
    decreases s.len() - i,
{
    if i < s.len() && is_ws(s[i]) {
        lemma_ws_end(s, i + 1);
    }
}

proof fn lemma_comment_end(s: Seq<char>, i: int)
    requires
        0 <= i <= s.len(),
    ensures
        i <= comment_end(s, i) <= s.len(),
    decreases s.len() - i,
{
    if i < s.len() && s[i] != '\r' && s[i] != '\n' {
        lemma_comment_end(s, i + 1);
    }
}

proof fn lemma_digits_end(s: Seq<char>, i: int)
    requires
        0 <= i <= s.len(),
    ensures
        i <= digits_end(s, i) <= s.len(),
    decreases s.len() - i,
{
    if i < s.len() && is_digit(s[i]) {
        lemma_digits_end(s, i + 1);
    }
}

proof fn lemma_ident_end(s: Seq<char>, i: int)
    requires
        0 <= i <= s.len(),
    ensures
        i <= ident_end(s, i) <= s.len(),
    decreases s.len() - i,
{
    if i < s.len() && ident_continue(s[i]) {
        lemma_ident_end(s, i + 1);
    }
}

proof fn lemma_close_brace(s: Seq<char>, j: int, depth: nat)
    requires
        0 <= j,
    ensures
        close_brace(s, j, depth) matches Some(k) ==> j <= k < s.len() && s[k] == '}',
    decreases s.len() - j,
{
    if 0 <= j < s.len() {
        if s[j] == '{' {
            lemma_close_brace(s, j + 1, depth + 1);
        } else if s[j] == '}' {
            if depth > 1 {
                lemma_close_brace(s, j + 1, (depth - 1) as nat);
            }
        } else {
            lemma_close_brace(s, j + 1, depth);
        }
    }
}

proof fn lemma_string_body(s: Seq<char>, j: int, parts: Seq<SPart>, text: Seq<char>, seg: int)
    requires
        0 <= j,
    ensures
        string_body(s, j, parts, text, seg) matches Some((_, e)) ==> j < e <= s.len(),
    decreases s.len() - j,
{
    if 0 <= j < s.len() {
        if s[j] == '"' {
        } else if s[j] == '\\' {
            if j + 1 < s.len() {
                lemma_string_body(s, j + 2, parts, text.push(unescape(s[j + 1])), seg);
            }
        } else if s[j] == '$' && j + 1 < s.len() && s[j + 1] == '{' {
            let parts2 = flush_text(s, parts, text, seg, j);
            match close_brace(s, j + 2, 1) {
                None => {},
                Some(k) => {
                    if !(k < j + 2 || k >= s.len()) {
                        lemma_string_body(
                            s,
                            k + 1,
                            parts2.push(
                                SPart {
                                    kind: SPartKind::Interpolation(s.subrange(j + 2, k)),
                                    span: mk_span(bpos(s, j + 2) as int, bpos(s, k) as int),
                                },
                            ),
                            Seq::<char>::empty(),
                            k + 1,
                        );
                    }
                },
            }
        } else {
            lemma_string_body(s, j + 1, parts, text.push(s[j]), seg);
        }
    }
}

/// What `scan` reads at `i` always ends after `i`, within the source.
proof fn lemma_scan_end(s: Seq<char>, i: int)
    requires
        0 <= i < s.len(),
    ensures
        match scan(s, i) {
            Scan::Skip(e) => i < e <= s.len(),
            Scan::Tok(_, e) => i < e <= s.len(),
            Scan::Bad(e) => i < e <= s.len(),
        },
{
    lemma_ws_end(s, i);
    lemma_ws_end(s, i + 1);
    if i + 2 <= s.len() {
        lemma_comment_end(s, i + 2);
    }
    lemma_string_body(s, i + 1, Seq::empty(), Seq::empty(), i + 1);
    lemma_digits_end(s, i + 1);
    if s[i] != '0' && is_digit(s[i]) {
        let e = int_end(s, i);
        if e + 1 < s.len() {
            lemma_digits_end(s, e + 1);
        }
    }
    if s[i] == '0' && i + 2 < s.len() {
        lemma_digits_end(s, i + 2);
    }
    lemma_ident_end(s, i + 1);
}

// ---------------------------------------------------------------------------
// The lexer
// ---------------------------------------------------------------------------
impl Token {
    /// A copy of this token.
    pub fn clone_token(&self) -> (r: Token)
        ensures
            r@ == self@,
    {
        match self {
            Token::If => Token::If,
            Token::For => Token::For,
            Token::In => Token::In,
            Token::Component => Token::Component,
            Token::Slot => Token::Slot,
            Token::Const => Token::Const,
            Token::LParen => Token::LParen,
            Token::RParen => Token::RParen,
            Token::LBracket => Token::LBracket,
            Token::RBracket => Token::RBracket,
            Token::LBrace => Token::LBrace,
            Token::RBrace => Token::RBrace,
            Token::Comment(c) => Token::Comment(c.clone()),
            Token::True => Token::True,
            Token::False => Token::False,
            Token::Plus => Token::Plus,
            Token::Minus => Token::Minus,
            Token::Divide => Token::Divide,
            Token::Multiple => Token::Multiple,
            Token::Assign => Token::Assign,
            Token::Eq => Token::Eq,
            Token::Neq => Token::Neq,
            Token::Null => Token::Null,
            Token::String(parts) => Token::String(clone_parts(parts)),
            Token::Comma => Token::Comma,
            Token::Colon => Token::Colon,
            Token::Float(t) => Token::Float(t.clone()),
            Token::Int(t) => Token::Int(t.clone()),
            Token::Identifier(t) => Token::Identifier(t.clone()),
            Token::EOF => Token::EOF,
        }
    }

    /// The syntax kind of this token.
    pub fn kind(&self) -> (k: SyntaxKind)
        ensures
            k == kind_of(self@),
    {
        match self {
            Token::If => SyntaxKind::If,
            Token::For => SyntaxKind::For,
            Token::In => SyntaxKind::In,
            Token::Component => SyntaxKind::Component,
            Token::Slot => SyntaxKind::Slot,
            Token::Const => SyntaxKind::Const,
            Token::LParen => SyntaxKind::LParen,
            Token::RParen => SyntaxKind::RParen,
            Token::LBracket => SyntaxKind::LBracket,
            Token::RBracket => SyntaxKind::RBracket,
            Token::LBrace => SyntaxKind::LBrace,
            Token::RBrace => SyntaxKind::RBrace,
            Token::Comment(_) => SyntaxKind::Comment,
            Token::True => SyntaxKind::True,
            Token::False => SyntaxKind::False,
            Token::Plus => SyntaxKind::Plus,
            Token::Minus => SyntaxKind::Minus,
            Token::Divide => SyntaxKind::Divide,
            Token::Multiple => SyntaxKind::Multiple,
            Token::Assign => SyntaxKind::Assign,
            Token::Eq => SyntaxKind::Eq,
            Token::Neq => SyntaxKind::Neq,
            Token::Null => SyntaxKind::Null,
            Token::String(_) => SyntaxKind::String,
            Token::Comma => SyntaxKind::Comma,
            Token::Colon => SyntaxKind::Colon,
            Token::Float(_) => SyntaxKind::Float,
            Token::Int(_) => SyntaxKind::Int,
            Token::Identifier(_) => SyntaxKind::Identifier,
            Token::EOF => SyntaxKind::EOF,
        }
    }
}

impl SpannedToken {
    /// A copy of this token and its span.
    pub fn clone_spanned(&self) -> (r: SpannedToken)
        ensures
            r@ == self@,
    {
        SpannedToken { token: self.token.clone_token(), span: self.span }
    }
}

fn clone_part(p: &StringPart) -> (r: StringPart)
    ensures
        r@ == p@,
{
    let kind = match &p.kind {
        StringPartKind::Text(t) => StringPartKind::Text(t.clone()),
        StringPartKind::Interpolation(t) => StringPartKind::Interpolation(t.clone()),
    };
    StringPart { kind, span: p.span }
}

fn clone_parts(v: &Vec<StringPart>) -> (r: Vec<StringPart>)
    ensures
        parts_view(r@) == parts_view(v@),
{
    let mut r: Vec<StringPart> = Vec::new();
    for i in 0..v.len()
        invariant
            parts_view(r@) =~= parts_view(v@.take(i as int)),
    {
        let ghost r0 = r@;
        let p = clone_part(&v[i]);
        r.push(p);
        assert(r@ =~= r0.push(p));
        assert(parts_view(r@) =~= parts_view(r0).push(p@));
        assert(v@.take(i + 1) =~= v@.take(i as int).push(v@[i as int]));
        assert(parts_view(v@.take(i + 1)) =~= parts_view(v@.take(i as int)).push(v@[i as int]@));
    }
    assert(v@.take(v.len() as int) =~= v@);
    r
}

impl From<Token> for SyntaxKind {
    fn from(token: Token) -> (k: SyntaxKind) {
        token.kind()
    }
}

impl vstd::std_specs::convert::FromSpecImpl<Token> for SyntaxKind {
    open spec fn obeys_from_spec() -> bool {
        true
    }

    open spec fn from_spec(token: Token) -> SyntaxKind {
        kind_of(token@)
    }
}

impl From<SpannedToken> for SyntaxKind {
    fn from(spanned_token: SpannedToken) -> (k: SyntaxKind) {
        spanned_token.token.kind()
    }
}

impl vstd::std_specs::convert::FromSpecImpl<SpannedToken> for SyntaxKind {
    open spec fn obeys_from_spec() -> bool {
        true
    }

    open spec fn from_spec(spanned_token: SpannedToken) -> SyntaxKind {
        kind_of(spanned_token.token@)
    }
}

/// What the exec scanner found at a position.
enum Step {
    Skip(usize),
    Tok(Token, usize),
    Bad(usize),
}

spec fn step_view(st: Step) -> Scan {
    match st {
        Step::Skip(e) => Scan::Skip(e as int),
        Step::Tok(t, e) => Scan::Tok(t@, e as int),
        Step::Bad(e) => Scan::Bad(e as int),
    }
}

fn skip_ws(s: &Vec<char>, i: usize) -> (e: usize)
    requires
        i <= s.len(),
    ensures
        e == ws_end(s@, i as int),
{
    let mut j = i;
    while j < s.len() && is_whitespace(s[j])
        invariant
            i <= j <= s.len(),
            ws_end(s@, j as int) == ws_end(s@, i as int),
        decreases s.len() - j,
    {
        j = j + 1;
    }
    j
}

fn skip_comment(s: &Vec<char>, i: usize) -> (e: usize)
    requires
        i <= s.len(),
    ensures
        e == comment_end(s@, i as int),
{
    let mut j = i;
    while j < s.len() && s[j] != '\r' && s[j] != '\n'
        invariant
            i <= j <= s.len(),
            comment_end(s@, j as int) == comment_end(s@, i as int),
        decreases s.len() - j,
    {
        j = j + 1;
    }
    j
}

fn digit_char(c: char) -> (r: bool)
    ensures
        r == is_digit(c),
{
    let u = c as u32;
    0x30 <= u && u <= 0x39
}

fn skip_digits(s: &Vec<char>, i: usize) -> (e: usize)
    requires
        i <= s.len(),
    ensures
        e == digits_end(s@, i as int),
{
    let mut j = i;
    while j < s.len() && digit_char(s[j])
        invariant
            i <= j <= s.len(),
            digits_end(s@, j as int) == digits_end(s@, i as int),
        decreases s.len() - j,
    {
        j = j + 1;
    }
    j
}

fn is_ident_start(c: char) -> (r: bool)
    ensures
        r == ident_start(c),
{
    c == '_' || char_is_xid_start(c)
}

fn is_ident_continue(c: char) -> (r: bool)
    ensures
        r == ident_continue(c),
{
    char_is_xid_continue(c)
}

fn skip_ident(s: &Vec<char>, i: usize) -> (e: usize)
    requires
        i <= s.len(),
    ensures
        e == ident_end(s@, i as int),
{
    let mut j = i;
    while j < s.len() && is_ident_continue(s[j])
        invariant
            i <= j <= s.len(),
            ident_end(s@, j as int) == ident_end(s@, i as int),
        decreases s.len() - j,
    {
        j = j + 1;
    }
    j
}

fn keyword_token(s: &Vec<char>, i: usize, e: usize) -> (r: Option<Token>)
    requires
        i <= e <= s.len(),
    ensures
        match keyword(s@.subrange(i as int, e as int)) {
            Some(k) => r matches Some(t) && t@ == k,
            None => r is None,
        },
{
    let n = e - i;
    let ghost w = s@.subrange(i as int, e as int);
    if n == 2 && s[i] == 'I' && s[i + 1] == 'f' {
        Some(Token::If)
    } else if n == 3 && s[i] == 'F' && s[i + 1] == 'o' && s[i + 2] == 'r' {
        Some(Token::For)
    } else if n == 2 && s[i] == 'i' && s[i + 1] == 'n' {
        Some(Token::In)
    } else if n == 9 && s[i] == 'c' && s[i + 1] == 'o' && s[i + 2] == 'm' && s[i + 3] == 'p' && s[i
        + 4] == 'o' && s[i + 5] == 'n' && s[i + 6] == 'e' && s[i + 7] == 'n' && s[i + 8] == 't' {
        Some(Token::Component)
    } else if n == 4 && s[i] == 'S' && s[i + 1] == 'l' && s[i + 2] == 'o' && s[i + 3] == 't' {
        Some(Token::Slot)
    } else if n == 5 && s[i] == 'c' && s[i + 1] == 'o' && s[i + 2] == 'n' && s[i + 3] == 's' && s[i
        + 4] == 't' {
        Some(Token::Const)
    } else if n == 4 && s[i] == 't' && s[i + 1] == 'r' && s[i + 2] == 'u' && s[i + 3] == 'e' {
        Some(Token::True)
    } else if n == 5 && s[i] == 'f' && s[i + 1] == 'a' && s[i + 2] == 'l' && s[i + 3] == 's' && s[i
        + 4] == 'e' {
        Some(Token::False)
    } else if n == 4 && s[i] == 'n' && s[i + 1] == 'u' && s[i + 2] == 'l' && s[i + 3] == 'l' {
        Some(Token::Null)
    } else {
        None
    }
}

fn unescape_char(c: char) -> (r: char)
    ensures
        r == unescape(c),
{
    if c == 'n' {
        '\n'
    } else if c == 'r' {
        '\r'
    } else if c == 't' {
        '\t'
    } else {
        c
    }
}

fn sub_string(s: &Vec<char>, i: usize, e: usize) -> (r: String)
    requires
        i <= e <= s.len(),
    ensures
        r@ == s@.subrange(i as int, e as int),
{
    chars_to_string(slice_subrange(s.as_slice(), i, e))
}

/// Finds the `}` that closes an interpolation whose text starts at `j0`; also returns its byte
/// offset.
fn find_close(s: &Vec<char>, j0: usize, b0: usize) -> (r: Option<(usize, usize)>)
    requires
        1 <= j0 <= s.len(),
        b0 == bpos(s@, j0 as int),
        byte_len(s@) <= usize::MAX,
    ensures
        match r {
            Some((k, bk)) => close_brace(s@, j0 as int, 1) == Some(k as int) && bk == bpos(
                s@,
                k as int,
            ),
            None => close_brace(s@, j0 as int, 1) is None,
        },
{
    let mut j = j0;
    let mut b = b0;
    let mut depth: usize = 1;
    while j < s.len()
        invariant
            1 <= j0 <= j <= s.len(),
            b == bpos(s@, j as int),
            1 <= depth <= j - j0 + 1,
            byte_len(s@) <= usize::MAX,
            close_brace(s@, j as int, depth as nat) == close_brace(s@, j0 as int, 1),
        decreases s.len() - j,
    {
        let c = s[j];
        if c == '{' {
            depth = depth + 1;
        } else if c == '}' {
            if depth == 1 {
                return Some((j, b));
            }
            depth = depth - 1;
        }
        proof {
            lemma_bpos_step(s@, j as int);
            lemma_bpos_mono(s@, j + 1, s.len() as int);
        }
        b = b + utf8_width(c);
        j = j + 1;
    }
    None
}

fn text_part(text: &Vec<char>, start: usize, end: usize) -> (p: StringPart)
    ensures
        p@ == (SPart { kind: SPartKind::Text(text@), span: Span { start, end } }),
{
    StringPart { kind: StringPartKind::Text(chars_to_string(text.as_slice())), span: Span { start, end } }
}

/// Reads the body of the string literal whose opening quote is at `q`.
fn scan_string(s: &Vec<char>, q: usize, bq: usize) -> (r: Option<(Vec<StringPart>, usize)>)
    requires
        q < s.len(),
        bq == bpos(s@, q + 1),
        byte_len(s@) <= usize::MAX,
    ensures
        match r {
            Some((v, e)) => string_body(s@, q + 1, Seq::empty(), Seq::empty(), q + 1) == Some(
                (parts_view(v@), e as int),
            ),
            None => string_body(s@, q + 1, Seq::empty(), Seq::empty(), q + 1) is None,
        },
{
    let mut parts: Vec<StringPart> = Vec::new();
    let mut text: Vec<char> = Vec::new();
    let mut j = q + 1;
    let mut b = bq;
    let mut seg = q + 1;
    let mut bseg = bq;
    proof {
        lemma_bpos_mono(s@, q + 1, s.len() as int);
        assert(parts_view(parts@) =~= Seq::<SPart>::empty());
        assert(text@ =~= Seq::<char>::empty());
    }
    loop
        invariant
            q + 1 <= seg <= j,
            j <= s.len(),
            b == bpos(s@, j as int),
            bseg == bpos(s@, seg as int),
            byte_len(s@) <= usize::MAX,
            string_body(s@, j as int, parts_view(parts@), text@, seg as int) == string_body(
                s@,
                q + 1,
                Seq::empty(),
                Seq::empty(),
                q + 1,
            ),
        decreases s.len() - j,
    {
        if j >= s.len() {
            return None;
        }
        proof {
            lemma_bpos_step(s@, j as int);
            lemma_bpos_mono(s@, j + 1, s.len() as int);
        }
        let c = s[j];
        if c == '"' {
            let ghost parts0 = parts_view(parts@);
            if text.len() > 0 {
                let p = text_part(&text, bseg, b);
                parts.push(p);
                assert(parts_view(parts@) =~= parts0.push(p@));
            }
            return Some((parts, j + 1));
        } else if c == '\\' {
            if j + 1 >= s.len() {
                return None;
            }
            let d = s[j + 1];
            text.push(unescape_char(d));
            proof {
                lemma_bpos_step(s@, j + 1);
                lemma_bpos_mono(s@, j + 2, s.len() as int);
            }
            b = b + utf8_width(c) + utf8_width(d);
            j = j + 2;
        } else if c == '$' && j + 1 < s.len() && s[j + 1] == '{' {
            let ghost parts0 = parts_view(parts@);
            if text.len() > 0 {
                let p = text_part(&text, bseg, b);
                parts.push(p);
                text = Vec::new();
                assert(parts_view(parts@) =~= parts0.push(p@));
            }
            proof {
                lemma_bpos_step(s@, j + 1);
                lemma_bpos_mono(s@, j + 2, s.len() as int);
                lemma_close_brace(s@, j + 2, 1);
                assert(('$' as u32) == 0x24);
                assert(('{' as u32) == 0x7B);
                assert(('}' as u32) == 0x7D);
            }
            match find_close(s, j + 2, b + 2) {
                None => {
                    return None;
                },
                Some((k, bk)) => {
                    let raw = sub_string(s, j + 2, k);
                    let p = StringPart {
                        kind: StringPartKind::Interpolation(raw),
                        span: Span { start: b + 2, end: bk },
                    };
                    let ghost parts1 = parts_view(parts@);
                    parts.push(p);
                    assert(parts_view(parts@) =~= parts1.push(p@));
                    proof {
                        lemma_bpos_step(s@, k as int);
                        lemma_bpos_mono(s@, k + 1, s.len() as int);
                    }
                    text = Vec::new();
                    j = k + 1;
                    b = bk + 1;
                    seg = j;
                    bseg = b;
                },
            }
        } else {
            text.push(c);
            b = b + utf8_width(c);
            j = j + 1;
        }
    }
}

/// The byte offset of character `e`, knowing that of character `i`.
fn advance(s: &Vec<char>, i: usize, e: usize, b: usize) -> (r: usize)
    requires
        i <= e <= s.len(),
        b == bpos(s@, i as int),
        byte_len(s@) <= usize::MAX,
    ensures
        r == bpos(s@, e as int),
{
    let mut j = i;
    let mut r = b;
    while j < e
        invariant
            i <= j <= e <= s.len(),
            r == bpos(s@, j as int),
            byte_len(s@) <= usize::MAX,
        decreases e - j,
    {
        proof {
            lemma_bpos_step(s@, j as int);
            lemma_bpos_mono(s@, j + 1, s.len() as int);
        }
        r = r + utf8_width(s[j]);
        j = j + 1;
    }
    r
}

/// The longest token (or white space) at character `i`, whose byte offset is `b`.
fn scan_at(s: &Vec<char>, i: usize, b: usize) -> (r: Step)
    requires
        i < s.len(),
        b == bpos(s@, i as int),
        byte_len(s@) <= usize::MAX,
    ensures
        step_view(r) == scan(s@, i as int),
{
    let c = s[i];
    let next = if i + 1 < s.len() {
        Some(s[i + 1])
    } else {
        None
    };
    if is_whitespace(c) {
        Step::Skip(skip_ws(s, i))
    } else if c == '(' {
        Step::Tok(Token::LParen, i + 1)
    } else if c == ')' {
        Step::Tok(Token::RParen, i + 1)
    } else if c == '[' {
        Step::Tok(Token::LBracket, i + 1)
    } else if c == ']' {
        Step::Tok(Token::RBracket, i + 1)
    } else if c == '{' {
        Step::Tok(Token::LBrace, i + 1)
    } else if c == '}' {
        Step::Tok(Token::RBrace, i + 1)
    } else if c == '+' {
        Step::Tok(Token::Plus, i + 1)
    } else if c == '-' {
        Step::Tok(Token::Minus, i + 1)
    } else if c == '*' {
        Step::Tok(Token::Multiple, i + 1)
    } else if c == ',' {
        Step::Tok(Token::Comma, i + 1)
    } else if c == ':' {
        Step::Tok(Token::Colon, i + 1)
    } else if c == '/' {
        if next == Some('/') {
            let e = skip_comment(s, i + 2);
            proof {
                lemma_comment_end(s@, i + 2);
            }
            Step::Tok(Token::Comment(sub_string(s, i, e)), e)
        } else {
            Step::Tok(Token::Divide, i + 1)
        }
    } else if c == '=' {
        if next == Some('=') {
            Step::Tok(Token::Eq, i + 2)
        } else {
            Step::Tok(Token::Assign, i + 1)
        }
    } else if c == '!' {
        if next == Some('=') {
            Step::Tok(Token::Neq, i + 2)
        } else {
            Step::Bad(i + 1)
        }
    } else if c == '"' {
        proof {
            lemma_bpos_step(s@, i as int);
            lemma_bpos_mono(s@, i + 1, s.len() as int);
            assert(('"' as u32) == 0x22);
        }
        match scan_string(s, i, b + 1) {
            Some((parts, e)) => Step::Tok(Token::String(parts), e),
            None => Step::Bad(i + 1),
        }
    } else if digit_char(c) {
        let e = if c == '0' {
            i + 1
        } else {
            skip_digits(s, i + 1)
        };
        proof {
            lemma_digits_end(s@, i + 1);
        }
        if e < s.len() && e + 1 < s.len() && s[e] == '.' && digit_char(s[e + 1]) {
            let f = skip_digits(s, e + 1);
            proof {
                lemma_digits_end(s@, e + 1);
            }
            Step::Tok(Token::Float(sub_string(s, i, f)), f)
        } else {
            Step::Tok(Token::Int(sub_string(s, i, e)), e)
        }
    } else if is_ident_start(c) {
        let e = skip_ident(s, i + 1);
        proof {
            lemma_ident_end(s@, i + 1);
        }
        match keyword_token(s, i, e) {
            Some(k) => Step::Tok(k, e),
            None => Step::Tok(Token::Identifier(sub_string(s, i, e)), e),
        }
    } else {
        Step::Bad(i + 1)
    }
}

pub open spec fn lex_result_view(r: Result<Vec<SpannedToken>, LexError>) -> Result<Seq<SSpanned>, Span> {
    match r {
        Ok(v) => Ok(tokens_view(v@)),
        Err(LexError::InvalidSyntax { span }) => Err(span),
    }
}

fn lex_chars(s: &Vec<char>, offset: usize) -> (r: Result<Vec<SpannedToken>, LexError>)
    requires
        byte_len(s@) + offset <= usize::MAX,
    ensures
        lex_result_view(r) == spec_lex(s@, offset as int),
{
    let mut tokens: Vec<SpannedToken> = Vec::new();
    let mut i: usize = 0;
    let mut b: usize = 0;
    proof {
        assert(s@.take(0) =~= Seq::<char>::empty());
        assert(tokens_view(tokens@) =~= Seq::<SSpanned>::empty());
    }
    while i < s.len()
        invariant
            i <= s.len(),
            b == bpos(s@, i as int),
            byte_len(s@) + offset <= usize::MAX,
            lex_from(s@, i as int, offset as int, tokens_view(tokens@)) == spec_lex(s@, offset as int),
        decreases s.len() - i,
    {
        proof {
            lemma_scan_end(s@, i as int);
            lemma_bpos_mono(s@, i as int, s.len() as int);
        }
        let st = scan_at(s, i, b);
        match st {
            Step::Skip(e) => {
                b = advance(s, i, e, b);
                i = e;
            },
            Step::Tok(t, e) => {
                let be = advance(s, i, e, b);
                proof {
                    lemma_bpos_mono(s@, e as int, s.len() as int);
                }
                match t {
                    Token::Comment(_) => {},
                    _ => {
                        let ghost t0 = tokens@;
                        let tok = SpannedToken { token: t, span: Span { start: offset + b, end: offset + be } };
                        tokens.push(tok);
                        assert(tokens_view(tokens@) =~= tokens_view(t0).push(tok@));
                    },
                }
                i = e;
                b = be;
            },
            Step::Bad(e) => {
                let be = advance(s, i, e, b);
                proof {
                    lemma_bpos_mono(s@, e as int, s.len() as int);
                }
                return Err(LexError::InvalidSyntax { span: Span { start: offset + b, end: offset + be } });
            },
        }
    }
    Ok(tokens)
}

/// The tokens of `src`, comments dropped, with byte spans shifted by `offset`; or the span at
/// which no token starts.
pub fn lex_with_offset(src: &str, offset: usize) -> (r: Result<Vec<SpannedToken>, LexError>)
    requires
        byte_len(src@) + offset <= usize::MAX,
    ensures
        lex_result_view(r) == spec_lex(src@, offset as int),
{
    let chars = chars_of(src);
    lex_chars(&chars, offset)
}

/// The tokens of `src`, comments dropped, with byte spans.
pub fn lex(src: &str) -> (r: Result<Vec<SpannedToken>, LexError>)
    requires
        byte_len(src@) <= usize::MAX,
    ensures
        lex_result_view(r) == spec_lex(src@, 0),
{
    lex_with_offset(src, 0)
}

// ---------------------------------------------------------------------------
// Lexing at an offset
// ---------------------------------------------------------------------------
/// `sp` moved by `o` bytes.
pub open spec fn shift_span(sp: Span, o: int) -> Span {
    mk_span(sp.start + o, sp.end + o)
}

/// The tokens `ts` with their spans moved by `o` bytes.
pub open spec fn shift_tokens(ts: Seq<SSpanned>, o: int) -> Seq<SSpanned> {
    ts.map_values(|t: SSpanned| SSpanned { token: t.token, span: shift_span(t.span, o) })
}

/// A lexing result with every span moved by `o` bytes.
pub open spec fn shift_lex(r: Result<Seq<SSpanned>, Span>, o: int) -> Result<Seq<SSpanned>, Span> {
    match r {
        Ok(ts) => Ok(shift_tokens(ts, o)),
        Err(sp) => Err(shift_span(sp, o)),
    }
}

proof fn lemma_lex_from_shift(s: Seq<char>, i: int, o: int, acc: Seq<SSpanned>)
    requires
        0 <= o,
        0 <= i <= s.len(),
        byte_len(s) + o <= usize::MAX,
    ensures
        lex_from(s, i, o, shift_tokens(acc, o)) == shift_lex(lex_from(s, i, 0, acc), o),
    decreases s.len() - i,
{
    if i < s.len() {
        match scan(s, i) {
            Scan::Skip(e) => {
                if e > i && e <= s.len() {
                    lemma_lex_from_shift(s, e, o, acc);
                }
            },
            Scan::Tok(t, e) => {
                if e > i && e <= s.len() && !(t is Comment) {
                    lemma_bpos_mono(s, i, e);
                    let x = SSpanned { token: t, span: mk_span(bpos(s, i) as int, bpos(s, e) as int) };
                    let y = SSpanned { token: t, span: mk_span(o + bpos(s, i), o + bpos(s, e)) };
                    assert(shift_span(x.span, o) == y.span);
                    assert(shift_tokens(acc.push(x), o) =~= shift_tokens(acc, o).push(y));
                    lemma_lex_from_shift(s, e, o, acc.push(x));
                } else if e > i && e <= s.len() {
                    lemma_lex_from_shift(s, e, o, acc);
                }
            },
            Scan::Bad(e) => {
                lemma_scan_end(s, i);
                lemma_bpos_mono(s, i, e);
            },
        }
    }
}

/// Lexing at an offset moves every span, the spans of the tokens and that of an error, by the
/// offset, and changes nothing else: `lex_with_offset(src, o)` is `lex(src)` moved by `o`.
pub proof fn lemma_lex_offset_shifts_spans(s: Seq<char>, o: int)
    requires
        0 <= o,
        byte_len(s) + o <= usize::MAX,
    ensures
        spec_lex(s, o) == shift_lex(spec_lex(s, 0), o),
{
    assert(shift_tokens(Seq::<SSpanned>::empty(), o) =~= Seq::<SSpanned>::empty());
    lemma_lex_from_shift(s, 0, o, Seq::empty());
}

// ---------------------------------------------------------------------------
// Order of the tokens
// ---------------------------------------------------------------------------
/// The tokens `ts` hold no comment, each covers at least one byte within `lo..hi`, and they
/// follow one another without overlapping.
pub open spec fn tokens_in_order(ts: Seq<SSpanned>, lo: int, hi: int) -> bool {
    &&& forall|i: int| 0 <= i < ts.len() ==> !((#[trigger] ts[i]).token is Comment)
    &&& forall|i: int|
        0 <= i < ts.len() ==> lo <= (#[trigger] ts[i]).span.start < ts[i].span.end <= hi
    &&& forall|i: int, j: int| 0 <= i < j < ts.len() ==> (#[trigger] ts[i]).span.end <= (#[trigger] ts[j]).span.start
}

proof fn lemma_lex_from_in_order(s: Seq<char>, i: int, o: int, acc: Seq<SSpanned>)
    requires
        0 <= o,
        0 <= i <= s.len(),
        byte_len(s) + o <= usize::MAX,
        tokens_in_order(acc, o, o + bpos(s, i)),
    ensures
        lex_from(s, i, o, acc) matches Ok(ts) ==> tokens_in_order(ts, o, o + byte_len(s)),
    decreases s.len() - i,
{
    lemma_bpos_mono(s, i, s.len() as int);
    if i >= s.len() {
        assert(s.take(s.len() as int) =~= s);
    } else {
        lemma_scan_end(s, i);
        match scan(s, i) {
            Scan::Skip(e) => {
                lemma_bpos_mono(s, i, e);
                lemma_lex_from_in_order(s, e, o, acc);
            },
            Scan::Tok(t, e) => {
                lemma_bpos_mono(s, i, e);
                lemma_bpos_step(s, i);
                lemma_bpos_mono(s, i + 1, e);
                lemma_bpos_mono(s, e, s.len() as int);
                if t is Comment {
                    lemma_lex_from_in_order(s, e, o, acc);
                } else {
                    let x = SSpanned { token: t, span: mk_span(o + bpos(s, i), o + bpos(s, e)) };
                    let acc2 = acc.push(x);
                    assert(tokens_in_order(acc2, o, o + bpos(s, e))) by {
                        assert forall|a: int, b: int| 0 <= a < b < acc2.len() implies (#[trigger] acc2[a]).span.end
                            <= (#[trigger] acc2[b]).span.start by {
                            if b == acc.len() {
                                assert(acc2[a] == acc[a]);
                            } else {
                                assert(acc2[a] == acc[a] && acc2[b] == acc[b]);
                            }
                        }
                        assert forall|a: int| 0 <= a < acc2.len() implies o <= (#[trigger] acc2[a]).span.start
                            < acc2[a].span.end <= o + bpos(s, e) && !(acc2[a].token is Comment) by {
                            if a < acc.len() {
                                assert(acc2[a] == acc[a]);
                            }
                        }
                    }
                    lemma_lex_from_in_order(s, e, o, acc2);
                }
            },
            Scan::Bad(_) => {},
        }
    }
}

/// Lexing drops every comment, and the tokens it gives come in the order of the source: each
/// covers at least one byte of the source (moved by the offset), and no two overlap.
pub proof fn lemma_lex_tokens_in_order(s: Seq<char>, o: int)
    requires
        0 <= o,
        byte_len(s) + o <= usize::MAX,
    ensures
        spec_lex(s, o) matches Ok(ts) ==> tokens_in_order(ts, o, o + byte_len(s)),
{
    assert(s.take(0) =~= Seq::<char>::empty());
    lemma_lex_from_in_order(s, 0, o, Seq::empty());
}

// ---------------------------------------------------------------------------
// Escapes in string literals
// ---------------------------------------------------------------------------
/// What the escape `\c` in a string literal writes: `\n` a line feed (U+000A), `\r` a carriage
/// return (U+000D), `\t` a tab (U+0009), and any other escaped character itself.
pub proof fn lemma_string_escape(c: char, o: int)
    ensures
        match spec_lex(seq!['"', '\\', c, '"'], o) {
            Ok(ts) => ts.len() == 1 && match ts[0].token {
                SToken::String(parts) => parts.len() == 1 && match parts[0].kind {
                    SPartKind::Text(x) => x.len() == 1 && (c == 'n' ==> x[0] as u32 == 0x0A) && (c == 'r'
                        ==> x[0] as u32 == 0x0D) && (c == 't' ==> x[0] as u32 == 0x09) && (c != 'n' && c
                        != 'r' && c != 't' ==> x[0] == c),
                    _ => false,
                },
                _ => false,
            },
            Err(_) => false,
        },
{
    let s = seq!['"', '\\', c, '"'];
    let e = unescape(c);
    assert(string_body(s, 3, Seq::empty(), seq![e], 1) == Some(
        (flush_text(s, Seq::empty(), seq![e], 1, 3), 4int),
    ));
    assert(Seq::<char>::empty().push(e) =~= seq![e]);
    assert(string_body(s, 1, Seq::empty(), Seq::empty(), 1) == Some(
        (flush_text(s, Seq::empty(), seq![e], 1, 3), 4int),
    ));
    let parts = flush_text(s, Seq::empty(), seq![e], 1, 3);
    assert(parts.len() == 1 && parts[0].kind == SPartKind::Text(seq![e]));
    assert(!is_ws(s[0]));
    assert(scan(s, 0) == Scan::Tok(SToken::String(parts), 4));
    let tok = SSpanned { token: SToken::String(parts), span: mk_span(o + bpos(s, 0), o + bpos(s, 4)) };
    assert(lex_from(s, 4, o, seq![tok]) == Ok::<Seq<SSpanned>, Span>(seq![tok]));
    assert(Seq::<SSpanned>::empty().push(tok) =~= seq![tok]);
    assert(lex_from(s, 0, o, Seq::empty()) == Ok::<Seq<SSpanned>, Span>(seq![tok]));
}

// ---------------------------------------------------------------------------
// Fixed tokens
// ---------------------------------------------------------------------------
/// The text of a token that is always written the same way: a keyword, a bracket, an operator
/// or a separator.
pub open spec fn fixed_text(t: SToken) -> Seq<char> {
    match t {
        SToken::If => seq!['I', 'f'],
        SToken::For => seq!['F', 'o', 'r'],
        SToken::In => seq!['i', 'n'],
        SToken::Component => seq!['c', 'o', 'm', 'p', 'o', 'n', 'e', 'n', 't'],
        SToken::Slot => seq!['S', 'l', 'o', 't'],
        SToken::Const => seq!['c', 'o', 'n', 's', 't'],
        SToken::True => seq!['t', 'r', 'u', 'e'],
        SToken::False => seq!['f', 'a', 'l', 's', 'e'],
        SToken::Null => seq!['n', 'u', 'l', 'l'],
        SToken::LParen => seq!['('],
        SToken::RParen => seq![')'],
        SToken::LBracket => seq!['['],
        SToken::RBracket => seq![']'],
        SToken::LBrace => seq!['{'],
        SToken::RBrace => seq!['}'],
        SToken::Plus => seq!['+'],
        SToken::Minus => seq!['-'],
        SToken::Divide => seq!['/'],
        SToken::Multiple => seq!['*'],
        SToken::Assign => seq!['='],
        SToken::Eq => seq!['=', '='],
        SToken::Neq => seq!['!', '='],
        SToken::Comma => seq![','],
        SToken::Colon => seq![':'],
        _ => Seq::empty(),
    }
}

/// The keywords.
pub open spec fn is_keyword_token(t: SToken) -> bool {
    t is If || t is For || t is In || t is Component || t is Slot || t is Const || t is True || t is False || t is Null
}

/// The brackets, operators and separators.
pub open spec fn is_symbol_token(t: SToken) -> bool {
    t is LParen || t is RParen || t is LBracket || t is RBracket || t is LBrace || t is RBrace || t is Plus || t is Minus || t is Divide || t is Multiple || t is Assign || t is Eq || t is Neq || t is Comma || t is Colon
}

/// Each keyword is the word written for it, and a word that is a keyword is that keyword's
/// text: keywords and their words correspond one to one.
pub proof fn lemma_keywords_as_written(t: SToken, w: Seq<char>)
    ensures
        is_keyword_token(t) ==> keyword(fixed_text(t)) == Some(t),
        keyword(w) == Some(t) ==> is_keyword_token(t) && w == fixed_text(t),
{
}

/// A bracket, operator or separator written alone lexes as that one token.
pub proof fn lemma_symbols_as_written(t: SToken, o: int)
    requires
        is_symbol_token(t),
    ensures
        match spec_lex(fixed_text(t), o) {
            Ok(ts) => ts.len() == 1 && ts[0].token == t,
            Err(_) => false,
        },
{
    let s = fixed_text(t);
    let e = s.len() as int;
    assert(!is_ws(s[0]));
    assert(scan(s, 0) matches Scan::Tok(t2, e2) && t2 == t && e2 == e);
    let x = SSpanned { token: t, span: mk_span(o + bpos(s, 0), o + bpos(s, e)) };
    assert(lex_from(s, e, o, seq![x]) == Ok::<Seq<SSpanned>, Span>(seq![x]));
    assert(Seq::<SSpanned>::empty().push(x) =~= seq![x]);
    assert(lex_from(s, 0, o, Seq::empty()) == Ok::<Seq<SSpanned>, Span>(seq![x]));
}

/// A keyword written alone lexes as that keyword, not as a name.
pub proof fn lemma_keywords_lex(t: SToken, o: int)
    requires
        is_keyword_token(t),
    ensures
        match spec_lex(fixed_text(t), o) {
            Ok(ts) => ts.len() == 1 && ts[0].token == t,
            Err(_) => false,
        },
{
    let s = fixed_text(t);
    let e = s.len() as int;
    reveal_with_fuel(ident_end, 10);
    assert(ident_end(s, 1) == e);
    assert(s.subrange(0, e) =~= s);
    assert(keyword(s) == Some(t));
    assert(!is_ws(s[0]));
    assert(scan(s, 0) matches Scan::Tok(t2, e2) && t2 == t && e2 == e);
    let x = SSpanned { token: t, span: mk_span(o + bpos(s, 0), o + bpos(s, e)) };
    assert(lex_from(s, e, o, seq![x]) == Ok::<Seq<SSpanned>, Span>(seq![x]));
    assert(Seq::<SSpanned>::empty().push(x) =~= seq![x]);
    assert(lex_from(s, 0, o, Seq::empty()) == Ok::<Seq<SSpanned>, Span>(seq![x]));
}

// ---------------------------------------------------------------------------
// Numbers
// ---------------------------------------------------------------------------
/// Whether `d` is a non-empty run of decimal digits.
pub open spec fn all_digits(d: Seq<char>) -> bool {
    d.len() > 0 && forall|k: int| 0 <= k < d.len() ==> is_digit(#[trigger] d[k])
}

/// Whether `d` is an integer as the language writes it: digits, without a leading `0` unless it
/// is `0` itself.
pub open spec fn integer_text(d: Seq<char>) -> bool {
    all_digits(d) && (d.len() == 1 || d[0] != '0')
}

proof fn lemma_digits_end_run(s: Seq<char>, i: int, j: int)
    requires
        0 <= i <= j <= s.len(),
        forall|k: int| i <= k < j ==> is_digit(#[trigger] s[k]),
        j == s.len() || !is_digit(s[j]),
    ensures
        digits_end(s, i) == j,
    decreases j - i,
{
    if i < j {
        lemma_digits_end_run(s, i + 1, j);
    }
}

/// An integer written alone lexes as one integer token holding its digits.
pub proof fn lemma_integer_lexes(d: Seq<char>, o: int)
    requires
        integer_text(d),
    ensures
        match spec_lex(d, o) {
            Ok(ts) => ts.len() == 1 && ts[0].token == SToken::Int(d),
            Err(_) => false,
        },
{
    let e = d.len() as int;
    assert(is_digit(d[0]));
    if d[0] != '0' {
        lemma_digits_end_run(d, 1, e);
    }
    assert(int_end(d, 0) == e);
    assert(d.subrange(0, e) =~= d);
    assert(!is_ws(d[0]));
    assert(scan(d, 0) == Scan::Tok(SToken::Int(d), e));
    let x = SSpanned { token: SToken::Int(d), span: mk_span(o + bpos(d, 0), o + bpos(d, e)) };
    assert(lex_from(d, e, o, seq![x]) == Ok::<Seq<SSpanned>, Span>(seq![x]));
    assert(Seq::<SSpanned>::empty().push(x) =~= seq![x]);
    assert(lex_from(d, 0, o, Seq::empty()) == Ok::<Seq<SSpanned>, Span>(seq![x]));
}

/// An integer, a `.` and more digits, written alone, lex as one decimal token holding that text.
pub proof fn lemma_decimal_lexes(d: Seq<char>, f: Seq<char>, o: int)
    requires
        integer_text(d),
        all_digits(f),
    ensures
        match spec_lex(d + seq!['.'] + f, o) {
            Ok(ts) => ts.len() == 1 && ts[0].token == SToken::Float(d + seq!['.'] + f),
            Err(_) => false,
        },
{
    let s = d + seq!['.'] + f;
    let n = d.len() as int;
    let e = s.len() as int;
    assert(is_digit(s[0]));
    if d[0] != '0' {
        assert forall|k: int| 1 <= k < n implies is_digit(#[trigger] s[k]) by {
            assert(s[k] == d[k]);
        }
        lemma_digits_end_run(s, 1, n);
    }
    assert(int_end(s, 0) == n);
    assert(s[n] == '.');
    assert(s[n + 1] == f[0]);
    assert forall|k: int| n + 1 <= k < e implies is_digit(#[trigger] s[k]) by {
        assert(s[k] == f[k - n - 1]);
    }
    lemma_digits_end_run(s, n + 1, e);
    assert(s.subrange(0, e) =~= s);
    assert(!is_ws(s[0]));
    assert(scan(s, 0) == Scan::Tok(SToken::Float(s), e));
    let x = SSpanned { token: SToken::Float(s), span: mk_span(o + bpos(s, 0), o + bpos(s, e)) };
    assert(lex_from(s, e, o, seq![x]) == Ok::<Seq<SSpanned>, Span>(seq![x]));
    assert(Seq::<SSpanned>::empty().push(x) =~= seq![x]);
    assert(lex_from(s, 0, o, Seq::empty()) == Ok::<Seq<SSpanned>, Span>(seq![x]));
}

// ---------------------------------------------------------------------------
// Interpolations
// ---------------------------------------------------------------------------
proof fn lemma_close_brace_run(s: Seq<char>, j: int, k: int)
    requires
        0 <= j <= k < s.len(),
        forall|m: int| j <= m < k ==> #[trigger] s[m] != '{' && s[m] != '}',
        s[k] == '}',
    ensures
        close_brace(s, j, 1) == Some(k),
    decreases k - j,
{
    if j < k {
        lemma_close_brace_run(s, j + 1, k);
    }
}

/// The text inside `${...}` in a string literal is kept whole, as the raw source of the
/// interpolated expression: the literal `"${r}"` lexes as one string whose one part is the
/// interpolation of `r` (for `r` without braces).
pub proof fn lemma_interpolation_kept(r: Seq<char>, o: int)
    requires
        forall|m: int| 0 <= m < r.len() ==> #[trigger] r[m] != '{' && r[m] != '}',
    ensures
        match spec_lex(seq!['"', '$', '{'] + r + seq!['}', '"'], o) {
            Ok(ts) => ts.len() == 1 && match ts[0].token {
                SToken::String(parts) => parts.len() == 1 && parts[0].kind == SPartKind::Interpolation(r),
                _ => false,
            },
            Err(_) => false,
        },
{
    let s = seq!['"', '$', '{'] + r + seq!['}', '"'];
    let n = r.len() as int;
    let k = n + 3;
    assert forall|m: int| 3 <= m < k implies #[trigger] s[m] != '{' && s[m] != '}' by {
        assert(s[m] == r[m - 3]);
    }
    assert(s[k] == '}');
    lemma_close_brace_run(s, 3, k);
    assert(s.subrange(3, k) =~= r);
    let part = SPart { kind: SPartKind::Interpolation(r), span: mk_span(bpos(s, 3) as int, bpos(s, k) as int) };
    let parts = Seq::<SPart>::empty().push(part);
    assert(s[k + 1] == '"');
    assert(string_body(s, k + 1, parts, Seq::empty(), k + 1) == Some((parts, k + 2)));
    assert(flush_text(s, Seq::empty(), Seq::empty(), 1, 1) == Seq::<SPart>::empty());
    assert(string_body(s, 1, Seq::empty(), Seq::empty(), 1) == Some((parts, k + 2)));
    assert(!is_ws(s[0]));
    assert(scan(s, 0) == Scan::Tok(SToken::String(parts), k + 2));
    let x = SSpanned { token: SToken::String(parts), span: mk_span(o + bpos(s, 0), o + bpos(s, k + 2)) };
    assert(lex_from(s, k + 2, o, seq![x]) == Ok::<Seq<SSpanned>, Span>(seq![x]));
    assert(Seq::<SSpanned>::empty().push(x) =~= seq![x]);
    assert(lex_from(s, 0, o, Seq::empty()) == Ok::<Seq<SSpanned>, Span>(seq![x]));
}

} // verus!
