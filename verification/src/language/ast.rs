use vstd::prelude::*;

use crate::language::utils::Span;

verus! {

#[derive(Debug)]
pub struct ParsedStringPart {
    pub kind: ParsedStringPartKind,
    pub span: Span,
}

#[derive(Debug)]
pub enum ParsedStringPartKind {
    Text(String),
    Interpolation(Box<Expr>),
}

#[derive(Debug)]
pub struct Expr {
    pub kind: ExprKind,
    pub span: Span,
}

/// An expression. A number literal keeps the text it was written with (`12`, `0.5`).
#[derive(Debug)]
pub enum ExprKind {
    String(String),
    Number(String),
    Bool(bool),
    Null,
    Array(Vec<Expr>),
    Dict(Vec<(String, Expr)>),
    Ident(String),
    Bin { lhs: Box<Expr>, op: BinOp, rhs: Box<Expr> },
    Unary { op: UnaryOp, expr: Box<Expr> },
    Call { callee: Box<Expr>, args: Vec<Expr> },
    StringInterpolation(Vec<ParsedStringPart>),
    Index { target: Box<Expr>, index: Box<Expr> },
}

#[derive(Debug, Clone, Copy, PartialEq, Eq, Structural)]
pub enum BinOp {
    Plus,
    Minus,
    Multiply,
    Divide,
    Eq,
    Neq,
}

#[derive(Debug, Clone, Copy, PartialEq, Eq, Structural)]
pub enum UnaryOp {
    Plus,
    Minus,
    Not,
}

#[derive(Debug)]
pub struct SeruProgram {
    pub top_declarations: Vec<TopDeclaration>,
}

#[derive(Debug)]
pub enum TopDeclaration {
    ConstDeclaration(ConstDeclaration),
    ComponentDeclaration(ComponentDeclaration),
}

#[derive(Debug)]
pub struct ArgDeclaration {
    pub name: String,
    pub default: Option<Box<Expr>>,
    pub span: Span,
}

#[derive(Debug)]
pub struct Arg {
    pub name: String,
    pub value: Expr,
}

#[derive(Debug)]
pub struct ConstDeclaration {
    pub name: String,
    pub value: Expr,
}

#[derive(Debug)]
pub struct ComponentDeclaration {
    pub name: String,
    pub arg_declarations: Vec<ArgDeclaration>,
    pub body: ChildNode,
}

#[derive(Debug)]
pub enum ChildNode {
    ComponentCall(ComponentCall),
    For(ForBlock),
    If(IfBlock),
    Slot,
}

#[derive(Debug)]
pub struct ComponentCall {
    pub name: String,
    pub args: Vec<Arg>,
    pub body: Vec<ChildNode>,
}

#[derive(Debug)]
pub struct ForBlock {
    pub index_name: Option<String>,
    pub item_name: String,
    pub iterable: Expr,
    pub body: Vec<ChildNode>,
}

#[derive(Debug)]
pub struct IfBlock {
    pub condition: Expr,
    pub body: Vec<ChildNode>,
}

// ---------------------------------------------------------------------------
// Mathematical model of the syntax tree
// ---------------------------------------------------------------------------
pub enum SPartKindAst {
    Text(Seq<char>),
    Interpolation(Box<SExpr>),
}

pub struct SParsedPart {
    pub kind: SPartKindAst,
    pub span: Span,
}

pub struct SExpr {
    pub kind: SExprKind,
    pub span: Span,
}

pub enum SExprKind {
    String(Seq<char>),
    Number(Seq<char>),
    Bool(bool),
    Null,
    Array(Seq<SExpr>),
    Dict(Seq<(Seq<char>, SExpr)>),
    Ident(Seq<char>),
    Bin { lhs: Box<SExpr>, op: BinOp, rhs: Box<SExpr> },
    Unary { op: UnaryOp, expr: Box<SExpr> },
    Call { callee: Box<SExpr>, args: Seq<SExpr> },
    StringInterpolation(Seq<SParsedPart>),
    Index { target: Box<SExpr>, index: Box<SExpr> },
}

pub struct SArgDecl {
    pub name: Seq<char>,
    pub default: Option<SExpr>,
    pub span: Span,
}

pub struct SArg {
    pub name: Seq<char>,
    pub value: SExpr,
}

pub enum SChildNode {
    ComponentCall { name: Seq<char>, args: Seq<SArg>, body: Seq<SChildNode> },
    For { index_name: Option<Seq<char>>, item_name: Seq<char>, iterable: SExpr, body: Seq<SChildNode> },
    If { condition: SExpr, body: Seq<SChildNode> },
    Slot,
}

pub struct SComponentDecl {
    pub name: Seq<char>,
    pub arg_declarations: Seq<SArgDecl>,
    pub body: SChildNode,
}

pub enum STopDecl {
    Const { name: Seq<char>, value: SExpr },
    Component(SComponentDecl),
}

pub open spec fn null_expr() -> SExpr {
    SExpr { kind: SExprKind::Null, span: Span { start: 0, end: 0 } }
}

pub open spec fn expr_view(e: Expr) -> SExpr
    decreases e,
{
    SExpr { kind: expr_kind_view(e.kind), span: e.span }
}

pub open spec fn expr_kind_view(k: ExprKind) -> SExprKind
    decreases k,
{
    match k {
        ExprKind::String(s) => SExprKind::String(s@),
        ExprKind::Number(s) => SExprKind::Number(s@),
        ExprKind::Bool(b) => SExprKind::Bool(b),
        ExprKind::Null => SExprKind::Null,
        ExprKind::Array(v) => SExprKind::Array(exprs_view(v@)),
        ExprKind::Dict(v) => SExprKind::Dict(entries_view(v@)),
        ExprKind::Ident(s) => SExprKind::Ident(s@),
        ExprKind::Bin { lhs, op, rhs } => SExprKind::Bin {
            lhs: Box::new(expr_view(*lhs)),
            op,
            rhs: Box::new(expr_view(*rhs)),
        },
        ExprKind::Unary { op, expr } => SExprKind::Unary { op, expr: Box::new(expr_view(*expr)) },
        ExprKind::Call { callee, args } => SExprKind::Call {
            callee: Box::new(expr_view(*callee)),
            args: exprs_view(args@),
        },
        ExprKind::StringInterpolation(parts) => SExprKind::StringInterpolation(
            parsed_parts_view(parts@),
        ),
        ExprKind::Index { target, index } => SExprKind::Index {
            target: Box::new(expr_view(*target)),
            index: Box::new(expr_view(*index)),
        },
    }
}

pub open spec fn exprs_view(s: Seq<Expr>) -> Seq<SExpr>
    decreases s,
{
    Seq::new(s.len(), |i: int| if 0 <= i < s.len() { expr_view(s[i]) } else { null_expr() })
}

pub open spec fn entries_view(s: Seq<(String, Expr)>) -> Seq<(Seq<char>, SExpr)>
    decreases s,
{
    Seq::new(
        s.len(),
        |i: int| if 0 <= i < s.len() { (s[i].0@, expr_view(s[i].1)) } else { (Seq::empty(), null_expr()) },
    )
}

pub open spec fn parsed_part_view(p: ParsedStringPart) -> SParsedPart
    decreases p,
{
    SParsedPart {
        kind: match p.kind {
            ParsedStringPartKind::Text(t) => SPartKindAst::Text(t@),
            ParsedStringPartKind::Interpolation(e) => SPartKindAst::Interpolation(
                Box::new(expr_view(*e)),
            ),
        },
        span: p.span,
    }
}

pub open spec fn parsed_parts_view(s: Seq<ParsedStringPart>) -> Seq<SParsedPart>
    decreases s,
{
    Seq::new(
        s.len(),
        |i: int| if 0 <= i < s.len() { parsed_part_view(s[i]) } else { SParsedPart { kind: SPartKindAst::Text(Seq::empty()), span: Span { start: 0, end: 0 } } },
    )
}

impl View for Expr {
    type V = SExpr;

    open spec fn view(&self) -> SExpr {
        expr_view(*self)
    }
}

pub open spec fn arg_decl_view(a: ArgDeclaration) -> SArgDecl {
    SArgDecl {
        name: a.name@,
        default: match a.default {
            Some(e) => Some(expr_view(*e)),
            None => None,
        },
        span: a.span,
    }
}

pub open spec fn arg_decls_view(s: Seq<ArgDeclaration>) -> Seq<SArgDecl> {
    s.map_values(|a: ArgDeclaration| arg_decl_view(a))
}

pub open spec fn arg_view(a: Arg) -> SArg {
    SArg { name: a.name@, value: expr_view(a.value) }
}

pub open spec fn args_view(s: Seq<Arg>) -> Seq<SArg> {
    s.map_values(|a: Arg| arg_view(a))
}

pub open spec fn child_view(c: ChildNode) -> SChildNode
    decreases c,
{
    match c {
        ChildNode::ComponentCall(call) => SChildNode::ComponentCall {
            name: call.name@,
            args: args_view(call.args@),
            body: children_view(call.body@),
        },
        ChildNode::For(f) => SChildNode::For {
            index_name: match f.index_name {
                Some(n) => Some(n@),
                None => None,
            },
            item_name: f.item_name@,
            iterable: expr_view(f.iterable),
            body: children_view(f.body@),
        },
        ChildNode::If(b) => SChildNode::If { condition: expr_view(b.condition), body: children_view(b.body@) },
        ChildNode::Slot => SChildNode::Slot,
    }
}

pub open spec fn children_view(s: Seq<ChildNode>) -> Seq<SChildNode>
    decreases s,
{
    Seq::new(s.len(), |i: int| if 0 <= i < s.len() { child_view(s[i]) } else { SChildNode::Slot })
}

pub open spec fn component_decl_view(c: ComponentDeclaration) -> SComponentDecl {
    SComponentDecl {
        name: c.name@,
        arg_declarations: arg_decls_view(c.arg_declarations@),
        body: child_view(c.body),
    }
}

pub open spec fn top_decl_view(d: TopDeclaration) -> STopDecl {
    match d {
        TopDeclaration::ConstDeclaration(c) => STopDecl::Const { name: c.name@, value: expr_view(c.value) },
        TopDeclaration::ComponentDeclaration(c) => STopDecl::Component(component_decl_view(c)),
    }
}

pub open spec fn top_decls_view(s: Seq<TopDeclaration>) -> Seq<STopDecl> {
    s.map_values(|d: TopDeclaration| top_decl_view(d))
}

} // verus!
