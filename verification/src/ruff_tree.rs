//! The syntax tree of `ruff_python_ast`, node by node as the tree that is analyzed.
//!
//! None of these functions decides anything: each tells the variants of one type of the outside tree
//! apart and moves their fields. Nothing is stated of them one by one. What the parser makes of a text
//! is named as a whole in `module_parser`.

use crate::ast::{
    Arguments, BoolOp, Branch, CasePattern, ClassDef, Comparison, Comprehension, Decorator, DictItem, ExprContext,
    Expression, FunctionDef, Handler, Import, ImportAlias, ImportFrom, Keyword, MatchCase, Node, NumberKind,
    Operator, Parameter, Parameters, PlacedName, Statement, StmtNode, UnaryOp, WithItem,
};
use crate::text_range::TextRange;
use ruff_python_ast as ruff;
use ruff_text_size::Ranged;
use vstd::prelude::*;

verus! {

/// An expression of the outside tree.
#[verifier::external_type_specification]
#[verifier::external_body]
pub struct ExExpr(ruff_python_ast::Expr);

/// A statement of the outside tree.
#[verifier::external_type_specification]
#[verifier::external_body]
pub struct ExStmt(ruff_python_ast::Stmt);

/// An operation on two operands.
#[verifier::external_type_specification]
#[verifier::external_body]
pub struct ExExprBinOp(ruff_python_ast::ExprBinOp);

/// Comparisons.
#[verifier::external_type_specification]
#[verifier::external_body]
pub struct ExCmpOp(ruff_python_ast::CmpOp);

/// A parameter with its default.
#[verifier::external_type_specification]
#[verifier::external_body]
pub struct ExParameterWithDefault(ruff_python_ast::ParameterWithDefault);

/// A part of a formatted string.
#[verifier::external_type_specification]
#[verifier::external_body]
pub struct ExElement(ruff_python_ast::InterpolatedStringElement);

/// A pattern of a `match` statement.
#[verifier::external_type_specification]
#[verifier::external_body]
pub struct ExPattern(ruff_python_ast::Pattern);

/// A name, and where it stands.
#[verifier::external_type_specification]
#[verifier::external_body]
pub struct ExIdentifier(ruff_python_ast::Identifier);

/// The definition of a function.
#[verifier::external_type_specification]
#[verifier::external_body]
pub struct ExStmtFunctionDef(ruff_python_ast::StmtFunctionDef);

/// The definition of a class.
#[verifier::external_type_specification]
#[verifier::external_body]
pub struct ExStmtClassDef(ruff_python_ast::StmtClassDef);

/// The operator of a `ruff_python_ast::ExprBinOp`, variant by variant.
#[verifier::external_body]
fn operator(e: &ruff::ExprBinOp) -> Operator {
    match e.op {
        ruff::Operator::Add => Operator::Add,
        ruff::Operator::Sub => Operator::Sub,
        ruff::Operator::Mult => Operator::Mult,
        ruff::Operator::MatMult => Operator::MatMult,
        ruff::Operator::Div => Operator::Div,
        ruff::Operator::Mod => Operator::Mod,
        ruff::Operator::Pow => Operator::Pow,
        ruff::Operator::LShift => Operator::LShift,
        ruff::Operator::RShift => Operator::RShift,
        ruff::Operator::BitOr => Operator::BitOr,
        ruff::Operator::BitXor => Operator::BitXor,
        ruff::Operator::BitAnd => Operator::BitAnd,
        ruff::Operator::FloorDiv => Operator::FloorDiv,
    }
}

/// A `ruff_python_ast::CmpOp`, variant by variant.
#[verifier::external_body]
fn comparison(op: &ruff::CmpOp) -> Comparison {
    match op {
        ruff::CmpOp::Eq => Comparison::Eq,
        ruff::CmpOp::NotEq => Comparison::NotEq,
        ruff::CmpOp::Lt => Comparison::Lt,
        ruff::CmpOp::LtE => Comparison::LtE,
        ruff::CmpOp::Gt => Comparison::Gt,
        ruff::CmpOp::GtE => Comparison::GtE,
        ruff::CmpOp::Is => Comparison::Is,
        ruff::CmpOp::IsNot => Comparison::IsNot,
        ruff::CmpOp::In => Comparison::In,
        ruff::CmpOp::NotIn => Comparison::NotIn,
    }
}

/// The fields of a `ruff_python_ast::Identifier`.
#[verifier::external_body]
fn name(id: &ruff::Identifier) -> PlacedName {
    PlacedName { name: id.as_str().to_owned(), range: TextRange::new(id.start().to_u32(), id.end().to_u32()) }
}

/// A `ruff_python_ast::Expr` with its place.
#[verifier::external_body]
fn expr(e: &ruff::Expr) -> Expression {
    Expression { range: TextRange::new(e.start().to_u32(), e.end().to_u32()), node: operation(e) }
}

/// Each of some expressions.
#[verifier::external_body]
fn exprs(list: &[ruff::Expr]) -> Vec<Expression> {
    list.iter().map(expr).collect()
}

/// An expression, in a box.
#[verifier::external_body]
fn boxed(e: &ruff::Expr) -> Box<Expression> {
    Box::new(expr(e))
}

/// An expression in a box, where there is one.
#[verifier::external_body]
fn optional(e: &Option<Box<ruff::Expr>>) -> Option<Box<Expression>> {
    e.as_deref().map(boxed)
}

/// An expression, where there is one.
#[verifier::external_body]
fn unboxed(e: &Option<Box<ruff::Expr>>) -> Option<Expression> {
    e.as_deref().map(expr)
}

/// The fields of a `ruff_python_ast::ParameterWithDefault`.
#[verifier::external_body]
fn parameter(p: &ruff::ParameterWithDefault) -> Parameter {
    Parameter {
        name: p.parameter.name.as_str().to_owned(),
        default: unboxed(&p.default),
        range: TextRange::new(p.start().to_u32(), p.end().to_u32()),
    }
}

/// A `ruff_python_ast::InterpolatedStringElement`: a literal as a string, an interpolation as a
/// formatted string of its expression and the parts of its format.
#[verifier::external_body]
fn element(e: &ruff::InterpolatedStringElement) -> Expression {
    let range = TextRange::new(e.start().to_u32(), e.end().to_u32());
    match e {
        ruff::InterpolatedStringElement::Literal(x) => Expression {
            range,
            node: Node::StringLiteral { value: x.value.to_string() },
        },
        ruff::InterpolatedStringElement::Interpolation(x) => {
            let parts = x.format_spec.iter().flat_map(|spec| spec.elements.iter());
            let values = std::iter::once(expr(&x.expression)).chain(parts.map(element)).collect();
            Expression { range, node: Node::FString { values } }
        },
    }
}

/// A `ruff_python_ast::Expr`, variant by variant, from `BoolOp` to `BinOp`.
#[verifier::external_body]
fn operation(e: &ruff::Expr) -> Node {
    match e {
        ruff::Expr::BoolOp(x) => Node::BoolOp {
            op: match x.op {
                ruff::BoolOp::And => BoolOp::And,
                ruff::BoolOp::Or => BoolOp::Or,
            },
            values: exprs(&x.values),
        },
        ruff::Expr::Named(x) => Node::Named { target: boxed(&x.target), value: boxed(&x.value) },
        ruff::Expr::BinOp(x) => Node::BinOp { left: boxed(&x.left), op: operator(x), right: boxed(&x.right) },
        _ => choice(e),
    }
}

/// A `ruff_python_ast::Expr`, for the variants `UnaryOp` and `If`.
#[verifier::external_body]
fn choice(e: &ruff::Expr) -> Node {
    match e {
        ruff::Expr::UnaryOp(x) => Node::UnaryOp {
            op: match x.op {
                ruff::UnaryOp::Invert => UnaryOp::Invert,
                ruff::UnaryOp::Not => UnaryOp::Not,
                ruff::UnaryOp::UAdd => UnaryOp::UAdd,
                ruff::UnaryOp::USub => UnaryOp::USub,
            },
            operand: boxed(&x.operand),
        },
        ruff::Expr::If(x) => Node::If { test: boxed(&x.test), body: boxed(&x.body), orelse: boxed(&x.orelse) },
        _ => lambda(e),
    }
}

/// A `ruff_python_ast::Expr`, for the variant `Lambda`.
#[verifier::external_body]
fn lambda(e: &ruff::Expr) -> Node {
    match e {
        ruff::Expr::Lambda(x) => {
            let parameters = x.parameters.as_ref().map(|p| Box::new(Parameters {
                posonlyargs: p.posonlyargs.iter().map(parameter).collect(),
                args: p.args.iter().map(parameter).collect(),
                vararg: p.vararg.as_ref().map(|v| v.name.as_str().to_owned()),
                kwonlyargs: p.kwonlyargs.iter().map(parameter).collect(),
                kwarg: p.kwarg.as_ref().map(|v| v.name.as_str().to_owned()),
            }));
            Node::Lambda { parameters, body: boxed(&x.body) }
        },
        _ => display(e),
    }
}

/// A `ruff_python_ast::Expr`, for the variants `Dict`, `Set`, `List` and `Tuple`.
#[verifier::external_body]
fn display(e: &ruff::Expr) -> Node {
    match e {
        ruff::Expr::Dict(x) => {
            let items = x.items.iter().map(|i| DictItem { key: i.key.as_ref().map(expr), value: expr(&i.value) });
            Node::Dict { items: items.collect() }
        },
        ruff::Expr::Set(x) => Node::SetDisplay { elts: exprs(&x.elts) },
        ruff::Expr::List(x) => Node::List { elts: exprs(&x.elts) },
        ruff::Expr::Tuple(x) => Node::Tuple { elts: exprs(&x.elts) },
        _ => comprehension(e),
    }
}

/// The comprehensions of a `ruff_python_ast::Expr` that is one of the four variants that have any.
#[verifier::external_body]
fn generators(e: &ruff::Expr) -> Vec<Comprehension> {
    let list: &[ruff::Comprehension] = match e {
        ruff::Expr::ListComp(x) => &x.generators,
        ruff::Expr::SetComp(x) => &x.generators,
        ruff::Expr::DictComp(x) => &x.generators,
        ruff::Expr::Generator(x) => &x.generators,
        _ => &[],
    };
    list.iter().map(
        |g| Comprehension { target: expr(&g.target), iter: expr(&g.iter), ifs: exprs(&g.ifs) },
    ).collect()
}

/// A `ruff_python_ast::Expr`, variant by variant, from `ListComp` to `Generator`.
#[verifier::external_body]
fn comprehension(e: &ruff::Expr) -> Node {
    match e {
        ruff::Expr::ListComp(x) => Node::ListComp { elt: boxed(&x.elt), generators: generators(e) },
        ruff::Expr::SetComp(x) => Node::SetComp { elt: boxed(&x.elt), generators: generators(e) },
        ruff::Expr::DictComp(x) => Node::DictComp {
            key: optional(&x.key),
            value: boxed(&x.value),
            generators: generators(e),
        },
        ruff::Expr::Generator(x) => Node::Generator { elt: boxed(&x.elt), generators: generators(e) },
        _ => waiting(e),
    }
}

/// A `ruff_python_ast::Expr`, variant by variant, from `Await` to `Compare`.
#[verifier::external_body]
fn waiting(e: &ruff::Expr) -> Node {
    match e {
        ruff::Expr::Await(x) => Node::Await { value: boxed(&x.value) },
        ruff::Expr::Yield(x) => Node::Yield { value: optional(&x.value) },
        ruff::Expr::YieldFrom(x) => Node::YieldFrom { value: boxed(&x.value) },
        ruff::Expr::Compare(x) => Node::Compare {
            left: boxed(&x.left),
            ops: x.ops.iter().map(comparison).collect(),
            comparators: exprs(&x.comparators),
        },
        _ => call(e),
    }
}

/// A `ruff_python_ast::Expr`, for the variant `Call`.
#[verifier::external_body]
fn call(e: &ruff::Expr) -> Node {
    match e {
        ruff::Expr::Call(x) => {
            let a = &x.arguments;
            let keywords = a.keywords.iter().map(
                |k| Keyword { arg: k.arg.as_ref().map(|id| id.as_str().to_owned()), value: expr(&k.value) },
            ).collect();
            let range = TextRange::new(a.start().to_u32(), a.end().to_u32());
            Node::Call { func: boxed(&x.func), arguments: Arguments { args: exprs(&a.args), keywords, range } }
        },
        _ => string(e),
    }
}

/// A `ruff_python_ast::Expr`, variant by variant, from `FString` to `BytesLiteral`. Bytes are kept as
/// `Debug` shows them.
#[verifier::external_body]
fn string(e: &ruff::Expr) -> Node {
    match e {
        ruff::Expr::FString(x) => Node::FString { values: x.value.elements().map(element).collect() },
        ruff::Expr::TString(x) => Node::TString { values: x.value.elements().map(element).collect() },
        ruff::Expr::StringLiteral(x) => Node::StringLiteral { value: x.value.to_str().to_owned() },
        ruff::Expr::BytesLiteral(x) => Node::BytesLiteral { text: format!("{:?}", x.value) },
        _ => number(e),
    }
}

/// A `ruff_python_ast::Expr`, variant by variant, from `NumberLiteral` to `EllipsisLiteral`. Numbers
/// are kept as `Debug` shows them.
#[verifier::external_body]
fn number(e: &ruff::Expr) -> Node {
    match e {
        ruff::Expr::NumberLiteral(x) => Node::NumberLiteral {
            kind: match x.value {
                ruff::Number::Int(_) => NumberKind::Int,
                ruff::Number::Float(_) => NumberKind::Float,
                ruff::Number::Complex { .. } => NumberKind::Complex,
            },
            text: format!("{:?}", x.value),
        },
        ruff::Expr::BooleanLiteral(x) => Node::BooleanLiteral { value: x.value },
        ruff::Expr::NoneLiteral(_) => Node::NoneLiteral,
        ruff::Expr::EllipsisLiteral(_) => Node::EllipsisLiteral,
        _ => attribute(e),
    }
}

/// A `ruff_python_ast::Expr`, for the variant `Attribute`.
#[verifier::external_body]
fn attribute(e: &ruff::Expr) -> Node {
    match e {
        ruff::Expr::Attribute(x) => {
            let ctx = match x.ctx {
                ruff::ExprContext::Load => ExprContext::Load,
                ruff::ExprContext::Store => ExprContext::Store,
                ruff::ExprContext::Del => ExprContext::Del,
                ruff::ExprContext::Invalid => ExprContext::Invalid,
            };
            Node::Attribute { value: boxed(&x.value), attr: x.attr.as_str().to_owned(), ctx }
        },
        _ => subscript(e),
    }
}

/// A `ruff_python_ast::Expr`, for the variant `Subscript`.
#[verifier::external_body]
fn subscript(e: &ruff::Expr) -> Node {
    match e {
        ruff::Expr::Subscript(x) => {
            let ctx = match x.ctx {
                ruff::ExprContext::Load => ExprContext::Load,
                ruff::ExprContext::Store => ExprContext::Store,
                ruff::ExprContext::Del => ExprContext::Del,
                ruff::ExprContext::Invalid => ExprContext::Invalid,
            };
            Node::Subscript { value: boxed(&x.value), slice: boxed(&x.slice), ctx }
        },
        _ => variable(e),
    }
}

/// A `ruff_python_ast::Expr`, for the variants that are left: `Starred`, `Name`, `Slice` and
/// `IpyEscapeCommand`.
#[verifier::external_body]
fn variable(e: &ruff::Expr) -> Node {
    match e {
        ruff::Expr::Starred(x) => Node::Starred { value: boxed(&x.value) },
        ruff::Expr::Name(x) => Node::Name { id: x.id.as_str().to_owned() },
        ruff::Expr::Slice(x) => Node::Slice {
            lower: optional(&x.lower),
            upper: optional(&x.upper),
            step: optional(&x.step),
        },
        ruff::Expr::IpyEscapeCommand(x) => Node::IpyEscapeCommand { value: x.value.to_string() },
        _ => Node::EllipsisLiteral,
    }
}

/// A `ruff_python_ast::ExprCall` as `Debug` shows it, and nothing for the other variants.
#[verifier::external_body]
fn shown(e: &ruff::Expr) -> String {
    match e {
        ruff::Expr::Call(x) => format!("{:?}", x),
        _ => String::new(),
    }
}

/// A `ruff_python_ast::Pattern`: the patterns inside of it, and the name that it captures.
#[verifier::external_body]
fn pattern(p: &ruff::Pattern) -> CasePattern {
    match p {
        ruff::Pattern::MatchSequence(x) => CasePattern {
            parts: x.patterns.iter().map(pattern).collect(),
            name: None,
        },
        ruff::Pattern::MatchMapping(x) => CasePattern {
            parts: x.patterns.iter().map(pattern).collect(),
            name: x.rest.as_ref().map(name),
        },
        ruff::Pattern::MatchOr(x) => CasePattern { parts: x.patterns.iter().map(pattern).collect(), name: None },
        _ => capture(p),
    }
}

/// A `ruff_python_ast::Pattern`, for the variants that `pattern` leaves. Neither `MatchValue` nor
/// `MatchSingleton` holds a pattern or a name.
#[verifier::external_body]
fn capture(p: &ruff::Pattern) -> CasePattern {
    match p {
        ruff::Pattern::MatchClass(x) => {
            let keywords = x.arguments.keywords.iter().map(|k| &k.pattern);
            CasePattern { parts: x.arguments.patterns.iter().chain(keywords).map(pattern).collect(), name: None }
        },
        ruff::Pattern::MatchStar(x) => CasePattern { parts: Vec::new(), name: x.name.as_ref().map(name) },
        ruff::Pattern::MatchAs(x) => CasePattern {
            parts: x.pattern.as_deref().into_iter().map(pattern).collect(),
            name: x.name.as_ref().map(name),
        },
        _ => CasePattern { parts: Vec::new(), name: None },
    }
}

/// A `ruff_python_ast::Stmt` with its place.
#[verifier::external_body]
fn stmt(s: &ruff::Stmt) -> Statement {
    Statement { range: TextRange::new(s.start().to_u32(), s.end().to_u32()), node: function(s) }
}

/// Each of some statements.
#[verifier::external_body]
pub(crate) fn stmts(list: &[ruff::Stmt]) -> Vec<Statement> {
    list.iter().map(stmt).collect()
}

/// The decorators of a `ruff_python_ast::Stmt` that defines a function or a class.
#[verifier::external_body]
fn decorators(s: &ruff::Stmt) -> Vec<Decorator> {
    let list: &[ruff::Decorator] = match s {
        ruff::Stmt::FunctionDef(x) => &x.decorator_list,
        ruff::Stmt::ClassDef(x) => &x.decorator_list,
        _ => &[],
    };
    list.iter().map(
        |d| Decorator { expression: expr(&d.expression), range: TextRange::new(d.start().to_u32(), d.end().to_u32()) },
    ).collect()
}

/// The parameters of a `ruff_python_ast::StmtFunctionDef`.
#[verifier::external_body]
fn parameters(f: &ruff::StmtFunctionDef) -> Parameters {
    let p = &f.parameters;
    Parameters {
        posonlyargs: p.posonlyargs.iter().map(parameter).collect(),
        args: p.args.iter().map(parameter).collect(),
        vararg: p.vararg.as_ref().map(|v| v.name.as_str().to_owned()),
        kwonlyargs: p.kwonlyargs.iter().map(parameter).collect(),
        kwarg: p.kwarg.as_ref().map(|v| v.name.as_str().to_owned()),
    }
}

/// A `ruff_python_ast::Stmt`, for the variant `FunctionDef`.
#[verifier::external_body]
fn function(s: &ruff::Stmt) -> StmtNode {
    match s {
        ruff::Stmt::FunctionDef(x) => StmtNode::FunctionDef(FunctionDef {
            name: x.name.as_str().to_owned(),
            name_range: TextRange::new(x.name.start().to_u32(), x.name.end().to_u32()),
            decorators: decorators(s),
            parameters: parameters(x),
            return_annotation: unboxed(&x.returns),
            body: stmts(&x.body),
        }),
        _ => class(s),
    }
}

/// The arguments of a `ruff_python_ast::StmtClassDef`.
#[verifier::external_body]
fn class_arguments(class: &ruff::StmtClassDef) -> Option<Arguments> {
    class.arguments.as_ref().map(|a| Arguments {
        args: exprs(&a.args),
        keywords: a.keywords.iter().map(
            |k| Keyword { arg: k.arg.as_ref().map(|id| id.as_str().to_owned()), value: expr(&k.value) },
        ).collect(),
        range: TextRange::new(a.start().to_u32(), a.end().to_u32()),
    })
}

/// A `ruff_python_ast::Stmt`, for the variant `ClassDef`.
#[verifier::external_body]
fn class(s: &ruff::Stmt) -> StmtNode {
    match s {
        ruff::Stmt::ClassDef(x) => StmtNode::ClassDef(ClassDef {
            name: x.name.as_str().to_owned(),
            name_range: TextRange::new(x.name.start().to_u32(), x.name.end().to_u32()),
            decorators: decorators(s),
            arguments: class_arguments(x),
            body: stmts(&x.body),
        }),
        _ => assignment(s),
    }
}

/// A `ruff_python_ast::Stmt`, variant by variant, from `Delete` to `AnnAssign`.
#[verifier::external_body]
fn assignment(s: &ruff::Stmt) -> StmtNode {
    match s {
        ruff::Stmt::Delete(x) => StmtNode::Delete { targets: exprs(&x.targets) },
        ruff::Stmt::Assign(x) => StmtNode::Assign { targets: exprs(&x.targets), value: expr(&x.value) },
        ruff::Stmt::AugAssign(x) => StmtNode::AugAssign { target: expr(&x.target), value: expr(&x.value) },
        ruff::Stmt::AnnAssign(x) => StmtNode::AnnAssign {
            target: expr(&x.target),
            annotation: expr(&x.annotation),
            value: unboxed(&x.value),
        },
        _ => repetition(s),
    }
}

/// A `ruff_python_ast::Stmt`, for the variants `For` and `While`.
#[verifier::external_body]
fn repetition(s: &ruff::Stmt) -> StmtNode {
    match s {
        ruff::Stmt::For(x) => StmtNode::For {
            target: expr(&x.target),
            iter: expr(&x.iter),
            body: stmts(&x.body),
            orelse: stmts(&x.orelse),
        },
        ruff::Stmt::While(x) => StmtNode::While {
            test: expr(&x.test),
            body: stmts(&x.body),
            orelse: stmts(&x.orelse),
        },
        _ => decision(s),
    }
}

/// A `ruff_python_ast::Stmt`, for the variants `If` and `Match`. The test and body of an `if` are its
/// first branch, its clauses the others.
#[verifier::external_body]
fn decision(s: &ruff::Stmt) -> StmtNode {
    match s {
        ruff::Stmt::If(x) => {
            let first = std::iter::once(Branch { test: Some(expr(&x.test)), body: stmts(&x.body) });
            let clauses = x.elif_else_clauses.iter();
            let others = clauses.map(|c| Branch { test: c.test.as_ref().map(expr), body: stmts(&c.body) });
            StmtNode::If { branches: first.chain(others).collect() }
        },
        ruff::Stmt::Match(x) => {
            let cases = x.cases.iter().map(|c| MatchCase { pattern: pattern(&c.pattern), body: stmts(&c.body) });
            StmtNode::Match { subject: expr(&x.subject), cases: cases.collect() }
        },
        _ => with(s),
    }
}

/// A `ruff_python_ast::Stmt`, for the variants `With` and `Raise`.
#[verifier::external_body]
fn with(s: &ruff::Stmt) -> StmtNode {
    match s {
        ruff::Stmt::With(x) => {
            let items = x.items.iter().map(
                |i| WithItem { context_expr: expr(&i.context_expr), vars: unboxed(&i.optional_vars) },
            );
            StmtNode::With { items: items.collect(), body: stmts(&x.body) }
        },
        ruff::Stmt::Raise(x) => StmtNode::Raise { exc: unboxed(&x.exc) },
        _ => guarded(s),
    }
}

/// A `ruff_python_ast::Stmt`, for the variant `Try`.
#[verifier::external_body]
fn guarded(s: &ruff::Stmt) -> StmtNode {
    match s {
        ruff::Stmt::Try(x) => {
            let handlers = x.handlers.iter().map(|h| match h {
                ruff::ExceptHandler::ExceptHandler(y) => Handler {
                    type_: unboxed(&y.type_),
                    name: y.name.as_ref().map(name),
                    body: stmts(&y.body),
                },
            }).collect();
            let (orelse, finalbody) = (stmts(&x.orelse), stmts(&x.finalbody));
            StmtNode::Try { body: stmts(&x.body), handlers, orelse, finalbody }
        },
        _ => import(s),
    }
}

/// The names of a `ruff_python_ast::Stmt` that imports.
#[verifier::external_body]
fn aliases(s: &ruff::Stmt) -> Vec<ImportAlias> {
    let list: &[ruff::Alias] = match s {
        ruff::Stmt::Import(x) => &x.names,
        ruff::Stmt::ImportFrom(x) => &x.names,
        _ => &[],
    };
    list.iter().map(|a| ImportAlias {
        name: a.name.as_str().to_owned(),
        name_range: name(&a.name).range,
        asname: a.asname.as_ref().map(|id| id.as_str().to_owned()),
        asname_range: a.asname.as_ref().map(|id| name(id).range),
    }).collect()
}

/// A `ruff_python_ast::Stmt`, for the variants `Import` and `ImportFrom`.
#[verifier::external_body]
fn import(s: &ruff::Stmt) -> StmtNode {
    match s {
        ruff::Stmt::Import(x) => StmtNode::Import(Import { names: aliases(s), is_lazy: x.is_lazy }),
        ruff::Stmt::ImportFrom(x) => StmtNode::ImportFrom(ImportFrom {
            module: x.module.as_ref().map(|m| m.as_str().to_owned()),
            names: aliases(s),
            level: x.level,
            is_lazy: x.is_lazy,
        }),
        _ => simple(s),
    }
}

/// A `ruff_python_ast::Stmt`, variant by variant, from `Expr` to `TypeAlias`. The variants that are
/// left (`Return`, `Assert`, `Pass`, `Break`, `Continue`, `IpyEscapeCommand`) are not looked at.
#[verifier::external_body]
fn simple(s: &ruff::Stmt) -> StmtNode {
    match s {
        ruff::Stmt::Expr(x) => StmtNode::Expr { value: expr(&x.value), shown: shown(&x.value) },
        ruff::Stmt::Global(x) => StmtNode::Global { names: x.names.iter().map(name).collect() },
        ruff::Stmt::Nonlocal(x) => StmtNode::Nonlocal { names: x.names.iter().map(name).collect() },
        ruff::Stmt::TypeAlias(x) => StmtNode::TypeAlias { name: expr(&x.name) },
        _ => StmtNode::Other,
    }
}

} // verus!
