//! Python source code, as far as the analysis looks at it.

use crate::module_name::{dotted, ModuleName};
use crate::text_range::TextRange;
use vstd::prelude::*;

verus! {

/// `and` and `or`.
#[derive(Debug, PartialEq, Eq, Structural, Copy, Clone)]
pub enum BoolOp {
    And,
    Or,
}

/// Operators between two operands.
#[derive(Debug, PartialEq, Eq, Structural, Copy, Clone)]
pub enum Operator {
    Add,
    Sub,
    Mult,
    MatMult,
    Div,
    Mod,
    Pow,
    LShift,
    RShift,
    BitOr,
    BitXor,
    BitAnd,
    FloorDiv,
}

/// Operators before an operand.
#[derive(Debug, PartialEq, Eq, Structural, Copy, Clone)]
pub enum UnaryOp {
    Invert,
    Not,
    UAdd,
    USub,
}

/// Comparisons.
#[derive(Debug, PartialEq, Eq, Structural, Copy, Clone)]
pub enum Comparison {
    Eq,
    NotEq,
    Lt,
    LtE,
    Gt,
    GtE,
    Is,
    IsNot,
    In,
    NotIn,
}

/// The kinds of numbers.
#[derive(Debug, PartialEq, Eq, Structural, Copy, Clone)]
pub enum NumberKind {
    Int,
    Float,
    Complex,
}

/// What is done with an attribute or an item.
#[derive(Debug, PartialEq, Eq, Structural, Copy, Clone)]
pub enum ExprContext {
    Load,
    Store,
    Del,
    Invalid,
}

/// An expression.
pub struct Expression {
    pub range: TextRange,
    pub node: Node,
}

/// What an expression is.
#[allow(inconsistent_fields)]
pub enum Node {
    BoolOp { op: BoolOp, values: Vec<Expression> },
    Named { target: Box<Expression>, value: Box<Expression> },
    BinOp { left: Box<Expression>, op: Operator, right: Box<Expression> },
    UnaryOp { op: UnaryOp, operand: Box<Expression> },
    Lambda { parameters: Option<Box<Parameters>>, body: Box<Expression> },
    If { test: Box<Expression>, body: Box<Expression>, orelse: Box<Expression> },
    Dict { items: Vec<DictItem> },
    SetDisplay { elts: Vec<Expression> },
    ListComp { elt: Box<Expression>, generators: Vec<Comprehension> },
    SetComp { elt: Box<Expression>, generators: Vec<Comprehension> },
    DictComp { key: Option<Box<Expression>>, value: Box<Expression>, generators: Vec<Comprehension> },
    Generator { elt: Box<Expression>, generators: Vec<Comprehension> },
    Await { value: Box<Expression> },
    Yield { value: Option<Box<Expression>> },
    YieldFrom { value: Box<Expression> },
    Compare { left: Box<Expression>, ops: Vec<Comparison>, comparators: Vec<Expression> },
    Call { func: Box<Expression>, arguments: Arguments },
    /// A formatted string: its literals, and each expression in it with its format as a formatted string
    /// of its own.
    FString { values: Vec<Expression> },
    /// A template string, with the parts of a formatted one.
    TString { values: Vec<Expression> },
    StringLiteral { value: String },
    /// A literal of bytes, as it is shown.
    BytesLiteral { text: String },
    /// A number, as it is shown.
    NumberLiteral { kind: NumberKind, text: String },
    BooleanLiteral { value: bool },
    NoneLiteral,
    EllipsisLiteral,
    Attribute { value: Box<Expression>, attr: String, ctx: ExprContext },
    Subscript { value: Box<Expression>, slice: Box<Expression>, ctx: ExprContext },
    Starred { value: Box<Expression> },
    Name { id: String },
    List { elts: Vec<Expression> },
    Tuple { elts: Vec<Expression> },
    Slice { lower: Option<Box<Expression>>, upper: Option<Box<Expression>>, step: Option<Box<Expression>> },
    /// A command of an interactive shell.
    IpyEscapeCommand { value: String },
}

/// An entry of a dictionary; without a key, all entries of another one.
pub struct DictItem {
    pub key: Option<Expression>,
    pub value: Expression,
}

/// `for target in iter if ...`.
pub struct Comprehension {
    pub target: Expression,
    pub iter: Expression,
    pub ifs: Vec<Expression>,
}

/// `name=value`, or `**value`.
pub struct Keyword {
    pub arg: Option<String>,
    pub value: Expression,
}

/// The arguments of a call.
pub struct Arguments {
    pub args: Vec<Expression>,
    pub keywords: Vec<Keyword>,
    pub range: TextRange,
}

/// A parameter of a function.
pub struct Parameter {
    pub name: String,
    pub default: Option<Expression>,
    pub range: TextRange,
}

/// The parameters of a function.
pub struct Parameters {
    pub posonlyargs: Vec<Parameter>,
    pub args: Vec<Parameter>,
    pub vararg: Option<String>,
    pub kwonlyargs: Vec<Parameter>,
    pub kwarg: Option<String>,
}

/// A name, and where it stands.
pub struct PlacedName {
    pub name: String,
    pub range: TextRange,
}

/// A statement.
pub struct Statement {
    pub range: TextRange,
    pub node: StmtNode,
}

/// What a statement is.
#[allow(inconsistent_fields)]
pub enum StmtNode {
    FunctionDef(FunctionDef),
    ClassDef(ClassDef),
    Delete { targets: Vec<Expression> },
    Assign { targets: Vec<Expression>, value: Expression },
    AugAssign { target: Expression, value: Expression },
    AnnAssign { target: Expression, annotation: Expression, value: Option<Expression> },
    For { target: Expression, iter: Expression, body: Vec<Statement>, orelse: Vec<Statement> },
    While { test: Expression, body: Vec<Statement>, orelse: Vec<Statement> },
    If { branches: Vec<Branch> },
    With { items: Vec<WithItem>, body: Vec<Statement> },
    Match { subject: Expression, cases: Vec<MatchCase> },
    Raise { exc: Option<Expression> },
    Try { body: Vec<Statement>, handlers: Vec<Handler>, orelse: Vec<Statement>, finalbody: Vec<Statement> },
    Import(Import),
    ImportFrom(ImportFrom),
    /// An expression by itself. Of a call, it is also kept how the parser shows it.
    Expr { value: Expression, shown: String },
    Global { names: Vec<PlacedName> },
    Nonlocal { names: Vec<PlacedName> },
    /// `type name = ...`.
    TypeAlias { name: Expression },
    /// A statement that neither contains statements nor is looked at.
    Other,
}

/// A pattern of a `match` statement: the patterns inside of it, and the name that it captures.
pub struct CasePattern {
    pub parts: Vec<CasePattern>,
    pub name: Option<PlacedName>,
}

/// `case pattern: body`.
pub struct MatchCase {
    pub pattern: CasePattern,
    pub body: Vec<Statement>,
}

/// `@expression`.
pub struct Decorator {
    pub expression: Expression,
    pub range: TextRange,
}

/// `def name(parameters) -> return_annotation: body`.
pub struct FunctionDef {
    pub name: String,
    pub name_range: TextRange,
    pub decorators: Vec<Decorator>,
    pub parameters: Parameters,
    pub return_annotation: Option<Expression>,
    pub body: Vec<Statement>,
}

/// `class name(arguments): body`.
pub struct ClassDef {
    pub name: String,
    pub name_range: TextRange,
    pub decorators: Vec<Decorator>,
    pub arguments: Option<Arguments>,
    pub body: Vec<Statement>,
}

/// A branch of an `if` statement. The last one may have no test.
pub struct Branch {
    pub test: Option<Expression>,
    pub body: Vec<Statement>,
}

/// `context_expr as vars`.
pub struct WithItem {
    pub context_expr: Expression,
    pub vars: Option<Expression>,
}

/// `except type_ as name: body`.
pub struct Handler {
    pub type_: Option<Expression>,
    pub name: Option<PlacedName>,
    pub body: Vec<Statement>,
}

/// `name as asname`.
pub struct ImportAlias {
    pub name: String,
    pub name_range: TextRange,
    pub asname: Option<String>,
    pub asname_range: Option<TextRange>,
}

/// `import names`.
pub struct Import {
    pub names: Vec<ImportAlias>,
    pub is_lazy: bool,
}

/// `from module import names`, with as many dots before the module as the level says.
pub struct ImportFrom {
    pub module: Option<String>,
    pub names: Vec<ImportAlias>,
    pub level: u32,
    pub is_lazy: bool,
}

/// A module that was parsed.
pub struct ParsedModule {
    pub name: ModuleName,
    pub body: Vec<Statement>,
    /// The module is the `__init__` of a package.
    pub is_init: bool,
    pub is_stub: bool,
    pub is_thrift_generated: bool,
}

/// What came of parsing a file.
pub enum AstResult {
    Parsed(ParsedModule),
    /// The file could not be parsed, for the reason that is given.
    ParserError(String),
}

impl AstResult {
    /// The module, or why there is none.
    pub fn as_parsed(&self) -> (res: Result<&ParsedModule, String>)
        ensures
            match (*self, res) {
                (AstResult::Parsed(parsed), Ok(found)) => *found == parsed,
                (AstResult::ParserError(e), Err(message)) => message@ == "Parser error: "@ + e@,
                _ => false,
            },
    {
        match self {
            AstResult::Parsed(parsed) => Ok(parsed),
            AstResult::ParserError(e) => {
                let mut message = "Parser error: ".to_owned();
                message.append(e.as_str());
                Err(message)
            },
        }
    }
}

/// The variable at the left end of an expression of attributes and items.
pub open spec fn base_name_of(e: Expression) -> Option<Seq<char>>
    decreases e,
{
    match e.node {
        Node::Name { id } => Some(id@),
        Node::Attribute { value, .. } => base_name_of(*value),
        Node::Subscript { value, .. } => base_name_of(*value),
        _ => None,
    }
}

/// The dotted name that an expression is, where it is one.
pub open spec fn full_name_of(e: Expression) -> Option<Seq<char>>
    decreases e,
{
    match e.node {
        Node::Name { id } => Some(id@),
        Node::Attribute { value, attr, .. } => match full_name_of(*value) {
            Some(name) => Some(dotted(name, attr@)),
            None => None,
        },
        _ => None,
    }
}

/// The variable that an expression is, where it is one.
pub open spec fn var_name_of(e: Expression) -> Option<Seq<char>> {
    match e.node {
        Node::Name { id } => Some(id@),
        _ => None,
    }
}

/// What an optional name is.
pub open spec fn name_view(name: Option<&String>) -> Option<Seq<char>> {
    match name {
        Some(text) => Some(text@),
        None => None,
    }
}

impl Expression {
    /// The variable at the left end of an expression of attributes and items.
    pub fn base_name(&self) -> (res: Option<&String>)
        ensures
            name_view(res) == base_name_of(*self),
        decreases self,
    {
        match &self.node {
            Node::Name { id } => Some(id),
            Node::Attribute { value, .. } => value.base_name(),
            Node::Subscript { value, .. } => value.base_name(),
            _ => None,
        }
    }

    /// The dotted name that an expression is, where it is one.
    pub fn full_name(&self) -> (res: Option<ModuleName>)
        ensures
            (match res {
                Some(name) => Some(name@),
                None => None,
            }) == full_name_of(*self),
        decreases self,
    {
        match &self.node {
            Node::Name { id } => Some(ModuleName::from_str(id.as_str())),
            Node::Attribute { value, attr, .. } => match value.full_name() {
                Some(name) => Some(name.append_str(attr.as_str())),
                None => None,
            },
            _ => None,
        }
    }

    /// The variable that an expression is, where it is one.
    pub fn as_var_name(&self) -> (res: Option<&String>)
        ensures
            name_view(res) == var_name_of(*self),
    {
        match &self.node {
            Node::Name { id } => Some(id),
            _ => None,
        }
    }
}

/// A value, or nothing, as a sequence.
pub open spec fn opt_seq<T>(x: Option<T>) -> Seq<T> {
    match x {
        Some(v) => seq![v],
        None => Seq::empty(),
    }
}

/// A boxed expression, or nothing, as a sequence.
pub open spec fn box_seq(x: Option<Box<Expression>>) -> Seq<Expression> {
    match x {
        Some(v) => seq![*v],
        None => Seq::empty(),
    }
}

/// The expressions in the first `n` entries of a dictionary.
pub open spec fn item_exprs(items: Seq<DictItem>, n: int) -> Seq<Expression>
    decreases n,
{
    if n <= 0 {
        Seq::empty()
    } else {
        item_exprs(items, n - 1) + opt_seq(items[n - 1].key).push(items[n - 1].value)
    }
}

/// The expressions in the first `n` parts of a comprehension.
pub open spec fn generator_exprs(generators: Seq<Comprehension>, n: int) -> Seq<Expression>
    decreases n,
{
    if n <= 0 {
        Seq::empty()
    } else {
        let g = generators[n - 1];
        generator_exprs(generators, n - 1) + (seq![g.target, g.iter] + g.ifs@)
    }
}

/// The values of keyword arguments.
pub open spec fn keyword_exprs(keywords: Seq<Keyword>) -> Seq<Expression> {
    keywords.map_values(|k: Keyword| k.value)
}

/// The expressions directly inside of an expression, in the order in which they stand. Those in
/// the parameters of a `lambda` are not among them.
pub open spec fn children(e: Expression) -> Seq<Expression> {
    match e.node {
        Node::BoolOp { values, .. } => values@,
        Node::Named { target, value } => seq![*target, *value],
        Node::BinOp { left, right, .. } => seq![*left, *right],
        Node::UnaryOp { operand, .. } => seq![*operand],
        Node::Lambda { body, .. } => seq![*body],
        Node::If { test, body, orelse } => seq![*test, *body, *orelse],
        Node::Dict { items } => item_exprs(items@, items@.len() as int),
        Node::SetDisplay { elts } => elts@,
        Node::ListComp { elt, generators } => seq![*elt] + generator_exprs(
            generators@,
            generators@.len() as int,
        ),
        Node::SetComp { elt, generators } => seq![*elt] + generator_exprs(
            generators@,
            generators@.len() as int,
        ),
        Node::DictComp { key, value, generators } => box_seq(key).push(*value) + generator_exprs(
            generators@,
            generators@.len() as int,
        ),
        Node::Generator { elt, generators } => seq![*elt] + generator_exprs(
            generators@,
            generators@.len() as int,
        ),
        Node::Await { value } => seq![*value],
        Node::Yield { value } => box_seq(value),
        Node::YieldFrom { value } => seq![*value],
        Node::Compare { left, comparators, .. } => seq![*left] + comparators@,
        Node::Call { func, arguments } => seq![*func] + (arguments.args@ + keyword_exprs(
            arguments.keywords@,
        )),
        Node::FString { values } => values@,
        Node::TString { values } => values@,
        Node::Attribute { value, .. } => seq![*value],
        Node::Subscript { value, slice, .. } => seq![*value, *slice],
        Node::Starred { value } => seq![*value],
        Node::List { elts } => elts@,
        Node::Tuple { elts } => elts@,
        Node::Slice { lower, upper, step } => box_seq(lower) + (box_seq(upper) + box_seq(step)),
        _ => Seq::empty(),
    }
}

proof fn lemma_item_smaller(items: Vec<DictItem>, n: int, k: int)
    requires
        0 <= n <= items@.len(),
        0 <= k < item_exprs(items@, n).len(),
    ensures
        decreases_to!(items => item_exprs(items@, n)[k]),
    decreases n,
{
    if n > 0 {
        let before = item_exprs(items@, n - 1);
        let last = opt_seq(items@[n - 1].key).push(items@[n - 1].value);
        if k < before.len() {
            lemma_item_smaller(items, n - 1, k);
            assert(item_exprs(items@, n)[k] == before[k]);
        } else {
            assert(item_exprs(items@, n)[k] == last[k - before.len()]);
            assert(decreases_to!(items => items[n - 1]));
            assert(decreases_to!(items[n - 1] => last[k - before.len()]));
        }
    }
}

proof fn lemma_generator_smaller(generators: Vec<Comprehension>, n: int, k: int)
    requires
        0 <= n <= generators@.len(),
        0 <= k < generator_exprs(generators@, n).len(),
    ensures
        decreases_to!(generators => generator_exprs(generators@, n)[k]),
    decreases n,
{
    if n > 0 {
        let before = generator_exprs(generators@, n - 1);
        let g = generators@[n - 1];
        let last = seq![g.target, g.iter] + g.ifs@;
        if k < before.len() {
            lemma_generator_smaller(generators, n - 1, k);
            assert(generator_exprs(generators@, n)[k] == before[k]);
        } else {
            let j = k - before.len();
            assert(generator_exprs(generators@, n)[k] == last[j]);
            assert(decreases_to!(generators => generators[n - 1]));
            if j >= 2 {
                assert(last[j] == g.ifs@[j - 2]);
                assert(decreases_to!(g.ifs => g.ifs[j - 2]));
            }
            assert(decreases_to!(generators[n - 1] => last[j]));
        }
    }
}

/// What is inside of an expression is smaller than it.
pub proof fn lemma_children_smaller(e: Expression, k: int)
    requires
        0 <= k < children(e).len(),
    ensures
        decreases_to!(e => children(e)[k]),
{
    let c = children(e)[k];
    match e.node {
        Node::BoolOp { values, .. } => {
            assert(decreases_to!(values => values[k]));
        },
        Node::SetDisplay { elts } => {
            assert(decreases_to!(elts => elts[k]));
        },
        Node::FString { values } => {
            assert(decreases_to!(values => values[k]));
        },
        Node::TString { values } => {
            assert(decreases_to!(values => values[k]));
        },
        Node::List { elts } => {
            assert(decreases_to!(elts => elts[k]));
        },
        Node::Tuple { elts } => {
            assert(decreases_to!(elts => elts[k]));
        },
        Node::Dict { items } => {
            lemma_item_smaller(items, items@.len() as int, k);
        },
        Node::ListComp { elt, generators } => {
            if k > 0 {
                lemma_generator_smaller(generators, generators@.len() as int, k - 1);
            }
        },
        Node::SetComp { elt, generators } => {
            if k > 0 {
                lemma_generator_smaller(generators, generators@.len() as int, k - 1);
            }
        },
        Node::Generator { elt, generators } => {
            if k > 0 {
                lemma_generator_smaller(generators, generators@.len() as int, k - 1);
            }
        },
        Node::DictComp { key, value, generators } => {
            let first = box_seq(key).push(*value);
            if k >= first.len() {
                lemma_generator_smaller(generators, generators@.len() as int, k - first.len());
            }
        },
        Node::Compare { left, comparators, .. } => {
            if k > 0 {
                assert(decreases_to!(comparators => comparators[k - 1]));
            }
        },
        Node::Call { func, arguments } => {
            let n = arguments.args@.len() as int;
            if 0 < k <= n {
                assert(c == arguments.args@[k - 1]);
                assert(decreases_to!(arguments.args => arguments.args[k - 1]));
            } else if k > n {
                assert(c == arguments.keywords@[k - 1 - n].value);
                assert(decreases_to!(arguments.keywords => arguments.keywords[k - 1 - n]));
            }
        },
        _ => {},
    }
}

/// The bodies of the branches of an `if` statement.
pub open spec fn branch_bodies(branches: Seq<Branch>) -> Seq<Vec<Statement>> {
    branches.map_values(|b: Branch| b.body)
}

/// The bodies of the cases of a `match` statement.
pub open spec fn case_bodies(cases: Seq<MatchCase>) -> Seq<Vec<Statement>> {
    cases.map_values(|c: MatchCase| c.body)
}

/// The bodies of the handlers of a `try` statement.
pub open spec fn handler_bodies(handlers: Seq<Handler>) -> Seq<Vec<Statement>> {
    handlers.map_values(|h: Handler| h.body)
}

/// The blocks of statements directly inside of a statement, in order.
pub open spec fn blocks(s: Statement) -> Seq<Vec<Statement>> {
    match s.node {
        StmtNode::FunctionDef(f) => seq![f.body],
        StmtNode::ClassDef(c) => seq![c.body],
        StmtNode::For { body, orelse, .. } => seq![body, orelse],
        StmtNode::While { body, orelse, .. } => seq![body, orelse],
        StmtNode::If { branches } => branch_bodies(branches@),
        StmtNode::With { body, .. } => seq![body],
        StmtNode::Match { cases, .. } => case_bodies(cases@),
        StmtNode::Try { body, handlers, orelse, finalbody } => seq![body] + handler_bodies(handlers@)
            + seq![orelse, finalbody],
        _ => Seq::empty(),
    }
}

/// The blocks inside of a statement are smaller than it.
pub proof fn lemma_blocks_smaller(s: Statement, k: int)
    requires
        0 <= k < blocks(s).len(),
    ensures
        decreases_to!(s => blocks(s)[k]),
        decreases_to!(s => blocks(s)[k]@),
{
    match s.node {
        StmtNode::If { branches } => {
            assert(decreases_to!(branches => branches[k]));
        },
        StmtNode::Match { cases, .. } => {
            assert(decreases_to!(cases => cases[k]));
        },
        StmtNode::Try { body, handlers, orelse, finalbody } => {
            let n = handlers@.len() as int;
            if 0 < k <= n {
                assert(blocks(s)[k] == handlers@[k - 1].body);
                assert(decreases_to!(handlers => handlers[k - 1]));
            }
        },
        _ => {},
    }
}

/// What references to blocks refer to.
pub open spec fn block_refs(refs: Seq<&Vec<Statement>>) -> Seq<Vec<Statement>> {
    refs.map_values(|r: &Vec<Statement>| *r)
}

fn push_block<'a>(res: &mut Vec<&'a Vec<Statement>>, block: &'a Vec<Statement>)
    ensures
        block_refs(final(res)@) == block_refs(old(res)@).push(*block),
{
    let ghost before = block_refs(res@);
    res.push(block);
    proof {
        assert(block_refs(res@) =~= before.push(*block));
    }
}

impl Statement {
    /// The blocks of statements directly inside of a statement, in order.
    pub fn blocks(&self) -> (res: Vec<&Vec<Statement>>)
        ensures
            block_refs(res@) == blocks(*self),
    {
        let mut res: Vec<&Vec<Statement>> = Vec::new();
        proof {
            assert(block_refs(res@) =~= Seq::empty());
        }
        match &self.node {
            StmtNode::FunctionDef(f) => {
                push_block(&mut res, &f.body);
            },
            StmtNode::ClassDef(c) => {
                push_block(&mut res, &c.body);
            },
            StmtNode::For { body, orelse, .. } => {
                push_block(&mut res, body);
                push_block(&mut res, orelse);
            },
            StmtNode::While { body, orelse, .. } => {
                push_block(&mut res, body);
                push_block(&mut res, orelse);
            },
            StmtNode::If { branches } => {
                for i in 0..branches.len()
                    invariant
                        block_refs(res@) == branch_bodies(branches@).take(i as int),
                {
                    push_block(&mut res, &branches[i].body);
                    proof {
                        assert(branch_bodies(branches@).take(i + 1) =~= branch_bodies(branches@).take(i as int).push(branches@[i as int].body));
                    }
                }
            },
            StmtNode::With { body, .. } => {
                push_block(&mut res, body);
            },
            StmtNode::Match { cases, .. } => {
                for i in 0..cases.len()
                    invariant
                        block_refs(res@) == case_bodies(cases@).take(i as int),
                {
                    push_block(&mut res, &cases[i].body);
                    proof {
                        let bodies = case_bodies(cases@);
                        assert(bodies.take(i + 1) =~= bodies.take(i as int).push(cases@[i as int].body));
                    }
                }
            },
            StmtNode::Try { body, handlers, orelse, finalbody } => {
                push_block(&mut res, body);
                for i in 0..handlers.len()
                    invariant
                        block_refs(res@) == seq![*body] + handler_bodies(handlers@).take(i as int),
                {
                    push_block(&mut res, &handlers[i].body);
                    proof {
                        assert(handler_bodies(handlers@)[i as int] == handlers@[i as int].body);
                        assert(block_refs(res@) =~= seq![*body] + handler_bodies(handlers@).take(i + 1));
                    }
                }
                push_block(&mut res, orelse);
                push_block(&mut res, finalbody);
            },
            _ => {},
        }
        proof {
            assert(block_refs(res@) =~= blocks(*self));
        }
        res
    }
}

/// What references to expressions refer to.
pub open spec fn expr_refs(refs: Seq<&Expression>) -> Seq<Expression> {
    refs.map_values(|r: &Expression| *r)
}

fn push_expr<'a>(res: &mut Vec<&'a Expression>, e: &'a Expression)
    ensures
        expr_refs(final(res)@) == expr_refs(old(res)@).push(*e),
{
    let ghost before = expr_refs(res@);
    res.push(e);
    proof {
        assert(expr_refs(res@) =~= before.push(*e));
    }
}

fn push_exprs<'a>(res: &mut Vec<&'a Expression>, list: &'a Vec<Expression>)
    ensures
        expr_refs(final(res)@) == expr_refs(old(res)@) + list@,
{
    let ghost before = expr_refs(res@);
    proof {
        assert(before + list@.take(0) =~= before);
    }
    for i in 0..list.len()
        invariant
            expr_refs(res@) == before + list@.take(i as int),
    {
        push_expr(res, &list[i]);
        proof {
            assert(before + list@.take(i + 1) =~= (before + list@.take(i as int)).push(list@[i as int]));
        }
    }
    proof {
        assert(list@.take(list@.len() as int) =~= list@);
    }
}

fn push_boxed<'a>(res: &mut Vec<&'a Expression>, e: &'a Option<Box<Expression>>)
    ensures
        expr_refs(final(res)@) == expr_refs(old(res)@) + box_seq(*e),
{
    let ghost before = expr_refs(res@);
    if let Some(e) = e {
        push_expr(res, e);
    }
    proof {
        assert(expr_refs(res@) =~= before + box_seq(*e));
    }
}

fn push_items<'a>(res: &mut Vec<&'a Expression>, items: &'a Vec<DictItem>)
    ensures
        expr_refs(final(res)@) == expr_refs(old(res)@) + item_exprs(items@, items@.len() as int),
{
    let ghost before = expr_refs(res@);
    proof {
        assert(before + item_exprs(items@, 0) =~= before);
    }
    for i in 0..items.len()
        invariant
            expr_refs(res@) == before + item_exprs(items@, i as int),
    {
        let ghost middle = expr_refs(res@);
        let item = &items[i];
        if let Some(key) = &item.key {
            push_expr(res, key);
        }
        push_expr(res, &item.value);
        proof {
            assert(expr_refs(res@) =~= middle + opt_seq(item.key).push(item.value));
            assert(expr_refs(res@) =~= before + item_exprs(items@, i + 1));
        }
    }
}

fn push_generators<'a>(res: &mut Vec<&'a Expression>, generators: &'a Vec<Comprehension>)
    ensures
        expr_refs(final(res)@) == expr_refs(old(res)@) + generator_exprs(
            generators@,
            generators@.len() as int,
        ),
{
    let ghost before = expr_refs(res@);
    proof {
        assert(before + generator_exprs(generators@, 0) =~= before);
    }
    for i in 0..generators.len()
        invariant
            expr_refs(res@) == before + generator_exprs(generators@, i as int),
    {
        let ghost middle = expr_refs(res@);
        let g = &generators[i];
        push_expr(res, &g.target);
        push_expr(res, &g.iter);
        push_exprs(res, &g.ifs);
        proof {
            assert(expr_refs(res@) =~= middle + (seq![g.target, g.iter] + g.ifs@));
            assert(expr_refs(res@) =~= before + generator_exprs(generators@, i + 1));
        }
    }
}

fn push_keywords<'a>(res: &mut Vec<&'a Expression>, keywords: &'a Vec<Keyword>)
    ensures
        expr_refs(final(res)@) == expr_refs(old(res)@) + keyword_exprs(keywords@),
{
    let ghost before = expr_refs(res@);
    let ghost all = keyword_exprs(keywords@);
    proof {
        assert(before + all.take(0) =~= before);
    }
    for i in 0..keywords.len()
        invariant
            all == keyword_exprs(keywords@),
            expr_refs(res@) == before + all.take(i as int),
    {
        push_expr(res, &keywords[i].value);
        proof {
            assert(all[i as int] == keywords@[i as int].value);
            assert(before + all.take(i + 1) =~= (before + all.take(i as int)).push(all[i as int]));
        }
    }
    proof {
        assert(all.take(all.len() as int) =~= all);
    }
}

impl Expression {
    /// The expressions directly inside of an expression, in order.
    #[verifier::rlimit(40)]
    pub fn children(&self) -> (res: Vec<&Expression>)
        ensures
            expr_refs(res@) == children(*self),
    {
        let mut res: Vec<&Expression> = Vec::new();
        proof {
            assert(expr_refs(res@) =~= Seq::empty());
        }
        match &self.node {
            Node::BoolOp { values, .. } => {
                push_exprs(&mut res, values);
            },
            Node::Named { target, value } => {
                push_expr(&mut res, target);
                push_expr(&mut res, value);
            },
            Node::BinOp { left, right, .. } => {
                push_expr(&mut res, left);
                push_expr(&mut res, right);
            },
            Node::UnaryOp { operand, .. } => {
                push_expr(&mut res, operand);
            },
            Node::Lambda { body, .. } => {
                push_expr(&mut res, body);
            },
            Node::If { test, body, orelse } => {
                push_expr(&mut res, test);
                push_expr(&mut res, body);
                push_expr(&mut res, orelse);
            },
            Node::Dict { items } => {
                push_items(&mut res, items);
            },
            Node::SetDisplay { elts } => {
                push_exprs(&mut res, elts);
            },
            Node::ListComp { elt, generators } => {
                push_expr(&mut res, elt);
                push_generators(&mut res, generators);
            },
            Node::SetComp { elt, generators } => {
                push_expr(&mut res, elt);
                push_generators(&mut res, generators);
            },
            Node::DictComp { key, value, generators } => {
                push_boxed(&mut res, key);
                push_expr(&mut res, value);
                push_generators(&mut res, generators);
            },
            Node::Generator { elt, generators } => {
                push_expr(&mut res, elt);
                push_generators(&mut res, generators);
            },
            Node::Await { value } => {
                push_expr(&mut res, value);
            },
            Node::Yield { value } => {
                push_boxed(&mut res, value);
            },
            Node::YieldFrom { value } => {
                push_expr(&mut res, value);
            },
            Node::Compare { left, comparators, .. } => {
                push_expr(&mut res, left);
                push_exprs(&mut res, comparators);
            },
            Node::Call { func, arguments } => {
                push_expr(&mut res, func);
                push_exprs(&mut res, &arguments.args);
                push_keywords(&mut res, &arguments.keywords);
            },
            Node::FString { values } => {
                push_exprs(&mut res, values);
            },
            Node::TString { values } => {
                push_exprs(&mut res, values);
            },
            Node::Attribute { value, .. } => {
                push_expr(&mut res, value);
            },
            Node::Subscript { value, slice, .. } => {
                push_expr(&mut res, value);
                push_expr(&mut res, slice);
            },
            Node::Starred { value } => {
                push_expr(&mut res, value);
            },
            Node::List { elts } => {
                push_exprs(&mut res, elts);
            },
            Node::Tuple { elts } => {
                push_exprs(&mut res, elts);
            },
            Node::Slice { lower, upper, step } => {
                push_boxed(&mut res, lower);
                push_boxed(&mut res, upper);
                push_boxed(&mut res, step);
            },
            _ => {},
        }
        proof {
            assert(expr_refs(res@) =~= children(*self));
        }
        res
    }
}

} // verus!
