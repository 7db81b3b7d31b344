//! Text for reports.

use crate::ast::{
    BoolOp, Comparison, Comprehension, DictItem, Expression, Keyword, Node, Operator, Parameter, Parameters,
    UnaryOp,
};
use crate::text::{join, joined, strings};
use vstd::prelude::*;
use vstd::string::*;

verus! {

/// Kinds that reports show as text.
pub trait ErrorString {
    /// The text that stands for the kind.
    spec fn error_text(&self) -> Seq<char>;

    fn error_string(&self) -> (res: String)
        ensures
            res@ == self.error_text(),
    ;
}

/// A text with its quotes, backslashes and characters that cannot be shown escaped.
pub uninterp spec fn escaped(text: Seq<char>) -> Seq<char>;

/// `str::escape_debug` escapes the characters of a text that cannot be shown, and quotes. Which
/// ones these are is a matter of tables that are not written out here: its result is only named.
#[verifier::external_body]
fn escape_text(text: &str) -> (res: String)
    ensures
        res@ == escaped(text@),
{
    text.escape_debug().to_string()
}

/// An escaped text between quotes.
pub fn quoted(escaped_text: &str) -> (res: String)
    ensures
        res@ == "\""@ + escaped_text@ + "\""@,
{
    let mut res: String = "\"".to_owned();
    res.append(escaped_text);
    res.append("\"");
    res
}

/// `and` or `or`, with space round it.
pub open spec fn bool_op_text(op: BoolOp) -> Seq<char> {
    match op {
        BoolOp::And => " and "@,
        BoolOp::Or => " or "@,
    }
}

fn bool_op_str(op: BoolOp) -> (res: &'static str)
    ensures
        res@ == bool_op_text(op),
{
    match op {
        BoolOp::And => " and ",
        BoolOp::Or => " or ",
    }
}

/// An operator between two operands, with space round it.
pub open spec fn operator_text(op: Operator) -> Seq<char> {
    match op {
        Operator::Add => " + "@,
        Operator::Sub => " - "@,
        Operator::Mult => " * "@,
        Operator::MatMult => " @ "@,
        Operator::Div => " / "@,
        Operator::Mod => " % "@,
        Operator::Pow => " ** "@,
        Operator::LShift => " << "@,
        Operator::RShift => " >> "@,
        Operator::BitOr => " | "@,
        Operator::BitXor => " ^ "@,
        Operator::BitAnd => " & "@,
        Operator::FloorDiv => " // "@,
    }
}

fn operator_str(op: Operator) -> (res: &'static str)
    ensures
        res@ == operator_text(op),
{
    match op {
        Operator::Add => " + ",
        Operator::Sub => " - ",
        Operator::Mult => " * ",
        Operator::MatMult => " @ ",
        Operator::Div => " / ",
        Operator::Mod => " % ",
        Operator::Pow => " ** ",
        Operator::LShift => " << ",
        Operator::RShift => " >> ",
        Operator::BitOr => " | ",
        Operator::BitXor => " ^ ",
        Operator::BitAnd => " & ",
        Operator::FloorDiv => " // ",
    }
}

/// An operator before an operand.
pub open spec fn unary_op_text(op: UnaryOp) -> Seq<char> {
    match op {
        UnaryOp::Invert => "~"@,
        UnaryOp::Not => "not "@,
        UnaryOp::UAdd => "+"@,
        UnaryOp::USub => "-"@,
    }
}

fn unary_op_str(op: UnaryOp) -> (res: &'static str)
    ensures
        res@ == unary_op_text(op),
{
    match op {
        UnaryOp::Invert => "~",
        UnaryOp::Not => "not ",
        UnaryOp::UAdd => "+",
        UnaryOp::USub => "-",
    }
}

/// A comparison, with space round it.
pub open spec fn comparison_text(op: Comparison) -> Seq<char> {
    match op {
        Comparison::Eq => " == "@,
        Comparison::NotEq => " != "@,
        Comparison::Lt => " < "@,
        Comparison::LtE => " <= "@,
        Comparison::Gt => " > "@,
        Comparison::GtE => " >= "@,
        Comparison::Is => " is "@,
        Comparison::IsNot => " is not "@,
        Comparison::In => " in "@,
        Comparison::NotIn => " not in "@,
    }
}

fn comparison_str(op: Comparison) -> (res: &'static str)
    ensures
        res@ == comparison_text(op),
{
    match op {
        Comparison::Eq => " == ",
        Comparison::NotEq => " != ",
        Comparison::Lt => " < ",
        Comparison::LtE => " <= ",
        Comparison::Gt => " > ",
        Comparison::GtE => " >= ",
        Comparison::Is => " is ",
        Comparison::IsNot => " is not ",
        Comparison::In => " in ",
        Comparison::NotIn => " not in ",
    }
}

/// The names of parameters.
pub open spec fn param_texts(params: Seq<Parameter>) -> Seq<Seq<char>> {
    params.map_values(|p: Parameter| p.name@)
}

/// The parts of a list of parameters.
pub open spec fn parameter_parts(params: Parameters) -> Seq<Seq<char>> {
    let first = param_texts(params.posonlyargs@);
    let slash = if params.posonlyargs@.len() > 0 {
        first.push("/"@)
    } else {
        first
    };
    let args = slash + param_texts(params.args@);
    let vararg = match params.vararg {
        Some(name) => args.push("*"@ + name@),
        None => args,
    };
    let kwonly = vararg + param_texts(params.kwonlyargs@);
    match params.kwarg {
        Some(name) => kwonly.push("**"@ + name@),
        None => kwonly,
    }
}

/// A list of parameters. Defaults are left out.
pub open spec fn parameters_text(params: Parameters) -> Seq<char> {
    joined(parameter_parts(params), ", "@)
}

fn push_params(parts: &mut Vec<String>, params: &Vec<Parameter>)
    ensures
        strings(final(parts)@) == strings(old(parts)@) + param_texts(params@),
{
    let ghost before = strings(parts@);
    let ghost all = param_texts(params@);
    proof {
        assert(before + all.take(0) =~= before);
    }
    for i in 0..params.len()
        invariant
            all == param_texts(params@),
            strings(parts@) == before + all.take(i as int),
    {
        let name = params[i].name.clone();
        push_part(parts, name);
        proof {
            assert(all[i as int] == name@);
            assert(strings(parts@) =~= before + all.take(i + 1));
        }
    }
    proof {
        assert(all.take(all.len() as int) =~= all);
    }
}

fn push_part(parts: &mut Vec<String>, part: String)
    ensures
        strings(final(parts)@) == strings(old(parts)@).push(part@),
{
    let ghost before = strings(parts@);
    parts.push(part);
    proof {
        assert(strings(parts@) =~= before.push(part@));
    }
}

/// A list of parameters.
pub fn format_parameters(params: &Parameters) -> (res: String)
    ensures
        res@ == parameters_text(*params),
{
    let mut parts: Vec<String> = Vec::new();
    proof {
        assert(strings(parts@) + param_texts(params.posonlyargs@) =~= param_texts(params.posonlyargs@));
    }
    push_params(&mut parts, &params.posonlyargs);
    if params.posonlyargs.len() > 0 {
        push_part(&mut parts, "/".to_owned());
    }
    push_params(&mut parts, &params.args);
    if let Some(vararg) = &params.vararg {
        let mut part: String = "*".to_owned();
        part.append(vararg.as_str());
        push_part(&mut parts, part);
    }
    push_params(&mut parts, &params.kwonlyargs);
    if let Some(kwarg) = &params.kwarg {
        let mut part: String = "**".to_owned();
        part.append(kwarg.as_str());
        push_part(&mut parts, part);
    }
    join(&parts, ", ")
}

/// An expression, written as in Python, but for literals: numbers and bytes are written as they
/// are shown, and formatted strings only hinted at.
pub open spec fn expr_text(e: Expression) -> Seq<char>
    decreases e, 1nat,
{
    match e.node {
        Node::BoolOp { op, values } => joined(values_text(values, values@.len() as int), bool_op_text(op)),
        Node::Named { target, value } => expr_text(*target) + " := "@ + expr_text(*value),
        Node::BinOp { left, op, right } => expr_text(*left) + operator_text(op) + expr_text(*right),
        Node::UnaryOp { op, operand } => unary_op_text(op) + expr_text(*operand),
        Node::Lambda { parameters, body } => lambda_head(parameters) + ": "@ + expr_text(*body),
        Node::If { test, body, orelse } => expr_text(*body) + " if "@ + expr_text(*test) + " else "@
            + expr_text(*orelse),
        Node::Dict { items } => "{"@ + joined(items_text(items, items@.len() as int), ", "@) + "}"@,
        Node::SetDisplay { elts } => if elts@.len() == 0 {
            "set()"@
        } else {
            "{"@ + joined(values_text(elts, elts@.len() as int), ", "@) + "}"@
        },
        Node::ListComp { elt, generators } => "["@ + expr_text(*elt) + " "@ + joined(
            generators_text(generators, generators@.len() as int),
            " "@,
        ) + "]"@,
        Node::SetComp { elt, generators } => "{"@ + expr_text(*elt) + " "@ + joined(
            generators_text(generators, generators@.len() as int),
            " "@,
        ) + "}"@,
        Node::DictComp { key, value, generators } => "{"@ + option_text(key) + ": "@ + expr_text(*value)
            + " "@ + joined(generators_text(generators, generators@.len() as int), " "@) + "}"@,
        Node::Generator { elt, generators } => "("@ + expr_text(*elt) + " "@ + joined(
            generators_text(generators, generators@.len() as int),
            " "@,
        ) + ")"@,
        Node::Await { value } => "await "@ + expr_text(*value),
        Node::Yield { value } => match value {
            Some(value) => "yield "@ + expr_text(*value),
            None => "yield"@,
        },
        Node::YieldFrom { value } => "yield from "@ + expr_text(*value),
        Node::Compare { left, ops, comparators } => compare_text(
            expr_text(*left),
            ops@,
            comparators,
            if ops@.len() < comparators@.len() {
                ops@.len() as int
            } else {
                comparators@.len() as int
            },
        ),
        Node::Call { func, arguments } => expr_text(*func) + "("@ + joined(
            values_text(arguments.args, arguments.args@.len() as int) + keywords_text(
                arguments.keywords,
                arguments.keywords@.len() as int,
            ),
            ", "@,
        ) + ")"@,
        Node::FString { .. } => "f\"...\""@,
        Node::TString { .. } => "t\"...\""@,
        Node::StringLiteral { value, .. } => "\""@ + escaped(value@) + "\""@,
        Node::BytesLiteral { text } => "b"@ + text@,
        Node::NumberLiteral { text, .. } => text@,
        Node::BooleanLiteral { value } => if value {
            "True"@
        } else {
            "False"@
        },
        Node::NoneLiteral => "None"@,
        Node::EllipsisLiteral => "..."@,
        Node::Attribute { value, attr, .. } => expr_text(*value) + "."@ + attr@,
        Node::Subscript { value, slice, .. } => expr_text(*value) + "["@ + expr_text(*slice) + "]"@,
        Node::Starred { value } => "*"@ + expr_text(*value),
        Node::Name { id } => id@,
        Node::List { elts } => "["@ + joined(values_text(elts, elts@.len() as int), ", "@) + "]"@,
        Node::Tuple { elts } => "("@ + joined(values_text(elts, elts@.len() as int), ", "@) + (
        if elts@.len() == 1 {
            ",)"@
        } else {
            ")"@
        }),
        Node::Slice { lower, upper, step } => option_text(lower) + ":"@ + option_text(upper) + (
        match step {
            Some(step) => ":"@ + expr_text(*step),
            None => Seq::empty(),
        }),
        Node::IpyEscapeCommand { value } => "!"@ + value@,
    }
}

/// `lambda` with its parameters.
pub open spec fn lambda_head(parameters: Option<Box<Parameters>>) -> Seq<char> {
    match parameters {
        Some(params) => if parameter_parts(*params).len() > 0 {
            "lambda "@ + parameters_text(*params)
        } else {
            "lambda"@
        },
        None => "lambda"@,
    }
}

/// An expression that may be missing.
pub open spec fn option_text(e: Option<Box<Expression>>) -> Seq<char>
    decreases e, 2nat,
{
    match e {
        Some(e) => expr_text(*e),
        None => Seq::empty(),
    }
}

/// The first `n` of some expressions.
pub open spec fn values_text(values: Vec<Expression>, n: int) -> Seq<Seq<char>>
    decreases values, n,
{
    if n <= 0 || n > values@.len() {
        Seq::empty()
    } else {
        values_text(values, n - 1).push(expr_text(values[n - 1]))
    }
}

/// The first `n` entries of a dictionary.
pub open spec fn items_text(items: Vec<DictItem>, n: int) -> Seq<Seq<char>>
    decreases items, n,
{
    if n <= 0 || n > items@.len() {
        Seq::empty()
    } else {
        let item = items[n - 1];
        items_text(items, n - 1).push(
            match item.key {
                Some(key) => expr_text(key) + ": "@ + expr_text(item.value),
                None => "**"@ + expr_text(item.value),
            },
        )
    }
}

/// The first `n` keyword arguments.
pub open spec fn keywords_text(keywords: Vec<Keyword>, n: int) -> Seq<Seq<char>>
    decreases keywords, n,
{
    if n <= 0 || n > keywords@.len() {
        Seq::empty()
    } else {
        let kw = keywords[n - 1];
        keywords_text(keywords, n - 1).push(
            match kw.arg {
                Some(arg) => arg@ + "="@ + expr_text(kw.value),
                None => "**"@ + expr_text(kw.value),
            },
        )
    }
}

/// An expression, compared with the first `n` of some others.
pub open spec fn compare_text(
    left: Seq<char>,
    ops: Seq<Comparison>,
    comparators: Vec<Expression>,
    n: int,
) -> Seq<char>
    decreases comparators, n,
{
    if n <= 0 || n > comparators@.len() {
        left
    } else {
        compare_text(left, ops, comparators, n - 1) + comparison_text(ops[n - 1]) + expr_text(
            comparators[n - 1],
        )
    }
}

/// The first `n` parts of a comprehension.
pub open spec fn generators_text(generators: Vec<Comprehension>, n: int) -> Seq<Seq<char>>
    decreases generators, n,
{
    if n <= 0 || n > generators@.len() {
        Seq::empty()
    } else {
        let g = generators[n - 1];
        generators_text(generators, n - 1).push(
            conditions_text(
                "for "@ + expr_text(g.target) + " in "@ + expr_text(g.iter),
                g.ifs,
                g.ifs@.len() as int,
            ),
        )
    }
}

/// A part of a comprehension with the first `n` of its conditions.
pub open spec fn conditions_text(head: Seq<char>, ifs: Vec<Expression>, n: int) -> Seq<char>
    decreases ifs, n,
{
    if n <= 0 || n > ifs@.len() {
        head
    } else {
        conditions_text(head, ifs, n - 1) + " if "@ + expr_text(ifs[n - 1])
    }
}

/// Some texts with commas between them, inside of brackets.
pub fn format_collection(items: &Vec<String>, open: &str, close: &str) -> (res: String)
    ensures
        res@ == open@ + joined(strings(items@), ", "@) + close@,
{
    let mut res: String = open.to_owned();
    res.append(join(items, ", ").as_str());
    res.append(close);
    res
}

fn format_all(values: &Vec<Expression>) -> (res: Vec<String>)
    ensures
        strings(res@) == values_text(*values, values@.len() as int),
    decreases values, 0nat,
{
    let mut res: Vec<String> = Vec::new();
    proof {
        assert(strings(res@) =~= Seq::empty());
    }
    for i in 0..values.len()
        invariant
            strings(res@) == values_text(*values, i as int),
    {
        let text = format_expr(&values[i]);
        push_part(&mut res, text);
    }
    res
}

fn format_items(items: &Vec<DictItem>) -> (res: Vec<String>)
    ensures
        strings(res@) == items_text(*items, items@.len() as int),
    decreases items, 0nat,
{
    let mut res: Vec<String> = Vec::new();
    proof {
        assert(strings(res@) =~= Seq::empty());
    }
    for i in 0..items.len()
        invariant
            strings(res@) == items_text(*items, i as int),
    {
        let item = &items[i];
        let text = match &item.key {
            Some(key) => {
                let mut text: String = format_expr(key);
                text.append(": ");
                text.append(format_expr(&item.value).as_str());
                text
            },
            None => {
                let mut text: String = "**".to_owned();
                text.append(format_expr(&item.value).as_str());
                text
            },
        };
        push_part(&mut res, text);
    }
    res
}

/// Adds keyword arguments to a list of arguments.
fn push_keywords(res: &mut Vec<String>, keywords: &Vec<Keyword>)
    ensures
        strings(final(res)@) == strings(old(res)@) + keywords_text(*keywords, keywords@.len() as int),
    decreases keywords, 0nat,
{
    let ghost before = strings(res@);
    proof {
        assert(before + keywords_text(*keywords, 0) =~= before);
    }
    for i in 0..keywords.len()
        invariant
            strings(res@) == before + keywords_text(*keywords, i as int),
    {
        let kw = &keywords[i];
        let text = match &kw.arg {
            Some(arg) => {
                let mut text: String = arg.clone();
                text.append("=");
                text.append(format_expr(&kw.value).as_str());
                text
            },
            None => {
                let mut text: String = "**".to_owned();
                text.append(format_expr(&kw.value).as_str());
                text
            },
        };
        push_part(res, text);
        proof {
            assert(strings(res@) =~= before + keywords_text(*keywords, i + 1));
        }
    }
}

/// Writes the parts of a comprehension.
fn format_comprehensions(generators: &Vec<Comprehension>) -> (res: String)
    ensures
        res@ == joined(generators_text(*generators, generators@.len() as int), " "@),
    decreases generators, 0nat,
{
    let mut parts: Vec<String> = Vec::new();
    proof {
        assert(strings(parts@) =~= Seq::empty());
    }
    for i in 0..generators.len()
        invariant
            strings(parts@) == generators_text(*generators, i as int),
    {
        let g = &generators[i];
        let mut text: String = "for ".to_owned();
        text.append(format_expr(&g.target).as_str());
        text.append(" in ");
        text.append(format_expr(&g.iter).as_str());
        let ghost head = text@;
        for j in 0..g.ifs.len()
            invariant
                0 <= i < generators@.len(),
                *g == generators@[i as int],
                text@ == conditions_text(head, g.ifs, j as int),
        {
            text.append(" if ");
            text.append(format_expr(&g.ifs[j]).as_str());
        }
        push_part(&mut parts, text);
    }
    join(&parts, " ")
}

fn format_option(e: &Option<Box<Expression>>) -> (res: String)
    ensures
        res@ == option_text(*e),
    decreases e, 2nat,
{
    match e {
        Some(e) => format_expr(e),
        None => String::new(),
    }
}

/// A comprehension between brackets.
fn format_comp(elt: String, generators: String, open: &str, close: &str) -> (res: String)
    ensures
        res@ == open@ + elt@ + " "@ + generators@ + close@,
{
    let mut res: String = open.to_owned();
    res.append(elt.as_str());
    res.append(" ");
    res.append(generators.as_str());
    res.append(close);
    res
}

/// One text behind another.
fn prefixed(first: &str, second: String) -> (res: String)
    ensures
        res@ == first@ + second@,
{
    let mut res: String = first.to_owned();
    res.append(second.as_str());
    res
}

/// A text between two others.
fn between(first: String, middle: &str, last: String) -> (res: String)
    ensures
        res@ == first@ + middle@ + last@,
{
    let mut res: String = first;
    res.append(middle);
    res.append(last.as_str());
    res
}

/// Writes an expression as in Python.
#[verifier::rlimit(40)]
pub fn format_expr(expr: &Expression) -> (res: String)
    ensures
        res@ == expr_text(*expr),
    decreases expr, 1nat,
{
    match &expr.node {
        Node::BoolOp { op, values } => join(&format_all(values), bool_op_str(*op)),
        Node::Named { target, value } => between(format_expr(target), " := ", format_expr(value)),
        Node::BinOp { left, op, right } => between(
            format_expr(left),
            operator_str(*op),
            format_expr(right),
        ),
        Node::UnaryOp { op, operand } => prefixed(unary_op_str(*op), format_expr(operand)),
        Node::Lambda { parameters, body } => between(
            format_lambda_head(parameters),
            ": ",
            format_expr(body),
        ),
        Node::If { test, body, orelse } => between(
            between(format_expr(body), " if ", format_expr(test)),
            " else ",
            format_expr(orelse),
        ),
        Node::Dict { items } => format_collection(&format_items(items), "{", "}"),
        Node::SetDisplay { elts } => if elts.len() == 0 {
            "set()".to_owned()
        } else {
            format_collection(&format_all(elts), "{", "}")
        },
        Node::ListComp { elt, generators } => format_comp(
            format_expr(elt),
            format_comprehensions(generators),
            "[",
            "]",
        ),
        Node::SetComp { elt, generators } => format_comp(
            format_expr(elt),
            format_comprehensions(generators),
            "{",
            "}",
        ),
        Node::DictComp { key, value, generators } => {
            let mut res: String = "{".to_owned();
            res.append(format_option(key).as_str());
            res.append(": ");
            res.append(format_expr(value).as_str());
            res.append(" ");
            res.append(format_comprehensions(generators).as_str());
            res.append("}");
            res
        },
        Node::Generator { elt, generators } => format_comp(
            format_expr(elt),
            format_comprehensions(generators),
            "(",
            ")",
        ),
        Node::Await { value } => prefixed("await ", format_expr(value)),
        Node::Yield { value } => match value {
            Some(value) => prefixed("yield ", format_expr(value)),
            None => "yield".to_owned(),
        },
        Node::YieldFrom { value } => prefixed("yield from ", format_expr(value)),
        Node::Compare { left, ops, comparators } => format_compare(
            format_expr(left),
            ops,
            comparators,
        ),
        Node::Call { func, arguments } => {
            let mut args: Vec<String> = format_all(&arguments.args);
            push_keywords(&mut args, &arguments.keywords);
            let mut res: String = format_expr(func);
            res.append("(");
            res.append(join(&args, ", ").as_str());
            res.append(")");
            res
        },
        Node::FString { .. } => "f\"...\"".to_owned(),
        Node::TString { .. } => "t\"...\"".to_owned(),
        Node::StringLiteral { value, .. } => quoted(escape_text(value.as_str()).as_str()),
        Node::BytesLiteral { text } => prefixed("b", text.clone()),
        Node::NumberLiteral { text, .. } => text.clone(),
        Node::BooleanLiteral { value } => if *value {
            "True".to_owned()
        } else {
            "False".to_owned()
        },
        Node::NoneLiteral => "None".to_owned(),
        Node::EllipsisLiteral => "...".to_owned(),
        Node::Attribute { value, attr, .. } => between(format_expr(value), ".", attr.clone()),
        Node::Subscript { value, slice, .. } => {
            let mut res: String = format_expr(value);
            res.append("[");
            res.append(format_expr(slice).as_str());
            res.append("]");
            res
        },
        Node::Starred { value } => prefixed("*", format_expr(value)),
        Node::Name { id } => id.clone(),
        Node::List { elts } => format_collection(&format_all(elts), "[", "]"),
        Node::Tuple { elts } => if elts.len() == 1 {
            format_collection(&format_all(elts), "(", ",)")
        } else {
            format_collection(&format_all(elts), "(", ")")
        },
        Node::Slice { lower, upper, step } => {
            let mut res: String = between(format_option(lower), ":", format_option(upper));
            let ghost head = res@;
            if let Some(step) = step {
                let tail = prefixed(":", format_expr(step));
                res.append(tail.as_str());
            } else {
                proof {
                    assert(head + Seq::<char>::empty() =~= head);
                }
            }
            res
        },
        Node::IpyEscapeCommand { value } => prefixed("!", value.clone()),
    }
}

fn format_lambda_head(parameters: &Option<Box<Parameters>>) -> (res: String)
    ensures
        res@ == lambda_head(*parameters),
{
    match parameters {
        Some(params) => if params.posonlyargs.len() == 0 && params.args.len() == 0
            && params.vararg.is_none() && params.kwonlyargs.len() == 0 && params.kwarg.is_none() {
            "lambda".to_owned()
        } else {
            proof {
                let first = param_texts(params.posonlyargs@);
                assert(parameter_parts(**params).len() > 0);
            }
            prefixed("lambda ", format_parameters(params))
        },
        None => "lambda".to_owned(),
    }
}

fn format_compare(left: String, ops: &Vec<Comparison>, comparators: &Vec<Expression>) -> (res: String)
    ensures
        res@ == compare_text(
            left@,
            ops@,
            *comparators,
            if ops@.len() < comparators@.len() {
                ops@.len() as int
            } else {
                comparators@.len() as int
            },
        ),
    decreases comparators, 0nat,
{
    let ghost head = left@;
    let mut res: String = left;
    let n: usize = if ops.len() < comparators.len() {
        ops.len()
    } else {
        comparators.len()
    };
    for i in 0..n
        invariant
            n <= ops@.len(),
            n <= comparators@.len(),
            res@ == compare_text(head, ops@, *comparators, i as int),
    {
        res.append(comparison_str(ops[i]));
        res.append(format_expr(&comparators[i]).as_str());
    }
    res
}

} // verus!
