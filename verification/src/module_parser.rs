//! Python source as the modules that are analyzed.

use crate::ast::{Expression, ParsedModule, Statement, StmtNode};
use crate::module_name::ModuleName;
use crate::ruff_tree::stmts;
use crate::source_map::{find_word, stands_in};
use crate::version::{default_python_version, PythonVersion};
use vstd::prelude::*;

verus! {

/// The number of bytes that a text takes up.
pub open spec fn size(text: Seq<char>) -> nat {
    vstd::utf8::encode_utf8(text).len()
}

/// The number of bytes that a source file stays below.
pub open spec fn source_limit() -> nat {
    0x1_0000_0000
}

/// What `ruff_python_parser::parse_unchecked_source` makes of a text that is no stub.
pub uninterp spec fn parsed_source(code: Seq<char>) -> Seq<Statement>;

/// What `ruff_python_parser::parse_unchecked` makes of a text, of a stub or of other source, by the
/// grammar of a version of Python.
pub uninterp spec fn parsed_module(code: Seq<char>, is_stub: bool, major: u8, minor: u8) -> Seq<Statement>;

/// `ruff_python_parser::parse_unchecked_source` for `PySourceType::Python`: the statements of the
/// module, which depend on the text alone. What follows a mistake in the code is read as far as it can
/// be. The lexer panics on a text of 4 GiB or more. Which statements a given text holds is left unsaid:
/// that is the grammar of Python.
#[verifier::external_body]
fn parse_unchecked_source(code: &str) -> (res: Vec<Statement>)
    requires
        size(code@) < source_limit(),
    ensures
        res@ == parsed_source(code@),
{
    let parsed = ruff_python_parser::parse_unchecked_source(code, ruff_python_ast::PySourceType::Python);
    stmts(parsed.suite())
}

/// `ruff_python_parser::parse_unchecked` for a stub or another source file, by the grammar of a version
/// of Python: the statements of the module, which depend on these alone. What follows a mistake in the
/// code is read as far as it can be. Both types of source are read as modules. The lexer panics on a
/// text of 4 GiB or more. Which statements a given text holds is left unsaid: that is the grammar of
/// Python.
#[verifier::external_body]
fn parse_unchecked(code: &str, is_stub: bool, major: u8, minor: u8) -> (res: Vec<Statement>)
    requires
        size(code@) < source_limit(),
    ensures
        res@ == parsed_module(code@, is_stub, major, minor),
{
    let source_type = match is_stub {
        true => ruff_python_ast::PySourceType::Stub,
        false => ruff_python_ast::PySourceType::Python,
    };
    let version = ruff_python_ast::PythonVersion { major, minor };
    let options = ruff_python_parser::ParseOptions::from(source_type).with_target_version(version);
    let parsed = ruff_python_parser::parse_unchecked(code, options);
    parsed.try_into_module().map_or(Vec::new(), |module| stmts(module.suite()))
}

/// The number of bytes that a text takes up.
pub fn text_size(text: &str) -> (res: u64)
    ensures
        res == size(text@),
{
    let bytes = text.as_bytes();
    let length: usize = bytes.len();
    proof {
        assert(bytes@ == vstd::utf8::encode_utf8(text@));
    }
    length as u64
}

/// The expression that some statements begin with.
pub open spec fn first_expression(body: Seq<Statement>) -> Option<Expression> {
    if body.len() == 0 {
        None
    } else {
        match body[0].node {
            StmtNode::Expr { value, .. } => Some(value),
            _ => None,
        }
    }
}

/// The expression that some statements begin with.
pub fn take_expression(body: Vec<Statement>) -> (res: Option<Expression>)
    ensures
        res == first_expression(body@),
{
    let mut body = body;
    if body.len() == 0 {
        return None;
    }
    let first = body.remove(0);
    match first.node {
        StmtNode::Expr { value, .. } => Some(value),
        _ => None,
    }
}

/// The expression that a text begins with, where it is read as source code.
pub open spec fn evaluated_expression(text: Seq<char>) -> Option<Expression> {
    first_expression(parsed_source(text))
}

/// Reads the expression that a text begins with.
pub fn parse_expression(text: &str) -> (res: Option<Expression>)
    requires
        size(text@) < source_limit(),
    ensures
        res == evaluated_expression(text@),
{
    take_expression(parse_unchecked_source(text))
}

/// The remark at the head of a file that Thrift wrote.
pub open spec fn thrift_remark() -> Seq<char> {
    "Autogenerated by Thrift"@
}

/// A text says that Thrift wrote it.
pub open spec fn names_thrift(code: Seq<char>) -> bool {
    stands_in(vstd::utf8::encode_utf8(code), vstd::utf8::encode_utf8(thrift_remark()))
}

/// Whether a text says that Thrift wrote it.
pub fn is_thrift_generated(code: &str) -> (res: bool)
    ensures
        res == names_thrift(code@),
{
    let bytes = code.as_bytes();
    let remark: &str = "Autogenerated by Thrift";
    let word = remark.as_bytes();
    let end: usize = bytes.len();
    proof {
        assert(bytes@ == vstd::utf8::encode_utf8(code@));
        assert(word@ == vstd::utf8::encode_utf8(thrift_remark()));
        assert(bytes@.take(end as int) =~= bytes@);
    }
    find_word(bytes, end, word)
}

/// A module is what a text with the given statements holds.
pub open spec fn is_module(
    parsed: ParsedModule,
    body: Seq<Statement>,
    code: Seq<char>,
    name: Seq<char>,
    is_init: bool,
    is_stub: bool,
) -> bool {
    &&& parsed.name@ == name
    &&& parsed.body@ == body
    &&& parsed.is_init == is_init
    &&& parsed.is_stub == is_stub
    &&& parsed.is_thrift_generated == names_thrift(code)
}

/// The module that a text with the given statements holds.
pub fn module_of(
    body: Vec<Statement>,
    code: &str,
    name: ModuleName,
    is_init: bool,
    is_stub: bool,
) -> (res: ParsedModule)
    ensures
        is_module(res, body@, code@, name@, is_init, is_stub),
{
    ParsedModule {
        name,
        body,
        is_init,
        is_stub,
        is_thrift_generated: is_thrift_generated(code),
    }
}

/// A module is what a text holds, as it is parsed by the grammar of a version.
pub open spec fn is_read_from(
    parsed: ParsedModule,
    code: Seq<char>,
    name: Seq<char>,
    is_init: bool,
    is_stub: bool,
    version: PythonVersion,
) -> bool {
    is_module(
        parsed,
        parsed_module(code, is_stub, 3, version.grammar() as u8),
        code,
        name,
        is_init,
        is_stub,
    )
}

/// Reads a source file or a stub.
pub fn parse_module(
    code: &str,
    name: ModuleName,
    is_init: bool,
    is_stub: bool,
    version: PythonVersion,
) -> (res: ParsedModule)
    requires
        size(code@) < source_limit(),
    ensures
        is_read_from(res, code@, name@, is_init, is_stub, version),
{
    let minor: u32 = version.grammar_minor();
    let body = parse_unchecked(code, is_stub, 3, minor as u8);
    module_of(body, code, name, is_init, is_stub)
}

/// Reads a source file that is no stub.
pub fn parse_source(code: &str, name: ModuleName, is_init: bool, version: PythonVersion) -> (res: ParsedModule)
    requires
        size(code@) < source_limit(),
    ensures
        is_read_from(res, code@, name@, is_init, false, version),
{
    parse_module(code, name, is_init, false, version)
}

/// Reads a stub, as one for the version that is assumed where none is given.
pub fn parse_pyi(code: &str, name: ModuleName, is_init: bool) -> (res: ParsedModule)
    requires
        size(code@) < source_limit(),
    ensures
        is_read_from(res, code@, name@, is_init, true, (PythonVersion { major: 3, minor: 14, micro: 0 })),
{
    parse_module(code, name, is_init, true, default_python_version())
}

} // verus!
