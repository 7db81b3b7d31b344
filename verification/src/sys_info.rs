//! Tests whose outcome is known before a program runs.

use crate::ast::{full_name_of, BoolOp, Comparison, Expression, Node, NumberKind, UnaryOp};
use crate::importlib::{as_literal, literal_text};
use crate::module_name::{begins_with, ends_with, str_eq, strip_prefix, strip_suffix};
use crate::version::{default_python_version, read_number, small_number, PythonVersion};
use vstd::prelude::*;
use vstd::string::*;

verus! {

/// What is known of the Python that a program runs on: its version, that it runs on Linux, and that
/// `TYPE_CHECKING` is false.
#[derive(Debug, PartialEq, Eq, Structural, Copy, Clone)]
pub struct SysInfo {
    pub version: PythonVersion,
}

/// A whole number, as it is shown.
pub open spec fn int_in(e: Expression) -> Option<u32> {
    match e.node {
        Node::NumberLiteral { kind, text } => if kind == NumberKind::Int && begins_with(text@, "Int("@)
            && ends_with(text@.skip(4), ")"@) {
            small_number(text@.subrange(4, text@.len() - 1))
        } else {
            None
        },
        _ => None,
    }
}

/// The numbers that the first `n` of some expressions are, where all of them are numbers.
pub open spec fn ints_in(elts: Seq<Expression>, n: int) -> Option<Seq<u32>>
    decreases n,
{
    if n <= 0 {
        Some(Seq::empty())
    } else {
        match (ints_in(elts, n - 1), int_in(elts[n - 1])) {
            (Some(before), Some(last)) => Some(before.push(last)),
            _ => None,
        }
    }
}

/// Numbers in order: the first in which two sequences differ decides, else the shorter one comes first.
pub open spec fn numbers_less(a: Seq<u32>, b: Seq<u32>) -> bool
    decreases a.len(),
{
    if b.len() == 0 {
        false
    } else if a.len() == 0 {
        true
    } else if a[0] == b[0] {
        numbers_less(a.skip(1), b.skip(1))
    } else {
        a[0] < b[0]
    }
}

/// The outcome of comparing two things of which it is known how they are ordered.
pub open spec fn ordered_outcome(op: Comparison, less: bool, same: bool) -> Option<bool> {
    match op {
        Comparison::Eq => Some(same),
        Comparison::NotEq => Some(!same),
        Comparison::Lt => Some(less),
        Comparison::LtE => Some(less || same),
        Comparison::Gt => Some(!less && !same),
        Comparison::GtE => Some(!less),
        _ => None,
    }
}

/// The outcome of comparing two texts for equality.
pub open spec fn text_outcome(op: Comparison, a: Seq<char>, b: Seq<char>) -> Option<bool> {
    match op {
        Comparison::Eq => Some(a == b),
        Comparison::NotEq => Some(a != b),
        _ => None,
    }
}

impl PythonVersion {
    /// The parts of a version.
    pub open spec fn parts(self) -> Seq<u32> {
        seq![self.major, self.minor, self.micro]
    }
}

impl SysInfo {
    /// The outcome of a comparison with a part of `sys.version_info`.
    pub open spec fn part_outcome(
        self,
        value: Expression,
        slice: Expression,
        op: Comparison,
        right: Expression,
    ) -> Option<bool> {
        match (int_in(slice), int_in(right)) {
            (Some(i), Some(n)) => if full_name_of(value) == Some("sys.version_info"@) && i < 2 {
                let part = self.version.parts()[i as int];
                ordered_outcome(op, part < n, part == n)
            } else {
                None
            },
            _ => None,
        }
    }

    /// The outcome of a comparison, where it is known.
    pub open spec fn comparison(self, left: Expression, op: Comparison, right: Expression) -> Option<bool> {
        match left.node {
            Node::Subscript { value, slice, .. } => self.part_outcome(*value, *slice, op, right),
            _ => match full_name_of(left) {
                Some(name) => self.named_comparison(name, op, right),
                None => None,
            },
        }
    }

    /// The outcome of a comparison with something that has a name, where it is known.
    pub open spec fn named_comparison(self, name: Seq<char>, op: Comparison, right: Expression) -> Option<bool> {
        if name == "sys.version_info"@ {
            match right.node {
                Node::Tuple { elts } => match ints_in(elts@, elts@.len() as int) {
                    Some(wanted) => ordered_outcome(
                        op,
                        numbers_less(self.version.parts(), wanted),
                        self.version.parts() == wanted,
                    ),
                    None => None,
                },
                _ => None,
            }
        } else if name == "sys.platform"@ {
            match literal_text(right) {
                Some(text) => text_outcome(op, "linux"@, text),
                None => None,
            }
        } else if name == "os.name"@ {
            match literal_text(right) {
                Some(text) => text_outcome(op, "posix"@, text),
                None => None,
            }
        } else {
            None
        }
    }

    /// The outcome of a call, where it is known: of `sys.platform.startswith`.
    pub open spec fn call_outcome(self, func: Expression, args: Seq<Expression>) -> Option<bool> {
        if full_name_of(func) == Some("sys.platform.startswith"@) && args.len() > 0 {
            match literal_text(args[0]) {
                Some(prefix) => Some(begins_with("linux"@, prefix)),
                None => None,
            }
        } else {
            None
        }
    }

    /// Whether one of the first `n` of some expressions is known to come to something.
    pub open spec fn some_is(self, values: Vec<Expression>, outcome: Option<bool>, n: int) -> bool
        decreases values, 0nat, n,
    {
        if n <= 0 || n > values@.len() {
            false
        } else {
            self.some_is(values, outcome, n - 1) || self.outcome(values[n - 1]) == outcome
        }
    }

    /// What an expression is known to come to.
    pub open spec fn outcome(self, e: Expression) -> Option<bool>
        decreases e, 1nat, 0int,
    {
        match e.node {
            Node::BooleanLiteral { value } => Some(value),
            Node::Name { id } => if id@ == "TYPE_CHECKING"@ {
                Some(false)
            } else {
                None
            },
            Node::Attribute { attr, .. } => if attr@ == "TYPE_CHECKING"@ {
                Some(false)
            } else {
                None
            },
            Node::UnaryOp { op, operand } => if op == UnaryOp::Not {
                match self.outcome(*operand) {
                    Some(b) => Some(!b),
                    None => None,
                }
            } else {
                None
            },
            Node::BoolOp { op, values } => {
                let decides = op == BoolOp::Or;
                if self.some_is(values, Some(decides), values@.len() as int) {
                    Some(decides)
                } else if self.some_is(values, None, values@.len() as int) {
                    None
                } else {
                    Some(!decides)
                }
            },
            Node::Compare { left, ops, comparators } => if ops@.len() == 1 && comparators@.len() == 1 {
                self.comparison(*left, ops@[0], comparators@[0])
            } else {
                None
            },
            Node::Call { func, arguments } => self.call_outcome(*func, arguments.args@),
            _ => None,
        }
    }
}

/// The whole number that an expression is, where it is one.
fn int_value(e: &Expression) -> (res: Option<u32>)
    ensures
        res == int_in(*e),
{
    match &e.node {
        Node::NumberLiteral { kind, text } => {
            if *kind != NumberKind::Int {
                return None;
            }
            match strip_prefix(text.as_str(), "Int(") {
                Some(rest) => {
                    proof {
                        reveal_strlit("Int(");
                        reveal_strlit(")");
                        assert(rest@ =~= text@.skip(4));
                    }
                    match strip_suffix(rest.as_str(), ")") {
                        Some(digits) => {
                            proof {
                                assert(digits@ =~= text@.subrange(4, text@.len() - 1));
                            }
                            read_number(digits.as_str())
                        },
                        None => None,
                    }
                },
                None => None,
            }
        },
        _ => None,
    }
}

fn int_values(elts: &Vec<Expression>) -> (res: Option<Vec<u32>>)
    ensures
        match res {
            Some(values) => ints_in(elts@, elts@.len() as int) == Some(values@),
            None => ints_in(elts@, elts@.len() as int) is None,
        },
{
    let mut res: Vec<u32> = Vec::new();
    proof {
        assert(res@ =~= Seq::empty());
    }
    for i in 0..elts.len()
        invariant
            ints_in(elts@, i as int) == Some(res@),
    {
        match int_value(&elts[i]) {
            Some(value) => {
                let ghost before = res@;
                res.push(value);
                proof {
                    assert(res@ =~= before.push(value));
                }
            },
            None => {
                proof {
                    lemma_no_ints(elts@, i + 1, elts@.len() as int);
                }
                return None;
            },
        }
    }
    Some(res)
}

/// Where some expressions are not all numbers, more are not either.
proof fn lemma_no_ints(elts: Seq<Expression>, n: int, m: int)
    requires
        ints_in(elts, n) is None,
        n <= m,
    ensures
        ints_in(elts, m) is None,
    decreases m - n,
{
    if n < m {
        lemma_no_ints(elts, n, m - 1);
    }
}

/// Whether numbers come before others.
fn comes_before(a: &Vec<u32>, b: &Vec<u32>) -> (res: bool)
    ensures
        res == numbers_less(a@, b@),
{
    let mut i: usize = 0;
    proof {
        assert(a@.skip(0) =~= a@);
        assert(b@.skip(0) =~= b@);
    }
    while i < a.len() && i < b.len() && a[i] == b[i]
        invariant
            i <= a@.len(),
            i <= b@.len(),
            numbers_less(a@, b@) == numbers_less(a@.skip(i as int), b@.skip(i as int)),
        decreases a@.len() - i,
    {
        proof {
            assert(a@.skip(i as int).skip(1) =~= a@.skip(i + 1));
            assert(b@.skip(i as int).skip(1) =~= b@.skip(i + 1));
        }
        i = i + 1;
    }
    if i >= b.len() {
        false
    } else if i >= a.len() {
        true
    } else {
        a[i] < b[i]
    }
}

fn same_numbers(a: &Vec<u32>, b: &Vec<u32>) -> (res: bool)
    ensures
        res == (a@ == b@),
{
    if a.len() != b.len() {
        return false;
    }
    for i in 0..a.len()
        invariant
            a@.len() == b@.len(),
            forall|j: int| 0 <= j < i ==> a@[j] == b@[j],
    {
        if a[i] != b[i] {
            return false;
        }
    }
    proof {
        assert(a@ =~= b@);
    }
    true
}

fn outcome_of_order(op: Comparison, less: bool, same: bool) -> (res: Option<bool>)
    ensures
        res == ordered_outcome(op, less, same),
{
    match op {
        Comparison::Eq => Some(same),
        Comparison::NotEq => Some(!same),
        Comparison::Lt => Some(less),
        Comparison::LtE => Some(less || same),
        Comparison::Gt => Some(!less && !same),
        Comparison::GtE => Some(!less),
        _ => None,
    }
}

fn outcome_of_texts(op: Comparison, a: &str, right: &Expression) -> (res: Option<bool>)
    ensures
        res == (match literal_text(*right) {
            Some(text) => text_outcome(op, a@, text),
            None => None,
        }),
{
    match as_literal(right) {
        Some(text) => match op {
            Comparison::Eq => Some(str_eq(a, text)),
            Comparison::NotEq => Some(!str_eq(a, text)),
            _ => None,
        },
        None => None,
    }
}

/// Whether an expression is a dotted name.
fn has_name(e: &Expression, name: &str) -> (res: bool)
    ensures
        res == (full_name_of(*e) == Some(name@)),
{
    match e.full_name() {
        Some(full) => str_eq(full.as_str(), name),
        None => false,
    }
}

impl SysInfo {
    /// The version that sources are taken to be written for.
    pub fn lg_default() -> (res: SysInfo)
        ensures
            res.version == (PythonVersion { major: 3, minor: 14, micro: 0 }),
    {
        SysInfo::lg_with_version(default_python_version())
    }

    pub fn lg_with_version(version: PythonVersion) -> (res: SysInfo)
        ensures
            res.version == version,
    {
        SysInfo { version }
    }

    fn compare_part(
        &self,
        value: &Expression,
        slice: &Expression,
        op: Comparison,
        right: &Expression,
    ) -> (res: Option<bool>)
        ensures
            res == self.part_outcome(*value, *slice, op, *right),
    {
        match (int_value(slice), int_value(right)) {
            (Some(i), Some(n)) => {
                if !has_name(value, "sys.version_info") || i >= 2 {
                    return None;
                }
                let part: u32 = if i == 0 {
                    self.version.major
                } else {
                    self.version.minor
                };
                outcome_of_order(op, part < n, part == n)
            },
            _ => None,
        }
    }

    fn compare(&self, left: &Expression, op: Comparison, right: &Expression) -> (res: Option<bool>)
        ensures
            res == self.comparison(*left, op, *right),
    {
        if let Node::Subscript { value, slice, .. } = &left.node {
            return self.compare_part(value, slice, op, right);
        }
        if has_name(left, "sys.version_info") {
            match &right.node {
                Node::Tuple { elts } => match int_values(elts) {
                    Some(wanted) => {
                        let own: Vec<u32> = vec![self.version.major, self.version.minor, self.version.micro];
                        proof {
                            assert(own@ =~= self.version.parts());
                        }
                        outcome_of_order(op, comes_before(&own, &wanted), same_numbers(&own, &wanted))
                    },
                    None => None,
                },
                _ => None,
            }
        } else if has_name(left, "sys.platform") {
            outcome_of_texts(op, "linux", right)
        } else if has_name(left, "os.name") {
            outcome_of_texts(op, "posix", right)
        } else {
            None
        }
    }

    fn evaluate_call(&self, func: &Expression, args: &Vec<Expression>) -> (res: Option<bool>)
        ensures
            res == self.call_outcome(*func, args@),
    {
        if has_name(func, "sys.platform.startswith") && args.len() > 0 {
            match as_literal(&args[0]) {
                Some(prefix) => Some(strip_prefix("linux", prefix).is_some()),
                None => None,
            }
        } else {
            None
        }
    }

    fn has_outcome(&self, values: &Vec<Expression>, outcome: Option<bool>) -> (res: bool)
        ensures
            res == self.some_is(*values, outcome, values@.len() as int),
        decreases values, 0nat,
    {
        let mut found = false;
        for i in 0..values.len()
            invariant
                found == self.some_is(*values, outcome, i as int),
        {
            let own: Option<bool> = self.evaluate(&values[i]);
            let same = match (own, outcome) {
                (Some(a), Some(b)) => a == b,
                (None, None) => true,
                _ => false,
            };
            if same {
                found = true;
            }
        }
        found
    }

    /// Finds out what an expression comes to, where that is known before the program runs.
    pub fn evaluate(&self, e: &Expression) -> (res: Option<bool>)
        ensures
            res == self.outcome(*e),
        decreases e, 1nat,
    {
        match &e.node {
            Node::BooleanLiteral { value } => Some(*value),
            Node::Name { id } => if str_eq(id.as_str(), "TYPE_CHECKING") {
                Some(false)
            } else {
                None
            },
            Node::Attribute { attr, .. } => if str_eq(attr.as_str(), "TYPE_CHECKING") {
                Some(false)
            } else {
                None
            },
            Node::UnaryOp { op, operand } => if *op == UnaryOp::Not {
                match self.evaluate(operand) {
                    Some(b) => Some(!b),
                    None => None,
                }
            } else {
                None
            },
            Node::BoolOp { op, values } => {
                let decides = *op == BoolOp::Or;
                if self.has_outcome(values, Some(decides)) {
                    Some(decides)
                } else if self.has_outcome(values, None) {
                    None
                } else {
                    Some(!decides)
                }
            },
            Node::Compare { left, ops, comparators } => if ops.len() == 1 && comparators.len() == 1 {
                self.compare(left, ops[0], &comparators[0])
            } else {
                None
            },
            Node::Call { func, arguments } => self.evaluate_call(func, &arguments.args),
            _ => None,
        }
    }
}

} // verus!
