//! Which branches of `if` statements are looked at: what is known of their tests.

use crate::ast::{BoolOp, Branch, Comparison, Expression, Node, UnaryOp};
use crate::config::{counts, may_run, outcome_of};
use crate::importlib::{is_variable, literal_text};
use crate::sys_info::{ints_in, numbers_less, SysInfo};
use vstd::prelude::*;

verus! {

/// A branch may run unless its own test is known to fail or one before it is known to succeed; a branch
/// without a test of its own fails never.
pub proof fn branches_run_unless_tests_say_otherwise(sys: SysInfo, branches: Seq<Branch>, i: int)
    requires
        0 <= i < branches.len(),
    ensures
        branches[i].test matches Some(test) && sys.outcome(test) == Some(false) ==> !may_run(sys, branches, i),
        (exists|j: int|
            0 <= j < i && succeeds(sys, #[trigger] branches[j])) ==> !may_run(sys, branches, i),
        !(branches[i].test matches Some(test) && sys.outcome(test) == Some(false)) && (forall|j: int|
            0 <= j < i ==> !succeeds(sys, #[trigger] branches[j])) ==> may_run(sys, branches, i),
{
    if exists|j: int| 0 <= j < i && succeeds(sys, #[trigger] branches[j]) {
        let j = choose|j: int| 0 <= j < i && succeeds(sys, #[trigger] branches[j]);
        assert(outcome_of(sys, branches[j]) == Some(true));
    }
    if forall|j: int| 0 <= j < i ==> !succeeds(sys, #[trigger] branches[j]) {
        assert forall|j: int| 0 <= j < i implies outcome_of(sys, #[trigger] branches[j]) != Some(true) by {
            assert(!succeeds(sys, branches[j]));
        }
    }
}

/// The test of a branch is known to succeed.
pub open spec fn succeeds(sys: SysInfo, b: Branch) -> bool {
    b.test matches Some(test) && sys.outcome(test) == Some(true)
}

/// The test of a branch asks whether the module is run as a program.
pub open spec fn asks_for_main(b: Branch) -> bool {
    b.test matches Some(test) && (test.node matches Node::Compare { left, ops, comparators } && ops@ == seq![
        Comparison::Eq,
    ] && comparators@.len() == 1 && ((is_variable(*left, "__name__"@) && literal_text(comparators@[0]) == Some(
        "__main__"@,
    )) || (is_variable(comparators@[0], "__name__"@) && literal_text(*left) == Some("__main__"@))))
}

/// Where it is not known which module is run as a program, all branches count that may run. Where it is
/// known, one that asks for it counts in that module alone, and there the branches behind it do not.
pub proof fn branches_count_for_the_main_module(
    sys: SysInfo,
    main: Seq<char>,
    module: Seq<char>,
    branches: Seq<Branch>,
    i: int,
    j: int,
)
    requires
        0 <= i < branches.len(),
    ensures
        counts(sys, None, module, branches, i) == may_run(sys, branches, i),
        counts(sys, Some(main), module, branches, i) ==> may_run(sys, branches, i),
        asks_for_main(branches[i]) && outcome_of(sys, branches[i]) is None && main != module ==> !counts(
            sys,
            Some(main),
            module,
            branches,
            i,
        ),
        0 <= j < i && asks_for_main(branches[j]) && outcome_of(sys, branches[j]) is None && may_run(sys, branches, j)
            && main == module && main.len() > 0 ==> !counts(sys, Some(main), module, branches, i),
        main == module && main.len() > 0 && i == 0 ==> counts(sys, Some(main), module, branches, i) == may_run(
            sys,
            branches,
            i,
        ),
        (forall|k: int| 0 <= k <= i ==> !compares(#[trigger] branches[k])) ==> counts(
            sys,
            Some(main),
            module,
            branches,
            i,
        ) == may_run(sys, branches, i),
{
    assert forall|b: Branch| asks_for_main(b) implies b.test is Some && #[trigger] crate::config::main_guard(
        b.test->0,
    ) by {
        let test = b.test->0;
        if let Node::Compare { left, ops, comparators } = test.node {
            assert(ops@.len() == 1 && ops@[0] == Comparison::Eq);
        }
    }
    if asks_for_main(branches[i]) {
        assert(crate::config::main_guard(branches[i].test->0));
    }
    if 0 <= j < i && asks_for_main(branches[j]) {
        assert(crate::config::main_guard(branches[j].test->0));
        if outcome_of(sys, branches[j]) is None && may_run(sys, branches, j) && main == module && main.len() > 0 {
            assert(crate::config::runs_as_main(sys, Some(main), module, branches, j));
        }
    }
    if forall|k: int| 0 <= k <= i ==> !compares(#[trigger] branches[k]) {
        assert(!compares(branches[i]));
        assert forall|k: int| 0 <= k < i implies !#[trigger] crate::config::runs_as_main(
            sys,
            Some(main),
            module,
            branches,
            k,
        ) by {
            assert(!compares(branches[k]));
        }
    }
}

/// The test of a branch is a comparison.
pub open spec fn compares(b: Branch) -> bool {
    b.test matches Some(test) && test.node is Compare
}

proof fn lemma_some_is(sys: SysInfo, values: Vec<Expression>, outcome: Option<bool>, n: int)
    requires
        0 <= n <= values@.len(),
    ensures
        sys.some_is(values, outcome, n) <==> exists|i: int| 0 <= i < n && sys.outcome(#[trigger] values@[i]) == outcome,
    decreases n,
{
    if n > 0 {
        lemma_some_is(sys, values, outcome, n - 1);
    }
}

/// What is known of `not`, `and` and `or` follows from what is known of their parts, and is known only
/// then.
pub proof fn tests_follow_their_parts(sys: SysInfo, e: Expression, i: int)
    ensures
        e.node matches Node::UnaryOp { op, operand } ==> (op == UnaryOp::Not ==> (sys.outcome(e) == Some(true)
            <==> sys.outcome(*operand) == Some(false)) && (sys.outcome(e) == Some(false) <==> sys.outcome(*operand)
            == Some(true))),
        e.node matches Node::BoolOp { op, values } ==> (op == BoolOp::And && 0 <= i < values@.len() && sys.outcome(
            values@[i],
        ) == Some(false) ==> sys.outcome(e) == Some(false)),
        e.node matches Node::BoolOp { op, values } ==> (op == BoolOp::And && sys.outcome(e) == Some(true)
            && 0 <= i < values@.len() ==> sys.outcome(values@[i]) == Some(true)),
        e.node matches Node::BoolOp { op, values } ==> (op == BoolOp::And && (forall|k: int|
            0 <= k < values@.len() ==> sys.outcome(#[trigger] values@[k]) == Some(true)) ==> sys.outcome(e) == Some(
            true,
        )),
        e.node matches Node::BoolOp { op, values } ==> (op == BoolOp::Or && 0 <= i < values@.len() && sys.outcome(
            values@[i],
        ) == Some(true) ==> sys.outcome(e) == Some(true)),
        e.node matches Node::BoolOp { op, values } ==> (op == BoolOp::Or && sys.outcome(e) == Some(false)
            && 0 <= i < values@.len() ==> sys.outcome(values@[i]) == Some(false)),
        e.node matches Node::BoolOp { op, values } ==> (op == BoolOp::Or && (forall|k: int|
            0 <= k < values@.len() ==> sys.outcome(#[trigger] values@[k]) == Some(false)) ==> sys.outcome(e) == Some(
            false,
        )),
{
    if let Node::BoolOp { op, values } = e.node {
        let n = values@.len() as int;
        lemma_some_is(sys, values, Some(true), n);
        lemma_some_is(sys, values, Some(false), n);
        lemma_some_is(sys, values, None, n);
        if 0 <= i < n {
            let known = sys.outcome(values@[i]);
            assert(known == Some(true) || known == Some(false) || known is None);
        }
    }
}

/// `TYPE_CHECKING` is false at run time, by itself and as an attribute, and the constants are what they
/// are.
pub proof fn constants_are_known(sys: SysInfo, e: Expression)
    ensures
        e.node matches Node::BooleanLiteral { value } ==> sys.outcome(e) == Some(value),
        e.node matches Node::Name { id } ==> (id@ == "TYPE_CHECKING"@ ==> sys.outcome(e) == Some(false)) && (id@
            != "TYPE_CHECKING"@ ==> sys.outcome(e) is None),
        e.node matches Node::Attribute { attr, .. } ==> (attr@ == "TYPE_CHECKING"@ ==> sys.outcome(e) == Some(false))
            && (attr@ != "TYPE_CHECKING"@ ==> sys.outcome(e) is None),
{
}

proof fn lemma_order(a: Seq<u32>, b: Seq<u32>, k: int)
    requires
        0 <= k <= a.len(),
        k <= b.len(),
        forall|i: int| 0 <= i < k ==> #[trigger] a[i] == b[i],
    ensures
        k < a.len() && k < b.len() && a[k] < b[k] ==> numbers_less(a, b),
        k < a.len() && k < b.len() && a[k] > b[k] ==> !numbers_less(a, b),
        k == a.len() && k < b.len() ==> numbers_less(a, b),
        k == b.len() ==> !numbers_less(a, b),
    decreases k,
{
    if k > 0 {
        let x = a.skip(1);
        let y = b.skip(1);
        assert(a[0] == b[0]);
        assert forall|i: int| 0 <= i < k - 1 implies #[trigger] x[i] == y[i] by {
            assert(a[i + 1] == b[i + 1]);
        }
        lemma_order(x, y, k - 1);
    }
}

/// A test that compares `sys.version_info` with a tuple of numbers comes out as the first number decides
/// in which the version differs from the tuple.
pub proof fn versions_are_compared_in_order(
    sys: SysInfo,
    e: Expression,
    left: Expression,
    op: Comparison,
    right: Expression,
    elts: Vec<Expression>,
    wanted: Seq<u32>,
    k: int,
)
    requires
        e.node matches Node::Compare { left: l, ops, comparators } && *l == left && ops@ == seq![op] && comparators@
            == seq![right],
        !(left.node is Subscript),
        crate::ast::full_name_of(left) == Some("sys.version_info"@),
        right.node == (Node::Tuple { elts }),
        ints_in(elts@, elts@.len() as int) == Some(wanted),
        0 <= k < 3,
        k < wanted.len(),
        forall|i: int| 0 <= i < k ==> #[trigger] sys.version.parts()[i] == wanted[i],
        sys.version.parts()[k] != wanted[k],
    ensures
        op == Comparison::Lt || op == Comparison::LtE ==> sys.outcome(e) == Some(sys.version.parts()[k] < wanted[k]),
        op == Comparison::Gt || op == Comparison::GtE ==> sys.outcome(e) == Some(sys.version.parts()[k] > wanted[k]),
        op == Comparison::Eq ==> sys.outcome(e) == Some(false),
        op == Comparison::NotEq ==> sys.outcome(e) == Some(true),
{
    let parts = sys.version.parts();
    lemma_order(parts, wanted, k);
    assert(seq![op][0] == op && seq![right][0] == right);
    assert(sys.outcome(e) == sys.comparison(left, op, right));
}

/// A shorter tuple that a version begins with comes before the version.
pub proof fn versions_come_behind_what_they_begin_with(version: Seq<u32>, wanted: Seq<u32>)
    requires
        wanted.len() <= version.len(),
        forall|i: int| 0 <= i < wanted.len() ==> #[trigger] version[i] == wanted[i],
    ensures
        !numbers_less(version, wanted),
        wanted.len() < version.len() ==> numbers_less(wanted, version),
{
    lemma_order(version, wanted, wanted.len() as int);
    assert forall|i: int| 0 <= i < wanted.len() implies #[trigger] wanted[i] == version[i] by {
        assert(version[i] == wanted[i]);
    }
    lemma_order(wanted, version, wanted.len() as int);
}

/// The platform is Linux: a test that compares its name with a text, or asks what it starts with, comes
/// out that way.
pub proof fn the_platform_is_linux(
    sys: SysInfo,
    e: Expression,
    left: Expression,
    op: Comparison,
    right: Expression,
    text: Seq<char>,
)
    requires
        e.node matches Node::Compare { left: l, ops, comparators } && *l == left && ops@ == seq![op] && comparators@
            == seq![right],
        !(left.node is Subscript),
        literal_text(right) == Some(text),
    ensures
        crate::ast::full_name_of(left) == Some("sys.platform"@) && op == Comparison::Eq ==> sys.outcome(e) == Some(
            text == "linux"@,
        ),
        crate::ast::full_name_of(left) == Some("sys.platform"@) && op == Comparison::NotEq ==> sys.outcome(e) == Some(
            text != "linux"@,
        ),
        crate::ast::full_name_of(left) == Some("os.name"@) && op == Comparison::Eq ==> sys.outcome(e) == Some(
            text == "posix"@,
        ),
        crate::ast::full_name_of(left) == Some("os.name"@) && op == Comparison::NotEq ==> sys.outcome(e) == Some(
            text != "posix"@,
        ),
{
    reveal_strlit("sys.version_info");
    reveal_strlit("sys.platform");
    reveal_strlit("os.name");
    assert("sys.version_info"@.len() == 16);
    assert("sys.platform"@.len() == 12);
    assert("os.name"@.len() == 7);
    assert(seq![op][0] == op && seq![right][0] == right);
    assert(sys.outcome(e) == sys.comparison(left, op, right));
}

} // verus!
