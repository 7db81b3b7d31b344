//! Which branches of a module count.

use crate::ast::{Branch, Comparison, Expression, Node};
use crate::importlib::{is_variable, is_variable_named, literal_text, as_literal};
use crate::module_name::{optional_name, str_eq, ModuleName};
use crate::sys_info::SysInfo;
use crate::version::PythonVersion;
use vstd::prelude::*;

verus! {

/// One side of a comparison is `__name__` and the other `"__main__"`.
pub open spec fn name_is_main(name_side: Expression, main_side: Expression) -> bool {
    is_variable(name_side, "__name__"@) && literal_text(main_side) == Some("__main__"@)
}

/// An expression is `__name__ == "__main__"`, or the same the other way round.
pub open spec fn main_guard(e: Expression) -> bool {
    match e.node {
        Node::Compare { left, ops, comparators } => ops@.len() == 1 && ops@[0] == Comparison::Eq
            && comparators@.len() > 0 && (name_is_main(*left, comparators@[0]) || name_is_main(
            comparators@[0],
            *left,
        )),
        _ => false,
    }
}

fn is_name_eq_main(name_side: &Expression, main_side: &Expression) -> (res: bool)
    ensures
        res == name_is_main(*name_side, *main_side),
{
    if !is_variable_named(name_side, "__name__") {
        return false;
    }
    match as_literal(main_side) {
        Some(text) => str_eq(text, "__main__"),
        None => false,
    }
}

/// Whether an expression is `__name__ == "__main__"`, or the same the other way round.
pub fn is_name_main_guard(e: &Expression) -> (res: bool)
    ensures
        res == main_guard(*e),
{
    match &e.node {
        Node::Compare { left, ops, comparators } => {
            if ops.len() != 1 || ops[0] != Comparison::Eq || comparators.len() == 0 {
                return false;
            }
            is_name_eq_main(left, &comparators[0]) || is_name_eq_main(&comparators[0], left)
        },
        _ => false,
    }
}

/// What the test of a branch is known to come to.
pub open spec fn outcome_of(sys: SysInfo, b: Branch) -> Option<bool> {
    match b.test {
        Some(test) => sys.outcome(test),
        None => None,
    }
}

/// A branch of an `if` statement is one that may run: its test is not known to fail, and no test
/// before it is known to succeed.
pub open spec fn may_run(sys: SysInfo, branches: Seq<Branch>, i: int) -> bool {
    outcome_of(sys, branches[i]) != Some(false) && forall|j: int|
        0 <= j < i ==> outcome_of(sys, #[trigger] branches[j]) != Some(true)
}

/// The test of a branch is one whose outcome is not known.
pub open spec fn is_tested(sys: SysInfo, b: Branch) -> bool {
    b.test is Some && outcome_of(sys, b) is None
}

/// Which branches of an `if` statement may run. Those behind one that is known to run do not.
pub fn pruned_if_branches(sys_info: SysInfo, branches: &Vec<Branch>) -> (res: Vec<bool>)
    ensures
        res@.len() == branches@.len(),
        forall|i: int| 0 <= i < res@.len() ==> #[trigger] res@[i] == may_run(sys_info, branches@, i),
{
    let mut res: Vec<bool> = Vec::new();
    let mut done = false;
    for i in 0..branches.len()
        invariant
            res@.len() == i,
            done == (exists|j: int| 0 <= j < i && outcome_of(sys_info, #[trigger] branches@[j]) == Some(true)),
            forall|j: int| 0 <= j < i ==> #[trigger] res@[j] == may_run(sys_info, branches@, j),
    {
        let known: Option<bool> = match &branches[i].test {
            Some(test) => sys_info.evaluate(test),
            None => None,
        };
        let fails = match known {
            Some(outcome) => !outcome,
            None => false,
        };
        let succeeds = match known {
            Some(outcome) => outcome,
            None => false,
        };
        res.push(!done && !fails);
        if succeeds {
            done = true;
            proof {
                assert(outcome_of(sys_info, branches@[i as int]) == Some(true));
            }
        }
    }
    res
}

/// What an analysis depends on besides the sources.
pub struct AnalysisConfig {
    /// The Python that the sources are analyzed for.
    pub sys_info: SysInfo,
    /// The module that is run as a program. Where it is not known, every module may be. A module
    /// without a name stands for none.
    pub main_module: Option<ModuleName>,
}

/// A test asks whether its module is run as a program, and it is known which module is.
pub open spec fn guards_main(sys: SysInfo, main: Option<Seq<char>>, b: Branch) -> bool {
    is_tested(sys, b) && main is Some && (b.test matches Some(test) && main_guard(test))
}

/// A module is the one that is run as a program. A name without characters stands for no module.
pub open spec fn is_main(main: Option<Seq<char>>, module: Seq<char>) -> bool {
    main == Some(module) && module.len() > 0
}

/// The branch of an `if` statement runs because its module is run as a program.
pub open spec fn runs_as_main(
    sys: SysInfo,
    main: Option<Seq<char>>,
    module: Seq<char>,
    branches: Seq<Branch>,
    i: int,
) -> bool {
    may_run(sys, branches, i) && guards_main(sys, main, branches[i]) && is_main(main, module)
}

/// A branch of an `if` statement in a module counts: it may run, its test does not ask whether
/// another module is run as a program, and no test before it has found that its own is.
pub open spec fn counts(
    sys: SysInfo,
    main: Option<Seq<char>>,
    module: Seq<char>,
    branches: Seq<Branch>,
    i: int,
) -> bool {
    &&& may_run(sys, branches, i)
    &&& !guards_main(sys, main, branches[i]) || is_main(main, module)
    &&& forall|j: int| 0 <= j < i ==> !#[trigger] runs_as_main(sys, main, module, branches, j)
}

/// The test of a branch that counts is looked at: its outcome is not known.
pub open spec fn test_counts(sys: SysInfo, main: Option<Seq<char>>, b: Branch) -> bool {
    is_tested(sys, b) && !guards_main(sys, main, b)
}

impl AnalysisConfig {
    /// Sets the Python that sources are analyzed for, and the module that is run as a program where it
    /// is known.
    pub fn new(sys_info: SysInfo, main_module: Option<ModuleName>) -> (res: AnalysisConfig)
        ensures
            res == (AnalysisConfig { sys_info, main_module }),
    {
        AnalysisConfig { sys_info, main_module }
    }

    /// Sets the version of Python that sources are analyzed for, and the module that is run as a program
    /// where it is known.
    pub fn with_python_version(version: PythonVersion, main_module: Option<ModuleName>) -> (res:
        AnalysisConfig)
        ensures
            res == (AnalysisConfig { sys_info: SysInfo { version }, main_module }),
    {
        AnalysisConfig::new(SysInfo::lg_with_version(version), main_module)
    }

    /// Which branches of an `if` statement count, and of which of these the test is looked at.
    pub fn lg_pruned_if_branches(
        &self,
        branches: &Vec<Branch>,
        current_module: &ModuleName,
    ) -> (res: Vec<(bool, bool)>)
        ensures
            res@.len() == branches@.len(),
            forall|i: int|
                0 <= i < res@.len() ==> (#[trigger] res@[i]).0 == counts(
                    self.sys_info,
                    optional_name(self.main_module),
                    current_module@,
                    branches@,
                    i,
                ) && res@[i].1 == test_counts(self.sys_info, optional_name(self.main_module), branches@[i]),
    {
        let sys_info = self.sys_info;
        let live = pruned_if_branches(sys_info, branches);
        let mut res: Vec<(bool, bool)> = Vec::new();
        let mut done = false;
        let ghost main = optional_name(self.main_module);
        let ghost module = current_module@;
        let here_is_main = match &self.main_module {
            Some(name) => name.same(current_module) && !current_module.as_str().is_empty(),
            None => false,
        };
        for i in 0..branches.len()
            invariant
                live@.len() == branches@.len(),
                forall|i: int| 0 <= i < live@.len() ==> #[trigger] live@[i] == may_run(sys_info, branches@, i),
                sys_info == self.sys_info,
                main == optional_name(self.main_module),
                module == current_module@,
                here_is_main == is_main(main, module),
                res@.len() == i,
                done == (exists|j: int| 0 <= j < i && #[trigger] runs_as_main(
                    sys_info,
                    main,
                    module,
                    branches@,
                    j,
                )),
                forall|j: int|
                    0 <= j < i ==> (#[trigger] res@[j]).0 == counts(sys_info, main, module, branches@, j)
                        && res@[j].1 == test_counts(sys_info, main, branches@[j]),
        {
            let b = &branches[i];
            let tested = match &b.test {
                Some(test) => sys_info.evaluate(test).is_none(),
                None => false,
            };
            let guard = match &b.test {
                Some(test) => tested && self.main_module.is_some() && is_name_main_guard(test),
                None => false,
            };
            let here = live[i];
            res.push((here && !done && (!guard || here_is_main), tested && !guard));
            if here && guard && here_is_main {
                proof {
                    assert(runs_as_main(sys_info, main, module, branches@, i as int));
                }
                done = true;
            }
        }
        res
    }
}

impl Default for AnalysisConfig {
    /// The default version, where it is not known which module is run as a program.
    fn default() -> (res: AnalysisConfig)
        ensures
            res == (AnalysisConfig {
                sys_info: SysInfo { version: PythonVersion { major: 3, minor: 14, micro: 0 } },
                main_module: None,
            }),
    {
        AnalysisConfig::new(SysInfo::lg_default(), None)
    }
}

/// Where no module is run as a program, which a name without characters says, no branch counts that
/// asks for it, whatever the module.
pub proof fn no_main_runs_nowhere(sys: SysInfo, module: Seq<char>, branches: Seq<Branch>, i: int)
    requires
        guards_main(sys, Some(Seq::empty()), branches[i]),
    ensures
        !counts(sys, Some(Seq::empty()), module, branches, i),
{
}

} // verus!
