//! What becomes of the imports and the errors of cached modules once the modules of other libraries are
//! known.

use crate::cache::{disambiguated, errors_of_module, known_targets, linked};
use crate::cached_module::{known_or_self, resolved_names, stays, without_repeats, CachedModuleView, CachedSafetyView};
use crate::errors::ErrorKind;
use crate::imports::{known_module, parent_dot};
use crate::known_parents::{is_nearest, is_parent, names_lie_in_the_nearest_module, the_nearest_parent_is_found};
use crate::module_name::{dotted, first_dot, without_brackets};
use crate::module_safety::FunctionSafety;
use crate::verdicts::{safe_at, verified, Verdicts};
use vstd::prelude::*;

verus! {

/// A name lies in a module: it is the module's name, or the module is the nearest known one before it.
pub open spec fn lies_in_module(name: Seq<char>, known: Set<Seq<char>>, module: Seq<char>) -> bool {
    if known.contains(name) {
        module == name
    } else {
        is_nearest(module, name, known)
    }
}

/// An import that was missing is an import of the module that it lies in, once that is known, and is
/// missing no longer; one that lies in no known module stays missing. Imports are never lost.
pub proof fn missing_imports_are_found(
    m: CachedModuleView,
    found: Set<Seq<char>>,
    known: Set<Seq<char>>,
    table: Verdicts,
    name: Seq<char>,
)
    ensures
        linked(m, found, known, table).imports.contains(name) <==> m.imports.contains(name) || exists|missing: Seq<char>|
            #[trigger]
            m.missing_imports.contains(missing) && lies_in_module(missing, known, name),
        linked(m, found, known, table).missing_imports.contains(name) <==> m.missing_imports.contains(name)
            && !known.contains(name) && forall|parent: Seq<char>| #[trigger]
            is_parent(parent, name) ==> !known.contains(parent),
        linked(m, found, known, table).name == m.name,
{
    assert forall|missing: Seq<char>| #[trigger] m.missing_imports.contains(missing) implies (known_module(
        missing,
        known,
    ) == Some(name) <==> lies_in_module(missing, known, name)) by {
        names_lie_in_the_nearest_module(missing, known, name);
    }
    the_nearest_parent_is_found(name, known);
    if known_targets(m.missing_imports, known).contains(name) {
        let a = choose|a: Seq<char>| #[trigger]
            m.missing_imports.contains(a) && known_module(a, known) == Some(name);
        assert(lies_in_module(a, known, name));
    }
    if exists|missing: Seq<char>| #[trigger]
        m.missing_imports.contains(missing) && lies_in_module(missing, known, name) {
        let a = choose|missing: Seq<char>| #[trigger]
            m.missing_imports.contains(missing) && lies_in_module(missing, known, name);
        assert(known_module(a, known) == Some(name));
    }
}

/// An import of which it was open what it names is an import of the known module that it lies in.
pub proof fn ambiguous_imports_are_settled(m: CachedModuleView, known: Set<Seq<char>>, name: Seq<char>)
    ensures
        disambiguated(m, known).imports.contains(name) <==> m.imports.contains(name) || exists|open: Seq<char>|
            #[trigger]
            m.ambiguous_imports.contains(open) && lies_in_module(open, known, name),
        !disambiguated(m, known).ambiguous_imports.contains(name),
{
    if known_targets(m.ambiguous_imports, known).contains(name) {
        let a = choose|a: Seq<char>| #[trigger]
            m.ambiguous_imports.contains(a) && known_module(a, known) == Some(name);
        names_lie_in_the_nearest_module(a, known, name);
        assert(lies_in_module(a, known, name));
    }
    if exists|open: Seq<char>| #[trigger]
        m.ambiguous_imports.contains(open) && lies_in_module(open, known, name) {
        let a = choose|open: Seq<char>| #[trigger]
            m.ambiguous_imports.contains(open) && lies_in_module(open, known, name);
        names_lie_in_the_nearest_module(a, known, name);
        assert(known_module(a, known) == Some(name));
    }
}

/// The errors that go when calls are verified: those of calls and objects that were not known, or were
/// taken for unsafe.
pub open spec fn is_of_a_call(kind: ErrorKind) -> bool {
    match kind {
        ErrorKind::UnknownFunctionCall => true,
        ErrorKind::UnknownMethodCall => true,
        ErrorKind::UnknownDecoratorCall => true,
        ErrorKind::UnknownObject => true,
        ErrorKind::UnsafeFunctionCall => true,
        ErrorKind::UnsafeMethodCall => true,
        ErrorKind::UnsafeDecoratorCall => true,
        _ => false,
    }
}

proof fn lemma_kept(
    s: Seq<(ErrorKind, Seq<char>)>,
    keep: spec_fn((ErrorKind, Seq<char>)) -> bool,
    x: (ErrorKind, Seq<char>),
)
    ensures
        s.filter(keep).contains(x) <==> s.contains(x) && keep(x),
    decreases s.len(),
{
    reveal(Seq::filter);
    if s.len() > 0 {
        let front = s.drop_last();
        lemma_kept(front, keep, x);
        let before = front.filter(keep);
        let after = s.filter(keep);
        if keep(s.last()) {
            assert(after == before.push(s.last()));
            assert(after.last() == s.last());
            if before.contains(x) {
                assert(after[before.index_of(x)] == x);
            }
            if after.contains(x) && x != s.last() {
                assert(before[after.index_of(x)] == x);
            }
        } else {
            assert(after == before);
        }
        if front.contains(x) {
            assert(s[front.index_of(x)] == x);
        }
        if s.contains(x) && x != s.last() {
            assert(front[s.index_of(x)] == x);
        }
    }
}

/// An error goes exactly where it is of a call that is verified; all others stay, and none comes.
pub proof fn errors_of_verified_calls_go(
    s: CachedSafetyView,
    is_verified: spec_fn(Seq<char>) -> bool,
    e: (ErrorKind, Seq<char>),
)
    ensures
        s.without_verified(is_verified).errors.contains(e) <==> s.errors.contains(e) && !(is_of_a_call(e.0)
            && is_verified(without_brackets(e.1))),
        s.without_verified(is_verified).overrides == s.overrides,
        s.without_verified(is_verified).implicit_imports == s.implicit_imports,
{
    lemma_kept(s.errors, |x: (ErrorKind, Seq<char>)| stays(x, is_verified), e);
}

/// The errors that a module gets for its calls at module scope are those that were found for it.
pub proof fn modules_get_their_own_errors(
    errors: Seq<(Seq<char>, Seq<char>)>,
    name: Seq<char>,
    e: (ErrorKind, Seq<char>),
)
    ensures
        errors_of_module(errors, name).contains(e) <==> e.0 == ErrorKind::ImportedVarArgument && errors.contains(
            (name, e.1),
        ),
    decreases errors.len(),
{
    if errors.len() > 0 {
        let front = errors.drop_last();
        modules_get_their_own_errors(front, name, e);
        let before = errors_of_module(front, name);
        let after = errors_of_module(errors, name);
        let x = (name, e.1);
        if errors.last().0 == name {
            let added = (ErrorKind::ImportedVarArgument, errors.last().1);
            assert(after == before.push(added));
            assert(after.last() == added);
            if before.contains(e) {
                assert(after[before.index_of(e)] == e);
            }
            if after.contains(e) && e != added {
                assert(before[after.index_of(e)] == e);
            }
            if e == added {
                assert(errors[errors.len() - 1] == x);
            }
        }
        if front.contains(x) {
            assert(errors[front.index_of(x)] == x);
        }
        if errors.contains(x) && x != errors.last() {
            assert(front[errors.index_of(x)] == x);
        }
    }
}

proof fn lemma_without_repeats(s: Seq<Seq<char>>, x: Seq<char>)
    ensures
        without_repeats(s).contains(x) <==> s.contains(x),
    decreases s.len(),
{
    if s.len() > 0 {
        let front = s.drop_last();
        lemma_without_repeats(front, x);
        lemma_without_repeats(front, s.last());
        let before = without_repeats(front);
        let after = without_repeats(s);
        if !before.contains(s.last()) {
            assert(after == before.push(s.last()));
            assert(after.last() == s.last());
            if before.contains(x) {
                assert(after[before.index_of(x)] == x);
            }
            if after.contains(x) && x != s.last() {
                assert(before[after.index_of(x)] == x);
            }
        }
        if front.contains(x) {
            assert(s[front.index_of(x)] == x);
        }
        if s.contains(x) && x != s.last() {
            assert(front[s.index_of(x)] == x);
        }
    }
}

/// The implicit imports of a module are, once the modules of other libraries are known, the modules that
/// they lie in, and those that lie in none as they were.
pub proof fn implicit_imports_are_resolved(names: Seq<Seq<char>>, known: Set<Seq<char>>, x: Seq<char>)
    ensures
        resolved_names(names, known).contains(x) <==> exists|i: int|
            0 <= i < names.len() && (lies_in_module(#[trigger] names[i], known, x) || (x == names[i]
                && lies_nowhere(names[i], known))),
{
    let mapped = names.map_values(|n: Seq<char>| known_or_self(n, known));
    lemma_without_repeats(mapped, x);
    assert forall|i: int| 0 <= i < names.len() implies (#[trigger] mapped[i] == x <==> lies_in_module(
        names[i],
        known,
        x,
    ) || (x == names[i] && lies_nowhere(names[i], known))) by {
        let n = names[i];
        names_lie_in_the_nearest_module(n, known, x);
        the_nearest_parent_is_found(n, known);
        if lies_nowhere(n, known) {
            assert(known_module(n, known) is None);
        } else {
            assert(known_module(n, known) is Some);
        }
    }
    if mapped.contains(x) {
        let i = mapped.index_of(x);
        assert(mapped[i] == x);
        assert(lies_in_module(names[i], known, x) || (x == names[i] && lies_nowhere(names[i], known)));
    }
    if exists|i: int|
        0 <= i < names.len() && (lies_in_module(#[trigger] names[i], known, x) || (x == names[i] && lies_nowhere(
            names[i],
            known,
        ))) {
        let i = choose|i: int|
            0 <= i < names.len() && (lies_in_module(#[trigger] names[i], known, x) || (x == names[i] && lies_nowhere(
                names[i],
                known,
            )));
        assert(mapped[i] == x);
    }
}

/// A name lies in no known module.
pub open spec fn lies_nowhere(name: Seq<char>, known: Set<Seq<char>>) -> bool {
    !known.contains(name) && forall|parent: Seq<char>| #[trigger] is_parent(parent, name) ==> !known.contains(parent)
}

/// A call of a name in a module, the nearest known one before the name, is verified where the module has
/// it as a safe function, or has as safe what stands before the first dot of it. Nothing else verifies it.
pub proof fn calls_are_verified_by_the_nearest_module(
    module: Seq<char>,
    local: Seq<char>,
    modules: Set<Seq<char>>,
    table: Verdicts,
    otherwise: bool,
)
    requires
        is_nearest(module, dotted(module, local), modules),
    ensures
        ({
            let name = dotted(module, local);
            let d = first_dot(local);
            &&& table.contains_key((module, local)) && table[(module, local)].verdict == FunctionSafety::Safe ==> verified(
                name,
                modules,
                table,
                otherwise,
            )
            &&& d >= 0 && table.contains_key((module, local.take(d))) && table[(module, local.take(d))].verdict
                == FunctionSafety::Safe ==> verified(name, modules, table, otherwise)
            &&& verified(name, modules, table, otherwise) ==> safe_at(table, module, local) || (d >= 0 && safe_at(
                table,
                module,
                local.take(d),
            ))
        }),
{
    let name = dotted(module, local);
    the_nearest_parent_is_found(name, modules);
    assert(is_parent(module, name) && modules.contains(module));
    let d = parent_dot(name, modules);
    assert(is_parent(name.take(d), name));
    assert(name.take(d).len() == module.len());
    assert(name.skip(d + 1) =~= local);
}

/// A call of a name that lies in no module is verified as said otherwise.
pub proof fn calls_into_no_module_are_verified_otherwise(
    name: Seq<char>,
    modules: Set<Seq<char>>,
    table: Verdicts,
    otherwise: bool,
)
    requires
        forall|parent: Seq<char>| #[trigger] is_parent(parent, name) ==> !modules.contains(parent),
    ensures
        verified(name, modules, table, otherwise) == otherwise,
{
    the_nearest_parent_is_found(name, modules);
}

} // verus!
