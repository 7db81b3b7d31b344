//! Which of the parents of a name is found when some of them are known.

use crate::candidates::{enclosing_module, lies_in};
use crate::imports::{known_dot, known_module, parent_dot};
use crate::module_name::{dots_from_last, dotted};
use vstd::prelude::*;

verus! {

/// A name is a parent of another: the other goes on with a dot behind it.
pub open spec fn is_parent(parent: Seq<char>, name: Seq<char>) -> bool {
    parent.len() < name.len() && name.take(parent.len() as int) == parent && name[parent.len() as int] == '.'
}

/// A name is the longest parent of another that is known.
pub open spec fn is_nearest(parent: Seq<char>, name: Seq<char>, known: Set<Seq<char>>) -> bool {
    &&& known.contains(parent)
    &&& is_parent(parent, name)
    &&& forall|other: Seq<char>| #[trigger]
        is_parent(other, name) && known.contains(other) ==> other.len() <= parent.len()
}

proof fn lemma_dots(s: Seq<char>)
    ensures
        forall|i: int|
            0 <= i < dots_from_last(s).len() ==> 0 <= #[trigger] dots_from_last(s)[i] < s.len() && s[dots_from_last(
                s,
            )[i]] == '.',
        forall|i: int, j: int|
            0 <= i < j < dots_from_last(s).len() ==> #[trigger] dots_from_last(s)[i] > #[trigger] dots_from_last(s)[j],
        forall|d: int| 0 <= d < s.len() && #[trigger] s[d] == '.' ==> dots_from_last(s).contains(d),
    decreases s.len(),
{
    if s.len() > 0 {
        let front = s.drop_last();
        lemma_dots(front);
        let dots = dots_from_last(s);
        let before = dots_from_last(front);
        assert forall|i: int| 0 <= i < dots.len() implies 0 <= #[trigger] dots[i] < s.len() && s[dots[i]] == '.' by {
            if s.last() == '.' {
                if i > 0 {
                    assert(dots[i] == before[i - 1]);
                    assert(front[dots[i]] == '.');
                }
            } else {
                assert(dots[i] == before[i]);
                assert(front[dots[i]] == '.');
            }
        }
        assert forall|i: int, j: int| 0 <= i < j < dots.len() implies #[trigger] dots[i] > #[trigger] dots[j] by {
            if s.last() == '.' {
                assert(dots[j] == before[j - 1]);
                if i > 0 {
                    assert(dots[i] == before[i - 1]);
                }
            }
        }
        assert forall|d: int| 0 <= d < s.len() && #[trigger] s[d] == '.' implies dots.contains(d) by {
            if d < front.len() {
                assert(front[d] == '.');
                assert(before.contains(d));
                let k = before.index_of(d);
                if s.last() == '.' {
                    assert(dots[k + 1] == d);
                }
            } else {
                assert(dots[0] == d);
            }
        }
    }
}

proof fn lemma_known(name: Seq<char>, known: Set<Seq<char>>, dots: Seq<int>, k: int)
    requires
        0 <= k,
        forall|i: int| 0 <= i < dots.len() ==> 0 <= #[trigger] dots[i] < name.len(),
    ensures
        known_dot(name, known, dots, k) >= 0 ==> exists|i: int|
            k <= i < dots.len() && #[trigger] dots[i] == known_dot(name, known, dots, k) && known.contains(
                name.take(dots[i]),
            ) && forall|j: int| k <= j < i ==> !known.contains(name.take(#[trigger] dots[j])),
        known_dot(name, known, dots, k) < 0 ==> forall|j: int|
            k <= j < dots.len() ==> !known.contains(name.take(#[trigger] dots[j])),
    decreases dots.len() - k,
{
    if k < dots.len() {
        if known.contains(name.take(dots[k])) {
            assert(dots[k] == known_dot(name, known, dots, k));
        } else {
            lemma_known(name, known, dots, k + 1);
            if known_dot(name, known, dots, k) >= 0 {
                let i = choose|i: int|
                    k + 1 <= i < dots.len() && #[trigger] dots[i] == known_dot(name, known, dots, k + 1)
                        && known.contains(name.take(dots[i])) && forall|j: int|
                        k + 1 <= j < i ==> !known.contains(name.take(#[trigger] dots[j]));
                assert(dots[i] == known_dot(name, known, dots, k));
            }
        }
    }
}

/// The parent of a name that is looked up is the longest one that is known, and one is found wherever
/// one is known.
pub proof fn the_nearest_parent_is_found(name: Seq<char>, known: Set<Seq<char>>)
    ensures
        parent_dot(name, known) >= 0 <==> exists|parent: Seq<char>| #[trigger]
            is_parent(parent, name) && known.contains(parent),
        parent_dot(name, known) >= 0 ==> parent_dot(name, known) < name.len() && is_nearest(
            name.take(parent_dot(name, known)),
            name,
            known,
        ),
{
    let dots = dots_from_last(name);
    lemma_dots(name);
    lemma_known(name, known, dots, 0);
    let d = parent_dot(name, known);
    if d >= 0 {
        let i = choose|i: int|
            0 <= i < dots.len() && #[trigger] dots[i] == d && known.contains(name.take(dots[i])) && forall|j: int|
                0 <= j < i ==> !known.contains(name.take(#[trigger] dots[j]));
        let parent = name.take(d);
        assert(is_parent(parent, name));
        assert forall|other: Seq<char>| #[trigger]
            is_parent(other, name) && known.contains(other) implies other.len() <= parent.len() by {
            let at = other.len() as int;
            assert(name[at] == '.');
            assert(dots.contains(at));
            let j = dots.index_of(at);
            if j < i {
                assert(known.contains(name.take(dots[j])));
            } else if j > i {
                assert(dots[i] > dots[j]);
            }
        }
    }
    if exists|parent: Seq<char>| #[trigger] is_parent(parent, name) && known.contains(parent) {
        let parent = choose|parent: Seq<char>| #[trigger] is_parent(parent, name) && known.contains(parent);
        let at = parent.len() as int;
        assert(name[at] == '.');
        assert(dots.contains(at));
        let j = dots.index_of(at);
        if d < 0 {
            assert(!known.contains(name.take(dots[j])));
        }
    }
}

/// A name lies in a set where it or one of its parents is in the set.
pub proof fn names_lie_in_sets_of_their_parents(name: Seq<char>, set: Set<Seq<char>>)
    ensures
        lies_in(name, set) <==> set.contains(name) || exists|parent: Seq<char>| #[trigger]
            is_parent(parent, name) && set.contains(parent),
{
    the_nearest_parent_is_found(name, set);
}

/// The module that a name lies in is the name itself where that is a module, and else the longest of
/// its parents that is one.
pub proof fn names_lie_in_the_nearest_module(name: Seq<char>, modules: Set<Seq<char>>, module: Seq<char>)
    ensures
        known_module(name, modules) == Some(module) <==> if modules.contains(name) {
            module == name
        } else {
            is_nearest(module, name, modules)
        },
{
    the_nearest_parent_is_found(name, modules);
    if !modules.contains(name) && is_nearest(module, name, modules) {
        assert(is_parent(module, name) && modules.contains(module));
        let found = name.take(parent_dot(name, modules));
        assert(is_parent(found, name));
        assert(found.len() == module.len());
    }
}

/// The module that a scope is in is the scope itself, or its nearest parent that is a module; what
/// follows is the scope's name in it.
pub proof fn scopes_are_in_the_nearest_module(
    scope: Seq<char>,
    modules: Set<Seq<char>>,
    module: Seq<char>,
    local: Seq<char>,
)
    ensures
        modules.contains(scope) ==> enclosing_module(scope, modules) == Some((scope, None::<Seq<char>>)),
        !modules.contains(scope) ==> (enclosing_module(scope, modules) == Some((module, Some(local))) <==> scope
            == dotted(module, local) && is_nearest(module, scope, modules)),
{
    the_nearest_parent_is_found(scope, modules);
    names_lie_in_the_nearest_module(scope, modules, module);
    let d = parent_dot(scope, modules);
    if !modules.contains(scope) {
        if scope == dotted(module, local) && is_nearest(module, scope, modules) {
            assert(known_module(scope, modules) == Some(module));
            assert(scope.skip(d + 1) =~= local);
        }
        if enclosing_module(scope, modules) == Some((module, Some(local))) {
            assert(scope =~= dotted(module, local));
        }
    }
}

} // verus!
