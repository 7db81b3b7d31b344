//! What relative names of modules denote.

use crate::importlib::{relative_name, without_last};
use crate::module_name::{dotted, glue_then_split, parent_of};
use vstd::prelude::*;

verus! {

/// A name without dots before it is not relative.
pub proof fn plain_names_are_not_relative(module: Seq<char>, is_init: bool, name: Seq<char>)
    ensures
        relative_name(module, is_init, 0, Some(name)) == Some(name),
{
}

/// In a package one dot stands for the package, and in a module for the package that it is in. Each
/// further dot goes up by one package.
pub proof fn dots_go_up(package: Seq<char>, leaf: Seq<char>, dots: nat, name: Seq<char>, is_init: bool)
    requires
        !leaf.contains('.'),
        package.len() > 0,
    ensures
        relative_name(package, true, 1, Some(name)) == Some(dotted(package, name)),
        relative_name(package, true, 1, None) == Some(package),
        relative_name(dotted(package, leaf), false, 1, Some(name)) == Some(dotted(package, name)),
        relative_name(dotted(package, leaf), false, 1, None) == Some(package),
        dots > 0 ==> relative_name(dotted(package, leaf), is_init, dots + 1, Some(name)) == relative_name(
            package,
            is_init,
            dots,
            Some(name),
        ),
        relative_name(dotted(package, leaf), false, dots + 1, Some(name)) == relative_name(
            package,
            true,
            dots + 1,
            Some(name),
        ),
{
    let module = dotted(package, leaf);
    glue_then_split(package, leaf);
    assert(parent_of(module) == Some(package));
    assert(without_last(package, 0) == Some(package));
    assert(without_last(module, 1) == without_last(package, 0));
    assert(without_last(module, dots + 1) == without_last(package, dots));
    if dots > 0 {
        assert(without_last(module, dots) == without_last(package, (dots - 1) as nat));
    }
}

/// Dots that go up beyond the outermost package denote nothing.
pub proof fn too_many_dots_denote_nothing(module: Seq<char>, dots: nat, suffix: Option<Seq<char>>)
    requires
        module.len() > 0,
        !module.contains('.'),
        dots >= 2,
    ensures
        relative_name(module, false, dots, suffix) is None,
        relative_name(module, true, dots + 1, suffix) is None,
{
    if parent_of(module) is Some {
        crate::module_name::lemma_last_dot(module);
        let d = crate::module_name::last_dot(module);
        assert(module[d] == '.');
    }
    assert(without_last(Seq::empty(), (dots - 1) as nat) is None);
    assert(without_last(module, dots) == without_last(Seq::empty(), (dots - 1) as nat));
}

} // verus!
