//! Which module a file holds, which of its files counts, and which paths a manifest lists.

use crate::manifest::{filled_lines, line_at, listed_paths};
use crate::module_name::{dotted, ends_with, glue_then_split};
use crate::source_map::{module_in, pieces, priority};
use crate::text::joined;
use vstd::prelude::*;

verus! {

/// A path ends with a text.
pub open spec fn has_end(path: Seq<char>, end: Seq<char>) -> bool {
    path.len() >= end.len() && path.skip(path.len() - end.len()) == end
}

/// Of the files of a module a stub counts before a source, and of two stubs or two sources the one of a
/// package before the other. Only stubs and sources count.
pub proof fn stubs_and_packages_come_first(a: Seq<char>, b: Seq<char>)
    ensures
        priority(a) is Some <==> has_end(a, ".pyi"@) || has_end(a, ".py"@),
        has_end(a, ".pyi"@) && has_end(b, ".py"@) && !has_end(b, ".pyi"@) ==> priority(a)->0 < priority(b)->0,
        has_end(a, "__init__.pyi"@) && has_end(b, ".pyi"@) && !has_end(b, "__init__.pyi"@) ==> priority(a)->0
            < priority(b)->0,
        has_end(a, "__init__.py"@) && has_end(b, ".py"@) && !has_end(b, "__init__.py"@) && !has_end(b, ".pyi"@)
            && !has_end(a, ".pyi"@) ==> priority(a)->0 < priority(b)->0,
{
    lemma_ends(a);
    lemma_ends(b);
}

proof fn lemma_ends(path: Seq<char>)
    ensures
        ends_with(path, "__init__.pyi"@) == has_end(path, "__init__.pyi"@),
        ends_with(path, ".pyi"@) == has_end(path, ".pyi"@),
        ends_with(path, "__init__.py"@) == has_end(path, "__init__.py"@),
        ends_with(path, ".py"@) == has_end(path, ".py"@),
        has_end(path, "__init__.pyi"@) ==> has_end(path, ".pyi"@),
        has_end(path, "__init__.py"@) ==> has_end(path, ".py"@),
{
    reveal_strlit("__init__.pyi");
    reveal_strlit(".pyi");
    reveal_strlit("__init__.py");
    reveal_strlit(".py");
    let n = path.len() as int;
    if has_end(path, "__init__.pyi"@) {
        let end = path.skip(n - 12);
        assert(path.skip(n - 4) =~= end.skip(8));
        assert(end.skip(8) =~= ".pyi"@);
    }
    if has_end(path, "__init__.py"@) {
        let end = path.skip(n - 11);
        assert(path.skip(n - 3) =~= end.skip(8));
        assert(end.skip(8) =~= ".py"@);
    }
}

/// The file of a package holds the module that its directory names, and any other file the one that it
/// names itself, in its directories. A file that is neither a source nor a stub holds none.
pub proof fn files_hold_the_modules_that_they_name(dirs: Seq<Seq<char>>, stem: Seq<char>, kind: Seq<char>)
    requires
        !kind.contains('.'),
    ensures
        ({
            let file = dotted(stem, kind);
            let module = module_in(dirs.push(file));
            &&& (kind == "py"@ || kind == "pyi"@) && stem == "__init__"@ ==> module == Some(joined(dirs, "."@))
            &&& (kind == "py"@ || kind == "pyi"@) && stem != "__init__"@ ==> module == Some(
                joined(dirs.push(stem), "."@),
            )
            &&& kind != "py"@ && kind != "pyi"@ ==> module is None
        }),
{
    let file = dotted(stem, kind);
    glue_then_split(stem, kind);
    assert(dirs.push(file).last() == file);
    assert(dirs.push(file).drop_last() =~= dirs);
}

proof fn lemma_filled(parts: Seq<Seq<char>>, n: int, x: Seq<char>)
    requires
        0 <= n <= parts.len(),
    ensures
        filled_lines(parts, n).contains(x) <==> x.len() > 0 && exists|i: int| 0 <= i < n && #[trigger] line_at(parts, i) == x,
    decreases n,
{
    if n > 0 {
        lemma_filled(parts, n - 1, x);
        let before = filled_lines(parts, n - 1);
        let after = filled_lines(parts, n);
        let line = line_at(parts, n - 1);
        if line.len() > 0 {
            assert(after == before.push(line));
            assert(after.last() == line);
            if before.contains(x) {
                assert(after[before.index_of(x)] == x);
            }
            if after.contains(x) && x != line {
                assert(before[after.index_of(x)] == x);
            }
        }
    }
}

/// A manifest lists a path for each of its lines that is not empty. A carriage return in front of the end
/// of a line is no part of it.
pub proof fn manifests_list_their_lines(manifest: Seq<char>, path: Seq<char>)
    ensures
        ({
            let parts = pieces(manifest, '\n');
            listed_paths(manifest).contains(path) <==> path.len() > 0 && exists|i: int|
                0 <= i < parts.len() && is_line(parts, i, path)
        }),
{
    let parts = pieces(manifest, '\n');
    lemma_filled(parts, parts.len() as int, path);
    assert forall|i: int| #![trigger is_line(parts, i, path)]
        0 <= i < parts.len() implies (is_line(parts, i, path) <==> line_at(parts, i) == path) by {
        let part = parts[i];
        if i < parts.len() - 1 && part == path.push('\r') {
            assert(part.last() == '\r');
            assert(part.drop_last() =~= path);
        }
        if line_at(parts, i) == path && i < parts.len() - 1 && part.len() > 0 && part.last() == '\r' {
            assert(part =~= path.push('\r'));
        }
    }
    if exists|i: int| 0 <= i < parts.len() && #[trigger] line_at(parts, i) == path {
        let i = choose|i: int| 0 <= i < parts.len() && #[trigger] line_at(parts, i) == path;
        assert(is_line(parts, i, path));
    }
}

/// A piece of a text between two line feeds is a line.
pub open spec fn is_line(parts: Seq<Seq<char>>, i: int, line: Seq<char>) -> bool {
    if i == parts.len() - 1 {
        parts[i] == line
    } else {
        parts[i] == line.push('\r') || (parts[i] == line && !(line.len() > 0 && line.last() == '\r'))
    }
}

} // verus!
