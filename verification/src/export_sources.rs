//! What a module gives to others: its definitions, what it imports by name, and what its `__all__` lists.

use crate::ast::ParsedModule;
use crate::attribute::full_name;
use crate::definitions::{EntryView, StyleView, SymbolKind};
use crate::definitions_builder::{scope_definitions, ScopeAt};
use crate::exports::{merged_exports, ExportType, ExportsView};
use crate::exports_builder::{all_after, differs_from, module_exports};
use crate::module_name::dotted;
use crate::sys_info::SysInfo;
use vstd::prelude::*;

verus! {

/// Where the definitions of a module as a whole stand.
pub open spec fn top_level(parsed: &ParsedModule, sys: SysInfo) -> ScopeAt {
    ScopeAt { module: parsed.name@, is_init: parsed.is_init, sys, main: None }
}

/// A name that a module defines as a class, as a function or as something else is exported as that, and a
/// name that it imports or makes otherwise is not.
pub proof fn definitions_are_exported(
    parsed: &ParsedModule,
    sys: SysInfo,
    modules: Set<Seq<char>>,
    local: Seq<char>,
)
    ensures
        ({
            let defs = scope_definitions(top_level(parsed, sys), parsed.body@).definitions;
            let exports = module_exports(parsed, sys, modules).exports;
            let name = dotted(parsed.name@, local);
            &&& exports.contains_key(name) <==> defs.contains_key(local) && (defs[local].style is Annotated
                || defs[local].style is Unannotated)
            &&& exports.contains_key(name) ==> (exports[name] == ExportType::Class <==> defs[local].style
                == StyleView::Annotated(SymbolKind::Class) || defs[local].style == StyleView::Unannotated(
                SymbolKind::Class,
            ))
            &&& exports.contains_key(name) ==> (exports[name] == ExportType::Function <==> defs[local].style
                == StyleView::Annotated(SymbolKind::Function) || defs[local].style == StyleView::Unannotated(
                SymbolKind::Function,
            ) || defs[local].style == StyleView::Annotated(SymbolKind::Method) || defs[local].style
                == StyleView::Unannotated(SymbolKind::Method))
            &&& exports.contains_key(name) ==> exports[name] == ExportType::Class || exports[name]
                == ExportType::Function || exports[name] == ExportType::Global
        }),
{
    let name = dotted(parsed.name@, local);
    assert(name.skip(parsed.name@.len() as int + 1) =~= local);
}

/// What a module exports under a full name is a name of its own.
pub proof fn exports_are_names_of_the_module(
    parsed: &ParsedModule,
    sys: SysInfo,
    modules: Set<Seq<char>>,
    name: Seq<char>,
)
    requires
        module_exports(parsed, sys, modules).exports.contains_key(name),
    ensures
        exists|local: Seq<char>| name == #[trigger] dotted(parsed.name@, local),
{
    let local = name.skip(parsed.name@.len() as int + 1);
    assert(name == dotted(parsed.name@, local));
}

/// What a module imports by name from another is re-exported, under the name that it has in the module and
/// with what it is there, unless it is a module that is known.
pub proof fn imported_names_are_re_exported(
    parsed: &ParsedModule,
    sys: SysInfo,
    modules: Set<Seq<char>>,
    name: Seq<char>,
    source: (Seq<char>, Seq<char>),
)
    ensures
        ({
            let defs = scope_definitions(top_level(parsed, sys), parsed.body@).definitions;
            let re_exports = module_exports(parsed, sys, modules).re_exports;
            let key = (parsed.name@, name);
            re_exports.contains_key(key) && re_exports[key].0 == source <==> defs.contains_key(name) && (
            defs[name].style == StyleView::ImportAs(source.0, source.1) || (source.1 == name && (defs[name].style
                == StyleView::Import(source.0) || defs[name].style == StyleView::ImportAsEq(source.0))))
                && !modules.contains(full_name(source))
        }),
{
}

/// What a module re-exports is its own.
pub proof fn re_exports_are_of_the_module(
    parsed: &ParsedModule,
    sys: SysInfo,
    modules: Set<Seq<char>>,
    key: (Seq<char>, Seq<char>),
)
    requires
        module_exports(parsed, sys, modules).re_exports.contains_key(key),
    ensures
        key.0 == parsed.name@,
        module_exports(parsed, sys, modules).re_exports[key].1 == scope_definitions(
            top_level(parsed, sys),
            parsed.body@,
        ).definitions[key.1].range,
{
}

proof fn lemma_without(s: Seq<Seq<char>>, gone: Seq<char>, name: Seq<char>)
    ensures
        s.filter(differs_from(gone)).contains(name) <==> s.contains(name) && name != gone,
    decreases s.len(),
{
    reveal(Seq::filter);
    if s.len() > 0 {
        let front = s.drop_last();
        lemma_without(front, gone, name);
        let before = front.filter(differs_from(gone));
        let after = s.filter(differs_from(gone));
        if s.last() != gone {
            assert(after == before.push(s.last()));
            assert(after.last() == s.last());
            if before.contains(name) {
                assert(after[before.index_of(name)] == name);
            }
            if after.contains(name) && name != s.last() {
                assert(before[after.index_of(name)] == name);
            }
        } else {
            assert(after == before);
        }
        if front.contains(name) {
            assert(s[front.index_of(name)] == name);
        }
        if s.contains(name) && name != s.last() {
            assert(front[s.index_of(name)] == name);
        }
    }
}

proof fn lemma_all_after(entries: Seq<EntryView>, n: int, name: Seq<char>)
    requires
        0 <= n <= entries.len(),
    ensures
        all_after(entries, n).contains(name) <==> exists|i: int|
            0 <= i < n && #[trigger] entries[i] == EntryView::Name(name) && forall|j: int|
                i < j < n ==> #[trigger] entries[j] != EntryView::Remove(name),
    decreases n,
{
    if n > 0 {
        lemma_all_after(entries, n - 1, name);
        let before = all_after(entries, n - 1);
        let after = all_after(entries, n);
        match entries[n - 1] {
            EntryView::Name(added) => {
                assert(after == before.push(added));
                assert(after.last() == added);
                if before.contains(name) {
                    assert(after[before.index_of(name)] == name);
                }
                if after.contains(name) && name != added {
                    assert(before[after.index_of(name)] == name);
                }
            },
            EntryView::Remove(gone) => {
                lemma_without(before, gone, name);
            },
            EntryView::Module(_) => {},
        }
        if after.contains(name) && before.contains(name) {
            let i = choose|i: int|
                0 <= i < n - 1 && #[trigger] entries[i] == EntryView::Name(name) && forall|j: int|
                    i < j < n - 1 ==> #[trigger] entries[j] != EntryView::Remove(name);
            assert(entries[i] == EntryView::Name(name));
            assert(entries[n - 1] != EntryView::Remove(name) || entries[n - 1] == EntryView::Name(name));
        }
    }
}

/// The names that `__all__` lists are those that are added to it and not taken out again afterwards.
pub proof fn all_lists_what_is_added_and_not_removed(
    parsed: &ParsedModule,
    sys: SysInfo,
    modules: Set<Seq<char>>,
    name: Seq<char>,
)
    ensures
        ({
            let entries = scope_definitions(top_level(parsed, sys), parsed.body@).dunder_all;
            let all = module_exports(parsed, sys, modules).all;
            &&& all.contains_key(parsed.name@) <==> entries.len() > 0
            &&& entries.len() > 0 ==> (all[parsed.name@].contains(name) <==> exists|i: int|
                0 <= i < entries.len() && #[trigger] entries[i] == EntryView::Name(name) && forall|j: int|
                    i < j < entries.len() ==> #[trigger] entries[j] != EntryView::Remove(name))
        }),
{
    let entries = scope_definitions(top_level(parsed, sys), parsed.body@).dunder_all;
    lemma_all_after(entries, entries.len() as int, name);
}

/// A part that is merged, behind which no other speaks of the same, decides what is exported, re-exported
/// and listed; what no part speaks of is not there.
pub proof fn the_last_part_decides(
    parts: Seq<ExportsView>,
    i: int,
    name: Seq<char>,
    key: (Seq<char>, Seq<char>),
)
    requires
        0 <= i < parts.len(),
    ensures
        ({
            let all = merged_exports(parts);
            &&& parts[i].exports.contains_key(name) ==> all.exports.contains_key(name)
            &&& parts[i].re_exports.contains_key(key) ==> all.re_exports.contains_key(key)
            &&& parts[i].all.contains_key(name) ==> all.all.contains_key(name)
            &&& parts[i].return_types.contains_key(name) ==> all.return_types.contains_key(name)
            &&& parts[i].exports.contains_key(name) && (forall|j: int|
                i < j < parts.len() ==> !(#[trigger] parts[j]).exports.contains_key(name)) ==> all.exports[name]
                == parts[i].exports[name]
            &&& parts[i].re_exports.contains_key(key) && (forall|j: int|
                i < j < parts.len() ==> !(#[trigger] parts[j]).re_exports.contains_key(key)) ==> all.re_exports[key]
                == parts[i].re_exports[key]
            &&& parts[i].all.contains_key(name) && (forall|j: int|
                i < j < parts.len() ==> !(#[trigger] parts[j]).all.contains_key(name)) ==> all.all[name]
                == parts[i].all[name]
            &&& parts[i].return_types.contains_key(name) && (forall|j: int|
                i < j < parts.len() ==> !(#[trigger] parts[j]).return_types.contains_key(name))
                ==> all.return_types[name] == parts[i].return_types[name]
        }),
    decreases parts.len(),
{
    let front = parts.drop_last();
    if i < front.len() {
        the_last_part_decides(front, i, name, key);
        assert(parts.last() == parts[parts.len() - 1]);
        assert forall|j: int| i < j < front.len() implies front[j] == #[trigger] parts[j] by {}
        assert forall|j: int| #![trigger front[j]] i < j < front.len() implies front[j] == parts[j] by {}
    }
}

/// What several sets of modules export together, re-export and list, one of them does.
pub proof fn parts_bring_all(parts: Seq<ExportsView>, name: Seq<char>, key: (Seq<char>, Seq<char>))
    ensures
        merged_exports(parts).exports.contains_key(name) ==> exists|i: int|
            0 <= i < parts.len() && (#[trigger] parts[i]).exports.contains_key(name),
        merged_exports(parts).re_exports.contains_key(key) ==> exists|i: int|
            0 <= i < parts.len() && (#[trigger] parts[i]).re_exports.contains_key(key),
        merged_exports(parts).all.contains_key(name) ==> exists|i: int|
            0 <= i < parts.len() && (#[trigger] parts[i]).all.contains_key(name),
        merged_exports(parts).return_types.contains_key(name) ==> exists|i: int|
            0 <= i < parts.len() && (#[trigger] parts[i]).return_types.contains_key(name),
    decreases parts.len(),
{
    if parts.len() > 0 {
        let front = parts.drop_last();
        parts_bring_all(front, name, key);
        assert(parts.last() == parts[parts.len() - 1]);
        assert forall|i: int| #![trigger front[i]] 0 <= i < front.len() implies front[i] == parts[i] by {}
    }
}

} // verus!
