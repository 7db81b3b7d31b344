//! How verdicts on functions spread through re-exports.

use crate::attribute::Attribute;
use crate::graph::{is_walk, reaches};
use crate::module_name::ModuleName;
use crate::module_safety::{FunctionInfoView, FunctionSafetyInfo};
use crate::name_set::NameSet;
use crate::verdicts::{verdicts, FunctionTable, Verdicts};
use vstd::prelude::*;

verus! {

/// A re-export, as a cache keeps it: an attribute, and what it is imported from.
pub struct CachedReExport {
    pub exported_module: ModuleName,
    pub exported_attr: String,
    pub imported_module: ModuleName,
    pub imported_attr: String,
}

/// What a [`CachedReExport`] is.
pub struct ReExportView {
    pub exported: (Seq<char>, Seq<char>),
    pub imported: (Seq<char>, Seq<char>),
}

impl DeepView for CachedReExport {
    type V = ReExportView;

    open spec fn deep_view(&self) -> ReExportView {
        ReExportView {
            exported: (self.exported_module@, self.exported_attr@),
            imported: (self.imported_module@, self.imported_attr@),
        }
    }
}

/// One attribute is re-exported from another, by a module that is there.
pub open spec fn re_exports_from(
    re_exports: Seq<ReExportView>,
    modules: Set<Seq<char>>,
    a: (Seq<char>, Seq<char>),
    b: (Seq<char>, Seq<char>),
) -> bool {
    modules.contains(a.0) && exists|i: int|
        0 <= i < re_exports.len() && #[trigger] re_exports[i] == (ReExportView {
            exported: a,
            imported: b,
        })
}

/// The re-exports as a relation.
pub open spec fn re_export_relation(re_exports: Seq<ReExportView>, modules: Set<Seq<char>>) -> spec_fn(
    (Seq<char>, Seq<char>),
    (Seq<char>, Seq<char>),
) -> bool {
    |a: (Seq<char>, Seq<char>), b: (Seq<char>, Seq<char>)| re_exports_from(re_exports, modules, a, b)
}

/// A chain of re-exports, of any length, leads from one attribute to another.
pub open spec fn leads_to(
    re_exports: Seq<ReExportView>,
    modules: Set<Seq<char>>,
    a: (Seq<char>, Seq<char>),
    b: (Seq<char>, Seq<char>),
) -> bool {
    reaches(re_export_relation(re_exports, modules), a, b)
}

/// Every entry is one that was there before, at the end of some chain of re-exports. An entry gives
/// way to a safer one only.
pub open spec fn spread_from(
    re_exports: Seq<ReExportView>,
    modules: Set<Seq<char>>,
    before: Verdicts,
    after: Verdicts,
) -> bool {
    &&& forall|a: (Seq<char>, Seq<char>)| #[trigger]
        after.contains_key(a) ==> comes_from(re_exports, modules, before, after[a], a)
    &&& forall|a: (Seq<char>, Seq<char>)| #[trigger] stays_or_safer(before, after, a)
}

/// An entry that was there before is as it was, or safer.
pub open spec fn stays_or_safer(before: Verdicts, after: Verdicts, a: (Seq<char>, Seq<char>)) -> bool {
    before.contains_key(a) ==> after.contains_key(a) && (after[a] == before[a] || after[a].verdict.place() < before[a].verdict.place())
}

/// An entry is one that was there before, at the end of some chain of re-exports.
pub open spec fn comes_from(
    re_exports: Seq<ReExportView>,
    modules: Set<Seq<char>>,
    before: Verdicts,
    info: FunctionInfoView,
    a: (Seq<char>, Seq<char>),
) -> bool {
    exists|b: (Seq<char>, Seq<char>)| #[trigger]
        leads_to(re_exports, modules, a, b) && before.contains_key(b) && before[b] == info
}

/// An attribute has an entry where some chain of re-exports leads to one, and its verdict is no
/// worse than any that a chain leads to.
pub open spec fn spread_to(
    re_exports: Seq<ReExportView>,
    modules: Set<Seq<char>>,
    before: Verdicts,
    after: Verdicts,
) -> bool {
    forall|a: (Seq<char>, Seq<char>), b: (Seq<char>, Seq<char>)| #[trigger]
        leads_to(re_exports, modules, a, b) && before.contains_key(b) ==> after.contains_key(a)
            && after[a].verdict.place() <= before[b].verdict.place()
}

/// How much a re-export may still change.
spec fn room(table: Verdicts, a: (Seq<char>, Seq<char>)) -> int {
    if table.contains_key(a) {
        table[a].verdict.place()
    } else {
        4
    }
}

/// How much the first few re-exports may still change.
spec fn total_room(table: Verdicts, re_exports: Seq<ReExportView>) -> int
    decreases re_exports.len(),
{
    if re_exports.len() == 0 {
        0
    } else {
        total_room(table, re_exports.drop_last()) + room(table, re_exports.last().exported)
    }
}

proof fn lemma_room_shrinks(before: Verdicts, after: Verdicts, re_exports: Seq<ReExportView>, i: int)
    requires
        forall|a: (Seq<char>, Seq<char>)| #[trigger] room(after, a) <= room(before, a),
        0 <= i < re_exports.len() ==> room(after, re_exports[i].exported) < room(
            before,
            re_exports[i].exported,
        ),
    ensures
        0 <= total_room(after, re_exports) <= total_room(before, re_exports),
        0 <= i < re_exports.len() ==> total_room(after, re_exports) < total_room(before, re_exports),
    decreases re_exports.len(),
{
    if re_exports.len() > 0 {
        let fewer = re_exports.drop_last();
        if i < fewer.len() {
            assert(0 <= i ==> fewer[i] == re_exports[i]);
            lemma_room_shrinks(before, after, fewer, i);
        } else {
            lemma_room_shrinks(before, after, fewer, -1);
        }
        assert(room(after, re_exports.last().exported) <= room(before, re_exports.last().exported));
    }
}

proof fn lemma_one_more_step(
    re_exports: Seq<ReExportView>,
    modules: Set<Seq<char>>,
    a: (Seq<char>, Seq<char>),
    b: (Seq<char>, Seq<char>),
    c: (Seq<char>, Seq<char>),
)
    requires
        re_exports_from(re_exports, modules, a, b),
        leads_to(re_exports, modules, b, c),
    ensures
        leads_to(re_exports, modules, a, c),
{
    let relation = re_export_relation(re_exports, modules);
    let walk = choose|walk: Seq<(Seq<char>, Seq<char>)>| #[trigger]
        is_walk(relation, walk) && walk.first() == b && walk.last() == c;
    let longer = seq![a] + walk;
    assert forall|i: int| 0 <= i < longer.len() - 1 implies relation(#[trigger] longer[i], longer[i + 1]) by {
        if i == 0 {
            assert(longer[1] == walk[0]);
        } else {
            assert(longer[i] == walk[i - 1]);
            assert(longer[i + 1] == walk[i]);
        }
    }
    assert(is_walk(relation, longer));
    assert(longer.last() == walk.last());
}

proof fn lemma_no_step(
    re_exports: Seq<ReExportView>,
    modules: Set<Seq<char>>,
    a: (Seq<char>, Seq<char>),
)
    ensures
        leads_to(re_exports, modules, a, a),
{
    let relation = re_export_relation(re_exports, modules);
    assert(is_walk(relation, seq![a]));
}

/// No re-export gives its attribute a better verdict.
spec fn at_rest(re_exports: Seq<ReExportView>, modules: Set<Seq<char>>, table: Verdicts) -> bool {
    forall|i: int|
        0 <= i < re_exports.len() ==> rests(#[trigger] re_exports[i], modules, table)
}

spec fn rests(re: ReExportView, modules: Set<Seq<char>>, table: Verdicts) -> bool {
    modules.contains(re.exported.0) && table.contains_key(re.imported) ==> table.contains_key(
        re.exported,
    ) && table[re.exported].verdict.place() <= table[re.imported].verdict.place()
}

proof fn lemma_rest_is_spread(
    re_exports: Seq<ReExportView>,
    modules: Set<Seq<char>>,
    before: Verdicts,
    after: Verdicts,
)
    requires
        at_rest(re_exports, modules, after),
        forall|a: (Seq<char>, Seq<char>)| #[trigger] room(after, a) <= room(before, a),
    ensures
        spread_to(re_exports, modules, before, after),
{
    let relation = re_export_relation(re_exports, modules);
    assert forall|a: (Seq<char>, Seq<char>), b: (Seq<char>, Seq<char>)| #[trigger]
        leads_to(re_exports, modules, a, b) && before.contains_key(b) implies after.contains_key(a)
        && after[a].verdict.place() <= before[b].verdict.place() by {
        let walk = choose|walk: Seq<(Seq<char>, Seq<char>)>| #[trigger]
            is_walk(relation, walk) && walk.first() == a && walk.last() == b;
        lemma_rest_along(re_exports, modules, before, after, walk);
    }
}

proof fn lemma_rest_along(
    re_exports: Seq<ReExportView>,
    modules: Set<Seq<char>>,
    before: Verdicts,
    after: Verdicts,
    walk: Seq<(Seq<char>, Seq<char>)>,
)
    requires
        at_rest(re_exports, modules, after),
        forall|a: (Seq<char>, Seq<char>)| #[trigger] room(after, a) <= room(before, a),
        is_walk(re_export_relation(re_exports, modules), walk),
        before.contains_key(walk.last()),
    ensures
        after.contains_key(walk.first()),
        after[walk.first()].verdict.place() <= before[walk.last()].verdict.place(),
    decreases walk.len(),
{
    let relation = re_export_relation(re_exports, modules);
    assert(room(after, walk.last()) <= room(before, walk.last()));
    if walk.len() > 1 {
        let rest = walk.skip(1);
        assert forall|i: int| 0 <= i < rest.len() - 1 implies relation(#[trigger] rest[i], rest[i + 1]) by {
            assert(relation(walk[i + 1], walk[i + 2]));
        }
        assert(rest.last() == walk.last());
        lemma_rest_along(re_exports, modules, before, after, rest);
        assert(relation(walk[0], walk[1]));
        let i = choose|i: int|
            0 <= i < re_exports.len() && #[trigger] re_exports[i] == (ReExportView {
                exported: walk[0],
                imported: walk[1],
            });
        assert(rests(re_exports[i], modules, after));
        assert(rest.first() == walk[1]);
    }
}

/// Spreads verdicts through re-exports. An attribute that is re-exported gets what is known of
/// the function that it is imported from, where nothing is known of it yet or that function is
/// safer, until nothing changes.
pub fn spread_verdicts(table: &mut FunctionTable, re_exports: &Vec<CachedReExport>, modules: &NameSet)
    ensures
        spread_from(re_exports.deep_view(), modules@, verdicts(old(table)), verdicts(final(table))),
        spread_to(re_exports.deep_view(), modules@, verdicts(old(table)), verdicts(final(table))),
{
    let ghost before = verdicts(table);
    let ghost list = re_exports.deep_view();
    let ghost known = modules@;
    proof {
        assert forall|a: (Seq<char>, Seq<char>)| #[trigger] before.contains_key(a) implies comes_from(
            list,
            known,
            before,
            before[a],
            a,
        ) by {
            lemma_no_step(list, known, a);
        }
    }
    let mut changed = true;
    while changed
        invariant
            list == re_exports.deep_view(),
            known == modules@,
            before == verdicts(old(table)),
            spread_from(list, known, before, verdicts(table)),
            forall|a: (Seq<char>, Seq<char>)| #[trigger] room(verdicts(table), a) <= room(before, a),
            !changed ==> at_rest(list, known, verdicts(table)),
        decreases total_room(verdicts(table), list), (if changed { 1int } else { 0int }),
    {
        changed = false;
        let ghost start = verdicts(table);
        for i in 0..re_exports.len()
            invariant
                list == re_exports.deep_view(),
                known == modules@,
                spread_from(list, known, before, verdicts(table)),
                forall|a: (Seq<char>, Seq<char>)| #[trigger] room(verdicts(table), a) <= room(before, a),
                forall|a: (Seq<char>, Seq<char>)| #[trigger] room(verdicts(table), a) <= room(start, a),
                changed ==> total_room(verdicts(table), list) < total_room(start, list),
                !changed ==> verdicts(table) == start && forall|j: int|
                    0 <= j < i ==> rests(#[trigger] list[j], known, start),
        {
            let re = &re_exports[i];
            let ghost now = verdicts(table);
            let ghost target = list[i as int].exported;
            let ghost source = list[i as int].imported;
            proof {
                assert(list[i as int] == re.deep_view());
                assert(table@.dom() =~= now.dom());
            }
            let found: Option<FunctionSafetyInfo> = match table.get_in(
                &re.imported_module,
                re.imported_attr.as_str(),
            ) {
                Some(info) => Some(info.clone()),
                None => None,
            };
            if let Some(info) = found {
                if modules.contains(&re.exported_module) {
                    let better = match table.get_in(&re.exported_module, re.exported_attr.as_str()) {
                        None => true,
                        Some(current) => current.verdict.is_worse_than(info.verdict),
                    };
                    if better {
                        let ghost view = info.deep_view();
                        table.insert(
                            Attribute {
                                module: re.exported_module.clone(),
                                attr: re.exported_attr.clone(),
                            },
                            info,
                        );
                        changed = true;
                        proof {
                            let after = verdicts(table);
                            assert(view == now[source]);
                            assert(after =~= now.insert(target, view));
                            assert(re_exports_from(list, known, target, source)) by {
                                assert(list[i as int] == (ReExportView {
                                    exported: target,
                                    imported: source,
                                }));
                            }
                            assert(comes_from(list, known, before, now[source], source));
                            let origin = choose|b: (Seq<char>, Seq<char>)| #[trigger]
                                leads_to(list, known, source, b) && before.contains_key(b) && before[b]
                                    == now[source];
                            lemma_one_more_step(list, known, target, source, origin);
                            assert(comes_from(list, known, before, view, target));
                            assert forall|a: (Seq<char>, Seq<char>)| #[trigger]
                                stays_or_safer(before, after, a) by {
                                assert(stays_or_safer(before, now, a));
                            }
                            assert forall|a: (Seq<char>, Seq<char>)| #[trigger]
                                room(after, a) <= room(now, a) by {}
                            assert(room(after, target) < room(now, target));
                            lemma_room_shrinks(now, after, list, i as int);
                            lemma_room_shrinks(start, now, list, -1);
                            assert forall|a: (Seq<char>, Seq<char>)| #[trigger]
                                room(after, a) <= room(start, a) by {
                                assert(room(now, a) <= room(start, a));
                            }
                            assert forall|a: (Seq<char>, Seq<char>)| #[trigger]
                                room(after, a) <= room(before, a) by {
                                assert(room(now, a) <= room(before, a));
                            }
                        }
                    }
                }
            }
        }
        proof {
            lemma_room_shrinks(start, verdicts(table), list, -1);
        }
    }
    proof {
        lemma_rest_is_spread(list, known, before, verdicts(table));
    }
}

/// Two chains of re-exports, one behind the other, are one.
proof fn lemma_leads_on(
    re_exports: Seq<ReExportView>,
    modules: Set<Seq<char>>,
    walk: Seq<(Seq<char>, Seq<char>)>,
    c: (Seq<char>, Seq<char>),
)
    requires
        is_walk(re_export_relation(re_exports, modules), walk),
        leads_to(re_exports, modules, walk.last(), c),
    ensures
        leads_to(re_exports, modules, walk.first(), c),
    decreases walk.len(),
{
    let relation = re_export_relation(re_exports, modules);
    if walk.len() > 1 {
        let rest = walk.skip(1);
        assert forall|i: int| 0 <= i < rest.len() - 1 implies relation(#[trigger] rest[i], rest[i + 1]) by {
            assert(relation(walk[i + 1], walk[i + 2]));
        }
        assert(rest.last() == walk.last());
        lemma_leads_on(re_exports, modules, rest, c);
        assert(relation(walk[0], walk[1]));
        lemma_one_more_step(re_exports, modules, walk[0], walk[1], c);
    }
}

/// Once verdicts have spread through re-exports, spreading them again changes nothing.
pub proof fn spreading_again_changes_nothing(
    re_exports: Seq<ReExportView>,
    modules: Set<Seq<char>>,
    before: Verdicts,
    after: Verdicts,
    again: Verdicts,
)
    requires
        spread_from(re_exports, modules, before, after),
        spread_to(re_exports, modules, before, after),
        spread_from(re_exports, modules, after, again),
        spread_to(re_exports, modules, after, again),
    ensures
        again == after,
{
    let relation = re_export_relation(re_exports, modules);
    assert forall|a: (Seq<char>, Seq<char>)| again.contains_key(a) <==> after.contains_key(a) by {
        if after.contains_key(a) {
            assert(stays_or_safer(after, again, a));
        }
        if again.contains_key(a) {
            lemma_after_is_best(re_exports, modules, before, after, again, a);
        }
    }
    assert forall|a: (Seq<char>, Seq<char>)| again.contains_key(a) implies #[trigger] again[a] == after[a] by {
        lemma_after_is_best(re_exports, modules, before, after, again, a);
        assert(stays_or_safer(after, again, a));
    }
    assert(again =~= after);
}

proof fn lemma_after_is_best(
    re_exports: Seq<ReExportView>,
    modules: Set<Seq<char>>,
    before: Verdicts,
    after: Verdicts,
    again: Verdicts,
    a: (Seq<char>, Seq<char>),
)
    requires
        spread_from(re_exports, modules, before, after),
        spread_to(re_exports, modules, before, after),
        spread_from(re_exports, modules, after, again),
        again.contains_key(a),
    ensures
        after.contains_key(a),
        after[a].verdict.place() <= again[a].verdict.place(),
{
    let relation = re_export_relation(re_exports, modules);
    assert(comes_from(re_exports, modules, after, again[a], a));
    let b = choose|b: (Seq<char>, Seq<char>)| #[trigger]
        leads_to(re_exports, modules, a, b) && after.contains_key(b) && after[b] == again[a];
    assert(comes_from(re_exports, modules, before, after[b], b));
    let c = choose|c: (Seq<char>, Seq<char>)| #[trigger]
        leads_to(re_exports, modules, b, c) && before.contains_key(c) && before[c] == after[b];
    let walk = choose|walk: Seq<(Seq<char>, Seq<char>)>| #[trigger]
        is_walk(relation, walk) && walk.first() == a && walk.last() == b;
    lemma_leads_on(re_exports, modules, walk, c);
    assert(leads_to(re_exports, modules, a, c));
}

/// What has an entry once verdicts have spread had one before, or is re-exported by a module that is
/// there.
pub proof fn lemma_spread_modules(
    re_exports: Seq<ReExportView>,
    modules: Set<Seq<char>>,
    before: Verdicts,
    after: Verdicts,
    a: (Seq<char>, Seq<char>),
)
    requires
        spread_from(re_exports, modules, before, after),
        after.contains_key(a),
    ensures
        before.contains_key(a) || modules.contains(a.0),
{
    let relation = re_export_relation(re_exports, modules);
    assert(comes_from(re_exports, modules, before, after[a], a));
    let b = choose|b: (Seq<char>, Seq<char>)| #[trigger]
        leads_to(re_exports, modules, a, b) && before.contains_key(b) && before[b] == after[a];
    let walk = choose|walk: Seq<(Seq<char>, Seq<char>)>| #[trigger]
        is_walk(relation, walk) && walk.first() == a && walk.last() == b;
    if walk.len() > 1 {
        assert(relation(walk[0], walk[1]));
    }
}

} // verus!
