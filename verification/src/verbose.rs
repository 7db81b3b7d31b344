//! The verbose report on each module, and a result as it is written out.

use crate::errors::{error_order_is_total, error_order_is_transitive, ErrorView, SafetyError};
use crate::lazy_eligible::cycle_views;
use crate::module_name::{
    compare_text, in_text_order, sort_names, text_less, text_order_is_total,
    text_order_is_transitive, texts, ModuleName,
};
use crate::module_safety::{ModuleSafety, SafetyResult, SafetyView};
use crate::name_map::{Duplicate, NameMap};
use crate::name_set::NameSet;
use crate::name_sets::NameSets;
use crate::output::LifeGuardOutput;
use crate::text::{decimal, decimal_text, line_number, line_of};
use vstd::prelude::*;
use vstd::string::*;

verus! {

/// Errors in the order of a report.
pub open spec fn in_report_order(errors: Seq<ErrorView>) -> bool {
    forall|i: int, j: int| 0 <= i < j < errors.len() ==> !(#[trigger] errors[j]).precedes(#[trigger] errors[i])
}

/// The errors of one sequence in the order of a report.
pub open spec fn reported(errors: Seq<ErrorView>, sorted: Seq<ErrorView>) -> bool {
    in_report_order(sorted) && sorted.to_multiset() == errors.to_multiset()
}

/// Sorts errors into the order of a report.
pub fn sort_errors(errors: &Vec<SafetyError>) -> (res: Vec<SafetyError>)
    ensures
        reported(errors.deep_view(), res.deep_view()),
{
    let mut res: Vec<SafetyError> = Vec::new();
    let ghost all = errors.deep_view();
    proof {
        assert(res.deep_view() =~= all.take(0));
    }
    for i in 0..errors.len()
        invariant
            all == errors.deep_view(),
            reported(all.take(i as int), res.deep_view()),
    {
        let error = errors[i].clone();
        let ghost new = error.deep_view();
        let ghost before = res.deep_view();
        let mut k: usize = res.len();
        while k > 0 && error.precedes(&res[k - 1])
            invariant
                k <= res@.len(),
                before == res.deep_view(),
                new == error.deep_view(),
                in_report_order(before),
                forall|j: int| k <= j < before.len() ==> new.precedes(#[trigger] before[j]),
            decreases k,
        {
            k = k - 1;
        }
        proof {
            assert forall|j: int| 0 <= j < k implies !new.precedes(#[trigger] before[j]) by {
                if j < k - 1 && new.precedes(before[j]) {
                    error_order_is_total(before[j], before[k - 1]);
                    assert(!before[k - 1].precedes(before[j]));
                    if before[j] != before[k - 1] {
                        error_order_is_transitive(new, before[j], before[k - 1]);
                    }
                }
            }
        }
        res.insert(k, error);
        proof {
            let after = res.deep_view();
            assert(after =~= before.insert(k as int, new));
            assert(after[k as int] == new);
            assert forall|a: int, b: int| 0 <= a < b < after.len() implies !(#[trigger] after[b]).precedes(
                #[trigger] after[a],
            ) by {
                if a != k {
                    assert(after[a] == before[if a < k { a } else { a - 1 }]);
                }
                if b != k {
                    assert(after[b] == before[if b < k { b } else { b - 1 }]);
                }
                error_order_is_total(after[a], after[b]);
            }
            vstd::seq_lib::to_multiset_insert(before, k as int, new);
            crate::name_set::lemma_take_more(all, i as int);
            all.take(i as int).to_multiset_ensures();
            assert(all.take(i + 1).to_multiset() == all.take(i as int).to_multiset().insert(new));
        }
    }
    proof {
        assert(all.take(all.len() as int) =~= all);
    }
    res
}

/// A line of the verbose report on an error.
pub open spec fn verbose_line(source: Seq<char>, e: ErrorView) -> Seq<char> {
    "  Line "@ + decimal(line_of(source, e.range.start as int)) + " - "@ + e.kind.declared_name() + " "@
        + e.metadata + "\n"@
}

/// The lines of the verbose report on errors.
pub open spec fn verbose_lines(source: Seq<char>, errors: Seq<ErrorView>) -> Seq<char>
    decreases errors.len(),
{
    if errors.len() == 0 {
        Seq::empty()
    } else {
        verbose_lines(source, errors.drop_last()) + verbose_line(source, errors.last())
    }
}

/// The lines of the verbose report on implicit imports.
pub open spec fn import_lines(names: Seq<Seq<char>>) -> Seq<char>
    decreases names.len(),
{
    if names.len() == 0 {
        Seq::empty()
    } else {
        import_lines(names.drop_last()) + "  "@ + names.last() + "\n"@
    }
}

/// The verbose report on a module that has something to report, with errors and imports in the
/// given order.
pub open spec fn findings_text(
    source: Seq<char>,
    errors: Seq<ErrorView>,
    overrides: Seq<ErrorView>,
    implicit: Seq<Seq<char>>,
) -> Seq<char> {
    "### Errors\n"@ + verbose_lines(source, errors) + "### Load Imports Eagerly\n"@ + verbose_lines(
        source,
        overrides,
    ) + "### Implicit Imports\n"@ + import_lines(implicit) + "\n"@
}

/// The verbose report on a module, below its heading.
pub open spec fn is_section(text: Seq<char>, source: Seq<char>, safety: SafetyView) -> bool {
    if safety.errors.len() == 0 && safety.overrides.len() == 0 && safety.implicit_imports.len() == 0 {
        text == "### Lazy imports incompatibilities were not detected\n\n"@
    } else {
        exists|errors: Seq<ErrorView>, overrides: Seq<ErrorView>, implicit: Seq<Seq<char>>|
            reported(safety.errors, errors) && reported(safety.overrides, overrides) && in_text_order(
                implicit,
            ) && implicit.to_multiset() == safety.implicit_imports.to_multiset() && text
                == #[trigger] findings_text(source, errors, overrides, implicit)
    }
}

/// The verbose report on a module: that it could not be parsed, or not be analyzed, or what was
/// found.
pub open spec fn is_verbose_report(
    text: Seq<char>,
    name: Seq<char>,
    source: Option<Seq<char>>,
    result: Option<SafetyResult>,
) -> bool {
    exists|body: Seq<char>| #[trigger]
        is_verbose_body(body, source, result) && text == "## "@ + name + " \n"@ + body
}

/// The verbose report on a module, below its heading.
pub open spec fn is_verbose_body(
    body: Seq<char>,
    source: Option<Seq<char>>,
    result: Option<SafetyResult>,
) -> bool {
    match (source, result) {
        (None, _) => body == "### Could not parse module\n\n"@,
        (Some(_), None) => body == Seq::<char>::empty(),
        (Some(_), Some(SafetyResult::AnalysisError(message))) => body == "### Analysis Error\n  "@ + message@
            + "\n"@,
        (Some(code), Some(SafetyResult::Analyzed(safety))) => is_section(body, code, safety.deep_view()),
    }
}

fn verbose_lines_text(source: &str, errors: &Vec<SafetyError>) -> (res: String)
    ensures
        res@ == verbose_lines(source@, errors.deep_view()),
{
    let mut res = String::new();
    let ghost all = errors.deep_view();
    proof {
        assert(all.take(0) =~= Seq::empty());
    }
    for i in 0..errors.len()
        invariant
            all == errors.deep_view(),
            res@ == verbose_lines(source@, all.take(i as int)),
    {
        let error = &errors[i];
        let ghost before = res@;
        proof {
            assert(all.take(i + 1).drop_last() =~= all.take(i as int));
            assert(all.take(i + 1).last() == error.deep_view());
        }
        res.append("  Line ");
        res.append(decimal_text(line_number(source, error.range.start)).as_str());
        res.append(" - ");
        res.append(error.kind.name());
        res.append(" ");
        res.append(error.metadata.as_str());
        res.append("\n");
        proof {
            assert(res@ =~= before + verbose_line(source@, error.deep_view()));
        }
    }
    proof {
        assert(all.take(all.len() as int) =~= all);
    }
    res
}

fn import_lines_text(names: &Vec<ModuleName>) -> (res: String)
    ensures
        res@ == import_lines(texts(names@)),
{
    let mut res = String::new();
    let ghost all = texts(names@);
    proof {
        assert(all.take(0) =~= Seq::empty());
    }
    for i in 0..names.len()
        invariant
            all == texts(names@),
            res@ == import_lines(all.take(i as int)),
    {
        proof {
            assert(all.take(i + 1).drop_last() =~= all.take(i as int));
            assert(all.take(i + 1).last() == names@[i as int]@);
        }
        res.append("  ");
        res.append(names[i].as_str());
        res.append("\n");
    }
    proof {
        assert(all.take(all.len() as int) =~= all);
    }
    res
}

fn section_text(source: &str, safety: &ModuleSafety) -> (res: String)
    ensures
        is_section(res@, source@, safety.deep_view()),
{
    if safety.errors.len() == 0 && safety.force_imports_eager_overrides.len() == 0
        && safety.implicit_imports.len() == 0 {
        return "### Lazy imports incompatibilities were not detected\n\n".to_owned();
    }
    let errors = sort_errors(&safety.errors);
    let overrides = sort_errors(&safety.force_imports_eager_overrides);
    let implicit = sort_names(&safety.implicit_imports);
    let mut res = "### Errors\n".to_owned();
    res.append(verbose_lines_text(source, &errors).as_str());
    res.append("### Load Imports Eagerly\n");
    res.append(verbose_lines_text(source, &overrides).as_str());
    res.append("### Implicit Imports\n");
    res.append(import_lines_text(&implicit).as_str());
    res.append("\n");
    proof {
        assert(res@ =~= findings_text(
            source@,
            errors.deep_view(),
            overrides.deep_view(),
            texts(implicit@),
        ));
    }
    res
}

/// The text that stands before the reports on modules.
pub open spec fn verbose_heading() -> Seq<char> {
    "# Lifeguard Verbose Output:\n------------------------------------------------------------------------------\n"@
}

/// The text that stands before the reports on modules.
pub fn verbose_heading_text() -> (res: String)
    ensures
        res@ == verbose_heading(),
{
    "# Lifeguard Verbose Output:\n------------------------------------------------------------------------------\n".to_owned()
}

/// The verbose report on a module. The source is missing where the module could not be parsed.
pub fn write_verbose_module(name: &ModuleName, source: Option<&str>, result: Option<&SafetyResult>) -> (res:
    String)
    ensures
        is_verbose_report(
            res@,
            name@,
            match source {
                Some(code) => Some(code@),
                None => None,
            },
            match result {
                Some(r) => Some(*r),
                None => None,
            },
        ),
{
    let body: String = match source {
        None => "### Could not parse module\n\n".to_owned(),
        Some(code) => match result {
            None => String::new(),
            Some(SafetyResult::AnalysisError(message)) => {
                let mut text = "### Analysis Error\n  ".to_owned();
                text.append(message.as_str());
                text.append("\n");
                text
            },
            Some(SafetyResult::Analyzed(safety)) => section_text(code, safety),
        },
    };
    let mut res = "## ".to_owned();
    res.append(name.as_str());
    res.append(" \n");
    res.append(body.as_str());
    proof {
        let code = match source {
            Some(code) => Some(code@),
            None => None,
        };
        let outcome = match result {
            Some(r) => Some(*r),
            None => None,
        };
        assert(is_verbose_body(body@, code, outcome));
    }
    res
}

/// One list of names comes before another: at the first name in which they differ its name comes
/// first, or it is a proper beginning of the other.
pub open spec fn names_less(a: Seq<Seq<char>>, b: Seq<Seq<char>>) -> bool
    decreases a.len(),
{
    if b.len() == 0 {
        false
    } else if a.len() == 0 {
        true
    } else if a[0] != b[0] {
        text_less(a[0], b[0])
    } else {
        names_less(a.skip(1), b.skip(1))
    }
}

proof fn lemma_names_total(a: Seq<Seq<char>>, b: Seq<Seq<char>>)
    ensures
        a == b <==> !names_less(a, b) && !names_less(b, a),
        !(names_less(a, b) && names_less(b, a)),
    decreases a.len(),
{
    if a.len() > 0 && b.len() > 0 {
        text_order_is_total(a[0], b[0]);
        if a[0] == b[0] {
            lemma_names_total(a.skip(1), b.skip(1));
            assert(a =~= seq![a[0]] + a.skip(1));
            assert(b =~= seq![b[0]] + b.skip(1));
        }
    } else if a.len() == 0 && b.len() == 0 {
        assert(a =~= b);
    } else {
        assert(a.len() != b.len());
    }
}

proof fn lemma_names_transitive(a: Seq<Seq<char>>, b: Seq<Seq<char>>, c: Seq<Seq<char>>)
    requires
        names_less(a, b),
        names_less(b, c),
    ensures
        names_less(a, c),
    decreases a.len(),
{
    if a.len() > 0 {
        if a[0] == b[0] && b[0] == c[0] {
            lemma_names_transitive(a.skip(1), b.skip(1), c.skip(1));
        } else if a[0] != b[0] && b[0] != c[0] {
            text_order_is_transitive(a[0], b[0], c[0]);
            text_order_is_total(a[0], c[0]);
        }
    }
}

fn names_precede(a: &Vec<ModuleName>, b: &Vec<ModuleName>) -> (res: bool)
    ensures
        res == names_less(texts(a@), texts(b@)),
{
    let mut i: usize = 0;
    let ghost x = texts(a@);
    let ghost y = texts(b@);
    proof {
        assert(x.skip(0) =~= x);
        assert(y.skip(0) =~= y);
    }
    while i < a.len() && i < b.len() && a[i].same(&b[i])
        invariant
            x == texts(a@),
            y == texts(b@),
            i <= x.len(),
            i <= y.len(),
            names_less(x, y) == names_less(x.skip(i as int), y.skip(i as int)),
        decreases x.len() - i,
    {
        proof {
            assert(x.skip(i as int).skip(1) =~= x.skip(i + 1));
            assert(y.skip(i as int).skip(1) =~= y.skip(i + 1));
        }
        i = i + 1;
    }
    if i >= b.len() {
        false
    } else if i >= a.len() {
        true
    } else {
        compare_text(a[i].as_str(), b[i].as_str())
    }
}

/// Cycles as they are written out: the members of each sorted, and the cycles sorted.
pub open spec fn arranged_cycles(cycles: Seq<Seq<Seq<char>>>, written: Seq<Seq<Seq<char>>>) -> bool {
    &&& forall|i: int, j: int|
        0 <= i < j < written.len() ==> !names_less(#[trigger] written[j], #[trigger] written[i])
    &&& exists|sorted: Seq<Seq<Seq<char>>>| #[trigger]
        members_sorted(cycles, sorted) && written.to_multiset() == sorted.to_multiset()
}

/// Cycles with the members of each sorted.
pub open spec fn members_sorted(cycles: Seq<Seq<Seq<char>>>, sorted: Seq<Seq<Seq<char>>>) -> bool {
    &&& cycles.len() == sorted.len()
    &&& forall|i: int|
        0 <= i < cycles.len() ==> in_text_order(#[trigger] sorted[i]) && sorted[i].to_multiset()
            == cycles[i].to_multiset()
}

/// Arranges cycles to be written out.
pub fn arrange_cycles(cycles: &Vec<Vec<ModuleName>>) -> (res: Vec<Vec<ModuleName>>)
    ensures
        arranged_cycles(cycle_views(cycles@), cycle_views(res@)),
{
    let mut res: Vec<Vec<ModuleName>> = Vec::new();
    let ghost mut sorted: Seq<Seq<Seq<char>>> = Seq::empty();
    let ghost all = cycle_views(cycles@);
    proof {
        assert(cycle_views(res@) =~= sorted);
    }
    for i in 0..cycles.len()
        invariant
            all == cycle_views(cycles@),
            members_sorted(all.take(i as int), sorted),
            forall|a: int, b: int|
                0 <= a < b < res@.len() ==> !names_less(
                    #[trigger] cycle_views(res@)[b],
                    #[trigger] cycle_views(res@)[a],
                ),
            cycle_views(res@).to_multiset() == sorted.to_multiset(),
    {
        let members = sort_names(&cycles[i]);
        let ghost new = texts(members@);
        let ghost before = cycle_views(res@);
        let mut k: usize = res.len();
        while k > 0 && names_precede(&members, &res[k - 1])
            invariant
                k <= res@.len(),
                before == cycle_views(res@),
                new == texts(members@),
                forall|j: int| k <= j < before.len() ==> names_less(new, #[trigger] before[j]),
            decreases k,
        {
            k = k - 1;
        }
        proof {
            assert forall|j: int| 0 <= j < k implies !names_less(new, #[trigger] before[j]) by {
                if j < k - 1 && names_less(new, before[j]) {
                    lemma_names_total(before[j], before[k - 1]);
                    assert(!names_less(before[k - 1], before[j]));
                    if before[j] != before[k - 1] {
                        lemma_names_transitive(new, before[j], before[k - 1]);
                    }
                }
            }
        }
        res.insert(k, members);
        proof {
            let after = cycle_views(res@);
            assert(after =~= before.insert(k as int, new));
            assert(after[k as int] == new);
            assert forall|a: int, b: int| 0 <= a < b < after.len() implies !names_less(
                #[trigger] after[b],
                #[trigger] after[a],
            ) by {
                if a != k {
                    assert(after[a] == before[if a < k { a } else { a - 1 }]);
                }
                if b != k {
                    assert(after[b] == before[if b < k { b } else { b - 1 }]);
                }
                lemma_names_total(after[a], after[b]);
            }
            vstd::seq_lib::to_multiset_insert(before, k as int, new);
            sorted.to_multiset_ensures();
            let longer = sorted.push(new);
            assert(all[i as int] == texts(cycles@[i as int]@));
            assert forall|j: int| 0 <= j < i + 1 implies in_text_order(#[trigger] longer[j])
                && longer[j].to_multiset() == all.take(i + 1)[j].to_multiset() by {
                if j < i {
                    assert(longer[j] == sorted[j]);
                    assert(all.take(i as int)[j] == all[j]);
                }
            }
            sorted = longer;
        }
    }
    proof {
        assert(all.take(all.len() as int) =~= all);
        assert(members_sorted(all, sorted));
    }
    res
}

/// Names as they are written out: those of a set, sorted where that is asked for.
pub open spec fn arranged_names(set: Set<Seq<char>>, written: Seq<Seq<char>>, sorted: bool) -> bool {
    &&& written.to_set() == set
    &&& written.no_duplicates()
    &&& sorted ==> in_text_order(written)
}

/// Lists the names of a set, sorted where that is asked for.
pub fn arrange_names(names: &NameSet, sorted: bool) -> (res: Vec<ModuleName>)
    ensures
        arranged_names(names@, texts(res@), sorted),
{
    let n: usize = names.len();
    let mut list: Vec<ModuleName> = Vec::new();
    for i in 0..n
        invariant
            n == names.items().len(),
            texts(list@) == names.items().take(i as int),
    {
        let ghost before = texts(list@);
        list.push(names.at(i));
        proof {
            assert(texts(list@) =~= before.push(names.items()[i as int]));
            assert(texts(list@) =~= names.items().take(i + 1));
        }
    }
    proof {
        assert(texts(list@) =~= names.items());
    }
    if sorted {
        let res = sort_names(&list);
        proof {
            let a = texts(list@);
            let b = texts(res@);
            a.to_multiset_ensures();
            b.to_multiset_ensures();
            crate::name_map::lemma_no_duplicates_by_multiset(a, b);
            assert forall|x: Seq<char>| a.to_set().contains(x) <==> b.to_set().contains(x) by {
                assert(a.contains(x) <==> a.to_multiset().count(x) > 0);
                assert(b.contains(x) <==> b.to_multiset().count(x) > 0);
            }
            assert(a.to_set() =~= b.to_set());
        }
        res
    } else {
        list
    }
}

/// A map from modules to sets of modules as it is written out, sorted where that is asked for.
pub open spec fn arranged_sets(
    map: Map<Seq<char>, Set<Seq<char>>>,
    written: Seq<(ModuleName, Vec<ModuleName>)>,
    sorted: bool,
) -> bool {
    &&& arranged_names(map.dom(), crate::name_map::names_of(written), sorted)
    &&& forall|i: int|
        0 <= i < written.len() ==> arranged_names(
            map[(#[trigger] written[i]).0@],
            texts(written[i].1@),
            sorted,
        )
}

/// Lists a map from modules to sets of modules, sorted where that is asked for.
pub fn arrange_sets(map: &NameSets, sorted: bool) -> (res: Vec<(ModuleName, Vec<ModuleName>)>)
    ensures
        arranged_sets(map.deep_view(), res@, sorted),
{
    let keys = crate::name_sets::set_of(&map.key_list());
    let names = arrange_names(&keys, sorted);
    let ghost all = texts(names@);
    let mut res: Vec<(ModuleName, Vec<ModuleName>)> = Vec::new();
    proof {
        assert(map.deep_view().dom() =~= map@.dom());
        assert(crate::name_map::names_of(res@) =~= all.take(0));
    }
    for i in 0..names.len()
        invariant
            all == texts(names@),
            all.to_set() == map.deep_view().dom(),
            crate::name_map::names_of(res@) == all.take(i as int),
            forall|j: int|
                0 <= j < i ==> arranged_names(
                    map.deep_view()[(#[trigger] res@[j]).0@],
                    texts(res@[j].1@),
                    sorted,
                ),
    {
        let ghost before = crate::name_map::names_of(res@);
        proof {
            crate::name_set::lemma_take_more(all, i as int);
            assert(all.to_set().contains(all[i as int]));
            assert(map.deep_view().contains_key(names@[i as int]@));
        }
        if let Some(set) = crate::name_sets::names_at(map, &names[i]) {
            res.push((names[i].clone(), arrange_names(set, sorted)));
        }
        proof {
            assert(crate::name_map::names_of(res@) =~= before.push(all[i as int]));
        }
    }
    proof {
        assert(all.take(all.len() as int) =~= all);
        assert(crate::name_map::names_of(res@).len() == res@.len());
    }
    res
}

/// A map from modules to lists of modules as it is written out: sorted, and each list sorted.
pub open spec fn arranged_lists(
    map: Map<Seq<char>, Seq<Seq<char>>>,
    written: Seq<(ModuleName, Vec<ModuleName>)>,
) -> bool {
    &&& arranged_names(map.dom(), crate::name_map::names_of(written), true)
    &&& forall|i: int|
        0 <= i < written.len() ==> in_text_order(texts((#[trigger] written[i]).1@)) && texts(
            written[i].1@,
        ).to_multiset() == map[written[i].0@].to_multiset()
}

/// Lists a map from modules to lists of modules, sorted, and each list sorted.
pub fn arrange_lists(map: &NameMap<Vec<ModuleName>>) -> (res: Vec<(ModuleName, Vec<ModuleName>)>)
    ensures
        arranged_lists(map.deep_view(), res@),
{
    let keys = crate::name_sets::set_of(&map.key_list());
    let names = arrange_names(&keys, true);
    let ghost all = texts(names@);
    let mut res: Vec<(ModuleName, Vec<ModuleName>)> = Vec::new();
    proof {
        assert(map.deep_view().dom() =~= map@.dom());
        assert(crate::name_map::names_of(res@) =~= all.take(0));
    }
    for i in 0..names.len()
        invariant
            all == texts(names@),
            all.to_set() == map.deep_view().dom(),
            crate::name_map::names_of(res@) == all.take(i as int),
            forall|j: int|
                0 <= j < i ==> in_text_order(texts((#[trigger] res@[j]).1@)) && texts(
                    res@[j].1@,
                ).to_multiset() == map.deep_view()[res@[j].0@].to_multiset(),
    {
        let ghost before = crate::name_map::names_of(res@);
        proof {
            crate::name_set::lemma_take_more(all, i as int);
            assert(all.to_set().contains(all[i as int]));
            assert(map.deep_view().contains_key(names@[i as int]@));
        }
        if let Some(list) = map.get(&names[i]) {
            proof {
                assert(list.deep_view() =~= texts(list@));
            }
            res.push((names[i].clone(), sort_names(list)));
        }
        proof {
            assert(crate::name_map::names_of(res@) =~= before.push(all[i as int]));
        }
    }
    proof {
        assert(all.take(all.len() as int) =~= all);
        assert(crate::name_map::names_of(res@).len() == res@.len());
    }
    res
}

/// A result, arranged to be written out.
pub struct ArrangedOutput {
    pub load_imports_eagerly: Vec<ModuleName>,
    pub lazy_eligible: Vec<(ModuleName, Vec<ModuleName>)>,
    pub implicit_imports: Option<Vec<(ModuleName, Vec<ModuleName>)>>,
    pub import_cycles: Option<Vec<Vec<ModuleName>>>,
}

impl LifeGuardOutput {
    /// Arranges the result to be written out. Implicit imports and cycles are always sorted, the
    /// rest where that is asked for.
    pub fn arrange(&self) -> (res: ArrangedOutput)
        ensures
            arranged_names(
                self.load_imports_eagerly@,
                texts(res.load_imports_eagerly@),
                self.sorted_output,
            ),
            arranged_sets(self.lazy_eligible.deep_view(), res.lazy_eligible@, self.sorted_output),
            match (self.implicit_imports, res.implicit_imports) {
                (Some(map), Some(written)) => arranged_lists(map.deep_view(), written@),
                (None, None) => true,
                _ => false,
            },
            match (self.import_cycles, res.import_cycles) {
                (Some(cycles), Some(written)) => arranged_cycles(
                    cycle_views(cycles@),
                    cycle_views(written@),
                ),
                (None, None) => true,
                _ => false,
            },
    {
        ArrangedOutput {
            load_imports_eagerly: arrange_names(&self.load_imports_eagerly, self.sorted_output),
            lazy_eligible: arrange_sets(&self.lazy_eligible, self.sorted_output),
            implicit_imports: match &self.implicit_imports {
                Some(map) => Some(arrange_lists(map)),
                None => None,
            },
            import_cycles: match &self.import_cycles {
                Some(cycles) => Some(arrange_cycles(cycles)),
                None => None,
            },
        }
    }
}

/// Texts one behind the other.
pub open spec fn run_together(parts: Seq<Seq<char>>) -> Seq<char>
    decreases parts.len(),
{
    if parts.len() == 0 {
        Seq::empty()
    } else {
        run_together(parts.drop_last()) + parts.last()
    }
}

/// What a source is, where there is one.
pub open spec fn source_in(sources: Map<Seq<char>, Seq<char>>, name: Seq<char>) -> Option<Seq<char>> {
    if sources.contains_key(name) {
        Some(sources[name])
    } else {
        None
    }
}

/// The verbose reports on some modules.
pub open spec fn are_reports(
    names: Seq<Seq<char>>,
    reports: Seq<Seq<char>>,
    results: Map<Seq<char>, SafetyResult>,
    sources: Map<Seq<char>, Seq<char>>,
) -> bool {
    reports.len() == names.len() && forall|i: int|
        0 <= i < names.len() ==> is_verbose_report(
            #[trigger] reports[i],
            names[i],
            source_in(sources, names[i]),
            Some(results[names[i]]),
        )
}

/// A text is the verbose report on all modules, in the order of their names.
pub open spec fn is_verbose_output(
    text: Seq<char>,
    results: Map<Seq<char>, SafetyResult>,
    sources: Map<Seq<char>, Seq<char>>,
) -> bool {
    exists|names: Seq<Seq<char>>, reports: Seq<Seq<char>>| #[trigger]
        are_reports(names, reports, results, sources) && in_text_order(names) && names.no_duplicates()
            && names.to_set() == results.dom() && text == verbose_heading() + run_together(reports)
}

/// Writes the verbose report on all modules. The sources of modules that could not be parsed are
/// missing.
pub fn write_verbose(safety_map: &NameMap<SafetyResult>, sources: &NameMap<String>) -> (res: String)
    ensures
        is_verbose_output(res@, safety_map@, sources.deep_view()),
{
    let names = sort_names(&safety_map.key_list());
    let ghost all = texts(names@);
    let ghost mut reports: Seq<Seq<char>> = Seq::empty();
    let mut res: String = verbose_heading_text();
    let n: usize = safety_map.len();
    proof {
        let keys = safety_map.keys();
        crate::name_map::lemma_no_duplicates_by_multiset(keys, all);
        keys.to_multiset_ensures();
        all.to_multiset_ensures();
        assert forall|k: Seq<char>| all.to_set().contains(k) <==> safety_map@.dom().contains(k) by {
            assert(all.contains(k) <==> all.to_multiset().count(k) > 0);
            assert(keys.contains(k) <==> keys.to_multiset().count(k) > 0);
            assert(keys.contains(k) <==> safety_map@.contains_key(k));
        }
        assert(all.to_set() =~= safety_map@.dom());
        assert(verbose_heading() + run_together(reports) =~= res@);
    }
    for i in 0..names.len()
        invariant
            all == texts(names@),
            all.to_set() == safety_map@.dom(),
            are_reports(all.take(i as int), reports, safety_map@, sources.deep_view()),
            res@ == verbose_heading() + run_together(reports),
    {
        let name = &names[i];
        let source: Option<&str> = match sources.get(name) {
            Some(text) => Some(text.as_str()),
            None => None,
        };
        proof {
            assert(all[i as int] == name@);
            assert(all.contains(name@));
            assert(all.to_set().contains(name@));
        }
        let report = write_verbose_module(name, source, safety_map.get(name));
        let ghost before = reports;
        proof {
            reports = before.push(report@);
            assert(reports.drop_last() =~= before);
            assert(verbose_heading() + run_together(reports) =~= (verbose_heading() + run_together(before))
                + report@);
            let more = all.take(i + 1);
            assert forall|j: int| 0 <= j < more.len() implies is_verbose_report(
                #[trigger] reports[j],
                more[j],
                source_in(sources.deep_view(), more[j]),
                Some(safety_map@[more[j]]),
            ) by {
                if j < i {
                    assert(all.take(i as int)[j] == more[j]);
                    assert(reports[j] == before[j]);
                }
            }
        }
        res.append(report.as_str());
    }
    proof {
        assert(all.take(all.len() as int) =~= all);
        assert(are_reports(all, reports, safety_map@, sources.deep_view()));
    }
    res
}

/// Names in the order of their texts, none of them twice, are determined by what they are.
proof fn lemma_one_order(a: Seq<Seq<char>>, b: Seq<Seq<char>>)
    requires
        in_text_order(a),
        in_text_order(b),
        a.to_multiset() == b.to_multiset(),
    ensures
        a == b,
    decreases a.len(),
{
    a.to_multiset_ensures();
    b.to_multiset_ensures();
    assert(a.len() == b.len());
    if a.len() > 0 {
        let x = a.last();
        let y = b.last();
        assert(a.contains(x) && b.contains(y));
        assert(a.to_multiset().count(x) > 0 && b.to_multiset().count(y) > 0);
        assert(b.contains(x) && a.contains(y));
        let i = b.index_of(x);
        let j = a.index_of(y);
        crate::module_name::text_order_is_total(x, y);
        if i < b.len() - 1 {
            assert(!crate::module_name::text_less(b[b.len() - 1], b[i]));
        }
        if j < a.len() - 1 {
            assert(!crate::module_name::text_less(a[a.len() - 1], a[j]));
        }
        assert(x == y);
        let fewer_a = a.drop_last();
        let fewer_b = b.drop_last();
        assert(a =~= fewer_a.push(x));
        assert(b =~= fewer_b.push(x));
        fewer_a.to_multiset_ensures();
        fewer_b.to_multiset_ensures();
        assert(fewer_a.to_multiset() =~= a.to_multiset().remove(x));
        assert(fewer_b.to_multiset() =~= b.to_multiset().remove(x));
        assert(in_text_order(fewer_a)) by {
            assert forall|p: int, q: int| 0 <= p < q < fewer_a.len() implies !crate::module_name::text_less(
                #[trigger] fewer_a[q],
                #[trigger] fewer_a[p],
            ) by {
                assert(fewer_a[p] == a[p] && fewer_a[q] == a[q]);
            }
        }
        assert(in_text_order(fewer_b)) by {
            assert forall|p: int, q: int| 0 <= p < q < fewer_b.len() implies !crate::module_name::text_less(
                #[trigger] fewer_b[q],
                #[trigger] fewer_b[p],
            ) by {
                assert(fewer_b[p] == b[p] && fewer_b[q] == b[q]);
            }
        }
        lemma_one_order(fewer_a, fewer_b);
    } else {
        assert(a =~= b);
    }
}

/// Names that are written out sorted are written out in one way only.
pub proof fn sorted_names_are_determined(set: Set<Seq<char>>, a: Seq<Seq<char>>, b: Seq<Seq<char>>)
    requires
        arranged_names(set, a, true),
        arranged_names(set, b, true),
    ensures
        a == b,
{
    a.lemma_multiset_has_no_duplicates();
    b.lemma_multiset_has_no_duplicates();
    a.to_multiset_ensures();
    b.to_multiset_ensures();
    assert forall|x: Seq<char>| a.to_multiset().count(x) == b.to_multiset().count(x) by {
        assert(a.to_set().contains(x) <==> b.to_set().contains(x));
        assert(a.contains(x) <==> b.contains(x));
        assert(a.to_multiset().contains(x) <==> a.contains(x));
        assert(b.to_multiset().contains(x) <==> b.contains(x));
    }
    assert(a.to_multiset() =~= b.to_multiset());
    lemma_one_order(a, b);
}

/// What stands in the way of modules is written out in one way only, where it is sorted.
pub proof fn sorted_output_is_determined(
    map: Map<Seq<char>, Set<Seq<char>>>,
    a: Seq<(ModuleName, Vec<ModuleName>)>,
    b: Seq<(ModuleName, Vec<ModuleName>)>,
    i: int,
)
    requires
        arranged_sets(map, a, true),
        arranged_sets(map, b, true),
    ensures
        a.len() == b.len(),
        0 <= i < a.len() ==> a[i].0@ == b[i].0@ && texts(a[i].1@) == texts(b[i].1@),
{
    let names_a = crate::name_map::names_of(a);
    let names_b = crate::name_map::names_of(b);
    sorted_names_are_determined(map.dom(), names_a, names_b);
    assert(names_a.len() == a.len() && names_b.len() == b.len());
    if 0 <= i < a.len() {
        assert(names_a[i] == a[i].0@ && names_b[i] == b[i].0@);
        sorted_names_are_determined(map[a[i].0@], texts(a[i].1@), texts(b[i].1@));
    }
}

} // verus!
