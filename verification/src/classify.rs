//! Which modules pass, and which fail.

use crate::attribute::{AttrMap, Attribute};
use crate::cache_merge::SafetyMap;
use crate::errors::{ErrorView, SafetyError};
use crate::format::ErrorString;
use crate::module_name::{clone_names, texts, ModuleName};
use crate::module_safety::SafetyResult;
use crate::name_map::NameMap;
use crate::name_set::NameSet;
use vstd::prelude::*;

verus! {

/// How many modules have an error, by the error's kind and text.
pub type ErrorCounts = AttrMap<usize>;

/// The modules, as they passed or failed, and what else is to be known of them.
pub struct ClassifiedModules {
    pub failing_modules: NameSet,
    pub passing_modules: NameSet,
    pub load_imports_eagerly: NameSet,
    pub implicit_imports: NameMap<Vec<ModuleName>>,
    pub aggregated_errors: ErrorCounts,
}

/// A module passes: it could be analyzed, and has no error.
pub open spec fn passes(result: SafetyResult) -> bool {
    result matches SafetyResult::Analyzed(s) && s.deep_view().errors.len() == 0
}

/// A module has to import its own imports eagerly.
pub open spec fn is_eager(result: SafetyResult) -> bool {
    result matches SafetyResult::Analyzed(s) && s.deep_view().overrides.len() > 0
}

/// A module uses others without importing them.
pub open spec fn has_implicit(result: SafetyResult) -> bool {
    result matches SafetyResult::Analyzed(s) && s.deep_view().implicit_imports.len() > 0
}

/// Under which kind and text an error is counted.
pub open spec fn error_key(e: ErrorView) -> (Seq<char>, Seq<char>) {
    (e.kind.text(), e.metadata)
}

/// The kinds and texts of errors.
pub open spec fn error_keys(errors: Seq<ErrorView>) -> Set<(Seq<char>, Seq<char>)> {
    errors.map_values(|e: ErrorView| error_key(e)).to_set()
}

/// The kinds and texts of all errors of a module.
pub open spec fn keys_of(result: SafetyResult) -> Set<(Seq<char>, Seq<char>)> {
    match result {
        SafetyResult::Analyzed(s) => error_keys(s.deep_view().errors).union(
            error_keys(s.deep_view().overrides),
        ),
        SafetyResult::AnalysisError(_) => Set::empty(),
    }
}

/// The modules that have an error of a kind and text.
pub open spec fn modules_with(
    results: Map<Seq<char>, SafetyResult>,
    key: (Seq<char>, Seq<char>),
) -> Set<Seq<char>> {
    Set::new(|m: Seq<char>| results.contains_key(m) && keys_of(results[m]).contains(key))
}

/// The modules, as the results of their analysis say.
pub open spec fn classified(c: &ClassifiedModules, results: Map<Seq<char>, SafetyResult>) -> bool {
    &&& c.failing_modules@ == Set::new(|m: Seq<char>| results.contains_key(m) && !passes(results[m]))
    &&& c.passing_modules@ == Set::new(|m: Seq<char>| results.contains_key(m) && passes(results[m]))
    &&& c.load_imports_eagerly@ == Set::new(
        |m: Seq<char>| results.contains_key(m) && is_eager(results[m]),
    )
    &&& c.implicit_imports.deep_view() == implicit_of(results)
    &&& counts_errors(&c.aggregated_errors, results)
}

/// The modules that are used without being imported, by the modules that use them.
pub open spec fn implicit_of(results: Map<Seq<char>, SafetyResult>) -> Map<Seq<char>, Seq<Seq<char>>> {
    Map::new(
        |m: Seq<char>| results.contains_key(m) && has_implicit(results[m]),
        |m: Seq<char>| results[m]->Analyzed_0.deep_view().implicit_imports,
    )
}

/// The counts are those of the modules that have each error.
pub open spec fn counts_errors(counts: &ErrorCounts, results: Map<Seq<char>, SafetyResult>) -> bool {
    &&& forall|key: (Seq<char>, Seq<char>)| #[trigger]
        counts@.contains_key(key) <==> modules_with(results, key).len() > 0
    &&& forall|key: (Seq<char>, Seq<char>)| #[trigger]
        counts@.contains_key(key) ==> counts@[key] == modules_with(results, key).len()
}

/// Adds the kinds and texts of errors to a set.
fn collect_keys(errors: &Vec<SafetyError>, keys: &mut AttrMap<()>)
    ensures
        final(keys)@.dom() == old(keys)@.dom().union(error_keys(errors.deep_view())),
{
    let ghost views = errors.deep_view();
    let ghost all = views.map_values(|e: ErrorView| error_key(e));
    proof {
        assert(keys@.dom() =~= keys@.dom().union(all.take(0).to_set()));
    }
    for i in 0..errors.len()
        invariant
            views == errors.deep_view(),
            all == views.map_values(|e: ErrorView| error_key(e)),
            keys@.dom() == old(keys)@.dom().union(all.take(i as int).to_set()),
    {
        let error = &errors[i];
        let key = Attribute {
            module: ModuleName::from_string(error.kind.error_string()),
            attr: error.metadata.as_str().to_owned(),
        };
        let ghost k = key@;
        let ghost before = keys@;
        keys.insert(key, ());
        proof {
            crate::name_set::lemma_take_more(all, i as int);
            assert(all[i as int] == k);
            assert(keys@.dom() =~= before.dom().insert(k));
            assert(keys@.dom() =~= old(keys)@.dom().union(all.take(i + 1).to_set()));
        }
    }
    proof {
        assert(all.take(all.len() as int) =~= all);
    }
}

/// Counts one more module for each of the errors.
fn count_keys(counts: &mut ErrorCounts, keys: &AttrMap<()>, Ghost(bound): Ghost<nat>)
    requires
        bound < usize::MAX,
        forall|key: (Seq<char>, Seq<char>)| #[trigger]
            old(counts)@.contains_key(key) ==> old(counts)@[key] <= bound,
    ensures
        final(counts)@ == Map::new(
            |key: (Seq<char>, Seq<char>)| old(counts)@.contains_key(key) || keys@.contains_key(key),
            |key: (Seq<char>, Seq<char>)|
                if keys@.contains_key(key) {
                    if old(counts)@.contains_key(key) {
                        (old(counts)@[key] + 1) as usize
                    } else {
                        1
                    }
                } else {
                    old(counts)@[key]
                },
        ),
{
    let list = keys.attributes();
    let ghost all = crate::attribute::attributes_of(list@);
    let ghost first = counts@;
    proof {
        assert(counts@ =~= raised(first, all.take(0).to_set()));
    }
    for i in 0..list.len()
        invariant
            all == crate::attribute::attributes_of(list@),
            all.no_duplicates(),
            bound < usize::MAX,
            forall|key: (Seq<char>, Seq<char>)| #[trigger] first.contains_key(key) ==> first[key] <= bound,
            counts@ == raised(first, all.take(i as int).to_set()),
    {
        let ghost key = all[i as int];
        proof {
            crate::name_set::lemma_take_more(all, i as int);
            assert(list@[i as int]@ == key);
            assert(!all.take(i as int).contains(key)) by {
                if all.take(i as int).contains(key) {
                    let j = all.take(i as int).index_of(key);
                    assert(all[j] == key);
                }
            }
        }
        let now: usize = match counts.get(&list[i]) {
            Some(n) => *n + 1,
            None => 1,
        };
        let ghost before = counts@;
        counts.insert(list[i].clone(), now);
        proof {
            assert(counts@ =~= raised(first, all.take(i + 1).to_set()));
        }
    }
    proof {
        assert(all.take(all.len() as int) =~= all);
        assert(counts@ =~= Map::new(
            |key: (Seq<char>, Seq<char>)| first.contains_key(key) || keys@.contains_key(key),
            |key: (Seq<char>, Seq<char>)|
                if keys@.contains_key(key) {
                    if first.contains_key(key) {
                        (first[key] + 1) as usize
                    } else {
                        1
                    }
                } else {
                    first[key]
                },
        ));
    }
}

/// Counts of which some are one higher.
spec fn raised(counts: Map<(Seq<char>, Seq<char>), usize>, keys: Set<(Seq<char>, Seq<char>)>) -> Map<
    (Seq<char>, Seq<char>),
    usize,
> {
    Map::new(
        |key: (Seq<char>, Seq<char>)| counts.contains_key(key) || keys.contains(key),
        |key: (Seq<char>, Seq<char>)|
            if keys.contains(key) {
                if counts.contains_key(key) {
                    (counts[key] + 1) as usize
                } else {
                    1
                }
            } else {
                counts[key]
            },
    )
}

/// Sorts the modules into those that pass and those that fail, and collects what else is to be
/// known of them.
pub fn classify_modules(safety_map: &SafetyMap) -> (res: ClassifiedModules)
    ensures
        classified(&res, safety_map@),
{
    let mut res = ClassifiedModules {
        failing_modules: NameSet::new(),
        passing_modules: NameSet::new(),
        load_imports_eagerly: NameSet::new(),
        implicit_imports: NameMap::new(),
        aggregated_errors: AttrMap::new(),
    };
    let n: usize = safety_map.len();
    let ghost results = safety_map@;
    let ghost keys = safety_map.keys();
    proof {
        let none = part_of(results, keys, 0);
        assert(none =~= Map::empty());
        assert(res.failing_modules@ =~= Set::new(|m: Seq<char>| none.contains_key(m) && !passes(none[m])));
        assert(res.passing_modules@ =~= Set::new(|m: Seq<char>| none.contains_key(m) && passes(none[m])));
        assert(res.load_imports_eagerly@ =~= Set::new(
            |m: Seq<char>| none.contains_key(m) && is_eager(none[m]),
        ));
        assert(res.implicit_imports.deep_view() =~= implicit_of(none));
        assert forall|key: (Seq<char>, Seq<char>)| modules_with(none, key).len() == 0 by {
            assert(modules_with(none, key) =~= Set::empty());
        }
    }
    for i in 0..n
        invariant
            n == keys.len(),
            keys == safety_map.keys(),
            results == safety_map@,
            safety_map.ordered(),
            classified(&res, part_of(results, keys, i as int)),
    {
        let name = safety_map.key_at(i);
        let ghost before = part_of(results, keys, i as int);
        let ghost after = part_of(results, keys, i + 1);
        let ghost key = keys[i as int];
        let ghost old_counts = res.aggregated_errors@;
        proof {
            crate::name_set::lemma_take_more(keys, i as int);
            assert(!keys.take(i as int).contains(key)) by {
                if keys.take(i as int).contains(key) {
                    let j = keys.take(i as int).index_of(key);
                    assert(keys[j] == key);
                }
            }
            assert(!before.contains_key(key));
            assert(after =~= before.insert(key, results[key]));
            lemma_counts_bounded(before, keys, i as int);
        }
        let result = safety_map.value_at(i);
        match result {
            SafetyResult::AnalysisError(_) => {
                let _ = res.failing_modules.insert(name.clone());
            },
            SafetyResult::Analyzed(safety) => {
                if safety.should_load_imports_eagerly() {
                    let _ = res.load_imports_eagerly.insert(name.clone());
                }
                if safety.has_implicit_imports() {
                    let names = clone_names(&safety.implicit_imports);
                    proof {
                        assert(names.deep_view() =~= texts(names@));
                    }
                    let ghost listed = res.implicit_imports.deep_view();
                    let _ = res.implicit_imports.insert(name.clone(), names);
                    proof {
                        assert(res.implicit_imports.deep_view() =~= listed.insert(
                            key,
                            safety.deep_view().implicit_imports,
                        ));
                    }
                }
                if safety.is_safe() {
                    let _ = res.passing_modules.insert(name.clone());
                } else {
                    let _ = res.failing_modules.insert(name.clone());
                }
                let mut module_errors: AttrMap<()> = AttrMap::new();
                collect_keys(&safety.errors, &mut module_errors);
                collect_keys(&safety.force_imports_eager_overrides, &mut module_errors);
                proof {
                    assert(module_errors@.dom() =~= keys_of(*result));
                }
                count_keys(&mut res.aggregated_errors, &module_errors, Ghost(i as nat));
            },
        }
        proof {
            assert(*result == results[key]);
            assert(res.failing_modules@ =~= Set::new(
                |m: Seq<char>| after.contains_key(m) && !passes(after[m]),
            ));
            assert(res.passing_modules@ =~= Set::new(
                |m: Seq<char>| after.contains_key(m) && passes(after[m]),
            ));
            assert(res.load_imports_eagerly@ =~= Set::new(
                |m: Seq<char>| after.contains_key(m) && is_eager(after[m]),
            ));
            let listed = implicit_of(before);
            if has_implicit(results[key]) {
                let new = results[key]->Analyzed_0.deep_view().implicit_imports;
                assert(implicit_of(after) =~= listed.insert(key, new));
            } else {
                assert(implicit_of(after) =~= listed);
            }
            assert forall|k: (Seq<char>, Seq<char>)| {
                &&& #[trigger] res.aggregated_errors@.contains_key(k) <==> modules_with(after, k).len() > 0
                &&& res.aggregated_errors@.contains_key(k) ==> res.aggregated_errors@[k] == modules_with(
                    after,
                    k,
                ).len()
            } by {
                lemma_count_step(before, key, results[key], k, keys.take(i as int).to_set());
                assert(old_counts.contains_key(k) <==> modules_with(before, k).len() > 0);
            }
        }
    }
    proof {
        assert(keys.take(n as int) =~= keys);
        assert(part_of(results, keys, n as int) =~= results) by {
            assert forall|m: Seq<char>| results.contains_key(m) implies keys.take(n as int).contains(m) by {
                assert(keys.contains(m));
            }
        }
    }
    res
}

/// The results of the first few modules.
spec fn part_of(results: Map<Seq<char>, SafetyResult>, keys: Seq<Seq<char>>, i: int) -> Map<
    Seq<char>,
    SafetyResult,
> {
    results.restrict(keys.take(i).to_set())
}

proof fn lemma_counts_bounded(results: Map<Seq<char>, SafetyResult>, keys: Seq<Seq<char>>, i: int)
    requires
        0 <= i <= keys.len(),
        results.dom().subset_of(keys.take(i).to_set()),
    ensures
        forall|key: (Seq<char>, Seq<char>)| #[trigger] modules_with(results, key).len() <= i,
{
    let some = keys.take(i);
    assert forall|key: (Seq<char>, Seq<char>)| #[trigger] modules_with(results, key).len() <= i by {
        assert(modules_with(results, key).subset_of(some.to_set()));
        some.lemma_cardinality_of_set();
        vstd::set_lib::lemma_len_subset(modules_with(results, key), some.to_set());
    }
}

proof fn lemma_count_step(
    before: Map<Seq<char>, SafetyResult>,
    name: Seq<char>,
    result: SafetyResult,
    key: (Seq<char>, Seq<char>),
    bound: Set<Seq<char>>,
)
    requires
        !before.contains_key(name),
        bound.finite(),
        before.dom().subset_of(bound),
    ensures
        modules_with(before.insert(name, result), key).len() == modules_with(before, key).len() + (
        if keys_of(result).contains(key) {
            1nat
        } else {
            0nat
        }),
{
    let after = before.insert(name, result);
    vstd::set_lib::lemma_len_subset(modules_with(before, key), bound);
    if keys_of(result).contains(key) {
        assert(modules_with(after, key) =~= modules_with(before, key).insert(name));
    } else {
        assert(modules_with(after, key) =~= modules_with(before, key));
    }
}

/// Every module that there is a result for either passes or fails, and no other does.
pub proof fn modules_pass_or_fail(
    c: &ClassifiedModules,
    results: Map<Seq<char>, SafetyResult>,
    module: Seq<char>,
)
    requires
        classified(c, results),
    ensures
        results.contains_key(module) <==> c.passing_modules@.contains(module) || c.failing_modules@.contains(
            module,
        ),
        !(c.passing_modules@.contains(module) && c.failing_modules@.contains(module)),
{
}

} // verus!
