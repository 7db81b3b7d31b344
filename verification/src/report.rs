//! What people read of a result.

use crate::attribute::{attributes_of, module_part};
use crate::classify::ErrorCounts;
use crate::errors::ErrorKind;
use crate::format::ErrorString;
use crate::module_name::{texts, ModuleName};
use crate::output::LifeGuardAnalysis;
use crate::text::{decimal, decimal_text, join, joined, strings};
use vstd::prelude::*;
use vstd::string::*;

verus! {

/// An error and how many modules have it.
pub struct CountedError {
    pub kind: ErrorKind,
    pub metadata: String,
    pub count: usize,
}

/// What a [`CountedError`] is.
pub struct CountedView {
    pub kind: ErrorKind,
    pub metadata: Seq<char>,
    pub count: usize,
}

impl DeepView for CountedError {
    type V = CountedView;

    open spec fn deep_view(&self) -> CountedView {
        CountedView { kind: self.kind, metadata: self.metadata@, count: self.count }
    }
}

/// An error has the given count.
pub open spec fn is_counted(counts: &ErrorCounts, e: CountedView) -> bool {
    counts@.contains_key((e.kind.text(), e.metadata)) && counts@[(e.kind.text(), e.metadata)] == e.count
}

/// A list of errors by falling counts.
pub open spec fn by_falling_count(list: Seq<CountedView>) -> bool {
    forall|i: int, j: int| 0 <= i < j < list.len() ==> (#[trigger] list[i]).count >= (#[trigger] list[j]).count
}

/// A list holds the errors with the highest counts, at most so many as are asked for, by falling
/// counts. It is shorter only where it holds all of them.
pub open spec fn most_frequent(counts: &ErrorCounts, limit: nat, list: Seq<CountedView>) -> bool {
    &&& by_falling_count(list)
    &&& list.no_duplicates()
    &&& list.len() <= limit
    &&& forall|i: int| 0 <= i < list.len() ==> is_counted(counts, #[trigger] list[i])
    &&& forall|e: CountedView| #[trigger]
        is_counted(counts, e) && !list.contains(e) ==> list.len() == limit && (limit > 0
            ==> list.last().count >= e.count)
}

/// Puts an error into a list of limited length by falling counts. Where the list is full, the
/// error with the lowest count drops out.
fn insert_by_count(list: &mut Vec<CountedError>, error: CountedError, limit: usize)
    requires
        by_falling_count(old(list).deep_view()),
        old(list).deep_view().no_duplicates(),
        !old(list).deep_view().contains(error.deep_view()),
        old(list)@.len() <= limit,
    ensures
        by_falling_count(final(list).deep_view()),
        final(list).deep_view().no_duplicates(),
        final(list)@.len() <= limit,
        final(list)@.len() >= old(list)@.len(),
        final(list)@.len() < limit ==> final(list)@.len() == old(list)@.len() + 1,
        forall|e: CountedView| #[trigger]
            final(list).deep_view().contains(e) ==> old(list).deep_view().contains(e) || e
                == error.deep_view(),
        forall|e: CountedView|
            (old(list).deep_view().contains(e) || e == error.deep_view())
                && !#[trigger] final(list).deep_view().contains(e) ==> final(list)@.len() == limit && (limit
                > 0 ==> final(list).deep_view().last().count >= e.count),
        old(list)@.len() == limit && limit > 0 ==> final(list).deep_view().last().count >= old(
            list,
        ).deep_view().last().count,
{
    let ghost before = list.deep_view();
    let ghost new = error.deep_view();
    let mut i: usize = 0;
    while i < list.len() && list[i].count >= error.count
        invariant
            i <= list@.len(),
            before == list.deep_view(),
            new == error.deep_view(),
            forall|j: int| 0 <= j < i ==> (#[trigger] before[j]).count >= new.count,
        decreases list@.len() - i,
    {
        i = i + 1;
    }
    proof {
        assert forall|j: int| i <= j < before.len() implies (#[trigger] before[j]).count < new.count by {
            if j > i {
                assert(before[i as int].count >= before[j].count);
            }
        }
    }
    list.insert(i, error);
    let ghost longer = list.deep_view();
    proof {
        assert(longer =~= before.insert(i as int, new));
        lemma_insert_sorted(before, i as int, new);
    }
    if list.len() > limit {
        let dropped = list.pop();
        proof {
            assert(list.deep_view() =~= longer.drop_last());
            lemma_drop_lowest(longer);
            if limit > 0 {
                assert(longer.drop_last().last() == longer[longer.len() - 2]);
                if before.len() == limit {
                    if i < before.len() {
                        assert(longer.last() == before.last());
                    } else {
                        assert(longer.drop_last().last() == before.last());
                    }
                }
            }
        }
    }
}

proof fn lemma_insert_sorted(before: Seq<CountedView>, i: int, new: CountedView)
    requires
        0 <= i <= before.len(),
        by_falling_count(before),
        before.no_duplicates(),
        !before.contains(new),
        forall|j: int| 0 <= j < i ==> (#[trigger] before[j]).count >= new.count,
        forall|j: int| i <= j < before.len() ==> (#[trigger] before[j]).count < new.count,
    ensures
        by_falling_count(before.insert(i, new)),
        before.insert(i, new).no_duplicates(),
        forall|e: CountedView| #[trigger]
            before.insert(i, new).contains(e) <==> before.contains(e) || e == new,
{
    let longer = before.insert(i, new);
    assert(longer[i] == new);
    assert forall|j: int, k: int| 0 <= j < k < longer.len() implies (#[trigger] longer[j]).count >= (
    #[trigger] longer[k]).count by {
        if j != i {
            assert(longer[j] == before[if j < i { j } else { j - 1 }]);
        }
        if k != i {
            assert(longer[k] == before[if k < i { k } else { k - 1 }]);
        }
    }
    assert forall|j: int, k: int| 0 <= j < longer.len() && 0 <= k < longer.len() && j != k implies longer[j]
        != longer[k] by {
        let a = if j < i { j } else { j - 1 };
        let b = if k < i { k } else { k - 1 };
        if j != i {
            assert(longer[j] == before[a]);
            assert(before.contains(before[a]));
        }
        if k != i {
            assert(longer[k] == before[b]);
            assert(before.contains(before[b]));
        }
    }
    assert forall|e: CountedView| #[trigger] longer.contains(e) <==> before.contains(e) || e == new by {
        if before.contains(e) {
            let j = before.index_of(e);
            assert(longer[if j < i { j } else { j + 1 }] == e);
        }
        if longer.contains(e) {
            let j = longer.index_of(e);
            if j != i {
                assert(before[if j < i { j } else { j - 1 }] == e);
            }
        }
    }
}

proof fn lemma_drop_lowest(list: Seq<CountedView>)
    requires
        list.len() > 0,
        by_falling_count(list),
        list.no_duplicates(),
    ensures
        by_falling_count(list.drop_last()),
        list.drop_last().no_duplicates(),
        list.len() > 1 ==> list[list.len() - 2].count >= list.last().count,
        forall|e: CountedView| #[trigger]
            list.drop_last().contains(e) <==> list.contains(e) && e != list.last(),
{
    let after = list.drop_last();
    assert forall|e: CountedView| #[trigger] after.contains(e) <==> list.contains(e) && e != list.last() by {
        if list.contains(e) {
            let j = list.index_of(e);
            if j < after.len() {
                assert(after[j] == e);
            }
        }
        if after.contains(e) {
            let j = after.index_of(e);
            assert(list[j] == e);
        }
    }
}

impl LifeGuardAnalysis {
    /// The errors with the highest counts.
    pub fn most_frequent_errors(&self, limit: usize) -> (res: Vec<CountedError>)
        ensures
            most_frequent(&self.aggregated_errors, limit as nat, res.deep_view()),
    {
        let kinds = ErrorKind::all();
        let mut res: Vec<CountedError> = Vec::new();
        let ghost counts = self.aggregated_errors@;
        proof {
            assert(res.deep_view() =~= Seq::empty());
        }
        for k in 0..kinds.len()
            invariant
                counts == self.aggregated_errors@,
                forall|i: int| 0 <= i < kinds@.len() ==> (#[trigger] kinds@[i]).place() == i,
                kinds@.len() == 16,
                most_frequent_of(
                    counts,
                    limit as nat,
                    res.deep_view(),
                    |e: CountedView| e.kind.place() < k,
                ),
        {
            let kind = kinds[k];
            let name = ModuleName::from_string(kind.error_string());
            if let Some(attrs) = self.aggregated_errors.attrs_of(&name) {
                let n: usize = attrs.len();
                let ghost keys = attrs.keys();
                proof {
                    assert(kind.place() == k);
                    lemma_same_scope(
                        counts,
                        limit as nat,
                        res.deep_view(),
                        |e: CountedView| e.kind.place() < k,
                        |e: CountedView|
                            e.kind.place() < k || (e.kind == kind && keys.take(0).contains(e.metadata)),
                    );
                }
                for i in 0..n
                    invariant
                        n == keys.len(),
                        keys == attrs.keys(),
                        attrs.ordered(),
                        attrs@ == module_part(counts, kind.text()),
                        kind.place() == k,
                        most_frequent_of(
                            counts,
                            limit as nat,
                            res.deep_view(),
                            |e: CountedView|
                                e.kind.place() < k || (e.kind == kind && keys.take(i as int).contains(
                                    e.metadata,
                                )),
                        ),
                {
                    let ghost before = res.deep_view();
                    let ghost scope = |e: CountedView|
                        e.kind.place() < k || (e.kind == kind && keys.take(i as int).contains(
                            e.metadata,
                        ));
                    let ghost wider = |e: CountedView|
                        e.kind.place() < k || (e.kind == kind && keys.take(i + 1).contains(
                            e.metadata,
                        ));
                    let error = CountedError {
                        kind,
                        metadata: attrs.key_at(i).as_string().clone(),
                        count: *attrs.value_at(i),
                    };
                    let ghost new = error.deep_view();
                    proof {
                        crate::name_set::lemma_take_more(keys, i as int);
                        assert(new.metadata == keys[i as int]);
                        assert(!keys.take(i as int).contains(new.metadata)) by {
                            if keys.take(i as int).contains(new.metadata) {
                                let j = keys.take(i as int).index_of(new.metadata);
                                assert(keys[j] == new.metadata);
                            }
                        }
                        assert(!scope(new));
                        assert(!before.contains(new)) by {
                            if before.contains(new) {
                                let j = before.index_of(new);
                                assert(scope(before[j]));
                            }
                        }
                        assert(counts.contains_key((kind.text(), new.metadata)));
                    }
                    insert_by_count(&mut res, error, limit);
                    proof {
                        assert forall|e: CountedView| counted_in(counts, e) && #[trigger] wider(e) implies scope(
                            e,
                        ) || e == new by {
                            assert(keys.take(i + 1).to_set().contains(e.metadata) <==> keys.take(
                                i as int,
                            ).to_set().contains(e.metadata) || e.metadata == new.metadata);
                        }
                        assert forall|e: CountedView| #[trigger] scope(e) implies wider(e) by {
                            assert(keys.take(i + 1).to_set().contains(e.metadata) <==> keys.take(
                                i as int,
                            ).to_set().contains(e.metadata) || e.metadata == new.metadata);
                        }
                        assert(wider(new)) by {
                            assert(keys.take(i + 1).to_set().contains(new.metadata));
                        }
                        lemma_inserted(counts, limit as nat, before, res.deep_view(), new, scope, wider);
                    }
                }
                proof {
                    assert(keys.take(n as int) =~= keys);
                    let scope = |e: CountedView|
                        e.kind.place() < k || (e.kind == kind && keys.take(n as int).contains(e.metadata));
                    let wider = |e: CountedView| e.kind.place() < k + 1;
                    assert forall|e: CountedView| counted_in(counts, e) && #[trigger] wider(e) implies scope(
                        e,
                    ) by {
                        if e.kind.place() == k {
                            assert(e.kind == kind);
                            assert(attrs@.contains_key(e.metadata));
                        }
                    }
                    assert forall|e: CountedView| counted_in(counts, e) && scope(e) implies #[trigger] wider(e) by {}
                    lemma_same_scope(counts, limit as nat, res.deep_view(), scope, wider);
                }
            } else {
                proof {
                    let scope = |e: CountedView| e.kind.place() < k;
                    let wider = |e: CountedView| e.kind.place() < k + 1;
                    assert(kind.place() == k);
                    assert forall|e: CountedView| counted_in(counts, e) && #[trigger] wider(e) implies scope(
                        e,
                    ) by {
                        if e.kind.place() == k {
                            assert(e.kind == kind);
                            assert(module_part(counts, kind.text()).contains_key(e.metadata));
                        }
                    }
                    lemma_same_scope(counts, limit as nat, res.deep_view(), scope, wider);
                }
            }
        }
        proof {
            let list = res.deep_view();
            assert forall|e: CountedView| #[trigger]
                is_counted(&self.aggregated_errors, e) && !list.contains(e) implies list.len() == limit && (
            limit > 0 ==> list.last().count >= e.count) by {
                assert(counted_in(counts, e));
            }
            assert forall|i: int| 0 <= i < list.len() implies is_counted(
                &self.aggregated_errors,
                #[trigger] list[i],
            ) by {
                assert(counted_in(counts, list[i]));
            }
        }
        res
    }
}

/// An error has the given count.
spec fn counted_in(counts: Map<(Seq<char>, Seq<char>), usize>, e: CountedView) -> bool {
    counts.contains_key((e.kind.text(), e.metadata)) && counts[(e.kind.text(), e.metadata)] == e.count
}

/// A list holds the errors with the highest counts among those that are looked at.
spec fn most_frequent_of(
    counts: Map<(Seq<char>, Seq<char>), usize>,
    limit: nat,
    list: Seq<CountedView>,
    scope: spec_fn(CountedView) -> bool,
) -> bool {
    &&& by_falling_count(list)
    &&& list.no_duplicates()
    &&& list.len() <= limit
    &&& forall|i: int|
        0 <= i < list.len() ==> counted_in(counts, #[trigger] list[i]) && scope(list[i])
    &&& forall|e: CountedView| #[trigger]
        counted_in(counts, e) && scope(e) && !list.contains(e) ==> list.len() == limit && (limit > 0
            ==> list.last().count >= e.count)
}

proof fn lemma_same_scope(
    counts: Map<(Seq<char>, Seq<char>), usize>,
    limit: nat,
    list: Seq<CountedView>,
    scope: spec_fn(CountedView) -> bool,
    other: spec_fn(CountedView) -> bool,
)
    requires
        most_frequent_of(counts, limit, list, scope),
        forall|e: CountedView| counted_in(counts, e) && #[trigger] other(e) ==> scope(e),
        forall|e: CountedView| counted_in(counts, e) && scope(e) ==> #[trigger] other(e),
    ensures
        most_frequent_of(counts, limit, list, other),
{
}

proof fn lemma_inserted(
    counts: Map<(Seq<char>, Seq<char>), usize>,
    limit: nat,
    before: Seq<CountedView>,
    after: Seq<CountedView>,
    new: CountedView,
    scope: spec_fn(CountedView) -> bool,
    wider: spec_fn(CountedView) -> bool,
)
    requires
        most_frequent_of(counts, limit, before, scope),
        counted_in(counts, new),
        wider(new),
        forall|e: CountedView| counted_in(counts, e) && #[trigger] wider(e) ==> scope(e) || e == new,
        forall|e: CountedView| #[trigger] scope(e) ==> wider(e),
        by_falling_count(after),
        after.no_duplicates(),
        before.len() <= after.len() <= limit,
        forall|e: CountedView| #[trigger] after.contains(e) ==> before.contains(e) || e == new,
        forall|e: CountedView|
            (before.contains(e) || e == new) && !#[trigger] after.contains(e) ==> after.len() == limit && (
            limit > 0 ==> after.last().count >= e.count),
        before.len() == limit && limit > 0 ==> after.last().count >= before.last().count,
    ensures
        most_frequent_of(counts, limit, after, wider),
{
    assert forall|i: int| 0 <= i < after.len() implies counted_in(counts, #[trigger] after[i]) && wider(
        after[i],
    ) by {
        assert(after.contains(after[i]));
        if before.contains(after[i]) {
            let j = before.index_of(after[i]);
            assert(counted_in(counts, before[j]) && scope(before[j]));
        }
    }
    assert forall|e: CountedView| #[trigger]
        counted_in(counts, e) && wider(e) && !after.contains(e) implies after.len() == limit && (limit > 0
        ==> after.last().count >= e.count) by {
        if !before.contains(e) && e != new {
            assert(scope(e));
            assert(before.len() == limit);
        }
    }
}

/// A line of the report on an error.
pub open spec fn error_line(e: CountedView) -> Seq<char> {
    decimal(e.count as nat) + ", ("@ + e.kind.declared_name() + ", \""@ + e.metadata + "\")"@
}

fn error_line_text(e: &CountedError) -> (res: String)
    ensures
        res@ == error_line(e.deep_view()),
{
    let mut res = decimal_text(e.count as u64);
    res.append(", (");
    res.append(e.kind.name());
    res.append(", \"");
    res.append(e.metadata.as_str());
    res.append("\")");
    res
}

/// All counts together.
pub open spec fn total(counts: Map<(Seq<char>, Seq<char>), usize>) -> nat
    decreases counts.dom().len(),
{
    if counts.dom().finite() && counts.dom().len() > 0 {
        let key = counts.dom().choose();
        counts[key] as nat + total(counts.remove(key))
    } else {
        0
    }
}

/// It does not matter which count is added last.
proof fn lemma_total(counts: Map<(Seq<char>, Seq<char>), usize>, key: (Seq<char>, Seq<char>))
    requires
        counts.dom().finite(),
        counts.contains_key(key),
    ensures
        total(counts) == counts[key] + total(counts.remove(key)),
    decreases counts.dom().len(),
{
    let last = counts.dom().choose();
    if last != key {
        lemma_total(counts.remove(last), key);
        lemma_total(counts.remove(key), last);
        assert(counts.remove(last).remove(key) =~= counts.remove(key).remove(last));
    }
}

impl LifeGuardAnalysis {
    /// How many errors all modules have, where each module counts an error once.
    pub fn total_errors(&self) -> (res: u128)
        ensures
            res == total(self.aggregated_errors@),
    {
        let keys = self.aggregated_errors.attributes();
        let ghost names = attributes_of(keys@);
        let ghost counts = self.aggregated_errors@;
        let ghost mut rest = counts;
        let mut sum: u128 = 0;
        let n: usize = keys.len();
        proof {
            names.unique_seq_to_set();
        }
        for i in 0..n
            invariant
                n == keys@.len(),
                names == attributes_of(keys@),
                names.no_duplicates(),
                counts == self.aggregated_errors@,
                rest.dom().finite(),
                forall|k: (Seq<char>, Seq<char>)| #[trigger]
                    rest.contains_key(k) <==> counts.contains_key(k) && !names.take(i as int).contains(k),
                forall|k: (Seq<char>, Seq<char>)| #[trigger] rest.contains_key(k) ==> rest[k] == counts[k],
                names.to_set() == counts.dom(),
                sum + total(rest) == total(counts),
                sum <= i * 0xffff_ffff_ffff_ffff,
        {
            let ghost key = names[i as int];
            proof {
                assert(keys@[i as int]@ == key);
                assert(names.to_set().contains(key));
                assert(!names.take(i as int).contains(key));
                lemma_total(rest, key);
                assert(names.take(i + 1) =~= names.take(i as int).push(key));
                assert forall|k: (Seq<char>, Seq<char>)| #[trigger]
                    names.take(i + 1).contains(k) == (names.take(i as int).contains(k) || k == key) by {
                    let before = names.take(i as int);
                    if before.contains(k) {
                        assert(names.take(i + 1)[before.index_of(k)] == k);
                    }
                    if k == key {
                        assert(names.take(i + 1)[i as int] == k);
                    }
                    if names.take(i + 1).contains(k) && k != key {
                        assert(before[names.take(i + 1).index_of(k)] == k);
                    }
                }
            }
            if let Some(count) = self.aggregated_errors.get(&keys[i]) {
                sum = sum + *count as u128;
            }
            proof {
                rest = rest.remove(key);
            }
        }
        proof {
            assert(names.take(n as int) =~= names);
            assert forall|k: (Seq<char>, Seq<char>)| !rest.contains_key(k) by {
                if counts.contains_key(k) {
                    assert(names.to_set().contains(k));
                }
            }
            assert(rest.dom() =~= Set::empty());
        }
        sum
    }
}

/// The text of a report, with the rate of passing files and the mean number of errors as texts.
pub open spec fn report_text(
    errors: Seq<CountedView>,
    pass_rate: Seq<char>,
    mean_errors: Seq<char>,
    failing: nat,
    passing: nat,
    eager: nat,
) -> Seq<char> {
    joined(errors.map_values(|e: CountedView| error_line(e)), "\n"@)
        + "\nPASS RATE BY FILE %    | AVG NUM OF ERRORS IN FAILING MODULES\n"@ + pass_rate
        + " %                | "@ + mean_errors + "\nNum of failing files: "@ + decimal(failing)
        + "\nNum of passing files: "@ + decimal(passing) + "\nNum of load-imports-eagerly modules: "@
        + decimal(eager)
}

impl LifeGuardAnalysis {
    /// The report on a result: the most frequent errors and some counts. The rate of passing
    /// files in percent and the mean number of errors in failing files are given as texts.
    pub fn get_report(&self, pass_rate: &str, mean_errors: &str) -> (res: String)
        ensures
            exists|errors: Seq<CountedView>| #[trigger]
                most_frequent(&self.aggregated_errors, 20, errors) && res@ == report_text(
                    errors,
                    pass_rate@,
                    mean_errors@,
                    self.failing_modules@.len(),
                    self.passing_modules@.len(),
                    self.output.load_imports_eagerly@.len(),
                ),
    {
        let errors = self.most_frequent_errors(20);
        let ghost views = errors.deep_view();
        let mut lines: Vec<String> = Vec::new();
        proof {
            assert(strings(lines@) =~= views.take(0).map_values(|e: CountedView| error_line(e)));
        }
        for i in 0..errors.len()
            invariant
                views == errors.deep_view(),
                strings(lines@) == views.take(i as int).map_values(|e: CountedView| error_line(e)),
        {
            let ghost before = strings(lines@);
            lines.push(error_line_text(&errors[i]));
            proof {
                assert(strings(lines@) =~= before.push(error_line(views[i as int])));
                assert(strings(lines@) =~= views.take(i + 1).map_values(|e: CountedView| error_line(e)));
            }
        }
        proof {
            assert(views.take(views.len() as int) =~= views);
        }
        let mut res = join(&lines, "\n");
        res.append("\nPASS RATE BY FILE %    | AVG NUM OF ERRORS IN FAILING MODULES\n");
        res.append(pass_rate);
        res.append(" %                | ");
        res.append(mean_errors);
        res.append("\nNum of failing files: ");
        res.append(decimal_text(self.failing_modules.len() as u64).as_str());
        res.append("\nNum of passing files: ");
        res.append(decimal_text(self.passing_modules.len() as u64).as_str());
        res.append("\nNum of load-imports-eagerly modules: ");
        res.append(decimal_text(self.output.load_imports_eagerly.len() as u64).as_str());
        proof {
            assert(most_frequent(&self.aggregated_errors, 20, views));
        }
        res
    }
}

} // verus!
