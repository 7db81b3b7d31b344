//! What the effects that a stub declares come to.

use crate::effects::{EffectKind, EffectView};
use crate::stub_analyzer::{says_none, stub_table, without_unknown};
use crate::stub_occurrences::has_effect;
use vstd::prelude::*;

verus! {

/// A scope that declares effects has them, unless it also declares that it has none.
pub proof fn stubs_have_the_effects_that_they_declare(
    table: Map<Seq<char>, Seq<EffectView>>,
    scope: Seq<char>,
    e: EffectView,
)
    requires
        has_effect(table, scope, e),
        e.kind != EffectKind::UnknownEffects,
        forall|i: int| 0 <= i < table[scope].len() ==> (#[trigger] table[scope][i]).kind != EffectKind::NoEffects,
    ensures
        has_effect(stub_table(table), scope, e),
{
    let effs = table[scope];
    let keep = |x: EffectView| x.kind != EffectKind::UnknownEffects;
    lemma_filtered(effs, keep, e);
    if says_none(without_unknown(effs)) {
        let i = choose|i: int|
            0 <= i < without_unknown(effs).len() && (#[trigger] without_unknown(effs)[i]).kind == EffectKind::NoEffects;
        let x = without_unknown(effs)[i];
        lemma_filtered(effs, keep, x);
        assert(without_unknown(effs).contains(x));
        assert(effs.contains(x));
        assert(effs[effs.index_of(x)] == x);
    }
}

/// A scope that declares that it has no effects has none.
pub proof fn scopes_without_effects_have_none(
    table: Map<Seq<char>, Seq<EffectView>>,
    scope: Seq<char>,
    i: int,
)
    requires
        table.contains_key(scope),
        0 <= i < table[scope].len(),
        table[scope][i].kind == EffectKind::NoEffects,
    ensures
        !stub_table(table).contains_key(scope),
{
    let effs = table[scope];
    let keep = |x: EffectView| x.kind != EffectKind::UnknownEffects;
    lemma_filtered(effs, keep, effs[i]);
    assert(effs.contains(effs[i]));
    let left = without_unknown(effs);
    assert(left.contains(effs[i]));
    assert(left[left.index_of(effs[i])].kind == EffectKind::NoEffects);
}

/// What a stub comes to has no effects but those of its table, and that the effects of a scope are not
/// known only where it declares nothing else.
pub proof fn stubs_come_to_what_they_declare(
    table: Map<Seq<char>, Seq<EffectView>>,
    scope: Seq<char>,
    e: EffectView,
)
    requires
        has_effect(stub_table(table), scope, e),
    ensures
        has_effect(table, scope, e),
        e.kind != EffectKind::NoEffects,
        e.kind == EffectKind::UnknownEffects ==> table[scope].len() == 1,
{
    let effs = table[scope];
    let keep = |x: EffectView| x.kind != EffectKind::UnknownEffects;
    lemma_filtered(effs, keep, e);
    let left = without_unknown(effs);
    assert(left[left.index_of(e)] == e);
}

proof fn lemma_filtered(s: Seq<EffectView>, keep: spec_fn(EffectView) -> bool, x: EffectView)
    ensures
        s.filter(keep).contains(x) <==> s.contains(x) && keep(x),
    decreases s.len(),
{
    reveal(Seq::filter);
    if s.len() > 0 {
        let front = s.drop_last();
        lemma_filtered(front, keep, x);
        let before = front.filter(keep);
        let after = s.filter(keep);
        if keep(s.last()) {
            assert(after == before.push(s.last()));
            assert(after.last() == s.last());
            if before.contains(x) {
                assert(after[before.index_of(x)] == x);
            }
            if after.contains(x) && x != s.last() {
                assert(before[after.index_of(x)] == x);
            }
        } else {
            assert(after == before);
        }
        if front.contains(x) {
            assert(s[front.index_of(x)] == x);
        }
        if s.contains(x) && x != s.last() {
            assert(front[s.index_of(x)] == x);
        }
    }
}

} // verus!
