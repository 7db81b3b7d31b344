//! Effects in the order in which they are shown.

use crate::effects::{Effect, EffectData, EffectTable, EffectView};
use crate::module_name::{in_text_order, sort_names, str_eq, texts, ModuleName};
use crate::name_map::names_of;
use crate::text::{decimal, decimal_text, line_number, line_of, piece, piece_at};
use crate::text_range::TextRange;
use vstd::prelude::*;

verus! {

/// The effects that stand at one place.
pub open spec fn starts_at(start: u32) -> spec_fn(EffectView) -> bool {
    |e: EffectView| e.range.start == start
}

/// Effects are in the order of where they start.
pub open spec fn in_start_order(effs: Seq<EffectView>) -> bool {
    forall|i: int, j: int|
        0 <= i < j < effs.len() ==> (#[trigger] effs[i]).range.start <= (#[trigger] effs[j]).range.start
}

/// Effects were brought into the order of where they start. Those that start at one place keep
/// their order.
pub open spec fn by_start(effs: Seq<EffectView>, sorted: Seq<EffectView>) -> bool {
    in_start_order(sorted) && sorted.len() == effs.len() && forall|start: u32|
        sorted.filter(#[trigger] starts_at(start)) == effs.filter(starts_at(start))
}

/// Nothing in a sequence starts at a place.
proof fn lemma_none_start(effs: Seq<EffectView>, start: u32)
    requires
        forall|i: int| 0 <= i < effs.len() ==> (#[trigger] effs[i]).range.start != start,
    ensures
        effs.filter(starts_at(start)) == Seq::<EffectView>::empty(),
    decreases effs.len(),
{
    reveal(Seq::filter);
    if effs.len() > 0 {
        lemma_none_start(effs.drop_last(), start);
    }
}

/// One more effect is put behind those that start no later.
proof fn lemma_inserted(
    effs: Seq<EffectView>,
    sorted: Seq<EffectView>,
    x: EffectView,
    p: int,
    more: Seq<EffectView>,
)
    requires
        by_start(effs, sorted),
        0 <= p <= sorted.len(),
        forall|i: int| 0 <= i < p ==> (#[trigger] sorted[i]).range.start <= x.range.start,
        forall|i: int| p <= i < sorted.len() ==> x.range.start < (#[trigger] sorted[i]).range.start,
        more == sorted.take(p).push(x) + sorted.skip(p),
    ensures
        by_start(effs.push(x), more),
{
    let low = sorted.take(p);
    let high = sorted.skip(p);
    assert(sorted =~= low + high);
    assert forall|i: int, j: int| 0 <= i < j < more.len() implies (#[trigger] more[i]).range.start <= (
    #[trigger] more[j]).range.start by {
        let a = if i < p {
            i
        } else {
            i - 1
        };
        let b = if j < p {
            j
        } else {
            j - 1
        };
        if i != p {
            assert(more[i] == sorted[a]);
        }
        if j != p {
            assert(more[j] == sorted[b]);
        }
        if i != p && j != p {
            assert(sorted[a].range.start <= sorted[b].range.start);
        }
    }
    assert forall|start: u32| more.filter(#[trigger] starts_at(start)) == effs.push(x).filter(
        starts_at(start),
    ) by {
        let pred = starts_at(start);
        Seq::filter_distributes_over_add(low.push(x), high, pred);
        Seq::filter_distributes_over_add(low, high, pred);
        reveal(Seq::filter);
        assert(low.push(x).drop_last() =~= low);
        assert(effs.push(x).drop_last() =~= effs);
        if x.range.start == start {
            lemma_none_start(high, start);
            assert(low.filter(pred) + Seq::<EffectView>::empty() =~= low.filter(pred));
            assert(low.filter(pred).push(x) + Seq::<EffectView>::empty() =~= low.filter(pred).push(x));
        }
    }
}

/// Brings effects into the order of where they start.
pub fn sort_by_start(effs: &Vec<Effect>) -> (res: Vec<Effect>)
    ensures
        by_start(effs.deep_view(), res.deep_view()),
{
    let mut res: Vec<Effect> = Vec::new();
    let ghost all = effs.deep_view();
    proof {
        assert(res.deep_view() =~= all.take(0));
    }
    for i in 0..effs.len()
        invariant
            all == effs.deep_view(),
            by_start(all.take(i as int), res.deep_view()),
    {
        let eff = effs[i].clone();
        let ghost x = eff.deep_view();
        let ghost before = res.deep_view();
        let mut p: usize = res.len();
        while p > 0 && res[p - 1].range.start > eff.range.start
            invariant
                before == res.deep_view(),
                in_start_order(before),
                x == eff.deep_view(),
                p <= res@.len(),
                forall|j: int| p <= j < before.len() ==> x.range.start < (#[trigger] before[j]).range.start,
            decreases p,
        {
            p = p - 1;
            proof {
                assert(before[p as int] == res@[p as int].deep_view());
            }
        }
        proof {
            assert forall|j: int| 0 <= j < p implies (#[trigger] before[j]).range.start <= x.range.start by {
                assert(before[p - 1] == res@[p - 1].deep_view());
                if j < p - 1 {
                    assert(before[j].range.start <= before[p - 1].range.start);
                }
            }
        }
        res.insert(p, eff);
        proof {
            let more = before.take(p as int).push(x) + before.skip(p as int);
            assert(res.deep_view() =~= more);
            lemma_inserted(all.take(i as int), before, x, p as int, more);
            assert(all.take(i + 1) =~= all.take(i as int).push(x));
        }
    }
    proof {
        assert(all.take(all.len() as int) =~= all);
    }
    res
}

/// Effects are listed by scope, in the order of the names of the scopes, and for each scope in the
/// order of where they start.
pub open spec fn listed_for_report(
    table: Map<Seq<char>, Seq<EffectView>>,
    list: Seq<(ModuleName, Vec<Effect>)>,
) -> bool {
    &&& in_text_order(names_of(list))
    &&& names_of(list).no_duplicates()
    &&& names_of(list).to_set() == table.dom()
    &&& forall|i: int|
        0 <= i < list.len() ==> by_start(table[(#[trigger] list[i]).0@], list[i].1.deep_view())
}

impl EffectTable {
    /// Lists the effects as they are shown.
    pub fn report(&self) -> (res: Vec<(ModuleName, Vec<Effect>)>)
        ensures
            listed_for_report(self.deep_view(), res@),
    {
        let names = sort_names(&self.keys());
        let n: usize = self.len();
        let ghost all = texts(names@);
        let mut res: Vec<(ModuleName, Vec<Effect>)> = Vec::new();
        proof {
            let keys = self.effects().keys();
            crate::name_map::lemma_no_duplicates_by_multiset(keys, all);
            keys.to_multiset_ensures();
            all.to_multiset_ensures();
            assert forall|k: Seq<char>| all.to_set().contains(k) <==> self.deep_view().dom().contains(k) by {
                assert(all.contains(k) <==> all.to_multiset().count(k) > 0);
                assert(keys.contains(k) <==> keys.to_multiset().count(k) > 0);
                assert(keys.contains(k) <==> self.effects()@.contains_key(k));
            }
            assert(all.to_set() =~= self.deep_view().dom());
            assert(names_of(res@) =~= all.take(0));
        }
        for i in 0..names.len()
            invariant
                all == texts(names@),
                all.to_set() == self.deep_view().dom(),
                names_of(res@) == all.take(i as int),
                forall|j: int|
                    0 <= j < res@.len() ==> by_start(
                        self.deep_view()[(#[trigger] res@[j]).0@],
                        res@[j].1.deep_view(),
                    ),
        {
            let ghost before = names_of(res@);
            proof {
                assert(all[i as int] == names@[i as int]@);
                assert(all.contains(all[i as int]));
                assert(all.to_set().contains(all[i as int]));
            }
            if let Some(effs) = self.get(&names[i]) {
                res.push((names[i].clone(), sort_by_start(effs)));
                proof {
                    assert(names_of(res@) =~= before.push(all[i as int]));
                    assert(names_of(res@) =~= all.take(i + 1));
                }
            }
        }
        proof {
            assert(all.take(all.len() as int) =~= all);
        }
        res
    }
}

/// A line of a listing.
pub open spec fn line(indent: Seq<char>, label: Seq<char>, value: Seq<char>) -> Seq<char> {
    indent + label + value + "\n"@
}

/// What is shown of the code that an effect stands at.
pub open spec fn shown_code(code: Seq<char>, range: TextRange) -> Seq<char> {
    match piece(code, range.start as int, range.end as int) {
        Some(text) => text,
        None => "<Error: Can't resolve range "@ + decimal(range.start as nat) + ".."@ + decimal(
            range.end as nat,
        ) + ">"@,
    }
}

/// An effect as it is shown.
pub open spec fn effect_text(eff: EffectView, code: Seq<char>, show_expr: bool) -> Seq<char> {
    let indent = "        "@;
    line("    "@, "Line "@, decimal(line_of(code, eff.range.start as int)) + ":"@) + line(
        indent,
        "Effect: "@,
        eff.kind.declared_name(),
    ) + (if show_expr {
        line(indent, "Expr: "@, shown_code(code, eff.range))
    } else {
        Seq::empty()
    }) + (if eff.name.len() > 0 {
        line(indent, "Name: "@, eff.name)
    } else {
        Seq::empty()
    }) + (match eff.data {
        Some(call) => line(
            indent,
            "UnsafeArgs: "@,
            if call.has_unsafe_args {
                "true"@
            } else {
                "false"@
            },
        ),
        None => Seq::empty(),
    })
}

/// Effects as they are shown, one below the other.
pub open spec fn effects_text(effs: Seq<EffectView>, code: Seq<char>, show_expr: bool) -> Seq<char>
    decreases effs.len(),
{
    if effs.len() == 0 {
        Seq::empty()
    } else {
        effects_text(effs.drop_last(), code, show_expr) + effect_text(effs.last(), code, show_expr)
    }
}

/// A listing of effects as it is shown.
pub open spec fn report_text(
    list: Seq<(ModuleName, Vec<Effect>)>,
    code: Seq<char>,
    show_expr: bool,
) -> Seq<char>
    decreases list.len(),
{
    if list.len() == 0 {
        Seq::empty()
    } else {
        report_text(list.drop_last(), code, show_expr) + line(
            Seq::empty(),
            "Scope: "@,
            list.last().0@,
        ) + effects_text(list.last().1.deep_view(), code, show_expr)
    }
}

/// A text is the listing of effects.
pub open spec fn is_report_text(
    text: Seq<char>,
    table: Map<Seq<char>, Seq<EffectView>>,
    code: Seq<char>,
    show_expr: bool,
) -> bool {
    exists|list: Seq<(ModuleName, Vec<Effect>)>|
        listed_for_report(table, list) && text == #[trigger] report_text(list, code, show_expr)
}

fn add_line(text: &mut String, indent: &str, label: &str, value: &str)
    ensures
        final(text)@ == old(text)@ + line(indent@, label@, value@),
{
    text.append(indent);
    text.append(label);
    text.append(value);
    text.append("\n");
    proof {
        assert(text@ =~= old(text)@ + line(indent@, label@, value@));
    }
}

/// What is shown of the code that an effect stands at.
fn code_shown(code: &str, range: TextRange) -> (res: String)
    ensures
        res@ == shown_code(code@, range),
{
    match piece_at(code, range.start, range.end) {
        Some(text) => text,
        None => {
            let mut res = "<Error: Can't resolve range ".to_owned();
            res.append(decimal_text(range.start as u64).as_str());
            res.append("..");
            res.append(decimal_text(range.end as u64).as_str());
            res.append(">");
            res
        },
    }
}

fn add_effect_text(text: &mut String, eff: &Effect, code: &str, show_expr: bool)
    ensures
        final(text)@ == old(text)@ + effect_text(eff.deep_view(), code@, show_expr),
{
    let indent = "        ";
    let mut number = decimal_text(line_number(code, eff.range.start));
    number.append(":");
    add_line(text, "    ", "Line ", number.as_str());
    add_line(text, indent, "Effect: ", eff.kind.name());
    let ghost head = text@;
    let ghost coded: Seq<char> = if show_expr {
        line(indent@, "Expr: "@, shown_code(code@, eff.range))
    } else {
        Seq::empty()
    };
    if show_expr {
        add_line(text, indent, "Expr: ", code_shown(code, eff.range).as_str());
    }
    let ghost with_code = text@;
    if !str_eq(eff.name.as_str(), "") {
        add_line(text, indent, "Name: ", eff.name.as_str());
    }
    let ghost with_name = text@;
    match &eff.data {
        EffectData::Empty => {},
        EffectData::Call(call) => {
            if call.has_unsafe_args() {
                add_line(text, indent, "UnsafeArgs: ", "true");
            } else {
                add_line(text, indent, "UnsafeArgs: ", "false");
            }
        },
    }
    proof {
        let view = eff.deep_view();
        let named: Seq<char> = if view.name.len() > 0 {
            line(indent@, "Name: "@, view.name)
        } else {
            Seq::empty()
        };
        assert(with_code =~= head + coded);
        assert(with_name =~= with_code + named) by {
            reveal_strlit("");
            assert(""@ =~= Seq::<char>::empty());
            if view.name.len() == 0 {
                assert(view.name =~= ""@);
            }
        }
        assert(text@ =~= old(text)@ + effect_text(view, code@, show_expr));
    }
}

impl EffectTable {
    /// Shows the effects, with the code that they stand at where that is asked for.
    pub fn pretty_print(&self, file_contents: &str, show_expr: bool) -> (res: String)
        ensures
            is_report_text(res@, self.deep_view(), file_contents@, show_expr),
    {
        let list = self.report();
        let mut res = String::new();
        let ghost code = file_contents@;
        proof {
            assert(list@.take(0) =~= Seq::empty());
        }
        for i in 0..list.len()
            invariant
                code == file_contents@,
                res@ == report_text(list@.take(i as int), code, show_expr),
        {
            let ghost before = res@;
            let ghost all = list@[i as int].1.deep_view();
            add_line(&mut res, "", "Scope: ", list[i].0.as_str());
            let ghost headed = res@;
            let effs = &list[i].1;
            proof {
                assert(all.take(0) =~= Seq::empty());
                assert(effects_text(all.take(0), code, show_expr) =~= Seq::empty());
            }
            for k in 0..effs.len()
                invariant
                    code == file_contents@,
                    all == effs.deep_view(),
                    res@ == headed + effects_text(all.take(k as int), code, show_expr),
            {
                add_effect_text(&mut res, &effs[k], file_contents, show_expr);
                proof {
                    assert(all.take(k + 1).drop_last() =~= all.take(k as int));
                    assert(all.take(k + 1).last() == all[k as int]);
                    assert(res@ =~= headed + effects_text(all.take(k + 1), code, show_expr));
                }
            }
            proof {
                reveal_strlit("");
                assert(""@ =~= Seq::<char>::empty());
                assert(all.take(all.len() as int) =~= all);
                assert(list@.take(i + 1).drop_last() =~= list@.take(i as int));
                assert(list@.take(i + 1).last() == list@[i as int]);
                assert(res@ =~= report_text(list@.take(i + 1), code, show_expr));
            }
        }
        proof {
            assert(list@.take(list@.len() as int) =~= list@);
            assert(res@ == report_text(list@, code, show_expr));
        }
        res
    }
}

} // verus!
