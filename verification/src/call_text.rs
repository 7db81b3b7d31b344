//! Calls as text, for the reasons why a module could not be checked.

use crate::cursor::TryHandler;
use crate::effects::{
    forwards, ArgSlot, CallData, CallView, Effect, EffectData, EffectView, ImportedArgs, ImportedArgsView, SlotView,
};
use crate::module_name::{texts, ModuleName};
use crate::text::{decimal, decimal_text, join, joined, strings};
use vstd::prelude::*;
use vstd::string::*;

verus! {

/// A text as `Debug` shows it.
pub uninterp spec fn debug_of(text: Seq<char>) -> Seq<char>;

/// `Debug` of `str` shows a text between quotes, with its quotes, backslashes and characters that cannot
/// be shown escaped. Which ones these are is a matter of tables that are not written out here: its
/// result is only named.
#[verifier::external_body]
fn debug_text(text: &str) -> (res: String)
    ensures
        res@ == debug_of(text@),
{
    format!("{:?}", text)
}

/// A name as it is shown.
pub open spec fn shown_name(name: Seq<char>) -> Seq<char> {
    "ModuleName("@ + debug_of(name) + ")"@
}

/// Names as they are shown.
pub open spec fn shown_names(names: Seq<Seq<char>>) -> Seq<char> {
    "["@ + joined(names.map_values(|name: Seq<char>| shown_name(name)), ", "@) + "]"@
}

/// A truth value as it is shown.
pub open spec fn shown_bool(value: bool) -> Seq<char> {
    if value {
        "true"@
    } else {
        "false"@
    }
}

/// An index as it is shown, where there is one.
pub open spec fn shown_index(index: Option<usize>) -> Seq<char> {
    match index {
        Some(i) => "Some("@ + decimal(i as nat) + ")"@,
        None => "None"@,
    }
}

/// The place of an argument as it is shown.
pub open spec fn shown_slot(slot: SlotView) -> Seq<char> {
    match slot {
        SlotView::Positional(i) => "Positional("@ + decimal(i as nat) + ")"@,
        SlotView::Keyword(name) => "Keyword("@ + shown_name(name) + ")"@,
        SlotView::StarExpansion(i) => "StarExpansion("@ + decimal(i as nat) + ")"@,
    }
}

/// A forwarded parameter as it is shown.
pub open spec fn shown_forward(forward: (SlotView, Seq<char>)) -> Seq<char> {
    "("@ + shown_slot(forward.0) + ", "@ + shown_name(forward.1) + ")"@
}

/// The arguments of a call that are imported variables, as they are shown.
pub open spec fn shown_args(args: ImportedArgsView) -> Seq<char> {
    "ImportedArgs { unsafe_arg_indices: "@ + decimal(args.indices as nat) + ", unsafe_keyword_names: "@
        + shown_names(args.keywords) + ", has_unsafe_kwargs_expansion: "@ + shown_bool(args.kwargs_expansion)
        + ", unsafe_args_expansion_min: "@ + shown_index(args.args_expansion_min) + " }"@
}

/// What an effect carries beside its name, as it is shown.
pub open spec fn shown_data(data: Option<CallView>) -> Seq<char> {
    match data {
        Some(call) => "Call(CallData { has_unsafe_args: "@ + shown_bool(call.has_unsafe_args)
            + ", imported_args: "@ + shown_args(call.imported_args) + ", forwarded_params: ["@ + joined(
            call.forwarded_params.map_values(|f: (SlotView, Seq<char>)| shown_forward(f)),
            ", "@,
        ) + "] })"@,
        None => "None"@,
    }
}

/// A handler as it is shown.
pub open spec fn shown_handler(handler: Option<Seq<Seq<char>>>) -> Seq<char> {
    match handler {
        None => "Bare"@,
        Some(names) => if names.len() == 1 {
            "Single("@ + shown_name(names[0]) + ")"@
        } else {
            "Multiple("@ + shown_names(names) + ")"@
        },
    }
}

/// The handlers round a call as they are shown.
pub open spec fn shown_handlers(handlers: Option<Seq<Option<Seq<Seq<char>>>>>) -> Seq<char> {
    match handlers {
        Some(list) => "Some(["@ + joined(
            list.map_values(|h: Option<Seq<Seq<char>>>| shown_handler(h)),
            ", "@,
        ) + "])"@,
        None => "None"@,
    }
}

/// An effect as it is shown.
pub open spec fn shown_effect(eff: EffectView) -> Seq<char> {
    "Effect { kind: "@ + eff.kind.declared_name() + ", name: "@ + shown_name(eff.name) + ", range: "@ + decimal(
        eff.range.start as nat,
    ) + ".."@ + decimal(eff.range.end as nat) + ", data: "@ + shown_data(eff.data) + ", try_handlers: "@
        + shown_handlers(eff.try_handlers) + " }"@
}

/// A call in a scope of a module that runs when the module is imported, as it is shown.
pub open spec fn shown_call(module: Seq<char>, scope: Seq<char>, eff: EffectView) -> Seq<char> {
    "Call { caller_module: "@ + shown_name(module) + ", effect: "@ + shown_effect(eff) + ", func: "@
        + shown_name(eff.name) + ", stack: CallStack { entries: ["@ + shown_name(scope) + "], seen: {"@
        + shown_name(scope) + "} }, is_module_scope: true }"@
}

fn show_name(name: &ModuleName) -> (res: String)
    ensures
        res@ == shown_name(name@),
{
    let mut res: String = "ModuleName(".to_owned();
    res.append(debug_text(name.as_str()).as_str());
    res.append(")");
    res
}

fn show_names(names: &Vec<ModuleName>) -> (res: String)
    ensures
        res@ == shown_names(texts(names@)),
{
    let ghost all = texts(names@).map_values(|name: Seq<char>| shown_name(name));
    let mut parts: Vec<String> = Vec::new();
    for i in 0..names.len()
        invariant
            all == texts(names@).map_values(|name: Seq<char>| shown_name(name)),
            strings(parts@) == all.take(i as int),
    {
        let ghost before = strings(parts@);
        let part = show_name(&names[i]);
        let ghost view = part@;
        parts.push(part);
        proof {
            assert(all[i as int] == view);
            assert(strings(parts@) =~= before.push(view));
            assert(all.take(i + 1) =~= all.take(i as int).push(view));
        }
    }
    proof {
        assert(all.take(names@.len() as int) =~= all);
    }
    let mut res: String = "[".to_owned();
    res.append(join(&parts, ", ").as_str());
    res.append("]");
    res
}

fn show_bool(value: bool) -> (res: &'static str)
    ensures
        res@ == shown_bool(value),
{
    if value {
        "true"
    } else {
        "false"
    }
}

fn show_index(index: Option<usize>) -> (res: String)
    ensures
        res@ == shown_index(index),
{
    match index {
        Some(i) => {
            let mut res: String = "Some(".to_owned();
            res.append(decimal_text(i as u64).as_str());
            res.append(")");
            res
        },
        None => "None".to_owned(),
    }
}

fn show_slot(slot: &ArgSlot) -> (res: String)
    ensures
        res@ == shown_slot(slot.deep_view()),
{
    let mut res: String = match slot {
        ArgSlot::Positional(_) => "Positional(".to_owned(),
        ArgSlot::Keyword(_) => "Keyword(".to_owned(),
        ArgSlot::StarExpansion(_) => "StarExpansion(".to_owned(),
    };
    match slot {
        ArgSlot::Positional(i) => {
            res.append(decimal_text(*i as u64).as_str());
        },
        ArgSlot::Keyword(name) => {
            res.append(show_name(name).as_str());
        },
        ArgSlot::StarExpansion(i) => {
            res.append(decimal_text(*i as u64).as_str());
        },
    }
    res.append(")");
    res
}

fn show_args(args: &ImportedArgs) -> (res: String)
    ensures
        res@ == shown_args(args.deep_view()),
{
    let mut res: String = "ImportedArgs { unsafe_arg_indices: ".to_owned();
    res.append(decimal_text(args.unsafe_arg_indices).as_str());
    res.append(", unsafe_keyword_names: ");
    res.append(show_names(&args.unsafe_keyword_names).as_str());
    res.append(", has_unsafe_kwargs_expansion: ");
    res.append(show_bool(args.has_unsafe_kwargs_expansion));
    res.append(", unsafe_args_expansion_min: ");
    res.append(show_index(args.unsafe_args_expansion_min).as_str());
    res.append(" }");
    res
}

fn show_forwards(call: &CallData) -> (res: String)
    ensures
        res@ == joined(
            call.deep_view().forwarded_params.map_values(|f: (SlotView, Seq<char>)| shown_forward(f)),
            ", "@,
        ),
{
    let list = call.forwarded_params();
    let ghost views = call.deep_view().forwarded_params;
    let ghost all = views.map_values(|f: (SlotView, Seq<char>)| shown_forward(f));
    let mut parts: Vec<String> = Vec::new();
    for i in 0..list.len()
        invariant
            views == forwards(list@),
            all == views.map_values(|f: (SlotView, Seq<char>)| shown_forward(f)),
            strings(parts@) == all.take(i as int),
    {
        let ghost before = strings(parts@);
        let mut part: String = "(".to_owned();
        part.append(show_slot(&list[i].0).as_str());
        part.append(", ");
        part.append(show_name(&list[i].1).as_str());
        part.append(")");
        let ghost view = part@;
        parts.push(part);
        proof {
            assert(views[i as int] == (list@[i as int].0.deep_view(), list@[i as int].1@));
            assert(all[i as int] == view);
            assert(strings(parts@) =~= before.push(view));
            assert(all.take(i + 1) =~= all.take(i as int).push(view));
        }
    }
    proof {
        assert(all.take(list@.len() as int) =~= all);
    }
    join(&parts, ", ")
}

fn show_data(data: &EffectData) -> (res: String)
    ensures
        res@ == shown_data(data.deep_view()),
{
    match data {
        EffectData::Empty => "None".to_owned(),
        EffectData::Call(call) => {
            let mut res: String = "Call(CallData { has_unsafe_args: ".to_owned();
            res.append(show_bool(call.has_unsafe_args()));
            res.append(", imported_args: ");
            res.append(show_args(call.imported_args()).as_str());
            res.append(", forwarded_params: [");
            res.append(show_forwards(call).as_str());
            res.append("] })");
            res
        },
    }
}

fn show_handler(handler: &TryHandler) -> (res: String)
    ensures
        res@ == shown_handler(handler.deep_view()),
{
    match handler {
        TryHandler::Bare => "Bare".to_owned(),
        TryHandler::Single(name) => {
            let mut res: String = "Single(".to_owned();
            res.append(show_name(name).as_str());
            res.append(")");
            res
        },
        TryHandler::Multiple(names) => if names.len() == 1 {
            let mut res: String = "Single(".to_owned();
            res.append(show_name(&names[0]).as_str());
            res.append(")");
            res
        } else {
            let mut res: String = "Multiple(".to_owned();
            res.append(show_names(names).as_str());
            res.append(")");
            res
        },
    }
}

fn show_handlers(eff: &Effect) -> (res: String)
    ensures
        res@ == shown_handlers(eff.deep_view().try_handlers),
{
    let list = match &eff.try_handlers {
        Some(list) => list,
        None => {
            return "None".to_owned();
        },
    };
    let ghost views = list.deep_view();
    let ghost all = views.map_values(|h: Option<Seq<Seq<char>>>| shown_handler(h));
    let mut parts: Vec<String> = Vec::new();
    for i in 0..list.len()
        invariant
            views == list.deep_view(),
            all == views.map_values(|h: Option<Seq<Seq<char>>>| shown_handler(h)),
            strings(parts@) == all.take(i as int),
    {
        let ghost before = strings(parts@);
        let part = show_handler(&list[i]);
        let ghost view = part@;
        parts.push(part);
        proof {
            assert(views[i as int] == list@[i as int].deep_view());
            assert(all[i as int] == view);
            assert(strings(parts@) =~= before.push(view));
            assert(all.take(i + 1) =~= all.take(i as int).push(view));
        }
    }
    proof {
        assert(all.take(list@.len() as int) =~= all);
    }
    let mut res: String = "Some([".to_owned();
    res.append(join(&parts, ", ").as_str());
    res.append("])");
    res
}

/// Shows an effect.
pub fn show_effect(eff: &Effect) -> (res: String)
    ensures
        res@ == shown_effect(eff.deep_view()),
{
    let mut res: String = "Effect { kind: ".to_owned();
    res.append(eff.kind.name());
    res.append(", name: ");
    res.append(show_name(&eff.name).as_str());
    res.append(", range: ");
    res.append(decimal_text(eff.range.start as u64).as_str());
    res.append("..");
    res.append(decimal_text(eff.range.end as u64).as_str());
    res.append(", data: ");
    res.append(show_data(&eff.data).as_str());
    res.append(", try_handlers: ");
    res.append(show_handlers(eff).as_str());
    res.append(" }");
    res
}

/// Shows a call in a scope of a module that runs when the module is imported.
pub fn show_call(module: &ModuleName, scope: &ModuleName, eff: &Effect) -> (res: String)
    ensures
        res@ == shown_call(module@, scope@, eff.deep_view()),
{
    let mut res: String = "Call { caller_module: ".to_owned();
    res.append(show_name(module).as_str());
    res.append(", effect: ");
    res.append(show_effect(eff).as_str());
    res.append(", func: ");
    res.append(show_name(&eff.name).as_str());
    res.append(", stack: CallStack { entries: [");
    res.append(show_name(scope).as_str());
    res.append("], seen: {");
    res.append(show_name(scope).as_str());
    res.append("} }, is_module_scope: true }");
    res
}

} // verus!
