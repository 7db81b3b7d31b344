//! The analysis of stub files. A stub says what its functions do: in the place of a body stands a
//! call of the name of each effect.

use crate::analyzer::AnalyzedModule;
use crate::ast::{Arguments, Branch, Expression, Node, ParsedModule, Statement, StmtNode};
use crate::config::{may_run, pruned_if_branches, AnalysisConfig};
use crate::cursor::{current_scope, in_module, in_scope, Cursor, ScopeKind, ScopeView};
use crate::definitions_builder::ScopeAt;
use crate::effects::{
    json_string, merged_effects, Effect, EffectKind, EffectTable, EffectView,
};
use crate::importlib::{as_literal, literal_text};
use crate::module_effects::{ModuleEffects, ModuleEffectsView};
use crate::module_info::{build_definitions_and_classes, module_tables, scan_body, tables_view, TableView};
use crate::module_name::{chars_of, ModuleName};
use crate::module_parser::{parse_pyi, parsed_module, size, source_limit};
use crate::name_map::NameMap;
use crate::name_set::NameSet;
use crate::sys_info::SysInfo;
use crate::text_range::TextRange;
use crate::version::PythonVersion;
use vstd::prelude::*;
use vstd::string::*;

verus! {

/// A name with dashes in the place of underscores.
pub open spec fn dashed(name: Seq<char>) -> Seq<char> {
    name.map_values(|c: char| if c == '_' {
        '-'
    } else {
        c
    })
}

fn with_dashes(name: &str) -> (res: String)
    ensures
        res@ == dashed(name@),
{
    let chars = chars_of(name);
    let mut res = String::new();
    for i in 0..chars.len()
        invariant
            chars@ == name@,
            res@ == dashed(name@).take(i as int),
    {
        if chars[i] == '_' {
            res.push('-');
        } else {
            res.push(chars[i]);
        }
        proof {
            assert(res@ =~= dashed(name@).take(i + 1));
        }
    }
    proof {
        assert(res@ =~= dashed(name@));
    }
    res
}

/// The kind of effect that a text is the name of.
pub open spec fn kind_named(text: Seq<char>) -> Option<EffectKind> {
    if exists|kind: EffectKind| json_string(text) == Some(#[trigger] kind.text()) {
        Some(choose|kind: EffectKind| json_string(text) == Some(#[trigger] kind.text()))
    } else {
        None
    }
}

/// What the arguments of the name of an effect say the effect concerns: a text, or nothing where
/// there is no argument.
pub open spec fn effect_target(args: Seq<Expression>) -> Option<Seq<char>> {
    if args.len() == 0 {
        Some(Seq::empty())
    } else {
        literal_text(args[0])
    }
}

/// The effect that a call in a stub stands for.
pub open spec fn stub_effect(func: Expression, args: Arguments, range: TextRange) -> Option<EffectView> {
    match func.node {
        Node::Name { id } => match (kind_named(dashed(id@)), effect_target(args.args@)) {
            (Some(kind), Some(name)) => Some(EffectView::bare(kind, name, range)),
            _ => None,
        },
        _ => None,
    }
}

/// What an optional effect is.
pub open spec fn optional_effect(eff: Option<Effect>) -> Option<EffectView> {
    match eff {
        Some(e) => Some(e.deep_view()),
        None => None,
    }
}

/// The effect that a call in a stub stands for.
fn get_call_effect(func: &Expression, args: &Arguments, range: TextRange) -> (res: Option<Effect>)
    ensures
        optional_effect(res) == stub_effect(*func, *args, range),
{
    let name = match func.as_var_name() {
        Some(name) => name,
        None => {
            return None;
        },
    };
    let text = with_dashes(name.as_str());
    let kind = match EffectKind::from_str(text.as_str()) {
        Ok(kind) => {
            proof {
                assert forall|other: EffectKind|
                    json_string(text@) == Some(#[trigger] other.text()) implies other == kind by {
                    crate::effects::effect_kind_names_differ(kind, other);
                }
                assert(kind_named(text@) == Some(kind));
            }
            kind
        },
        Err(_) => {
            return None;
        },
    };
    let arg: Option<ModuleName> = if args.args.len() == 0 {
        Some(ModuleName::empty())
    } else {
        match as_literal(&args.args[0]) {
            Some(text) => Some(ModuleName::from_str(text)),
            None => None,
        }
    };
    match arg {
        Some(name) => Some(Effect::new(kind, name, range)),
        None => None,
    }
}

/// What is collected, with an expression of a stub. A call that stands for no effect is reported.
pub open spec fn stub_expr(
    at: Seq<ScopeView>,
    e: Expression,
    shown: Seq<char>,
    out: ModuleEffectsView,
) -> ModuleEffectsView {
    match e.node {
        Node::Call { func, arguments } => match stub_effect(*func, arguments, e.range) {
            Some(eff) => out.with_effect(current_scope(at), eff),
            None => out.with_file_error("Could not parse effect "@ + shown, e.range),
        },
        _ => out,
    }
}

/// What is collected, with the first `n` of some statements of a stub.
pub open spec fn stub_stmts(
    sys: SysInfo,
    at: Seq<ScopeView>,
    stmts: Seq<Statement>,
    out: ModuleEffectsView,
    n: int,
) -> ModuleEffectsView
    decreases stmts, 2nat, n,
{
    if n <= 0 || n > stmts.len() {
        out
    } else {
        stub_stmt(sys, at, stmts[n - 1], stub_stmts(sys, at, stmts, out, n - 1))
    }
}

/// What is collected, with those of the first `n` branches of an `if` statement of a stub that may
/// run.
pub open spec fn stub_branches(
    sys: SysInfo,
    at: Seq<ScopeView>,
    branches: Vec<Branch>,
    out: ModuleEffectsView,
    n: int,
) -> ModuleEffectsView
    decreases branches, 0nat, n,
{
    if n <= 0 || n > branches@.len() {
        out
    } else {
        let before = stub_branches(sys, at, branches, out, n - 1);
        if may_run(sys, branches@, n - 1) {
            stub_stmts(sys, at, branches[n - 1].body@, before, branches[n - 1].body@.len() as int)
        } else {
            before
        }
    }
}

/// The effects of a function of a stub. Where it says nothing, it is not known what it does.
pub open spec fn stub_body_effects(inside: Seq<ScopeView>, body: ModuleEffectsView, range: TextRange) -> Map<
    Seq<char>,
    Seq<EffectView>,
> {
    if body.effects.dom() =~= Set::empty() {
        body.with_effect(
            current_scope(inside),
            EffectView::bare(EffectKind::UnknownEffects, Seq::empty(), range),
        ).effects
    } else {
        body.effects
    }
}

/// What is collected, with a statement of a stub.
pub open spec fn stub_stmt(
    sys: SysInfo,
    at: Seq<ScopeView>,
    s: Statement,
    out: ModuleEffectsView,
) -> ModuleEffectsView
    decreases s, 1nat, 0int,
{
    match s.node {
        StmtNode::Expr { value, shown } => stub_expr(at, value, shown@, out),
        StmtNode::ClassDef(c) => stub_stmts(
            sys,
            in_scope(at, ScopeKind::Class, c.name@),
            c.body@,
            out,
            c.body@.len() as int,
        ),
        StmtNode::FunctionDef(f) => {
            let inside = in_scope(at, ScopeKind::Function, f.name@);
            let body = stub_stmts(
                sys,
                inside,
                f.body@,
                ModuleEffectsView::none(),
                f.body@.len() as int,
            );
            ModuleEffectsView {
                effects: merged_effects(out.effects, stub_body_effects(inside, body, s.range)),
                ..out
            }
        },
        StmtNode::If { branches } => stub_branches(sys, at, branches, out, branches@.len() as int),
        _ => out,
    }
}

fn expr(cursor: &Cursor, e: &Expression, shown: &str, output: &mut ModuleEffects)
    ensures
        final(output).deep_view() == stub_expr(cursor@, *e, shown@, old(output).deep_view()),
{
    if let Node::Call { func, arguments } = &e.node {
        match get_call_effect(func, arguments, e.range) {
            Some(eff) => {
                output.add_effect(cursor.scope(), eff);
            },
            None => {
                let mut error: String = "Could not parse effect ".to_owned();
                error.append(shown);
                output.add_file_error(error, e.range);
            },
        }
    }
}

fn stmts(sys_info: SysInfo, cursor: &Cursor, list: &Vec<Statement>, output: &mut ModuleEffects)
    ensures
        final(output).deep_view() == stub_stmts(
            sys_info,
            cursor@,
            list@,
            old(output).deep_view(),
            list@.len() as int,
        ),
    decreases list, 2nat,
{
    let ghost first = output.deep_view();
    for i in 0..list.len()
        invariant
            output.deep_view() == stub_stmts(sys_info, cursor@, list@, first, i as int),
    {
        stmt(sys_info, cursor, &list[i], output);
    }
}

fn if_(sys_info: SysInfo, cursor: &Cursor, branches: &Vec<Branch>, output: &mut ModuleEffects)
    ensures
        final(output).deep_view() == stub_branches(
            sys_info,
            cursor@,
            *branches,
            old(output).deep_view(),
            branches@.len() as int,
        ),
    decreases branches, 0nat,
{
    let live = pruned_if_branches(sys_info, branches);
    let ghost first = output.deep_view();
    for i in 0..branches.len()
        invariant
            live@.len() == branches@.len(),
            forall|i: int| 0 <= i < live@.len() ==> #[trigger] live@[i] == may_run(sys_info, branches@, i),
            output.deep_view() == stub_branches(sys_info, cursor@, *branches, first, i as int),
    {
        if live[i] {
            stmts(sys_info, cursor, &branches[i].body, output);
        }
    }
}

fn stmt(sys_info: SysInfo, cursor: &Cursor, s: &Statement, output: &mut ModuleEffects)
    ensures
        final(output).deep_view() == stub_stmt(sys_info, cursor@, *s, old(output).deep_view()),
    decreases s, 1nat,
{
    match &s.node {
        StmtNode::Expr { value, shown } => {
            expr(cursor, value, shown.as_str(), output);
        },
        StmtNode::ClassDef(c) => {
            let inside = cursor.enter_class_scope_name(c.name.as_str());
            stmts(sys_info, &inside, &c.body, output);
        },
        StmtNode::FunctionDef(f) => {
            let inside = cursor.enter_function_scope_name(f.name.as_str());
            let mut out = ModuleEffects::new();
            stmts(sys_info, &inside, &f.body, &mut out);
            if out.effects.is_empty() {
                let eff = Effect::new(EffectKind::UnknownEffects, ModuleName::empty(), s.range);
                out.add_effect(inside.scope(), eff);
            }
            output.effects.merge(out.effects);
        },
        StmtNode::If { branches } => {
            if_(sys_info, cursor, branches, output);
        },
        _ => {},
    }
}

/// The effects of a scope without the remark that they are not known, where there is more.
pub open spec fn without_unknown(effs: Seq<EffectView>) -> Seq<EffectView> {
    if effs.len() > 1 {
        effs.filter(|e: EffectView| e.kind != EffectKind::UnknownEffects)
    } else {
        effs
    }
}

/// The effects of a scope say that there are none.
pub open spec fn says_none(effs: Seq<EffectView>) -> bool {
    exists|i: int| 0 <= i < effs.len() && (#[trigger] effs[i]).kind == EffectKind::NoEffects
}

/// The effects of a scope say that there are none, but also give some.
pub open spec fn contradicts_itself(effs: Seq<EffectView>) -> bool {
    says_none(effs) && exists|i: int|
        0 <= i < effs.len() && (#[trigger] effs[i]).kind != EffectKind::NoEffects && effs[i].kind
            != EffectKind::UnknownEffects
}

/// The effects of a stub say of some scope that there are none, but also give some.
pub open spec fn contradictory(table: Map<Seq<char>, Seq<EffectView>>) -> bool {
    exists|scope: Seq<char>| #[trigger] contradictory_at(table, scope)
}

/// The effects of a stub say of a scope that there are none, but also give some.
pub open spec fn contradictory_at(table: Map<Seq<char>, Seq<EffectView>>, scope: Seq<char>) -> bool {
    table.contains_key(scope) && contradicts_itself(without_unknown(table[scope]))
}

/// The effects that a stub comes to: where a scope has others, the remark that its effects are not
/// known does not count; a scope of which is said that it has none has none.
pub open spec fn stub_table(table: Map<Seq<char>, Seq<EffectView>>) -> Map<Seq<char>, Seq<EffectView>> {
    Map::new(
        |scope: Seq<char>| table.contains_key(scope) && !says_none(without_unknown(table[scope])),
        |scope: Seq<char>| without_unknown(table[scope]),
    )
}

/// What the statements of a stub say of its scopes.
pub open spec fn stub_says(sys: SysInfo, name: Seq<char>, body: Seq<Statement>) -> ModuleEffectsView {
    stub_stmts(sys, in_module(name), body, ModuleEffectsView::none(), body.len() as int)
}

/// What a stub says of its scopes.
pub open spec fn stub_output(parsed: &ParsedModule, sys: SysInfo) -> ModuleEffectsView {
    stub_says(sys, parsed.name@, parsed.body@)
}

/// A stub says of a scope that it has no effects, but also gives some.
pub struct ConflictingEffects {
    /// The scope.
    pub scope: ModuleName,
}

fn drop_unknown(effs: Vec<Effect>) -> (res: Vec<Effect>)
    ensures
        res.deep_view() == without_unknown(effs.deep_view()),
{
    if effs.len() <= 1 {
        return effs;
    }
    let mut res: Vec<Effect> = Vec::new();
    let ghost all = effs.deep_view();
    let ghost keep = |e: EffectView| e.kind != EffectKind::UnknownEffects;
    let ghost items = effs@;
    proof {
        reveal(Seq::filter);
        assert(res.deep_view() =~= all.take(0).filter(keep));
    }
    for eff in it: effs
        invariant
            it.seq() == items,
            all.len() == items.len(),
            forall|i: int| 0 <= i < items.len() ==> #[trigger] all[i] == items[i].deep_view(),
            keep == (|e: EffectView| e.kind != EffectKind::UnknownEffects),
            res.deep_view() == all.take(it.index()).filter(keep),
    {
        let ghost before = res.deep_view();
        let ghost view = eff.deep_view();
        proof {
            reveal(Seq::filter);
            assert(all.take(it.index() + 1).drop_last() =~= all.take(it.index()));
            assert(all.take(it.index() + 1).last() == view);
        }
        if eff.kind != EffectKind::UnknownEffects {
            res.push(eff);
            proof {
                assert(res.deep_view() =~= before.push(view));
            }
        }
    }
    proof {
        assert(all.take(all.len() as int) =~= all);
    }
    res
}

/// Whether effects say that there are none. Those that also give some are refused.
fn has_noeffects(key: &ModuleName, effs: &Vec<Effect>) -> (res: Result<bool, ConflictingEffects>)
    ensures
        match res {
            Ok(none) => !contradicts_itself(effs.deep_view()) && none == says_none(effs.deep_view()),
            Err(e) => contradicts_itself(effs.deep_view()) && e.scope@ == key@,
        },
{
    let mut none = false;
    let mut others = false;
    let ghost all = effs.deep_view();
    for i in 0..effs.len()
        invariant
            all == effs.deep_view(),
            none == (exists|j: int| 0 <= j < i && (#[trigger] all[j]).kind == EffectKind::NoEffects),
            others == (exists|j: int|
                0 <= j < i && (#[trigger] all[j]).kind != EffectKind::NoEffects && all[j].kind
                    != EffectKind::UnknownEffects),
    {
        let kind = effs[i].kind;
        proof {
            assert(all[i as int].kind == kind);
        }
        if kind == EffectKind::NoEffects {
            none = true;
        } else if kind != EffectKind::UnknownEffects {
            others = true;
        }
    }
    if none && others {
        return Err(ConflictingEffects { scope: key.clone() });
    }
    Ok(none)
}

/// The effects that a stub comes to.
fn clean_table(table: EffectTable) -> (res: Result<EffectTable, ConflictingEffects>)
    ensures
        match res {
            Ok(cleaned) => !contradictory(table.deep_view()) && cleaned.deep_view() == stub_table(
                table.deep_view(),
            ),
            Err(e) => contradictory_at(table.deep_view(), e.scope@),
        },
{
    let mut rest: NameMap<Vec<Effect>> = table.into_inner();
    let ghost all = rest.deep_view();
    let ghost keys = rest.keys();
    let n: usize = rest.len();
    let mut kept: NameMap<Vec<Effect>> = NameMap::new();
    proof {
        assert(kept.deep_view() =~= stub_table(all.restrict(keys.take(0).to_set())));
    }
    for i in 0..n
        invariant
            n == keys.len(),
            rest.keys() == keys,
            rest.ordered(),
            keys.no_duplicates(),
            keys.to_set() == all.dom(),
            all == table.deep_view(),
            forall|j: int|
                i <= j < n ==> all.contains_key(#[trigger] keys[j]) && rest.values()[j].deep_view()
                    == all[keys[j]],
            forall|j: int| 0 <= j < i ==> !contradicts_itself(without_unknown(all[#[trigger] keys[j]])),
            kept.deep_view() == stub_table(all.restrict(keys.take(i as int).to_set())),
    {
        let name = rest.key_at(i).clone();
        let ghost k = keys[i as int];
        let ghost before = kept.deep_view();
        let ghost fewer = all.restrict(keys.take(i as int).to_set());
        let ghost more = all.restrict(keys.take(i + 1).to_set());
        proof {
            crate::name_set::lemma_take_more(keys, i as int);
            assert(!keys.take(i as int).contains(k));
            assert(more =~= fewer.insert(k, all[k]));
        }
        let effs = drop_unknown(rest.replace_at(i, Vec::new()));
        let ghost view = effs.deep_view();
        match has_noeffects(&name, &effs) {
            Ok(none) => {
                if !none {
                    let _ = kept.insert(name, effs);
                    proof {
                        assert(kept.deep_view() =~= before.insert(k, view));
                    }
                }
                proof {
                    assert(kept.deep_view() =~= stub_table(more));
                }
            },
            Err(e) => {
                return Err(e);
            },
        }
    }
    proof {
        assert(keys.take(keys.len() as int) =~= keys);
        assert(all.restrict(keys.to_set()) =~= all);
        assert forall|scope: Seq<char>| !#[trigger] contradictory_at(all, scope) by {
            if all.contains_key(scope) {
                assert(keys.to_set().contains(scope));
                assert(keys.contains(scope));
                assert(keys[keys.index_of(scope)] == scope);
            }
        }
    }
    Ok(EffectTable::new(kept))
}

/// What the analysis of a stub gives: what it says of its scopes and what it defines; or, where it
/// contradicts itself, a scope of which it does.
pub open spec fn is_stub_analysis(
    says: ModuleEffectsView,
    tables: TableView,
    res: Result<AnalyzedModule, ConflictingEffects>,
) -> bool {
    match res {
        Ok(output) => {
            &&& !contradictory(says.effects)
            &&& output.module_effects.deep_view() == (ModuleEffectsView {
                effects: stub_table(says.effects),
                ..says
            })
            &&& tables_view(&output.definitions, &output.classes) == tables
            &&& output.implicit_imports@ == Set::<Seq<char>>::empty()
        },
        Err(e) => contradictory_at(says.effects, e.scope@),
    }
}

/// Analyzes a stub file. One that says of a scope that it has no effects, but also gives some, is
/// refused.
pub fn analyze(parsed_module: &ParsedModule, config: &AnalysisConfig) -> (res: Result<
    AnalyzedModule,
    ConflictingEffects,
>)
    ensures
        is_stub_analysis(stub_output(parsed_module, config.sys_info), module_tables(parsed_module, config), res),
{
    let (definitions, classes) = build_definitions_and_classes(parsed_module, config);
    let mut output = ModuleEffects::new();
    let cursor = Cursor::enter_module_scope(&parsed_module.name);
    stmts(config.sys_info, &cursor, &parsed_module.body, &mut output);
    let mut effects = EffectTable::empty();
    std::mem::swap(&mut output.effects, &mut effects);
    match clean_table(effects) {
        Ok(table) => {
            output.effects = table;
            Ok(
                AnalyzedModule {
                    module_effects: output,
                    definitions,
                    classes,
                    implicit_imports: NameSet::new(),
                },
            )
        },
        Err(e) => Err(e),
    }
}

/// Where the scopes of a stub stand that is given as its text.
pub open spec fn stub_site(name: Seq<char>) -> ScopeAt {
    ScopeAt {
        module: name,
        is_init: false,
        sys: SysInfo { version: PythonVersion { major: 3, minor: 14, micro: 0 } },
        main: None,
    }
}

/// Analyzes a stub that is given as its text. It is no package, and it is not known which module is run
/// as a program.
pub fn analyze_str(mod_name: ModuleName, body: &str) -> (res: Result<AnalyzedModule, ConflictingEffects>)
    requires
        size(body@) < source_limit(),
    ensures
        ({
            let at = stub_site(mod_name@);
            let stmts = parsed_module(body@, true, 3, 14);
            is_stub_analysis(
                stub_says(at.sys, at.module, stmts),
                scan_body(at, in_module(at.module), stmts, TableView::nothing()),
                res,
            )
        }),
{
    let parsed = parse_pyi(body, mod_name, false);
    analyze(&parsed, &AnalysisConfig::default())
}

} // verus!
