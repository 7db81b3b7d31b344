//! What calls in a source file do.

use crate::ast::{full_name_of, Arguments, Expression, Keyword, Node};
use crate::attribute::{attribute_named, full_name, Attribute};
use crate::bindings_table::bound;
use crate::cursor::{current_scope, Cursor, ScopeView};
use crate::definitions::DefinitionStyle;
use crate::effects::{
    forwards, merged_effects, ArgSlot, CallData, CallKind, CallView, Effect, EffectData, EffectKind, EffectTable,
    EffectView, ImportedArgsView, SlotView,
};
use crate::importlib::literal_text;
use crate::manual_override::{declared_safe, is_declared_safe};
use crate::module_effects::{ModuleEffects, ModuleEffectsView};
use crate::module_name::{begins_with, dotted, optional_name, str_eq, strip_prefix, texts, ModuleName};
use crate::name_map::NameMap;
use crate::resolve::{get_import_module_state_from_def, importlib_in, ResolvedName, ResolvedView};
use crate::source_checks::{add_param_effect, param_mutated};
use crate::source_info::{add_effect, add_plain, noted, noted_plain, SourceAnalyzer};
use crate::text_range::TextRange;
use vstd::prelude::*;
use vstd::string::*;

verus! {

/// What is known of the arguments of a call so far.
pub struct ArgsView {
    pub out: ModuleEffectsView,
    pub call: CallView,
}

/// An argument without the star before it.
pub open spec fn unstarred(e: Expression) -> Expression {
    match e.node {
        Node::Starred { value } => *value,
        _ => e,
    }
}

/// The smaller of a number and another that may be missing.
pub open spec fn at_most(known: Option<usize>, i: usize) -> Option<usize> {
    match known {
        Some(k) => if k <= i {
            Some(k)
        } else {
            Some(i)
        },
        None => Some(i),
    }
}

/// An imported variable is the positional argument of the given index, or in the sequence that is
/// unpacked there.
pub open spec fn with_unsafe_arg(call: CallView, starred: bool, i: int) -> CallView {
    CallView {
        has_unsafe_args: true,
        imported_args: if starred {
            ImportedArgsView {
                args_expansion_min: at_most(call.imported_args.args_expansion_min, i as usize),
                ..call.imported_args
            }
        } else if i < 64 {
            ImportedArgsView {
                indices: call.imported_args.indices | (1u64 << (i as u64)),
                ..call.imported_args
            }
        } else {
            call.imported_args
        },
        ..call
    }
}

/// An imported variable is the keyword argument of the given name, or in the mapping that is
/// unpacked.
pub open spec fn with_unsafe_keyword(call: CallView, name: Option<Seq<char>>) -> CallView {
    CallView {
        has_unsafe_args: true,
        imported_args: match name {
            Some(n) => ImportedArgsView {
                keywords: call.imported_args.keywords.push(n),
                ..call.imported_args
            },
            None => ImportedArgsView { kwargs_expansion: true, ..call.imported_args },
        },
        ..call
    }
}

/// A parameter of the function that calls is passed on.
pub open spec fn with_forwarded(call: CallView, slot: SlotView, param: Option<Seq<char>>) -> CallView {
    match param {
        Some(name) => CallView { forwarded_params: call.forwarded_params.push((slot, name)), ..call },
        None => call,
    }
}

/// Nothing is known of the arguments.
pub open spec fn no_args() -> CallView {
    CallView {
        has_unsafe_args: false,
        imported_args: ImportedArgsView::none(),
        forwarded_params: Seq::empty(),
    }
}

/// What is known of the arguments of a call so far.
struct ArgsBuilder {
    has_unsafe: bool,
    unsafe_indices: u64,
    unsafe_keyword_names: Vec<ModuleName>,
    has_unsafe_kwargs_expansion: bool,
    expansion_min: Option<usize>,
    forwarded: Vec<(ArgSlot, ModuleName)>,
}

impl ArgsBuilder {
    spec fn call(&self) -> CallView {
        CallView {
            has_unsafe_args: self.has_unsafe,
            imported_args: ImportedArgsView {
                indices: self.unsafe_indices,
                keywords: texts(self.unsafe_keyword_names@),
                kwargs_expansion: self.has_unsafe_kwargs_expansion,
                args_expansion_min: self.expansion_min,
            },
            forwarded_params: forwards(self.forwarded@),
        }
    }

    fn new() -> (res: ArgsBuilder)
        ensures
            res.call() == no_args(),
    {
        let res = ArgsBuilder {
            has_unsafe: false,
            unsafe_indices: 0,
            unsafe_keyword_names: Vec::new(),
            has_unsafe_kwargs_expansion: false,
            expansion_min: None,
            forwarded: Vec::new(),
        };
        proof {
            assert(res.call().imported_args.keywords =~= Seq::empty());
            assert(res.call().forwarded_params =~= Seq::empty());
        }
        res
    }

    fn add_unsafe_arg(&mut self, starred: bool, i: usize)
        ensures
            final(self).call() == with_unsafe_arg(old(self).call(), starred, i as int),
    {
        self.has_unsafe = true;
        if starred {
            self.expansion_min = match self.expansion_min {
                Some(k) => if k <= i {
                    Some(k)
                } else {
                    Some(i)
                },
                None => Some(i),
            };
        } else if i < 64 {
            self.unsafe_indices = self.unsafe_indices | (1u64 << (i as u64));
        }
    }

    fn add_unsafe_keyword(&mut self, name: &Option<String>)
        ensures
            final(self).call() == with_unsafe_keyword(
                old(self).call(),
                crate::module_name::optional_text(*name),
            ),
    {
        self.has_unsafe = true;
        match name {
            Some(n) => {
                let ghost before = texts(self.unsafe_keyword_names@);
                self.unsafe_keyword_names.push(ModuleName::from_str(n.as_str()));
                proof {
                    assert(texts(self.unsafe_keyword_names@) =~= before.push(n@));
                }
            },
            None => {
                self.has_unsafe_kwargs_expansion = true;
            },
        }
    }

    fn add_forwarded(&mut self, slot: ArgSlot, param: Option<ModuleName>)
        ensures
            final(self).call() == with_forwarded(
                old(self).call(),
                slot.deep_view(),
                optional_name(param),
            ),
    {
        if let Some(name) = param {
            let ghost before = forwards(self.forwarded@);
            let ghost view = (slot.deep_view(), name@);
            self.forwarded.push((slot, name));
            proof {
                assert(forwards(self.forwarded@) =~= before.push(view));
            }
        }
    }

    fn finish(self) -> (res: CallData)
        ensures
            res.deep_view() == self.call(),
    {
        CallData::new(
            self.has_unsafe,
            self.unsafe_indices,
            self.unsafe_keyword_names,
            self.has_unsafe_kwargs_expansion,
        ).with_args_expansion(self.expansion_min).with_forwarded_params(self.forwarded)
    }
}

impl<'a> SourceAnalyzer<'a> {
    /// An argument is an imported variable.
    pub open spec fn imported_arg(&self, at: Seq<ScopeView>, arg: Expression) -> Option<Seq<char>> {
        match self.at(at, arg) {
            Some(r) => if r.is_import() || self.import_alias(at, arg) {
                Some(r.name)
            } else {
                None
            },
            None => None,
        }
    }

    /// What is collected, with an argument. An imported variable that is passed on may be mutated.
    pub open spec fn arg_passed(
        &self,
        at: Seq<ScopeView>,
        arg: Expression,
        out: ModuleEffectsView,
    ) -> ModuleEffectsView {
        match self.imported_arg(at, arg) {
            Some(name) => noted_plain(at, out, EffectKind::ImportedVarArgument, name, arg.range),
            None => out,
        }
    }

    /// The parameter of the function at a place that an argument is.
    pub open spec fn own_param(&self, at: Seq<ScopeView>, arg: Expression) -> Option<Seq<char>> {
        match arg.node {
            Node::Name { .. } => match self.at(at, arg) {
                Some(r) => if r.is_param() && r.scope == current_scope(at) {
                    Some(r.name)
                } else {
                    None
                },
                None => None,
            },
            _ => None,
        }
    }

    /// What is known of a call with the first `n` of its positional arguments.
    pub open spec fn with_args(&self, at: Seq<ScopeView>, args: Seq<Expression>, s: ArgsView, n: int) -> ArgsView
        decreases n,
    {
        if n <= 0 {
            s
        } else {
            let before = self.with_args(at, args, s, n - 1);
            let starred = args[n - 1].node is Starred;
            let arg = unstarred(args[n - 1]);
            let call = if self.imported_arg(at, arg) is Some {
                with_unsafe_arg(before.call, starred, n - 1)
            } else {
                before.call
            };
            ArgsView {
                out: self.arg_passed(at, arg, before.out),
                call: with_forwarded(
                    call,
                    if starred {
                        SlotView::StarExpansion((n - 1) as usize)
                    } else {
                        SlotView::Positional((n - 1) as usize)
                    },
                    self.own_param(at, arg),
                ),
            }
        }
    }

    /// What is known of a call with the first `n` of its keyword arguments.
    pub open spec fn with_keywords(&self, at: Seq<ScopeView>, keywords: Seq<Keyword>, s: ArgsView, n: int) -> ArgsView
        decreases n,
    {
        if n <= 0 {
            s
        } else {
            let before = self.with_keywords(at, keywords, s, n - 1);
            let kw = keywords[n - 1];
            let name = crate::module_name::optional_text(kw.arg);
            let call = if self.imported_arg(at, kw.value) is Some {
                with_unsafe_keyword(before.call, name)
            } else {
                before.call
            };
            ArgsView {
                out: self.arg_passed(at, kw.value, before.out),
                call: match name {
                    Some(n) => with_forwarded(call, SlotView::Keyword(n), self.own_param(at, kw.value)),
                    None => call,
                },
            }
        }
    }

    /// What is known of a call with its arguments, and what is collected. More positional
    /// arguments than there is room for are an effect of their own.
    pub open spec fn with_arguments(&self, at: Seq<ScopeView>, args: Arguments, out: ModuleEffectsView) -> ArgsView {
        let counted = if args.args@.len() > 64 {
            noted_plain(at, out, EffectKind::TooManyArgs, Seq::empty(), args.range)
        } else {
            out
        };
        self.with_keywords(
            at,
            args.keywords@,
            self.with_args(
                at,
                args.args@,
                ArgsView { out: counted, call: no_args() },
                args.args@.len() as int,
            ),
            args.keywords@.len() as int,
        )
    }

    fn check_call_arg(&self, cursor: &Cursor, arg: &Expression, output: &mut ModuleEffects) -> (res: bool)
        ensures
            res == self.imported_arg(cursor@, *arg) is Some,
            final(output).deep_view() == self.arg_passed(cursor@, *arg, old(output).deep_view()),
    {
        if let Some(found) = self.resolve(cursor, arg) {
            if found.is_import() || self.is_import_alias(cursor, arg) {
                let name = ModuleName::from_str(found.name.as_str());
                add_plain(cursor, EffectKind::ImportedVarArgument, name, arg.range, output);
                return true;
            }
        }
        false
    }

    fn get_own_param(&self, cursor: &Cursor, arg: &Expression) -> (res: Option<ModuleName>)
        ensures
            optional_name(res) == self.own_param(cursor@, *arg),
    {
        if let Node::Name { .. } = &arg.node {
            if let Some(found) = self.resolve(cursor, arg) {
                if found.is_param() && found.scope.same(&cursor.scope()) {
                    return Some(ModuleName::from_str(found.name.as_str()));
                }
            }
        }
        None
    }

    /// Notes what the arguments of a call do, and tells what is known of them.
    pub fn check_call_args(&self, cursor: &Cursor, args: &Arguments, output: &mut ModuleEffects) -> (res: CallData)
        ensures
            ({
                let after = self.with_arguments(cursor@, *args, old(output).deep_view());
                res.deep_view() == after.call && final(output).deep_view() == after.out
            }),
    {
        if args.args.len() > 64 {
            add_plain(cursor, EffectKind::TooManyArgs, ModuleName::empty(), args.range, output);
        }
        let mut builder = ArgsBuilder::new();
        let ghost first = ArgsView { out: output.deep_view(), call: builder.call() };
        for i in 0..args.args.len()
            invariant
                (ArgsView { out: output.deep_view(), call: builder.call() }) == self.with_args(
                    cursor@,
                    args.args@,
                    first,
                    i as int,
                ),
        {
            let (starred, arg): (bool, &Expression) = match &args.args[i].node {
                Node::Starred { value } => (true, value),
                _ => (false, &args.args[i]),
            };
            if self.check_call_arg(cursor, arg, output) {
                builder.add_unsafe_arg(starred, i);
            }
            let slot = if starred {
                ArgSlot::StarExpansion(i)
            } else {
                ArgSlot::Positional(i)
            };
            let param = self.get_own_param(cursor, arg);
            builder.add_forwarded(slot, param);
        }
        let ghost second = ArgsView { out: output.deep_view(), call: builder.call() };
        for i in 0..args.keywords.len()
            invariant
                (ArgsView { out: output.deep_view(), call: builder.call() }) == self.with_keywords(
                    cursor@,
                    args.keywords@,
                    second,
                    i as int,
                ),
        {
            let kw = &args.keywords[i];
            if self.check_call_arg(cursor, &kw.value, output) {
                builder.add_unsafe_keyword(&kw.arg);
            }
            if let Some(name) = &kw.arg {
                let param = self.get_own_param(cursor, &kw.value);
                builder.add_forwarded(ArgSlot::Keyword(ModuleName::from_str(name.as_str())), param);
            }
        }
        builder.finish()
    }
}

/// What is said in the place of the name of a function that has none.
pub open spec fn unknown_function(func: Expression) -> Seq<char> {
    match func.node {
        Node::Attribute { value, .. } => if value.node is Call {
            "<chained method>"@
        } else {
            "<unknown method>"@
        },
        Node::Subscript { .. } => "<subscript>"@,
        _ => "<unknown>"@,
    }
}

/// Notes a call of a function that has no name.
pub fn unknown_function_name(cursor: &Cursor, func: &Expression, output: &mut ModuleEffects)
    ensures
        final(output).deep_view() == noted_plain(
            cursor@,
            old(output).deep_view(),
            EffectKind::UnknownFunctionCall,
            unknown_function(*func),
            func.range,
        ),
{
    let name: &str = match &func.node {
        Node::Attribute { value, .. } => match &value.node {
            Node::Call { .. } => "<chained method>",
            _ => "<unknown method>",
        },
        Node::Subscript { .. } => "<subscript>",
        _ => "<unknown>",
    };
    add_plain(
        cursor,
        EffectKind::UnknownFunctionCall,
        ModuleName::from_str(name),
        func.range,
        output,
    );
}

/// Effects, all of which are taken to stand at one place.
pub open spec fn moved(table: Map<Seq<char>, Seq<EffectView>>, range: TextRange) -> Map<Seq<char>, Seq<EffectView>> {
    table.map_values(
        |effs: Seq<EffectView>| effs.map_values(|e: EffectView| EffectView { range, ..e }),
    )
}

/// Takes effects to stand at one place.
fn move_effects(table: EffectTable, range: TextRange) -> (res: EffectTable)
    ensures
        res.deep_view() == moved(table.deep_view(), range),
{
    let mut map: NameMap<Vec<Effect>> = table.into_inner();
    let n: usize = map.len();
    let ghost all = map.deep_view();
    let ghost keys = map.keys();
    let ghost target = moved(all, range);
    for i in 0..n
        invariant
            n == keys.len(),
            keys == map.keys(),
            keys.no_duplicates(),
            map.ordered(),
            target == moved(all, range),
            map.deep_view().dom() == all.dom(),
            forall|j: int| 0 <= j < n ==> all.contains_key(#[trigger] keys[j]),
            forall|j: int|
                0 <= j < n ==> map.deep_view()[#[trigger] keys[j]] == (if j < i {
                    target[keys[j]]
                } else {
                    all[keys[j]]
                }),
    {
        let ghost before = map.deep_view();
        let ghost k = keys[i as int];
        let mut effs: Vec<Effect> = map.replace_at(i, Vec::new());
        let ghost first = effs.deep_view();
        proof {
            assert(first == all[k]);
        }
        let m: usize = effs.len();
        for j in 0..m
            invariant
                m == first.len(),
                effs@.len() == first.len(),
                forall|x: int|
                    0 <= x < first.len() ==> (#[trigger] effs@[x]).deep_view() == (if x < j {
                        (EffectView { range, ..first[x] })
                    } else {
                        first[x]
                    }),
        {
            let mut eff: Effect = effs[j].clone();
            eff.range = range;
            effs.set(j, eff);
        }
        proof {
            assert(effs.deep_view() =~= first.map_values(|e: EffectView| EffectView { range, ..e }));
        }
        let ghost view = effs.deep_view();
        let _ = map.replace_at(i, effs);
        proof {
            assert(map.deep_view() =~= before.insert(k, view));
            assert(map.deep_view().dom() =~= all.dom());
            assert forall|j: int| 0 <= j < n implies map.deep_view()[#[trigger] keys[j]] == (if j < i + 1 {
                target[keys[j]]
            } else {
                all[keys[j]]
            }) by {
                if j != i {
                    assert(keys[j] != k);
                    assert(before[keys[j]] == map.deep_view()[keys[j]]);
                }
            }
        }
    }
    proof {
        assert forall|f: Seq<char>| all.contains_key(f) implies map.deep_view()[f] == target[f] by {
            assert(map@.contains_key(f));
            assert(keys.contains(f));
            assert(keys[keys.index_of(f)] == f);
        }
        assert(map.deep_view() =~= target);
    }
    EffectTable::new(map)
}

/// The effects in a table, where there is one.
pub open spec fn table_view(table: Option<EffectTable>) -> Option<Map<Seq<char>, Seq<EffectView>>> {
    match table {
        Some(t) => Some(t.deep_view()),
        None => None,
    }
}

impl<'a> SourceAnalyzer<'a> {
    /// What is collected, with a call of `eval`. The effects of an expression that is known are
    /// those of the call; of anything else it cannot be told what it does.
    pub open spec fn eval_called(
        &self,
        at: Seq<ScopeView>,
        args: Option<Arguments>,
        name: Seq<char>,
        range: TextRange,
        evaluated: Option<Map<Seq<char>, Seq<EffectView>>>,
        out: ModuleEffectsView,
    ) -> ModuleEffectsView {
        let first = match args {
            Some(a) => if a.args@.len() > 0 {
                Some(a.args@[0])
            } else {
                None
            },
            None => None,
        };
        match first {
            None => out,
            Some(arg) => match literal_text(arg) {
                None => noted_plain(at, out, EffectKind::ExecCall, name, range),
                Some(text) => if text.len() == 0 {
                    out
                } else {
                    match evaluated {
                        Some(effects) => ModuleEffectsView {
                            effects: merged_effects(out.effects, moved(effects, range)),
                            ..out
                        },
                        None => noted_plain(at, out, EffectKind::ExecCall, name, range),
                    }
                },
            },
        }
    }

    /// Notes what a call of `eval` does, with the effects of the code that it is given where these are
    /// known.
    pub fn check_eval(
        &self,
        cursor: &Cursor,
        args: Option<&Arguments>,
        fname: ModuleName,
        range: TextRange,
        evaluated: Option<EffectTable>,
        output: &mut ModuleEffects,
    )
        ensures
            final(output).deep_view() == self.eval_called(
                cursor@,
                args_view(args),
                fname@,
                range,
                table_view(evaluated),
                old(output).deep_view(),
            ),
    {
        let first: &Expression = match args {
            Some(a) => if a.args.len() > 0 {
                &a.args[0]
            } else {
                return;
            },
            None => {
                return;
            },
        };
        match &first.node {
            Node::StringLiteral { value } => {
                if value.as_str().is_empty() {
                    return;
                }
                match evaluated {
                    Some(effects) => {
                        output.effects.merge(move_effects(effects, range));
                    },
                    None => {
                        add_plain(cursor, EffectKind::ExecCall, fname, range, output);
                    },
                }
            },
            _ => {
                add_plain(cursor, EffectKind::ExecCall, fname, range, output);
            },
        }
    }

    /// What is collected, with a call of something that is defined nowhere. Some functions that
    /// need no import are known; a call of anything else may do anything.
    pub open spec fn unresolved_called(
        &self,
        at: Seq<ScopeView>,
        func: Expression,
        args: Option<Arguments>,
        unknown: EffectKind,
        evaluated: Option<Map<Seq<char>, Seq<EffectView>>>,
        out: ModuleEffectsView,
    ) -> ModuleEffectsView {
        match full_name_of(func) {
            None => noted_plain(
                at,
                out,
                EffectKind::UnknownFunctionCall,
                unknown_function(func),
                func.range,
            ),
            Some(name) => {
                let modules = match func.node {
                    Node::Attribute { value, .. } => self.sys_modules(at, *value),
                    _ => false,
                };
                if modules {
                    self.sys_modules_used(at, func.range, out)
                } else if name == "getattr"@ {
                    match args {
                        Some(a) => self.getattr_called(at, a.args@, out),
                        None => out,
                    }
                } else if name == "setattr"@ {
                    match args {
                        Some(a) => self.setattr_called(at, a.args@, out),
                        None => out,
                    }
                } else if name == "exec"@ {
                    noted_plain(at, out, EffectKind::ExecCall, name, func.range)
                } else if name == "eval"@ {
                    self.eval_called(at, args, name, func.range, evaluated, out)
                } else if self.stubs.prohibited_builtins@.contains_key(name) {
                    noted_plain(
                        at,
                        out,
                        self.stubs.prohibited_builtins@[name],
                        name,
                        func.range,
                    )
                } else if self.stubs.known_builtins@.contains(name) {
                    out
                } else {
                    noted_plain(at, out, unknown, name, func.range)
                }
            },
        }
    }

    /// Notes what a call of something that is defined nowhere does.
    pub fn check_unresolved_call(
        &self,
        cursor: &Cursor,
        func: &Expression,
        args: Option<&Arguments>,
        call_kind: Option<CallKind>,
        evaluated: Option<EffectTable>,
        output: &mut ModuleEffects,
    )
        ensures
            final(output).deep_view() == self.unresolved_called(
                cursor@,
                *func,
                args_view(args),
                unknown_kind(call_kind),
                table_view(evaluated),
                old(output).deep_view(),
            ),
    {
        let fname = match func.full_name() {
            Some(fname) => fname,
            None => {
                unknown_function_name(cursor, func, output);
                return;
            },
        };
        if let Node::Attribute { value, .. } = &func.node {
            if self.check_sys_modules_access(cursor, value, func.range, output) {
                return;
            }
        }
        let name = fname.as_str();
        if str_eq(name, "getattr") {
            if let Some(a) = args {
                self.check_getattr(cursor, &a.args, output);
            }
        } else if str_eq(name, "setattr") {
            if let Some(a) = args {
                self.check_setattr(cursor, &a.args, output);
            }
        } else if str_eq(name, "exec") {
            add_plain(cursor, EffectKind::ExecCall, fname, func.range, output);
        } else if str_eq(name, "eval") {
            self.check_eval(cursor, args, fname, func.range, evaluated, output);
        } else if let Some(kind) = self.stubs.prohibited_builtins.get(&fname) {
            add_plain(cursor, *kind, fname, func.range, output);
        } else if !self.stubs.known_builtins.contains(&fname) {
            let kind = match call_kind {
                Some(k) => k.unknown_call_effect(),
                None => EffectKind::UnknownFunctionCall,
            };
            add_plain(cursor, kind, fname, func.range, output);
        }
    }

    /// The name of a function with what its left end is another name for in its place.
    pub open spec fn unaliased(&self, r: ResolvedView, name: Seq<char>) -> Option<Seq<char>> {
        let table = self.bindings.aliases.table();
        if table.contains_key((r.scope, r.name)) && table[(r.scope, r.name)].text().len() > 0
            && begins_with(name, r.name) {
            Some(table[(r.scope, r.name)].text() + name.skip(r.name.len() as int))
        } else {
            None
        }
    }

    /// The full name of a function that is called by a dotted name.
    pub open spec fn called_name(&self, r: ResolvedView, name: Seq<char>) -> Seq<char> {
        match self.unaliased(r, name) {
            Some(full) => full,
            None => r.qualified_name(),
        }
    }

    /// The name of a function with what its left end is another name for in its place.
    fn fname_replace_import_alias(&self, call_name: &ModuleName, res: &ResolvedName) -> (full: Option<ModuleName>)
        ensures
            optional_name(full) == self.unaliased(res.deep_view(), call_name@),
    {
        let alias = match self.bindings.lookup_alias(&res.scope, res.name.as_str()) {
            Some(alias) => alias.as_str(),
            None => {
                return None;
            },
        };
        if alias.is_empty() {
            return None;
        }
        match strip_prefix(call_name.as_str(), res.name.as_str()) {
            Some(rest) => {
                let mut text: String = alias.to_owned();
                text.append(rest.as_str());
                Some(ModuleName::from_string(text))
            },
            None => None,
        }
    }

    /// The full name of a function that is called by a dotted name.
    fn get_called_name(&self, call_name: &ModuleName, res: &ResolvedName) -> (full: ModuleName)
        ensures
            full@ == self.called_name(res.deep_view(), call_name@),
    {
        match self.fname_replace_import_alias(call_name, res) {
            Some(name) => name,
            None => res.qualified_name(),
        }
    }

    /// The name that a method of an object has where the class of the object is defined.
    pub open spec fn method_source(&self, r: ResolvedView, attr: Seq<char>) -> Option<Seq<char>> {
        match bound(self.bindings.bound(), r.scope, r.name).name() {
            Some(name) => match self.exports.deep_view().end_of(attribute_named(name)) {
                Some(end) => Some(dotted(full_name(end), attr)),
                None => None,
            },
            None => None,
        }
    }

    fn get_method_definition_source_name(&self, res: &ResolvedName, attr: &str) -> (source: Option<ModuleName>)
        ensures
            optional_name(source) == self.method_source(res.deep_view(), attr@),
    {
        let name = match self.bindings.lookup(&res.scope, res.name.as_str()) {
            Some(value) => match value.as_module_name() {
                Some(name) => name,
                None => {
                    return None;
                },
            },
            None => {
                return None;
            },
        };
        match self.exports.resolve_transitive(&Attribute::from_module_name(name)) {
            Some(end) => Some(end.as_module_name().append_str(attr)),
            None => None,
        }
    }

    /// What is collected, with a call of a method of an object that a name stands for.
    pub open spec fn method_called(
        &self,
        at: Seq<ScopeView>,
        r: ResolvedView,
        attr: Seq<char>,
        name: Seq<char>,
        range: TextRange,
        data: Option<CallView>,
        out: ModuleEffectsView,
    ) -> ModuleEffectsView {
        let class = self.bindings.type_of(r.scope, r.name);
        let method = match class {
            Some(c) => dotted(c, attr),
            None => name,
        };
        let harmless = r.is_param() && class is None && self.stubs.safe_builtin_methods@.contains(attr);
        let mutating = match class {
            Some(c) => self.stubs.method_may_mutate(c, attr),
            None => true,
        };
        let called = if harmless {
            out
        } else {
            noted(
                at,
                out,
                EffectView { data, ..EffectView::bare(EffectKind::MethodCall, method, range) },
            )
        };
        let traced = match self.method_source(r, attr) {
            Some(source) => called.with_method(method, source),
            None => called,
        };
        let own = if r.is_param() && !harmless && mutating {
            param_mutated(r, range, traced)
        } else {
            traced
        };
        let global = r.is_global() || (r.scope == self.module_name@ && current_scope(at) != self.module_name@);
        if global && class is Some && mutating {
            noted_plain(at, own, EffectKind::GlobalVarMutation, r.name, range)
        } else {
            own
        }
    }

    /// A call is one of a method of an object that a name stands for.
    pub open spec fn is_method_call(func: Expression, r: ResolvedView) -> bool {
        func.node is Attribute && (r.definition.style is Annotated || r.definition.style is Unannotated)
    }

    fn handle_method_call(
        &self,
        cursor: &Cursor,
        func: &Expression,
        res: &ResolvedName,
        fname: &ModuleName,
        range: TextRange,
        data: &EffectData,
        output: &mut ModuleEffects,
    ) -> (handled: bool)
        ensures
            handled == Self::is_method_call(*func, res.deep_view()),
            final(output).deep_view() == (match func.node {
                Node::Attribute { attr, .. } => if handled {
                    self.method_called(
                        cursor@,
                        res.deep_view(),
                        attr@,
                        fname@,
                        range,
                        data.deep_view(),
                        old(output).deep_view(),
                    )
                } else {
                    old(output).deep_view()
                },
                _ => old(output).deep_view(),
            }),
    {
        let attr = match &func.node {
            Node::Attribute { attr, .. } => attr,
            _ => {
                return false;
            },
        };
        match &res.definition.style {
            DefinitionStyle::Annotated(_) | DefinitionStyle::Unannotated(_) => {},
            _ => {
                return false;
            },
        }
        let class = self.bindings.get_type(&res.scope, res.name.as_str());
        let method = match class {
            Some(c) => c.append_str(attr.as_str()),
            None => fname.clone(),
        };
        let harmless = res.is_param() && class.is_none() && self.stubs.safe_builtin_methods.contains_str(
            attr.as_str(),
        );
        let mutating = match class {
            Some(c) => self.stubs.may_mutate_receiver(c, attr.as_str()),
            None => true,
        };
        if !harmless {
            let eff = Effect::with_data(EffectKind::MethodCall, method.clone(), range, data.clone());
            add_effect(cursor, eff, output);
        }
        if let Some(source) = self.get_method_definition_source_name(res, attr.as_str()) {
            output.add_indirect_method(method, source);
        }
        if res.is_param() && !harmless && mutating {
            add_param_effect(res, range, output);
        }
        let global = res.is_global() || (res.scope.same(self.module_name) && !cursor.scope().same(
            self.module_name,
        ));
        if global && class.is_some() && mutating {
            let name = ModuleName::from_str(res.name.as_str());
            add_plain(cursor, EffectKind::GlobalVarMutation, name, range, output);
        }
        true
    }

    /// What a call is noted with: what is known of its arguments, where that matters.
    pub open spec fn call_data(call: CallView) -> Option<CallView> {
        if call.has_unsafe_args || call.forwarded_params.len() > 0 {
            Some(call)
        } else {
            None
        }
    }

    /// What is collected, with a call of a function that a name stands for.
    pub open spec fn named_called(
        &self,
        at: Seq<ScopeView>,
        func: Expression,
        r: ResolvedView,
        name: Seq<char>,
        range: TextRange,
        call: CallView,
        out: ModuleEffectsView,
    ) -> ModuleEffectsView {
        let fname = self.called_name(r, name);
        let known = out.with_function(fname);
        if is_declared_safe(fname) {
            known
        } else if Self::is_method_call(func, r) {
            match func.node {
                Node::Attribute { attr, .. } => self.method_called(
                    at,
                    r,
                    attr@,
                    fname,
                    range,
                    Self::call_data(call),
                    known,
                ),
                _ => known,
            }
        } else {
            noted(
                at,
                known,
                EffectView {
                    data: Self::call_data(call),
                    ..EffectView::bare(
                        if r.is_import() {
                            EffectKind::ImportedFunctionCall
                        } else {
                            EffectKind::FunctionCall
                        },
                        fname,
                        range,
                    )
                },
            )
        }
    }

    /// What is collected, with a call that is no import.
    pub open spec fn plain_called(
        &self,
        at: Seq<ScopeView>,
        func: Expression,
        args: Arguments,
        range: TextRange,
        evaluated: Option<Map<Seq<char>, Seq<EffectView>>>,
        out: ModuleEffectsView,
    ) -> ModuleEffectsView {
        let passed = self.with_arguments(at, args, out);
        let modules = match func.node {
            Node::Attribute { value, .. } => self.sys_modules(at, *value),
            _ => false,
        };
        if modules {
            self.sys_modules_used(at, range, passed.out)
        } else {
            match self.at(at, func) {
                Some(r) => if r.scope == "builtins"@ {
                    self.unresolved_called(
                        at,
                        func,
                        Some(args),
                        EffectKind::UnknownFunctionCall,
                        evaluated,
                        passed.out,
                    )
                } else {
                    match r.full_name {
                        Some(name) => self.named_called(
                            at,
                            func,
                            r,
                            name,
                            range,
                            passed.call,
                            passed.out,
                        ),
                        None => noted_plain(
                            at,
                            passed.out,
                            EffectKind::UnknownFunctionCall,
                            unknown_function(func),
                            func.range,
                        ),
                    }
                },
                None => self.unresolved_called(
                    at,
                    func,
                    Some(args),
                    EffectKind::UnknownFunctionCall,
                    evaluated,
                    passed.out,
                ),
            }
        }
    }

    fn check_unpacked_call(
        &self,
        cursor: &Cursor,
        func: &Expression,
        args: &Arguments,
        range: TextRange,
        evaluated: Option<EffectTable>,
        output: &mut ModuleEffects,
    )
        ensures
            final(output).deep_view() == self.plain_called(
                cursor@,
                *func,
                *args,
                range,
                table_view(evaluated),
                old(output).deep_view(),
            ),
    {
        let call = self.check_call_args(cursor, args, output);
        if let Node::Attribute { value, .. } = &func.node {
            if self.check_sys_modules_access(cursor, value, range, output) {
                return;
            }
        }
        let res = match self.resolve(cursor, func) {
            Some(res) => res,
            None => {
                self.check_unresolved_call(cursor, func, Some(args), None, evaluated, output);
                return;
            },
        };
        if str_eq(res.scope.as_str(), "builtins") {
            self.check_unresolved_call(cursor, func, Some(args), None, evaluated, output);
            return;
        }
        let fname = match &res.expr_full_name {
            Some(name) => self.get_called_name(name, &res),
            None => {
                unknown_function_name(cursor, func, output);
                return;
            },
        };
        output.add_called_function(fname.clone());
        let data = if call.has_unsafe_args() || call.has_forwarded_params() {
            EffectData::Call(Box::new(call))
        } else {
            EffectData::Empty
        };
        if declared_safe(&fname) {
            return;
        }
        if self.handle_method_call(cursor, func, &res, &fname, range, &data, output) {
            return;
        }
        let kind = if res.is_import() {
            EffectKind::ImportedFunctionCall
        } else {
            EffectKind::FunctionCall
        };
        add_effect(cursor, Effect::with_data(kind, fname, range, data), output);
    }

    /// What is collected, with a call. One of `import_module` is an import.
    pub open spec fn called(
        &self,
        at: Seq<ScopeView>,
        func: Expression,
        args: Arguments,
        range: TextRange,
        evaluated: Option<Map<Seq<char>, Seq<EffectView>>>,
        out: ModuleEffectsView,
    ) -> ModuleEffectsView {
        match importlib_in(self.defs(), current_scope(at)).imported_by_call(func, args) {
            Some(module) => out.with_pending(module, current_scope(at)),
            None => self.plain_called(at, func, args, range, evaluated, out),
        }
    }

    /// Notes what a call does.
    pub fn check_call(
        &self,
        cursor: &Cursor,
        func: &Expression,
        args: &Arguments,
        range: TextRange,
        evaluated: Option<EffectTable>,
        output: &mut ModuleEffects,
    )
        ensures
            final(output).deep_view() == self.called(
                cursor@,
                *func,
                *args,
                range,
                table_view(evaluated),
                old(output).deep_view(),
            ),
    {
        let scope = cursor.scope();
        let state = get_import_module_state_from_def(&self.definitions.definitions, &scope);
        if let Some(module) = state.match_call(func, args) {
            output.add_pending_import(module, &scope);
            return;
        }
        self.check_unpacked_call(cursor, func, args, range, evaluated, output);
    }

    /// A decorator is one by which a property gets more methods.
    pub open spec fn property_decorator(e: Expression) -> bool {
        match e.node {
            Node::Attribute { attr, .. } => attr@ == "setter"@ || attr@ == "getter"@ || attr@ == "deleter"@,
            _ => false,
        }
    }

    /// What is collected, with a decorator. It is a call; with arguments, what it returns is called
    /// too.
    pub open spec fn decorated(
        &self,
        at: Seq<ScopeView>,
        func: Expression,
        args: Option<Arguments>,
        range: TextRange,
        evaluated: Option<Map<Seq<char>, Seq<EffectView>>>,
        out: ModuleEffectsView,
    ) -> ModuleEffectsView {
        if Self::property_decorator(func) {
            out
        } else {
            match self.at(at, func) {
                None => self.unresolved_called(
                    at,
                    func,
                    args,
                    EffectKind::UnknownDecoratorCall,
                    evaluated,
                    out,
                ),
                Some(r) => match r.full_name {
                    None => noted_plain(
                        at,
                        out,
                        EffectKind::UnknownDecoratorCall,
                        if func.node is Subscript {
                            "<subscript>"@
                        } else {
                            "<unknown>"@
                        },
                        range,
                    ),
                    Some(name) => {
                        let fname = self.called_name(r, name);
                        if is_declared_safe(fname) {
                            out
                        } else {
                            noted(
                                at,
                                out.with_function(fname),
                                EffectView {
                                    data: if args is Some {
                                        Some(no_args())
                                    } else {
                                        None
                                    },
                                    ..EffectView::bare(
                                        if r.is_import() {
                                            EffectKind::ImportedDecoratorCall
                                        } else {
                                            EffectKind::DecoratorCall
                                        },
                                        fname,
                                        range,
                                    )
                                },
                            )
                        }
                    },
                },
            }
        }
    }

    fn is_property_decorator(e: &Expression) -> (res: bool)
        ensures
            res == Self::property_decorator(*e),
    {
        match &e.node {
            Node::Attribute { attr, .. } => {
                let name = attr.as_str();
                str_eq(name, "setter") || str_eq(name, "getter") || str_eq(name, "deleter")
            },
            _ => false,
        }
    }

    /// Notes what a decorator does.
    pub fn check_decorator(
        &self,
        cursor: &Cursor,
        func: &Expression,
        args: Option<&Arguments>,
        range: TextRange,
        evaluated: Option<EffectTable>,
        output: &mut ModuleEffects,
    )
        ensures
            final(output).deep_view() == self.decorated(
                cursor@,
                *func,
                args_view(args),
                range,
                table_view(evaluated),
                old(output).deep_view(),
            ),
    {
        if Self::is_property_decorator(func) {
            return;
        }
        let res = match self.resolve(cursor, func) {
            Some(res) => res,
            None => {
                self.check_unresolved_call(
                    cursor,
                    func,
                    args,
                    Some(CallKind::Decorator),
                    evaluated,
                    output,
                );
                return;
            },
        };
        let fname = match &res.expr_full_name {
            Some(name) => self.get_called_name(name, &res),
            None => {
                let name: &str = match &func.node {
                    Node::Subscript { .. } => "<subscript>",
                    _ => "<unknown>",
                };
                add_plain(
                    cursor,
                    EffectKind::UnknownDecoratorCall,
                    ModuleName::from_str(name),
                    range,
                    output,
                );
                return;
            },
        };
        if declared_safe(&fname) {
            return;
        }
        output.add_called_function(fname.clone());
        let kind = if res.is_import() {
            EffectKind::ImportedDecoratorCall
        } else {
            EffectKind::DecoratorCall
        };
        let data = if args.is_some() {
            EffectData::Call(Box::new(CallData::empty()))
        } else {
            EffectData::Empty
        };
        add_effect(cursor, Effect::with_data(kind, fname, range, data), output);
    }
}

/// What optional arguments are.
pub open spec fn args_view(args: Option<&Arguments>) -> Option<Arguments> {
    match args {
        Some(a) => Some(*a),
        None => None,
    }
}

/// The effect of a call of the given kind of something that is not known.
pub open spec fn unknown_kind(kind: Option<CallKind>) -> EffectKind {
    match kind {
        Some(CallKind::Function) => EffectKind::UnknownFunctionCall,
        Some(CallKind::Method) => EffectKind::UnknownMethodCall,
        Some(CallKind::Decorator) => EffectKind::UnknownDecoratorCall,
        None => EffectKind::UnknownFunctionCall,
    }
}

} // verus!
