//! A module that was analyzed by itself.

use crate::ast::ParsedModule;
use crate::class::ClassTable;
use crate::config::AnalysisConfig;
use crate::definitions::DefinitionTable;
use crate::exports::Exports;
use crate::imports::ImportGraph;
use crate::module_effects::{ModuleEffects, ModuleEffectsView};
use crate::module_info::{module_tables, tables_view};
use crate::name_map::NameMap;
use crate::name_set::NameSet;
use crate::source_analyzer::{analyzes, source_output};
use crate::source_info::{SourceAnalyzer, Stubs};
use crate::stub_analyzer::{contradictory, contradictory_at, stub_output, stub_table, ConflictingEffects};
use vstd::prelude::*;

verus! {

/// A module that was analyzed by itself, without the others.
pub struct AnalyzedModule {
    pub module_effects: ModuleEffects,
    pub definitions: DefinitionTable,
    pub classes: ClassTable,
    /// The modules that it uses without importing them. They are known only once the whole
    /// project is.
    pub implicit_imports: NameSet,
}

/// The modules of a project, each analyzed by itself.
pub type AnalysisMap = NameMap<AnalyzedModule>;

impl AnalyzedModule {
    pub fn empty() -> (res: AnalyzedModule)
        ensures
            res.module_effects.deep_view() == crate::module_effects::ModuleEffectsView::none(),
            res.definitions.functions@ == Set::<Seq<char>>::empty(),
            res.definitions.eager_scopes@ == Set::<Seq<char>>::empty(),
            res.classes.deep_view().dom() =~= Set::<Seq<char>>::empty(),
            res.implicit_imports@ == Set::<Seq<char>>::empty(),
    {
        AnalyzedModule {
            module_effects: ModuleEffects::new(),
            definitions: DefinitionTable::empty(),
            classes: ClassTable::empty(),
            implicit_imports: NameSet::new(),
        }
    }
}

/// What an analysis depends on besides the module itself.
pub struct AnalysisContext<'a> {
    pub exports: &'a Exports,
    pub import_graph: &'a ImportGraph,
    pub stubs: &'a Stubs,
    pub config: &'a AnalysisConfig,
}

/// A module was analyzed: a stub for what it says, a source file for what its statements do.
pub open spec fn is_analyzed(cx: &AnalysisContext, parsed: &ParsedModule, res: &AnalyzedModule) -> bool {
    &&& tables_view(&res.definitions, &res.classes) == module_tables(parsed, cx.config)
    &&& res.implicit_imports@ == Set::<Seq<char>>::empty()
    &&& if parsed.is_stub {
        res.module_effects.deep_view() == (ModuleEffectsView {
            effects: stub_table(stub_output(parsed, cx.config.sys_info).effects),
            ..stub_output(parsed, cx.config.sys_info)
        })
    } else {
        source_analyzed(cx, parsed, res.module_effects.deep_view())
    }
}

/// What was collected of a source file is what its statements do.
pub open spec fn source_analyzed(cx: &AnalysisContext, parsed: &ParsedModule, out: ModuleEffectsView) -> bool {
    exists|a: SourceAnalyzer| #[trigger]
        analyzes(&a, parsed, cx.exports, cx.import_graph, cx.stubs, cx.config) && out == source_output(
            &a,
            parsed,
        )
}

/// Analyzes a module by itself. A stub that contradicts itself is refused.
pub fn analyze(parsed_module: &ParsedModule, cx: &AnalysisContext) -> (res: Result<
    AnalyzedModule,
    ConflictingEffects,
>)
    ensures
        match res {
            Ok(output) => is_analyzed(cx, parsed_module, &output) && !(parsed_module.is_stub
                && contradictory(stub_output(parsed_module, cx.config.sys_info).effects)),
            Err(e) => parsed_module.is_stub && contradictory_at(
                stub_output(parsed_module, cx.config.sys_info).effects,
                e.scope@,
            ),
        },
{
    if parsed_module.is_stub {
        crate::stub_analyzer::analyze(parsed_module, cx.config)
    } else {
        let res = crate::source_analyzer::analyze(
            parsed_module,
            cx.exports,
            cx.import_graph,
            cx.stubs,
            cx.config,
        );
        proof {
            let a = choose|a: SourceAnalyzer| #[trigger]
                analyzes(&a, parsed_module, cx.exports, cx.import_graph, cx.stubs, cx.config)
                    && res.module_effects.deep_view() == source_output(&a, parsed_module);
            assert(analyzes(&a, parsed_module, cx.exports, cx.import_graph, cx.stubs, cx.config));
        }
        Ok(res)
    }
}

} // verus!
