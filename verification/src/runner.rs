//! The analysis of a project from its parsed modules to what is written out.

use crate::analyzer::{AnalysisContext, AnalysisMap};
use crate::ast::AstResult;
use crate::cache_graph::SideEffectMap;
use crate::cache_merge::SafetyMap;
use crate::config::AnalysisConfig;
use crate::exports::Exports;
use crate::implicit_imports::{implicit_added, is_context, ImplicitImportContext};
use crate::import_collector::{is_import_graph, is_parsed, project_exports, Sources};
use crate::imports::ImportGraph;
use crate::module_name::{optional_name, ModuleName};
use crate::module_safety::ResultView;
use crate::name_map::NameMap;
use crate::output::{is_analysis, side_effects_added, LifeGuardAnalysis, OutputOptions};
use crate::project::{
    all_analyzed, are_results, contradicted_at, implicit_found, is_analysis_map, is_output, only_stub, output_from,
    parse_errors_in, project_results, run_analysis, some_contradicts, surface_parse_errors, with_parse_errors,
    AnalysisOutput, ExecutionMode, SourceKind,
};
use crate::project_info::{brought_together, classes_taken, ProjectInfo};
use crate::re_export_map::{groups, re_exports_failing};
use crate::source_info::Stubs;
use crate::stub_analyzer::ConflictingEffects;
use crate::sys_info::SysInfo;
use crate::verbose::{is_verbose_output, write_verbose};
use crate::version::{default_python_version, PythonVersion};
use vstd::prelude::*;

verus! {

/// How a project is to be analyzed.
pub struct Options {
    /// Also tell the errors of each module, and keep implicit imports and import cycles.
    pub verbose: bool,
    pub sorted_output: bool,
    /// The module that is run as `__main__`, where it is known.
    pub main_module: Option<ModuleName>,
    /// The version of Python that the project is analyzed for.
    pub python_version: PythonVersion,
}

impl Default for Options {
    fn default() -> (res: Options)
        ensures
            !res.verbose,
            !res.sorted_output,
            res.main_module is None,
            res.python_version == (PythonVersion { major: 3, minor: 14, micro: 0 }),
    {
        Options {
            verbose: false,
            sorted_output: false,
            main_module: None,
            python_version: default_python_version(),
        }
    }
}

/// What is found of a project before the result is made of it.
pub struct PipelineResult {
    pub safety_map: SafetyMap,
    pub import_graph: ImportGraph,
    pub exports: Exports,
    pub side_effect_imports: SideEffectMap,
}

/// What is found of a project, with the files that could not be parsed among the modules.
pub open spec fn is_pipeline_result(
    sources: &Sources,
    kinds: Seq<SourceKind>,
    stubs: &Stubs,
    config: &AnalysisConfig,
    mode: ExecutionMode,
    res: &PipelineResult,
) -> bool {
    &&& is_import_graph(&res.import_graph, sources, config.sys_info)
    &&& res.exports.deep_view() == project_exports(sources, config.sys_info)
    &&& exists|output: AnalysisOutput| #[trigger]
        is_output(
            sources,
            kinds,
            &AnalysisContext {
                exports: &res.exports,
                import_graph: &res.import_graph,
                stubs,
                config,
            },
            mode,
            &output,
        ) && res.safety_map.deep_view() == with_parse_errors(
            output.safety_map.deep_view(),
            output.parse_errors.deep_view(),
        ) && res.side_effect_imports == output.side_effect_imports
}

/// A configuration is that of some options: the version of Python and the module that is run as
/// `__main__` are those of the options.
pub open spec fn is_config_of(config: &AnalysisConfig, options: &Options) -> bool {
    &&& config.sys_info == (SysInfo { version: options.python_version })
    &&& optional_name(config.main_module) == optional_name(options.main_module)
}

/// What is found of a project, with some options.
pub open spec fn is_found(
    sources: &Sources,
    kinds: Seq<SourceKind>,
    stubs: &Stubs,
    mode: ExecutionMode,
    options: &Options,
    res: &PipelineResult,
) -> bool {
    exists|config: AnalysisConfig| #[trigger]
        is_config_of(&config, options) && is_pipeline_result(sources, kinds, stubs, &config, mode, res)
}

/// Analyzes a project up to the point where the result is made.
pub fn run_pipeline(
    sources: &Sources,
    kinds: &Vec<SourceKind>,
    stubs: &Stubs,
    mode: ExecutionMode,
    options: &Options,
) -> (res: Result<PipelineResult, ConflictingEffects>)
    ensures
        match res {
            Ok(found) => is_found(sources, kinds@, stubs, mode, options, &found) && !some_contradicts(
                sources,
                (SysInfo { version: options.python_version }),
            ),
            Err(e) => contradicted_at(sources, (SysInfo { version: options.python_version }), e.scope@),
        },
{
    let main_module = match &options.main_module {
        Some(name) => Some(name.clone()),
        None => None,
    };
    let config = AnalysisConfig::with_python_version(options.python_version, main_module);
    let (import_graph, exports) = ImportGraph::make_with_exports(sources, &config);
    let mut output = {
        let cx = AnalysisContext { exports: &exports, import_graph: &import_graph, stubs, config: &config };
        match run_analysis(sources, kinds, &cx, mode) {
            Ok(output) => output,
            Err(e) => {
                return Err(e);
            },
        }
    };
    let ghost first = output;
    surface_parse_errors(&mut output);
    let AnalysisOutput { safety_map, side_effect_imports, parse_errors } = output;
    let res = PipelineResult { safety_map, import_graph, exports, side_effect_imports };
    proof {
        assert(is_config_of(&config, options));
        assert(is_pipeline_result(sources, kinds@, stubs, &config, mode, &res));
    }
    Ok(res)
}

/// The result for a project, before the imports that nothing uses are looked at.
pub open spec fn is_plain_analysis(
    analysis: &LifeGuardAnalysis,
    found: &PipelineResult,
    options: OutputOptions,
) -> bool {
    exists|re_exports: Map<Seq<char>, Set<Seq<char>>>|
        groups(
            re_exports,
            |m: Seq<char>, s: Seq<char>|
                re_exports_failing(found.exports.deep_view().sources(), analysis.failing_modules@, m, s),
        ) && #[trigger] is_analysis(analysis, found.safety_map@, &found.import_graph, options, re_exports)
}

/// The result for a project.
pub open spec fn is_result(analysis: &LifeGuardAnalysis, found: &PipelineResult, options: OutputOptions) -> bool {
    exists|before: LifeGuardAnalysis| #[trigger]
        is_plain_analysis(&before, found, options) && side_effects_added(
            &before,
            analysis,
            found.side_effect_imports.deep_view(),
        )
}

/// The result for a project, and what is told of the errors of its modules where that is asked for.
pub struct ProcessedProject {
    pub analysis: LifeGuardAnalysis,
    pub verbose: Option<String>,
}

/// What comes of a project of which everything was found.
pub open spec fn is_processed(
    found: &PipelineResult,
    code: &NameMap<String>,
    options: &Options,
    res: &ProcessedProject,
) -> bool {
    &&& is_result(
        &res.analysis,
        found,
        OutputOptions { verbose: options.verbose, sorted_output: options.sorted_output },
    )
    &&& match res.verbose {
        Some(text) => options.verbose && is_verbose_output(text@, found.safety_map@, code.deep_view()),
        None => !options.verbose,
    }
}

/// Makes the result of what was found of a project.
pub fn finish(found: &PipelineResult, code: &NameMap<String>, options: &Options) -> (res: ProcessedProject)
    ensures
        is_processed(found, code, options, &res),
{
    let verbose = if options.verbose {
        Some(write_verbose(&found.safety_map, code))
    } else {
        None
    };
    let output_options = OutputOptions { verbose: options.verbose, sorted_output: options.sorted_output };
    let mut analysis = LifeGuardAnalysis::new(
        &found.safety_map,
        &found.import_graph,
        &found.exports,
        output_options,
    );
    let ghost before = analysis;
    proof {
        assert(is_plain_analysis(&before, found, output_options));
    }
    analysis.propagate_side_effect_imports(&found.side_effect_imports);
    ProcessedProject { analysis, verbose }
}

/// Analyzes a project, with the code of its modules at hand.
pub fn process_source_map(
    sources: &Sources,
    kinds: &Vec<SourceKind>,
    stubs: &Stubs,
    code: &NameMap<String>,
    options: &Options,
) -> (res: Result<ProcessedProject, ConflictingEffects>)
    ensures
        match res {
            Ok(processed) => !some_contradicts(sources, (SysInfo { version: options.python_version }))
                && exists|found: PipelineResult| #[trigger]
                is_found(sources, kinds@, stubs, ExecutionMode::WholeProgram, options, &found) && is_processed(
                    &found,
                    code,
                    options,
                    &processed,
                ),
            Err(e) => contradicted_at(sources, (SysInfo { version: options.python_version }), e.scope@),
        },
{
    match run_pipeline(sources, kinds, stubs, ExecutionMode::WholeProgram, options) {
        Ok(found) => Ok(finish(&found, code, options)),
        Err(e) => Err(e),
    }
}

/// Every file of a project gets a result, but for stubs that stand in the place of no source. One
/// that could not be parsed fails, for the reason that is given.
pub proof fn every_file_gets_a_result(
    sources: &Sources,
    kinds: Seq<SourceKind>,
    stubs: &Stubs,
    config: &AnalysisConfig,
    mode: ExecutionMode,
    found: &PipelineResult,
    name: Seq<char>,
)
    requires
        is_pipeline_result(sources, kinds, stubs, config, mode, found),
    ensures
        found.safety_map@.contains_key(name) <==> sources@.contains_key(name) && (sources@[name] is ParserError
            || !only_stub(kinds, name)),
        sources@.contains_key(name) ==> match sources@[name] {
            AstResult::ParserError(reason) => found.safety_map.deep_view()[name] == ResultView::Failed(
                "Parse error: "@ + reason@,
            ),
            AstResult::Parsed(_) => true,
        },
{
    let cx = AnalysisContext { exports: &found.exports, import_graph: &found.import_graph, stubs, config };
    let output = choose|output: AnalysisOutput| #[trigger]
        is_output(
            sources,
            kinds,
            &AnalysisContext {
                exports: &found.exports,
                import_graph: &found.import_graph,
                stubs,
                config,
            },
            mode,
            &output,
        ) && found.safety_map.deep_view() == with_parse_errors(
            output.safety_map.deep_view(),
            output.parse_errors.deep_view(),
        ) && found.side_effect_imports == output.side_effect_imports;
    let map = choose|map: AnalysisMap| #[trigger]
        is_analysis_map(&cx, sources, &map) && output_from(&map, kinds, &cx, mode, &output);
    let results = choose|results: Map<Seq<char>, ResultView>| #[trigger]
        are_results(&map, &cx, mode, results) && output.safety_map.deep_view() == results.remove_keys(
            Set::new(|m: Seq<char>| only_stub(kinds, m)),
        );
    lemma_analyzed_modules(sources, &cx, &map, name);
    lemma_modules_with_results(&map, &cx, mode, results, name);
    assert(found.safety_map@.contains_key(name) <==> found.safety_map.deep_view().contains_key(name));
    assert(output.parse_errors.deep_view() == parse_errors_in(sources));
}

/// The modules that are analyzed are those that were parsed.
proof fn lemma_analyzed_modules(sources: &Sources, cx: &AnalysisContext, map: &AnalysisMap, name: Seq<char>)
    requires
        is_analysis_map(cx, sources, map),
    ensures
        map@.contains_key(name) <==> is_parsed(sources, name),
{
    let first = choose|first: AnalysisMap| #[trigger]
        all_analyzed(cx, sources, &first, sources@.dom()) && implicit_found(&first, cx.import_graph, map);
    let ctx = choose|ctx: ImplicitImportContext| #[trigger]
        is_context(&ctx, &first, cx.import_graph) && implicit_added(&ctx, &first, map);
    assert(first@.contains_key(name) <==> is_parsed(sources, name));
    assert(map@.dom() =~= first@.dom());
}

/// The modules that there are results for are those that were analyzed.
proof fn lemma_modules_with_results(
    map: &AnalysisMap,
    cx: &AnalysisContext,
    mode: ExecutionMode,
    results: Map<Seq<char>, ResultView>,
    name: Seq<char>,
)
    requires
        are_results(map, cx, mode, results),
    ensures
        results.contains_key(name) <==> map@.contains_key(name),
{
    let info = choose|info: ProjectInfo| #[trigger]
        brought_together(map, cx.exports, &info) && project_results(&info, cx.import_graph, mode, results);
    assert(classes_taken(map, &info.analysis_map));
    assert(info.analysis_map@.dom() =~= map@.dom());
}

} // verus!
