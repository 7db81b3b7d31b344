//! Static analysis of Python sources for lazy-import safety.

pub mod analyzer;
pub mod ast;
pub mod attribute;
pub mod bindings;
pub mod bindings_table;
pub mod cache;
pub mod cache_graph;
pub mod cache_links;
pub mod cache_merge;
pub mod cached_exports;
pub mod cached_module;
pub mod call_check;
pub mod call_targets;
pub mod call_text;
pub mod callees;
pub mod candidate_outcomes;
pub mod candidates;
pub mod class;
pub mod class_builder;
pub mod class_fields;
pub mod classify;
pub mod config;
pub mod cursor;
pub mod definition_occurrences;
pub mod definitions;
pub mod definitions_builder;
pub mod eager_reasons;
pub mod effect_report;
pub mod effects;
pub mod error_kinds;
pub mod errors;
pub mod export_sources;
pub mod exports;
pub mod exports_builder;
pub mod file_choice;
pub mod format;
pub mod graph;
pub mod implicit_imports;
pub mod import_collector;
pub mod implicit_reasons;
pub mod import_notes;
pub mod import_occurrences;
pub mod importlib;
pub mod imports;
pub mod known_parents;
pub mod lazy_eligible;
pub mod lazy_reasons;
pub mod manifest;
pub mod manual_override;
pub mod module_effects;
pub mod module_errors;
pub mod module_info;
pub mod module_name;
pub mod module_parser;
pub mod module_safety;
pub mod mutated_params;
pub mod name_map;
pub mod name_set;
pub mod name_sets;
pub mod output;
pub mod project;
pub mod project_info;
pub mod project_parts;
pub mod re_export_map;
pub mod reach;
pub mod recursion;
pub mod relative_imports;
pub mod report;
pub mod resolve;
pub mod ruff_tree;
pub mod runner;
pub mod scope_check;
pub mod source_analyzer;
pub mod source_calls;
pub mod source_checks;
pub mod source_effects;
pub mod source_growth;
pub mod source_imports;
pub mod source_info;
pub mod source_map;
pub mod source_occurrences;
pub mod spread;
pub mod stub_analyzer;
pub mod stub_occurrences;
pub mod stub_totals;
pub mod sys_info;
pub mod table_occurrences;
pub mod test_outcomes;
pub mod text;
pub mod text_range;
pub mod verbose;
pub mod verdict_order;
pub mod verdict_soundness;
pub mod verdicts;
pub mod version;
