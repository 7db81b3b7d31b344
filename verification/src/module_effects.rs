//! What an analysis of a module collects.

use crate::effects::{table_with, Effect, EffectTable, EffectView};
use crate::module_name::ModuleName;
use crate::name_map::NameMap;
use crate::name_set::NameSet;
use crate::name_sets::{add_name, with_names, NameSets};
use crate::text_range::TextRange;
use vstd::prelude::*;

verus! {

/// The modules that each scope, a module or a function or a class, imports or uses.
pub type ModuleImportsMap = NameSets;

/// A message on a file, for people to read.
pub struct FileError {
    pub error: String,
    pub range: TextRange,
}

impl DeepView for FileError {
    type V = (Seq<char>, TextRange);

    open spec fn deep_view(&self) -> (Seq<char>, TextRange) {
        (self.error@, self.range)
    }
}

/// What an analysis of a module collects.
pub struct ModuleEffects {
    pub effects: EffectTable,
    /// Messages on the file.
    pub file_errors: Vec<FileError>,
    /// The imported modules that each scope uses.
    pub called_imports: ModuleImportsMap,
    /// The modules that each scope imports.
    pub pending_imports: ModuleImportsMap,
    /// The modules that some scope imports.
    pub all_pending_import_names: NameSet,
    /// The imported modules that some scope uses.
    pub all_called_import_names: NameSet,
    /// The functions that the module calls.
    pub called_functions: NameSet,
    /// The methods called on objects that are imported under another name, with the name that
    /// they have where they are defined.
    pub indirectly_called_methods: NameMap<ModuleName>,
    /// The modules that are imported by statements that are not lazy.
    pub eager_imports: NameSet,
}

/// What a [`ModuleEffects`] is.
pub struct ModuleEffectsView {
    pub effects: Map<Seq<char>, Seq<EffectView>>,
    pub file_errors: Seq<(Seq<char>, TextRange)>,
    pub called_imports: Map<Seq<char>, Set<Seq<char>>>,
    pub pending_imports: Map<Seq<char>, Set<Seq<char>>>,
    pub all_pending_import_names: Set<Seq<char>>,
    pub all_called_import_names: Set<Seq<char>>,
    pub called_functions: Set<Seq<char>>,
    pub indirectly_called_methods: Map<Seq<char>, Seq<char>>,
    pub eager_imports: Set<Seq<char>>,
}

impl DeepView for ModuleEffects {
    type V = ModuleEffectsView;

    open spec fn deep_view(&self) -> ModuleEffectsView {
        ModuleEffectsView {
            effects: self.effects.deep_view(),
            file_errors: self.file_errors.deep_view(),
            called_imports: self.called_imports.deep_view(),
            pending_imports: self.pending_imports.deep_view(),
            all_pending_import_names: self.all_pending_import_names@,
            all_called_import_names: self.all_called_import_names@,
            called_functions: self.called_functions@,
            indirectly_called_methods: self.indirectly_called_methods.deep_view(),
            eager_imports: self.eager_imports@,
        }
    }
}

impl ModuleEffectsView {
    /// Nothing was collected.
    pub open spec fn none() -> ModuleEffectsView {
        ModuleEffectsView {
            effects: Map::empty(),
            file_errors: Seq::empty(),
            called_imports: Map::empty(),
            pending_imports: Map::empty(),
            all_pending_import_names: Set::empty(),
            all_called_import_names: Set::empty(),
            called_functions: Set::empty(),
            indirectly_called_methods: Map::empty(),
            eager_imports: Set::empty(),
        }
    }

    /// One more effect of a scope.
    pub open spec fn with_effect(self, scope: Seq<char>, eff: EffectView) -> ModuleEffectsView {
        ModuleEffectsView { effects: table_with(self.effects, scope, seq![eff]), ..self }
    }

    /// One more message.
    pub open spec fn with_file_error(self, error: Seq<char>, range: TextRange) -> ModuleEffectsView {
        ModuleEffectsView { file_errors: self.file_errors.push((error, range)), ..self }
    }

    /// One more import of a scope.
    pub open spec fn with_pending(self, import: Seq<char>, scope: Seq<char>) -> ModuleEffectsView {
        ModuleEffectsView {
            pending_imports: with_names(self.pending_imports, scope, set![import]),
            all_pending_import_names: self.all_pending_import_names.insert(import),
            ..self
        }
    }

    /// One more imported module that a scope uses.
    pub open spec fn with_called(self, import: Seq<char>, scope: Seq<char>) -> ModuleEffectsView {
        ModuleEffectsView {
            called_imports: with_names(self.called_imports, scope, set![import]),
            all_called_import_names: self.all_called_import_names.insert(import),
            ..self
        }
    }
}

impl ModuleEffectsView {
    /// One more function that the module calls.
    pub open spec fn with_function(self, func: Seq<char>) -> ModuleEffectsView {
        ModuleEffectsView { called_functions: self.called_functions.insert(func), ..self }
    }

    /// One more method called on an imported object. What is known of it already stands.
    pub open spec fn with_method(self, name: Seq<char>, source: Seq<char>) -> ModuleEffectsView {
        if self.indirectly_called_methods.contains_key(name) {
            self
        } else {
            ModuleEffectsView {
                indirectly_called_methods: self.indirectly_called_methods.insert(name, source),
                ..self
            }
        }
    }

    /// One more module that is imported by a statement that is not lazy.
    pub open spec fn with_eager(self, import: Seq<char>) -> ModuleEffectsView {
        ModuleEffectsView { eager_imports: self.eager_imports.insert(import), ..self }
    }
}

impl ModuleEffects {
    /// Notes that the module calls a function.
    pub fn add_called_function(&mut self, func: ModuleName)
        ensures
            final(self).deep_view() == old(self).deep_view().with_function(func@),
    {
        let _ = self.called_functions.insert(func);
    }

    /// Notes a method called on an imported object.
    pub fn add_indirect_method(&mut self, name: ModuleName, source: ModuleName)
        ensures
            final(self).deep_view() == old(self).deep_view().with_method(name@, source@),
    {
        if !self.indirectly_called_methods.contains_key(&name) {
            let _ = self.indirectly_called_methods.insert(name, source);
            proof {
                assert(self.indirectly_called_methods.deep_view()
                    =~= old(self).indirectly_called_methods.deep_view().insert(name@, source@));
            }
        }
    }

    /// Notes that a module is imported by a statement that is not lazy.
    pub fn add_eager_import(&mut self, import: ModuleName)
        ensures
            final(self).deep_view() == old(self).deep_view().with_eager(import@),
    {
        let _ = self.eager_imports.insert(import);
    }

    pub fn new() -> (res: ModuleEffects)
        ensures
            res.deep_view() == ModuleEffectsView::none(),
    {
        let res = ModuleEffects {
            effects: EffectTable::empty(),
            file_errors: Vec::new(),
            called_imports: NameMap::new(),
            pending_imports: NameMap::new(),
            all_pending_import_names: NameSet::new(),
            all_called_import_names: NameSet::new(),
            called_functions: NameSet::new(),
            indirectly_called_methods: NameMap::new(),
            eager_imports: NameSet::new(),
        };
        proof {
            let v = res.deep_view();
            assert(v.file_errors =~= Seq::empty());
            assert(v.called_imports =~= Map::empty());
            assert(v.pending_imports =~= Map::empty());
            assert(v.indirectly_called_methods =~= Map::empty());
        }
        res
    }

    pub fn add_effect(&mut self, scope: ModuleName, eff: Effect)
        ensures
            final(self).deep_view() == old(self).deep_view().with_effect(scope@, eff.deep_view()),
    {
        self.effects.insert(scope, eff);
    }

    pub fn add_file_error(&mut self, error: String, range: TextRange)
        ensures
            final(self).deep_view() == old(self).deep_view().with_file_error(error@, range),
    {
        let ghost before = self.deep_view();
        self.file_errors.push(FileError { error, range });
        proof {
            assert(self.deep_view().file_errors =~= before.file_errors.push((error@, range)));
        }
    }

    /// Notes that a scope imports a module.
    pub fn add_pending_import(&mut self, import: ModuleName, scope: &ModuleName)
        ensures
            final(self).deep_view() == old(self).deep_view().with_pending(import@, scope@),
    {
        add_name(&mut self.pending_imports, scope, import.clone());
        let _ = self.all_pending_import_names.insert(import);
    }

    /// Notes that a scope uses an imported module.
    pub fn add_called_import(&mut self, import: ModuleName, scope: &ModuleName)
        ensures
            final(self).deep_view() == old(self).deep_view().with_called(import@, scope@),
    {
        add_name(&mut self.called_imports, scope, import.clone());
        let _ = self.all_called_import_names.insert(import);
    }
}

} // verus!
