//! What the scopes of a module define.

use crate::module_name::{optional_name, str_eq, ModuleName};
use crate::name_map::{copy_map, Duplicate, NameMap};
use crate::name_set::NameSet;
use crate::text_range::TextRange;
use vstd::prelude::*;

verus! {

/// What kind of thing a name stands for.
#[derive(Debug, PartialEq, Eq, Structural, Copy, Clone)]
pub enum SymbolKind {
    Module,
    Attribute,
    Variable,
    Constant,
    Parameter,
    TypeParameter,
    TypeAlias,
    Function,
    Method,
    Class,
}

/// How a scope makes a name of an outer scope its own.
#[derive(Debug, PartialEq, Eq, Structural, Copy, Clone)]
pub enum MutableCaptureKind {
    Global,
    Nonlocal,
}

/// How a name comes to be defined.
pub enum DefinitionStyle {
    /// A definition with an annotation.
    Annotated(SymbolKind),
    /// A definition without an annotation.
    Unannotated(SymbolKind),
    /// `global` or `nonlocal`.
    MutableCapture(MutableCaptureKind),
    /// `from module import original as name`.
    ImportAs(ModuleName, String),
    /// `from module import name as name`.
    ImportAsEq(ModuleName),
    /// `from module import name`.
    Import(ModuleName),
    /// `import module`.
    ImportModule(ModuleName),
    /// A relative import that leads out of the package.
    ImportInvalidRelative,
    /// A name that every module has.
    ImplicitGlobal,
    /// `del name`.
    Delete,
}

/// The definition of a name.
pub struct Definition {
    pub range: TextRange,
    pub style: DefinitionStyle,
}

/// What a [`DefinitionStyle`] is.
pub enum StyleView {
    Annotated(SymbolKind),
    Unannotated(SymbolKind),
    MutableCapture(MutableCaptureKind),
    ImportAs(Seq<char>, Seq<char>),
    ImportAsEq(Seq<char>),
    Import(Seq<char>),
    ImportModule(Seq<char>),
    ImportInvalidRelative,
    ImplicitGlobal,
    Delete,
}

impl DeepView for DefinitionStyle {
    type V = StyleView;

    open spec fn deep_view(&self) -> StyleView {
        match self {
            DefinitionStyle::Annotated(kind) => StyleView::Annotated(*kind),
            DefinitionStyle::Unannotated(kind) => StyleView::Unannotated(*kind),
            DefinitionStyle::MutableCapture(kind) => StyleView::MutableCapture(*kind),
            DefinitionStyle::ImportAs(module, name) => StyleView::ImportAs(module@, name@),
            DefinitionStyle::ImportAsEq(module) => StyleView::ImportAsEq(module@),
            DefinitionStyle::Import(module) => StyleView::Import(module@),
            DefinitionStyle::ImportModule(module) => StyleView::ImportModule(module@),
            DefinitionStyle::ImportInvalidRelative => StyleView::ImportInvalidRelative,
            DefinitionStyle::ImplicitGlobal => StyleView::ImplicitGlobal,
            DefinitionStyle::Delete => StyleView::Delete,
        }
    }
}

impl Clone for DefinitionStyle {
    fn clone(&self) -> (res: DefinitionStyle)
        ensures
            res.deep_view() == self.deep_view(),
    {
        match self {
            DefinitionStyle::Annotated(kind) => DefinitionStyle::Annotated(*kind),
            DefinitionStyle::Unannotated(kind) => DefinitionStyle::Unannotated(*kind),
            DefinitionStyle::MutableCapture(kind) => DefinitionStyle::MutableCapture(*kind),
            DefinitionStyle::ImportAs(module, name) => DefinitionStyle::ImportAs(
                module.clone(),
                name.clone(),
            ),
            DefinitionStyle::ImportAsEq(module) => DefinitionStyle::ImportAsEq(module.clone()),
            DefinitionStyle::Import(module) => DefinitionStyle::Import(module.clone()),
            DefinitionStyle::ImportModule(module) => DefinitionStyle::ImportModule(module.clone()),
            DefinitionStyle::ImportInvalidRelative => DefinitionStyle::ImportInvalidRelative,
            DefinitionStyle::ImplicitGlobal => DefinitionStyle::ImplicitGlobal,
            DefinitionStyle::Delete => DefinitionStyle::Delete,
        }
    }
}

/// What a [`Definition`] is.
pub struct DefinitionView {
    pub range: TextRange,
    pub style: StyleView,
}

impl DeepView for Definition {
    type V = DefinitionView;

    open spec fn deep_view(&self) -> DefinitionView {
        DefinitionView { range: self.range, style: self.style.deep_view() }
    }
}

impl Duplicate for Definition {
    fn make_copy(&self) -> (res: Definition) {
        Definition { range: self.range, style: self.style.clone() }
    }
}

/// The module that a definition imports, or imports from.
pub open spec fn imported_module(style: StyleView) -> Option<Seq<char>> {
    match style {
        StyleView::ImportAs(m, _) => Some(m),
        StyleView::ImportAsEq(m) => Some(m),
        StyleView::Import(m) => Some(m),
        StyleView::ImportModule(m) => Some(m),
        _ => None,
    }
}

/// A definition is that of a parameter.
pub open spec fn is_parameter(style: StyleView) -> bool {
    ||| style == StyleView::Annotated(SymbolKind::Parameter)
    ||| style == StyleView::Unannotated(SymbolKind::Parameter)
}

impl Definition {
    /// The module that the definition imports, or imports from.
    pub fn get_imported_module_name(&self) -> (res: Option<ModuleName>)
        ensures
            optional_name(res) == imported_module(self.deep_view().style),
    {
        match &self.style {
            DefinitionStyle::ImportAs(module, _) => Some(module.clone()),
            DefinitionStyle::ImportAsEq(module) => Some(module.clone()),
            DefinitionStyle::Import(module) => Some(module.clone()),
            DefinitionStyle::ImportModule(module) => Some(module.clone()),
            _ => None,
        }
    }

    /// Whether the definition is an import.
    pub fn is_import(&self) -> (res: bool)
        ensures
            res == imported_module(self.deep_view().style) is Some,
    {
        self.get_imported_module_name().is_some()
    }

    /// Whether the definition is that of a parameter.
    pub fn is_param(&self) -> (res: bool)
        ensures
            res == is_parameter(self.deep_view().style),
    {
        match &self.style {
            DefinitionStyle::Annotated(kind) => *kind == SymbolKind::Parameter,
            DefinitionStyle::Unannotated(kind) => *kind == SymbolKind::Parameter,
            _ => false,
        }
    }
}

/// A change to `__all__`.
pub enum DunderAllEntry {
    /// A name is added.
    Name(String),
    /// A name is removed.
    Remove(String),
    /// The names of a module are added.
    Module(ModuleName),
}

/// What a scope defines.
pub struct Definitions {
    /// The definitions by name.
    pub definitions: NameMap<Definition>,
    /// The changes to `__all__`, in order.
    pub dunder_all: Vec<DunderAllEntry>,
    /// The modules of which everything is imported.
    pub import_all: NameSet,
    /// `importlib` is imported.
    pub has_importlib: bool,
    /// `import_module` is imported from `importlib`.
    pub has_import_module: bool,
    /// The submodules that a package imports by importing itself.
    pub implicitly_imported_submodules: NameSet,
}

/// What a [`DunderAllEntry`] is.
pub enum EntryView {
    Name(Seq<char>),
    Remove(Seq<char>),
    Module(Seq<char>),
}

impl DeepView for DunderAllEntry {
    type V = EntryView;

    open spec fn deep_view(&self) -> EntryView {
        match self {
            DunderAllEntry::Name(name) => EntryView::Name(name@),
            DunderAllEntry::Remove(name) => EntryView::Remove(name@),
            DunderAllEntry::Module(module) => EntryView::Module(module@),
        }
    }
}

impl Clone for DunderAllEntry {
    fn clone(&self) -> (res: DunderAllEntry)
        ensures
            res.deep_view() == self.deep_view(),
    {
        match self {
            DunderAllEntry::Name(name) => DunderAllEntry::Name(name.clone()),
            DunderAllEntry::Remove(name) => DunderAllEntry::Remove(name.clone()),
            DunderAllEntry::Module(module) => DunderAllEntry::Module(module.clone()),
        }
    }
}

/// What a [`Definitions`] is.
pub struct DefinitionsView {
    pub definitions: Map<Seq<char>, DefinitionView>,
    pub dunder_all: Seq<EntryView>,
    pub import_all: Set<Seq<char>>,
    pub has_importlib: bool,
    pub has_import_module: bool,
    pub implicitly_imported_submodules: Set<Seq<char>>,
}

impl DeepView for Definitions {
    type V = DefinitionsView;

    open spec fn deep_view(&self) -> DefinitionsView {
        DefinitionsView {
            definitions: self.definitions.deep_view(),
            dunder_all: self.dunder_all.deep_view(),
            import_all: self.import_all@,
            has_importlib: self.has_importlib,
            has_import_module: self.has_import_module,
            implicitly_imported_submodules: self.implicitly_imported_submodules@,
        }
    }
}

impl DefinitionsView {
    /// One more definition.
    pub open spec fn with(self, name: Seq<char>, def: DefinitionView) -> DefinitionsView {
        DefinitionsView { definitions: self.definitions.insert(name, def), ..self }
    }
}

impl Clone for Definitions {
    fn clone(&self) -> (res: Definitions)
        ensures
            res.deep_view() == self.deep_view(),
    {
        let mut dunder_all: Vec<DunderAllEntry> = Vec::new();
        for i in 0..self.dunder_all.len()
            invariant
                dunder_all.deep_view() == self.dunder_all.deep_view().take(i as int),
        {
            let ghost before = dunder_all.deep_view();
            dunder_all.push(self.dunder_all[i].clone());
            proof {
                assert(dunder_all.deep_view() =~= before.push(self.dunder_all.deep_view()[i as int]));
                assert(dunder_all.deep_view() =~= self.dunder_all.deep_view().take(i + 1));
            }
        }
        proof {
            assert(dunder_all.deep_view() =~= self.dunder_all.deep_view());
        }
        Definitions {
            definitions: copy_map(&self.definitions),
            dunder_all,
            import_all: self.import_all.clone(),
            has_importlib: self.has_importlib,
            has_import_module: self.has_import_module,
            implicitly_imported_submodules: self.implicitly_imported_submodules.clone(),
        }
    }
}

impl Definitions {
    /// Nothing is defined.
    pub fn empty() -> (res: Definitions)
        ensures
            (res.definitions@ == Map::<Seq<char>, Definition>::empty()),
            res.dunder_all@.len() == 0,
            res.import_all@ == Set::<Seq<char>>::empty(),
            !res.has_importlib,
            !res.has_import_module,
            res.implicitly_imported_submodules@ == Set::<Seq<char>>::empty(),
    {
        Definitions {
            definitions: NameMap::new(),
            dunder_all: Vec::new(),
            import_all: NameSet::new(),
            has_importlib: false,
            has_import_module: false,
            implicitly_imported_submodules: NameSet::new(),
        }
    }
}

/// The position at which a name first occurs.
pub open spec fn first_index(names: Seq<Seq<char>>, name: Seq<char>) -> Option<usize>
    decreases names.len(),
{
    if names.len() == 0 {
        None
    } else if names[0] == name {
        Some(0)
    } else {
        match first_index(names.skip(1), name) {
            Some(i) => Some((i + 1) as usize),
            None => None,
        }
    }
}

/// Where a name first occurs, it occurs, and not earlier.
pub proof fn lemma_first_index(names: Seq<Seq<char>>, name: Seq<char>)
    requires
        names.len() <= usize::MAX,
    ensures
        match first_index(names, name) {
            Some(i) => i < names.len() && names[i as int] == name && forall|j: int|
                0 <= j < i ==> names[j] != name,
            None => !names.contains(name),
        },
    decreases names.len(),
{
    if names.len() > 0 && names[0] != name {
        let rest = names.skip(1);
        lemma_first_index(rest, name);
        match first_index(rest, name) {
            Some(i) => {
                assert(names[i + 1] == rest[i as int]);
                assert forall|j: int| 0 <= j < i + 1 implies names[j] != name by {
                    if j > 0 {
                        assert(rest[j - 1] == names[j]);
                    }
                }
            },
            None => {
                assert forall|j: int| 0 <= j < names.len() implies names[j] != name by {
                    if j > 0 {
                        assert(rest[j - 1] == names[j]);
                        assert(rest.contains(rest[j - 1]));
                    }
                }
            },
        }
    }
}

/// What all scopes of a module define.
pub struct DefinitionTable {
    /// What each scope defines.
    pub definitions: NameMap<Definitions>,
    /// The scopes whose statements run when the module is imported.
    pub eager_scopes: NameSet,
    /// The full names of functions and methods.
    pub functions: NameSet,
    /// For functions and classes inside of functions, the function that they are in.
    pub enclosing_functions: NameMap<ModuleName>,
    /// The names of each function's parameters, in order.
    pub param_names: NameMap<Vec<String>>,
}

impl DefinitionTable {
    pub fn empty() -> (res: DefinitionTable)
        ensures
            (res.definitions@ == Map::<Seq<char>, Definitions>::empty()),
            res.eager_scopes@ == Set::<Seq<char>>::empty(),
            res.functions@ == Set::<Seq<char>>::empty(),
            (res.enclosing_functions@ == Map::<Seq<char>, ModuleName>::empty()),
            (res.param_names@ == Map::<Seq<char>, Vec<String>>::empty()),
    {
        DefinitionTable {
            definitions: NameMap::new(),
            eager_scopes: NameSet::new(),
            functions: NameSet::new(),
            enclosing_functions: NameMap::new(),
            param_names: NameMap::new(),
        }
    }

    /// The position of a parameter in the signature of a function.
    pub open spec fn param_index(&self, func_scope: Seq<char>, param_name: Seq<char>) -> Option<usize> {
        if self.param_names@.contains_key(func_scope) {
            first_index(self.param_names@[func_scope].deep_view(), param_name)
        } else {
            None
        }
    }

    /// The position of a parameter in the signature of a function.
    pub fn get_param_index(&self, func_scope: &ModuleName, param_name: &str) -> (res: Option<usize>)
        ensures
            res == self.param_index(func_scope@, param_name@),
    {
        match self.param_names.get(func_scope) {
            None => None,
            Some(names) => {
                let ghost all = names.deep_view();
                proof {
                    lemma_first_index(all, param_name@);
                }
                for i in 0..names.len()
                    invariant
                        all == names.deep_view(),
                        self.param_names@.contains_key(func_scope@),
                        *names == self.param_names@[func_scope@],
                        forall|j: int| 0 <= j < i ==> all[j] != param_name@,
                        match first_index(all, param_name@) {
                            Some(i) => i < all.len() && all[i as int] == param_name@ && forall|j: int|
                                0 <= j < i ==> all[j] != param_name@,
                            None => !all.contains(param_name@),
                        },
                {
                    if str_eq(names[i].as_str(), param_name) {
                        proof {
                            assert(all[i as int] == param_name@);
                            assert(all.contains(param_name@));
                        }
                        return Some(i);
                    }
                }
                None
            },
        }
    }
}

} // verus!
