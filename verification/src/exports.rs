//! What modules define, and what they re-export from others.

use crate::attribute::{
    attribute_named, attributes_of, full_name, lemma_attributes_finite, AttrMap, Attribute,
};
use crate::imports::ImportGraph;
use crate::module_name::ModuleName;
use crate::name_map::NameMap;
use crate::text_range::TextRange;
use vstd::prelude::*;

verus! {

/// What kind of thing a module defines under a name.
#[derive(Debug, PartialEq, Eq, Structural, Copy, Clone)]
pub enum ExportType {
    Class,
    Function,
    Global,
}

impl DeepView for ExportType {
    type V = ExportType;

    open spec fn deep_view(&self) -> ExportType {
        *self
    }
}

/// Something that a module defines.
#[derive(Debug, PartialEq, Eq, Structural, Copy, Clone)]
pub struct Export {
    pub typ: ExportType,
}

impl DeepView for Export {
    type V = ExportType;

    open spec fn deep_view(&self) -> ExportType {
        self.typ
    }
}

impl crate::name_map::Duplicate for Export {
    fn make_copy(&self) -> (res: Export) {
        *self
    }
}

/// Where a chain of mappings stands after some steps, if it goes on that long.
pub open spec fn chain_after<A>(map: Map<A, A>, start: A, steps: nat) -> Option<A>
    decreases steps,
{
    if steps == 0 {
        Some(start)
    } else {
        match chain_after(map, start, (steps - 1) as nat) {
            Some(a) => if map.contains_key(a) {
                Some(map[a])
            } else {
                None
            },
            None => None,
        }
    }
}

/// A chain of mappings ends at something that is mapped to nothing.
pub open spec fn chain_ends_at<A>(map: Map<A, A>, start: A, end: A) -> bool {
    !map.contains_key(end) && exists|steps: nat| #[trigger] chain_after(map, start, steps) == Some(end)
}

/// A chain of mappings goes on for ever.
pub open spec fn chain_is_endless<A>(map: Map<A, A>, start: A) -> bool {
    forall|steps: nat| #[trigger] chain_after(map, start, steps) is Some
}

/// A chain that comes back to where it has been never ends.
pub proof fn chain_that_returns_is_endless<A>(map: Map<A, A>, start: A, i: nat, j: nat)
    requires
        i < j,
        chain_after(map, start, j) is Some,
        chain_after(map, start, i) == chain_after(map, start, j),
    ensures
        chain_is_endless(map, start),
{
    assert forall|n: nat| #[trigger] chain_after(map, start, n) is Some by {
        lemma_goes_round(map, start, i, j, n);
    }
}

proof fn lemma_goes_round<A>(map: Map<A, A>, start: A, i: nat, j: nat, n: nat)
    requires
        i < j,
        chain_after(map, start, j) is Some,
        chain_after(map, start, i) == chain_after(map, start, j),
    ensures
        chain_after(map, start, n) is Some,
        n >= j ==> chain_after(map, start, n) == chain_after(map, start, (n - (j - i)) as nat),
    decreases n,
{
    if n < j {
        lemma_earlier(map, start, n, j);
    } else if n > j {
        lemma_goes_round(map, start, i, j, (n - 1) as nat);
        lemma_goes_round(map, start, i, j, (n - (j - i)) as nat);
    }
}

proof fn lemma_earlier<A>(map: Map<A, A>, start: A, n: nat, m: nat)
    requires
        n <= m,
        chain_after(map, start, m) is Some,
    ensures
        chain_after(map, start, n) is Some,
        n < m ==> map.contains_key(chain_after(map, start, n)->0),
    decreases m - n,
{
    if n < m {
        lemma_earlier(map, start, n + 1, m);
    }
}

/// A chain has one end at most, and none where it is endless.
pub proof fn chain_end_is_unique<A>(map: Map<A, A>, start: A, a: A, b: A)
    requires
        chain_ends_at(map, start, a),
    ensures
        chain_ends_at(map, start, b) ==> a == b,
        !chain_is_endless(map, start),
{
    let n = choose|steps: nat| #[trigger] chain_after(map, start, steps) == Some(a);
    assert(chain_after(map, start, n + 1) is None);
    if chain_ends_at(map, start, b) {
        let m = choose|steps: nat| #[trigger] chain_after(map, start, steps) == Some(b);
        if n < m {
            lemma_earlier(map, start, n, m);
        } else if m < n {
            lemma_earlier(map, start, m, n);
        }
    }
}

/// What each re-exported attribute is imported from.
pub open spec fn sources(re_exports: Map<(Seq<char>, Seq<char>), (Attribute, TextRange)>) -> Map<
    (Seq<char>, Seq<char>),
    (Seq<char>, Seq<char>),
> {
    re_exports.map_values(|v: (Attribute, TextRange)| v.0@)
}

/// Follows a chain of re-exports to its end. A chain that goes round has none.
pub fn resolve_chain(start: &Attribute, re_exports: &AttrMap<(Attribute, TextRange)>) -> (res: Option<
    Attribute,
>)
    ensures
        match res {
            Some(end) => chain_ends_at(sources(re_exports@), start@, end@),
            None => chain_is_endless(sources(re_exports@), start@),
        },
{
    let ghost map = sources(re_exports@);
    let mut current = start.clone();
    let mut seen: AttrMap<()> = AttrMap::new();
    let ghost mut steps: nat = 0;
    proof {
        lemma_attributes_finite(re_exports);
        assert(map.dom() =~= re_exports@.dom());
    }
    loop
        invariant
            map == sources(re_exports@),
            map.dom().finite(),
            chain_after(map, start@, steps) == Some(current@),
            seen@.dom().subset_of(map.dom()),
            forall|a: (Seq<char>, Seq<char>)| #[trigger]
                seen@.contains_key(a) <==> exists|i: nat|
                    i < steps && #[trigger] chain_after(map, start@, i) == Some(a),
        decreases
            2 * (map.dom().len() - seen@.dom().len()) + (if seen@.contains_key(current@) {
                0int
            } else {
                1int
            }),
    {
        let next: Attribute = match re_exports.get(&current) {
            None => {
                return Some(current);
            },
            Some(target) => target.0.clone(),
        };
        proof {
            assert(chain_after(map, start@, steps + 1) == Some(next@));
        }
        if seen.contains_key(&next) {
            proof {
                let i = choose|i: nat| i < steps && #[trigger] chain_after(map, start@, i) == Some(next@);
                chain_that_returns_is_endless(map, start@, i, steps + 1);
            }
            return None;
        }
        let ghost before = seen@;
        let ghost visited = current@;
        proof {
            if before.contains_key(visited) {
                let i = choose|i: nat| i < steps && #[trigger] chain_after(map, start@, i) == Some(visited);
                assert(chain_after(map, start@, i + 1) == Some(next@));
                if i + 1 == steps {
                    assert(visited == next@);
                }
                assert(before.contains_key(next@));
            }
        }
        seen.insert(current, ());
        current = next;
        proof {
            assert(seen@.dom() =~= before.dom().insert(visited));
            vstd::set_lib::lemma_len_subset(seen@.dom(), map.dom());
            vstd::set_lib::lemma_len_subset(before.dom(), map.dom());
            assert forall|a: (Seq<char>, Seq<char>)| #[trigger]
                seen@.contains_key(a) <==> exists|i: nat|
                    i < steps + 1 && #[trigger] chain_after(map, start@, i) == Some(a) by {
                if seen@.contains_key(a) {
                    if a == visited {
                        assert(chain_after(map, start@, steps) == Some(a));
                    } else {
                        let i = choose|i: nat| i < steps && #[trigger] chain_after(map, start@, i) == Some(a);
                        assert(i < steps + 1);
                    }
                }
            }
            steps = steps + 1;
        }
    }
}

/// What a set of modules defines and re-exports.
pub struct Exports {
    /// What is defined, by its full name.
    exports: NameMap<Export>,
    /// What each re-exported attribute is imported from, and where.
    re_exports: AttrMap<(Attribute, TextRange)>,
    /// The contents of each module's `__all__`.
    all: NameMap<Vec<String>>,
    /// The classes that functions return, by the functions' full names.
    return_types: NameMap<ModuleName>,
}

/// What an [`Exports`] is.
pub struct ExportsView {
    pub exports: Map<Seq<char>, ExportType>,
    pub re_exports: Map<(Seq<char>, Seq<char>), ((Seq<char>, Seq<char>), TextRange)>,
    pub all: Map<Seq<char>, Seq<Seq<char>>>,
    pub return_types: Map<Seq<char>, Seq<char>>,
}

impl ExportsView {
    /// What each re-exported attribute is imported from.
    pub open spec fn sources(self) -> Map<(Seq<char>, Seq<char>), (Seq<char>, Seq<char>)> {
        self.re_exports.map_values(|v: ((Seq<char>, Seq<char>), TextRange)| v.0)
    }

    /// Nothing is defined or re-exported.
    pub open spec fn none() -> ExportsView {
        ExportsView {
            exports: Map::empty(),
            re_exports: Map::empty(),
            all: Map::empty(),
            return_types: Map::empty(),
        }
    }

    /// What two sets of modules define and re-export. The second one counts where both speak of
    /// the same name.
    pub open spec fn merged(self, other: ExportsView) -> ExportsView {
        ExportsView {
            exports: self.exports.union_prefer_right(other.exports),
            re_exports: self.re_exports.union_prefer_right(other.re_exports),
            all: self.all.union_prefer_right(other.all),
            return_types: self.return_types.union_prefer_right(other.return_types),
        }
    }

    /// What is left when what is imported from one of the given modules by the name of a module
    /// among them is not re-exported.
    pub open spec fn without_modules(self, modules: Set<Seq<char>>) -> ExportsView {
        ExportsView {
            re_exports: Map::new(
                |a: (Seq<char>, Seq<char>)|
                    self.re_exports.contains_key(a) && !modules.contains(full_name(self.re_exports[a].0)),
                |a: (Seq<char>, Seq<char>)| self.re_exports[a],
            ),
            ..self
        }
    }

    /// A name is that of a class, or of a re-export that leads to one.
    pub open spec fn is_class(self, name: Seq<char>) -> bool {
        self.defines(name, ExportType::Class) || exists|end: (Seq<char>, Seq<char>)| #[trigger]
            chain_ends_at(self.sources(), attribute_named(name), end) && self.defines(
                full_name(end),
                ExportType::Class,
            )
    }

    /// What a chain of re-exports ends at, where it ends.
    pub open spec fn end_of(self, a: (Seq<char>, Seq<char>)) -> Option<(Seq<char>, Seq<char>)> {
        if exists|end: (Seq<char>, Seq<char>)| #[trigger] chain_ends_at(self.sources(), a, end) {
            Some(choose|end: (Seq<char>, Seq<char>)| #[trigger] chain_ends_at(self.sources(), a, end))
        } else {
            None
        }
    }

    /// A name is that of a definition of the given kind.
    pub open spec fn defines(self, name: Seq<char>, typ: ExportType) -> bool {
        self.exports.contains_key(name) && self.exports[name] == typ
    }
}

/// What an optional attribute is.
pub open spec fn optional_attribute(a: Option<Attribute>) -> Option<(Seq<char>, Seq<char>)> {
    match a {
        Some(attr) => Some(attr@),
        None => None,
    }
}

/// A re-export as mathematics.
pub open spec fn re_export_view(v: (Attribute, TextRange)) -> ((Seq<char>, Seq<char>), TextRange) {
    (v.0@, v.1)
}

impl DeepView for Exports {
    type V = ExportsView;

    closed spec fn deep_view(&self) -> ExportsView {
        ExportsView {
            exports: self.exports@.map_values(|e: Export| e.typ),
            re_exports: self.re_exports@.map_values(|v: (Attribute, TextRange)| re_export_view(v)),
            all: self.all.deep_view(),
            return_types: self.return_types.deep_view(),
        }
    }
}

impl Exports {
    #[verifier::type_invariant]
    closed spec fn bounded(&self) -> bool {
        self.re_exports@.dom().finite()
    }

    proof fn lemma_sources(&self)
        ensures
            sources(self.re_exports@) == self.deep_view().sources(),
    {
        assert(sources(self.re_exports@) =~= self.deep_view().sources());
    }

    pub fn empty() -> (res: Exports)
        ensures
            res.deep_view() == ExportsView::none(),
    {
        let res = Exports {
            exports: NameMap::new(),
            re_exports: AttrMap::new(),
            all: NameMap::new(),
            return_types: NameMap::new(),
        };
        proof {
            assert(res.deep_view().exports =~= Map::empty());
            assert(res.deep_view().re_exports =~= Map::empty());
            assert(res.deep_view().all =~= Map::empty());
            assert(res.deep_view().return_types =~= Map::empty());
        }
        res
    }

    /// Follows a chain of re-exports to the definition at its end. A chain that goes round has
    /// none.
    pub fn resolve_transitive(&self, name: &Attribute) -> (res: Option<Attribute>)
        ensures
            match res {
                Some(end) => chain_ends_at(self.deep_view().sources(), name@, end@),
                None => chain_is_endless(self.deep_view().sources(), name@),
            },
            optional_attribute(res) == self.deep_view().end_of(name@),
    {
        proof {
            use_type_invariant(self);
            self.lemma_sources();
        }
        let res = resolve_chain(name, &self.re_exports);
        proof {
            let map = self.deep_view().sources();
            assert forall|other: (Seq<char>, Seq<char>)| #[trigger]
                chain_ends_at(map, name@, other) implies optional_attribute(res) == Some(other) by {
                match res {
                    Some(end) => {
                        chain_end_is_unique(map, name@, end@, other);
                    },
                    None => {
                        chain_end_is_unique(map, name@, other, other);
                    },
                }
            }
        }
        res
    }

    fn defines(&self, name: &ModuleName, typ: ExportType) -> (res: bool)
        ensures
            res == self.deep_view().defines(name@, typ),
    {
        match self.exports.get(name) {
            Some(export) => export.typ == typ,
            None => false,
        }
    }

    /// Whether a name is that of a class, or of a re-export that leads to one.
    pub fn is_class(&self, name: &ModuleName) -> (res: bool)
        ensures
            res == self.deep_view().is_class(name@),
    {
        if self.defines(name, ExportType::Class) {
            return true;
        }
        let attr = Attribute::from_module_name(name);
        match self.resolve_transitive(&attr) {
            Some(end) => {
                let found = self.defines(&end.as_module_name(), ExportType::Class);
                proof {
                    let map = self.deep_view().sources();
                    assert forall|other: (Seq<char>, Seq<char>)| #[trigger]
                        chain_ends_at(map, attr@, other) implies other == end@ by {
                        chain_end_is_unique(map, attr@, end@, other);
                    }
                }
                found
            },
            None => {
                proof {
                    let map = self.deep_view().sources();
                    assert forall|other: (Seq<char>, Seq<char>)| !#[trigger] chain_ends_at(map, attr@, other) by {
                        if chain_ends_at(map, attr@, other) {
                            chain_end_is_unique(map, attr@, other, other);
                        }
                    }
                }
                false
            },
        }
    }

    /// Whether a name is that of a global variable.
    pub fn is_global(&self, name: &ModuleName) -> (res: bool)
        ensures
            res == self.deep_view().defines(name@, ExportType::Global),
    {
        self.defines(name, ExportType::Global)
    }

    /// Whether a name is that of a function.
    pub fn is_function(&self, name: &ModuleName) -> (res: bool)
        ensures
            res == self.deep_view().defines(name@, ExportType::Function),
    {
        self.defines(name, ExportType::Function)
    }

    /// The class that a function returns, where that is known.
    pub fn get_return_type(&self, func_name: &ModuleName) -> (res: Option<ModuleName>)
        ensures
            match res {
                Some(typ) => self.deep_view().return_types.contains_key(func_name@)
                    && self.deep_view().return_types[func_name@] == typ@,
                None => !self.deep_view().return_types.contains_key(func_name@),
            },
    {
        match self.return_types.get(func_name) {
            Some(typ) => Some(typ.clone()),
            None => None,
        }
    }

    /// What is defined, by its full name.
    pub fn get_exports(&self) -> (res: &NameMap<Export>)
        ensures
            res.deep_view() == self.deep_view().exports,
            res.ordered(),
    {
        let n: usize = self.exports.len();
        proof {
            assert(self.exports.deep_view() =~= self.deep_view().exports);
        }
        &self.exports
    }

    /// What each re-exported attribute is imported from, and where.
    pub fn get_re_exports(&self) -> (res: &AttrMap<(Attribute, TextRange)>)
        ensures
            res@.map_values(|v: (Attribute, TextRange)| re_export_view(v)) == self.deep_view().re_exports,
            res@.dom().finite(),
            sources(res@) == self.deep_view().sources(),
    {
        proof {
            use_type_invariant(self);
            self.lemma_sources();
        }
        &self.re_exports
    }

    /// What an attribute is imported from, and where, if it is a re-export.
    pub fn get_re_export(&self, name: &Attribute) -> (res: Option<&(Attribute, TextRange)>)
        ensures
            match res {
                Some(v) => self.deep_view().re_exports.contains_key(name@)
                    && self.deep_view().re_exports[name@] == re_export_view(*v),
                None => !self.deep_view().re_exports.contains_key(name@),
            },
    {
        self.re_exports.get(name)
    }

    /// Whether an attribute is a re-export.
    pub fn is_re_export(&self, name: &Attribute) -> (res: bool)
        ensures
            res == self.deep_view().re_exports.contains_key(name@),
    {
        self.re_exports.contains_key(name)
    }

    /// What an attribute is imported from, if it is a re-export.
    pub fn resolve_imported_name(&self, name: &Attribute) -> (res: Option<Attribute>)
        ensures
            match res {
                Some(a) => self.deep_view().sources().contains_key(name@)
                    && self.deep_view().sources()[name@] == a@,
                None => !self.deep_view().sources().contains_key(name@),
            },
    {
        match self.re_exports.get(name) {
            Some(v) => Some(v.0.clone()),
            None => None,
        }
    }

    /// The contents of a module's `__all__`, where it has one.
    pub fn get_all(&self, module: &ModuleName) -> (res: Option<&Vec<String>>)
        ensures
            match res {
                Some(names) => self.deep_view().all.contains_key(module@)
                    && self.deep_view().all[module@] == names.deep_view(),
                None => !self.deep_view().all.contains_key(module@),
            },
    {
        self.all.get(module)
    }

    /// The contents of each module's `__all__`.
    pub fn iter_all(&self) -> (res: &NameMap<Vec<String>>)
        ensures
            res.deep_view() == self.deep_view().all,
            res.ordered(),
    {
        let n: usize = self.all.len();
        &self.all
    }

    /// The classes that functions return, by the functions' full names.
    pub fn iter_return_types(&self) -> (res: &NameMap<ModuleName>)
        ensures
            res.deep_view() == self.deep_view().return_types,
            res.ordered(),
    {
        let n: usize = self.return_types.len();
        &self.return_types
    }

    /// Adds all that another set of modules defines and re-exports.
    pub fn merge(&mut self, other: Exports)
        ensures
            final(self).deep_view() == old(self).deep_view().merged(other.deep_view()),
    {
        let mut whole = Exports::empty();
        std::mem::swap(self, &mut whole);
        proof {
            use_type_invariant(&whole);
            use_type_invariant(&other);
        }
        let Exports { mut exports, mut re_exports, mut all, mut return_types } = whole;
        let Exports { exports: e, re_exports: r, all: a, return_types: t } = other;
        exports.extend(e);
        re_exports.extend(r);
        all.extend(a);
        return_types.extend(t);
        proof {
            assert(re_exports@.dom() =~= old(self).re_exports@.dom().union(other.re_exports@.dom()));
        }
        *self = Exports { exports, re_exports, all, return_types };
        proof {
            let merged = old(self).deep_view().merged(other.deep_view());
            assert(self.deep_view().exports =~= merged.exports);
            assert(self.deep_view().re_exports =~= merged.re_exports);
            assert(self.deep_view().all =~= merged.all);
            assert(self.deep_view().return_types =~= merged.return_types);
        }
    }

    /// What several sets of modules define and re-export. Where they speak of the same name, the
    /// last one counts.
    pub fn merge_all(all_exports: Vec<Exports>) -> (res: Exports)
        ensures
            res.deep_view() == merged_exports(all_exports.deep_view()),
    {
        let mut res = Exports::empty();
        let ghost views = all_exports.deep_view();
        proof {
            assert(views.take(0) =~= Seq::empty());
        }
        let ghost parts = all_exports@;
        for part in it: all_exports
            invariant
                it.seq() == parts,
                views.len() == parts.len(),
                views == parts.map_values(|e: Exports| e.deep_view()),
                res.deep_view() == merged_exports(views.take(it.index() as int)),
        {
            let ghost i = it.index() as int;
            proof {
                assert(views.take(i + 1).drop_last() =~= views.take(i));
                assert(views.take(i + 1).last() == part.deep_view());
            }
            res.merge(part);
        }
        proof {
            assert(views.take(views.len() as int) =~= views);
        }
        res
    }

    /// Adds a definition.
    pub fn add_export(&mut self, name: ModuleName, typ: ExportType)
        ensures
            final(self).deep_view() == (ExportsView {
                exports: old(self).deep_view().exports.insert(name@, typ),
                ..old(self).deep_view()
            }),
    {
        let mut whole = Exports::empty();
        std::mem::swap(self, &mut whole);
        proof {
            use_type_invariant(&whole);
        }
        let Exports { mut exports, re_exports, all, return_types } = whole;
        let _ = exports.insert(name, Export { typ });
        *self = Exports { exports, re_exports, all, return_types };
        proof {
            assert(self.deep_view().exports =~= old(self).deep_view().exports.insert(name@, typ));
        }
    }

    /// Adds a re-export.
    pub fn add_re_export(&mut self, exported: Attribute, imported: Attribute, range: TextRange)
        ensures
            final(self).deep_view() == (ExportsView {
                re_exports: old(self).deep_view().re_exports.insert(exported@, (imported@, range)),
                ..old(self).deep_view()
            }),
    {
        let mut whole = Exports::empty();
        std::mem::swap(self, &mut whole);
        proof {
            use_type_invariant(&whole);
        }
        let Exports { exports, mut re_exports, all, return_types } = whole;
        let ghost key = exported@;
        re_exports.insert(exported, (imported, range));
        proof {
            assert(re_exports@.dom() =~= old(self).re_exports@.dom().insert(key));
        }
        *self = Exports { exports, re_exports, all, return_types };
        proof {
            assert(self.deep_view().re_exports =~= old(self).deep_view().re_exports.insert(
                exported@,
                (imported@, range),
            ));
        }
    }

    /// Adds a re-export at no particular place.
    pub fn insert_re_export(&mut self, exported: Attribute, imported: Attribute)
        ensures
            final(self).deep_view() == (ExportsView {
                re_exports: old(self).deep_view().re_exports.insert(
                    exported@,
                    (imported@, (TextRange { start: 0, end: 0 })),
                ),
                ..old(self).deep_view()
            }),
    {
        self.add_re_export(exported, imported, TextRange::default());
    }

    /// Sets the contents of a module's `__all__`.
    pub fn set_all(&mut self, module: ModuleName, names: Vec<String>)
        ensures
            final(self).deep_view() == (ExportsView {
                all: old(self).deep_view().all.insert(module@, names.deep_view()),
                ..old(self).deep_view()
            }),
    {
        let mut whole = Exports::empty();
        std::mem::swap(self, &mut whole);
        proof {
            use_type_invariant(&whole);
        }
        let Exports { exports, re_exports, mut all, return_types } = whole;
        let _ = all.insert(module, names);
        *self = Exports { exports, re_exports, all, return_types };
        proof {
            assert(self.deep_view().all =~= old(self).deep_view().all.insert(module@, names.deep_view()));
        }
    }

    /// Sets the class that a function returns.
    pub fn set_return_type(&mut self, function: ModuleName, typ: ModuleName)
        ensures
            final(self).deep_view() == (ExportsView {
                return_types: old(self).deep_view().return_types.insert(function@, typ@),
                ..old(self).deep_view()
            }),
    {
        let mut whole = Exports::empty();
        std::mem::swap(self, &mut whole);
        proof {
            use_type_invariant(&whole);
        }
        let Exports { exports, re_exports, all, mut return_types } = whole;
        let _ = return_types.insert(function, typ);
        *self = Exports { exports, re_exports, all, return_types };
        proof {
            assert(self.deep_view().return_types =~= old(self).deep_view().return_types.insert(
                function@,
                typ@,
            ));
        }
    }
}

impl Exports {
    /// Takes out the re-exports that are modules of a graph.
    pub fn filter_module_re_exports(&mut self, import_graph: &ImportGraph)
        ensures
            final(self).deep_view() == old(self).deep_view().without_modules(
                import_graph.graph.node_set(),
            ),
    {
        let mut whole = Exports::empty();
        std::mem::swap(self, &mut whole);
        proof {
            use_type_invariant(&whole);
        }
        let Exports { exports, re_exports, all, return_types } = whole;
        let list = re_exports.attributes();
        let ghost attrs = attributes_of(list@);
        let ghost before = re_exports@;
        let ghost modules = import_graph.graph.node_set();
        let ghost keeps = |a: (Seq<char>, Seq<char>)|
            before.contains_key(a) && !modules.contains(full_name(before[a].0@));
        let mut kept: AttrMap<(Attribute, TextRange)> = AttrMap::new();
        for i in 0..list.len()
            invariant
                attrs == attributes_of(list@),
                attrs.to_set() == before.dom(),
                before == re_exports@,
                modules == import_graph.graph.node_set(),
                keeps == (|a: (Seq<char>, Seq<char>)|
                    before.contains_key(a) && !modules.contains(full_name(before[a].0@))),
                forall|a: (Seq<char>, Seq<char>)| #[trigger]
                    kept@.contains_key(a) <==> attrs.take(i as int).to_set().contains(a) && keeps(a),
                forall|a: (Seq<char>, Seq<char>)| #[trigger]
                    kept@.contains_key(a) ==> re_export_view(kept@[a]) == re_export_view(before[a]),
        {
            let ghost so_far = kept@;
            let ghost here = attrs[i as int];
            proof {
                crate::name_set::lemma_take_more(attrs, i as int);
                assert(attrs.to_set().contains(here)) by {
                    assert(attrs.contains(here));
                }
            }
            if let Some(entry) = re_exports.get(&list[i]) {
                if !import_graph.contains(&entry.0.as_module_name()) {
                    kept.insert(list[i].clone(), (entry.0.clone(), entry.1));
                }
            }
            proof {
                assert forall|a: (Seq<char>, Seq<char>)| #[trigger]
                    kept@.contains_key(a) <==> attrs.take(i + 1).to_set().contains(a) && keeps(a) by {
                    assert(so_far.contains_key(a) <==> attrs.take(i as int).to_set().contains(a)
                        && keeps(a));
                }
                assert forall|a: (Seq<char>, Seq<char>)| #[trigger]
                    kept@.contains_key(a) implies re_export_view(kept@[a]) == re_export_view(before[a]) by {
                    if a != here {
                        assert(so_far.contains_key(a));
                    }
                }
            }
        }
        proof {
            assert(attrs.take(attrs.len() as int) =~= attrs);
            assert(kept@.dom().subset_of(before.dom()));
            vstd::set_lib::lemma_len_subset(kept@.dom(), before.dom());
        }
        *self = Exports { exports, re_exports: kept, all, return_types };
        proof {
            assert(self.deep_view().re_exports =~= old(self).deep_view().without_modules(modules).re_exports);
        }
    }
}

/// Several sets of modules as one, where the last one that speaks of a name counts.
pub open spec fn merged_exports(parts: Seq<ExportsView>) -> ExportsView
    decreases parts.len(),
{
    if parts.len() == 0 {
        ExportsView::none()
    } else {
        merged_exports(parts.drop_last()).merged(parts.last())
    }
}

} // verus!
