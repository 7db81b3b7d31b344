//! What a cache keeps of what modules define and re-export.

use crate::attribute::{attributes_of, AttrMap, Attribute};
use crate::exports::{sources, ExportType, Exports};
use crate::module_name::{sort_names, text_less, text_order_is_total, texts, ModuleName};
use crate::name_map::{
    ascending, entry_views, first_listed, into_sorted, lemma_no_duplicates_by_multiset, names_of,
    sort_keep_first, sorted_copies, sorted_listing,
};
use crate::spread::{CachedReExport, ReExportView};
use vstd::prelude::*;

verus! {

/// What a cache keeps of what modules define and re-export.
pub struct CachedExports {
    pub definitions: Vec<(ModuleName, ExportType)>,
    pub re_exports: Vec<CachedReExport>,
    pub all: Vec<(ModuleName, Vec<String>)>,
    pub return_types: Vec<(ModuleName, ModuleName)>,
}

/// What a [`CachedExports`] is.
pub struct CachedExportsView {
    pub definitions: Seq<(Seq<char>, ExportType)>,
    pub re_exports: Seq<ReExportView>,
    pub all: Seq<(Seq<char>, Seq<Seq<char>>)>,
    pub return_types: Seq<(Seq<char>, Seq<char>)>,
}

impl DeepView for CachedExports {
    type V = CachedExportsView;

    open spec fn deep_view(&self) -> CachedExportsView {
        CachedExportsView {
            definitions: entry_views(self.definitions@),
            re_exports: self.re_exports.deep_view(),
            all: entry_views(self.all@),
            return_types: entry_views(self.return_types@),
        }
    }
}

/// Attributes are ordered by module, then by name.
pub open spec fn attribute_less(a: (Seq<char>, Seq<char>), b: (Seq<char>, Seq<char>)) -> bool {
    text_less(a.0, b.0) || (a.0 == b.0 && text_less(a.1, b.1))
}

/// What the first re-export of each attribute imports it from.
pub open spec fn first_sources(re_exports: Seq<ReExportView>) -> Map<
    (Seq<char>, Seq<char>),
    (Seq<char>, Seq<char>),
>
    decreases re_exports.len(),
{
    if re_exports.len() == 0 {
        Map::empty()
    } else {
        let earlier = first_sources(re_exports.drop_last());
        if earlier.contains_key(re_exports.last().exported) {
            earlier
        } else {
            earlier.insert(re_exports.last().exported, re_exports.last().imported)
        }
    }
}

/// A listing of re-exports, each of them once.
pub open spec fn holds_sources(
    re_exports: Seq<ReExportView>,
    map: Map<(Seq<char>, Seq<char>), (Seq<char>, Seq<char>)>,
) -> bool {
    &&& exported_attributes(re_exports).no_duplicates()
    &&& forall|i: int|
        0 <= i < re_exports.len() ==> map.contains_key((#[trigger] re_exports[i]).exported)
            && map[re_exports[i].exported] == re_exports[i].imported
    &&& forall|a: (Seq<char>, Seq<char>)| #[trigger]
        map.contains_key(a) ==> exported_attributes(re_exports).contains(a)
}

/// A listing of re-exports, in the strict order of the attributes.
pub open spec fn lists_sources(
    re_exports: Seq<ReExportView>,
    map: Map<(Seq<char>, Seq<char>), (Seq<char>, Seq<char>)>,
) -> bool {
    &&& forall|i: int, j: int|
        0 <= i < j < re_exports.len() ==> attribute_less(
            (#[trigger] re_exports[i]).exported,
            (#[trigger] re_exports[j]).exported,
        )
    &&& forall|i: int|
        0 <= i < re_exports.len() ==> map.contains_key((#[trigger] re_exports[i]).exported)
            && map[re_exports[i].exported] == re_exports[i].imported
    &&& forall|a: (Seq<char>, Seq<char>)| #[trigger]
        map.contains_key(a) ==> exported_attributes(re_exports).contains(a)
}

/// The attributes that are re-exported.
pub open spec fn exported_attributes(re_exports: Seq<ReExportView>) -> Seq<(Seq<char>, Seq<char>)> {
    re_exports.map_values(|r: ReExportView| r.exported)
}

impl CachedExportsView {
    /// Everything sorted, where only the first entry of each name is kept.
    pub open spec fn is_tidied(self, before: CachedExportsView) -> bool {
        &&& sorted_listing(self.definitions, first_listed(before.definitions))
        &&& lists_sources(self.re_exports, first_sources(before.re_exports))
        &&& sorted_listing(self.all, first_listed(before.all))
        &&& sorted_listing(self.return_types, first_listed(before.return_types))
    }

    /// The entries of two caches, one behind the other.
    pub open spec fn joined(self, other: CachedExportsView) -> CachedExportsView {
        CachedExportsView {
            definitions: self.definitions + other.definitions,
            re_exports: self.re_exports + other.re_exports,
            all: self.all + other.all,
            return_types: self.return_types + other.return_types,
        }
    }
}

/// A map from attributes to what they are imported from.
spec fn attribute_views(map: Map<(Seq<char>, Seq<char>), Attribute>) -> Map<
    (Seq<char>, Seq<char>),
    (Seq<char>, Seq<char>),
> {
    map.map_values(|a: Attribute| a@)
}

/// The re-exports of a map, in the order of the attributes.
fn sorted_sources(map: AttrMap<Attribute>) -> (res: Vec<CachedReExport>)
    ensures
        lists_sources(res.deep_view(), attribute_views(map@)),
{
    let ghost all = map@;
    let mut rest = map;
    let mut res: Vec<CachedReExport> = Vec::new();
    let names = sort_names(&rest.module_list());
    let ghost sorted = texts(names@);
    proof {
        let keys = rest.modules().keys();
        keys.to_multiset_ensures();
        sorted.to_multiset_ensures();
        lemma_no_duplicates_by_multiset(keys, sorted);
        assert forall|a: (Seq<char>, Seq<char>)| all.contains_key(a) implies sorted.contains(a.0) by {
            assert(rest.modules()@.contains_key(a.0));
            assert(keys.contains(a.0));
            assert(keys.to_multiset().count(a.0) > 0);
            assert(sorted.to_multiset().count(a.0) > 0);
        }
        assert forall|i: int, j: int| 0 <= i < j < sorted.len() implies text_less(
            #[trigger] sorted[i],
            #[trigger] sorted[j],
        ) by {
            text_order_is_total(sorted[i], sorted[j]);
        }
    }
    for i in 0..names.len()
        invariant
            sorted == texts(names@),
            sorted.no_duplicates(),
            forall|k: int, l: int|
                0 <= k < l < sorted.len() ==> text_less(#[trigger] sorted[k], #[trigger] sorted[l]),
            rest@ == without_modules(all, sorted.take(i as int)),
            lists_some(res.deep_view(), all, sorted.take(i as int)),
    {
        let name = names[i].clone();
        let ghost module = name@;
        let ghost before = res.deep_view();
        let ghost done = sorted.take(i as int);
        proof {
            assert(sorted[i as int] == module);
            assert(!done.contains(module)) by {
                if done.contains(module) {
                    let j = done.index_of(module);
                    assert(sorted[j] == module);
                }
            }
            crate::name_set::lemma_take_more(sorted, i as int);
            assert forall|m: Seq<char>| #[trigger] sorted.take(i + 1).contains(m) <==> done.contains(m) || m
                == module by {
                assert(sorted.take(i + 1).to_set().contains(m) <==> done.to_set().contains(m) || m
                    == module);
            }
            assert forall|j: int| 0 <= j < before.len() implies text_less(
                (#[trigger] before[j]).exported.0,
                module,
            ) by {
                let k = done.index_of(before[j].exported.0);
                assert(sorted[k] == before[j].exported.0);
                assert(text_less(sorted[k], sorted[i as int]));
            }
        }
        let ghost left = rest@;
        if let Some(attrs) = rest.take_module(&name) {
            let ghost part = attrs@;
            let entries = into_sorted(attrs);
            let ghost listed = entries@;
            for entry in it: entries
                invariant
                    it.seq() == listed,
                    ascending(listed, part),
                    forall|j: int| 0 <= j < before.len() ==> text_less((#[trigger] before[j]).exported.0, module),
                    module == name@,
                    res.deep_view() == before + module_listing(module, listed.take(it.index() as int)),
            {
                let ghost k = it.index() as int;
                let ghost so_far = res.deep_view();
                let (attr, target) = entry;
                res.push(
                    CachedReExport {
                        exported_module: name.clone(),
                        exported_attr: attr.as_string().clone(),
                        imported_module: target.module,
                        imported_attr: target.attr,
                    },
                );
                proof {
                    let one = ReExportView { exported: (module, attr@), imported: target@ };
                    assert(res.deep_view() =~= so_far.push(one));
                    assert(listed[k] == entry);
                    assert(module_listing(module, listed.take(k + 1)) =~= module_listing(
                        module,
                        listed.take(k),
                    ).push(one));
                    assert(res.deep_view() =~= before + module_listing(module, listed.take(k + 1)));
                }
            }
            proof {
                assert(listed.take(listed.len() as int) =~= listed);
                assert forall|a: Seq<char>| #[trigger] part.contains_key(a) <==> all.contains_key((module, a)) by {}
                lemma_lists_more(before, all, done, sorted.take(i + 1), module, listed, part);
            }
        } else {
            proof {
                assert forall|a: (Seq<char>, Seq<char>)| #[trigger] all.contains_key(a) implies a.0 != module by {
                    if a.0 == module {
                        assert(left.contains_key(a));
                        assert(crate::attribute::module_part(left, module).contains_key(a.1));
                    }
                }
            }
        }
        proof {
            assert(rest@ =~= without_modules(all, sorted.take(i + 1)));
        }
    }
    proof {
        assert(sorted.take(sorted.len() as int) =~= sorted);
    }
    res
}

/// The entries of a map that speak of none of the modules.
spec fn without_modules<V>(map: Map<(Seq<char>, Seq<char>), V>, modules: Seq<Seq<char>>) -> Map<
    (Seq<char>, Seq<char>),
    V,
> {
    Map::new(
        |a: (Seq<char>, Seq<char>)| map.contains_key(a) && !modules.contains(a.0),
        |a: (Seq<char>, Seq<char>)| map[a],
    )
}

/// A listing of the re-exports of some modules, in the strict order of the attributes.
spec fn lists_some(
    re_exports: Seq<ReExportView>,
    map: Map<(Seq<char>, Seq<char>), Attribute>,
    modules: Seq<Seq<char>>,
) -> bool {
    &&& forall|i: int, j: int|
        0 <= i < j < re_exports.len() ==> attribute_less(
            (#[trigger] re_exports[i]).exported,
            (#[trigger] re_exports[j]).exported,
        )
    &&& forall|i: int|
        0 <= i < re_exports.len() ==> modules.contains((#[trigger] re_exports[i]).exported.0)
            && map.contains_key(re_exports[i].exported) && map[re_exports[i].exported]@
            == re_exports[i].imported
    &&& forall|a: (Seq<char>, Seq<char>)| #[trigger]
        map.contains_key(a) && modules.contains(a.0) ==> exported_attributes(re_exports).contains(a)
}

/// The re-exports of one module.
spec fn module_listing(module: Seq<char>, entries: Seq<(ModuleName, Attribute)>) -> Seq<ReExportView> {
    entries.map_values(
        |e: (ModuleName, Attribute)| ReExportView { exported: (module, e.0@), imported: e.1@ },
    )
}

proof fn lemma_lists_more(
    before: Seq<ReExportView>,
    map: Map<(Seq<char>, Seq<char>), Attribute>,
    done: Seq<Seq<char>>,
    more: Seq<Seq<char>>,
    module: Seq<char>,
    entries: Seq<(ModuleName, Attribute)>,
    part: Map<Seq<char>, Attribute>,
)
    requires
        lists_some(before, map, done),
        ascending(entries, part),
        forall|m: Seq<char>| #[trigger] more.contains(m) <==> done.contains(m) || m == module,
        forall|j: int| 0 <= j < before.len() ==> text_less((#[trigger] before[j]).exported.0, module),
        forall|a: Seq<char>| #[trigger] part.contains_key(a) <==> map.contains_key((module, a)),
        forall|a: Seq<char>| #[trigger] part.contains_key(a) ==> part[a] == map[(module, a)],
    ensures
        lists_some(before + module_listing(module, entries), map, more),
{
    let new = module_listing(module, entries);
    let all = before + new;
    assert forall|i: int, j: int| 0 <= i < j < all.len() implies attribute_less(
        (#[trigger] all[i]).exported,
        (#[trigger] all[j]).exported,
    ) by {
        if j < before.len() {
            assert(all[i] == before[i] && all[j] == before[j]);
        } else {
            let l = j - before.len();
            assert(all[j] == new[l]);
            if i < before.len() {
                assert(all[i] == before[i]);
            } else {
                let k = i - before.len();
                assert(all[i] == new[k]);
                assert(text_less(entries[k].0@, entries[l].0@));
            }
        }
    }
    assert forall|i: int| 0 <= i < all.len() implies more.contains((#[trigger] all[i]).exported.0)
        && map.contains_key(all[i].exported) && map[all[i].exported]@ == all[i].imported by {
        if i < before.len() {
            assert(all[i] == before[i]);
        } else {
            let k = i - before.len();
            assert(all[i] == new[k]);
            assert(part.contains_key(entries[k].0@));
        }
    }
    assert forall|a: (Seq<char>, Seq<char>)| #[trigger]
        map.contains_key(a) && more.contains(a.0) implies exported_attributes(all).contains(a) by {
        if done.contains(a.0) {
            let i = exported_attributes(before).index_of(a);
            assert(exported_attributes(all)[i] == a);
        } else {
            assert(part.contains_key(a.1));
            let k = names_of(entries).index_of(a.1);
            assert(new[k].exported == a);
            assert(exported_attributes(all)[before.len() + k] == a);
        }
    }
}

/// Re-exports sorted by attribute, where only the first one of each attribute is kept.
fn tidy_re_exports(re_exports: Vec<CachedReExport>) -> (res: Vec<CachedReExport>)
    ensures
        lists_sources(res.deep_view(), first_sources(re_exports.deep_view())),
{
    let ghost views = re_exports.deep_view();
    let ghost items = re_exports@;
    let mut map: AttrMap<Attribute> = AttrMap::new();
    proof {
        assert(views.take(0) =~= Seq::empty());
        assert(attribute_views(map@) =~= Map::empty());
    }
    for re in it: re_exports
        invariant
            it.seq() == items,
            views.len() == items.len(),
            views == Seq::new(items.len(), |i: int| items[i].deep_view()),
            attribute_views(map@) == first_sources(views.take(it.index() as int)),
    {
        let ghost i = it.index() as int;
        proof {
            assert(views.take(i + 1).drop_last() =~= views.take(i));
            assert(views.take(i + 1).last() == re.deep_view());
            assert(attribute_views(map@).dom() =~= map@.dom());
        }
        let ghost before = map@;
        let exported = Attribute { module: re.exported_module, attr: re.exported_attr };
        let imported = Attribute { module: re.imported_module, attr: re.imported_attr };
        if !map.contains_key(&exported) {
            map.insert(exported, imported);
            proof {
                assert(attribute_views(map@) =~= attribute_views(before).insert(exported@, imported@));
            }
        }
    }
    proof {
        assert(views.take(views.len() as int) =~= views);
    }
    sorted_sources(map)
}

impl CachedExports {
    pub fn new() -> (res: CachedExports)
        ensures
            res.deep_view() == (CachedExportsView {
                definitions: Seq::empty(),
                re_exports: Seq::empty(),
                all: Seq::empty(),
                return_types: Seq::empty(),
            }),
    {
        let res = CachedExports {
            definitions: Vec::new(),
            re_exports: Vec::new(),
            all: Vec::new(),
            return_types: Vec::new(),
        };
        proof {
            assert(res.deep_view().definitions =~= Seq::empty());
            assert(res.deep_view().re_exports =~= Seq::empty());
            assert(res.deep_view().all =~= Seq::empty());
            assert(res.deep_view().return_types =~= Seq::empty());
        }
        res
    }

    /// What a cache keeps of what modules define and re-export: all of it, sorted.
    pub fn from_exports(exports: &Exports) -> (res: CachedExports)
        ensures
            sorted_listing(res.deep_view().definitions, exports.deep_view().exports),
            lists_sources(res.deep_view().re_exports, exports.deep_view().sources()),
            sorted_listing(res.deep_view().all, exports.deep_view().all),
            sorted_listing(res.deep_view().return_types, exports.deep_view().return_types),
    {
        let copies = sorted_copies(exports.get_exports());
        let mut definitions: Vec<(ModuleName, ExportType)> = Vec::new();
        for i in 0..copies.len()
            invariant
                entry_views(definitions@) == entry_views(copies@).take(i as int),
        {
            let ghost before = entry_views(definitions@);
            definitions.push((copies[i].0.clone(), copies[i].1.typ));
            proof {
                assert(entry_views(definitions@) =~= before.push(entry_views(copies@)[i as int]));
                assert(entry_views(definitions@) =~= entry_views(copies@).take(i + 1));
            }
        }
        proof {
            assert(entry_views(copies@).take(copies@.len() as int) =~= entry_views(copies@));
        }
        let re_exports = exports.get_re_exports();
        let names = re_exports.attributes();
        let ghost listed = attributes_of(names@);
        let mut map: AttrMap<Attribute> = AttrMap::new();
        proof {
            assert(attribute_views(map@) =~= Map::empty());
            assert(sources(re_exports@).restrict(listed.take(0).to_set()) =~= Map::empty());
        }
        for i in 0..names.len()
            invariant
                listed == attributes_of(names@),
                listed.to_set() == re_exports@.dom(),
                attribute_views(map@) == sources(re_exports@).restrict(listed.take(i as int).to_set()),
        {
            let ghost before = map@;
            proof {
                crate::name_set::lemma_take_more(listed, i as int);
                assert(listed[i as int] == names@[i as int]@);
                assert(listed.contains(listed[i as int]));
                assert(re_exports@.dom().contains(listed[i as int]));
            }
            if let Some(target) = re_exports.get(&names[i]) {
                map.insert(names[i].clone(), target.0.clone());
            }
            proof {
                assert(attribute_views(map@) =~= attribute_views(before).insert(
                    listed[i as int],
                    sources(re_exports@)[listed[i as int]],
                ));
                assert(attribute_views(map@) =~= sources(re_exports@).restrict(
                    listed.take(i + 1).to_set(),
                ));
            }
        }
        proof {
            assert(listed.take(names@.len() as int) =~= listed);
            assert(sources(re_exports@).restrict(listed.to_set()) =~= sources(re_exports@));
        }
        CachedExports {
            definitions,
            re_exports: sorted_sources(map),
            all: sorted_copies(exports.iter_all()),
            return_types: sorted_copies(exports.iter_return_types()),
        }
    }

    /// Sorts everything, and keeps only the first entry of each name.
    pub fn sort_and_dedup(&mut self)
        ensures
            final(self).deep_view().is_tidied(old(self).deep_view()),
    {
        let mut definitions: Vec<(ModuleName, ExportType)> = Vec::new();
        std::mem::swap(&mut self.definitions, &mut definitions);
        self.definitions = sort_keep_first(definitions);
        let mut re_exports: Vec<CachedReExport> = Vec::new();
        std::mem::swap(&mut self.re_exports, &mut re_exports);
        self.re_exports = tidy_re_exports(re_exports);
        let mut all: Vec<(ModuleName, Vec<String>)> = Vec::new();
        std::mem::swap(&mut self.all, &mut all);
        self.all = sort_keep_first(all);
        let mut return_types: Vec<(ModuleName, ModuleName)> = Vec::new();
        std::mem::swap(&mut self.return_types, &mut return_types);
        self.return_types = sort_keep_first(return_types);
    }

    /// Adds the entries of another cache behind these.
    pub fn merge(&mut self, other: CachedExports)
        ensures
            final(self).deep_view() == old(self).deep_view().joined(other.deep_view()),
    {
        let ghost a = self.deep_view();
        let ghost b = other.deep_view();
        let CachedExports { mut definitions, mut re_exports, mut all, mut return_types } = other;
        self.definitions.append(&mut definitions);
        self.re_exports.append(&mut re_exports);
        self.all.append(&mut all);
        self.return_types.append(&mut return_types);
        proof {
            let c = self.deep_view();
            assert(c.definitions =~= a.definitions + b.definitions);
            assert(c.re_exports =~= a.re_exports + b.re_exports);
            assert(c.all =~= a.all + b.all);
            assert(c.return_types =~= a.return_types + b.return_types);
        }
    }
}

} // verus!
