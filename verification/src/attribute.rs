//! Attributes of modules, and maps keyed by them.

use crate::module_name::{dotted, leaf_of, parent_of, last_dot, ModuleName};
use crate::name_map::NameMap;
use vstd::prelude::*;

verus! {

/// An attribute of a module.
#[derive(Debug)]
pub struct Attribute {
    pub module: ModuleName,
    pub attr: String,
}

impl View for Attribute {
    type V = (Seq<char>, Seq<char>);

    open spec fn view(&self) -> (Seq<char>, Seq<char>) {
        (self.module@, self.attr@)
    }
}

impl DeepView for Attribute {
    type V = (Seq<char>, Seq<char>);

    open spec fn deep_view(&self) -> (Seq<char>, Seq<char>) {
        self@
    }
}

impl PartialEq for Attribute {
    fn eq(&self, other: &Attribute) -> (res: bool) {
        self.module == other.module && self.attr == other.attr
    }
}

impl vstd::std_specs::cmp::PartialEqSpecImpl for Attribute {
    open spec fn obeys_eq_spec() -> bool {
        true
    }

    open spec fn eq_spec(&self, other: &Attribute) -> bool {
        self@ == other@
    }
}

impl Eq for Attribute {

}

impl Clone for Attribute {
    fn clone(&self) -> (res: Attribute)
        ensures
            res == *self,
    {
        Attribute { module: self.module.clone(), attr: self.attr.clone() }
    }
}

/// The full name of an attribute. One of no module stands by itself.
pub open spec fn full_name(a: (Seq<char>, Seq<char>)) -> Seq<char> {
    if a.0.len() == 0 {
        a.1
    } else {
        dotted(a.0, a.1)
    }
}

/// The attribute that a full name denotes: its last component, in what comes before.
pub open spec fn attribute_named(name: Seq<char>) -> (Seq<char>, Seq<char>) {
    (
        match parent_of(name) {
            Some(p) => p,
            None => Seq::empty(),
        },
        leaf_of(name),
    )
}

impl Attribute {
    pub fn new(module: ModuleName, attr: &str) -> (res: Attribute)
        ensures
            res@ == (module@, attr@),
    {
        Attribute { module, attr: attr.to_owned() }
    }

    /// Splits a full name into the module and the attribute, its last component.
    pub fn from_module_name(name: &ModuleName) -> (res: Attribute)
        ensures
            res@ == attribute_named(name@),
    {
        match name.split_attr() {
            Some((module, attr)) => Attribute { module, attr },
            None => Attribute { module: ModuleName::empty(), attr: name.leaf() },
        }
    }

    /// The full name of the attribute.
    pub fn as_module_name(&self) -> (res: ModuleName)
        ensures
            res@ == full_name(self@),
    {
        if self.module.as_str().is_empty() {
            ModuleName::from_string(self.attr.clone())
        } else {
            self.module.append_str(self.attr.as_str())
        }
    }
}

/// The full name of the attribute that a name denotes is the name. This fails for a name whose
/// only dot is its first character.
pub proof fn name_to_attribute_and_back(name: Seq<char>)
    requires
        last_dot(name) != 0,
    ensures
        full_name(attribute_named(name)) == name,
{
    crate::module_name::lemma_last_dot(name);
    if last_dot(name) > 0 {
        crate::module_name::split_then_glue(name);
    } else {
        assert(name.skip(0) =~= name);
    }
}

/// The full name of an attribute denotes that attribute, where the attribute itself has no dot.
pub proof fn attribute_to_name_and_back(a: (Seq<char>, Seq<char>))
    requires
        !a.1.contains('.'),
    ensures
        attribute_named(full_name(a)) == a,
{
    if a.0.len() == 0 {
        crate::module_name::lemma_last_dot(a.1);
        assert(last_dot(a.1) == -1) by {
            if last_dot(a.1) >= 0 {
                assert(a.1.contains(a.1[last_dot(a.1)]));
            }
        }
        assert(a.1.skip(0) =~= a.1);
        assert(a.0 =~= Seq::<char>::empty());
    } else {
        crate::module_name::glue_then_split(a.0, a.1);
    }
}

/// A map from attributes to values.
#[verifier::reject_recursive_types(V)]
pub struct AttrMap<V> {
    modules: NameMap<NameMap<V>>,
}

impl<V> View for AttrMap<V> {
    type V = Map<(Seq<char>, Seq<char>), V>;

    open spec fn view(&self) -> Map<(Seq<char>, Seq<char>), V> {
        Map::new(
            |a: (Seq<char>, Seq<char>)|
                self.modules()@.contains_key(a.0) && self.modules()@[a.0]@.contains_key(a.1),
            |a: (Seq<char>, Seq<char>)| self.modules()@[a.0]@[a.1],
        )
    }
}

/// The attributes of the first `n` of some modules.
spec fn attributes_among<V>(modules: NameMap<NameMap<V>>, n: int) -> Set<(Seq<char>, Seq<char>)>
    decreases n,
{
    if n <= 0 {
        Set::empty()
    } else {
        let m = modules.keys()[n - 1];
        attributes_among(modules, n - 1).union(
            modules@[m].keys().to_set().map(|a: Seq<char>| (m, a)),
        )
    }
}

proof fn lemma_attributes_among<V>(modules: NameMap<NameMap<V>>, n: int, k: int, a: Seq<char>)
    requires
        n <= modules.keys().len(),
    ensures
        attributes_among(modules, n).finite(),
        0 <= k < n && modules@[modules.keys()[k]].keys().contains(a) ==> attributes_among(modules, n).contains(
            (modules.keys()[k], a),
        ),
    decreases n,
{
    if n > 0 {
        lemma_attributes_among(modules, n - 1, k, a);
        let m = modules.keys()[n - 1];
        let own = modules@[m].keys().to_set();
        own.lemma_map_finite(|a: Seq<char>| (m, a));
        if k == n - 1 && modules@[m].keys().contains(a) {
            assert(own.contains(a));
            assert(own.map(|a: Seq<char>| (m, a)).contains((m, a)));
        }
    }
}

/// There are finitely many attributes in a map.
pub proof fn lemma_attributes_finite<V>(map: &AttrMap<V>)
    ensures
        map@.dom().finite(),
{
    let modules = map.modules();
    let n = modules.keys().len() as int;
    let all = attributes_among(modules, n);
    lemma_attributes_among(modules, n, 0, Seq::empty());
    assert forall|x: (Seq<char>, Seq<char>)| map@.dom().contains(x) implies all.contains(x) by {
        assert(modules.keys().contains(x.0));
        let k = modules.keys().index_of(x.0);
        assert(modules@[x.0].keys().contains(x.1));
        lemma_attributes_among(modules, n, k, x.1);
    }
    vstd::set_lib::lemma_len_subset(map@.dom(), all);
}

impl<V> AttrMap<V> {
    /// The values by module, then by attribute.
    pub closed spec fn modules(&self) -> NameMap<NameMap<V>> {
        self.modules
    }

    pub fn new() -> (res: AttrMap<V>)
        ensures
            (res@ == Map::<(Seq<char>, Seq<char>), V>::empty()),
            res.modules().keys().len() == 0,
    {
        let res = AttrMap { modules: NameMap::new() };
        proof {
            assert(res@ =~= Map::<(Seq<char>, Seq<char>), V>::empty());
        }
        res
    }

    pub fn get(&self, a: &Attribute) -> (res: Option<&V>)
        ensures
            res == (if self@.contains_key(a@) {
                Some(&self@[a@])
            } else {
                None
            }),
    {
        match self.modules.get(&a.module) {
            Some(attrs) => attrs.get_str(a.attr.as_str()),
            None => None,
        }
    }

    pub fn contains_key(&self, a: &Attribute) -> (res: bool)
        ensures
            res == self@.contains_key(a@),
    {
        self.get(a).is_some()
    }

    pub fn insert(&mut self, a: Attribute, value: V)
        ensures
            final(self)@ == old(self)@.insert(a@, value),
    {
        let Attribute { module, attr } = a;
        match self.modules.position(module.as_str()) {
            Some(i) => {
                let mut attrs: NameMap<V> = self.modules.replace_at(i, NameMap::new());
                let _ = attrs.insert(ModuleName::from_string(attr), value);
                let _ = self.modules.replace_at(i, attrs);
            },
            None => {
                let mut attrs: NameMap<V> = NameMap::new();
                let _ = attrs.insert(ModuleName::from_string(attr), value);
                let _ = self.modules.insert(module, attrs);
            },
        }
        proof {
            assert(self@ =~= old(self)@.insert(a@, value));
        }
    }

    pub fn get_in(&self, module: &ModuleName, attr: &str) -> (res: Option<&V>)
        ensures
            res == (if self@.contains_key((module@, attr@)) {
                Some(&self@[(module@, attr@)])
            } else {
                None
            }),
    {
        match self.modules.get(module) {
            Some(attrs) => attrs.get_str(attr),
            None => None,
        }
    }

    /// Puts a value in the place of the one that an attribute has, and hands that one out.
    pub fn replace(&mut self, module: &ModuleName, attr: &str, value: V) -> (res: V)
        requires
            old(self)@.contains_key((module@, attr@)),
        ensures
            res == old(self)@[(module@, attr@)],
            final(self)@ == old(self)@.insert((module@, attr@), value),
    {
        let mut held: V = value;
        if let Some(i) = self.modules.position(module.as_str()) {
            let mut attrs: NameMap<V> = self.modules.replace_at(i, NameMap::new());
            if let Some(j) = attrs.position(attr) {
                held = attrs.replace_at(j, held);
            }
            let _ = self.modules.replace_at(i, attrs);
        }
        proof {
            assert(self@ =~= old(self)@.insert((module@, attr@), value));
        }
        held
    }

    /// Sets all attributes of a module.
    pub fn set_module(&mut self, module: ModuleName, attrs: NameMap<V>)
        ensures
            final(self)@ == with_module(old(self)@, module@, attrs@),
    {
        let _ = self.modules.insert(module, attrs);
        proof {
            assert(self@ =~= with_module(old(self)@, module@, attrs@));
        }
    }

    /// All attributes of a module.
    pub fn attrs_of(&self, module: &ModuleName) -> (res: Option<&NameMap<V>>)
        ensures
            res matches Some(attrs) ==> attrs@ == module_part(self@, module@),
            res is None ==> (module_part(self@, module@) =~= Map::empty()),
    {
        let res = self.modules.get(module);
        proof {
            if res is Some {
                assert(res->0@ =~= module_part(self@, module@));
            }
        }
        res
    }

    /// Takes out all attributes of a module.
    pub fn take_module(&mut self, module: &ModuleName) -> (res: Option<NameMap<V>>)
        ensures
            final(self)@ == with_module(old(self)@, module@, Map::empty()),
            res matches Some(attrs) ==> attrs@ == module_part(old(self)@, module@),
            res is None ==> (module_part(old(self)@, module@) =~= Map::empty()),
    {
        let res = self.modules.remove(module);
        proof {
            assert(self@ =~= with_module(old(self)@, module@, Map::empty()));
            if res is Some {
                assert(res->0@ =~= module_part(old(self)@, module@));
            }
        }
        res
    }

    /// Sets every attribute of another map to the value that it has there.
    pub fn extend(&mut self, other: AttrMap<V>)
        ensures
            final(self)@ == old(self)@.union_prefer_right(other@),
    {
        let mut rest: NameMap<NameMap<V>> = other.modules;
        let ghost right = other@;
        let ghost left = self@;
        let ghost keys = rest.keys();
        let n: usize = rest.len();
        proof {
            assert(from_modules(right, keys.take(0)) =~= Map::empty());
            assert(left.union_prefer_right(from_modules(right, keys.take(0))) =~= left);
        }
        for i in 0..n
            invariant
                n == keys.len(),
                rest.keys() == keys,
                keys.no_duplicates(),
                rest.ordered(),
                forall|j: int|
                    i <= j < n ==> #[trigger] rest.values()[j] == other.modules@[keys[j]]
                        && other.modules@.contains_key(keys[j]),
                right == other@,
                self@ == left.union_prefer_right(from_modules(right, keys.take(i as int))),
        {
            let ghost middle = self@;
            let ghost module = keys[i as int];
            let name = rest.key_at(i).clone();
            let attrs: NameMap<V> = rest.replace_at(i, NameMap::new());
            proof {
                assert(attrs == other.modules@[module]);
            }
            match self.modules.position(name.as_str()) {
                Some(k) => {
                    let mut mine: NameMap<V> = self.modules.replace_at(k, NameMap::new());
                    mine.extend(attrs);
                    let _ = self.modules.replace_at(k, mine);
                },
                None => {
                    let _ = self.modules.insert(name, attrs);
                },
            }
            proof {
                crate::name_set::lemma_take_more(keys, i as int);
                assert forall|a: (Seq<char>, Seq<char>)|
                    keys.take(i + 1).contains(a.0) <==> keys.take(i as int).contains(a.0) || a.0
                        == module by {
                    assert(keys.take(i + 1).to_set().contains(a.0) <==> keys.take(
                        i as int,
                    ).to_set().contains(a.0) || a.0 == module);
                }
                let one = seq![module];
                assert(one[0] == module);
                assert forall|m: Seq<char>| one.contains(m) <==> m == module by {
                    assert(one[0] == module);
                }
                let part = from_modules(right, one);
                assert forall|a: (Seq<char>, Seq<char>)| #[trigger]
                    self@.contains_key(a) <==> middle.contains_key(a) || part.contains_key(a) by {}
                assert(self@ =~= middle.union_prefer_right(part));
                let so_far = from_modules(right, keys.take(i as int));
                let more = from_modules(right, keys.take(i + 1));
                assert(more =~= so_far.union_prefer_right(part));
                assert(self@ =~= left.union_prefer_right(more));
            }
        }
        proof {
            assert(keys.take(n as int) =~= keys);
            assert forall|a: (Seq<char>, Seq<char>)| right.contains_key(a) implies keys.contains(a.0) by {
                assert(other.modules@.contains_key(a.0));
            }
            assert(from_modules(right, keys) =~= right);
        }
    }

    /// How many modules have attributes in the map.
    pub fn module_count(&self) -> (res: usize)
        ensures
            res == self.modules().keys().len(),
            self.modules().ordered(),
    {
        self.modules.len()
    }

    /// The modules that have attributes in the map.
    pub fn module_list(&self) -> (res: Vec<ModuleName>)
        ensures
            crate::module_name::texts(res@) == self.modules().keys(),
            self.modules().ordered(),
    {
        self.modules.key_list()
    }

    /// The attributes in the map, in the order in which they are walked.
    pub fn attributes(&self) -> (res: Vec<Attribute>)
        ensures
            attributes_of(res@).no_duplicates(),
            attributes_of(res@).to_set() == self@.dom(),
    {
        let mut res: Vec<Attribute> = Vec::new();
        let n: usize = self.modules.len();
        for i in 0..n
            invariant
                n == self.modules.keys().len(),
                self.modules.ordered(),
                attributes_of(res@).no_duplicates(),
                forall|a: (Seq<char>, Seq<char>)| #[trigger]
                    attributes_of(res@).contains(a) <==> self@.contains_key(a)
                        && self.modules.keys().take(i as int).contains(a.0),
        {
            let attrs = self.modules.value_at(i);
            let m: usize = attrs.len();
            let ghost module = self.modules.keys()[i as int];
            let ghost outer = attributes_of(res@);
            proof {
                crate::name_set::lemma_take_more(self.modules.keys(), i as int);
                assert(!self.modules.keys().take(i as int).contains(module)) by {
                    if self.modules.keys().take(i as int).contains(module) {
                        let j = self.modules.keys().take(i as int).index_of(module);
                        assert(self.modules.keys()[j] == module);
                    }
                }
                assert(attrs.keys().take(0) =~= Seq::empty());
            }
            for j in 0..m
                invariant
                    n == self.modules.keys().len(),
                    i < n,
                    self.modules.ordered(),
                    module == self.modules.keys()[i as int],
                    *attrs == self.modules@[module],
                    self.modules@.contains_key(module),
                    attrs.ordered(),
                    m == attrs.keys().len(),
                    !self.modules.keys().take(i as int).contains(module),
                    attributes_of(res@).no_duplicates(),
                    forall|a: (Seq<char>, Seq<char>)| #[trigger]
                        attributes_of(res@).contains(a) <==> self@.contains_key(a) && (
                        self.modules.keys().take(i as int).contains(a.0) || (a.0 == module
                            && attrs.keys().take(j as int).contains(a.1))),
            {
                let ghost before = attributes_of(res@);
                let a = Attribute {
                    module: self.modules.key_at(i).clone(),
                    attr: attrs.key_at(j).as_string().clone(),
                };
                let ghost added = a@;
                res.push(a);
                proof {
                    assert(attributes_of(res@) =~= before.push(added));
                    crate::name_set::lemma_take_more(attrs.keys(), j as int);
                    assert(!attrs.keys().take(j as int).contains(added.1)) by {
                        if attrs.keys().take(j as int).contains(added.1) {
                            let k = attrs.keys().take(j as int).index_of(added.1);
                            assert(attrs.keys()[k] == added.1);
                        }
                    }
                    assert(!before.contains(added));
                    assert(attrs@.contains_key(attrs.keys()[j as int]));
                    assert(self@.contains_key(added));
                    lemma_push_new(before, added);
                    assert forall|x: (Seq<char>, Seq<char>)| #[trigger]
                        attributes_of(res@).contains(x) <==> self@.contains_key(x) && (
                        self.modules.keys().take(i as int).contains(x.0) || (x.0 == module
                            && attrs.keys().take(j + 1).contains(x.1))) by {
                        assert(attrs.keys().take(j + 1).to_set().contains(x.1) <==> attrs.keys().take(
                            j as int,
                        ).to_set().contains(x.1) || x.1 == added.1);
                    }
                }
            }
            proof {
                assert forall|x: (Seq<char>, Seq<char>)| #[trigger]
                    attributes_of(res@).contains(x) <==> self@.contains_key(x)
                        && self.modules.keys().take(i + 1).contains(x.0) by {
                    assert(self.modules.keys().take(i + 1).to_set().contains(x.0)
                        <==> self.modules.keys().take(i as int).to_set().contains(x.0) || x.0 == module);
                    assert(attrs.keys().take(m as int) =~= attrs.keys());
                }
            }
        }
        proof {
            assert(self.modules.keys().take(n as int) =~= self.modules.keys());
            assert(attributes_of(res@).to_set() =~= self@.dom());
        }
        res
    }
}

/// A map in which the attributes of one module are those that are given.
pub open spec fn with_module<V>(
    map: Map<(Seq<char>, Seq<char>), V>,
    module: Seq<char>,
    attrs: Map<Seq<char>, V>,
) -> Map<(Seq<char>, Seq<char>), V> {
    Map::new(
        |a: (Seq<char>, Seq<char>)|
            if a.0 == module {
                attrs.contains_key(a.1)
            } else {
                map.contains_key(a)
            },
        |a: (Seq<char>, Seq<char>)|
            if a.0 == module {
                attrs[a.1]
            } else {
                map[a]
            },
    )
}

/// The attributes of one module.
pub open spec fn module_part<V>(map: Map<(Seq<char>, Seq<char>), V>, module: Seq<char>) -> Map<
    Seq<char>,
    V,
> {
    Map::new(|n: Seq<char>| map.contains_key((module, n)), |n: Seq<char>| map[(module, n)])
}

/// The part of a map that speaks of the given modules.
spec fn from_modules<V>(map: Map<(Seq<char>, Seq<char>), V>, modules: Seq<Seq<char>>) -> Map<
    (Seq<char>, Seq<char>),
    V,
> {
    Map::new(
        |a: (Seq<char>, Seq<char>)| map.contains_key(a) && modules.contains(a.0),
        |a: (Seq<char>, Seq<char>)| map[a],
    )
}

/// What a sequence of attributes is.
pub open spec fn attributes_of(s: Seq<Attribute>) -> Seq<(Seq<char>, Seq<char>)> {
    s.map_values(|a: Attribute| a@)
}

/// A new item at the end leaves the items of a sequence apart.
pub proof fn lemma_push_new<T>(s: Seq<T>, x: T)
    requires
        s.no_duplicates(),
        !s.contains(x),
    ensures
        s.push(x).no_duplicates(),
        forall|y: T| #[trigger] s.push(x).contains(y) <==> s.contains(y) || y == x,
{
    assert forall|y: T| #[trigger] s.push(x).contains(y) <==> s.contains(y) || y == x by {
        if s.contains(y) {
            assert(s.push(x)[s.index_of(y)] == y);
        }
        assert(s.push(x)[s.len() as int] == x);
    }
    assert forall|i: int, j: int| 0 <= i < s.push(x).len() && 0 <= j < s.push(x).len() && i != j implies s.push(
        x,
    )[i] != s.push(x)[j] by {
        if i < s.len() {
            assert(s.contains(s[i]));
        }
        if j < s.len() {
            assert(s.contains(s[j]));
        }
    }
}

} // verus!
