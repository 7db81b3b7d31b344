//! Classes that modules define.

use crate::module_name::{str_eq, texts, ModuleName};
use crate::name_map::NameMap;
use vstd::prelude::*;

verus! {

/// What an attribute of a class is.
#[derive(Debug, PartialEq, Eq, Structural, Copy, Clone)]
pub enum FieldKind {
    InstanceVar,
    ClassVar,
    InstanceMethod,
    ClassMethod,
    StaticMethod,
    Property,
    PropertySetter,
}

/// An attribute of a class.
#[derive(Debug)]
pub struct Field {
    pub kind: FieldKind,
    pub name: String,
}

impl DeepView for Field {
    type V = (FieldKind, Seq<char>);

    open spec fn deep_view(&self) -> (FieldKind, Seq<char>) {
        (self.kind, self.name@)
    }
}

/// A class that a module defines.
#[derive(Debug)]
pub struct Class {
    pub module: ModuleName,
    pub name: ModuleName,
    pub decorators: Vec<ModuleName>,
    pub bases: Vec<ModuleName>,
    pub metaclass: Option<ModuleName>,
    pub fields: Vec<Field>,
    /// Some base could not be resolved.
    pub has_unknown_base: bool,
    /// The metaclass could not be resolved.
    pub has_unknown_metaclass: bool,
}

/// What a [`Class`] is.
pub struct ClassView {
    pub module: Seq<char>,
    pub name: Seq<char>,
    pub decorators: Seq<Seq<char>>,
    pub bases: Seq<Seq<char>>,
    pub metaclass: Option<Seq<char>>,
    pub fields: Seq<(FieldKind, Seq<char>)>,
    pub has_unknown_base: bool,
    pub has_unknown_metaclass: bool,
}

impl DeepView for Class {
    type V = ClassView;

    open spec fn deep_view(&self) -> ClassView {
        ClassView {
            module: self.module@,
            name: self.name@,
            decorators: texts(self.decorators@),
            bases: texts(self.bases@),
            metaclass: match self.metaclass {
                Some(m) => Some(m@),
                None => None,
            },
            fields: self.fields.deep_view(),
            has_unknown_base: self.has_unknown_base,
            has_unknown_metaclass: self.has_unknown_metaclass,
        }
    }
}

/// The kind of the first attribute of a name.
pub open spec fn field_kind(fields: Seq<(FieldKind, Seq<char>)>, name: Seq<char>) -> Option<FieldKind>
    decreases fields.len(),
{
    if fields.len() == 0 {
        None
    } else if fields[0].1 == name {
        Some(fields[0].0)
    } else {
        field_kind(fields.skip(1), name)
    }
}

impl ClassView {
    /// A class of which nothing is known.
    pub open spec fn blank(module: Seq<char>) -> ClassView {
        ClassView {
            module,
            name: Seq::empty(),
            decorators: Seq::empty(),
            bases: Seq::empty(),
            metaclass: None,
            fields: Seq::empty(),
            has_unknown_base: false,
            has_unknown_metaclass: false,
        }
    }
}

impl Class {
    pub fn empty(module: ModuleName) -> (res: Class)
        ensures
            res.deep_view() == ClassView::blank(module@),
    {
        let res = Class {
            module,
            name: ModuleName::empty(),
            decorators: Vec::new(),
            bases: Vec::new(),
            metaclass: None,
            fields: Vec::new(),
            has_unknown_base: false,
            has_unknown_metaclass: false,
        };
        proof {
            assert(res.deep_view().decorators =~= Seq::empty());
            assert(res.deep_view().bases =~= Seq::empty());
            assert(res.deep_view().fields =~= Seq::empty());
        }
        res
    }

    /// The first attribute of a name.
    pub fn get_field(&self, name: &str) -> (res: Option<&Field>)
        ensures
            match res {
                Some(f) => field_kind(self.deep_view().fields, name@) == Some(f.kind) && f.name@ == name@,
                None => field_kind(self.deep_view().fields, name@) is None,
            },
    {
        let ghost all = self.deep_view().fields;
        proof {
            assert(all.skip(0) =~= all);
        }
        for i in 0..self.fields.len()
            invariant
                all == self.deep_view().fields,
                field_kind(all, name@) == field_kind(all.skip(i as int), name@),
        {
            proof {
                assert(all.skip(i as int).skip(1) =~= all.skip(i + 1));
                assert(all.skip(i as int)[0] == all[i as int]);
            }
            if str_eq(self.fields[i].name.as_str(), name) {
                return Some(&self.fields[i]);
            }
        }
        None
    }
}

/// Classes by their full names.
pub struct ClassTable {
    table: NameMap<Class>,
}

impl DeepView for ClassTable {
    type V = Map<Seq<char>, ClassView>;

    open spec fn deep_view(&self) -> Map<Seq<char>, ClassView> {
        self.classes().deep_view()
    }
}

impl ClassTable {
    /// The map from full names to classes.
    pub closed spec fn classes(&self) -> NameMap<Class> {
        self.table
    }

    pub fn empty() -> (res: ClassTable)
        ensures
            (res.deep_view() == Map::<Seq<char>, ClassView>::empty()),
    {
        let res = ClassTable { table: NameMap::new() };
        proof {
            assert(res.deep_view() =~= Map::<Seq<char>, ClassView>::empty());
        }
        res
    }

    pub fn new(table: NameMap<Class>) -> (res: ClassTable)
        ensures
            res.classes() == table,
    {
        ClassTable { table }
    }

    /// Hands out the map from full names to classes.
    pub fn into_inner(self) -> (res: NameMap<Class>)
        ensures
            res == self.classes(),
    {
        self.table
    }

    pub fn contains(&self, name: &ModuleName) -> (res: bool)
        ensures
            res == self.deep_view().contains_key(name@),
    {
        self.table.contains_key(name)
    }

    pub fn lookup(&self, name: &ModuleName) -> (res: Option<&Class>)
        ensures
            match res {
                Some(c) => self.deep_view().contains_key(name@) && self.deep_view()[name@]
                    == c.deep_view(),
                None => !self.deep_view().contains_key(name@),
            },
    {
        self.table.get(name)
    }

    pub fn lookup_str(&self, name: &str) -> (res: Option<&Class>)
        ensures
            match res {
                Some(c) => self.deep_view().contains_key(name@) && self.deep_view()[name@]
                    == c.deep_view(),
                None => !self.deep_view().contains_key(name@),
            },
    {
        self.table.get_str(name)
    }

    /// The full names of the classes.
    pub fn keys(&self) -> (res: Vec<ModuleName>)
        ensures
            texts(res@) == self.classes().keys(),
            texts(res@).to_set() == self.deep_view().dom(),
            texts(res@).no_duplicates(),
    {
        let res = self.table.key_list();
        proof {
            assert(self.deep_view().dom() =~= self.table@.dom());
        }
        res
    }
}

} // verus!
