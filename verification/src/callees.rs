//! What a call may run.

use crate::class::{field_kind, ClassTable, ClassView, FieldKind};
use crate::effects::{Effect, EffectKind};
use crate::module_name::{dotted, last_dot, leaf_of, texts, ModuleName};
use vstd::prelude::*;

verus! {

/// The methods that constructing an object of a class may run: `__new__` and `__init__` of the
/// metaclass, where it has one, then `__init__` and `__post_init__` of the class.
pub open spec fn constructor_names(cls: Seq<char>, classes: Map<Seq<char>, ClassView>) -> Seq<Seq<char>> {
    let own = seq![dotted(cls, "__init__"@), dotted(cls, "__post_init__"@)];
    if classes.contains_key(cls) {
        match classes[cls].metaclass {
            Some(meta) => seq![dotted(meta, "__new__"@), dotted(meta, "__init__"@)] + own,
            None => own,
        }
    } else {
        own
    }
}

/// The methods that constructing an object of a class may run.
pub fn constructor_method_names(cls_name: &ModuleName, classes: &ClassTable) -> (res: Vec<ModuleName>)
    ensures
        texts(res@) == constructor_names(cls_name@, classes.deep_view()),
{
    let mut res: Vec<ModuleName> = Vec::new();
    if let Some(cls) = classes.lookup(cls_name) {
        if let Some(meta) = &cls.metaclass {
            res.push(meta.append_str("__new__"));
            res.push(meta.append_str("__init__"));
        }
    }
    res.push(cls_name.append_str("__init__"));
    res.push(cls_name.append_str("__post_init__"));
    proof {
        assert(texts(res@) =~= constructor_names(cls_name@, classes.deep_view()));
    }
    res
}

/// How many implicit arguments come before those of a call of a method, where that is known. A
/// call through an object passes the object; one through the class passes nothing.
pub open spec fn receiver_offset(
    method: Seq<char>,
    classes: Map<Seq<char>, ClassView>,
    bound: bool,
) -> Option<usize> {
    let d = last_dot(method);
    if d < 0 || !classes.contains_key(method.take(d)) {
        None
    } else {
        match field_kind(classes[method.take(d)].fields, leaf_of(method)) {
            Some(FieldKind::StaticMethod) => Some(0),
            Some(FieldKind::ClassMethod) => Some(1),
            Some(FieldKind::InstanceMethod) => Some(if bound {
                1
            } else {
                0
            }),
            _ => None,
        }
    }
}

/// How many implicit arguments come before those of a call of a method, where that is known.
pub fn method_receiver_offset(method: &ModuleName, classes: &ClassTable, bound: bool) -> (res: Option<usize>)
    ensures
        res == receiver_offset(method@, classes.deep_view(), bound),
{
    let (class, leaf) = match method.split_attr() {
        Some(parts) => parts,
        None => {
            return None;
        },
    };
    let cls = match classes.lookup(&class) {
        Some(cls) => cls,
        None => {
            return None;
        },
    };
    match cls.get_field(leaf.as_str()) {
        None => None,
        Some(field) => match field.kind {
            FieldKind::StaticMethod => Some(0),
            FieldKind::ClassMethod => Some(1),
            FieldKind::InstanceMethod => Some(if bound {
                1
            } else {
                0
            }),
            _ => None,
        },
    }
}

/// An effect is a call of a method.
pub open spec fn calls_method(kind: EffectKind) -> bool {
    kind == EffectKind::MethodCall || kind == EffectKind::UnboundMethodCall
}

/// The functions that a call binds its arguments to, each with the number of implicit arguments
/// before them. Where it is not known of a method called through a class whether it takes any,
/// both possibilities are listed.
pub open spec fn callees(kind: EffectKind, name: Seq<char>, classes: Map<Seq<char>, ClassView>) -> Seq<
    (Seq<char>, usize),
> {
    if !calls_method(kind) && classes.contains_key(name) {
        constructor_names(name, classes).map_values(|m: Seq<char>| (m, 1usize))
    } else if kind == EffectKind::MethodCall {
        match receiver_offset(name, classes, true) {
            Some(offset) => seq![(name, offset)],
            None => seq![(name, 1usize)],
        }
    } else if kind == EffectKind::UnboundMethodCall {
        match receiver_offset(name, classes, false) {
            Some(offset) => seq![(name, offset)],
            None => seq![(name, 0usize), (name, 1usize)],
        }
    } else {
        seq![(name, 0usize)]
    }
}

/// What a list of callees is.
pub open spec fn callee_views(list: Seq<(ModuleName, usize)>) -> Seq<(Seq<char>, usize)> {
    list.map_values(|c: (ModuleName, usize)| (c.0@, c.1))
}

/// The functions that a call binds its arguments to, each with the number of implicit arguments
/// before them.
pub fn iter_callees(eff: &Effect, classes: &ClassTable) -> (res: Vec<(ModuleName, usize)>)
    ensures
        callee_views(res@) == callees(eff.kind, eff.name@, classes.deep_view()),
{
    let mut res: Vec<(ModuleName, usize)> = Vec::new();
    let is_method = eff.kind == EffectKind::MethodCall || eff.kind == EffectKind::UnboundMethodCall;
    if !is_method && classes.contains(&eff.name) {
        let names = constructor_method_names(&eff.name, classes);
        let ghost all = texts(names@);
        for i in 0..names.len()
            invariant
                all == texts(names@),
                callee_views(res@) == all.take(i as int).map_values(|m: Seq<char>| (m, 1usize)),
        {
            let ghost before = callee_views(res@);
            res.push((names[i].clone(), 1));
            proof {
                assert(callee_views(res@) =~= before.push((all[i as int], 1usize)));
                assert(callee_views(res@) =~= all.take(i + 1).map_values(|m: Seq<char>| (m, 1usize)));
            }
        }
        proof {
            assert(all.take(all.len() as int) =~= all);
        }
        return res;
    }
    let ghost wanted = callees(eff.kind, eff.name@, classes.deep_view());
    if eff.kind == EffectKind::MethodCall {
        let offset: usize = match method_receiver_offset(&eff.name, classes, true) {
            Some(offset) => offset,
            None => 1,
        };
        res.push((eff.name.clone(), offset));
    } else if eff.kind == EffectKind::UnboundMethodCall {
        match method_receiver_offset(&eff.name, classes, false) {
            Some(offset) => {
                res.push((eff.name.clone(), offset));
            },
            None => {
                res.push((eff.name.clone(), 0));
                res.push((eff.name.clone(), 1));
            },
        }
    } else {
        res.push((eff.name.clone(), 0));
    }
    proof {
        assert(callee_views(res@) =~= wanted);
    }
    res
}

} // verus!
