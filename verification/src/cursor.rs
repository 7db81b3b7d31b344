//! Where in a module an analysis stands.

use crate::module_name::{dotted, optional_name, texts, ModuleName};
use vstd::prelude::*;

verus! {

/// A handler of a `try` statement: which exceptions it catches.
pub enum TryHandler {
    /// `except:` catches every exception.
    Bare,
    /// `except Name:`.
    Single(ModuleName),
    /// `except (A, B):`.
    Multiple(Vec<ModuleName>),
}

/// The names that a handler lists, or nothing for one that catches every exception.
impl DeepView for TryHandler {
    type V = Option<Seq<Seq<char>>>;

    open spec fn deep_view(&self) -> Option<Seq<Seq<char>>> {
        match self {
            TryHandler::Bare => None,
            TryHandler::Single(name) => Some(seq![name@]),
            TryHandler::Multiple(names) => Some(texts(names@)),
        }
    }
}

/// A handler catches an exception that it lists, or every exception.
pub open spec fn handler_catches(handler: Option<Seq<Seq<char>>>, exc_name: Seq<char>) -> bool {
    match handler {
        None => true,
        Some(names) => names.contains(exc_name),
    }
}

/// Some of the handlers catches an exception.
pub open spec fn some_handler_catches(handlers: Seq<Option<Seq<Seq<char>>>>, exc_name: Seq<char>) -> bool {
    exists|i: int| 0 <= i < handlers.len() && handler_catches(#[trigger] handlers[i], exc_name)
}

impl TryHandler {
    /// A handler of the exceptions that are listed.
    pub fn typed(names: Vec<ModuleName>) -> (res: TryHandler)
        ensures
            res.deep_view() == Some(texts(names@)),
    {
        TryHandler::Multiple(names)
    }

    /// Whether the handler catches the exception of the given name.
    pub fn catches(&self, exc_name: &ModuleName) -> (res: bool)
        ensures
            res == handler_catches(self.deep_view(), exc_name@),
    {
        match self {
            TryHandler::Bare => true,
            TryHandler::Single(name) => {
                proof {
                    assert(seq![name@][0] == name@);
                }
                name.same(exc_name)
            },
            TryHandler::Multiple(names) => crate::module_name::contains_name(names, exc_name),
        }
    }
}

impl Clone for TryHandler {
    fn clone(&self) -> (res: TryHandler)
        ensures
            res.deep_view() == self.deep_view(),
    {
        match self {
            TryHandler::Bare => TryHandler::Bare,
            TryHandler::Single(name) => TryHandler::Single(name.clone()),
            TryHandler::Multiple(names) => TryHandler::Multiple(crate::module_name::clone_names(names)),
        }
    }
}

/// Copies a list of handlers.
pub fn clone_handlers(handlers: &Vec<TryHandler>) -> (res: Vec<TryHandler>)
    ensures
        res.deep_view() == handlers.deep_view(),
{
    let mut res: Vec<TryHandler> = Vec::new();
    for i in 0..handlers.len()
        invariant
            res.deep_view() == handlers.deep_view().take(i as int),
    {
        let ghost before = res.deep_view();
        res.push(handlers[i].clone());
        proof {
            assert(res.deep_view() =~= before.push(handlers.deep_view()[i as int]));
            assert(res.deep_view() =~= handlers.deep_view().take(i + 1));
        }
    }
    proof {
        assert(res.deep_view() =~= handlers.deep_view());
    }
    res
}

/// The kinds of scopes.
#[derive(Debug, PartialEq, Eq, Structural, Copy, Clone)]
pub enum ScopeKind {
    Module,
    Class,
    Function,
}

/// A scope that an analysis is in.
pub struct Scope {
    pub kind: ScopeKind,
    /// The full name of the scope.
    pub name: ModuleName,
    /// The handlers of the `try` statements of the scope that the analysis is in the body of, the
    /// innermost last.
    pub tries: Vec<Vec<TryHandler>>,
}

/// What a [`Scope`] is.
pub struct ScopeView {
    pub kind: ScopeKind,
    pub name: Seq<char>,
    pub tries: Seq<Seq<Option<Seq<Seq<char>>>>>,
}

impl DeepView for Scope {
    type V = ScopeView;

    open spec fn deep_view(&self) -> ScopeView {
        ScopeView { kind: self.kind, name: self.name@, tries: self.tries.deep_view() }
    }
}

impl Clone for Scope {
    fn clone(&self) -> (res: Scope)
        ensures
            res.deep_view() == self.deep_view(),
    {
        let mut tries: Vec<Vec<TryHandler>> = Vec::new();
        for i in 0..self.tries.len()
            invariant
                tries.deep_view() == self.tries.deep_view().take(i as int),
        {
            let ghost before = tries.deep_view();
            tries.push(clone_handlers(&self.tries[i]));
            proof {
                assert(tries.deep_view() =~= before.push(self.tries.deep_view()[i as int]));
                assert(tries.deep_view() =~= self.tries.deep_view().take(i + 1));
            }
        }
        proof {
            assert(tries.deep_view() =~= self.tries.deep_view());
        }
        Scope { kind: self.kind, name: self.name.clone(), tries }
    }
}

/// Where in a module an analysis stands: the scopes that it is in, the outermost first.
pub struct Cursor {
    scopes: Vec<Scope>,
}

impl View for Cursor {
    type V = Seq<ScopeView>;

    closed spec fn view(&self) -> Seq<ScopeView> {
        self.scopes.deep_view()
    }
}

/// The full name of the scope that an analysis is in.
pub open spec fn current_scope(at: Seq<ScopeView>) -> Seq<char> {
    if at.len() == 0 {
        Seq::empty()
    } else {
        at.last().name
    }
}

/// The place inside of a module.
pub open spec fn in_module(name: Seq<char>) -> Seq<ScopeView> {
    seq![ScopeView { kind: ScopeKind::Module, name, tries: Seq::empty() }]
}

/// The place inside of a function or a class at a place.
pub open spec fn in_scope(at: Seq<ScopeView>, kind: ScopeKind, name: Seq<char>) -> Seq<ScopeView> {
    at.push(ScopeView { kind, name: dotted(current_scope(at), name), tries: Seq::empty() })
}

/// The place in the body of a `try` statement at a place.
pub open spec fn in_try(at: Seq<ScopeView>, handlers: Seq<Option<Seq<Seq<char>>>>) -> Seq<ScopeView> {
    if at.len() == 0 {
        at
    } else {
        at.drop_last().push(ScopeView { tries: at.last().tries.push(handlers), ..at.last() })
    }
}

/// What stands at a place runs when the module is imported: it is in no function.
pub open spec fn is_eager(at: Seq<ScopeView>) -> bool {
    forall|i: int| 0 <= i < at.len() ==> (#[trigger] at[i]).kind != ScopeKind::Function
}

/// The innermost function at a place.
pub open spec fn nearest_function(at: Seq<ScopeView>) -> Option<Seq<char>>
    decreases at.len(),
{
    if at.len() == 0 {
        None
    } else if at.last().kind == ScopeKind::Function {
        Some(at.last().name)
    } else {
        nearest_function(at.drop_last())
    }
}

/// The outermost function at a place.
pub open spec fn outermost_function(at: Seq<ScopeView>) -> Option<Seq<char>>
    decreases at.len(),
{
    if at.len() == 0 {
        None
    } else if at.first().kind == ScopeKind::Function {
        Some(at.first().name)
    } else {
        outermost_function(at.skip(1))
    }
}

/// The outermost function round the scope of a place.
pub open spec fn enclosing_function(at: Seq<ScopeView>) -> Option<Seq<char>> {
    if at.len() == 0 {
        None
    } else {
        outermost_function(at.drop_last())
    }
}

/// The names of scopes that are not classes, the innermost first.
pub open spec fn outer_names(at: Seq<ScopeView>) -> Seq<Seq<char>>
    decreases at.len(),
{
    if at.len() == 0 {
        Seq::empty()
    } else if at.last().kind == ScopeKind::Class {
        outer_names(at.drop_last())
    } else {
        seq![at.last().name] + outer_names(at.drop_last())
    }
}

/// The scopes in which a name is looked up at a place, in order: the scope of the place, and then
/// those round it. Classes do not share their names with what is inside of them.
pub open spec fn visible_scopes(at: Seq<ScopeView>) -> Seq<Seq<char>> {
    if at.len() == 0 {
        Seq::empty()
    } else {
        seq![at.last().name] + outer_names(at.drop_last())
    }
}

/// All scopes of a place, the innermost first.
pub open spec fn ascending_names(at: Seq<ScopeView>) -> Seq<Seq<char>> {
    Seq::new(at.len(), |i: int| at[at.len() - 1 - i].name)
}

/// The `try` statements of its scope that a place is in the body of.
pub open spec fn open_tries(at: Seq<ScopeView>) -> Seq<Seq<Option<Seq<Seq<char>>>>> {
    if at.len() == 0 {
        Seq::empty()
    } else {
        at.last().tries
    }
}

/// All handlers of some `try` statements.
pub open spec fn all_handlers(tries: Seq<Seq<Option<Seq<Seq<char>>>>>) -> Seq<Option<Seq<Seq<char>>>>
    decreases tries.len(),
{
    if tries.len() == 0 {
        Seq::empty()
    } else {
        all_handlers(tries.drop_last()) + tries.last()
    }
}

impl Cursor {
    /// In no scope.
    pub fn new() -> (res: Cursor)
        ensures
            res@ == Seq::<ScopeView>::empty(),
    {
        let res = Cursor { scopes: Vec::new() };
        proof {
            assert(res@ =~= Seq::<ScopeView>::empty());
        }
        res
    }

    fn copy_scopes(&self) -> (res: Vec<Scope>)
        ensures
            res.deep_view() == self@,
    {
        let mut res: Vec<Scope> = Vec::new();
        for i in 0..self.scopes.len()
            invariant
                res.deep_view() == self.scopes.deep_view().take(i as int),
        {
            let ghost before = res.deep_view();
            res.push(self.scopes[i].clone());
            proof {
                assert(res.deep_view() =~= before.push(self.scopes.deep_view()[i as int]));
                assert(res.deep_view() =~= self.scopes.deep_view().take(i + 1));
            }
        }
        proof {
            assert(res.deep_view() =~= self.scopes.deep_view());
        }
        res
    }

    /// Inside of a module.
    pub fn enter_module_scope(name: &ModuleName) -> (res: Cursor)
        ensures
            res@ == in_module(name@),
    {
        let mut scopes: Vec<Scope> = Vec::new();
        let tries: Vec<Vec<TryHandler>> = Vec::new();
        proof {
            assert(tries.deep_view() =~= Seq::empty());
        }
        scopes.push(Scope { kind: ScopeKind::Module, name: name.clone(), tries });
        proof {
            assert(scopes.deep_view() =~= in_module(name@));
        }
        Cursor { scopes }
    }

    fn enter(&self, kind: ScopeKind, name: &str) -> (res: Cursor)
        ensures
            res@ == in_scope(self@, kind, name@),
    {
        let full_name = self.scope().append_str(name);
        let mut scopes: Vec<Scope> = self.copy_scopes();
        let tries: Vec<Vec<TryHandler>> = Vec::new();
        proof {
            assert(tries.deep_view() =~= Seq::empty());
        }
        scopes.push(Scope { kind, name: full_name, tries });
        proof {
            assert(scopes.deep_view() =~= in_scope(self@, kind, name@));
        }
        Cursor { scopes }
    }

    /// Inside of a class at this place.
    pub fn enter_class_scope_name(&self, name: &str) -> (res: Cursor)
        ensures
            res@ == in_scope(self@, ScopeKind::Class, name@),
    {
        self.enter(ScopeKind::Class, name)
    }

    /// Inside of a function at this place.
    pub fn enter_function_scope_name(&self, name: &str) -> (res: Cursor)
        ensures
            res@ == in_scope(self@, ScopeKind::Function, name@),
    {
        self.enter(ScopeKind::Function, name)
    }

    /// In the body of a `try` statement at this place.
    pub fn enter_try_body(&self, handlers: Vec<TryHandler>) -> (res: Cursor)
        ensures
            res@ == in_try(self@, handlers.deep_view()),
    {
        let mut scopes: Vec<Scope> = self.copy_scopes();
        let ghost view = handlers.deep_view();
        if let Some(scope) = scopes.pop() {
            let ghost tries0 = scope.tries.deep_view();
            let mut scope: Scope = scope;
            scope.tries.push(handlers);
            proof {
                assert(scope.tries.deep_view() =~= tries0.push(view));
            }
            scopes.push(scope);
        }
        proof {
            assert(scopes.deep_view() =~= in_try(self@, view));
        }
        Cursor { scopes }
    }

    /// The full name of the scope.
    pub fn scope(&self) -> (res: ModuleName)
        ensures
            res@ == current_scope(self@),
    {
        let n: usize = self.scopes.len();
        if n == 0 {
            ModuleName::empty()
        } else {
            self.scopes[n - 1].name.clone()
        }
    }

    /// Whether what stands here runs when the module is imported.
    pub fn in_eager_scope(&self) -> (res: bool)
        ensures
            res == is_eager(self@),
    {
        for i in 0..self.scopes.len()
            invariant
                forall|j: int| 0 <= j < i ==> (#[trigger] self@[j]).kind != ScopeKind::Function,
        {
            if self.scopes[i].kind == ScopeKind::Function {
                proof {
                    assert(self@[i as int].kind == ScopeKind::Function);
                }
                return false;
            }
        }
        true
    }

    /// The innermost function.
    pub fn nearest_function_scope(&self) -> (res: Option<ModuleName>)
        ensures
            optional_name(res) == nearest_function(self@),
    {
        let mut i: usize = self.scopes.len();
        proof {
            assert(self@.take(i as int) =~= self@);
        }
        while i > 0
            invariant
                i <= self.scopes@.len(),
                nearest_function(self@) == nearest_function(self@.take(i as int)),
            decreases i,
        {
            let ghost all = self@.take(i as int);
            i = i - 1;
            proof {
                assert(all.drop_last() =~= self@.take(i as int));
                assert(all.last() == self@[i as int]);
            }
            if self.scopes[i].kind == ScopeKind::Function {
                return Some(self.scopes[i].name.clone());
            }
        }
        None
    }

    /// The outermost function round the scope.
    pub fn enclosing_function_scope(&self) -> (res: Option<ModuleName>)
        ensures
            optional_name(res) == enclosing_function(self@),
    {
        let n: usize = self.scopes.len();
        if n == 0 {
            return None;
        }
        let ghost outer = self@.drop_last();
        let mut i: usize = 0;
        proof {
            assert(outer.skip(0) =~= outer);
        }
        while i < n - 1
            invariant
                n == self.scopes@.len(),
                n > 0,
                outer == self@.drop_last(),
                i <= n - 1,
                outermost_function(outer) == outermost_function(outer.skip(i as int)),
            decreases n - i,
        {
            let ghost rest = outer.skip(i as int);
            proof {
                assert(rest.first() == self@[i as int]);
                assert(rest.skip(1) =~= outer.skip(i + 1));
            }
            if self.scopes[i].kind == ScopeKind::Function {
                return Some(self.scopes[i].name.clone());
            }
            i = i + 1;
        }
        None
    }

    /// The scopes in which a name is looked up, in order.
    pub fn legb_scope_names(&self) -> (res: Vec<ModuleName>)
        ensures
            texts(res@) == visible_scopes(self@),
    {
        let mut res: Vec<ModuleName> = Vec::new();
        let n: usize = self.scopes.len();
        if n == 0 {
            proof {
                assert(texts(res@) =~= Seq::empty());
            }
            return res;
        }
        res.push(self.scopes[n - 1].name.clone());
        let ghost outer = self@.drop_last();
        let mut i: usize = n - 1;
        proof {
            assert(outer.take(i as int) =~= outer);
            assert(texts(res@) + outer_names(outer) =~= visible_scopes(self@));
        }
        while i > 0
            invariant
                n == self.scopes@.len(),
                n > 0,
                i <= n - 1,
                outer == self@.drop_last(),
                texts(res@) + outer_names(outer.take(i as int)) == visible_scopes(self@),
            decreases i,
        {
            let ghost all = outer.take(i as int);
            let ghost before = texts(res@);
            i = i - 1;
            proof {
                assert(all.drop_last() =~= outer.take(i as int));
                assert(all.last() == self@[i as int]);
            }
            if self.scopes[i].kind != ScopeKind::Class {
                res.push(self.scopes[i].name.clone());
                proof {
                    assert(texts(res@) + outer_names(outer.take(i as int)) =~= before + outer_names(all));
                }
            }
        }
        proof {
            assert(texts(res@) + outer_names(outer.take(0)) =~= texts(res@));
        }
        res
    }

    /// All scopes, the innermost first.
    pub fn ascending_scope_names(&self) -> (res: Vec<ModuleName>)
        ensures
            texts(res@) == ascending_names(self@),
    {
        let mut res: Vec<ModuleName> = Vec::new();
        let n: usize = self.scopes.len();
        for i in 0..n
            invariant
                n == self.scopes@.len(),
                texts(res@) == ascending_names(self@).take(i as int),
        {
            let ghost before = texts(res@);
            res.push(self.scopes[n - 1 - i].name.clone());
            proof {
                assert(texts(res@) =~= before.push(ascending_names(self@)[i as int]));
                assert(texts(res@) =~= ascending_names(self@).take(i + 1));
            }
        }
        proof {
            assert(texts(res@) =~= ascending_names(self@));
        }
        res
    }

    /// Whether the place is in the body of a `try` statement of its scope.
    pub fn in_try_body(&self) -> (res: bool)
        ensures
            res == (open_tries(self@).len() > 0),
    {
        let n: usize = self.scopes.len();
        n > 0 && self.scopes[n - 1].tries.len() > 0
    }

    /// The handlers of the `try` statements that the place is in the body of.
    pub fn try_handlers(&self) -> (res: Vec<TryHandler>)
        ensures
            res.deep_view() == all_handlers(open_tries(self@)),
    {
        let mut res: Vec<TryHandler> = Vec::new();
        let n: usize = self.scopes.len();
        proof {
            assert(res.deep_view() =~= Seq::empty());
        }
        if n == 0 {
            return res;
        }
        let tries = &self.scopes[n - 1].tries;
        let ghost all = open_tries(self@);
        proof {
            assert(all =~= tries.deep_view());
            assert(all.take(0) =~= Seq::empty());
        }
        for i in 0..tries.len()
            invariant
                all == tries.deep_view(),
                res.deep_view() == all_handlers(all.take(i as int)),
        {
            let ghost before = res.deep_view();
            let mut more: Vec<TryHandler> = clone_handlers(&tries[i]);
            let ghost added = more.deep_view();
            res.append(&mut more);
            proof {
                assert(res.deep_view() =~= before + added);
                assert(all.take(i + 1).drop_last() =~= all.take(i as int));
                assert(all.take(i + 1).last() == added);
            }
        }
        proof {
            assert(all.take(all.len() as int) =~= all);
        }
        res
    }

    /// Whether an exception that is raised here is caught in its scope.
    pub fn catches_exception(&self, exc_name: &ModuleName) -> (res: bool)
        ensures
            res == some_handler_catches(all_handlers(open_tries(self@)), exc_name@),
    {
        let handlers = self.try_handlers();
        let ghost all = handlers.deep_view();
        for i in 0..handlers.len()
            invariant
                all == handlers.deep_view(),
                all == all_handlers(open_tries(self@)),
                forall|j: int| 0 <= j < i ==> !handler_catches(#[trigger] all[j], exc_name@),
        {
            if handlers[i].catches(exc_name) {
                proof {
                    assert(handler_catches(all[i as int], exc_name@));
                }
                return true;
            }
        }
        false
    }
}

} // verus!
