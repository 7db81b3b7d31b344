//! Sets of dotted names.

use crate::module_name::ModuleName;
use starlark_map::small_set::SmallSet;
use vstd::prelude::*;

verus! {

/// A set of the `starlark_map` crate.
#[verifier::external_type_specification]
#[verifier::external_body]
#[verifier::reject_recursive_types(T)]
pub struct ExSmallSet<T>(SmallSet<T>);

/// What a set of texts holds, in the order in which it is walked.
pub uninterp spec fn set_items(set: &SmallSet<String>) -> Seq<Seq<char>>;

/// `SmallSet::new` makes a set that holds nothing.
#[verifier::external_body]
fn small_set_new() -> (res: SmallSet<String>)
    ensures
        set_items(&res) == Seq::<Seq<char>>::empty(),
{
    SmallSet::new()
}

/// `SmallSet::len` counts the items.
#[verifier::external_body]
fn small_set_len(set: &SmallSet<String>) -> (res: usize)
    ensures
        res == set_items(set).len(),
{
    set.len()
}

/// `SmallSet::contains` says whether an item is in the set.
#[verifier::external_body]
fn small_set_contains(set: &SmallSet<String>, item: &str) -> (res: bool)
    ensures
        res == set_items(set).contains(item@),
{
    set.contains(item)
}

/// `SmallSet::get_index` gives the item at a position.
#[verifier::external_body]
fn small_set_get_index(set: &SmallSet<String>, i: usize) -> (res: Option<&String>)
    ensures
        res is Some <==> i < set_items(set).len(),
        res matches Some(s) ==> s@ == set_items(set)[i as int],
{
    set.get_index(i)
}

/// `SmallSet::insert` puts an item that is not in the set behind the others, and says whether it
/// did.
#[verifier::external_body]
fn small_set_insert(set: &mut SmallSet<String>, item: String) -> (res: bool)
    ensures
        res == !set_items(old(set)).contains(item@),
        set_items(final(set)) == (if res {
            set_items(old(set)).push(item@)
        } else {
            set_items(old(set))
        }),
{
    set.insert(item)
}

/// `SmallSet::shift_remove` takes an item out, says whether it was there, and keeps the order of
/// the others. Of an item that occurs once, nothing is left.
#[verifier::external_body]
fn small_set_remove(set: &mut SmallSet<String>, item: &str) -> (res: bool)
    requires
        set_items(old(set)).no_duplicates(),
    ensures
        res == set_items(old(set)).contains(item@),
        set_items(final(set)) == set_items(old(set)).filter(|t: Seq<char>| t != item@),
{
    set.shift_remove(item)
}

/// A set of names, walked in the order in which the names came in.
pub struct NameSet {
    names: SmallSet<String>,
}

impl View for NameSet {
    type V = Set<Seq<char>>;

    open spec fn view(&self) -> Set<Seq<char>> {
        self.items().to_set()
    }
}

impl DeepView for NameSet {
    type V = Set<Seq<char>>;

    open spec fn deep_view(&self) -> Set<Seq<char>> {
        self@
    }
}

impl NameSet {
    /// The names, in the order in which they came in.
    pub closed spec fn items(&self) -> Seq<Seq<char>> {
        set_items(&self.names)
    }

    #[verifier::type_invariant]
    closed spec fn coherent(&self) -> bool {
        self.items().no_duplicates()
    }

    /// What holds of every set: no name occurs twice.
    pub open spec fn ordered(&self) -> bool {
        &&& self.items().no_duplicates()
        &&& self@.finite()
        &&& forall|i: int|
            #![trigger self.items()[i]]
            0 <= i < self.items().len() ==> self@.contains(self.items()[i])
    }

    pub fn new() -> (res: NameSet)
        ensures
            res@ == Set::<Seq<char>>::empty(),
            res.items() == Seq::<Seq<char>>::empty(),
    {
        let res = NameSet { names: small_set_new() };
        assert(res@ =~= Set::<Seq<char>>::empty());
        res
    }

    pub fn len(&self) -> (res: usize)
        ensures
            res == self.items().len(),
            res == self@.len(),
            self.ordered(),
    {
        proof {
            use_type_invariant(self);
            self.items().unique_seq_to_set();
        }
        small_set_len(&self.names)
    }

    pub fn is_empty(&self) -> (res: bool)
        ensures
            res == (self@ =~= Set::<Seq<char>>::empty()),
            res == (self.items().len() == 0),
    {
        let n: usize = self.len();
        proof {
            if n == 0 {
                assert(self@ =~= Set::<Seq<char>>::empty());
            } else {
                assert(self@.contains(self.items()[0]));
            }
        }
        n == 0
    }

    pub fn contains_str(&self, name: &str) -> (res: bool)
        ensures
            res == self@.contains(name@),
    {
        small_set_contains(&self.names, name)
    }

    pub fn contains(&self, name: &ModuleName) -> (res: bool)
        ensures
            res == self@.contains(name@),
    {
        self.contains_str(name.as_str())
    }

    pub fn at(&self, i: usize) -> (res: ModuleName)
        requires
            i < self.items().len(),
        ensures
            res@ == self.items()[i as int],
            self@.contains(res@),
    {
        proof {
            assert(self.items().contains(self.items()[i as int]));
        }
        match small_set_get_index(&self.names, i) {
            Some(text) => ModuleName::from_string(text.clone()),
            None => ModuleName::empty(),
        }
    }

    /// Adds a name. The result says whether it is new.
    pub fn insert(&mut self, name: ModuleName) -> (res: bool)
        ensures
            res == !old(self)@.contains(name@),
            final(self)@ == old(self)@.insert(name@),
            final(self).items() == (if old(self)@.contains(name@) {
                old(self).items()
            } else {
                old(self).items().push(name@)
            }),
            final(self).ordered(),
    {
        let mut whole = NameSet::new();
        std::mem::swap(self, &mut whole);
        proof {
            use_type_invariant(&whole);
        }
        let ghost before = whole.items();
        let ghost key = name@;
        let NameSet { mut names } = whole;
        let new = small_set_insert(&mut names, name.into_string());
        proof {
            if new {
                crate::attribute::lemma_push_new(before, key);
            }
        }
        *self = NameSet { names };
        let n: usize = self.len();
        proof {
            if new {
                assert(self@ =~= old(self)@.insert(key));
            } else {
                assert(self@ =~= old(self)@.insert(key));
            }
        }
        new
    }

    /// Takes a name out. The result says whether it was there.
    pub fn remove(&mut self, name: &ModuleName) -> (res: bool)
        ensures
            res == old(self)@.contains(name@),
            final(self)@ == old(self)@.remove(name@),
            final(self).items() == old(self).items().filter(|t: Seq<char>| t != name@),
            final(self).ordered(),
    {
        let mut whole = NameSet::new();
        std::mem::swap(self, &mut whole);
        proof {
            use_type_invariant(&whole);
        }
        let ghost before = whole.items();
        let NameSet { mut names } = whole;
        let known = small_set_remove(&mut names, name.as_str());
        let ghost keep = |t: Seq<char>| t != name@;
        proof {
            lemma_filter_distinct(before, keep);
        }
        *self = NameSet { names };
        let n: usize = self.len();
        proof {
            assert(self@ =~= old(self)@.remove(name@));
        }
        known
    }

    /// Adds every name of another set.
    pub fn extend(&mut self, other: &NameSet)
        ensures
            final(self)@ == old(self)@.union(other@),
            final(self).ordered(),
    {
        let n: usize = other.len();
        let m: usize = self.len();
        for i in 0..n
            invariant
                n == other.items().len(),
                self@ == old(self)@.union(other.items().take(i as int).to_set()),
                self.ordered(),
        {
            let _ = self.insert(other.at(i));
            proof {
                lemma_take_more(other.items(), i as int);
                assert(self@ =~= old(self)@.union(other.items().take(i + 1).to_set()));
            }
        }
        proof {
            assert(other.items().take(n as int) =~= other.items());
            assert(self@ =~= old(self)@.union(other@));
        }
        assert(n == 0 ==> self@ =~= old(self)@.union(other@));
    }

    /// The names that another set also has.
    pub fn intersection(&self, other: &NameSet) -> (res: NameSet)
        ensures
            res@ == self@.intersect(other@),
    {
        let mut res = NameSet::new();
        let n: usize = self.len();
        for i in 0..n
            invariant
                n == self.items().len(),
                res@ == self.items().take(i as int).to_set().intersect(other@),
        {
            if other.contains(&self.at(i)) {
                let _ = res.insert(self.at(i));
            }
            proof {
                lemma_take_more(self.items(), i as int);
                assert(res@ =~= self.items().take(i + 1).to_set().intersect(other@));
            }
        }
        proof {
            assert(self.items().take(n as int) =~= self.items());
        }
        res
    }
}

impl NameSet {
    /// The names that another set does not have.
    pub fn difference(&self, other: &NameSet) -> (res: NameSet)
        ensures
            res@ == self@.difference(other@),
    {
        let mut res = NameSet::new();
        let n: usize = self.len();
        for i in 0..n
            invariant
                n == self.items().len(),
                res@ == self.items().take(i as int).to_set().difference(other@),
        {
            if !other.contains(&self.at(i)) {
                let _ = res.insert(self.at(i));
            }
            proof {
                lemma_take_more(self.items(), i as int);
                assert(res@ =~= self.items().take(i + 1).to_set().difference(other@));
            }
        }
        proof {
            assert(self.items().take(n as int) =~= self.items());
        }
        res
    }
}

impl Clone for NameSet {
    fn clone(&self) -> (res: NameSet)
        ensures
            res@ == self@,
            res.items() == self.items(),
    {
        let mut res = NameSet::new();
        let n: usize = self.len();
        for i in 0..n
            invariant
                n == self.items().len(),
                self.ordered(),
                res.items() == self.items().take(i as int),
        {
            proof {
                let key = self.items()[i as int];
                if self.items().take(i as int).contains(key) {
                    let j = self.items().take(i as int).index_of(key);
                    assert(self.items()[j] == key);
                }
                lemma_take_more(self.items(), i as int);
            }
            let _ = res.insert(self.at(i));
            proof {
                assert(res.items() =~= self.items().take(i + 1));
            }
        }
        proof {
            assert(self.items().take(n as int) =~= self.items());
        }
        res
    }
}

/// What is left of distinct items is distinct.
pub proof fn lemma_filter_distinct<T>(s: Seq<T>, keep: spec_fn(T) -> bool)
    requires
        s.no_duplicates(),
    ensures
        s.filter(keep).no_duplicates(),
        forall|x: T| #[trigger] s.filter(keep).contains(x) <==> s.contains(x) && keep(x),
    decreases s.len(),
{
    reveal(Seq::filter);
    if s.len() > 0 {
        let fewer = s.drop_last();
        let last = s.last();
        lemma_filter_distinct(fewer, keep);
        assert(!fewer.contains(last)) by {
            if fewer.contains(last) {
                let i = fewer.index_of(last);
                assert(s[i] == last);
            }
        }
        assert forall|x: T| s.contains(x) <==> fewer.contains(x) || x == last by {
            if s.contains(x) {
                let i = s.index_of(x);
                if i < fewer.len() {
                    assert(fewer[i] == x);
                }
            }
            if fewer.contains(x) {
                assert(s[fewer.index_of(x)] == x);
            }
            assert(s[s.len() - 1] == last);
        }
        if keep(last) {
            crate::attribute::lemma_push_new(fewer.filter(keep), last);
        }
    }
}

/// The first `i + 1` items are the first `i` and the one at `i`.
pub proof fn lemma_take_more<T>(s: Seq<T>, i: int)
    requires
        0 <= i < s.len(),
    ensures
        s.take(i + 1) == s.take(i).push(s[i]),
        s.take(i + 1).to_set() == s.take(i).to_set().insert(s[i]),
{
    assert(s.take(i + 1) =~= s.take(i).push(s[i]));
    let more = s.take(i + 1).to_set();
    let fewer = s.take(i).to_set().insert(s[i]);
    assert forall|x: T| #[trigger] more.contains(x) <==> fewer.contains(x) by {
        if s.take(i).contains(x) {
            let j = s.take(i).index_of(x);
            assert(s.take(i + 1)[j] == x);
        }
        assert(s.take(i + 1)[i] == s[i]);
        if s.take(i + 1).contains(x) {
            let j = s.take(i + 1).index_of(x);
            if j < i {
                assert(s.take(i)[j] == x);
            }
        }
    }
    assert(more =~= fewer);
}

/// One more item of a sequence is one more member of its set.
pub proof fn lemma_push_set<T>(s: Seq<T>, x: T)
    ensures
        s.push(x).to_set() == s.to_set().insert(x),
{
    assert forall|y: T| s.push(x).to_set().contains(y) <==> s.to_set().insert(x).contains(y) by {
        if s.contains(y) {
            assert(s.push(x)[s.index_of(y)] == y);
            assert(s.push(x).contains(y));
        }
        assert(s.push(x)[s.len() as int] == x);
        assert(s.push(x).contains(x));
    }
    assert(s.push(x).to_set() =~= s.to_set().insert(x));
}

} // verus!
