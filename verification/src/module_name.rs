//! Dotted Python names.

use vstd::prelude::*;
use vstd::string::*;

verus! {

/// `String::push` appends one character.
pub assume_specification[ String::push ](s: &mut String, c: char)
    ensures
        final(s)@ == old(s)@.push(c),
;

/// A dotted Python name: a module, or something qualified by the module it lives in.
#[derive(Debug)]
pub struct ModuleName {
    text: String,
}

impl View for ModuleName {
    type V = Seq<char>;

    closed spec fn view(&self) -> Seq<char> {
        self.text@
    }
}

impl DeepView for ModuleName {
    type V = Seq<char>;

    open spec fn deep_view(&self) -> Seq<char> {
        self@
    }
}

impl PartialEq for ModuleName {
    fn eq(&self, other: &ModuleName) -> (res: bool) {
        self.text == other.text
    }
}

impl vstd::std_specs::cmp::PartialEqSpecImpl for ModuleName {
    open spec fn obeys_eq_spec() -> bool {
        true
    }

    open spec fn eq_spec(&self, other: &ModuleName) -> bool {
        self@ == other@
    }
}

impl Eq for ModuleName {

}

impl Clone for ModuleName {
    fn clone(&self) -> (res: Self)
        ensures
            res == *self,
    {
        ModuleName { text: self.text.clone() }
    }
}

/// What an optional name is.
pub open spec fn optional_name(name: Option<ModuleName>) -> Option<Seq<char>> {
    match name {
        Some(n) => Some(n@),
        None => None,
    }
}

/// The text of a string that may be missing.
pub open spec fn optional_text(s: Option<String>) -> Option<Seq<char>> {
    match s {
        Some(t) => Some(t@),
        None => None,
    }
}

/// The texts of a sequence of names.
pub open spec fn texts(names: Seq<ModuleName>) -> Seq<Seq<char>> {
    names.map_values(|n: ModuleName| n@)
}

/// `base.attr`, spelled out.
pub open spec fn dotted(base: Seq<char>, attr: Seq<char>) -> Seq<char> {
    base.push('.') + attr
}

/// The position of the last dot of a name, or -1.
pub open spec fn last_dot(s: Seq<char>) -> int
    decreases s.len(),
{
    if s.len() == 0 {
        -1
    } else if s.last() == '.' {
        s.len() - 1
    } else {
        last_dot(s.drop_last())
    }
}

/// The positions of the dots of a name, from the last to the first.
pub open spec fn dots_from_last(s: Seq<char>) -> Seq<int>
    decreases s.len(),
{
    if s.len() == 0 {
        Seq::empty()
    } else if s.last() == '.' {
        seq![s.len() - 1] + dots_from_last(s.drop_last())
    } else {
        dots_from_last(s.drop_last())
    }
}

/// The characters of a text.
pub fn chars_of(s: &str) -> (res: Vec<char>)
    ensures
        res@ == s@,
{
    let mut res: Vec<char> = Vec::new();
    for c in it: s.chars()
        invariant
            it.seq() == s@,
            res@ == s@.take(it.index() as int),
    {
        res.push(c);
        proof {
            assert(s@.take(it.index() + 1) =~= s@.take(it.index() as int).push(c));
        }
    }
    proof {
        assert(s@.take(s@.len() as int) =~= s@);
    }
    res
}

/// The text that some of the characters spell.
pub fn string_of(chars: &Vec<char>, from: usize, to: usize) -> (res: String)
    requires
        from <= to <= chars@.len(),
    ensures
        res@ == chars@.subrange(from as int, to as int),
{
    let mut res = String::new();
    for i in from..to
        invariant
            from <= to <= chars@.len(),
            res@ == chars@.subrange(from as int, i as int),
    {
        res.push(chars[i]);
        proof {
            assert(chars@.subrange(from as int, i + 1) =~= chars@.subrange(from as int, i as int).push(
                chars@[i as int],
            ));
        }
    }
    res
}

impl ModuleName {
    pub fn from_string(text: String) -> (res: ModuleName)
        ensures
            res@ == text@,
    {
        ModuleName { text }
    }

    pub fn from_str(text: &str) -> (res: ModuleName)
        ensures
            res@ == text@,
    {
        ModuleName { text: text.to_owned() }
    }

    pub fn as_str(&self) -> (res: &str)
        ensures
            res@ == self@,
    {
        self.text.as_str()
    }

    pub fn as_string(&self) -> (res: &String)
        ensures
            res@ == self@,
    {
        &self.text
    }

    pub fn into_string(self) -> (res: String)
        ensures
            res@ == self@,
    {
        self.text
    }

    /// The empty name.
    pub fn empty() -> (res: ModuleName)
        ensures
            res@ == Seq::<char>::empty(),
    {
        ModuleName { text: String::new() }
    }

    pub fn same(&self, other: &ModuleName) -> (res: bool)
        ensures
            res == (self@ == other@),
    {
        self.text == other.text
    }

    /// `self.other`.
    pub fn append_str(&self, other: &str) -> (res: ModuleName)
        ensures
            res@ == dotted(self@, other@),
    {
        let mut text = self.text.clone();
        text.push('.');
        text.append(other);
        ModuleName { text }
    }
}

/// A text compared with a name spelled out.
pub fn str_eq(a: &str, b: &str) -> (res: bool)
    ensures
        res == (a@ == b@),
{
    a.to_owned() == b.to_owned()
}

/// One text comes before another: at the first character in which they differ its code point is
/// the smaller, or it is a proper beginning of the other.
pub open spec fn text_less(a: Seq<char>, b: Seq<char>) -> bool
    decreases a.len(),
{
    if b.len() == 0 {
        false
    } else if a.len() == 0 {
        true
    } else if a[0] != b[0] {
        (a[0] as int) < (b[0] as int)
    } else {
        text_less(a.skip(1), b.skip(1))
    }
}

/// Whether one text comes before another.
pub fn compare_text(a: &str, b: &str) -> (res: bool)
    ensures
        res == text_less(a@, b@),
{
    let x: Vec<char> = chars_of(a);
    let y: Vec<char> = chars_of(b);
    let mut i: usize = 0;
    proof {
        assert(x@.skip(0) =~= x@);
        assert(y@.skip(0) =~= y@);
    }
    while i < x.len() && i < y.len() && x[i] == y[i]
        invariant
            i <= x@.len(),
            i <= y@.len(),
            text_less(x@, y@) == text_less(x@.skip(i as int), y@.skip(i as int)),
        decreases x@.len() - i,
    {
        proof {
            assert(x@.skip(i as int).skip(1) =~= x@.skip(i + 1));
            assert(y@.skip(i as int).skip(1) =~= y@.skip(i + 1));
        }
        i = i + 1;
    }
    if i >= y.len() {
        false
    } else if i >= x.len() {
        true
    } else {
        let c: char = x[i];
        let d: char = y[i];
        c < d
    }
}

/// Of two different texts, one comes before the other, and not both ways round.
pub proof fn text_order_is_total(a: Seq<char>, b: Seq<char>)
    ensures
        a == b <==> !text_less(a, b) && !text_less(b, a),
        !(text_less(a, b) && text_less(b, a)),
    decreases a.len(),
{
    if a.len() > 0 && b.len() > 0 && a[0] == b[0] {
        text_order_is_total(a.skip(1), b.skip(1));
        assert(a =~= seq![a[0]] + a.skip(1));
        assert(b =~= seq![b[0]] + b.skip(1));
    } else if a.len() == 0 && b.len() == 0 {
        assert(a =~= b);
    } else if a.len() > 0 && b.len() > 0 {
        assert(a[0] as int != b[0] as int);
        assert(a != b);
    } else {
        assert(a.len() != b.len());
    }
}

/// The order of texts is transitive.
pub proof fn text_order_is_transitive(a: Seq<char>, b: Seq<char>, c: Seq<char>)
    requires
        text_less(a, b),
        text_less(b, c),
    ensures
        text_less(a, c),
    decreases a.len(),
{
    if a.len() > 0 && a[0] == b[0] && b[0] == c[0] {
        text_order_is_transitive(a.skip(1), b.skip(1), c.skip(1));
    }
}

/// The position of the first dot of a text, or -1.
pub open spec fn first_dot(s: Seq<char>) -> int
    decreases s.len(),
{
    if s.len() == 0 {
        -1
    } else if s[0] == '.' {
        0
    } else if first_dot(s.skip(1)) < 0 {
        -1
    } else {
        first_dot(s.skip(1)) + 1
    }
}

/// The first dot of a text is a place in it.
pub proof fn lemma_first_dot(s: Seq<char>)
    ensures
        -1 <= first_dot(s) < s.len(),
    decreases s.len(),
{
    if s.len() > 0 {
        lemma_first_dot(s.skip(1));
    }
}

/// What stands before the first dot of a text, where there is one.
pub fn before_first_dot(s: &str) -> (res: Option<String>)
    ensures
        match res {
            Some(t) => first_dot(s@) >= 0 && t@ == s@.take(first_dot(s@)),
            None => first_dot(s@) < 0,
        },
{
    let chars: Vec<char> = chars_of(s);
    proof {
        assert(s@.skip(0) =~= s@);
    }
    for i in 0..chars.len()
        invariant
            chars@ == s@,
            first_dot(s@) == (if first_dot(s@.skip(i as int)) < 0 {
                -1
            } else {
                first_dot(s@.skip(i as int)) + i
            }),
    {
        proof {
            assert(s@.skip(i as int).skip(1) =~= s@.skip(i + 1));
            assert(s@.skip(i as int)[0] == s@[i as int]);
        }
        if chars[i] == '.' {
            proof {
                assert(s@.subrange(0, i as int) =~= s@.take(i as int));
            }
            return Some(string_of(&chars, 0, i));
        }
    }
    None
}

/// What stands behind the first dot of a text, where there is one.
pub fn after_first_dot(s: &str) -> (res: Option<String>)
    ensures
        match res {
            Some(t) => first_dot(s@) >= 0 && t@ == s@.skip(first_dot(s@) + 1),
            None => first_dot(s@) < 0,
        },
{
    let chars: Vec<char> = chars_of(s);
    proof {
        assert(s@.skip(0) =~= s@);
    }
    for i in 0..chars.len()
        invariant
            chars@ == s@,
            first_dot(s@) == (if first_dot(s@.skip(i as int)) < 0 {
                -1
            } else {
                first_dot(s@.skip(i as int)) + i
            }),
    {
        proof {
            assert(s@.skip(i as int).skip(1) =~= s@.skip(i + 1));
            assert(s@.skip(i as int)[0] == s@[i as int]);
        }
        if chars[i] == '.' {
            proof {
                assert(s@.subrange(i + 1, s@.len() as int) =~= s@.skip(i + 1));
            }
            return Some(string_of(&chars, i + 1, chars.len()));
        }
    }
    None
}

/// A text without the pairs of brackets at its end.
pub open spec fn without_brackets(s: Seq<char>) -> Seq<char>
    decreases s.len(),
{
    if s.len() >= 2 && s[s.len() - 1] == ')' && s[s.len() - 2] == '(' {
        without_brackets(s.take(s.len() - 2))
    } else {
        s
    }
}

/// A text without the pairs of brackets at its end.
pub fn trim_brackets(s: &str) -> (res: String)
    ensures
        res@ == without_brackets(s@),
{
    let chars: Vec<char> = chars_of(s);
    let mut n: usize = chars.len();
    proof {
        assert(s@.take(n as int) =~= s@);
    }
    while n >= 2 && chars[n - 1] == ')' && chars[n - 2] == '('
        invariant
            n <= chars@.len(),
            chars@ == s@,
            without_brackets(s@) == without_brackets(s@.take(n as int)),
        decreases n,
    {
        proof {
            assert(s@.take(n as int).take(n - 2) =~= s@.take(n - 2));
            assert(s@.take(n as int)[n - 1] == s@[n - 1]);
            assert(s@.take(n as int)[n - 2] == s@[n - 2]);
        }
        n = n - 2;
    }
    proof {
        assert(s@.subrange(0, n as int) =~= s@.take(n as int));
    }
    string_of(&chars, 0, n)
}

/// One text ends with another.
pub open spec fn ends_with(s: Seq<char>, suffix: Seq<char>) -> bool {
    s.len() >= suffix.len() && s.skip(s.len() - suffix.len()) == suffix
}

/// One text begins with another.
pub open spec fn begins_with(s: Seq<char>, prefix: Seq<char>) -> bool {
    s.len() >= prefix.len() && s.take(prefix.len() as int) == prefix
}

/// What stands before a text at the end of another.
pub fn strip_suffix(s: &str, suffix: &str) -> (res: Option<String>)
    ensures
        match res {
            Some(t) => ends_with(s@, suffix@) && t@ == s@.take(s@.len() - suffix@.len()) && s@ == t@
                + suffix@,
            None => !ends_with(s@, suffix@),
        },
{
    let a: Vec<char> = chars_of(s);
    let b: Vec<char> = chars_of(suffix);
    if a.len() < b.len() {
        return None;
    }
    let start: usize = a.len() - b.len();
    for i in 0..b.len()
        invariant
            a@ == s@,
            b@ == suffix@,
            start == a@.len() - b@.len(),
            a@.len() <= usize::MAX,
            forall|j: int| 0 <= j < i ==> a@[start + j] == b@[j],
    {
        if a[start + i] != b[i] {
            proof {
                assert(s@.skip(start as int)[i as int] == a@[start + i]);
            }
            return None;
        }
    }
    proof {
        assert(s@.skip(start as int) =~= suffix@);
        assert(s@.subrange(0, start as int) =~= s@.take(start as int));
        assert(s@ =~= s@.take(start as int) + suffix@);
    }
    Some(string_of(&a, 0, start))
}

/// What stands behind a text at the beginning of another.
pub fn strip_prefix(s: &str, prefix: &str) -> (res: Option<String>)
    ensures
        match res {
            Some(t) => begins_with(s@, prefix@) && t@ == s@.skip(prefix@.len() as int) && s@ == prefix@ + t@,
            None => !begins_with(s@, prefix@),
        },
{
    let a: Vec<char> = chars_of(s);
    let b: Vec<char> = chars_of(prefix);
    if a.len() < b.len() {
        return None;
    }
    for i in 0..b.len()
        invariant
            a@ == s@,
            b@ == prefix@,
            b@.len() <= a@.len(),
            forall|j: int| 0 <= j < i ==> a@[j] == b@[j],
    {
        if a[i] != b[i] {
            proof {
                assert(s@.take(b@.len() as int)[i as int] == a@[i as int]);
            }
            return None;
        }
    }
    proof {
        assert(s@.take(b@.len() as int) =~= prefix@);
        assert(s@.subrange(b@.len() as int, a@.len() as int) =~= s@.skip(b@.len() as int));
        assert(s@ =~= prefix@ + s@.skip(b@.len() as int));
    }
    Some(string_of(&a, b.len(), a.len()))
}

/// Names in the order of their texts.
pub open spec fn in_text_order(s: Seq<Seq<char>>) -> bool {
    forall|i: int, j: int| 0 <= i < j < s.len() ==> !text_less(#[trigger] s[j], #[trigger] s[i])
}

/// Merges two lists of names, each in the order of its texts.
fn merge_sorted(a: &Vec<ModuleName>, b: &Vec<ModuleName>) -> (res: Vec<ModuleName>)
    requires
        in_text_order(texts(a@)),
        in_text_order(texts(b@)),
        a@.len() + b@.len() <= usize::MAX,
    ensures
        in_text_order(texts(res@)),
        texts(res@).to_multiset() == texts(a@).to_multiset().add(texts(b@).to_multiset()),
{
    let mut res: Vec<ModuleName> = Vec::new();
    let mut i: usize = 0;
    let mut j: usize = 0;
    let ghost x = texts(a@);
    let ghost y = texts(b@);
    proof {
        assert(x.take(0) =~= Seq::empty());
        assert(y.take(0) =~= Seq::empty());
        assert(texts(res@) =~= Seq::empty());
        Seq::<Seq<char>>::empty().to_multiset_ensures();
        assert(texts(res@).to_multiset() =~= x.take(0).to_multiset().add(y.take(0).to_multiset()));
    }
    while i < a.len() || j < b.len()
        invariant
            i <= a@.len(),
            j <= b@.len(),
            x == texts(a@),
            y == texts(b@),
            in_text_order(x),
            in_text_order(y),
            in_text_order(texts(res@)),
            forall|k: int, l: int|
                0 <= k < res@.len() && i <= l < x.len() ==> !text_less(
                    #[trigger] x[l],
                    #[trigger] texts(res@)[k],
                ),
            forall|k: int, l: int|
                0 <= k < res@.len() && j <= l < y.len() ==> !text_less(
                    #[trigger] y[l],
                    #[trigger] texts(res@)[k],
                ),
            texts(res@).to_multiset() == x.take(i as int).to_multiset().add(y.take(j as int).to_multiset()),
        decreases a@.len() - i + b@.len() - j,
    {
        let ghost before = texts(res@);
        let from_second = i >= a.len() || (j < b.len() && compare_text(b[j].as_str(), a[i].as_str()));
        if from_second {
            res.push(b[j].clone());
            proof {
                crate::name_set::lemma_take_more(y, j as int);
                assert(texts(res@) =~= before.push(y[j as int]));
                before.to_multiset_ensures();
                y.take(j as int).to_multiset_ensures();
                assert(texts(res@).to_multiset() =~= x.take(i as int).to_multiset().add(
                    y.take(j + 1).to_multiset(),
                ));
                assert forall|l: int| i <= l < x.len() implies !text_less(#[trigger] x[l], y[j as int]) by {
                    text_order_is_total(x[i as int], y[j as int]);
                    text_order_is_total(x[l], x[i as int]);
                    if text_less(x[l], y[j as int]) {
                        text_order_is_transitive(x[l], y[j as int], x[i as int]);
                    }
                }
            }
            j = j + 1;
        } else {
            res.push(a[i].clone());
            proof {
                crate::name_set::lemma_take_more(x, i as int);
                assert(texts(res@) =~= before.push(x[i as int]));
                before.to_multiset_ensures();
                x.take(i as int).to_multiset_ensures();
                assert(texts(res@).to_multiset() =~= x.take(i + 1).to_multiset().add(
                    y.take(j as int).to_multiset(),
                ));
                assert forall|l: int| j <= l < y.len() implies !text_less(#[trigger] y[l], x[i as int]) by {
                    if text_less(y[l], x[i as int]) {
                        text_order_is_total(y[j as int], y[l]);
                        if y[j as int] != y[l] {
                            text_order_is_transitive(y[j as int], y[l], x[i as int]);
                        }
                    }
                }
            }
            i = i + 1;
        }
    }
    proof {
        assert(x.take(x.len() as int) =~= x);
        assert(y.take(y.len() as int) =~= y);
    }
    res
}

/// The names from one position to another, in the order of their texts.
fn sort_part(names: &Vec<ModuleName>, from: usize, to: usize) -> (res: Vec<ModuleName>)
    requires
        from <= to <= names@.len(),
    ensures
        in_text_order(texts(res@)),
        texts(res@).to_multiset() == texts(names@).subrange(from as int, to as int).to_multiset(),
        res@.len() == to - from,
    decreases to - from,
{
    let ghost all = texts(names@);
    if to - from <= 1 {
        let mut res: Vec<ModuleName> = Vec::new();
        if from < to {
            res.push(names[from].clone());
        }
        proof {
            assert(texts(res@) =~= all.subrange(from as int, to as int));
        }
        return res;
    }
    let middle: usize = from + (to - from) / 2;
    let a = sort_part(names, from, middle);
    let b = sort_part(names, middle, to);
    let res = merge_sorted(&a, &b);
    proof {
        let x = all.subrange(from as int, middle as int);
        let y = all.subrange(middle as int, to as int);
        vstd::seq_lib::lemma_multiset_commutative(x, y);
        assert(x + y =~= all.subrange(from as int, to as int));
        texts(res@).to_multiset_ensures();
        all.subrange(from as int, to as int).to_multiset_ensures();
    }
    res
}

/// Names in the order of their texts.
pub fn sort_names(names: &Vec<ModuleName>) -> (res: Vec<ModuleName>)
    ensures
        in_text_order(texts(res@)),
        texts(res@).to_multiset() == texts(names@).to_multiset(),
        res@.len() == names@.len(),
{
    proof {
        assert(texts(names@).subrange(0, names@.len() as int) =~= texts(names@));
    }
    sort_part(names, 0, names.len())
}

/// A copy of a list of names.
pub fn clone_names(names: &Vec<ModuleName>) -> (res: Vec<ModuleName>)
    ensures
        texts(res@) == texts(names@),
        res@ == names@,
{
    let mut res: Vec<ModuleName> = Vec::new();
    for i in 0..names.len()
        invariant
            res@ == names@.take(i as int),
    {
        res.push(names[i].clone());
        proof {
            assert(names@.take(i + 1) =~= names@.take(i as int).push(names@[i as int]));
        }
    }
    proof {
        assert(names@.take(names@.len() as int) =~= names@);
    }
    res
}

/// Whether a list holds a name.
pub fn contains_name(names: &Vec<ModuleName>, name: &ModuleName) -> (res: bool)
    ensures
        res == texts(names@).contains(name@),
{
    for i in 0..names.len()
        invariant
            forall|j: int| 0 <= j < i ==> texts(names@)[j] != name@,
    {
        if names[i].same(name) {
            proof {
                assert(texts(names@)[i as int] == name@);
            }
            return true;
        }
    }
    false
}

/// Where the last dot stands.
pub proof fn lemma_last_dot(s: Seq<char>)
    ensures
        -1 <= last_dot(s) < s.len(),
        last_dot(s) == -1 ==> !s.contains('.'),
        last_dot(s) >= 0 ==> s[last_dot(s)] == '.',
        forall|i: int| last_dot(s) < i < s.len() ==> s[i] != '.',
    decreases s.len(),
{
    if s.len() > 0 && s.last() != '.' {
        lemma_last_dot(s.drop_last());
        assert forall|i: int| last_dot(s) < i < s.len() implies s[i] != '.' by {
            if i < s.len() - 1 {
                assert(s.drop_last()[i] == s[i]);
            }
        }
    }
}

/// A dot with none behind it is the last one.
pub proof fn lemma_last_dot_is(s: Seq<char>, d: int)
    requires
        0 <= d < s.len(),
        s[d] == '.',
        forall|i: int| d < i < s.len() ==> s[i] != '.',
    ensures
        last_dot(s) == d,
{
    lemma_last_dot(s);
}

/// The positions of the dots are those at which a dot stands, in falling order.
pub proof fn lemma_dots(s: Seq<char>)
    ensures
        forall|k: int|
            0 <= k < dots_from_last(s).len() ==> 0 <= #[trigger] dots_from_last(s)[k] < s.len()
                && s[dots_from_last(s)[k]] == '.',
        forall|k: int, l: int|
            0 <= k < l < dots_from_last(s).len() ==> dots_from_last(s)[k] > dots_from_last(s)[l],
        forall|d: int| 0 <= d < s.len() && s[d] == '.' ==> dots_from_last(s).contains(d),
    decreases s.len(),
{
    if s.len() > 0 {
        let rest = s.drop_last();
        lemma_dots(rest);
        let dots = dots_from_last(s);
        let fewer = dots_from_last(rest);
        if s.last() == '.' {
            assert forall|k: int| 0 <= k < dots.len() implies 0 <= #[trigger] dots[k] < s.len() && s[dots[k]]
                == '.' by {
                if k > 0 {
                    assert(dots[k] == fewer[k - 1]);
                }
            }
            assert forall|k: int, l: int| 0 <= k < l < dots.len() implies dots[k] > dots[l] by {
                assert(dots[l] == fewer[l - 1]);
                if k > 0 {
                    assert(dots[k] == fewer[k - 1]);
                }
            }
            assert forall|d: int| 0 <= d < s.len() && s[d] == '.' implies dots.contains(d) by {
                if d == s.len() - 1 {
                    assert(dots[0] == d);
                } else {
                    assert(rest[d] == '.');
                    let k = fewer.index_of(d);
                    assert(dots[k + 1] == d);
                }
            }
        } else {
            assert forall|d: int| 0 <= d < s.len() && s[d] == '.' implies dots.contains(d) by {
                assert(rest[d] == '.');
            }
        }
    }
}

/// The name that a parent is split off at a dot, and what follows that dot.
pub open spec fn split_at_dot(s: Seq<char>, d: int) -> (Seq<char>, Seq<char>) {
    (s.take(d), s.skip(d + 1))
}

/// The parent of a name: what stands before its last dot.
pub open spec fn parent_of(s: Seq<char>) -> Option<Seq<char>> {
    if last_dot(s) >= 0 {
        Some(s.take(last_dot(s)))
    } else {
        None
    }
}

/// The last component of a name: what stands behind its last dot.
pub open spec fn leaf_of(s: Seq<char>) -> Seq<char> {
    s.skip(last_dot(s) + 1)
}

/// Walks through the parents of a name, from the longest to the shortest.
pub struct ParentIter {
    parents: Vec<(ModuleName, String)>,
    index: usize,
}

impl ParentIter {
    /// The parents still to come, each with what follows it in the name.
    pub closed spec fn rest(&self) -> Seq<(Seq<char>, Seq<char>)> {
        Seq::new(
            (if self.index <= self.parents@.len() { self.parents@.len() - self.index } else { 0 }) as nat,
            |i: int| (self.parents@[self.index + i].0@, self.parents@[self.index + i].1@),
        )
    }

    /// The next parent, with the offset in bytes of the dot behind it.
    pub fn next(&mut self) -> (res: Option<(ModuleName, usize)>)
        ensures
            old(self).rest().len() == 0 ==> res is None && final(self).rest() == old(self).rest(),
            old(self).rest().len() > 0 ==> (res matches Some(p) && p.0@ == old(self).rest()[0].0 && p.1
                == vstd::utf8::encode_utf8(p.0@).len() as usize) && final(self).rest() == old(
                self,
            ).rest().skip(1),
    {
        if self.index >= self.parents.len() {
            proof {
                assert(self.rest() =~= old(self).rest());
            }
            return None;
        }
        let parent = self.parents[self.index].0.clone();
        self.index = self.index + 1;
        proof {
            assert(self.rest() =~= old(self).rest().skip(1));
        }
        let offset: usize = parent.as_str().len();
        Some((parent, offset))
    }
}

impl ModuleName {
    /// `self.other`.
    pub fn concat(&self, other: &ModuleName) -> (res: ModuleName)
        ensures
            res@ == dotted(self@, other@),
    {
        self.append_str(other.as_str())
    }

    /// The parents of the name, from the longest to the shortest, each with what follows the dot
    /// behind it.
    pub fn parent_splits(&self) -> (res: Vec<(ModuleName, String)>)
        ensures
            res@.len() == dots_from_last(self@).len(),
            forall|k: int|
                0 <= k < res@.len() ==> ((#[trigger] res@[k]).0@, res@[k].1@) == split_at_dot(
                    self@,
                    dots_from_last(self@)[k],
                ),
    {
        let chars: Vec<char> = chars_of(self.as_str());
        let n: usize = chars.len();
        let mut res: Vec<(ModuleName, String)> = Vec::new();
        let mut i: usize = n;
        proof {
            assert(self@.take(n as int) =~= self@);
        }
        while i > 0
            invariant
                i <= n,
                n == chars@.len(),
                chars@ == self@,
                res@.len() <= dots_from_last(self@).len(),
                dots_from_last(self@).skip(res@.len() as int) == dots_from_last(self@.take(i as int)),
                forall|k: int|
                    0 <= k < res@.len() ==> ((#[trigger] res@[k]).0@, res@[k].1@) == split_at_dot(
                        self@,
                        dots_from_last(self@)[k],
                    ),
            decreases i,
        {
            let ghost before = res@.len() as int;
            let ghost all = dots_from_last(self@);
            i = i - 1;
            proof {
                assert(self@.take(i + 1).drop_last() =~= self@.take(i as int));
                assert(self@.take(i + 1).last() == self@[i as int]);
            }
            if chars[i] == '.' {
                proof {
                    assert(all.skip(before).len() > 0);
                    assert(all.skip(before)[0] == i);
                    assert(all[before] == i);
                    assert(dots_from_last(self@.take(i as int)) =~= all.skip(before).skip(1));
                    assert(all.skip(before + 1) =~= all.skip(before).skip(1));
                    assert(self@.subrange(0, i as int) =~= self@.take(i as int));
                    assert(self@.subrange(i + 1, n as int) =~= self@.skip(i + 1));
                }
                let parent = ModuleName::from_string(string_of(&chars, 0, i));
                res.push((parent, string_of(&chars, i + 1, n)));
            }
        }
        proof {
            assert(dots_from_last(self@.take(0)) =~= Seq::empty());
        }
        res
    }

    /// Walks through the parents of the name, from the longest to the shortest.
    pub fn iter_parents(&self) -> (res: ParentIter)
        ensures
            res.rest() == Seq::new(
                dots_from_last(self@).len(),
                |k: int| split_at_dot(self@, dots_from_last(self@)[k]),
            ),
    {
        let res = ParentIter { parents: self.parent_splits(), index: 0 };
        proof {
            assert(res.rest() =~= Seq::new(
                dots_from_last(self@).len(),
                |k: int| split_at_dot(self@, dots_from_last(self@)[k]),
            ));
        }
        res
    }

    /// Splits the name at its last dot, where it has one.
    pub fn split_attr(&self) -> (res: Option<(ModuleName, String)>)
        ensures
            res is Some <==> last_dot(self@) >= 0,
            res matches Some(p) ==> p.0@ == self@.take(last_dot(self@)) && p.1@ == leaf_of(self@),
    {
        let chars: Vec<char> = chars_of(self.as_str());
        let n: usize = chars.len();
        let mut i: usize = n;
        proof {
            lemma_last_dot(self@);
        }
        while i > 0
            invariant
                i <= n,
                n == chars@.len(),
                chars@ == self@,
                forall|j: int| i <= j < n ==> chars@[j] != '.',
                -1 <= last_dot(self@) < self@.len(),
                last_dot(self@) >= 0 ==> self@[last_dot(self@)] == '.',
            decreases i,
        {
            i = i - 1;
            if chars[i] == '.' {
                proof {
                    lemma_last_dot_is(self@, i as int);
                    assert(self@.subrange(0, i as int) =~= self@.take(i as int));
                    assert(self@.subrange(i + 1, n as int) =~= self@.skip(i + 1));
                }
                let parent = ModuleName::from_string(string_of(&chars, 0, i));
                return Some((parent, string_of(&chars, i + 1, n)));
            }
        }
        None
    }

    /// The parent of the name, where it has one.
    pub fn parent(&self) -> (res: Option<ModuleName>)
        ensures
            match res {
                Some(p) => parent_of(self@) == Some(p@),
                None => parent_of(self@) is None,
            },
    {
        match self.split_attr() {
            Some((parent, _)) => Some(parent),
            None => None,
        }
    }

    /// The last component of the name.
    pub fn leaf(&self) -> (res: String)
        ensures
            res@ == leaf_of(self@),
    {
        match self.split_attr() {
            Some((_, leaf)) => leaf,
            None => {
                proof {
                    lemma_last_dot(self@);
                    assert(self@.skip(0) =~= self@);
                }
                self.as_string().clone()
            },
        }
    }
}

/// Gluing a parent and a leaf gives back the name that they were split from.
pub proof fn split_then_glue(s: Seq<char>)
    requires
        last_dot(s) >= 0,
    ensures
        dotted(s.take(last_dot(s)), leaf_of(s)) == s,
{
    lemma_last_dot(s);
    assert(dotted(s.take(last_dot(s)), leaf_of(s)) =~= s);
}

/// Splitting a glued name gives back its parts, where the leaf has no dot.
pub proof fn glue_then_split(base: Seq<char>, attr: Seq<char>)
    requires
        !attr.contains('.'),
    ensures
        last_dot(dotted(base, attr)) == base.len(),
        parent_of(dotted(base, attr)) == Some(base),
        leaf_of(dotted(base, attr)) == attr,
{
    let s = dotted(base, attr);
    assert(s[base.len() as int] == '.');
    assert forall|i: int| base.len() < i < s.len() implies s[i] != '.' by {
        assert(s[i] == attr[i - base.len() - 1]);
    }
    lemma_last_dot_is(s, base.len() as int);
    assert(s.take(base.len() as int) =~= base);
    assert(s.skip(base.len() as int + 1) =~= attr);
}

} // verus!
