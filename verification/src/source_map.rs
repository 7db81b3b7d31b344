//! Which files the modules of a project are in.

use crate::module_name::{
    chars_of, ends_with, leaf_of, optional_name, parent_of, str_eq, strip_suffix, ModuleName,
};
use crate::name_map::NameMap;
use crate::name_set::NameSet;
use crate::text::{join, joined, strings};
use vstd::prelude::*;
use vstd::string::*;

verus! {

/// The pieces of a text between the places where a character stands.
pub open spec fn pieces(text: Seq<char>, sep: char) -> Seq<Seq<char>>
    decreases text.len(),
{
    if text.len() == 0 {
        seq![Seq::empty()]
    } else {
        let before = pieces(text.drop_last(), sep);
        if text.last() == sep {
            before.push(Seq::empty())
        } else {
            before.drop_last().push(before.last().push(text.last()))
        }
    }
}

/// The pieces of a text between the places where a character stands.
pub fn split(text: &str, sep: char) -> (res: Vec<String>)
    ensures
        strings(res@) == pieces(text@, sep),
        res@.len() > 0,
{
    let chars = chars_of(text);
    let mut res: Vec<String> = Vec::new();
    let mut current = String::new();
    proof {
        assert(text@.take(0) =~= Seq::empty());
        assert(strings(res@).push(current@) =~= seq![Seq::<char>::empty()]);
    }
    for i in 0..chars.len()
        invariant
            chars@ == text@,
            strings(res@).push(current@) == pieces(text@.take(i as int), sep),
    {
        let ghost before = strings(res@);
        let ghost piece = current@;
        proof {
            assert(text@.take(i + 1).drop_last() =~= text@.take(i as int));
            assert(text@.take(i + 1).last() == text@[i as int]);
            assert(before.push(piece).drop_last() =~= before);
        }
        if chars[i] == sep {
            res.push(current);
            current = String::new();
            proof {
                assert(strings(res@) =~= before.push(piece));
            }
        } else {
            current.push(chars[i]);
        }
    }
    let ghost before = strings(res@);
    let ghost piece = current@;
    res.push(current);
    proof {
        assert(text@.take(text@.len() as int) =~= text@);
        assert(strings(res@) =~= before.push(piece));
    }
    res
}

/// The first `n` pieces of a path that are names.
pub open spec fn path_names(parts: Seq<Seq<char>>, n: int) -> Seq<Seq<char>>
    decreases n,
{
    if n <= 0 {
        Seq::empty()
    } else {
        let before = path_names(parts, n - 1);
        if parts[n - 1].len() == 0 || parts[n - 1] == "."@ {
            before
        } else {
            before.push(parts[n - 1])
        }
    }
}

/// The name of the file that a path leads to: the last of the names in it. A path that ends in a step
/// up leads to none.
pub open spec fn file_name(path: Seq<char>) -> Option<Seq<char>> {
    let parts = pieces(path, '/');
    let names = path_names(parts, parts.len() as int);
    if names.len() == 0 || names.last() == ".."@ {
        None
    } else {
        Some(names.last())
    }
}

/// A path is that of a Python source file.
pub open spec fn names_python_file(path: Seq<char>) -> bool {
    match file_name(path) {
        Some(name) => ends_with(name, ".py"@) && name.len() > 3,
        None => false,
    }
}

/// The name of the file that a path leads to.
fn last_name(path: &str) -> (res: Option<String>)
    ensures
        (match res {
            Some(name) => Some(name@),
            None => None,
        }) == file_name(path@),
{
    let parts = split(path, '/');
    let ghost all = strings(parts@);
    let mut last: Option<usize> = None;
    for i in 0..parts.len()
        invariant
            all == strings(parts@),
            match last {
                Some(k) => k < i && path_names(all, i as int).len() > 0 && path_names(all, i as int).last()
                    == parts@[k as int]@,
                None => path_names(all, i as int).len() == 0,
            },
    {
        proof {
            assert(all[i as int] == parts@[i as int]@);
        }
        let part = parts[i].as_str();
        if !part.is_empty() && !str_eq(part, ".") {
            last = Some(i);
        }
    }
    match last {
        Some(k) => if str_eq(parts[k].as_str(), "..") {
            None
        } else {
            Some(parts[k].clone())
        },
        None => None,
    }
}

/// Whether a path is that of a Python source file.
pub fn is_python_file(path: &str) -> (res: bool)
    ensures
        res == names_python_file(path@),
{
    let name = match last_name(path) {
        Some(name) => name,
        None => {
            return false;
        },
    };
    match strip_suffix(name.as_str(), ".py") {
        Some(stem) => {
            proof {
                reveal_strlit(".py");
                assert(name@ == stem@ + ".py"@);
            }
            !stem.as_str().is_empty()
        },
        None => false,
    }
}

/// Whether a path is that of the file of a package.
fn is_init_file(path: &str) -> (res: bool)
    ensures
        res == (file_name(path@) == Some("__init__.py"@)),
{
    match last_name(path) {
        Some(name) => str_eq(name.as_str(), "__init__.py"),
        None => false,
    }
}

/// A character can begin a name of Python.
pub open spec fn begins_name(c: char) -> bool {
    ('a' as int <= c as int <= 'z' as int) || ('A' as int <= c as int <= 'Z' as int) || c == '_'
}

/// A character can go on in a name of Python.
pub open spec fn continues_name(c: char) -> bool {
    begins_name(c) || ('0' as int <= c as int <= '9' as int)
}

/// A text is a name of Python that needs no more than ASCII.
pub open spec fn is_identifier(name: Seq<char>) -> bool {
    name.len() > 0 && begins_name(name[0]) && forall|i: int|
        0 <= i < name.len() ==> continues_name(#[trigger] name[i])
}

fn can_begin(c: char) -> (res: bool)
    ensures
        res == begins_name(c),
{
    ('a' <= c && c <= 'z') || ('A' <= c && c <= 'Z') || c == '_'
}

/// Whether a text can be a part of the name of a module.
pub fn is_valid_python_identifier(name: &str) -> (res: bool)
    ensures
        res == is_identifier(name@),
{
    let chars = chars_of(name);
    if chars.len() == 0 || !can_begin(chars[0]) {
        return false;
    }
    for i in 0..chars.len()
        invariant
            chars@ == name@,
            forall|j: int| 0 <= j < i ==> continues_name(#[trigger] name@[j]),
    {
        let c = chars[i];
        if !(can_begin(c) || ('0' <= c && c <= '9')) {
            proof {
                assert(!continues_name(name@[i as int]));
            }
            return false;
        }
    }
    true
}

/// A path has no extension by which it could be told what is in the file.
#[derive(Debug, PartialEq, Eq, Structural, Copy, Clone)]
pub struct UnrecognizedExtension;

/// Which of several files of a module counts: stubs before sources, packages before other files.
/// The smaller number counts.
pub open spec fn priority(path: Seq<char>) -> Option<u8> {
    if ends_with(path, "__init__.pyi"@) {
        Some(0)
    } else if ends_with(path, ".pyi"@) {
        Some(1)
    } else if ends_with(path, "__init__.py"@) {
        Some(2)
    } else if ends_with(path, ".py"@) {
        Some(3)
    } else {
        None
    }
}

/// Which of several files of a module counts.
pub fn source_priority(path: &str) -> (res: Result<u8, UnrecognizedExtension>)
    ensures
        match res {
            Ok(p) => priority(path@) == Some(p),
            Err(_) => priority(path@) is None,
        },
{
    if strip_suffix(path, "__init__.pyi").is_some() {
        Ok(0)
    } else if strip_suffix(path, ".pyi").is_some() {
        Ok(1)
    } else if strip_suffix(path, "__init__.py").is_some() {
        Ok(2)
    } else if strip_suffix(path, ".py").is_some() {
        Ok(3)
    } else {
        Err(UnrecognizedExtension)
    }
}

/// A path leads down from where it starts.
pub open spec fn leads_down(parts: Seq<Seq<char>>) -> bool {
    &&& !(parts.len() > 1 && parts[0].len() == 0)
    &&& parts[0] != "."@
    &&& forall|i: int| 0 <= i < parts.len() ==> #[trigger] parts[i] != ".."@
}

/// The module whose sources are in the file of the given name, in some directories. A package is
/// the directory that its file is in.
pub open spec fn module_in(names: Seq<Seq<char>>) -> Option<Seq<char>> {
    if names.len() == 0 {
        Some(Seq::empty())
    } else {
        match parent_of(names.last()) {
            None => None,
            Some(stem) => if leaf_of(names.last()) != "py"@ && leaf_of(names.last()) != "pyi"@ {
                None
            } else if stem == "__init__"@ {
                Some(joined(names.drop_last(), "."@))
            } else {
                Some(joined(names.drop_last().push(stem), "."@))
            },
        }
    }
}

/// The module that a relative path is the file of.
pub open spec fn module_of_path(path: Seq<char>) -> Option<Seq<char>> {
    let parts = pieces(path, '/');
    if leads_down(parts) {
        module_in(path_names(parts, parts.len() as int))
    } else {
        None
    }
}

impl ModuleName {
    /// The module that a relative path is the file of.
    pub fn from_relative_path(path: &str) -> (res: Option<ModuleName>)
        ensures
            optional_name(res) == module_of_path(path@),
    {
        let parts = split(path, '/');
        let ghost all = strings(parts@);
        proof {
            assert(all[0] == parts@[0]@);
        }
        if parts.len() > 1 && parts[0].as_str().is_empty() {
            return None;
        }
        if str_eq(parts[0].as_str(), ".") {
            return None;
        }
        let mut names: Vec<String> = Vec::new();
        proof {
            assert(strings(names@) =~= Seq::empty());
        }
        for i in 0..parts.len()
            invariant
                all == strings(parts@),
                all == pieces(path@, '/'),
                strings(names@) == path_names(all, i as int),
                forall|j: int| 0 <= j < i ==> #[trigger] all[j] != ".."@,
        {
            let part = parts[i].as_str();
            let ghost before = strings(names@);
            proof {
                assert(all[i as int] == part@);
            }
            if str_eq(part, "..") {
                return None;
            }
            if !part.is_empty() && !str_eq(part, ".") {
                names.push(parts[i].clone());
                proof {
                    assert(strings(names@) =~= before.push(part@));
                }
            }
        }
        let ghost kept = strings(names@);
        let file = match names.pop() {
            Some(file) => file,
            None => {
                return Some(ModuleName::empty());
            },
        };
        proof {
            assert(kept.last() == file@);
            assert(strings(names@) =~= kept.drop_last());
        }
        let (stem, extension) = match ModuleName::from_string(file).split_attr() {
            Some(halves) => halves,
            None => {
                return None;
            },
        };
        if !str_eq(extension.as_str(), "py") && !str_eq(extension.as_str(), "pyi") {
            return None;
        }
        if !str_eq(stem.as_str(), "__init__") {
            let ghost dirs = strings(names@);
            let text = stem.into_string();
            let ghost last = text@;
            names.push(text);
            proof {
                assert(strings(names@) =~= dirs.push(last));
            }
        }
        Some(ModuleName::from_string(join(&names, ".")))
    }
}

/// A file that is listed for a project: the path that the module is named by, and that of the file.
pub struct ListedFile {
    pub relative_path: String,
    pub full_path: String,
}

/// The module that a listed file is of, and which of several files of the module it is.
pub open spec fn listed_for(f: ListedFile) -> Option<(Seq<char>, u8)> {
    if !names_python_file(f.full_path@) {
        None
    } else {
        match (module_of_path(f.relative_path@), priority(f.full_path@)) {
            (Some(module), Some(p)) => Some((module, p)),
            _ => None,
        }
    }
}

/// The file of a module among the first `n` that are listed: the first of those that count most.
pub open spec fn file_of(files: Seq<ListedFile>, module: Seq<char>, n: int) -> Option<int>
    decreases n,
{
    if n <= 0 {
        None
    } else {
        let before = file_of(files, module, n - 1);
        match listed_for(files[n - 1]) {
            Some((m, p)) => if m == module && !(before matches Some(i) && priority_at(files, i) <= p) {
                Some(n - 1)
            } else {
                before
            },
            None => before,
        }
    }
}

/// Which of several files of its module a listed file is.
pub open spec fn priority_at(files: Seq<ListedFile>, i: int) -> int {
    match listed_for(files[i]) {
        Some((_, p)) => p as int,
        None => 0,
    }
}

/// The file of a module is one that is listed for it; no other that is counts more, and no earlier
/// one as much.
pub proof fn file_counts_most(files: Seq<ListedFile>, module: Seq<char>, n: int)
    requires
        0 <= n <= files.len(),
    ensures
        match file_of(files, module, n) {
            Some(i) => 0 <= i < n && (listed_for(files[i]) matches Some(e) && e.0 == module) && forall|j: int|
                0 <= j < n && (listed_for(#[trigger] files[j]) matches Some(e) && e.0 == module)
                    ==> priority_at(files, i) < priority_at(files, j) || (priority_at(files, i)
                    == priority_at(files, j) && i <= j),
            None => forall|j: int|
                0 <= j < n ==> !(listed_for(#[trigger] files[j]) matches Some(e) && e.0 == module),
        },
    decreases n,
{
    if n > 0 {
        file_counts_most(files, module, n - 1);
    }
}

/// Finds the file of each module. Files that are no Python sources are passed over.
pub fn resolve_source_map(files: &Vec<ListedFile>) -> (res: NameMap<String>)
    ensures
        forall|m: Seq<char>| #[trigger]
            res@.contains_key(m) <==> file_of(files@, m, files@.len() as int) is Some,
        forall|m: Seq<char>| #[trigger]
            res@.contains_key(m) ==> res@[m]@ == files@[file_of(
                files@,
                m,
                files@.len() as int,
            )->0].full_path@,
{
    let mut res: NameMap<String> = NameMap::new();
    let mut priorities: NameMap<u8> = NameMap::new();
    for i in 0..files.len()
        invariant
            forall|m: Seq<char>| #[trigger]
                res@.contains_key(m) <==> file_of(files@, m, i as int) is Some,
            forall|m: Seq<char>| #[trigger]
                res@.contains_key(m) ==> res@[m]@ == files@[file_of(files@, m, i as int)->0].full_path@,
            forall|m: Seq<char>| #[trigger]
                priorities@.contains_key(m) <==> file_of(files@, m, i as int) is Some,
            forall|m: Seq<char>| #[trigger]
                priorities@.contains_key(m) ==> priorities@[m] == priority_at(
                    files@,
                    file_of(files@, m, i as int)->0,
                ),
    {
        let file = &files[i];
        let ghost res0 = res@;
        let ghost priorities0 = priorities@;
        if is_python_file(file.full_path.as_str()) {
            if let Some(module) = ModuleName::from_relative_path(file.relative_path.as_str()) {
                if let Ok(p) = source_priority(file.full_path.as_str()) {
                    let dominated = match priorities.get(&module) {
                        Some(known) => *known <= p,
                        None => false,
                    };
                    if !dominated {
                        let _ = priorities.insert(module.clone(), p);
                        let _ = res.insert(module, file.full_path.clone());
                    }
                }
            }
        }
        proof {
            assert forall|m: Seq<char>| #[trigger]
                res@.contains_key(m) <==> file_of(files@, m, i + 1) is Some by {
                assert(res0.contains_key(m) <==> file_of(files@, m, i as int) is Some);
                assert(priorities0.contains_key(m) <==> file_of(files@, m, i as int) is Some);
            }
            assert forall|m: Seq<char>| #[trigger]
                priorities@.contains_key(m) <==> file_of(files@, m, i + 1) is Some by {
                assert(priorities0.contains_key(m) <==> file_of(files@, m, i as int) is Some);
            }
            assert forall|m: Seq<char>| #[trigger] res@.contains_key(m) implies res@[m]@ == files@[file_of(
                files@,
                m,
                i + 1,
            )->0].full_path@ by {
                assert(res0.contains_key(m) <==> file_of(files@, m, i as int) is Some);
                assert(priorities0.contains_key(m) <==> file_of(files@, m, i as int) is Some);
            }
            assert forall|m: Seq<char>| #[trigger] priorities@.contains_key(m) implies priorities@[m]
                == priority_at(files@, file_of(files@, m, i + 1)->0) by {
                assert(priorities0.contains_key(m) <==> file_of(files@, m, i as int) is Some);
            }
        }
    }
    res
}

/// What is known of a module before its file is read.
pub struct SourceInfo {
    pub is_stub: bool,
    /// The module is the `__init__` of a package.
    pub is_init: bool,
    /// The file. A stub that comes with the analysis has none.
    pub path: Option<String>,
}

/// What a [`SourceInfo`] is.
pub struct InfoView {
    pub is_stub: bool,
    pub is_init: bool,
    pub path: Option<Seq<char>>,
}

impl DeepView for SourceInfo {
    type V = InfoView;

    open spec fn deep_view(&self) -> InfoView {
        InfoView {
            is_stub: self.is_stub,
            is_init: self.is_init,
            path: crate::module_name::optional_text(self.path),
        }
    }
}

/// What is known of a module with a file, or with a stub that comes with the analysis. The stub
/// stands in the place of the file.
pub open spec fn info_of(
    files: Map<Seq<char>, Seq<char>>,
    stubs: Set<Seq<char>>,
) -> Map<Seq<char>, InfoView> {
    Map::new(
        |m: Seq<char>| files.contains_key(m) || stubs.contains(m),
        |m: Seq<char>|
            if stubs.contains(m) {
                InfoView { is_stub: true, is_init: false, path: None }
            } else {
                InfoView {
                    is_stub: false,
                    is_init: file_name(files[m]) == Some("__init__.py"@),
                    path: Some(files[m]),
                }
            },
    )
}

/// Collects what is known of modules before their files are read. Next to it stand the modules
/// whose files stubs stand in the place of.
pub fn make_source_info_map(files: &NameMap<String>, stubs: &NameSet) -> (res: (NameMap<SourceInfo>, NameSet))
    ensures
        res.0.deep_view() == info_of(files.deep_view(), stubs@),
        res.1@ == files.deep_view().dom().intersect(stubs@),
{
    let mut info: NameMap<SourceInfo> = NameMap::new();
    let mut overridden = NameSet::new();
    let n: usize = files.len();
    let ghost keys = files.keys();
    let ghost all = files.deep_view();
    proof {
        assert(info.deep_view() =~= info_of(all.restrict(keys.take(0).to_set()), Set::empty()));
    }
    for i in 0..n
        invariant
            n == keys.len(),
            keys == files.keys(),
            files.ordered(),
            all == files.deep_view(),
            info.deep_view() == info_of(all.restrict(keys.take(i as int).to_set()), Set::empty()),
    {
        let path = files.value_at(i);
        let ghost before = info.deep_view();
        let ghost k = keys[i as int];
        let entry = SourceInfo {
            is_stub: false,
            is_init: is_init_file(path.as_str()),
            path: Some(path.clone()),
        };
        let ghost view = entry.deep_view();
        let _ = info.insert(files.key_at(i).clone(), entry);
        proof {
            crate::name_set::lemma_take_more(keys, i as int);
            assert(all.contains_key(k));
            assert(info.deep_view() =~= before.insert(k, view));
            assert(info.deep_view() =~= info_of(all.restrict(keys.take(i + 1).to_set()), Set::empty()));
        }
    }
    let m: usize = stubs.len();
    let ghost items = stubs.items();
    proof {
        assert(keys.take(keys.len() as int) =~= keys);
        assert(keys.to_set() =~= all.dom());
        assert(all.restrict(keys.to_set()) =~= all);
        assert(items.take(0).to_set() =~= Set::empty());
        assert(overridden@ =~= all.dom().intersect(items.take(0).to_set()));
    }
    for j in 0..m
        invariant
            m == items.len(),
            items == stubs.items(),
            all == files.deep_view(),
            info.deep_view() == info_of(all, items.take(j as int).to_set()),
            overridden@ == all.dom().intersect(items.take(j as int).to_set()),
    {
        let name = stubs.at(j);
        let ghost before = info.deep_view();
        let ghost k = items[j as int];
        if files.contains_key(&name) {
            let _ = overridden.insert(name.clone());
        }
        let entry = SourceInfo { is_stub: true, is_init: false, path: None };
        let ghost view = entry.deep_view();
        let _ = info.insert(name, entry);
        proof {
            crate::name_set::lemma_take_more(items, j as int);
            assert(info.deep_view() =~= before.insert(k, view));
            assert(info.deep_view() =~= info_of(all, items.take(j + 1).to_set()));
            assert(overridden@ =~= all.dom().intersect(items.take(j + 1).to_set()));
        }
    }
    proof {
        assert(items.take(items.len() as int) =~= items);
        assert(items.to_set() =~= stubs@);
    }
    (info, overridden)
}

/// How the files of a project are listed.
#[derive(Debug, PartialEq, Eq, Structural, Copy, Clone)]
pub enum SourceDbFormat {
    /// Under one name.
    BuildMap,
    /// Under two names, one for the sources and one for what they depend on.
    SourcesAndDependencies,
    /// By themselves.
    Flat,
}

/// Some bytes stand at a place of others.
pub open spec fn stands_at(bytes: Seq<u8>, word: Seq<u8>, i: int) -> bool {
    0 <= i <= bytes.len() - word.len() && bytes.subrange(i, i + word.len()) == word
}

/// Some bytes stand somewhere in others.
pub open spec fn stands_in(bytes: Seq<u8>, word: Seq<u8>) -> bool {
    exists|i: int| #[trigger] stands_at(bytes, word, i)
}

/// The bytes of `"build_map"`, with its quotes.
pub open spec fn build_map_word() -> Seq<u8> {
    seq![34u8, 98, 117, 105, 108, 100, 95, 109, 97, 112, 34]
}

/// The bytes of `"sources"`, with its quotes.
pub open spec fn sources_word() -> Seq<u8> {
    seq![34u8, 115, 111, 117, 114, 99, 101, 115, 34]
}

/// The part of a text by which it is told how it lists files: its first two hundred bytes, or all of
/// it where these end inside of a character.
pub open spec fn telling_part(bytes: Seq<u8>) -> Seq<u8> {
    if bytes.len() > 200 && !(128 <= bytes[200] < 192) {
        bytes.take(200)
    } else {
        bytes
    }
}

/// How a text lists files.
pub open spec fn format_of(bytes: Seq<u8>) -> SourceDbFormat {
    if stands_in(telling_part(bytes), build_map_word()) {
        SourceDbFormat::BuildMap
    } else if stands_in(telling_part(bytes), sources_word()) {
        SourceDbFormat::SourcesAndDependencies
    } else {
        SourceDbFormat::Flat
    }
}

/// Whether some bytes stand in the first `end` of others.
pub fn find_word(bytes: &[u8], end: usize, word: &[u8]) -> (res: bool)
    requires
        end <= bytes@.len(),
    ensures
        res == stands_in(bytes@.take(end as int), word@),
{
    let ghost part = bytes@.take(end as int);
    if word.len() > end {
        return false;
    }
    let last: usize = end - word.len();
    let mut i: usize = 0;
    while i <= last
        invariant
            end <= bytes@.len(),
            part == bytes@.take(end as int),
            last == end - word@.len(),
            i <= last + 1,
            forall|j: int| 0 <= j < i ==> !#[trigger] stands_at(part, word@, j),
        decreases last + 1 - i,
    {
        let mut k: usize = 0;
        while k < word.len() && bytes[i + k] == word[k]
            invariant
                end <= bytes@.len(),
                part == bytes@.take(end as int),
                last == end - word@.len(),
                i <= last,
                k <= word@.len(),
                forall|x: int| 0 <= x < k ==> part[i + x] == #[trigger] word@[x],
            decreases word@.len() - k,
        {
            k = k + 1;
        }
        if k == word.len() {
            proof {
                assert(part.subrange(i as int, i + word@.len()) =~= word@);
                assert(stands_at(part, word@, i as int));
            }
            return true;
        }
        proof {
            assert(!stands_at(part, word@, i as int)) by {
                if stands_at(part, word@, i as int) {
                    assert(part.subrange(i as int, i + word@.len())[k as int] == word@[k as int]);
                }
            }
        }
        if i == last {
            return false;
        }
        i = i + 1;
    }
    false
}

/// Tells how a text lists files.
pub fn source_db_format(content: &str) -> (res: SourceDbFormat)
    ensures
        res == format_of(vstd::utf8::encode_utf8(content@)),
{
    let bytes = content.as_bytes();
    let end: usize = if bytes.len() > 200 && !(128 <= bytes[200] && bytes[200] < 192) {
        200
    } else {
        bytes.len()
    };
    let build_map: Vec<u8> = vec![34u8, 98, 117, 105, 108, 100, 95, 109, 97, 112, 34];
    let sources: Vec<u8> = vec![34u8, 115, 111, 117, 114, 99, 101, 115, 34];
    proof {
        assert(build_map@ =~= build_map_word());
        assert(sources@ =~= sources_word());
        assert(bytes@.take(bytes@.len() as int) =~= bytes@);
        assert(bytes@ == vstd::utf8::encode_utf8(content@));
    }
    if find_word(bytes, end, build_map.as_slice()) {
        SourceDbFormat::BuildMap
    } else if find_word(bytes, end, sources.as_slice()) {
        SourceDbFormat::SourcesAndDependencies
    } else {
        SourceDbFormat::Flat
    }
}

/// What is listed: the path that names the module, and where the file is.
pub open spec fn listing(files: Seq<ListedFile>) -> Seq<(Seq<char>, Seq<char>)> {
    files.map_values(|f: ListedFile| (f.relative_path@, f.full_path@))
}

/// A path is not among those that are listed.
pub open spec fn not_listed(files: Seq<(Seq<char>, Seq<char>)>) -> spec_fn((Seq<char>, Seq<char>)) -> bool {
    |f: (Seq<char>, Seq<char>)| !paths_of(files).contains(f.0)
}

/// The paths that are listed.
pub open spec fn paths_of(files: Seq<(Seq<char>, Seq<char>)>) -> Seq<Seq<char>> {
    files.map_values(|f: (Seq<char>, Seq<char>)| f.0)
}

/// Brings together the files of a project and those that it depends on. Where both list a path, the
/// file of the project counts.
pub fn sources_over_dependencies(sources: Vec<ListedFile>, dependencies: &Vec<ListedFile>) -> (res: Vec<
    ListedFile,
>)
    ensures
        listing(res@) == listing(dependencies@).filter(not_listed(listing(sources@))) + listing(sources@),
{
    let ghost own = listing(sources@);
    let ghost all = listing(dependencies@);
    let ghost pred = not_listed(own);
    let mut paths = NameSet::new();
    proof {
        assert(paths_of(own).take(0).to_set() =~= Set::empty());
    }
    for i in 0..sources.len()
        invariant
            own == listing(sources@),
            paths@ == paths_of(own).take(i as int).to_set(),
    {
        let _ = paths.insert(ModuleName::from_str(sources[i].relative_path.as_str()));
        proof {
            crate::name_set::lemma_take_more(paths_of(own), i as int);
        }
    }
    proof {
        assert(paths_of(own).take(own.len() as int) =~= paths_of(own));
    }
    let mut res: Vec<ListedFile> = Vec::new();
    proof {
        reveal(Seq::filter);
        assert(all.take(0) =~= Seq::empty());
        assert(listing(res@) =~= all.take(0).filter(pred));
    }
    for i in 0..dependencies.len()
        invariant
            all == listing(dependencies@),
            pred == not_listed(own),
            paths@ == paths_of(own).to_set(),
            listing(res@) == all.take(i as int).filter(pred),
    {
        let file = &dependencies[i];
        let ghost before = listing(res@);
        proof {
            reveal(Seq::filter);
            assert(all.take(i + 1).drop_last() =~= all.take(i as int));
            assert(all.take(i + 1).last() == all[i as int]);
            assert(paths_of(own).to_set().contains(file.relative_path@) <==> paths_of(own).contains(
                file.relative_path@,
            ));
        }
        if !paths.contains_str(file.relative_path.as_str()) {
            res.push(
                ListedFile { relative_path: file.relative_path.clone(), full_path: file.full_path.clone() },
            );
            proof {
                assert(listing(res@) =~= before.push(all[i as int]));
            }
        }
    }
    let mut more = sources;
    let ghost kept = listing(res@);
    proof {
        assert(all.take(all.len() as int) =~= all);
    }
    res.append(&mut more);
    proof {
        assert(listing(res@) =~= kept + own);
    }
    res
}

} // verus!
