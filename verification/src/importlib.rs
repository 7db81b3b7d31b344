//! Names of modules that are relative to others, and imports by calls of `import_module`.

use crate::ast::{Arguments, Expression, Keyword, Node};
use crate::module_name::{chars_of, dotted, optional_name, parent_of, str_eq, string_of, ModuleName};
use vstd::prelude::*;
use vstd::string::*;

verus! {

/// A name without its last `k` components. Nothing where it has fewer.
pub open spec fn without_last(name: Seq<char>, k: nat) -> Option<Seq<char>>
    decreases k,
{
    if k == 0 {
        Some(name)
    } else if name.len() == 0 {
        None
    } else {
        match parent_of(name) {
            Some(parent) => without_last(parent, (k - 1) as nat),
            None => without_last(Seq::empty(), (k - 1) as nat),
        }
    }
}

/// A name inside of a module, or by itself where there is no module.
pub open spec fn within(module: Seq<char>, name: Seq<char>) -> Seq<char> {
    if module.len() == 0 {
        name
    } else {
        dotted(module, name)
    }
}

/// The module that a relative name denotes in a module: each dot before it stands for one package
/// up, but in a package the first dot stands for the package itself. Without a dot the name is
/// not relative.
pub open spec fn relative_name(module: Seq<char>, is_init: bool, dots: nat, suffix: Option<Seq<char>>) -> Option<
    Seq<char>,
> {
    if dots == 0 {
        Some(
            match suffix {
                Some(name) => name,
                None => Seq::empty(),
            },
        )
    } else {
        match without_last(
            module,
            if is_init {
                (dots - 1) as nat
            } else {
                dots
            },
        ) {
            Some(base) => Some(
                match suffix {
                    Some(name) => within(base, name),
                    None => base,
                },
            ),
            None => None,
        }
    }
}

/// What an optional text is.
pub open spec fn opt_text(text: Option<&str>) -> Option<Seq<char>> {
    match text {
        Some(t) => Some(t@),
        None => None,
    }
}

/// A name inside of a module, or by itself where there is no module.
pub fn name_within(module: &ModuleName, name: &str) -> (res: ModuleName)
    ensures
        res@ == within(module@, name@),
{
    if module.as_str().is_empty() {
        ModuleName::from_str(name)
    } else {
        module.append_str(name)
    }
}

impl ModuleName {
    /// The module that a relative name denotes in this module.
    pub fn new_maybe_relative(&self, is_init: bool, dots: usize, suffix: Option<&str>) -> (res: Option<ModuleName>)
        ensures
            optional_name(res) == relative_name(self@, is_init, dots as nat, opt_text(suffix)),
    {
        if dots == 0 {
            return Some(
                match suffix {
                    Some(name) => ModuleName::from_str(name),
                    None => ModuleName::empty(),
                },
            );
        }
        let mut left: usize = if is_init {
            dots - 1
        } else {
            dots
        };
        let ghost up = left as nat;
        let mut base: ModuleName = self.clone();
        while left > 0
            invariant
                without_last(self@, up) == without_last(base@, left as nat),
                dots > 0,
                up == (if is_init {
                    (dots - 1) as nat
                } else {
                    dots as nat
                }),
            decreases left,
        {
            if base.as_str().is_empty() {
                return None;
            }
            base = match base.parent() {
                Some(parent) => parent,
                None => ModuleName::empty(),
            };
            left = left - 1;
        }
        Some(
            match suffix {
                Some(name) => name_within(&base, name),
                None => base,
            },
        )
    }
}

/// How many dots a text begins with.
pub open spec fn leading_dots(text: Seq<char>) -> nat
    decreases text.len(),
{
    if text.len() > 0 && text[0] == '.' {
        1 + leading_dots(text.skip(1))
    } else {
        0
    }
}

/// The module that `import_module` imports by a relative name and a package. A name that begins
/// with no dot is not relative.
pub open spec fn relative_to_package(name: Seq<char>, package: Seq<char>) -> Option<Seq<char>> {
    let dots = leading_dots(name);
    let suffix = name.skip(dots as int);
    if dots == 0 {
        None
    } else if dots == 1 {
        Some(dotted(package, suffix))
    } else {
        relative_name(package, false, (dots - 1) as nat, Some(suffix))
    }
}

proof fn lemma_leading_dots(text: Seq<char>, i: int)
    requires
        0 <= i <= text.len(),
        forall|j: int| 0 <= j < i ==> text[j] == '.',
        i < text.len() ==> text[i] != '.',
    ensures
        leading_dots(text) == i,
    decreases i,
{
    if i > 0 {
        lemma_leading_dots(text.skip(1), i - 1);
    }
}

/// The module that `import_module` imports by a relative name and a package.
pub fn get_relative_imported_module_name(name: &str, package: &str) -> (res: Option<ModuleName>)
    ensures
        optional_name(res) == relative_to_package(name@, package@),
{
    let chars = chars_of(name);
    let mut dots: usize = 0;
    while dots < chars.len() && chars[dots] == '.'
        invariant
            dots <= chars@.len(),
            forall|j: int| 0 <= j < dots ==> chars@[j] == '.',
        decreases chars@.len() - dots,
    {
        dots = dots + 1;
    }
    proof {
        lemma_leading_dots(name@, dots as int);
    }
    if dots == 0 {
        return None;
    }
    let suffix = string_of(&chars, dots, chars.len());
    proof {
        assert(suffix@ =~= name@.skip(dots as int));
    }
    let module = ModuleName::from_str(package);
    if dots == 1 {
        Some(module.append_str(suffix.as_str()))
    } else {
        module.new_maybe_relative(false, dots - 1, Some(suffix.as_str()))
    }
}

/// The text that an expression is, where it is a literal.
pub open spec fn literal_text(e: Expression) -> Option<Seq<char>> {
    match e.node {
        Node::StringLiteral { value, .. } => Some(value@),
        _ => None,
    }
}

/// The text that an expression is, where it is a literal.
pub fn as_literal(e: &Expression) -> (res: Option<&str>)
    ensures
        opt_text(res) == literal_text(*e),
{
    match &e.node {
        Node::StringLiteral { value, .. } => Some(value.as_str()),
        _ => None,
    }
}

/// An expression is a variable of the given name.
pub open spec fn is_variable(e: Expression, name: Seq<char>) -> bool {
    match e.node {
        Node::Name { id } => id@ == name,
        _ => false,
    }
}

/// Whether an expression is a variable of the given name.
pub fn is_variable_named(e: &Expression, name: &str) -> (res: bool)
    ensures
        res == is_variable(*e, name@),
{
    match &e.node {
        Node::Name { id } => str_eq(id.as_str(), name),
        _ => false,
    }
}

/// The first keyword argument of a name, from the `i`-th on.
pub open spec fn keyword_from(keywords: Seq<Keyword>, name: Seq<char>, i: int) -> Option<Expression>
    decreases keywords.len() - i,
{
    if i < 0 || i >= keywords.len() {
        None
    } else if keywords[i].arg matches Some(arg) && arg@ == name {
        Some(keywords[i].value)
    } else {
        keyword_from(keywords, name, i + 1)
    }
}

/// The text of the first keyword argument of a name, where it is a literal.
pub open spec fn keyword_text(keywords: Seq<Keyword>, name: Seq<char>) -> Option<Seq<char>> {
    match keyword_from(keywords, name, 0) {
        Some(value) => literal_text(value),
        None => None,
    }
}

/// The text of the first keyword argument of a name, where it is a literal.
fn find_keyword_text<'a>(keywords: &'a Vec<Keyword>, name: &str) -> (res: Option<&'a str>)
    ensures
        opt_text(res) == keyword_text(keywords@, name@),
{
    for i in 0..keywords.len()
        invariant
            keyword_from(keywords@, name@, 0) == keyword_from(keywords@, name@, i as int),
    {
        if let Some(arg) = &keywords[i].arg {
            if str_eq(arg.as_str(), name) {
                return as_literal(&keywords[i].value);
            }
        }
    }
    None
}

/// What a call of `import_module` imports by one positional argument and the keyword argument
/// `package`.
pub open spec fn imported_by_mixed_args(args: Arguments) -> Option<Seq<char>> {
    if args.args@.len() == 1 && args.keywords@.len() == 1 {
        match (keyword_text(args.keywords@, "package"@), literal_text(args.args@[0])) {
            (Some(package), Some(name)) => relative_to_package(name, package),
            _ => None,
        }
    } else {
        None
    }
}

/// What a call of `import_module` imports by keyword arguments.
pub open spec fn imported_by_keywords(args: Arguments) -> Option<Seq<char>> {
    match keyword_text(args.keywords@, "name"@) {
        Some(name) => match keyword_text(args.keywords@, "package"@) {
            Some(package) => relative_to_package(name, package),
            None => Some(name),
        },
        None => None,
    }
}

/// What a call of `import_module` imports by positional arguments.
pub open spec fn imported_by_position(args: Arguments) -> Option<Seq<char>> {
    let n = args.args@.len();
    if n == 2 {
        match (literal_text(args.args@[0]), literal_text(args.args@[1])) {
            (Some(name), Some(package)) => relative_to_package(name, package),
            _ => None,
        }
    } else if n == 1 {
        literal_text(args.args@[0])
    } else {
        None
    }
}

/// The first of three that is there.
pub open spec fn first_of(
    a: Option<Seq<char>>,
    b: Option<Seq<char>>,
    c: Option<Seq<char>>,
) -> Option<Seq<char>> {
    if a is Some {
        a
    } else if b is Some {
        b
    } else {
        c
    }
}

/// Which names for `import_module` a scope has.
#[derive(Debug, PartialEq, Eq, Structural, Copy, Clone)]
pub struct ImportlibState {
    /// `importlib` is imported.
    pub has_importlib: bool,
    /// `import_module` is imported from `importlib`.
    pub has_import_module: bool,
}

impl ImportlibState {
    pub fn new(has_importlib: bool, has_import_module: bool) -> (res: ImportlibState)
        ensures
            res == (ImportlibState { has_importlib, has_import_module }),
    {
        ImportlibState { has_importlib, has_import_module }
    }

    /// An expression is `import_module`.
    pub open spec fn calls_import_module(self, func: Expression) -> bool {
        ||| self.has_import_module && is_variable(func, "import_module"@)
        ||| self.has_importlib && match func.node {
            Node::Attribute { value, attr, .. } => is_variable(*value, "importlib"@) && attr@
                == "import_module"@,
            _ => false,
        }
    }

    /// The module that a call imports, where it is one of `import_module` and the name of the
    /// module can be told.
    pub open spec fn imported_by_call(self, func: Expression, args: Arguments) -> Option<Seq<char>> {
        if self.calls_import_module(func) {
            first_of(
                imported_by_mixed_args(args),
                imported_by_keywords(args),
                imported_by_position(args),
            )
        } else {
            None
        }
    }

    /// Whether an expression is `import_module`.
    fn is_import_module_call(self, func: &Expression) -> (res: bool)
        ensures
            res == self.calls_import_module(*func),
    {
        if self.has_import_module && is_variable_named(func, "import_module") {
            return true;
        }
        if self.has_importlib {
            if let Node::Attribute { value, attr, .. } = &func.node {
                return is_variable_named(value, "importlib") && str_eq(attr.as_str(), "import_module");
            }
        }
        false
    }

    fn get_imported_module_name_mixed_args(self, args: &Arguments) -> (res: Option<ModuleName>)
        ensures
            optional_name(res) == imported_by_mixed_args(*args),
    {
        if args.args.len() == 1 && args.keywords.len() == 1 {
            if let Some(package) = find_keyword_text(&args.keywords, "package") {
                if let Some(name) = as_literal(&args.args[0]) {
                    return get_relative_imported_module_name(name, package);
                }
            }
        }
        None
    }

    fn get_imported_module_name_kw_args(self, args: &Arguments) -> (res: Option<ModuleName>)
        ensures
            optional_name(res) == imported_by_keywords(*args),
    {
        match find_keyword_text(&args.keywords, "name") {
            Some(name) => match find_keyword_text(&args.keywords, "package") {
                Some(package) => get_relative_imported_module_name(name, package),
                None => Some(ModuleName::from_str(name)),
            },
            None => None,
        }
    }

    fn get_imported_module_name_pos_args(self, args: &Arguments) -> (res: Option<ModuleName>)
        ensures
            optional_name(res) == imported_by_position(*args),
    {
        if args.args.len() == 2 {
            if let Some(name) = as_literal(&args.args[0]) {
                if let Some(package) = as_literal(&args.args[1]) {
                    return get_relative_imported_module_name(name, package);
                }
            }
            None
        } else if args.args.len() == 1 {
            match as_literal(&args.args[0]) {
                Some(name) => Some(ModuleName::from_str(name)),
                None => None,
            }
        } else {
            None
        }
    }

    /// The module that a call imports, where it is one of `import_module` and the name of the
    /// module can be told.
    pub fn match_call(self, func: &Expression, args: &Arguments) -> (res: Option<ModuleName>)
        ensures
            optional_name(res) == self.imported_by_call(*func, *args),
    {
        if !self.is_import_module_call(func) {
            return None;
        }
        let mixed = self.get_imported_module_name_mixed_args(args);
        if mixed.is_some() {
            return mixed;
        }
        let keywords = self.get_imported_module_name_kw_args(args);
        if keywords.is_some() {
            return keywords;
        }
        self.get_imported_module_name_pos_args(args)
    }
}

/// The names between the dots of an expression of attributes, from the `n`-th attribute in to the
/// outermost.
pub open spec fn chain_behind(e: Expression, end: Seq<char>) -> Seq<char>
    decreases e,
{
    match e.node {
        Node::Attribute { value, attr, .. } => chain_behind(*value, dotted(attr@, end)),
        _ => end,
    }
}

/// The names between the dots of an expression of attributes, without the variable at its left
/// end.
pub open spec fn chain_of(e: Expression) -> Option<Seq<char>> {
    match e.node {
        Node::Attribute { value, attr, .. } => Some(chain_behind(*value, attr@)),
        _ => None,
    }
}

/// The name that an attribute of an expression is reached by: the given name for the left end of
/// the expression, the attributes of the expression, and the attribute, where there is one.
pub open spec fn import_chain(obj: Expression, attr: Option<Seq<char>>, base: Seq<char>) -> Seq<char> {
    let chain = match attr {
        Some(last) => Some(chain_behind(obj, last)),
        None => chain_of(obj),
    };
    match chain {
        Some(rest) => dotted(base, rest),
        None => base,
    }
}

fn chain_text(e: &Expression, end: String) -> (res: String)
    ensures
        res@ == chain_behind(*e, end@),
    decreases e,
{
    match &e.node {
        Node::Attribute { value, attr, .. } => {
            let mut more: String = attr.clone();
            more.push('.');
            more.append(end.as_str());
            proof {
                assert(more@ =~= dotted(attr@, end@));
            }
            chain_text(value, more)
        },
        _ => end,
    }
}

/// The name that an attribute of an expression is reached by.
pub fn get_import_chain_string(obj: &Expression, attr: Option<&str>, res_name: &str) -> (res: ModuleName)
    ensures
        res@ == import_chain(*obj, opt_text(attr), res_name@),
{
    let chain: Option<String> = match attr {
        Some(last) => Some(chain_text(obj, last.to_owned())),
        None => match &obj.node {
            Node::Attribute { value, attr, .. } => Some(chain_text(value, attr.clone())),
            _ => None,
        },
    };
    let base = ModuleName::from_str(res_name);
    match chain {
        Some(rest) => base.append_str(rest.as_str()),
        None => base,
    }
}

} // verus!
