use vstd::prelude::*;

use crate::ast::{BindingNode, ClassDeclaration, FunctionDeclaration, Statement};
use crate::diagnostics::Diagnostic;
use crate::text::{contains_text, ends_with, holds_text, last_index_of, owned, rfind_char, starts_with, str_equals};

verus! {

/// What to do with one `import`, once the module's file has been looked for.
#[derive(Debug)]
pub enum ImportDecision {
    /// No file was found: report `message` with error code `code` (`E0200`) at the
    /// import, and keep the statement.
    NotFound { message: String, code: String },
    /// The module is being loaded further up the chain of imports: report `message`
    /// with error code `code` (`E0204`) and drop the statement.
    Circular { message: String, code: String },
    /// The module was loaded before: drop the statement.
    AlreadyLoaded,
    /// Load the module from this file, after marking it as loaded and as being loaded.
    Load(String),
}

/// `"` + `text` + `'`-quoted: the text of a message about module `source`.
pub open spec fn quoted(prefix: Seq<char>, source: Seq<char>) -> Seq<char> {
    prefix + seq!['\''] + source + seq!['\'']
}

/// Decides what to do with an import of `source`, given the file it was found at
/// (`None` when none was), the files loaded so far, and the chain of files being
/// loaded.
pub fn import_decision(
    source: &str,
    resolved: Option<String>,
    processed: &Vec<String>,
    stack: &Vec<String>,
) -> (d: ImportDecision)
    ensures
        resolved is None ==> (d matches ImportDecision::NotFound { message, code }
            && message@ == quoted("Module not found: "@, source@) && code@ == "E0200"@),
        resolved is Some && holds_text(stack@, resolved->0@) ==> (d matches ImportDecision::Circular {
            message,
            code,
        } && message@ == quoted("Circular dependency detected: "@, source@) && code@ == "E0204"@),
        resolved is Some && !holds_text(stack@, resolved->0@) && holds_text(processed@, resolved->0@)
            ==> d is AlreadyLoaded,
        resolved is Some && !holds_text(stack@, resolved->0@) && !holds_text(processed@, resolved->0@)
            ==> (d matches ImportDecision::Load(q) && q@ == resolved->0@),
{
    match resolved {
        None => {
            let mut message = owned("Module not found: ");
            message.append("'");
            message.append(source);
            message.append("'");
            proof {
                reveal_strlit("'");
            }
            assert(message@ =~= quoted("Module not found: "@, source@));
            ImportDecision::NotFound { message, code: owned("E0200") }
        },
        Some(path) => {
            if contains_text(stack, path.as_str()) {
                let mut message = owned("Circular dependency detected: ");
                message.append("'");
                message.append(source);
                message.append("'");
                proof {
                    reveal_strlit("'");
                }
                assert(message@ =~= quoted("Circular dependency detected: "@, source@));
                ImportDecision::Circular { message, code: owned("E0204") }
            } else if contains_text(processed, path.as_str()) {
                ImportDecision::AlreadyLoaded
            } else {
                ImportDecision::Load(path)
            }
        },
    }
}

/// Whether `needle` occurs in `s`.
pub open spec fn occurs_in(s: Seq<char>, needle: Seq<char>) -> bool {
    exists|i: int| 0 <= i <= s.len() - needle.len() && #[trigger] s.subrange(i, i + needle.len()) == needle
}

/// Whether `needle` occurs in `s`.
pub fn contains_str(s: &str, needle: &str) -> (r: bool)
    ensures
        r == occurs_in(s@, needle@),
{
    let n = s.unicode_len();
    let m = needle.unicode_len();
    if m > n {
        proof {
            assert forall|i: int| 0 <= i <= n - m implies #[trigger] s@.subrange(i, i + m) != needle@ by {}
        }
        return false;
    }
    let mut i: usize = 0;
    loop
        invariant
            n == s@.len(),
            m == needle@.len(),
            m <= n,
            i <= n - m,
            forall|k: int| 0 <= k < i ==> #[trigger] s@.subrange(k, k + m) != needle@,
        decreases n - m - i,
    {
        if str_equals(s.substring_char(i, i + m), needle) {
            assert(s@.subrange(i as int, i + m) == needle@);
            return true;
        }
        if i == n - m {
            return false;
        }
        i = i + 1;
    }
}

/// Whether some statement of `statements` imports `std:prelude`.
pub open spec fn imports_prelude(statements: Seq<Statement>) -> bool {
    exists|i: int| 0 <= i < statements.len() && (#[trigger] statements[i] matches Statement::ImportDecl {
        source,
        ..
    } && source@ == "std:prelude"@)
}

/// Whether a file gets the prelude imported first: it is not the prelude or the
/// runtime itself, and does not import the prelude already.
pub fn needs_prelude(filename: &str, statements: &Vec<Statement>) -> (r: bool)
    ensures
        r == (!occurs_in(filename@, "prelude.tx"@) && !occurs_in(filename@, "runtime.tx"@)
            && !imports_prelude(statements@)),
{
    if contains_str(filename, "prelude.tx") || contains_str(filename, "runtime.tx") {
        return false;
    }
    let mut i: usize = 0;
    while i < statements.len()
        invariant
            i <= statements@.len(),
            forall|k: int| 0 <= k < i ==> !(#[trigger] statements@[k] matches Statement::ImportDecl {
                source,
                ..
            } && source@ == "std:prelude"@),
        decreases statements@.len() - i,
    {
        match &statements[i] {
            Statement::ImportDecl { source, .. } => {
                if str_equals(source.as_str(), "std:prelude") {
                    return false;
                }
            },
            _ => {},
        }
        i = i + 1;
    }
    true
}

/// The import of the prelude that goes in front of a file's statements.
pub fn prelude_import() -> (s: Statement)
    ensures
        s matches Statement::ImportDecl { _names, source, _is_default, _line, _col } && _names@.len() == 0
            && source@ == "std:prelude"@ && !_is_default && _line == 0 && _col == 0,
{
    Statement::ImportDecl { source: owned("std:prelude"), _names: Vec::new(), _is_default: false, _line: 0, _col: 0 }
}

/// `name` put under the directory `dir`, paths written as text with `/` between their
/// parts: a name that starts with `/` stands alone, and an empty directory adds nothing.
pub open spec fn joined_path(dir: Seq<char>, name: Seq<char>) -> Seq<char> {
    if name.len() > 0 && name[0] == '/' {
        name
    } else if dir.len() == 0 {
        name
    } else if dir.last() == '/' {
        dir + name
    } else {
        dir + seq!['/'] + name
    }
}

/// Where the last part of path `p` begins.
pub open spec fn file_start(p: Seq<char>) -> int {
    match last_index_of(p, '/') {
        Some(i) => i + 1,
        None => 0,
    }
}

/// `p` with its extension set to `tx`: the text after the last `.` of its last part
/// is replaced, or `.tx` is added where that part has no `.` but at its start. A path
/// whose last part is empty, `.` or `..` is left as it is.
pub open spec fn with_tx(p: Seq<char>) -> Seq<char> {
    let f = file_start(p);
    let file = p.subrange(f, p.len() as int);
    if file.len() == 0 || file == seq!['.'] || file == seq!['.', '.'] {
        p
    } else {
        match last_index_of(file, '.') {
            Some(d) => if d > 0 {
                p.subrange(0, f + d + 1) + seq!['t', 'x']
            } else {
                p + seq!['.', 't', 'x']
            },
            None => p + seq!['.', 't', 'x'],
        }
    }
}

/// How many `"` stand at the start of `s` from `i` on, as an index.
pub open spec fn quotes_from(s: Seq<char>, i: int) -> int
    decreases s.len() - i,
{
    if 0 <= i < s.len() && s[i] == '"' {
        quotes_from(s, i + 1)
    } else {
        i
    }
}

/// Where the `"` at the end of `s`, back to `a`, begin.
pub open spec fn quotes_back(s: Seq<char>, a: int, j: int) -> int
    decreases j - a,
{
    if a < j <= s.len() && s[j - 1] == '"' {
        quotes_back(s, a, j - 1)
    } else {
        j
    }
}

/// `s` without the `"` at its start and end.
pub open spec fn unquoted(s: Seq<char>) -> Seq<char> {
    let a = quotes_from(s, 0);
    s.subrange(a, quotes_back(s, a, s.len() as int))
}

/// The file an import of `source` reads, from the directory `dir` of the importing
/// file: `std:M` is `M` in the library directory `stdlib`, with extension `tx`; any
/// other source, without its quotes and a leading `./`, is taken under `dir`, and
/// given the extension `tx` unless it ends in `.tx`.
pub open spec fn import_path_of(source: Seq<char>, dir: Seq<char>, stdlib: Seq<char>) -> Seq<char> {
    if seq!['s', 't', 'd', ':'].is_prefix_of(source) {
        with_tx(joined_path(stdlib, source.subrange(4, source.len() as int)))
    } else {
        let c = unquoted(source);
        let c2 = if seq!['.', '/'].is_prefix_of(c) { c.subrange(2, c.len() as int) } else { c };
        let p = joined_path(dir, c2);
        if p.len() >= 3 && p.subrange(p.len() - 3, p.len() as int) == seq!['.', 't', 'x'] {
            p
        } else {
            with_tx(p)
        }
    }
}

/// `joined_path` of the two.
fn join_path(dir: &str, name: &str) -> (r: String)
    ensures
        r@ == joined_path(dir@, name@),
{
    let nd = dir.unicode_len();
    let nn = name.unicode_len();
    if nn > 0 && name.get_char(0) == '/' {
        return owned(name);
    }
    if nd == 0 {
        return owned(name);
    }
    let mut r = owned(dir);
    if dir.get_char(nd - 1) != '/' {
        r.append("/");
        proof {
            reveal_strlit("/");
        }
    }
    r.append(name);
    r
}

/// `with_tx` of `p`.
fn set_tx_extension(p: &str) -> (r: String)
    ensures
        r@ == with_tx(p@),
{
    proof {
        reveal_strlit(".tx");
        reveal_strlit("tx");
        reveal_strlit("..");
        reveal_strlit(".");
        assert(".tx"@ =~= seq!['.', 't', 'x']);
        assert("tx"@ =~= seq!['t', 'x']);
        assert("."@ =~= seq!['.']);
        assert(".."@ =~= seq!['.', '.']);
    }
    let n = p.unicode_len();
    let f = match rfind_char(p, '/') {
        Some(i) => i + 1,
        None => 0,
    };
    let file = p.substring_char(f, n);
    assert(file@ == p@.subrange(f as int, n as int));
    if f == n || str_equals(file, ".") || str_equals(file, "..") {
        assert(f == n ==> file@.len() == 0);
        return owned(p);
    }
    match rfind_char(file, '.') {
        Some(d) => {
            if d > 0 {
                assert(d < file@.len());
                let mut r = owned(p.substring_char(0, f + d + 1));
                r.append("tx");
                r
            } else {
                let mut r = owned(p);
                r.append(".tx");
                r
            }
        },
        None => {
            let mut r = owned(p);
            r.append(".tx");
            r
        },
    }
}

/// `unquoted` of `s`.
fn unquote(s: &str) -> (r: String)
    ensures
        r@ == unquoted(s@),
{
    let n = s.unicode_len();
    let mut a: usize = 0;
    while a < n && s.get_char(a) == '"'
        invariant
            n == s@.len(),
            a <= n,
            quotes_from(s@, 0) == quotes_from(s@, a as int),
        decreases n - a,
    {
        a = a + 1;
    }
    let mut b: usize = n;
    while b > a && s.get_char(b - 1) == '"'
        invariant
            n == s@.len(),
            a <= b <= n,
            quotes_from(s@, 0) == a,
            quotes_back(s@, a as int, n as int) == quotes_back(s@, a as int, b as int),
        decreases b - a,
    {
        b = b - 1;
    }
    owned(s.substring_char(a, b))
}

/// The file an import of `source` reads, as `import_path_of` says.
pub fn import_path(source: &str, current_dir: &str, stdlib: &str) -> (p: String)
    ensures
        p@ == import_path_of(source@, current_dir@, stdlib@),
{
    proof {
        reveal_strlit("std:");
        reveal_strlit("./");
        reveal_strlit(".tx");
        assert("std:"@ =~= seq!['s', 't', 'd', ':']);
        assert("./"@ =~= seq!['.', '/']);
        assert(".tx"@ =~= seq!['.', 't', 'x']);
    }
    if starts_with(source, "std:") {
        let n = source.unicode_len();
        let path = join_path(stdlib, source.substring_char(4, n));
        set_tx_extension(path.as_str())
    } else {
        let c = unquote(source);
        let m = c.as_str().unicode_len();
        let c2 = if starts_with(c.as_str(), "./") { owned(c.as_str().substring_char(2, m)) } else { c };
        let p = join_path(current_dir, c2.as_str());
        if ends_with(p.as_str(), ".tx") {
            p
        } else {
            set_tx_extension(p.as_str())
        }
    }
}

/// `g` is `f` named `name`.
pub open spec fn function_renamed(g: FunctionDeclaration, f: FunctionDeclaration, name: Seq<char>) -> bool {
    &&& g.name@ == name
    &&& g.params == f.params
    &&& g.return_type == f.return_type
    &&& g.body == f.body
    &&& g._is_async == f._is_async
    &&& g._line == f._line
    &&& g._col == f._col
}

/// `d` is `c` named `name`.
pub open spec fn class_renamed(d: ClassDeclaration, c: ClassDeclaration, name: Seq<char>) -> bool {
    &&& d.name@ == name
    &&& d._parent_name == c._parent_name
    &&& d.generic_params == c.generic_params
    &&& d._is_abstract == c._is_abstract
    &&& d._implemented_protocols == c._implemented_protocols
    &&& d._members == c._members
    &&& d.methods == c.methods
    &&& d._getters == c._getters
    &&& d._setters == c._setters
    &&& d._constructor == c._constructor
    &&& d._line == c._line
    &&& d._col == c._col
}

/// `r` is the declaration `d` named `name`: a function, a class, or a variable bound
/// to a plain name; any other declaration is left as it is.
pub open spec fn declaration_renamed(r: Statement, d: Statement, name: Seq<char>) -> bool {
    match d {
        Statement::FunctionDeclaration(f) => r matches Statement::FunctionDeclaration(g) && function_renamed(g, f, name),
        Statement::ClassDeclaration(c) => r matches Statement::ClassDeclaration(e) && class_renamed(e, c, name),
        Statement::VarDeclaration { pattern: BindingNode::Identifier(_), type_annotation, initializer, is_const, line, _col } =>
            r matches Statement::VarDeclaration { pattern: BindingNode::Identifier(n), type_annotation: t2, initializer: i2, is_const: k2, line: l2, _col: c2 }
            && n@ == name && t2 == type_annotation && i2 == initializer && k2 == is_const && l2 == line && c2 == _col,
        _ => r == d,
    }
}

/// `r` is `s` with the default export, if `s` is one, named `name`.
pub open spec fn default_export_renamed(r: Statement, s: Statement, name: Seq<char>) -> bool {
    match s {
        Statement::ExportDecl { declaration, _is_default, _line, _col } => if _is_default {
            r matches Statement::ExportDecl { declaration: d2, _is_default: k2, _line: l2, _col: c2 }
                && k2 && l2 == _line && c2 == _col && declaration_renamed(*d2, *declaration, name)
        } else {
            r == s
        },
        _ => r == s,
    }
}

/// The declaration `d` named `name`.
fn rename_declaration(d: Statement, name: &str) -> (r: Statement)
    ensures
        declaration_renamed(r, d, name@),
{
    match d {
        Statement::FunctionDeclaration(f) => {
            let mut f = f;
            f.name = owned(name);
            Statement::FunctionDeclaration(f)
        },
        Statement::ClassDeclaration(c) => {
            let mut c = c;
            c.name = owned(name);
            Statement::ClassDeclaration(c)
        },
        Statement::VarDeclaration { pattern, type_annotation, initializer, is_const, line, _col } => {
            match pattern {
                BindingNode::Identifier(_) => Statement::VarDeclaration {
                    pattern: BindingNode::Identifier(owned(name)),
                    type_annotation,
                    initializer,
                    is_const,
                    line,
                    _col,
                },
                other => Statement::VarDeclaration { pattern: other, type_annotation, initializer, is_const, line, _col },
            }
        },
        other => other,
    }
}

/// The statements of an imported module with its default export named `name`, as an
/// import `import name from ..` calls it.
pub fn rename_default_exports(stmts: Vec<Statement>, name: &str) -> (r: Vec<Statement>)
    ensures
        r@.len() == stmts@.len(),
        forall|k: int| 0 <= k < r@.len() ==> default_export_renamed(#[trigger] r@[k], stmts@[k], name@),
{
    let ghost orig = stmts@;
    let mut out: Vec<Statement> = Vec::new();
    let mut rest = stmts;
    while rest.len() > 0
        invariant
            out@.len() + rest@.len() == orig.len(),
            rest@ == orig.subrange(out@.len() as int, orig.len() as int),
            forall|k: int| 0 <= k < out@.len() ==> default_export_renamed(#[trigger] out@[k], orig[k], name@),
        decreases rest@.len(),
    {
        let ghost k = out@.len();
        let s = rest.remove(0);
        assert(s == orig[k as int]);
        let r = match s {
            Statement::ExportDecl { declaration, _is_default, _line, _col } => {
                if _is_default {
                    Statement::ExportDecl {
                        declaration: Box::new(rename_declaration(*declaration, name)),
                        _is_default,
                        _line,
                        _col,
                    }
                } else {
                    Statement::ExportDecl { declaration, _is_default, _line, _col }
                }
            },
            other => other,
        };
        out.push(r);
        assert(rest@ =~= orig.subrange(out@.len() as int, orig.len() as int));
    }
    out
}

/// `statements` with the one at `i`, an import, replaced by the statements of the
/// module it imports.
pub fn splice_module(statements: Vec<Statement>, i: usize, module: Vec<Statement>) -> (r: Vec<Statement>)
    requires
        i < statements@.len(),
    ensures
        r@ == statements@.take(i as int) + module@ + statements@.skip(i + 1),
{
    let ghost orig = statements@;
    let ghost m = module@;
    let mut out: Vec<Statement> = Vec::new();
    let mut rest = statements;
    let mut k: usize = 0;
    while k < i
        invariant
            k <= i < orig.len(),
            out@ == orig.take(k as int),
            rest@ == orig.skip(k as int),
        decreases i - k,
    {
        let s = rest.remove(0);
        out.push(s);
        k = k + 1;
        assert(out@ =~= orig.take(k as int));
        assert(rest@ =~= orig.skip(k as int));
    }
    rest.remove(0);
    assert(rest@ =~= orig.skip(i + 1));
    let mut more = module;
    while more.len() > 0
        invariant
            out@ + more@ == orig.take(i as int) + m,
        decreases more@.len(),
    {
        let ghost before = out@;
        let s = more.remove(0);
        out.push(s);
        assert(out@ + more@ =~= before + (seq![s] + more@));
    }
    assert(out@ =~= orig.take(i as int) + m);
    let ghost before_rest = out@;
    let mut tail = rest;
    while tail.len() > 0
        invariant
            out@ + tail@ == before_rest + orig.skip(i + 1),
        decreases tail@.len(),
    {
        let ghost before = out@;
        let s = tail.remove(0);
        out.push(s);
        assert(out@ + tail@ =~= before + (seq![s] + tail@));
    }
    assert(out@ =~= before_rest + orig.skip(i + 1));
    out
}

/// Whether `s` declares `n`: a function, a class, a variable bound to a plain name, or
/// such a declaration inside a block or an export.
pub open spec fn declares(s: Statement, n: Seq<char>) -> bool
    decreases s,
{
    match s {
        Statement::FunctionDeclaration(f) => f.name@ == n,
        Statement::ClassDeclaration(c) => c.name@ == n,
        Statement::VarDeclaration { pattern: BindingNode::Identifier(x), .. } => x@ == n,
        Statement::BlockStmt { statements, .. } => exists|i: int| 0 <= i < statements@.len() && declares(#[trigger] statements@[i], n),
        Statement::ExportDecl { declaration, .. } => declares(*declaration, n),
        _ => false,
    }
}

/// Whether the module `stmts` exports `n`.
pub open spec fn exports_name(stmts: Seq<Statement>, n: Seq<char>) -> bool {
    exists|k: int| 0 <= k < stmts.len() && (#[trigger] stmts[k] matches Statement::ExportDecl { declaration, .. }
        && declares(*declaration, n))
}

/// Whether the module `stmts` has a default export.
pub open spec fn has_default_export(stmts: Seq<Statement>) -> bool {
    exists|k: int| 0 <= k < stmts.len() && (#[trigger] stmts[k] matches Statement::ExportDecl { _is_default, .. } && _is_default)
}

/// The names of `names` that `stmts` does not export, in order.
pub open spec fn missing_names(stmts: Seq<Statement>, names: Seq<String>) -> Seq<Seq<char>>
    decreases names.len(),
{
    if names.len() == 0 {
        Seq::empty()
    } else {
        let before = missing_names(stmts, names.drop_last());
        if exports_name(stmts, names.last()@) { before } else { before.push(names.last()@) }
    }
}

/// `s` declares the function, class or variable (bound to a plain name) `n`.
pub open spec fn declared_plainly(s: Statement, n: Seq<char>) -> bool {
    match s {
        Statement::FunctionDeclaration(f) => f.name@ == n,
        Statement::ClassDeclaration(c) => c.name@ == n,
        Statement::VarDeclaration { pattern: BindingNode::Identifier(x), .. } => x@ == n,
        _ => false,
    }
}

/// `s` exports `n` by its own declaration: an exported function, class or variable,
/// or one of several variables declared together and exported.
pub open spec fn exports_directly(s: Statement, n: Seq<char>) -> bool {
    s matches Statement::ExportDecl { declaration, .. } && {
        ||| declared_plainly(*declaration, n)
        ||| *declaration matches Statement::BlockStmt { statements, .. } && exists|i: int|
            0 <= i < statements@.len() && #[trigger] declared_plainly(statements@[i], n)
    }
}

/// The message of a name that module `source` does not export.
pub open spec fn not_exported_message(n: Seq<char>, source: Seq<char>) -> Seq<char> {
    quoted(seq![], n) + " is not exported from "@ + quoted(seq![], source)
}

proof fn lemma_not_exported_message_injective(a: Seq<char>, b: Seq<char>, source: Seq<char>)
    requires
        not_exported_message(a, source) == not_exported_message(b, source),
    ensures
        a == b,
{
    let ma = not_exported_message(a, source);
    let mb = not_exported_message(b, source);
    assert(ma.len() == a.len() + 2 + " is not exported from "@.len() + source.len() + 2);
    assert(a.len() == b.len());
    assert(ma.subrange(1, a.len() as int + 1) =~= a);
    assert(mb.subrange(1, b.len() as int + 1) =~= b);
}

proof fn lemma_missing_excludes(stmts: Seq<Statement>, names: Seq<String>, n: Seq<char>)
    requires
        exports_name(stmts, n),
    ensures
        forall|q: int| 0 <= q < missing_names(stmts, names).len() ==> #[trigger] missing_names(stmts, names)[q] != n,
    decreases names.len(),
{
    if names.len() > 0 {
        lemma_missing_excludes(stmts, names.drop_last(), n);
        let before = missing_names(stmts, names.drop_last());
        if !exports_name(stmts, names.last()@) {
            assert(names.last()@ != n);
            assert forall|q: int| 0 <= q < before.len() + 1 implies #[trigger] before.push(names.last()@)[q] != n by {
                if q < before.len() {
                    assert(before.push(names.last()@)[q] == before[q]);
                }
            }
        }
    }
}

proof fn lemma_missing_all(stmts: Seq<Statement>, names: Seq<String>)
    requires
        forall|k: int| 0 <= k < stmts.len() ==> !(#[trigger] stmts[k] is ExportDecl),
    ensures
        missing_names(stmts, names) == names.map_values(|x: String| x@),
    decreases names.len(),
{
    if names.len() > 0 {
        lemma_missing_all(stmts, names.drop_last());
        assert(!exports_name(stmts, names.last()@));
        assert(names.map_values(|x: String| x@) =~= names.drop_last().map_values(|x: String| x@).push(names.last()@));
    }
}

/// What importing names reports, told by the module's statements: a name the module
/// exports by its own declaration (a function, a class or a variable, alone or among
/// variables declared together) is never reported; from a module with no exports at
/// all, every name is reported, in order.
pub proof fn law_export_problems(stmts: Seq<Statement>, names: Seq<String>, source: Seq<char>)
    ensures
        forall|j: int, k: int, q: int| 0 <= j < names.len() && 0 <= k < stmts.len()
            && #[trigger] exports_directly(stmts[k], names[j]@) && 0 <= q < missing_names(stmts, names).len()
            ==> not_exported_message(#[trigger] missing_names(stmts, names)[q], source) != not_exported_message(names[j]@, source),
        (forall|k: int| 0 <= k < stmts.len() ==> !(#[trigger] stmts[k] is ExportDecl))
            ==> missing_names(stmts, names) == names.map_values(|x: String| x@),
{
    assert forall|j: int, k: int, q: int| 0 <= j < names.len() && 0 <= k < stmts.len()
        && #[trigger] exports_directly(stmts[k], names[j]@) && 0 <= q < missing_names(stmts, names).len()
        implies not_exported_message(#[trigger] missing_names(stmts, names)[q], source) != not_exported_message(names[j]@, source) by {
        let d = *stmts[k]->ExportDecl_declaration;
        if !declared_plainly(d, names[j]@) {
            let st = d->BlockStmt_statements@;
            let i = choose|i: int| 0 <= i < st.len() && #[trigger] declared_plainly(st[i], names[j]@);
            assert(declares(st[i], names[j]@));
        }
        assert(declares(d, names[j]@));
        assert(exports_name(stmts, names[j]@));
        lemma_missing_excludes(stmts, names, names[j]@);
        if not_exported_message(missing_names(stmts, names)[q], source) == not_exported_message(names[j]@, source) {
            lemma_not_exported_message_injective(missing_names(stmts, names)[q], names[j]@, source);
        }
    }
    if forall|k: int| 0 <= k < stmts.len() ==> !(#[trigger] stmts[k] is ExportDecl) {
        lemma_missing_all(stmts, names);
    }
}

/// Whether `s` declares `n`, as `declares` says.
fn declares_exec(s: &Statement, n: &str) -> (r: bool)
    ensures
        r == declares(*s, n@),
    decreases s,
{
    match s {
        Statement::FunctionDeclaration(f) => str_equals(f.name.as_str(), n),
        Statement::ClassDeclaration(c) => str_equals(c.name.as_str(), n),
        Statement::VarDeclaration { pattern, .. } => match pattern {
            BindingNode::Identifier(x) => str_equals(x.as_str(), n),
            _ => false,
        },
        Statement::BlockStmt { statements, _line, _col } => {
            let mut i: usize = 0;
            while i < statements.len()
                invariant
                    i <= statements@.len(),
                    *s == (Statement::BlockStmt { statements: *statements, _line: *_line, _col: *_col }),
                    forall|j: int| 0 <= j < i ==> !declares(#[trigger] statements@[j], n@),
                decreases statements@.len() - i,
            {
                proof {
                    assert(decreases_to!(*s => (*s)->BlockStmt_statements));
                    assert(decreases_to!(*statements => statements[i as int]));
                    assert(decreases_to!(*s => statements[i as int]));
                }
                if declares_exec(&statements[i], n) {
                    assert(declares(statements@[i as int], n@));
                    return true;
                }
                i = i + 1;
            }
            false
        },
        Statement::ExportDecl { declaration, .. } => declares_exec(declaration, n),
        _ => false,
    }
}

/// What is wrong with importing `names` (with `is_default`, the default export) from
/// the module `stmts` read for `source`: each as a message and an error code. A default
/// import from a module without a default export gives `E0203`; each other name the
/// module does not export gives `E0202`.
pub fn export_problems(stmts: &Vec<Statement>, names: &Vec<String>, is_default: bool, source: &str) -> (r: Vec<(String, String)>)
    ensures
        is_default && has_default_export(stmts@) ==> r@.len() == 0,
        is_default && !has_default_export(stmts@) ==> r@.len() == 1 && r@[0].0@ == "Module '"@ + source@
            + "' has no default export"@ && r@[0].1@ == "E0203"@,
        !is_default ==> r@.len() == missing_names(stmts@, names@).len() && forall|k: int| 0 <= k < r@.len()
            ==> (#[trigger] r@[k]).0@ == quoted(seq![], missing_names(stmts@, names@)[k]) + " is not exported from "@
                + quoted(seq![], source@) && r@[k].1@ == "E0202"@,
        !is_default ==> forall|j: int, k: int, q: int| 0 <= j < names@.len() && 0 <= k < stmts@.len()
            && #[trigger] exports_directly(stmts@[k], names@[j]@) && 0 <= q < r@.len()
            ==> (#[trigger] r@[q]).0@ != not_exported_message(names@[j]@, source@),
        !is_default && (forall|k: int| 0 <= k < stmts@.len() ==> !(#[trigger] stmts@[k] is ExportDecl)) ==> {
            &&& r@.len() == names@.len()
            &&& forall|q: int| 0 <= q < r@.len() ==> (#[trigger] r@[q]).0@ == not_exported_message(names@[q]@, source@)
                && r@[q].1@ == "E0202"@
        },
{
    proof {
        law_export_problems(stmts@, names@, source@);
    }
    let mut out: Vec<(String, String)> = Vec::new();
    if is_default {
        let mut i: usize = 0;
        while i < stmts.len()
            invariant
                i <= stmts@.len(),
                out@.len() == 0,
                is_default,
                forall|j: int| 0 <= j < i ==> !(#[trigger] stmts@[j] matches Statement::ExportDecl { _is_default, .. } && _is_default),
            decreases stmts@.len() - i,
        {
            match &stmts[i] {
                Statement::ExportDecl { _is_default, .. } => {
                    if *_is_default {
                        return out;
                    }
                },
                _ => {},
            }
            i = i + 1;
        }
        let mut message = owned("Module '");
        message.append(source);
        message.append("' has no default export");
        out.push((message, owned("E0203")));
        return out;
    }
    let mut k: usize = 0;
    while k < names.len()
        invariant
            k <= names@.len(),
            out@.len() == missing_names(stmts@, names@.take(k as int)).len(),
            forall|j: int| 0 <= j < out@.len()
                ==> (#[trigger] out@[j]).0@ == quoted(seq![], missing_names(stmts@, names@.take(k as int))[j]) + " is not exported from "@
                    + quoted(seq![], source@) && out@[j].1@ == "E0202"@,
        decreases names@.len() - k,
    {
        assert(names@.take(k + 1).drop_last() =~= names@.take(k as int));
        let name = names[k].as_str();
        let mut found = false;
        let mut i: usize = 0;
        while i < stmts.len()
            invariant
                i <= stmts@.len(),
                found == exists|j: int| 0 <= j < i && (#[trigger] stmts@[j] matches Statement::ExportDecl { declaration, .. }
                    && declares(*declaration, name@)),
            decreases stmts@.len() - i,
        {
            match &stmts[i] {
                Statement::ExportDecl { declaration, .. } => {
                    if declares_exec(declaration, name) {
                        found = true;
                    }
                },
                _ => {},
            }
            i = i + 1;
        }
        if !found {
            let mut message = owned("'");
            message.append(name);
            message.append("' is not exported from '");
            message.append(source);
            message.append("'");
            proof {
                reveal_strlit("'");
                reveal_strlit("' is not exported from '");
                reveal_strlit(" is not exported from ");
                assert(message@ =~= quoted(seq![], name@) + " is not exported from "@ + quoted(seq![], source@));
            }
            out.push((message, owned("E0202")));
        }
        k = k + 1;
    }
    assert(names@.take(names@.len() as int) =~= names@);
    out
}

/// What taking in an imported module does, once its statements are read and their own
/// imports resolved: for a default import `import name from ..`, the module's default
/// export is named `name`; the module's statements take the place of the import at
/// `i`; and what is wrong with the import comes back as messages with codes, as
/// `export_problems` gives them.
pub fn merge_module(
    statements: Vec<Statement>,
    i: usize,
    module: Vec<Statement>,
    names: &Vec<String>,
    is_default: bool,
    source: &str,
) -> (r: (Vec<Statement>, Vec<(String, String)>))
    requires
        i < statements@.len(),
    ensures
        r.0@.len() == statements@.len() - 1 + module@.len(),
        r.0@.take(i as int) == statements@.take(i as int),
        r.0@.skip(i + module@.len()) == statements@.skip(i + 1),
        forall|k: int| 0 <= k < module@.len() ==> if is_default && names@.len() > 0 {
            default_export_renamed(#[trigger] r.0@[i + k], module@[k], names@.last()@)
        } else {
            r.0@[i + k] == module@[k]
        },
        is_default && has_default_export(module@) ==> r.1@.len() == 0,
        is_default && !has_default_export(module@) ==> r.1@.len() == 1 && r.1@[0].0@ == "Module '"@ + source@
            + "' has no default export"@ && r.1@[0].1@ == "E0203"@,
        !is_default ==> r.1@.len() == missing_names(module@, names@).len() && forall|k: int| 0 <= k < r.1@.len()
            ==> (#[trigger] r.1@[k]).0@ == quoted(seq![], missing_names(module@, names@)[k]) + " is not exported from "@
                + quoted(seq![], source@) && r.1@[k].1@ == "E0202"@,
{
    let ghost m = module@;
    let renamed = if is_default && names.len() > 0 {
        rename_default_exports(module, names[names.len() - 1].as_str())
    } else {
        module
    };
    proof {
        if is_default && names@.len() > 0 {
            assert forall|k: int| 0 <= k < m.len() && (#[trigger] m[k] matches Statement::ExportDecl { _is_default, .. } && _is_default)
                implies (renamed@[k] matches Statement::ExportDecl { _is_default, .. } && _is_default) by {
                assert(default_export_renamed(renamed@[k], m[k], names@.last()@));
            }
            assert forall|k: int| 0 <= k < m.len() && (#[trigger] renamed@[k] matches Statement::ExportDecl { _is_default, .. } && _is_default)
                implies (m[k] matches Statement::ExportDecl { _is_default, .. } && _is_default) by {
                assert(default_export_renamed(renamed@[k], m[k], names@.last()@));
            }
            if has_default_export(m) {
                let k = choose|k: int| 0 <= k < m.len() && (#[trigger] m[k] matches Statement::ExportDecl { _is_default, .. } && _is_default);
                assert(renamed@[k] matches Statement::ExportDecl { _is_default, .. } && _is_default);
            }
            if has_default_export(renamed@) {
                let k = choose|k: int| 0 <= k < renamed@.len() && (#[trigger] renamed@[k] matches Statement::ExportDecl { _is_default, .. } && _is_default);
                assert(m[k] matches Statement::ExportDecl { _is_default, .. } && _is_default);
            }
        }
    }
    let problems = export_problems(&renamed, names, is_default, source);
    let ghost rn = renamed@;
    let merged = splice_module(statements, i, renamed);
    proof {
        assert(merged@.take(i as int) =~= statements@.take(i as int));
        assert(merged@.skip(i + rn.len()) =~= statements@.skip(i + 1));
        assert forall|k: int| 0 <= k < rn.len() implies #[trigger] merged@[i + k] == rn[k] by {}
    }
    (merged, problems)
}

/// The diagnostic a decision reports for an import at `line`, `column` of `filename`:
/// a missing module with code `E0200` and its message as label, a cycle with code
/// `E0204` and the label `circularly imported here`; none for the other decisions.
pub fn decision_diagnostic(d: &ImportDecision, line: usize, column: usize, filename: &str) -> (r: Option<Diagnostic>)
    ensures
        d is NotFound ==> (r matches Some(g) && (g.code matches Some(c) && c@ == "E0200"@)),
        d matches ImportDecision::NotFound { message, code } ==> (r matches Some(g) && g.message == message
            && g.line == line && g.column == column && g.filename@ == filename@
            && (g.label matches Some(l) && l@ == message@)),
        d matches ImportDecision::Circular { message, code } ==> (r matches Some(g) && g.message == message
            && g.line == line && g.column == column && g.filename@ == filename@
            && (g.code matches Some(c) && c@ == "E0204"@)
            && (g.label matches Some(l) && l@ == "circularly imported here"@)),
        d is AlreadyLoaded || d is Load ==> r is None,
{
    proof {
        reveal_strlit("E0200");
        reveal_strlit("E0204");
    }
    match d {
        ImportDecision::NotFound { message, .. } => {
            let g = Diagnostic::new(message.clone(), line, column, owned(filename)).with_code("E0200").with_label(
                message.as_str(),
            );
            Some(g)
        },
        ImportDecision::Circular { message, .. } => {
            let g = Diagnostic::new(message.clone(), line, column, owned(filename)).with_code("E0204").with_label(
                "circularly imported here",
            );
            Some(g)
        },
        _ => None,
    }
}

} // verus!
