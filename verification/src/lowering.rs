use vstd::prelude::*;

use crate::ast::{ClassDeclaration, ClassMethod, FunctionDeclaration, Parameter, Program, Statement};
use crate::diagnostics::Diagnostic;
use crate::hir::{
    bare_call, bare_call_stmt, block_at, block_items, call_is, call_of, copy_params, lit_is, parts_of, same_params, stmt_expr, var_decl_is,
    var_is, HIRExpression, HIRStatement,
};
use crate::mir_lowering::{distinct_names, insert_name, scope_map};
use crate::text::{
    alphanumeric, char_is_alphanumeric, char_is_uppercase, decimal, decimal_string,
    contains_text, lemma_decimal_injective, lemma_replaced_keeps_out, lemma_replaced_removes, owned, replace_all, replaced, starts_with, str_equals, upper_case,
};
use crate::types::{
    distinct_type_names, find_type_name, lemma_type_map_has, lemma_type_map_lacks, put_type, type_map, TejxType,
};

verus! {

/// What one scope defines: each source name with its mangled name and type; a
/// later entry for a name takes the place of an earlier one.
pub open spec fn binding_map(entries: Seq<(String, String, TejxType)>) -> Map<Seq<char>, (Seq<char>, TejxType)>
    decreases entries.len(),
{
    if entries.len() == 0 {
        Map::empty()
    } else {
        binding_map(entries.drop_last()).insert(
            entries.last().0@,
            (entries.last().1@, entries.last().2),
        )
    }
}

/// No source name has two entries in one scope.
pub open spec fn distinct_bindings(entries: Seq<(String, String, TejxType)>) -> bool {
    forall|i: int, j: int| 0 <= i < j < entries.len() ==> entries[i].0@ != entries[j].0@
}

/// An open scope as seen from outside: its bindings, and the lambda nesting depth it belongs to.
pub type ScopeView = (Map<Seq<char>, (Seq<char>, TejxType)>, usize);

/// The index of the innermost scope (outermost first) that defines `name`.
pub open spec fn binding_scope(scopes: Seq<ScopeView>, name: Seq<char>) -> Option<int>
    decreases scopes.len(),
{
    if scopes.len() == 0 {
        None
    } else if scopes.last().0.contains_key(name) {
        Some(scopes.len() - 1)
    } else {
        binding_scope(scopes.drop_last(), name)
    }
}

/// The mangled name a definition of `name` gets in the scope at index `depth`:
/// `g_` in front in the outermost scope, else `$` and a scope number behind.
pub open spec fn mangled_name(name: Seq<char>, depth: nat, id: nat) -> Seq<char> {
    if depth == 0 {
        seq!['g', '_'] + name
    } else {
        name + seq!['$'] + decimal(id)
    }
}

/// Whether a name found in scope `i` is reached across a lambda boundary: the
/// scope belongs to a shallower lambda depth than the innermost one and is not
/// the outermost scope.
pub open spec fn crosses_lambda(scopes: Seq<ScopeView>, i: int) -> bool {
    0 < i && scopes[i].1 < scopes.last().1
}

/// The lambda depth a stack of scopes goes back to when its innermost scope
/// closes, from the depth `current` it is at.
pub open spec fn depth_after_exit(scopes: Seq<ScopeView>, current: nat) -> nat {
    let d = scopes.last().1;
    if d > 0 && d == current && !(exists|i: int| 0 <= i < scopes.len() - 1 && #[trigger] scopes[i].1 == d) {
        (d - 1) as nat
    } else {
        current
    }
}

proof fn lemma_binding_has(entries: Seq<(String, String, TejxType)>, j: int)
    requires
        distinct_bindings(entries),
        0 <= j < entries.len(),
    ensures
        binding_map(entries).contains_key(entries[j].0@),
        binding_map(entries)[entries[j].0@] == (entries[j].1@, entries[j].2),
    decreases entries.len(),
{
    if j < entries.len() - 1 {
        lemma_binding_has(entries.drop_last(), j);
    }
}

proof fn lemma_binding_lacks(entries: Seq<(String, String, TejxType)>, name: Seq<char>)
    requires
        forall|j: int| 0 <= j < entries.len() ==> entries[j].0@ != name,
    ensures
        !binding_map(entries).contains_key(name),
    decreases entries.len(),
{
    if entries.len() > 0 {
        lemma_binding_lacks(entries.drop_last(), name);
    }
}

proof fn lemma_binding_update(entries: Seq<(String, String, TejxType)>, i: int, e: (String, String, TejxType))
    requires
        distinct_bindings(entries),
        0 <= i < entries.len(),
        entries[i].0@ == e.0@,
    ensures
        binding_map(entries.update(i, e)) == binding_map(entries).insert(e.0@, (e.1@, e.2)),
    decreases entries.len(),
{
    let u = entries.update(i, e);
    if i == entries.len() - 1 {
        assert(u.drop_last() =~= entries.drop_last());
        assert(binding_map(u) =~= binding_map(entries).insert(e.0@, (e.1@, e.2)));
    } else {
        assert(u.drop_last() =~= entries.drop_last().update(i, e));
        lemma_binding_update(entries.drop_last(), i, e);
        assert(binding_map(u) =~= binding_map(entries).insert(e.0@, (e.1@, e.2)));
    }
}

proof fn lemma_binding_scope_skip(scopes: Seq<ScopeView>, name: Seq<char>, i: int)
    requires
        0 <= i <= scopes.len(),
        forall|k: int| i <= k < scopes.len() ==> !scopes[k].0.contains_key(name),
    ensures
        binding_scope(scopes, name) == binding_scope(scopes.subrange(0, i), name),
    decreases scopes.len() - i,
{
    if i < scopes.len() {
        assert(scopes.drop_last() =~= scopes.subrange(0, scopes.len() - 1));
        lemma_binding_scope_skip(scopes.drop_last(), name, i);
        assert(scopes.drop_last().subrange(0, i) =~= scopes.subrange(0, i));
    } else {
        assert(scopes.subrange(0, i) =~= scopes);
    }
}

/// The text of a type made fit for a symbol name, by these replacements in turn:
/// `[]` by `_arr`, `<` `>` `, ` `,` by `_`, ` | ` by `_or_`, `|` by `_`, ` & ` by
/// `_and_`, `&` by `_`, `{ ` by `_obj_`, and ` }` `{` `}` `: ` `:` `; ` `;` ` ` by `_`.
pub open spec fn sanitized(raw: Seq<char>) -> Seq<char> {
    let s0 = replaced(raw, "[]"@, "_arr"@);
    let s1 = replaced(s0, "<"@, "_"@);
    let s2 = replaced(s1, ">"@, "_"@);
    let s3 = replaced(s2, ", "@, "_"@);
    let s4 = replaced(s3, ","@, "_"@);
    let s5 = replaced(s4, " | "@, "_or_"@);
    let s6 = replaced(s5, "|"@, "_"@);
    let s7 = replaced(s6, " & "@, "_and_"@);
    let s8 = replaced(s7, "&"@, "_"@);
    let s9 = replaced(s8, "{ "@, "_obj_"@);
    let s10 = replaced(s9, " }"@, "_"@);
    let s11 = replaced(s10, "{"@, "_"@);
    let s12 = replaced(s11, "}"@, "_"@);
    let s13 = replaced(s12, ": "@, "_"@);
    let s14 = replaced(s13, ":"@, "_"@);
    let s15 = replaced(s14, "; "@, "_"@);
    let s16 = replaced(s15, ";"@, "_"@);
    let s17 = replaced(s16, " "@, "_"@);
    s17
}

/// The name a function's template has: its lowered name without the `f_` in front.
pub open spec fn template_name(lowered: Seq<char>) -> Seq<char> {
    if seq!['f', '_'].is_prefix_of(lowered) {
        lowered.skip(2)
    } else {
        lowered
    }
}

/// A name of one or two bytes that begins with an uppercase letter and holds only
/// letters and digits, as type parameters are written (`T`, `K2`).
pub open spec fn looks_like_generic_param(name: Seq<char>) -> bool {
    &&& (vstd::utf8::encode_utf8(name).len() as usize) <= 2
    &&& name.len() > 0
    &&& upper_case(name[0])
    &&& forall|i: int| 0 <= i < name.len() ==> #[trigger] alphanumeric(name[i])
}

/// A type with no type parameter left in it to fill in.
pub open spec fn concrete(ty: TejxType) -> bool
    decreases ty,
{
    match ty {
        TejxType::Class(name, generics) => {
            &&& name@ != "<inferred>"@
            &&& !"$MISSING_GENERIC_"@.is_prefix_of(name@)
            &&& if generics@.len() == 0 {
                !looks_like_generic_param(name@)
            } else {
                forall|i: int| 0 <= i < generics@.len() ==> concrete(#[trigger] generics@[i])
            }
        },
        TejxType::FixedArray(inner, _) => concrete(*inner),
        TejxType::DynamicArray(inner) => concrete(*inner),
        TejxType::Slice(inner) => concrete(*inner),
        TejxType::Function(params, ret) => {
            &&& forall|i: int| 0 <= i < params@.len() ==> concrete(#[trigger] params@[i])
            &&& concrete(*ret)
        },
        TejxType::Union(types) => forall|i: int| 0 <= i < types@.len() ==> concrete(#[trigger] types@[i]),
        TejxType::Object(props) => forall|i: int| 0 <= i < props@.len() ==> concrete(#[trigger] props@[i].2),
        _ => true,
    }
}

/// Whether `name` is written as a type parameter is.
fn looks_generic(name: &str) -> (r: bool)
    ensures
        r == looks_like_generic_param(name@),
{
    if name.len() > 2 {
        return false;
    }
    let n = name.unicode_len();
    if n == 0 {
        return false;
    }
    if !char_is_uppercase(name.get_char(0)) {
        return false;
    }
    let mut i: usize = 0;
    while i < n
        invariant
            n == name@.len(),
            i <= n,
            forall|j: int| 0 <= j < i ==> #[trigger] alphanumeric(name@[j]),
        decreases n - i,
    {
        if !char_is_alphanumeric(name.get_char(i)) {
            return false;
        }
        i = i + 1;
    }
    true
}

/// No class name in `ty` is one of the aliases.
pub open spec fn alias_free(aliases: Map<Seq<char>, TejxType>, ty: TejxType) -> bool
    decreases ty,
{
    match ty {
        TejxType::Class(name, generics) => {
            &&& !aliases.contains_key(name@)
            &&& forall|i: int| 0 <= i < generics@.len() ==> alias_free(aliases, #[trigger] generics@[i])
        },
        TejxType::FixedArray(inner, _) => alias_free(aliases, *inner),
        TejxType::DynamicArray(inner) => alias_free(aliases, *inner),
        TejxType::Slice(inner) => alias_free(aliases, *inner),
        TejxType::Function(params, ret) => {
            &&& forall|i: int| 0 <= i < params@.len() ==> alias_free(aliases, #[trigger] params@[i])
            &&& alias_free(aliases, *ret)
        },
        TejxType::Union(types) => forall|i: int| 0 <= i < types@.len() ==> alias_free(aliases, #[trigger] types@[i]),
        TejxType::Object(props) => forall|i: int| 0 <= i < props@.len() ==> alias_free(aliases, #[trigger] props@[i].2),
        _ => true,
    }
}

/// Resolving the aliases of `ty` from `depth` down ends before the twenty-level cut:
/// every alias chain met is short enough, and none runs in a cycle.
pub open spec fn resolves_within(aliases: Map<Seq<char>, TejxType>, ty: TejxType, depth: nat) -> bool
    decreases 21 - depth,
{
    if depth > 20 {
        false
    } else {
        match ty {
            TejxType::Class(name, generics) => if aliases.contains_key(name@) {
                resolves_within(aliases, aliases[name@], depth + 1)
            } else {
                forall|i: int| 0 <= i < generics@.len() ==> resolves_within(aliases, #[trigger] generics@[i], depth + 1)
            },
            TejxType::FixedArray(inner, _) => resolves_within(aliases, *inner, depth + 1),
            TejxType::DynamicArray(inner) => resolves_within(aliases, *inner, depth + 1),
            TejxType::Slice(inner) => resolves_within(aliases, *inner, depth + 1),
            TejxType::Function(params, ret) => {
                &&& forall|i: int| 0 <= i < params@.len() ==> resolves_within(aliases, #[trigger] params@[i], depth + 1)
                &&& resolves_within(aliases, *ret, depth + 1)
            },
            TejxType::Union(types) => forall|i: int| 0 <= i < types@.len()
                ==> resolves_within(aliases, #[trigger] types@[i], depth + 1),
            TejxType::Object(props) => forall|i: int| 0 <= i < props@.len()
                ==> resolves_within(aliases, (#[trigger] props@[i]).2, depth + 1),
            _ => true,
        }
    }
}

/// `r` is what `ty` reads as once the type aliases of `aliases` are replaced by what
/// they stand for, `depth` levels down; below twenty levels a type is left as it is.
pub open spec fn alias_resolved(aliases: Map<Seq<char>, TejxType>, ty: TejxType, depth: nat, r: TejxType) -> bool
    decreases 21 - depth,
{
    if depth > 20 {
        ty.same_as(&r)
    } else {
        match ty {
            TejxType::Class(name, generics) => if aliases.contains_key(name@) {
                alias_resolved(aliases, aliases[name@], depth + 1, r)
            } else {
                &&& r is Class
                &&& r->Class_0@ == name@
                &&& r->Class_1@.len() == generics@.len()
                &&& forall|i: int| 0 <= i < generics@.len()
                    ==> alias_resolved(aliases, #[trigger] generics@[i], depth + 1, r->Class_1@[i])
            },
            TejxType::FixedArray(inner, size) => {
                &&& r is FixedArray
                &&& r->FixedArray_1 == size
                &&& alias_resolved(aliases, *inner, depth + 1, *r->FixedArray_0)
            },
            TejxType::DynamicArray(inner) => {
                &&& r is DynamicArray
                &&& alias_resolved(aliases, *inner, depth + 1, *r->DynamicArray_0)
            },
            TejxType::Slice(inner) => {
                &&& r is Slice
                &&& alias_resolved(aliases, *inner, depth + 1, *r->Slice_0)
            },
            TejxType::Function(params, ret) => {
                &&& r is Function
                &&& r->Function_0@.len() == params@.len()
                &&& forall|i: int| 0 <= i < params@.len()
                    ==> alias_resolved(aliases, #[trigger] params@[i], depth + 1, r->Function_0@[i])
                &&& alias_resolved(aliases, *ret, depth + 1, *r->Function_1)
            },
            TejxType::Union(types) => {
                &&& r is Union
                &&& r->Union_0@.len() == types@.len()
                &&& forall|i: int| 0 <= i < types@.len()
                    ==> alias_resolved(aliases, #[trigger] types@[i], depth + 1, r->Union_0@[i])
            },
            TejxType::Object(props) => {
                &&& r is Object
                &&& r->Object_0@.len() == props@.len()
                &&& forall|i: int| 0 <= i < props@.len() ==> {
                    &&& r->Object_0@[i].0@ == (#[trigger] props@[i]).0@
                    &&& r->Object_0@[i].1 == props@[i].1
                    &&& alias_resolved(aliases, props@[i].2, depth + 1, r->Object_0@[i].2)
                }
            },
            _ => r == ty,
        }
    }
}

/// Whether statement `s` declares the class `name`, directly or as an export.
pub open spec fn declares_class(s: Statement, name: Seq<char>) -> bool {
    match s {
        Statement::ClassDeclaration(c) => c.name@ == name,
        Statement::ExportDecl { declaration, .. } => match *declaration {
            Statement::ClassDeclaration(c) => c.name@ == name,
            _ => false,
        },
        _ => false,
    }
}

/// Whether statement `s` declares the function `name`, directly or as an export.
pub open spec fn declares_function(s: Statement, name: Seq<char>) -> bool {
    match s {
        Statement::FunctionDeclaration(f) => f.name@ == name,
        Statement::ExportDecl { declaration, .. } => match *declaration {
            Statement::FunctionDeclaration(f) => f.name@ == name,
            _ => false,
        },
        _ => false,
    }
}

/// The class that a statement declaring one holds.
pub open spec fn class_of(s: Statement) -> ClassDeclaration {
    match s {
        Statement::ExportDecl { declaration, .. } => declaration->ClassDeclaration_0,
        _ => s->ClassDeclaration_0,
    }
}

/// The function that a statement declaring one holds.
pub open spec fn function_of(s: Statement) -> FunctionDeclaration {
    match s {
        Statement::ExportDecl { declaration, .. } => declaration->FunctionDeclaration_0,
        _ => s->FunctionDeclaration_0,
    }
}

/// Index of the entry for `name` in one scope.
fn find_binding(entries: &Vec<(String, String, TejxType)>, name: &str) -> (r: Option<usize>)
    ensures
        r matches Some(j) ==> j < entries@.len() && entries@[j as int].0@ == name@,
        r is None ==> forall|j: int| 0 <= j < entries@.len() ==> entries@[j].0@ != name@,
{
    let mut i: usize = 0;
    while i < entries.len()
        invariant
            i <= entries@.len(),
            forall|j: int| 0 <= j < i ==> entries@[j].0@ != name@,
        decreases entries@.len() - i,
    {
        if str_equals(entries[i].0.as_str(), name) {
            return Some(i);
        }
        i = i + 1;
    }
    None
}

/// Whether `name` is among `names`.
fn holds_name(names: &Vec<String>, name: &str) -> (r: bool)
    ensures
        r == exists|j: int| 0 <= j < names@.len() && #[trigger] names@[j]@ == name@,
{
    let mut i: usize = 0;
    while i < names.len()
        invariant
            i <= names@.len(),
            forall|j: int| 0 <= j < i ==> names@[j]@ != name@,
        decreases names@.len() - i,
    {
        if str_equals(names[i].as_str(), name) {
            return true;
        }
        i = i + 1;
    }
    false
}

/// The names each owner function captured, by owner; a later entry for an owner
/// takes the place of an earlier one.
pub open spec fn caps_map(entries: Seq<(String, Vec<String>)>) -> Map<Seq<char>, Seq<Seq<char>>>
    decreases entries.len(),
{
    if entries.len() == 0 {
        Map::empty()
    } else {
        caps_map(entries.drop_last()).insert(entries.last().0@, entries.last().1@.map_values(|v: String| v@))
    }
}

/// No owner has two entries, and no owner lists a name twice.
pub open spec fn caps_wf(entries: Seq<(String, Vec<String>)>) -> bool {
    &&& forall|i: int, j: int| 0 <= i < j < entries.len() ==> entries[i].0@ != entries[j].0@
    &&& forall|i: int| 0 <= i < entries.len() ==> distinct_texts(#[trigger] entries[i].1@)
}

/// No two strings of `v` hold the same characters.
pub open spec fn distinct_texts(v: Seq<String>) -> bool {
    forall|a: int, b: int| 0 <= a < b < v.len() ==> v[a]@ != v[b]@
}

/// `list` with `x` added at its end, unless it holds it already.
pub open spec fn add_once(list: Seq<Seq<char>>, x: Seq<char>) -> Seq<Seq<char>> {
    if list.contains(x) {
        list
    } else {
        list.push(x)
    }
}

/// The capture state: the stack of functions whose environment is being built
/// (innermost last), the names each captured, and the owner of each lambda.
pub type CaptureView = (Seq<Seq<char>>, Map<Seq<char>, Seq<Seq<char>>>, Map<Seq<char>, Seq<char>>);

/// The capture state after `m` was used across a lambda boundary: it is recorded
/// for the innermost owner, when there is one.
pub open spec fn after_capture(c: CaptureView, m: Seq<char>) -> CaptureView {
    if c.0.len() == 0 {
        c
    } else {
        let o = c.0.last();
        let had = if c.1.contains_key(o) { c.1[o] } else { seq![] };
        (c.0, c.1.insert(o, add_once(had, m)), c.2)
    }
}

proof fn lemma_caps_has(entries: Seq<(String, Vec<String>)>, j: int)
    requires
        caps_wf(entries),
        0 <= j < entries.len(),
    ensures
        caps_map(entries).contains_key(entries[j].0@),
        caps_map(entries)[entries[j].0@] == entries[j].1@.map_values(|v: String| v@),
    decreases entries.len(),
{
    if j < entries.len() - 1 {
        lemma_caps_has(entries.drop_last(), j);
    }
}

proof fn lemma_caps_lacks(entries: Seq<(String, Vec<String>)>, name: Seq<char>)
    requires
        forall|j: int| 0 <= j < entries.len() ==> entries[j].0@ != name,
    ensures
        !caps_map(entries).contains_key(name),
    decreases entries.len(),
{
    if entries.len() > 0 {
        lemma_caps_lacks(entries.drop_last(), name);
    }
}

proof fn lemma_caps_update(entries: Seq<(String, Vec<String>)>, i: int, e: (String, Vec<String>))
    requires
        caps_wf(entries),
        0 <= i < entries.len(),
        entries[i].0@ == e.0@,
    ensures
        caps_map(entries.update(i, e)) == caps_map(entries).insert(e.0@, e.1@.map_values(|v: String| v@)),
    decreases entries.len(),
{
    let u = entries.update(i, e);
    if i == entries.len() - 1 {
        assert(u.drop_last() =~= entries.drop_last());
        assert(caps_map(u) =~= caps_map(entries).insert(e.0@, e.1@.map_values(|v: String| v@)));
    } else {
        assert(u.drop_last() =~= entries.drop_last().update(i, e));
        assert(caps_wf(entries.drop_last()));
        lemma_caps_update(entries.drop_last(), i, e);
        assert(caps_map(u) =~= caps_map(entries).insert(e.0@, e.1@.map_values(|v: String| v@)));
    }
}

/// The owned copy of a lambda's name.
fn owner_of(name: &str) -> (r: String)
    ensures
        r@ == name@,
{
    owned(name)
}

/// Index of the entry of `owner`.
fn find_owner(entries: &Vec<(String, Vec<String>)>, owner: &str) -> (r: Option<usize>)
    ensures
        r matches Some(j) ==> j < entries@.len() && entries@[j as int].0@ == owner@,
        r is None ==> forall|j: int| 0 <= j < entries@.len() ==> entries@[j].0@ != owner@,
{
    let mut i: usize = 0;
    while i < entries.len()
        invariant
            i <= entries@.len(),
            forall|j: int| 0 <= j < i ==> entries@[j].0@ != owner@,
        decreases entries@.len() - i,
    {
        if str_equals(entries[i].0.as_str(), owner) {
            return Some(i);
        }
        i = i + 1;
    }
    None
}

/// The symbol table of the pass from syntax trees to typed IR: a stack of scopes,
/// each tagged with the lambda nesting depth it belongs to, the names used across
/// a lambda boundary, and the diagnostics of the pass.
pub struct Lowering {
    scopes: Vec<(Vec<(String, String, TejxType)>, usize)>,
    lambda_depth: usize,
    next_scope_id: usize,
    pub async_enabled: bool,
    pub diagnostics: Vec<Diagnostic>,
    pub filename: String,
    /// The directory of the standard library, where `std:` imports are looked for.
    pub stdlib_path: String,
    lambda_counter: usize,
    type_aliases: Vec<(String, TejxType)>,
    env_owner_stack: Vec<String>,
    /// For each function whose environment was built, the mangled names of the
    /// variables its lambdas use from outside them, each once.
    pub captured_vars_by_owner: Vec<(String, Vec<String>)>,
    lambda_env_owner: Vec<(String, String)>,
    current_async_promise_id: Option<String>,
    variadic_functions: Vec<(String, usize)>,
}

impl Lowering {
    /// The open scopes, outermost first.
    pub closed spec fn scope_views(&self) -> Seq<ScopeView> {
        Seq::new(self.scopes@.len(), |i: int| (binding_map(self.scopes@[i].0@), self.scopes@[i].1))
    }

    /// The current lambda nesting depth.
    pub closed spec fn lambda_level(&self) -> nat {
        self.lambda_depth as nat
    }

    /// The directory of the standard library.
    pub closed spec fn stdlib(&self) -> Seq<char> {
        self.stdlib_path@
    }

    /// How many lambdas and destructuring temporaries have been numbered.
    pub closed spec fn lambdas_made(&self) -> nat {
        self.lambda_counter as nat
    }

    /// The variable holding the promise that the async body being lowered settles.
    pub closed spec fn async_promise(&self) -> Option<Seq<char>> {
        match self.current_async_promise_id {
            Some(p) => Some(p@),
            None => None,
        }
    }

    /// The functions that gather their last arguments into a rest parameter, each with
    /// the number of parameters before it.
    pub closed spec fn variadics(&self) -> Map<Seq<char>, usize> {
        count_map(self.variadic_functions@)
    }

    /// Everything but the table of variadic functions is as in `before`.
    pub open spec fn unchanged_but_variadics(self, before: Self) -> bool {
        &&& self.wf() == before.wf()
        &&& self.scope_views() == before.scope_views()
        &&& self.lambda_level() == before.lambda_level()
        &&& self.next_id() == before.next_id()
        &&& self.captured() == before.captured()
        &&& self.settings() == before.settings()
        &&& self.stdlib() == before.stdlib()
        &&& self.lambdas_made() == before.lambdas_made()
        &&& self.async_promise() == before.async_promise()
    }

    /// The number the next nested definition is mangled with.
    pub closed spec fn next_id(&self) -> nat {
        self.next_scope_id as nat
    }

    /// The capture state: owner stack, captured names by owner, lambda owners.
    pub closed spec fn captured(&self) -> CaptureView {
        (
            self.env_owner_stack@.map_values(|s: String| s@),
            caps_map(self.captured_vars_by_owner@),
            scope_map(self.lambda_env_owner@),
        )
    }

    /// The settings and the tables outside the scopes: async support, diagnostics,
    /// file name, and the type aliases by name.
    pub closed spec fn settings(&self) -> (bool, Seq<Diagnostic>, Seq<char>, Map<Seq<char>, TejxType>) {
        (self.async_enabled, self.diagnostics@, self.filename@, type_map(self.type_aliases@))
    }

    /// `self` is `before` after defining `name` with type `ty`, which gave the mangled
    /// name `mangled`: a name the innermost scope defines already keeps its entry;
    /// otherwise it gets a new mangled name and `ty` with its aliases resolved.
    pub open spec fn defined(self, before: Self, name: Seq<char>, ty: TejxType, mangled: Seq<char>) -> bool {
        let views = before.scope_views();
        let depth = (views.len() - 1) as nat;
        let inner = views[depth as int].0;
        &&& self.lambda_level() == before.lambda_level()
        &&& self.captured() == before.captured()
        &&& self.settings() == before.settings()
        &&& self.stdlib() == before.stdlib()
        &&& self.lambdas_made() == before.lambdas_made()
        &&& if inner.contains_key(name) {
            &&& mangled == inner[name].0
            &&& self.next_id() == before.next_id()
            &&& self.scope_views() == views
        } else {
            let stored = self.scope_views()[depth as int].0[name].1;
            &&& mangled == mangled_name(name, depth, before.next_id())
            &&& self.next_id() == (if depth == 0 { before.next_id() } else { before.next_id() + 1 })
            &&& alias_resolved(before.settings().3, ty, 0, stored)
            &&& self.scope_views() == views.update(
                depth as int,
                (inner.insert(name, (mangled, stored)), views[depth as int].1),
            )
        }
    }

    /// No scope has two entries for one name or lies deeper than the current lambda
    /// level, and no name is captured twice.
    pub closed spec fn wf(&self) -> bool {
        &&& forall|i: int| 0 <= i < self.scopes@.len() ==> distinct_bindings(#[trigger] self.scopes@[i].0@)
        &&& forall|i: int| 0 <= i < self.scopes@.len() ==> #[trigger] self.scopes@[i].1 <= self.lambda_depth
        &&& caps_wf(self.captured_vars_by_owner@)
        &&& distinct_names(self.lambda_env_owner@)
        &&& distinct_type_names(self.type_aliases@)
    }

    /// An empty table: the outermost scope alone, at lambda level 0.
    pub fn new() -> (l: Self)
        ensures
            l.wf(),
            l.scope_views() == seq![(Map::<Seq<char>, (Seq<char>, TejxType)>::empty(), 0usize)],
            l.lambda_level() == 0,
            l.next_id() == 1,
            l.captured().0.len() == 0,
            l.captured().1 == Map::<Seq<char>, Seq<Seq<char>>>::empty(),
            l.captured().2 == Map::<Seq<char>, Seq<char>>::empty(),
            l.settings().0 == false,
            l.settings().1.len() == 0,
            l.settings().2.len() == 0,
            l.settings().3 == Map::<Seq<char>, TejxType>::empty(),
            l.stdlib() == "stdlib"@,
            l.lambdas_made() == 0,
            l.async_promise() is None,
            l.variadics() == Map::<Seq<char>, usize>::empty(),
    {
        let mut scopes: Vec<(Vec<(String, String, TejxType)>, usize)> = Vec::new();
        scopes.push((Vec::new(), 0));
        let l = Lowering {
            scopes,
            lambda_depth: 0,
            next_scope_id: 1,
            async_enabled: false,
            diagnostics: Vec::new(),
            filename: String::new(),
            stdlib_path: owned("stdlib"),
            lambda_counter: 0,
            type_aliases: Vec::new(),
            env_owner_stack: Vec::new(),
            captured_vars_by_owner: Vec::new(),
            lambda_env_owner: Vec::new(),
            current_async_promise_id: None,
            variadic_functions: Vec::new(),
        };
        assert(l.scope_views() =~= seq![(Map::<Seq<char>, (Seq<char>, TejxType)>::empty(), 0usize)]);
        assert(l.captured().0 =~= Seq::<Seq<char>>::empty());
        assert(l.captured().1 =~= Map::<Seq<char>, Seq<Seq<char>>>::empty());
        assert(l.captured().2 =~= Map::<Seq<char>, Seq<char>>::empty());
        assert(l.settings().3 =~= Map::<Seq<char>, TejxType>::empty());
        assert(l.variadics() =~= Map::<Seq<char>, usize>::empty());
        l
    }

    /// Opens a block scope at the current lambda depth.
    pub fn enter_scope(&mut self)
        requires
            old(self).wf(),
        ensures
            final(self).wf(),
            final(self).scope_views() == old(self).scope_views().push((Map::empty(), old(self).lambda_level() as usize)),
            final(self).lambda_level() == old(self).lambda_level(),
            final(self).next_id() == old(self).next_id(),
            final(self).captured() == old(self).captured(),
            final(self).settings() == old(self).settings(),
            final(self).stdlib() == old(self).stdlib(),
            final(self).lambdas_made() == old(self).lambdas_made(),
            final(self).async_promise() == old(self).async_promise(),
    {
        let depth = self.lambda_depth;
        self.scopes.push((Vec::new(), depth));
        assert(self.scope_views() =~= old(self).scope_views().push((Map::empty(), depth)));
    }

    /// Opens the scope of a lambda body, one lambda level deeper: names of outer
    /// functions used from inside it count as captured.
    pub fn enter_lambda_scope(&mut self)
        requires
            old(self).wf(),
            old(self).lambda_level() < usize::MAX,
        ensures
            final(self).wf(),
            final(self).lambda_level() == old(self).lambda_level() + 1,
            final(self).scope_views() == old(self).scope_views().push((Map::empty(), final(self).lambda_level() as usize)),
            final(self).next_id() == old(self).next_id(),
            final(self).captured() == old(self).captured(),
            final(self).settings() == old(self).settings(),
    {
        self.lambda_depth = self.lambda_depth + 1;
        let depth = self.lambda_depth;
        self.scopes.push((Vec::new(), depth));
        assert(self.scope_views() =~= old(self).scope_views().push((Map::empty(), depth)));
    }

    /// Closes the innermost scope. Leaving the last scope of a lambda level goes
    /// back to the level around it.
    pub fn exit_scope(&mut self)
        requires
            old(self).wf(),
        ensures
            final(self).wf(),
            old(self).scope_views().len() == 0 ==> *final(self) == *old(self),
            old(self).scope_views().len() > 0 ==> {
                &&& final(self).scope_views() == old(self).scope_views().drop_last()
                &&& final(self).lambda_level() == depth_after_exit(old(self).scope_views(), old(self).lambda_level())
            },
            final(self).next_id() == old(self).next_id(),
            final(self).captured() == old(self).captured(),
            final(self).settings() == old(self).settings(),
            final(self).stdlib() == old(self).stdlib(),
            final(self).lambdas_made() == old(self).lambdas_made(),
            final(self).async_promise() == old(self).async_promise(),
    {
        let ghost before = self.scope_views();
        if self.scopes.len() == 0 {
            return;
        }
        match self.scopes.pop() {
            Some((_, scope_depth)) => {
                assert(scope_depth == before.last().1);
                assert(self.scope_views() =~= before.drop_last());
                let current = self.lambda_depth;
                if scope_depth > 0 && scope_depth == current {
                    let mut any_at_depth = false;
                    let mut i: usize = 0;
                    while i < self.scopes.len()
                        invariant
                            i <= self.scopes@.len(),
                            self.scopes@.len() == before.len() - 1,
                            forall|k: int| 0 <= k < self.scopes@.len() ==> #[trigger] before[k].1 == self.scopes@[k].1,
                            any_at_depth == exists|k: int| 0 <= k < i && #[trigger] before[k].1 == scope_depth,
                        decreases self.scopes@.len() - i,
                    {
                        let d = self.scopes[i].1;
                        proof { assert(before[i as int].1 == d); }
                        if d == scope_depth {
                            any_at_depth = true;
                        }
                        i = i + 1;
                    }
                    if !any_at_depth {
                        self.lambda_depth = scope_depth - 1;
                        proof {
                            assert forall|k: int| 0 <= k < self.scopes@.len() implies #[trigger] self.scopes@[k].1
                                <= self.lambda_depth by {
                                assert(before[k].1 == self.scopes@[k].1);
                                assert(old(self).scopes@[k].1 <= current);
                            }
                        }
                    }
                }
            },
            None => {},
        }
    }

    /// Defines `name` with type `ty` in the innermost scope and gives its mangled
    /// name. A name that scope defines already keeps its mangled name and type.
    /// Otherwise it is `g_name` at the outermost scope, else `name$N` with a number
    /// `N` that no definition had before, and the type is stored with its aliases
    /// resolved.
    pub fn define(&mut self, name: String, ty: TejxType) -> (mangled: String)
        requires
            old(self).wf(),
            old(self).scope_views().len() > 0,
            old(self).scope_views().len() > 1 ==> old(self).next_id() < usize::MAX,
        ensures
            final(self).wf(),
            final(self).defined(*old(self), name@, ty, mangled@),
            old(self).scope_views().last().0.contains_key(name@) ==> *final(self) == *old(self),
            final(self).async_promise() == old(self).async_promise(),
    {
        let ghost before = *self;
        let n = self.scopes.len();
        let depth = n - 1;
        proof {
            assert(distinct_bindings(before.scopes@[depth as int].0@));
        }
        match find_binding(&self.scopes[depth].0, name.as_str()) {
            Some(j) => {
                proof { lemma_binding_has(self.scopes@[depth as int].0@, j as int); }
                let existing = self.scopes[depth].0[j].1.clone();
                proof { assert(self.scope_views() =~= before.scope_views()); }
                return existing;
            },
            None => {
                proof { lemma_binding_lacks(self.scopes@[depth as int].0@, name@); }
            },
        }
        let resolved = self.resolve_alias_type(&ty);
        let mangled = if depth == 0 {
            proof { reveal_strlit("g_"); }
            let mut s = owned("g_");
            s.append(name.as_str());
            assert(s@ =~= mangled_name(name@, 0, before.next_id()));
            s
        } else {
            let id = self.next_scope_id;
            let mut s = name.clone();
            proof { reveal_strlit("$"); }
            s.append("$");
            s.append(decimal_string(id).as_str());
            assert(s@ =~= mangled_name(name@, depth as nat, id as nat));
            self.next_scope_id = id + 1;
            s
        };
        let (mut entries, scope_depth) = self.scopes.pop().unwrap();
        let ghost old_entries = entries@;
        let ghost key = name@;
        let ghost val = (mangled@, resolved);
        entries.push((name, mangled.clone(), resolved));
        proof {
            assert(entries@.drop_last() =~= old_entries);
            assert(binding_map(entries@) == binding_map(old_entries).insert(key, val));
        }
        self.scopes.push((entries, scope_depth));
        proof {
            let views = before.scope_views();
            assert(self.scope_views() =~= views.update(
                depth as int,
                (views[depth as int].0.insert(key, val), views[depth as int].1),
            ));
            assert forall|i: int| 0 <= i < self.scopes@.len() implies distinct_bindings(
                #[trigger] self.scopes@[i].0@,
            ) by {
                if i != depth {
                    assert(self.scopes@[i] == before.scopes@[i]);
                }
            }
            assert(self.scopes@[depth as int].1 == before.scopes@[depth as int].1);
        }
        mangled
    }

    /// Looks `name` up from the innermost scope outwards and gives its mangled
    /// name and a copy of its type. When the scope that defines it lies across a lambda
    /// boundary, the mangled name is recorded as captured.
    pub fn lookup(&mut self, name: &str) -> (r: Option<(String, TejxType)>)
        requires
            old(self).wf(),
        ensures
            final(self).wf(),
            final(self).scope_views() == old(self).scope_views(),
            final(self).lambda_level() == old(self).lambda_level(),
            final(self).stdlib() == old(self).stdlib(),
            final(self).lambdas_made() == old(self).lambdas_made(),
            final(self).async_promise() == old(self).async_promise(),
            final(self).next_id() == old(self).next_id(),
            final(self).settings() == old(self).settings(),
            binding_scope(old(self).scope_views(), name@) is None ==> {
                &&& r is None
                &&& *final(self) == *old(self)
            },
            binding_scope(old(self).scope_views(), name@) matches Some(i) ==> {
                let b = old(self).scope_views()[i].0[name@];
                &&& r matches Some((m, t)) && m@ == b.0 && b.1.same_as(&t)
                &&& final(self).captured() == (if crosses_lambda(old(self).scope_views(), i) {
                    after_capture(old(self).captured(), b.0)
                } else {
                    old(self).captured()
                })
            },
    {
        let ghost before = *self;
        let ghost views = self.scope_views();
        let n = self.scopes.len();
        let current = if n > 0 {
            self.scopes[n - 1].1
        } else {
            0
        };
        let mut i = n;
        let mut found: Option<usize> = None;
        while i > 0
            invariant
                *self == before,
                views == self.scope_views(),
                i <= n,
                n == self.scopes@.len(),
                self.wf(),
                n > 0 ==> current == views.last().1,
                found is None ==> forall|k: int| i <= k < n ==> !views[k].0.contains_key(name@),
                found matches Some(j) ==> {
                    &&& i < n
                    &&& j < self.scopes@[i as int].0@.len()
                    &&& self.scopes@[i as int].0@[j as int].0@ == name@
                    &&& binding_scope(views, name@) == Some(i as int)
                    &&& views[i as int].0[name@] == (self.scopes@[i as int].0@[j as int].1@, self.scopes@[i as int].0@[j as int].2)
                },
            ensures
                found is None ==> i == 0,
            decreases i + (if found is None { 1int } else { 0int }),
        {
            if found.is_some() {
                break;
            }
            i = i - 1;
            proof { assert(distinct_bindings(self.scopes@[i as int].0@)); }
            match find_binding(&self.scopes[i].0, name) {
                Some(j) => {
                    proof {
                        lemma_binding_has(self.scopes@[i as int].0@, j as int);
                        lemma_binding_scope_skip(views, name@, i + 1);
                        assert(views.subrange(0, i + 1).last() == views[i as int]);
                    }
                    found = Some(j);
                },
                None => {
                    proof { lemma_binding_lacks(self.scopes@[i as int].0@, name@); }
                },
            }
        }
        match found {
            Some(j) => {
                let mangled = self.scopes[i].0[j].1.clone();
                let copy = self.scopes[i].0[j].2.duplicate();
                if self.scopes[i].1 < current && i > 0 {
                    self.record_capture(mangled.clone());
                }
                proof {
                    assert(self.scope_views() =~= views);
                }
                Some((mangled, copy))
            },
            None => {
                proof {
                    lemma_binding_scope_skip(views, name@, 0);
                }
                None
            },
        }
    }

    /// `lowered` without an `f_` in front.
    pub fn function_template_name(&self, lowered: &str) -> (r: String)
        ensures
            r@ == template_name(lowered@),
    {
        proof { reveal_strlit("f_"); }
        if starts_with(lowered, "f_") {
            let n = lowered.unicode_len();
            owned(lowered.substring_char(2, n))
        } else {
            owned(lowered)
        }
    }

    /// The text of a type made fit for a symbol name.
    pub fn sanitize_monomorph_part(&self, raw: &str) -> (r: String)
        ensures
            r@ == sanitized(raw@),
    {
        let s0 = replace_all(raw, "[]", "_arr");
        let s1 = replace_all(s0.as_str(), "<", "_");
        let s2 = replace_all(s1.as_str(), ">", "_");
        let s3 = replace_all(s2.as_str(), ", ", "_");
        let s4 = replace_all(s3.as_str(), ",", "_");
        let s5 = replace_all(s4.as_str(), " | ", "_or_");
        let s6 = replace_all(s5.as_str(), "|", "_");
        let s7 = replace_all(s6.as_str(), " & ", "_and_");
        let s8 = replace_all(s7.as_str(), "&", "_");
        let s9 = replace_all(s8.as_str(), "{ ", "_obj_");
        let s10 = replace_all(s9.as_str(), " }", "_");
        let s11 = replace_all(s10.as_str(), "{", "_");
        let s12 = replace_all(s11.as_str(), "}", "_");
        let s13 = replace_all(s12.as_str(), ": ", "_");
        let s14 = replace_all(s13.as_str(), ":", "_");
        let s15 = replace_all(s14.as_str(), "; ", "_");
        let s16 = replace_all(s15.as_str(), ";", "_");
        let s17 = replace_all(s16.as_str(), " ", "_");
        s17
    }

    /// Whether `ty` has no type parameter left in it.
    pub fn is_concrete_type(&self, ty: &TejxType) -> (r: bool)
        ensures
            r == concrete(*ty),
        decreases ty,
    {
        match ty {
            TejxType::Class(name, generics) => {
                proof {
                    reveal_strlit("<inferred>");
                    reveal_strlit("$MISSING_GENERIC_");
                }
                if str_equals(name.as_str(), "<inferred>") || starts_with(name.as_str(), "$MISSING_GENERIC_") {
                    return false;
                }
                if generics.len() == 0 {
                    !looks_generic(name.as_str())
                } else {
                    let mut i: usize = 0;
                    while i < generics.len()
                        invariant
                            i <= generics@.len(),
                            *ty == TejxType::Class(*name, *generics),
                            forall|j: int| 0 <= j < i ==> concrete(#[trigger] generics@[j]),
                        decreases generics@.len() - i,
                    {
                        proof {
                            assert(decreases_to!(*ty => (*ty)->Class_1));
                            assert(decreases_to!(*generics => generics[i as int]));
                        }
                        if !self.is_concrete_type(&generics[i]) {
                            return false;
                        }
                        i = i + 1;
                    }
                    true
                }
            },
            TejxType::FixedArray(inner, _) => self.is_concrete_type(inner),
            TejxType::DynamicArray(inner) => self.is_concrete_type(inner),
            TejxType::Slice(inner) => self.is_concrete_type(inner),
            TejxType::Function(params, ret) => {
                let mut i: usize = 0;
                while i < params.len()
                    invariant
                        i <= params@.len(),
                        *ty == TejxType::Function(*params, *ret),
                        forall|j: int| 0 <= j < i ==> concrete(#[trigger] params@[j]),
                    decreases params@.len() - i,
                {
                    proof {
                        assert(decreases_to!(*ty => (*ty)->Function_0));
                        assert(decreases_to!(*params => params[i as int]));
                    }
                    if !self.is_concrete_type(&params[i]) {
                        return false;
                    }
                    i = i + 1;
                }
                self.is_concrete_type(ret)
            },
            TejxType::Union(types) => {
                let mut i: usize = 0;
                while i < types.len()
                    invariant
                        i <= types@.len(),
                        *ty == TejxType::Union(*types),
                        forall|j: int| 0 <= j < i ==> concrete(#[trigger] types@[j]),
                    decreases types@.len() - i,
                {
                    proof {
                        assert(decreases_to!(*ty => (*ty)->Union_0));
                        assert(decreases_to!(*types => types[i as int]));
                    }
                    if !self.is_concrete_type(&types[i]) {
                        return false;
                    }
                    i = i + 1;
                }
                true
            },
            TejxType::Object(props) => {
                let mut i: usize = 0;
                while i < props.len()
                    invariant
                        i <= props@.len(),
                        *ty == TejxType::Object(*props),
                        forall|j: int| 0 <= j < i ==> concrete(#[trigger] props@[j].2),
                    decreases props@.len() - i,
                {
                    proof {
                        assert(decreases_to!(*ty => (*ty)->Object_0));
                        assert(decreases_to!(*props => props[i as int]));
                        assert(decreases_to!(props[i as int] => props[i as int].2));
                    }
                    if !self.is_concrete_type(&props[i].2) {
                        return false;
                    }
                    i = i + 1;
                }
                true
            },
            _ => true,
        }
    }

    /// Makes `name` an alias of `ty`, in place of an earlier alias of that name.
    pub fn register_type_alias(&mut self, name: &str, ty: TejxType)
        requires
            old(self).wf(),
        ensures
            final(self).wf(),
            final(self).settings().3 == old(self).settings().3.insert(name@, ty),
            final(self).settings().0 == old(self).settings().0,
            final(self).settings().1 == old(self).settings().1,
            final(self).settings().2 == old(self).settings().2,
            final(self).scope_views() == old(self).scope_views(),
            final(self).lambda_level() == old(self).lambda_level(),
            final(self).next_id() == old(self).next_id(),
            final(self).captured() == old(self).captured(),
    {
        let ghost before = *self;
        put_type(&mut self.type_aliases, owned(name), ty);
        proof {
            assert(self.scope_views() =~= before.scope_views());
        }
    }

    /// `ty` with each type alias replaced by what it stands for, also inside its
    /// parts; twenty levels down the rest is left as it is.
    pub fn resolve_alias_type(&self, ty: &TejxType) -> (r: TejxType)
        requires
            self.wf(),
        ensures
            alias_resolved(self.settings().3, *ty, 0, r),
    {
        self.resolve_inner(ty, 0)
    }

    /// `resolve_alias_type`, `depth` levels down.
    fn resolve_inner(&self, ty: &TejxType, depth: usize) -> (r: TejxType)
        requires
            self.wf(),
            depth <= 21,
        ensures
            alias_resolved(self.settings().3, *ty, depth as nat, r),
        decreases 21 - depth,
    {
        let ghost aliases = self.settings().3;
        if depth > 20 {
            return ty.duplicate();
        }
        match ty {
            TejxType::Class(name, generics) => {
                match find_type_name(&self.type_aliases, name.as_str()) {
                    Some(j) => {
                        proof { lemma_type_map_has(self.type_aliases@, j as int); }
                        return self.resolve_inner(&self.type_aliases[j].1, depth + 1);
                    },
                    None => {
                        proof { lemma_type_map_lacks(self.type_aliases@, name@); }
                    },
                }
                let mut out: Vec<TejxType> = Vec::new();
                let mut i: usize = 0;
                while i < generics.len()
                    invariant
                        self.wf(),
                        aliases == self.settings().3,
                        depth <= 20,
                        i <= generics@.len(),
                        out@.len() == i,
                        forall|k: int| 0 <= k < i ==> alias_resolved(aliases, #[trigger] generics@[k], (depth + 1) as nat, out@[k]),
                    decreases generics@.len() - i,
                {
                    out.push(self.resolve_inner(&generics[i], depth + 1));
                    i = i + 1;
                }
                TejxType::Class(name.clone(), out)
            },
            TejxType::FixedArray(inner, size) => TejxType::FixedArray(Box::new(self.resolve_inner(inner, depth + 1)), *size),
            TejxType::DynamicArray(inner) => TejxType::DynamicArray(Box::new(self.resolve_inner(inner, depth + 1))),
            TejxType::Slice(inner) => TejxType::Slice(Box::new(self.resolve_inner(inner, depth + 1))),
            TejxType::Function(params, ret) => {
                let mut out: Vec<TejxType> = Vec::new();
                let mut i: usize = 0;
                while i < params.len()
                    invariant
                        self.wf(),
                        aliases == self.settings().3,
                        depth <= 20,
                        i <= params@.len(),
                        out@.len() == i,
                        forall|k: int| 0 <= k < i ==> alias_resolved(aliases, #[trigger] params@[k], (depth + 1) as nat, out@[k]),
                    decreases params@.len() - i,
                {
                    out.push(self.resolve_inner(&params[i], depth + 1));
                    i = i + 1;
                }
                TejxType::Function(out, Box::new(self.resolve_inner(ret, depth + 1)))
            },
            TejxType::Union(types) => {
                let mut out: Vec<TejxType> = Vec::new();
                let mut i: usize = 0;
                while i < types.len()
                    invariant
                        self.wf(),
                        aliases == self.settings().3,
                        depth <= 20,
                        i <= types@.len(),
                        out@.len() == i,
                        forall|k: int| 0 <= k < i ==> alias_resolved(aliases, #[trigger] types@[k], (depth + 1) as nat, out@[k]),
                    decreases types@.len() - i,
                {
                    out.push(self.resolve_inner(&types[i], depth + 1));
                    i = i + 1;
                }
                TejxType::Union(out)
            },
            TejxType::Object(props) => {
                let mut out: Vec<(String, bool, TejxType)> = Vec::new();
                let mut i: usize = 0;
                while i < props.len()
                    invariant
                        self.wf(),
                        aliases == self.settings().3,
                        depth <= 20,
                        i <= props@.len(),
                        out@.len() == i,
                        forall|k: int| 0 <= k < i ==> {
                            &&& out@[k].0@ == (#[trigger] props@[k]).0@
                            &&& out@[k].1 == props@[k].1
                            &&& alias_resolved(aliases, props@[k].2, (depth + 1) as nat, out@[k].2)
                        },
                    decreases props@.len() - i,
                {
                    let p = &props[i];
                    out.push((p.0.clone(), p.1, self.resolve_inner(&p.2, depth + 1)));
                    i = i + 1;
                }
                TejxType::Object(out)
            },
            TejxType::Int16 => TejxType::Int16,
            TejxType::Int32 => TejxType::Int32,
            TejxType::Int64 => TejxType::Int64,
            TejxType::Int128 => TejxType::Int128,
            TejxType::Float16 => TejxType::Float16,
            TejxType::Float32 => TejxType::Float32,
            TejxType::Float64 => TejxType::Float64,
            TejxType::Bool => TejxType::Bool,
            TejxType::Char => TejxType::Char,
            TejxType::String => TejxType::String,
            TejxType::Void => TejxType::Void,
            TejxType::Any => TejxType::Any,
        }
    }

    /// Narrows the type of a defined `name` to `ty` (its aliases resolved) in the
    /// innermost scope, under the mangled name it already has; an undefined name is
    /// left alone. Looking the name up may record it as captured, as `lookup` does.
    pub fn narrow_type(&mut self, name: String, ty: TejxType)
        requires
            old(self).wf(),
        ensures
            final(self).wf(),
            final(self).lambda_level() == old(self).lambda_level(),
            final(self).next_id() == old(self).next_id(),
            final(self).settings() == old(self).settings(),
            binding_scope(old(self).scope_views(), name@) is None ==> *final(self) == *old(self),
            binding_scope(old(self).scope_views(), name@) matches Some(i) ==> {
                let views = old(self).scope_views();
                let b = views[i].0[name@];
                let last = views.len() - 1;
                let nv = final(self).scope_views();
                &&& final(self).captured() == (if crosses_lambda(views, i) {
                    after_capture(old(self).captured(), b.0)
                } else {
                    old(self).captured()
                })
                &&& nv.len() == views.len()
                &&& nv.drop_last() == views.drop_last()
                &&& nv[last].1 == views[last].1
                &&& nv[last].0.contains_key(name@)
                &&& nv[last].0[name@].0 == b.0
                &&& alias_resolved(old(self).settings().3, ty, 0, nv[last].0[name@].1)
                &&& nv[last].0.remove(name@) == views[last].0.remove(name@)
            },
    {
        let ghost before = *self;
        match self.lookup(name.as_str()) {
            Some((mangled, _)) => {
                let ghost mid = *self;
                let resolved = self.resolve_alias_type(&ty);
                let n = self.scopes.len();
                let (mut entries, scope_depth) = self.scopes.pop().unwrap();
                proof {
                    assert(distinct_bindings(mid.scopes@[n - 1].0@));
                }
                let ghost old_entries = entries@;
                let ghost val = (mangled@, resolved);
                let found = find_binding(&entries, name.as_str());
                let ghost key = name@;
                let entry = (name, mangled, resolved);
                match found {
                    Some(j) => {
                        proof { lemma_binding_update(entries@, j as int, entry); }
                        entries.set(j, entry);
                    },
                    None => {
                        entries.push(entry);
                        proof {
                            assert(entries@.drop_last() =~= old_entries);
                        }
                    },
                }
                assert(binding_map(entries@) == binding_map(old_entries).insert(key, val));
                self.scopes.push((entries, scope_depth));
                proof {
                    let views = mid.scope_views();
                    assert(self.scope_views() =~= views.update(
                        n - 1,
                        (views[n - 1].0.insert(key, val), views[n - 1].1),
                    ));
                    assert(self.scope_views().drop_last() =~= views.drop_last());
                    assert(self.scope_views()[n - 1].0.remove(key) =~= views[n - 1].0.remove(key));
                    assert forall|i: int| 0 <= i < self.scopes@.len() implies distinct_bindings(
                        #[trigger] self.scopes@[i].0@,
                    ) by {
                        if i != n - 1 {
                            assert(self.scopes@[i] == mid.scopes@[i]);
                        }
                    }
                    assert forall|i: int| 0 <= i < self.scopes@.len() implies #[trigger] self.scopes@[i].1
                        <= self.lambda_depth by {
                        assert(self.scopes@[i].1 == mid.scopes@[i].1);
                    }
                }
            },
            None => {},
        }
    }

    /// Whether a class is lowered as it stands: it has no type parameters.
    pub fn should_lower_class(&self, class_decl: &ClassDeclaration) -> (r: bool)
        ensures
            r == (class_decl.generic_params@.len() == 0),
    {
        class_decl.generic_params.len() == 0
    }

    /// The first class named `base_name` that `statements` declare, directly or as
    /// an export.
    pub fn find_class_template<'a>(&self, statements: &'a Vec<Statement>, base_name: &str) -> (r: Option<&'a ClassDeclaration>)
        ensures
            r is None ==> forall|i: int| 0 <= i < statements@.len() ==> !declares_class(#[trigger] statements@[i], base_name@),
            r matches Some(c) ==> exists|i: int| {
                &&& 0 <= i < statements@.len()
                &&& declares_class(#[trigger] statements@[i], base_name@)
                &&& *c == class_of(statements@[i])
                &&& forall|j: int| 0 <= j < i ==> !declares_class(#[trigger] statements@[j], base_name@)
            },
    {
        let mut i: usize = 0;
        while i < statements.len()
            invariant
                i <= statements@.len(),
                forall|j: int| 0 <= j < i ==> !declares_class(#[trigger] statements@[j], base_name@),
            decreases statements@.len() - i,
        {
            let stmt = &statements[i];
            match stmt {
                Statement::ClassDeclaration(c) => {
                    if str_equals(c.name.as_str(), base_name) {
                        assert(declares_class(statements@[i as int], base_name@));
                        return Some(c);
                    }
                },
                Statement::ExportDecl { declaration, .. } => {
                    match &**declaration {
                        Statement::ClassDeclaration(c) => {
                            if str_equals(c.name.as_str(), base_name) {
                                assert(declares_class(statements@[i as int], base_name@));
                                return Some(c);
                            }
                        },
                        _ => {},
                    }
                },
                _ => {},
            }
            i = i + 1;
        }
        None
    }

    /// The first function named `base_name` that `statements` declare, directly or
    /// as an export.
    pub fn find_function_template<'a>(&self, statements: &'a Vec<Statement>, base_name: &str) -> (r: Option<&'a FunctionDeclaration>)
        ensures
            r is None ==> forall|i: int| 0 <= i < statements@.len() ==> !declares_function(#[trigger] statements@[i], base_name@),
            r matches Some(f) ==> exists|i: int| {
                &&& 0 <= i < statements@.len()
                &&& declares_function(#[trigger] statements@[i], base_name@)
                &&& *f == function_of(statements@[i])
                &&& forall|j: int| 0 <= j < i ==> !declares_function(#[trigger] statements@[j], base_name@)
            },
    {
        let mut i: usize = 0;
        while i < statements.len()
            invariant
                i <= statements@.len(),
                forall|j: int| 0 <= j < i ==> !declares_function(#[trigger] statements@[j], base_name@),
            decreases statements@.len() - i,
        {
            let stmt = &statements[i];
            match stmt {
                Statement::FunctionDeclaration(f) => {
                    if str_equals(f.name.as_str(), base_name) {
                        assert(declares_function(statements@[i as int], base_name@));
                        return Some(f);
                    }
                },
                Statement::ExportDecl { declaration, .. } => {
                    match &**declaration {
                        Statement::FunctionDeclaration(f) => {
                            if str_equals(f.name.as_str(), base_name) {
                                assert(declares_function(statements@[i as int], base_name@));
                                return Some(f);
                            }
                        },
                        _ => {},
                    }
                },
                _ => {},
            }
            i = i + 1;
        }
        None
    }

    /// Records that `mangled` was used across a lambda boundary, for the innermost
    /// owner whose environment is being built, once.
    fn record_capture(&mut self, mangled: String)
        requires
            old(self).wf(),
        ensures
            final(self).wf(),
            final(self).scope_views() == old(self).scope_views(),
            final(self).lambda_level() == old(self).lambda_level(),
            final(self).next_id() == old(self).next_id(),
            final(self).settings() == old(self).settings(),
            final(self).captured() == after_capture(old(self).captured(), mangled@),
            final(self).stdlib() == old(self).stdlib(),
            final(self).lambdas_made() == old(self).lambdas_made(),
            final(self).async_promise() == old(self).async_promise(),
    {
        let ghost before = *self;
        let n = self.env_owner_stack.len();
        if n == 0 {
            return;
        }
        let owner = self.env_owner_stack[n - 1].clone();
        proof {
            assert(before.captured().0.last() == owner@);
        }
        let ghost caps = before.captured().1;
        match find_owner(&self.captured_vars_by_owner, owner.as_str()) {
            Some(j) => {
                proof { lemma_caps_has(self.captured_vars_by_owner@, j as int); }
                let ghost old_entries = self.captured_vars_by_owner@;
                let mut list: Vec<String> = Vec::new();
                std::mem::swap(&mut list, &mut self.captured_vars_by_owner[j].1);
                proof {
                    assert(list@ == old_entries[j as int].1@);
                }
                let ghost had = list@.map_values(|v: String| v@);
                if !contains_text(&list, mangled.as_str()) {
                    let ghost pre = list@;
                    list.push(mangled);
                    proof {
                        assert(list@.map_values(|v: String| v@) =~= had.push(mangled@));
                        assert(!had.contains(mangled@)) by {
                            if had.contains(mangled@) {
                                let k = choose|k: int| 0 <= k < had.len() && had[k] == mangled@;
                                assert(pre[k]@ == mangled@);
                            }
                        }
                    }
                } else {
                    proof {
                        let k = choose|k: int| 0 <= k < list@.len() && #[trigger] list@[k]@ == mangled@;
                        assert(had[k] == mangled@);
                    }
                }
                let ghost newlist = list@;
                self.captured_vars_by_owner.set(j, (owner, list));
                proof {
                    lemma_caps_update(old_entries, j as int, self.captured_vars_by_owner@[j as int]);
                    assert(self.captured_vars_by_owner@ =~= old_entries.update(j as int, self.captured_vars_by_owner@[j as int]));
                    assert forall|i: int| 0 <= i < self.captured_vars_by_owner@.len()
                        implies distinct_texts(#[trigger] self.captured_vars_by_owner@[i].1@) by {
                        if i != j {
                            assert(self.captured_vars_by_owner@[i] == old_entries[i]);
                        }
                    }
                }
            },
            None => {
                proof { lemma_caps_lacks(self.captured_vars_by_owner@, owner@); }
                let ghost old_entries = self.captured_vars_by_owner@;
                let mut list: Vec<String> = Vec::new();
                list.push(mangled);
                self.captured_vars_by_owner.push((owner, list));
                proof {
                    assert(self.captured_vars_by_owner@.drop_last() =~= old_entries);
                    assert(list@.map_values(|v: String| v@) =~= seq![mangled@]);
                    assert(seq![mangled@] =~= Seq::<Seq<char>>::empty().push(mangled@));
                }
            },
        }
        proof {
            assert(self.scope_views() =~= before.scope_views());
        }
    }

    /// Starts building the environment of the function `name`: it becomes the
    /// innermost owner, with an empty set of captured names unless it has one.
    pub fn push_env_owner(&mut self, name: String)
        requires
            old(self).wf(),
        ensures
            final(self).wf(),
            final(self).scope_views() == old(self).scope_views(),
            final(self).lambda_level() == old(self).lambda_level(),
            final(self).next_id() == old(self).next_id(),
            final(self).settings() == old(self).settings(),
            final(self).captured().0 == old(self).captured().0.push(name@),
            final(self).captured().1 == (if old(self).captured().1.contains_key(name@) {
                old(self).captured().1
            } else {
                old(self).captured().1.insert(name@, seq![])
            }),
            final(self).captured().2 == old(self).captured().2,
    {
        let ghost before = *self;
        self.env_owner_stack.push(name.clone());
        match find_owner(&self.captured_vars_by_owner, name.as_str()) {
            Some(j) => {
                proof { lemma_caps_has(self.captured_vars_by_owner@, j as int); }
            },
            None => {
                proof { lemma_caps_lacks(self.captured_vars_by_owner@, name@); }
                let ghost old_entries = self.captured_vars_by_owner@;
                self.captured_vars_by_owner.push((name, Vec::new()));
                proof {
                    assert(self.captured_vars_by_owner@.drop_last() =~= old_entries);
                    assert(self.captured_vars_by_owner@.last().1@.map_values(|v: String| v@) =~= Seq::<Seq<char>>::empty());
                }
            },
        }
        proof {
            assert(self.captured().0 =~= before.captured().0.push(name@));
            assert(self.scope_views() =~= before.scope_views());
        }
    }

    /// Ends building the innermost owner's environment.
    pub fn pop_env_owner(&mut self)
        requires
            old(self).wf(),
        ensures
            final(self).wf(),
            final(self).scope_views() == old(self).scope_views(),
            final(self).lambda_level() == old(self).lambda_level(),
            final(self).next_id() == old(self).next_id(),
            final(self).settings() == old(self).settings(),
            final(self).captured().0 == (if old(self).captured().0.len() == 0 {
                old(self).captured().0
            } else {
                old(self).captured().0.drop_last()
            }),
            final(self).captured().1 == old(self).captured().1,
            final(self).captured().2 == old(self).captured().2,
    {
        let ghost before = *self;
        if self.env_owner_stack.len() > 0 {
            self.env_owner_stack.pop();
        }
        proof {
            assert(self.captured().0 =~= (if before.captured().0.len() == 0 {
                before.captured().0
            } else {
                before.captured().0.drop_last()
            }));
            assert(self.scope_views() =~= before.scope_views());
        }
    }

    /// The innermost owner whose environment is being built.
    pub fn current_env_owner(&self) -> (r: Option<String>)
        ensures
            self.captured().0.len() == 0 ==> r is None,
            self.captured().0.len() > 0 ==> (r matches Some(o) && o@ == self.captured().0.last()),
    {
        let n = self.env_owner_stack.len();
        if n > 0 {
            Some(self.env_owner_stack[n - 1].clone())
        } else {
            None
        }
    }

    /// Makes the innermost owner the owner of the lambda `lambda_name`, when there is one.
    pub fn register_lambda_env_owner(&mut self, lambda_name: &str)
        requires
            old(self).wf(),
        ensures
            final(self).wf(),
            final(self).scope_views() == old(self).scope_views(),
            final(self).lambda_level() == old(self).lambda_level(),
            final(self).next_id() == old(self).next_id(),
            final(self).settings() == old(self).settings(),
            final(self).captured().0 == old(self).captured().0,
            final(self).captured().1 == old(self).captured().1,
            final(self).captured().2 == (if old(self).captured().0.len() == 0 {
                old(self).captured().2
            } else {
                old(self).captured().2.insert(lambda_name@, old(self).captured().0.last())
            }),
    {
        let ghost before = *self;
        match self.current_env_owner() {
            Some(owner) => {
                insert_name(&mut self.lambda_env_owner, owner_of(lambda_name), owner);
            },
            None => {},
        }
        proof {
            assert(self.scope_views() =~= before.scope_views());
        }
    }
}

/// A name is found where its latest definition put it: in the innermost scope,
/// with the mangled name that definition gave.
pub proof fn law_lookup_after_define(before: Lowering, after: Lowering, name: Seq<char>, ty: TejxType, mangled: Seq<char>)
    requires
        after.defined(before, name, ty, mangled),
        before.scope_views().len() > 0,
    ensures
        binding_scope(after.scope_views(), name) == Some(after.scope_views().len() - 1),
        after.scope_views().last().0[name].0 == mangled,
{
}

/// Defining a name the innermost scope defines already changes nothing and gives
/// back its mangled name.
pub proof fn law_define_twice(before: Lowering, after: Lowering, name: Seq<char>, ty: TejxType, mangled: Seq<char>)
    requires
        after.defined(before, name, ty, mangled),
        before.scope_views().len() > 0,
        before.scope_views().last().0.contains_key(name),
    ensures
        after.scope_views() == before.scope_views(),
        after.next_id() == before.next_id(),
        mangled == before.scope_views().last().0[name].0,
{
}

/// Two definitions of one name in nested scopes, numbered apart, get different
/// mangled names.
pub proof fn law_nested_names_apart(name: Seq<char>, d1: nat, d2: nat, id1: nat, id2: nat)
    requires
        d1 > 0,
        d2 > 0,
        id1 != id2,
    ensures
        mangled_name(name, d1, id1) != mangled_name(name, d2, id2),
{
    let m1 = mangled_name(name, d1, id1);
    let m2 = mangled_name(name, d2, id2);
    if m1 == m2 {
        let k = name.len() as int + 1;
        assert(decimal(id1) =~= m1.subrange(k, m1.len() as int));
        assert(decimal(id2) =~= m2.subrange(k, m2.len() as int));
        lemma_decimal_injective(id1, id2);
    }
}

/// Leaving a lambda scope right after entering it gives back the scopes and the
/// lambda level from before.
pub proof fn law_lambda_scope_round_trip(before: Lowering, inside: Lowering, after: Lowering)
    requires
        before.wf(),
        inside.lambda_level() == before.lambda_level() + 1,
        inside.scope_views() == before.scope_views().push((Map::empty(), inside.lambda_level() as usize)),
        after.scope_views() == inside.scope_views().drop_last(),
        after.lambda_level() == depth_after_exit(inside.scope_views(), inside.lambda_level()),
    ensures
        after.scope_views() == before.scope_views(),
        after.lambda_level() == before.lambda_level(),
{
    let views = inside.scope_views();
    assert(views.drop_last() =~= before.scope_views());
    assert forall|i: int| 0 <= i < views.len() - 1 implies #[trigger] views[i].1 != views.last().1 by {
        assert(views[i] == before.scope_views()[i]);
        assert(before.scopes@[i].1 <= before.lambda_depth);
    }
}

/// A name defined in a scope other than the outermost, looked up from the body of
/// a lambda entered after it, is found there and counts as captured.
pub proof fn law_capture_across_lambda(outer: Lowering, inside: Lowering, name: Seq<char>)
    requires
        outer.wf(),
        outer.scope_views().len() > 1,
        outer.scope_views().last().0.contains_key(name),
        inside.lambda_level() == outer.lambda_level() + 1,
        inside.scope_views() == outer.scope_views().push((Map::empty(), inside.lambda_level() as usize)),
    ensures
        binding_scope(inside.scope_views(), name) == Some(outer.scope_views().len() - 1),
        crosses_lambda(inside.scope_views(), outer.scope_views().len() - 1),
{
    let views = inside.scope_views();
    let i = outer.scope_views().len() - 1;
    assert(views.drop_last() =~= outer.scope_views());
    assert(!views.last().0.contains_key(name));
    assert(binding_scope(views, name) == binding_scope(outer.scope_views(), name));
    assert(outer.scope_views()[i] == views[i]);
    assert(outer.scopes@[i].1 <= outer.lambda_depth);
}

/// A sanitized type text is fit for a symbol: no `<`, `>`, `,`, `|`, `&`, `{`, `}`, `:`,
/// `;` or space is left in it.
pub proof fn law_sanitized_symbol_safe(raw: Seq<char>)
    ensures
        !sanitized(raw).contains('<'),
        !sanitized(raw).contains('>'),
        !sanitized(raw).contains(','),
        !sanitized(raw).contains('|'),
        !sanitized(raw).contains('&'),
        !sanitized(raw).contains('{'),
        !sanitized(raw).contains('}'),
        !sanitized(raw).contains(':'),
        !sanitized(raw).contains(';'),
        !sanitized(raw).contains(' '),
{
    reveal_strlit("_arr");
    reveal_strlit("_");
    reveal_strlit("_or_");
    reveal_strlit("_and_");
    reveal_strlit("_obj_");
    reveal_strlit("|");
    reveal_strlit(";");
    reveal_strlit("&");
    reveal_strlit("}");
    reveal_strlit("{");
    reveal_strlit(", ");
    reveal_strlit("[]");
    reveal_strlit("<");
    reveal_strlit("; ");
    reveal_strlit(":");
    reveal_strlit(">");
    reveal_strlit(": ");
    reveal_strlit(" }");
    reveal_strlit(",");
    reveal_strlit(" ");
    reveal_strlit("{ ");
    reveal_strlit(" & ");
    reveal_strlit(" | ");
    let s0 = replaced(raw, "[]"@, "_arr"@);
    let s1 = replaced(s0, "<"@, "_"@);
    let s2 = replaced(s1, ">"@, "_"@);
    let s3 = replaced(s2, ", "@, "_"@);
    let s4 = replaced(s3, ","@, "_"@);
    let s5 = replaced(s4, " | "@, "_or_"@);
    let s6 = replaced(s5, "|"@, "_"@);
    let s7 = replaced(s6, " & "@, "_and_"@);
    let s8 = replaced(s7, "&"@, "_"@);
    let s9 = replaced(s8, "{ "@, "_obj_"@);
    let s10 = replaced(s9, " }"@, "_"@);
    let s11 = replaced(s10, "{"@, "_"@);
    let s12 = replaced(s11, "}"@, "_"@);
    let s13 = replaced(s12, ": "@, "_"@);
    let s14 = replaced(s13, ":"@, "_"@);
    let s15 = replaced(s14, "; "@, "_"@);
    let s16 = replaced(s15, ";"@, "_"@);
    let s17 = replaced(s16, " "@, "_"@);
    assert(sanitized(raw) == s17);
    assert("<"@ =~= seq!['<']);
    lemma_replaced_removes(s0, '<', "_"@);
    lemma_replaced_keeps_out(s1, ">"@, "_"@, '<');
    lemma_replaced_keeps_out(s2, ", "@, "_"@, '<');
    lemma_replaced_keeps_out(s3, ","@, "_"@, '<');
    lemma_replaced_keeps_out(s4, " | "@, "_or_"@, '<');
    lemma_replaced_keeps_out(s5, "|"@, "_"@, '<');
    lemma_replaced_keeps_out(s6, " & "@, "_and_"@, '<');
    lemma_replaced_keeps_out(s7, "&"@, "_"@, '<');
    lemma_replaced_keeps_out(s8, "{ "@, "_obj_"@, '<');
    lemma_replaced_keeps_out(s9, " }"@, "_"@, '<');
    lemma_replaced_keeps_out(s10, "{"@, "_"@, '<');
    lemma_replaced_keeps_out(s11, "}"@, "_"@, '<');
    lemma_replaced_keeps_out(s12, ": "@, "_"@, '<');
    lemma_replaced_keeps_out(s13, ":"@, "_"@, '<');
    lemma_replaced_keeps_out(s14, "; "@, "_"@, '<');
    lemma_replaced_keeps_out(s15, ";"@, "_"@, '<');
    lemma_replaced_keeps_out(s16, " "@, "_"@, '<');
    assert(">"@ =~= seq!['>']);
    lemma_replaced_removes(s1, '>', "_"@);
    lemma_replaced_keeps_out(s2, ", "@, "_"@, '>');
    lemma_replaced_keeps_out(s3, ","@, "_"@, '>');
    lemma_replaced_keeps_out(s4, " | "@, "_or_"@, '>');
    lemma_replaced_keeps_out(s5, "|"@, "_"@, '>');
    lemma_replaced_keeps_out(s6, " & "@, "_and_"@, '>');
    lemma_replaced_keeps_out(s7, "&"@, "_"@, '>');
    lemma_replaced_keeps_out(s8, "{ "@, "_obj_"@, '>');
    lemma_replaced_keeps_out(s9, " }"@, "_"@, '>');
    lemma_replaced_keeps_out(s10, "{"@, "_"@, '>');
    lemma_replaced_keeps_out(s11, "}"@, "_"@, '>');
    lemma_replaced_keeps_out(s12, ": "@, "_"@, '>');
    lemma_replaced_keeps_out(s13, ":"@, "_"@, '>');
    lemma_replaced_keeps_out(s14, "; "@, "_"@, '>');
    lemma_replaced_keeps_out(s15, ";"@, "_"@, '>');
    lemma_replaced_keeps_out(s16, " "@, "_"@, '>');
    assert(","@ =~= seq![',']);
    lemma_replaced_removes(s3, ',', "_"@);
    lemma_replaced_keeps_out(s4, " | "@, "_or_"@, ',');
    lemma_replaced_keeps_out(s5, "|"@, "_"@, ',');
    lemma_replaced_keeps_out(s6, " & "@, "_and_"@, ',');
    lemma_replaced_keeps_out(s7, "&"@, "_"@, ',');
    lemma_replaced_keeps_out(s8, "{ "@, "_obj_"@, ',');
    lemma_replaced_keeps_out(s9, " }"@, "_"@, ',');
    lemma_replaced_keeps_out(s10, "{"@, "_"@, ',');
    lemma_replaced_keeps_out(s11, "}"@, "_"@, ',');
    lemma_replaced_keeps_out(s12, ": "@, "_"@, ',');
    lemma_replaced_keeps_out(s13, ":"@, "_"@, ',');
    lemma_replaced_keeps_out(s14, "; "@, "_"@, ',');
    lemma_replaced_keeps_out(s15, ";"@, "_"@, ',');
    lemma_replaced_keeps_out(s16, " "@, "_"@, ',');
    assert("|"@ =~= seq!['|']);
    lemma_replaced_removes(s5, '|', "_"@);
    lemma_replaced_keeps_out(s6, " & "@, "_and_"@, '|');
    lemma_replaced_keeps_out(s7, "&"@, "_"@, '|');
    lemma_replaced_keeps_out(s8, "{ "@, "_obj_"@, '|');
    lemma_replaced_keeps_out(s9, " }"@, "_"@, '|');
    lemma_replaced_keeps_out(s10, "{"@, "_"@, '|');
    lemma_replaced_keeps_out(s11, "}"@, "_"@, '|');
    lemma_replaced_keeps_out(s12, ": "@, "_"@, '|');
    lemma_replaced_keeps_out(s13, ":"@, "_"@, '|');
    lemma_replaced_keeps_out(s14, "; "@, "_"@, '|');
    lemma_replaced_keeps_out(s15, ";"@, "_"@, '|');
    lemma_replaced_keeps_out(s16, " "@, "_"@, '|');
    assert("&"@ =~= seq!['&']);
    lemma_replaced_removes(s7, '&', "_"@);
    lemma_replaced_keeps_out(s8, "{ "@, "_obj_"@, '&');
    lemma_replaced_keeps_out(s9, " }"@, "_"@, '&');
    lemma_replaced_keeps_out(s10, "{"@, "_"@, '&');
    lemma_replaced_keeps_out(s11, "}"@, "_"@, '&');
    lemma_replaced_keeps_out(s12, ": "@, "_"@, '&');
    lemma_replaced_keeps_out(s13, ":"@, "_"@, '&');
    lemma_replaced_keeps_out(s14, "; "@, "_"@, '&');
    lemma_replaced_keeps_out(s15, ";"@, "_"@, '&');
    lemma_replaced_keeps_out(s16, " "@, "_"@, '&');
    assert("{"@ =~= seq!['{']);
    lemma_replaced_removes(s10, '{', "_"@);
    lemma_replaced_keeps_out(s11, "}"@, "_"@, '{');
    lemma_replaced_keeps_out(s12, ": "@, "_"@, '{');
    lemma_replaced_keeps_out(s13, ":"@, "_"@, '{');
    lemma_replaced_keeps_out(s14, "; "@, "_"@, '{');
    lemma_replaced_keeps_out(s15, ";"@, "_"@, '{');
    lemma_replaced_keeps_out(s16, " "@, "_"@, '{');
    assert("}"@ =~= seq!['}']);
    lemma_replaced_removes(s11, '}', "_"@);
    lemma_replaced_keeps_out(s12, ": "@, "_"@, '}');
    lemma_replaced_keeps_out(s13, ":"@, "_"@, '}');
    lemma_replaced_keeps_out(s14, "; "@, "_"@, '}');
    lemma_replaced_keeps_out(s15, ";"@, "_"@, '}');
    lemma_replaced_keeps_out(s16, " "@, "_"@, '}');
    assert(":"@ =~= seq![':']);
    lemma_replaced_removes(s13, ':', "_"@);
    lemma_replaced_keeps_out(s14, "; "@, "_"@, ':');
    lemma_replaced_keeps_out(s15, ";"@, "_"@, ':');
    lemma_replaced_keeps_out(s16, " "@, "_"@, ':');
    assert(";"@ =~= seq![';']);
    lemma_replaced_removes(s15, ';', "_"@);
    lemma_replaced_keeps_out(s16, " "@, "_"@, ';');
    assert(" "@ =~= seq![' ']);
    lemma_replaced_removes(s16, ' ', "_"@);
}

/// Resolving aliases leaves a type with no alias name in it as it is, so a type
/// resolved to that point is resolved once and for all; with no alias registered,
/// every type is such a type.
pub proof fn law_no_alias_no_change(aliases: Map<Seq<char>, TejxType>, ty: TejxType, depth: nat, r: TejxType)
    requires
        aliases == Map::<Seq<char>, TejxType>::empty() || alias_free(aliases, ty),
        alias_resolved(aliases, ty, depth, r),
    ensures
        ty.same_as(&r),
    decreases 21 - depth,
{
    if depth <= 20 {
        match ty {
            TejxType::Class(name, generics) => {
                assert forall|i: int| 0 <= i < generics@.len() implies (#[trigger] generics@[i]).same_as(&r->Class_1@[i]) by {
                    law_no_alias_no_change(aliases, generics@[i], depth + 1, r->Class_1@[i]);
                }
            },
            TejxType::FixedArray(inner, _) => {
                law_no_alias_no_change(aliases, *inner, depth + 1, *r->FixedArray_0);
            },
            TejxType::DynamicArray(inner) => {
                law_no_alias_no_change(aliases, *inner, depth + 1, *r->DynamicArray_0);
            },
            TejxType::Slice(inner) => {
                law_no_alias_no_change(aliases, *inner, depth + 1, *r->Slice_0);
            },
            TejxType::Function(params, ret) => {
                assert forall|i: int| 0 <= i < params@.len() implies (#[trigger] params@[i]).same_as(&r->Function_0@[i]) by {
                    law_no_alias_no_change(aliases, params@[i], depth + 1, r->Function_0@[i]);
                }
                law_no_alias_no_change(aliases, *ret, depth + 1, *r->Function_1);
            },
            TejxType::Union(types) => {
                assert forall|i: int| 0 <= i < types@.len() implies (#[trigger] types@[i]).same_as(&r->Union_0@[i]) by {
                    law_no_alias_no_change(aliases, types@[i], depth + 1, r->Union_0@[i]);
                }
            },
            TejxType::Object(props) => {
                assert forall|i: int| 0 <= i < props@.len() implies {
                    &&& (#[trigger] props@[i]).0@ == r->Object_0@[i].0@
                    &&& props@[i].1 == r->Object_0@[i].1
                    &&& props@[i].2.same_as(&r->Object_0@[i].2)
                } by {
                    law_no_alias_no_change(aliases, props@[i].2, depth + 1, r->Object_0@[i].2);
                }
            },
            _ => {},
        }
    }
}

/// Where resolution ends before the cut, the resolved type names no alias.
pub proof fn law_resolved_alias_free(aliases: Map<Seq<char>, TejxType>, ty: TejxType, depth: nat, r: TejxType)
    requires
        resolves_within(aliases, ty, depth),
        alias_resolved(aliases, ty, depth, r),
    ensures
        alias_free(aliases, r),
    decreases 21 - depth,
{
    if depth <= 20 {
        match ty {
            TejxType::Class(name, generics) => {
                if aliases.contains_key(name@) {
                    law_resolved_alias_free(aliases, aliases[name@], depth + 1, r);
                } else {
                    assert forall|i: int| 0 <= i < r->Class_1@.len() implies alias_free(aliases, #[trigger] r->Class_1@[i]) by {
                        law_resolved_alias_free(aliases, generics@[i], depth + 1, r->Class_1@[i]);
                    }
                }
            },
            TejxType::FixedArray(inner, _) => {
                law_resolved_alias_free(aliases, *inner, depth + 1, *r->FixedArray_0);
            },
            TejxType::DynamicArray(inner) => {
                law_resolved_alias_free(aliases, *inner, depth + 1, *r->DynamicArray_0);
            },
            TejxType::Slice(inner) => {
                law_resolved_alias_free(aliases, *inner, depth + 1, *r->Slice_0);
            },
            TejxType::Function(params, ret) => {
                assert forall|i: int| 0 <= i < r->Function_0@.len() implies alias_free(aliases, #[trigger] r->Function_0@[i]) by {
                    law_resolved_alias_free(aliases, params@[i], depth + 1, r->Function_0@[i]);
                }
                law_resolved_alias_free(aliases, *ret, depth + 1, *r->Function_1);
            },
            TejxType::Union(types) => {
                assert forall|i: int| 0 <= i < r->Union_0@.len() implies alias_free(aliases, #[trigger] r->Union_0@[i]) by {
                    law_resolved_alias_free(aliases, types@[i], depth + 1, r->Union_0@[i]);
                }
            },
            TejxType::Object(props) => {
                assert forall|i: int| 0 <= i < r->Object_0@.len() implies alias_free(aliases, (#[trigger] r->Object_0@[i]).2) by {
                    law_resolved_alias_free(aliases, props@[i].2, depth + 1, r->Object_0@[i].2);
                }
            },
            _ => {},
        }
    }
}

/// Resolving aliases twice gives what resolving once gave, where the first
/// resolution ends before the cut (so not with aliases in a cycle).
pub proof fn law_resolve_idempotent(aliases: Map<Seq<char>, TejxType>, ty: TejxType, r: TejxType, r2: TejxType)
    requires
        resolves_within(aliases, ty, 0),
        alias_resolved(aliases, ty, 0, r),
        alias_resolved(aliases, r, 0, r2),
    ensures
        r.same_as(&r2),
{
    law_resolved_alias_free(aliases, ty, 0, r);
    law_no_alias_no_change(aliases, r, 0, r2);
}

/// A table of names and counts, a later entry for a name taking the place of an
/// earlier one.
pub open spec fn count_map(entries: Seq<(String, usize)>) -> Map<Seq<char>, usize>
    decreases entries.len(),
{
    if entries.len() == 0 {
        Map::empty()
    } else {
        count_map(entries.drop_last()).insert(entries.last().0@, entries.last().1)
    }
}

/// Entries after `i` that are not for `name` leave what the table holds for `name`
/// as the entries before `i` give it.
pub proof fn lemma_count_map_tail(es: Seq<(String, usize)>, name: Seq<char>, i: int)
    requires
        0 <= i <= es.len(),
        forall|k: int| i <= k < es.len() ==> es[k].0@ != name,
    ensures
        count_map(es).contains_key(name) == count_map(es.take(i)).contains_key(name),
        count_map(es).contains_key(name) ==> count_map(es)[name] == count_map(es.take(i))[name],
    decreases es.len(),
{
    if es.len() == i {
        assert(es.take(i) =~= es);
    } else {
        lemma_count_map_tail(es.drop_last(), name, i);
        assert(es.drop_last().take(i) =~= es.take(i));
    }
}

/// How many parameters come before the first rest parameter (all of them where none
/// gathers the rest).
pub open spec fn fixed_count(ps: Seq<Parameter>) -> nat
    decreases ps.len(),
{
    if ps.len() == 0 || ps[0]._is_rest {
        0
    } else {
        1 + fixed_count(ps.drop_first())
    }
}

/// `m` with the function `name` noted as variadic where one of its parameters `ps`
/// gathers the rest.
pub open spec fn note_variadic(m: Map<Seq<char>, usize>, name: Seq<char>, ps: Seq<Parameter>) -> Map<Seq<char>, usize> {
    if fixed_count(ps) < ps.len() {
        m.insert(name, fixed_count(ps) as usize)
    } else {
        m
    }
}

/// `m` with the variadic methods among `methods` of class `class` noted, as
/// `CLASS_METHOD`.
pub open spec fn note_methods(m: Map<Seq<char>, usize>, class: Seq<char>, methods: Seq<ClassMethod>) -> Map<Seq<char>, usize>
    decreases methods.len(),
{
    if methods.len() == 0 {
        m
    } else {
        let last = methods.last().func;
        note_variadic(note_methods(m, class, methods.drop_last()), class + "_"@ + last.name@, last.params@)
    }
}

/// `m` with the variadic methods and constructor (as `CLASS_constructor`) of `c` noted.
pub open spec fn note_class(m: Map<Seq<char>, usize>, c: ClassDeclaration) -> Map<Seq<char>, usize> {
    let with_methods = note_methods(m, c.name@, c.methods@);
    match c._constructor {
        Some(k) => note_variadic(with_methods, c.name@ + "_constructor"@, k.params@),
        None => with_methods,
    }
}

/// `m` with what the top-level statement `s` declares noted: a function, a class, or
/// either exported (an exported class only for its methods and constructor).
pub open spec fn note_statement(m: Map<Seq<char>, usize>, s: Statement) -> Map<Seq<char>, usize> {
    match s {
        Statement::FunctionDeclaration(f) => note_variadic(m, f.name@, f.params@),
        Statement::ClassDeclaration(c) => note_class(m, c),
        Statement::ExportDecl { declaration, .. } => match *declaration {
            Statement::FunctionDeclaration(f) => note_variadic(m, f.name@, f.params@),
            Statement::ClassDeclaration(c) => note_class(m, c),
            _ => m,
        },
        _ => m,
    }
}

/// `m` with what each of `stmts` declares noted, in order.
pub open spec fn note_program(m: Map<Seq<char>, usize>, stmts: Seq<Statement>) -> Map<Seq<char>, usize>
    decreases stmts.len(),
{
    if stmts.len() == 0 {
        m
    } else {
        note_statement(note_program(m, stmts.drop_last()), stmts.last())
    }
}

/// The function named `main` that `s` declares, itself or exported.
pub open spec fn main_of(s: Statement) -> Option<FunctionDeclaration> {
    match s {
        Statement::FunctionDeclaration(f) => if f.name@ == "main"@ { Some(f) } else { None },
        Statement::ExportDecl { declaration, .. } => match *declaration {
            Statement::FunctionDeclaration(f) => if f.name@ == "main"@ { Some(f) } else { None },
            _ => None,
        },
        _ => None,
    }
}

/// Whether the last `main` that `stmts` declare is async; false where none is declared.
pub open spec fn main_is_async(stmts: Seq<Statement>) -> bool
    decreases stmts.len(),
{
    if stmts.len() == 0 {
        false
    } else {
        match main_of(stmts.last()) {
            Some(f) => f._is_async,
            None => main_is_async(stmts.drop_last()),
        }
    }
}

/// The first parameter of `ps` that gathers the rest stands at `j`.
pub open spec fn first_rest_at(ps: Seq<Parameter>, j: int) -> bool {
    &&& 0 <= j < ps.len()
    &&& ps[j]._is_rest
    &&& forall|i: int| 0 <= i < j ==> !(#[trigger] ps[i])._is_rest
}

/// `s` could add an entry under `key` to the table of variadic functions: it declares
/// a function named `key`, or a class whose name and `_` begin `key` (itself or
/// exported).
pub open spec fn may_note(s: Statement, key: Seq<char>) -> bool {
    match s {
        Statement::FunctionDeclaration(f) => f.name@ == key,
        Statement::ClassDeclaration(c) => (c.name@ + "_"@).is_prefix_of(key),
        Statement::ExportDecl { declaration, .. } => match *declaration {
            Statement::FunctionDeclaration(f) => f.name@ == key,
            Statement::ClassDeclaration(c) => (c.name@ + "_"@).is_prefix_of(key),
            _ => false,
        },
        _ => false,
    }
}

/// `s` declares (itself or exported) a function `key`, or a class whose constructor is
/// named by `key` as `CLASS_constructor`, whose first rest parameter stands at `j`.
pub open spec fn variadic_at(s: Statement, key: Seq<char>, j: int) -> bool {
    let d = match s {
        Statement::ExportDecl { declaration, .. } => *declaration,
        _ => s,
    };
    match d {
        Statement::FunctionDeclaration(f) => f.name@ == key && first_rest_at(f.params@, j),
        Statement::ClassDeclaration(c) => c._constructor matches Some(k) && key == c.name@ + "_constructor"@
            && first_rest_at(k.params@, j),
        _ => false,
    }
}

/// `m2` holds for `key` what `m1` holds.
pub open spec fn same_entry(m1: Map<Seq<char>, usize>, m2: Map<Seq<char>, usize>, key: Seq<char>) -> bool {
    &&& m2.contains_key(key) == m1.contains_key(key)
    &&& m1.contains_key(key) ==> m2[key] == m1[key]
}

proof fn lemma_fixed_count_at(ps: Seq<Parameter>, j: int)
    requires
        first_rest_at(ps, j),
    ensures
        fixed_count(ps) == j,
    decreases j,
{
    if j > 0 {
        let t = ps.drop_first();
        assert forall|i: int| 0 <= i < j - 1 implies !(#[trigger] t[i])._is_rest by {
            assert(t[i] == ps[i + 1]);
        }
        assert(!ps[0]._is_rest);
        lemma_fixed_count_at(t, j - 1);
    }
}

proof fn lemma_fixed_count_le(ps: Seq<Parameter>)
    ensures
        fixed_count(ps) <= ps.len(),
    decreases ps.len(),
{
    if ps.len() > 0 && !ps[0]._is_rest {
        lemma_fixed_count_le(ps.drop_first());
    }
}

proof fn lemma_name_after_prefix(c: Seq<char>, a: Seq<char>, b: Seq<char>)
    requires
        c + "_"@ + a == c + "_"@ + b,
    ensures
        a == b,
{
    let p = c + "_"@;
    assert((p + a).subrange(p.len() as int, (p + a).len() as int) =~= a);
    assert((p + b).subrange(p.len() as int, (p + b).len() as int) =~= b);
}

/// Noting methods of class `class` adds entries only under `CLASS_` keys.
proof fn lemma_note_methods_frame(m: Map<Seq<char>, usize>, class: Seq<char>, ms: Seq<ClassMethod>, key: Seq<char>)
    requires
        forall|t: int| 0 <= t < ms.len() ==> class + "_"@ + (#[trigger] ms[t]).func.name@ != key,
    ensures
        same_entry(m, note_methods(m, class, ms), key),
    decreases ms.len(),
{
    if ms.len() > 0 {
        lemma_note_methods_frame(m, class, ms.drop_last(), key);
        assert(class + "_"@ + ms[ms.len() - 1].func.name@ != key);
    }
}

/// A statement that cannot note `key` leaves its entry as it was.
proof fn lemma_note_statement_frame(m: Map<Seq<char>, usize>, s: Statement, key: Seq<char>)
    requires
        !may_note(s, key),
    ensures
        same_entry(m, note_statement(m, s), key),
{
    reveal_strlit("_");
    reveal_strlit("_constructor");
    let d = match s {
        Statement::ExportDecl { declaration, .. } => *declaration,
        _ => s,
    };
    match d {
        Statement::ClassDeclaration(c) => {
            let p = c.name@ + "_"@;
            assert forall|t: int| 0 <= t < c.methods@.len() implies c.name@ + "_"@ + (#[trigger] c.methods@[t]).func.name@ != key by {
                if c.name@ + "_"@ + c.methods@[t].func.name@ == key {
                    assert(p.is_prefix_of(key)) by {
                        assert(key.subrange(0, p.len() as int) =~= p);
                    }
                }
            }
            lemma_note_methods_frame(m, c.name@, c.methods@, key);
            if c.name@ + "_constructor"@ == key {
                assert(p.is_prefix_of(key)) by {
                    assert(key.subrange(0, p.len() as int) =~= p);
                }
            }
        },
        _ => {},
    }
}

/// A statement that notes `key` as variadic with `j` fixed parameters leaves that entry.
proof fn lemma_note_statement_variadic(m: Map<Seq<char>, usize>, s: Statement, key: Seq<char>, j: int)
    requires
        variadic_at(s, key, j),
    ensures
        note_statement(m, s).contains_key(key),
        note_statement(m, s)[key] as int == j,
{
    let d = match s {
        Statement::ExportDecl { declaration, .. } => *declaration,
        _ => s,
    };
    match d {
        Statement::FunctionDeclaration(f) => {
            assert(f.params@.len() == f.params.len());
            lemma_fixed_count_at(f.params@, j);
        },
        Statement::ClassDeclaration(c) => {
            let k = c._constructor->Some_0;
            assert(k.params@.len() == k.params.len());
            lemma_fixed_count_at(k.params@, j);
        },
        _ => {},
    }
}

/// The table after reading statements: an entry a statement made stays unless a later
/// statement could note the same key.
proof fn lemma_note_program_variadic(m: Map<Seq<char>, usize>, ss: Seq<Statement>, k: int, key: Seq<char>, j: int)
    requires
        0 <= k < ss.len(),
        variadic_at(ss[k], key, j),
        forall|t: int| k < t < ss.len() ==> !may_note(#[trigger] ss[t], key),
    ensures
        note_program(m, ss).contains_key(key),
        note_program(m, ss)[key] as int == j,
    decreases ss.len(),
{
    let last = ss.len() - 1;
    if k == last {
        lemma_note_statement_variadic(note_program(m, ss.drop_last()), ss[last], key, j);
    } else {
        lemma_note_program_variadic(m, ss.drop_last(), k, key, j);
        assert(!may_note(ss[last], key));
        lemma_note_statement_frame(note_program(m, ss.drop_last()), ss[last], key);
    }
}

/// The table after reading statements none of which could note `key` holds for `key`
/// what it held before.
proof fn lemma_note_program_frame(m: Map<Seq<char>, usize>, ss: Seq<Statement>, key: Seq<char>)
    requires
        forall|t: int| 0 <= t < ss.len() ==> !may_note(#[trigger] ss[t], key),
    ensures
        same_entry(m, note_program(m, ss), key),
    decreases ss.len(),
{
    if ss.len() > 0 {
        lemma_note_program_frame(m, ss.drop_last(), key);
        assert(!may_note(ss[ss.len() - 1], key));
        lemma_note_statement_frame(note_program(m, ss.drop_last()), ss[ss.len() - 1], key);
    }
}

/// Noting the methods `a` and then `b` is noting `a + b`.
proof fn lemma_note_methods_append(m: Map<Seq<char>, usize>, class: Seq<char>, a: Seq<ClassMethod>, b: Seq<ClassMethod>)
    ensures
        note_methods(m, class, a + b) == note_methods(note_methods(m, class, a), class, b),
    decreases b.len(),
{
    if b.len() == 0 {
        assert(a + b =~= a);
    } else {
        assert((a + b).drop_last() =~= a + b.drop_last());
        lemma_note_methods_append(m, class, a, b.drop_last());
    }
}

/// How many of `params` come before the first rest parameter.
pub fn fixed_params(params: &Vec<Parameter>) -> (n: usize)
    ensures
        n == fixed_count(params@),
{
    let mut i: usize = 0;
    proof {
        assert(params@.subrange(0, params@.len() as int) =~= params@);
    }
    while i < params.len() && !params[i]._is_rest
        invariant
            i <= params@.len(),
            fixed_count(params@) == i + fixed_count(params@.subrange(i as int, params@.len() as int)),
        decreases params@.len() - i,
    {
        proof {
            let rest = params@.subrange(i as int, params@.len() as int);
            assert(rest.drop_first() =~= params@.subrange(i + 1, params@.len() as int));
        }
        i = i + 1;
    }
    proof {
        let rest = params@.subrange(i as int, params@.len() as int);
        assert(fixed_count(rest) == 0);
    }
    i
}

/// `s` is the lowered function `f_main`, the program's own `main`.
pub open spec fn is_main_function(s: HIRStatement) -> bool {
    s matches HIRStatement::Function { name, .. } && name@ == "f_main"@
}

/// `s` is a function named `name` with the parameters `params` (names and types),
/// returning `ret`, not external, with no async parameters, at line 0, whose body is
/// a block at line 0.
pub open spec fn function_shell(s: HIRStatement, name: Seq<char>, params: Seq<(Seq<char>, TejxType)>, ret: TejxType) -> bool {
    match s {
        HIRStatement::Function { name: n, params: ps, _return_type, body, is_extern, async_params, line } => {
            &&& n@ == name
            &&& ps@.len() == params.len()
            &&& forall|i: int| 0 <= i < params.len() ==> (#[trigger] ps@[i]).0@ == params[i].0 && ps@[i].1 == params[i].1
            &&& _return_type == ret
            &&& !is_extern
            &&& async_params is None
            &&& line == 0
            &&& block_at(*body, 0)
        },
        _ => false,
    }
}

/// `s` runs the program's `main`: a call of `f_main` giving `main_return`, or, for an
/// async `main`, a wait on the promise that calling it gives.
pub open spec fn main_call_is(s: HIRStatement, main_is_async: bool, main_return: TejxType) -> bool {
    &&& s is ExpressionStmt
    &&& s->ExpressionStmt_line == 0
    &&& stmt_expr(s) matches Some(e) && if main_is_async {
        &&& call_is(e, 0, "rt_await"@, TejxType::Int64)
        &&& parts_of(e).len() == 1
        &&& call_is(parts_of(e)[0], 0, "f_main"@, TejxType::Int64)
        &&& parts_of(parts_of(e)[0]).len() == 0
    } else {
        &&& call_is(e, 0, "f_main"@, main_return)
        &&& parts_of(e).len() == 0
    }
}

/// The name a lookup of `name` gives in `scopes`: its mangled name where a scope
/// defines it, else `name` itself.
pub open spec fn looked_up(scopes: Seq<ScopeView>, name: Seq<char>) -> Seq<char> {
    match binding_scope(scopes, name) {
        Some(i) => scopes[i].0[name].0,
        None => name,
    }
}

/// The type of an async worker's context: an array of 64-bit integers.
pub open spec fn ctx_type() -> TejxType {
    TejxType::DynamicArray(Box::new(TejxType::Int64))
}

/// The name of the worker of the async function `name`.
pub open spec fn worker_name(name: Seq<char>) -> Seq<char> {
    "f_"@ + name + "_worker"@
}

/// How many zero slots the context of an async call holds behind its parameters,
/// for the locals that live across an `await`.
pub open spec fn ctx_padding() -> nat {
    512
}

/// `e` is `err`, of class `Error`.
pub open spec fn error_var(e: HIRExpression, line: usize) -> bool {
    match e {
        HIRExpression::Variable { line: l, name, ty: TejxType::Class(c, args) } => {
            l == line && name@ == "err"@ && c@ == "Error"@ && args@.len() == 0
        },
        _ => false,
    }
}

/// `s` calls `callee` on the promise `pid` and a second argument that `second` admits.
pub open spec fn settle_stmt(s: HIRStatement, line: usize, callee: Seq<char>, pid: Seq<char>, second: spec_fn(HIRExpression) -> bool) -> bool {
    &&& s is ExpressionStmt
    &&& s->ExpressionStmt_line == line
    &&& stmt_expr(s) matches Some(e) && {
        &&& call_is(e, line, callee, TejxType::Void)
        &&& parts_of(e).len() == 2
        &&& var_is(parts_of(e)[0], line, pid, TejxType::Int64)
        &&& second(parts_of(e)[1])
    }
}

/// `b` is the body of an async worker: it declares the promise variable `pid`, then
/// runs the lowered body (`inner`, or an empty block) and resolves the promise with
/// 0, or, where that throws `err`, rejects it with `err`; either way it then counts
/// one pending async operation down.
pub open spec fn worker_body_is(b: HIRStatement, line: usize, pid: Seq<char>, inner: Option<HIRStatement>) -> bool {
    let items = block_items(b);
    &&& block_at(b, line)
    &&& items.len() == 2
    &&& var_decl_is(items[0], line, pid, TejxType::Int64, false)
    &&& match items[1] {
        HIRStatement::Try { line: l, try_block, catch_var, catch_block, finally_block } => {
            let t = block_items(*try_block);
            let c = block_items(*catch_block);
            &&& l == line
            &&& finally_block is None
            &&& catch_var matches Some(v) && v@ == "err"@
            &&& block_at(*try_block, line)
            &&& t.len() == 3
            &&& match inner {
                Some(h) => t[0] == h,
                None => block_at(t[0], line) && block_items(t[0]).len() == 0,
            }
            &&& settle_stmt(t[1], line, "rt_promise_resolve"@, pid, |e: HIRExpression| lit_is(e, line, "0"@, TejxType::Int64))
            &&& bare_call_stmt(t[2], line, "tejx_dec_async_ops"@)
            &&& block_at(*catch_block, line)
            &&& c.len() == 2
            &&& settle_stmt(c[0], line, "rt_promise_reject"@, pid, |e: HIRExpression| error_var(e, line))
            &&& bare_call_stmt(c[1], line, "tejx_dec_async_ops"@)
        },
        _ => false,
    }
}

/// `f` is the worker of the async function `name`: `f_NAME_worker`, taking only the
/// context `ctx`, returning nothing, and carrying the function's own parameters.
pub open spec fn async_worker_is(
    f: HIRStatement,
    name: Seq<char>,
    params: Seq<(String, TejxType)>,
    line: usize,
    pid: Seq<char>,
    inner: Option<HIRStatement>,
) -> bool {
    match f {
        HIRStatement::Function { name: n, params: ps, _return_type, body, is_extern, async_params, line: l } => {
            &&& n@ == worker_name(name)
            &&& ps@.len() == 1
            &&& ps@[0].0@ == "ctx"@
            &&& ps@[0].1 == ctx_type()
            &&& _return_type == TejxType::Void
            &&& !is_extern
            &&& async_params matches Some(a) && same_params(a@, params)
            &&& l == line
            &&& worker_body_is(*body, line, pid, inner)
        },
        _ => false,
    }
}

/// `e` is the context an async call hands its worker: a clone of the promise `p`,
/// the state 0, each parameter under the name a lookup in `scopes` gives with its
/// own type, then the zero slots.
pub open spec fn ctx_array_is(
    e: HIRExpression,
    line: usize,
    p: Seq<char>,
    params: Seq<(String, TejxType)>,
    scopes: Seq<ScopeView>,
) -> bool {
    let el = parts_of(e);
    let n = params.len();
    &&& e matches HIRExpression::ArrayLiteral { line: l, ty, sized_allocation, .. } && l == line
        && ty == ctx_type() && sized_allocation is None
    &&& el.len() == n + 2 + ctx_padding()
    &&& call_is(el[0], line, "rt_promise_clone"@, TejxType::Int64)
    &&& parts_of(el[0]).len() == 1
    &&& var_is(parts_of(el[0])[0], line, p, TejxType::Int64)
    &&& lit_is(el[1], line, "0"@, TejxType::Int32)
    &&& forall|i: int| 0 <= i < n ==> match #[trigger] el[2 + i] {
        HIRExpression::Variable { line: l, name, ty } => {
            l == line && name@ == looked_up(scopes, params[i].0@) && params[i].1.same_as(&ty)
        },
        _ => false,
    }
    &&& forall|i: int| n + 2 <= i < el.len() ==> lit_is(#[trigger] el[i], line, "0"@, TejxType::Int32)
}

/// `w` is the body that stands in for the async function `name`: it makes a promise
/// `__p_LINE`, packs the context `__ctx_LINE`, counts one pending async operation up,
/// queues the worker with the context, and returns the promise.
pub open spec fn async_wrapper_is(
    w: HIRStatement,
    name: Seq<char>,
    params: Seq<(String, TejxType)>,
    line: usize,
    scopes: Seq<ScopeView>,
) -> bool {
    let items = block_items(w);
    let p = "__p_"@ + decimal(line as nat);
    let ctx = "__ctx_"@ + decimal(line as nat);
    &&& block_at(w, line)
    &&& items.len() == 5
    &&& var_decl_is(items[0], line, p, TejxType::Int64, true)
    &&& stmt_expr(items[0]) matches Some(e0) && call_is(e0, line, "rt_promise_new"@, TejxType::Int64)
        && parts_of(e0).len() == 0
    &&& var_decl_is(items[1], line, ctx, ctx_type(), true)
    &&& stmt_expr(items[1]) matches Some(e1) && ctx_array_is(e1, line, p, params, scopes)
    &&& bare_call_stmt(items[2], line, "tejx_inc_async_ops"@)
    &&& items[3] is ExpressionStmt && items[3]->ExpressionStmt_line == line
    &&& stmt_expr(items[3]) matches Some(e3) && {
        &&& call_is(e3, line, "tejx_enqueue_task"@, TejxType::Void)
        &&& parts_of(e3).len() == 2
        &&& lit_is(parts_of(e3)[0], line, "@"@ + worker_name(name), TejxType::Int64)
        &&& var_is(parts_of(e3)[1], line, ctx, ctx_type())
    }
    &&& items[4] is Return && items[4]->Return_line == line
    &&& stmt_expr(items[4]) matches Some(e4) && var_is(e4, line, p, TejxType::Int64)
}

/// Appends the entry points to the lowered functions: the placeholders `f_async_add`
/// and `rt_main_async_worker` with empty bodies, then `tejx_main`, which runs the
/// top-level statements `main_stmts` and then, where a function `f_main` was lowered,
/// calls it (`main_return` is what it returns; an async `main` is waited on).
pub fn push_entry_point(
    functions: &mut Vec<HIRStatement>,
    main_stmts: Vec<HIRStatement>,
    main_is_async: bool,
    main_return: TejxType,
)
    ensures
        ({
            let n = old(functions)@.len() as int;
            let f = final(functions)@;
            let has_main = exists|i: int| 0 <= i < n && is_main_function(#[trigger] old(functions)@[i]);
            let items = block_items(*f[n + 2]->Function_body);
            &&& f.len() == n + 3
            &&& f.subrange(0, n) == old(functions)@
            &&& function_shell(f[n], "f_async_add"@, seq![("a"@, TejxType::Int32), ("b"@, TejxType::Int32)], TejxType::Int64)
            &&& block_items(*f[n]->Function_body).len() == 0
            &&& function_shell(f[n + 1], "rt_main_async_worker"@, seq![("ctx"@, ctx_type())], TejxType::Void)
            &&& block_items(*f[n + 1]->Function_body).len() == 0
            &&& function_shell(f[n + 2], "tejx_main"@, Seq::empty(), TejxType::Void)
            &&& items.len() == main_stmts@.len() + (if has_main { 1int } else { 0int })
            &&& items.subrange(0, main_stmts@.len() as int) == main_stmts@
            &&& has_main ==> main_call_is(items.last(), main_is_async, main_return)
        }),
{
    let ghost before = functions@;
    let mut has_main = false;
    let mut i: usize = 0;
    while i < functions.len()
        invariant
            functions@ == before,
            i <= functions@.len(),
            has_main == exists|k: int| 0 <= k < i && is_main_function(#[trigger] before[k]),
        decreases functions@.len() - i,
    {
        let found = match &functions[i] {
            HIRStatement::Function { name, .. } => str_equals(name.as_str(), "f_main"),
            _ => false,
        };
        proof {
            reveal_strlit("f_main");
            assert(found == is_main_function(before[i as int]));
        }
        if found {
            has_main = true;
        }
        i = i + 1;
    }
    let mut entry_items = main_stmts;
    let ghost given = entry_items@;
    if has_main {
        let call = if main_is_async {
            let mut args: Vec<HIRExpression> = Vec::new();
            args.push(call_of(0, "f_main", Vec::new(), TejxType::Int64));
            call_of(0, "rt_await", args, TejxType::Int64)
        } else {
            call_of(0, "f_main", Vec::new(), main_return)
        };
        entry_items.push(HIRStatement::ExpressionStmt { line: 0, expr: call });
    }
    proof {
        reveal_strlit("a");
        reveal_strlit("b");
        reveal_strlit("ctx");
        assert(entry_items@.subrange(0, given.len() as int) =~= given);
    }
    let mut add_params: Vec<(String, TejxType)> = Vec::new();
    add_params.push((owned("a"), TejxType::Int32));
    add_params.push((owned("b"), TejxType::Int32));
    functions.push(HIRStatement::Function {
        name: owned("f_async_add"),
        async_params: None,
        params: add_params,
        _return_type: TejxType::Int64,
        body: Box::new(HIRStatement::Block { line: 0, statements: Vec::new() }),
        is_extern: false,
        line: 0,
    });
    let mut worker_params: Vec<(String, TejxType)> = Vec::new();
    worker_params.push((owned("ctx"), TejxType::DynamicArray(Box::new(TejxType::Int64))));
    functions.push(HIRStatement::Function {
        name: owned("rt_main_async_worker"),
        params: worker_params,
        _return_type: TejxType::Void,
        body: Box::new(HIRStatement::Block { line: 0, statements: Vec::new() }),
        is_extern: false,
        async_params: None,
        line: 0,
    });
    functions.push(HIRStatement::Function {
        async_params: None,
        line: 0,
        name: owned("tejx_main"),
        params: Vec::new(),
        _return_type: TejxType::Void,
        body: Box::new(HIRStatement::Block { line: 0, statements: entry_items }),
        is_extern: false,
    });
    proof {
        assert(functions@.subrange(0, before.len() as int) =~= before);
    }
}

impl Lowering {
    /// Opens the scope of an async function's worker: defines `ctx`, the worker's
    /// context, and `promise_id_local`, the promise it settles, in a new scope, and
    /// records the latter as the promise of the async body lowered next. Gives its
    /// mangled name.
    pub fn begin_async_worker(&mut self) -> (pid: String)
        requires
            old(self).wf(),
            old(self).next_id() + 2 <= usize::MAX,
        ensures
            final(self).wf(),
            final(self).scope_views().drop_last() == old(self).scope_views(),
            ({
                let d = old(self).scope_views().len();
                let id = old(self).next_id();
                let last = final(self).scope_views().last();
                &&& final(self).scope_views().len() == d + 1
                &&& last.1 == old(self).lambda_level() as usize
                &&& last.0.dom() == set!["ctx"@, "promise_id_local"@]
                &&& last.0["ctx"@].0 == mangled_name("ctx"@, d, id)
                &&& alias_resolved(old(self).settings().3, ctx_type(), 0, last.0["ctx"@].1)
                &&& pid@ == mangled_name("promise_id_local"@, d, if d == 0 { id } else { id + 1 })
                &&& last.0["promise_id_local"@].0 == pid@
                &&& alias_resolved(old(self).settings().3, TejxType::Int64, 0, last.0["promise_id_local"@].1)
                &&& final(self).next_id() == if d == 0 { id } else { id + 2 }
            }),
            final(self).async_promise() == Some(pid@),
            final(self).lambda_level() == old(self).lambda_level(),
            final(self).captured() == old(self).captured(),
            final(self).settings() == old(self).settings(),
            final(self).stdlib() == old(self).stdlib(),
            final(self).lambdas_made() == old(self).lambdas_made(),
    {
        let ghost s0 = *self;
        self.enter_scope();
        let ghost s1 = *self;
        let ctx_ty = TejxType::DynamicArray(Box::new(TejxType::Int64));
        proof {
            reveal_strlit("ctx");
            reveal_strlit("promise_id_local");
            assert(s1.scope_views().last().0 =~= Map::empty());
        }
        let _ctx = self.define(owned("ctx"), ctx_ty);
        let ghost s2 = *self;
        proof {
            assert("promise_id_local"@ != "ctx"@);
            assert(!s2.scope_views().last().0.contains_key("promise_id_local"@));
        }
        let pid = self.define(owned("promise_id_local"), TejxType::Int64);
        proof {
            let d = s0.scope_views().len();
            assert(s2.scope_views().len() == d + 1);
            assert(self.scope_views().drop_last() =~= s0.scope_views());
            assert(self.scope_views().last().0.dom() =~= set!["ctx"@, "promise_id_local"@]);
        }
        self.current_async_promise_id = Some(pid.clone());
        proof {
            assert(self.scope_views() == s2.scope_views().update(s0.scope_views().len() as int, self.scope_views().last()));
        }
        pid
    }
    /// Closes the worker's scope and builds the three parts of the async function
    /// `name` with parameters `params` at `line`: the worker `f_NAME_worker`, whose body
    /// runs `inner_body` (what lowering the function's body gave; an empty block where
    /// it gave nothing) and settles the promise `pid`; an empty block where a state
    /// type would stand; and the body that stands in for the function, which queues
    /// the worker and returns its promise.
    pub fn finish_async_function(
        &mut self,
        name: &str,
        params: &Vec<(String, TejxType)>,
        line: usize,
        pid: String,
        inner_body: Option<HIRStatement>,
    ) -> (r: (HIRStatement, HIRStatement, HIRStatement))
        requires
            old(self).wf(),
        ensures
            final(self).wf(),
            old(self).scope_views().len() > 0 ==> final(self).scope_views() == old(self).scope_views().drop_last(),
            old(self).scope_views().len() == 0 ==> final(self).scope_views() == old(self).scope_views(),
            final(self).next_id() == old(self).next_id(),
            final(self).settings() == old(self).settings(),
            final(self).stdlib() == old(self).stdlib(),
            final(self).lambdas_made() == old(self).lambdas_made(),
            final(self).async_promise() is None,
            async_worker_is(r.0, name@, params@, line, pid@, inner_body),
            block_at(r.1, 0),
            block_items(r.1).len() == 0,
            async_wrapper_is(r.2, name@, params@, line, final(self).scope_views()),
    {
        self.current_async_promise_id = None;
        self.exit_scope();
        let ghost views = self.scope_views();
        let ghost closed = *self;
        proof {
            reveal_strlit("ctx");
            reveal_strlit("err");
            reveal_strlit("Error");
            reveal_strlit("0");
        }
        // The worker.
        let inner = match inner_body {
            Some(h) => h,
            None => HIRStatement::Block { line, statements: Vec::new() },
        };
        let mut resolve_args: Vec<HIRExpression> = Vec::new();
        resolve_args.push(HIRExpression::Variable { line, name: pid.clone(), ty: TejxType::Int64 });
        resolve_args.push(HIRExpression::Literal { line, value: owned("0"), ty: TejxType::Int64 });
        let resolve = HIRStatement::ExpressionStmt {
            line,
            expr: call_of(line, "rt_promise_resolve", resolve_args, TejxType::Void),
        };
        let mut try_items: Vec<HIRStatement> = Vec::new();
        try_items.push(inner);
        try_items.push(resolve);
        try_items.push(bare_call(line, "tejx_dec_async_ops"));
        let mut reject_args: Vec<HIRExpression> = Vec::new();
        reject_args.push(HIRExpression::Variable { line, name: pid.clone(), ty: TejxType::Int64 });
        reject_args.push(HIRExpression::Variable {
            line,
            name: owned("err"),
            ty: TejxType::Class(owned("Error"), Vec::new()),
        });
        let reject = HIRStatement::ExpressionStmt {
            line,
            expr: call_of(line, "rt_promise_reject", reject_args, TejxType::Void),
        };
        let mut catch_items: Vec<HIRStatement> = Vec::new();
        catch_items.push(reject);
        catch_items.push(bare_call(line, "tejx_dec_async_ops"));
        let guarded = HIRStatement::Try {
            line,
            try_block: Box::new(HIRStatement::Block { line, statements: try_items }),
            catch_var: Some(owned("err")),
            catch_block: Box::new(HIRStatement::Block { line, statements: catch_items }),
            finally_block: None,
        };
        let mut worker_items: Vec<HIRStatement> = Vec::new();
        worker_items.push(HIRStatement::VarDecl {
            name: pid,
            initializer: None,
            ty: TejxType::Int64,
            _is_const: false,
            line,
        });
        worker_items.push(guarded);
        let mut worker_name_text = owned("f_");
        worker_name_text.append(name);
        worker_name_text.append("_worker");
        let mut worker_params: Vec<(String, TejxType)> = Vec::new();
        worker_params.push((owned("ctx"), TejxType::DynamicArray(Box::new(TejxType::Int64))));
        let worker = HIRStatement::Function {
            name: worker_name_text.clone(),
            params: worker_params,
            _return_type: TejxType::Void,
            body: Box::new(HIRStatement::Block { line, statements: worker_items }),
            is_extern: false,
            async_params: Some(copy_params(params)),
            line,
        };
        proof {
            assert(worker_name_text@ == worker_name(name@));
        }
        // The body that stands in for the function.
        let line_text = decimal_string(line);
        let mut p_var = owned("__p_");
        p_var.append(line_text.as_str());
        let mut ctx_var = owned("__ctx_");
        ctx_var.append(line_text.as_str());
        let mut wrapper_items: Vec<HIRStatement> = Vec::new();
        wrapper_items.push(HIRStatement::VarDecl {
            name: p_var.clone(),
            initializer: Some(call_of(line, "rt_promise_new", Vec::new(), TejxType::Int64)),
            ty: TejxType::Int64,
            _is_const: false,
            line,
        });
        let mut clone_args: Vec<HIRExpression> = Vec::new();
        clone_args.push(HIRExpression::Variable { line, name: p_var.clone(), ty: TejxType::Int64 });
        let mut elements: Vec<HIRExpression> = Vec::new();
        elements.push(call_of(line, "rt_promise_clone", clone_args, TejxType::Int64));
        elements.push(HIRExpression::Literal { line, value: owned("0"), ty: TejxType::Int32 });
        let n = params.len();
        let mut i: usize = 0;
        while i < n
            invariant
                self.wf(),
                self.scope_views() == views,
                n == params@.len(),
                i <= n,
                elements@.len() == i + 2,
                call_is(elements@[0], line, "rt_promise_clone"@, TejxType::Int64),
                parts_of(elements@[0]).len() == 1,
                var_is(parts_of(elements@[0])[0], line, p_var@, TejxType::Int64),
                lit_is(elements@[1], line, "0"@, TejxType::Int32),
                forall|k: int| 0 <= k < i ==> match #[trigger] elements@[2 + k] {
                    HIRExpression::Variable { line: l, name, ty } => {
                        l == line && name@ == looked_up(views, params@[k].0@) && params@[k].1.same_as(&ty)
                    },
                    _ => false,
                },
                self.next_id() == closed.next_id(),
                self.settings() == closed.settings(),
                self.stdlib() == closed.stdlib(),
                self.lambdas_made() == closed.lambdas_made(),
                self.async_promise() == closed.async_promise(),
            decreases n - i,
        {
            let ghost pname = params@[i as int].0@;
            let mangled = match self.lookup(params[i].0.as_str()) {
                Some((m, _)) => {
                    proof { assert(m@ == looked_up(views, pname)); }
                    m
                },
                None => {
                    let c = params[i].0.clone();
                    proof { assert(c@ == looked_up(views, pname)); }
                    c
                },
            };
            let ghost before_push = elements@;
            let copy = params[i].1.duplicate();
            let ghost mname = mangled@;
            elements.push(HIRExpression::Variable { line, name: mangled, ty: copy });
            proof {
                assert(elements@[2 + i as int] == elements@.last());
                assert forall|k: int| 0 <= k < i + 1 implies match #[trigger] elements@[2 + k] {
                    HIRExpression::Variable { line: l, name, ty } => {
                        l == line && name@ == looked_up(views, params@[k].0@) && params@[k].1.same_as(&ty)
                    },
                    _ => false,
                } by {
                    if k < i {
                        assert(elements@[2 + k] == before_push[2 + k]);
                    } else {
                        assert(mname == looked_up(views, params@[k].0@));
                    }
                }
            }
            i = i + 1;
        }
        let mut k: usize = 0;
        while k < 512
            invariant
                n == params@.len(),
                elements@.len() == n + 2 + k,
                k <= 512,
                call_is(elements@[0], line, "rt_promise_clone"@, TejxType::Int64),
                parts_of(elements@[0]).len() == 1,
                var_is(parts_of(elements@[0])[0], line, p_var@, TejxType::Int64),
                lit_is(elements@[1], line, "0"@, TejxType::Int32),
                forall|j: int| 0 <= j < n ==> match #[trigger] elements@[2 + j] {
                    HIRExpression::Variable { line: l, name, ty } => {
                        l == line && name@ == looked_up(views, params@[j].0@) && params@[j].1.same_as(&ty)
                    },
                    _ => false,
                },
                forall|j: int| n + 2 <= j < elements@.len() ==> lit_is(#[trigger] elements@[j], line, "0"@, TejxType::Int32),
            decreases 512 - k,
        {
            elements.push(HIRExpression::Literal { line, value: owned("0"), ty: TejxType::Int32 });
            k = k + 1;
        }
        wrapper_items.push(HIRStatement::VarDecl {
            name: ctx_var.clone(),
            initializer: Some(HIRExpression::ArrayLiteral {
                line,
                elements,
                ty: TejxType::DynamicArray(Box::new(TejxType::Int64)),
                sized_allocation: None,
            }),
            ty: TejxType::DynamicArray(Box::new(TejxType::Int64)),
            _is_const: false,
            line,
        });
        wrapper_items.push(bare_call(line, "tejx_inc_async_ops"));
        let mut target = owned("@");
        target.append(worker_name_text.as_str());
        let mut enqueue_args: Vec<HIRExpression> = Vec::new();
        enqueue_args.push(HIRExpression::Literal { line, value: target, ty: TejxType::Int64 });
        enqueue_args.push(HIRExpression::Variable {
            line,
            name: ctx_var,
            ty: TejxType::DynamicArray(Box::new(TejxType::Int64)),
        });
        wrapper_items.push(HIRStatement::ExpressionStmt {
            line,
            expr: call_of(line, "tejx_enqueue_task", enqueue_args, TejxType::Void),
        });
        wrapper_items.push(HIRStatement::Return {
            line,
            value: Some(HIRExpression::Variable { line, name: p_var, ty: TejxType::Int64 }),
        });
        let wrapper = HIRStatement::Block { line, statements: wrapper_items };
        (worker, HIRStatement::Block { line: 0, statements: Vec::new() }, wrapper)
    }
}

impl Lowering {
    /// Notes the function `name` as variadic, with the number of its parameters before
    /// the rest parameter, where one of `params` gathers the rest.
    fn record_variadic(&mut self, name: String, params: &Vec<Parameter>)
        ensures
            final(self).unchanged_but_variadics(*old(self)),
            final(self).variadics() == note_variadic(old(self).variadics(), name@, params@),
    {
        let ghost start = *self;
        let fixed = fixed_params(params);
        if fixed < params.len() {
            let ghost before = self.variadic_functions@;
            self.variadic_functions.push((name, fixed));
            proof {
                assert(self.variadic_functions@.drop_last() =~= before);
                assert(self.scope_views() =~= start.scope_views());
                assert(self.captured() == start.captured());
                assert(self.settings() == start.settings());
                assert(self.wf() == start.wf());
            }
        }
    }

    /// Notes the variadic methods of `c`, as `CLASS_METHOD`, and its constructor, as
    /// `CLASS_constructor`, where it is variadic.
    pub fn scan_variadic_class(&mut self, c: &ClassDeclaration)
        ensures
            final(self).unchanged_but_variadics(*old(self)),
            final(self).variadics() == note_class(old(self).variadics(), *c),
            forall|j: int| #![trigger first_rest_at(c._constructor->Some_0.params@, j)]
                c._constructor is Some && first_rest_at(c._constructor->Some_0.params@, j) ==> {
                &&& final(self).variadics().contains_key(c.name@ + "_constructor"@)
                &&& final(self).variadics()[c.name@ + "_constructor"@] as int == j
            },
            forall|i: int, j: int| 0 <= i < c.methods@.len() && #[trigger] first_rest_at(c.methods@[i].func.params@, j)
                && c.methods@[i].func.name@ != "constructor"@
                && (forall|t: int| i < t < c.methods@.len() ==> (#[trigger] c.methods@[t]).func.name@ != c.methods@[i].func.name@)
                ==> {
                &&& final(self).variadics().contains_key(c.name@ + "_"@ + c.methods@[i].func.name@)
                &&& final(self).variadics()[c.name@ + "_"@ + c.methods@[i].func.name@] as int == j
            },
            forall|key: Seq<char>| !(c.name@ + "_"@).is_prefix_of(key)
                ==> #[trigger] same_entry(old(self).variadics(), final(self).variadics(), key),
    {
        proof {
            law_class_variadics(old(self).variadics(), *c);
        }
        let ghost before = *self;
        let ghost ms = c.methods@;
        proof {
            reveal_strlit("_");
            reveal_strlit("_constructor");
            assert(ms.take(0) =~= Seq::<ClassMethod>::empty());
        }
        let mut i: usize = 0;
        while i < c.methods.len()
            invariant
                i <= ms.len(),
                ms == c.methods@,
                self.unchanged_but_variadics(before),
                self.variadics() == note_methods(before.variadics(), c.name@, ms.take(i as int)),
            decreases ms.len() - i,
        {
            let mut mangled = c.name.clone();
            mangled.append("_");
            mangled.append(c.methods[i].func.name.as_str());
            self.record_variadic(mangled, &c.methods[i].func.params);
            proof {
                assert(ms.take(i + 1).drop_last() =~= ms.take(i as int));
            }
            i = i + 1;
        }
        proof {
            assert(ms.take(ms.len() as int) =~= ms);
        }
        match &c._constructor {
            Some(k) => {
                let mut mangled = c.name.clone();
                mangled.append("_constructor");
                self.record_variadic(mangled, &k.params);
            },
            None => {},
        }
    }

    /// Notes every variadic function, method and constructor that `program` declares
    /// at the top level (exported or not), and tells whether its `main` is async.
    pub fn scan_program(&mut self, program: &Program) -> (main_async: bool)
        ensures
            final(self).unchanged_but_variadics(*old(self)),
            final(self).variadics() == note_program(old(self).variadics(), program.statements@),
            main_async == main_is_async(program.statements@),
            forall|k: int, key: Seq<char>, j: int| 0 <= k < program.statements@.len()
                && #[trigger] variadic_at(program.statements@[k], key, j)
                && (forall|t: int| k < t < program.statements@.len() ==> !may_note(#[trigger] program.statements@[t], key))
                ==> final(self).variadics().contains_key(key) && final(self).variadics()[key] as int == j,
            forall|key: Seq<char>| (forall|t: int| 0 <= t < program.statements@.len()
                ==> !may_note(#[trigger] program.statements@[t], key))
                ==> #[trigger] same_entry(old(self).variadics(), final(self).variadics(), key),
    {
        proof {
            law_program_variadics(old(self).variadics(), program.statements@);
        }
        let ghost before = *self;
        let ghost ss = program.statements@;
        proof {
            reveal_strlit("main");
            assert(ss.take(0) =~= Seq::<Statement>::empty());
        }
        let mut main_async = false;
        let mut i: usize = 0;
        while i < program.statements.len()
            invariant
                i <= ss.len(),
                ss == program.statements@,
                self.unchanged_but_variadics(before),
                self.variadics() == note_program(before.variadics(), ss.take(i as int)),
                main_async == main_is_async(ss.take(i as int)),
            decreases ss.len() - i,
        {
            proof {
                assert(ss.take(i + 1).drop_last() =~= ss.take(i as int));
                assert(ss.take(i + 1).last() == ss[i as int]);
            }
            match &program.statements[i] {
                Statement::FunctionDeclaration(f) => {
                    if str_equals(f.name.as_str(), "main") {
                        main_async = f._is_async;
                    }
                    self.record_variadic(f.name.clone(), &f.params);
                },
                Statement::ExportDecl { declaration, .. } => match &**declaration {
                    Statement::FunctionDeclaration(f) => {
                        if str_equals(f.name.as_str(), "main") {
                            main_async = f._is_async;
                        }
                        self.record_variadic(f.name.clone(), &f.params);
                    },
                    Statement::ClassDeclaration(c) => self.scan_variadic_class(c),
                    _ => {},
                },
                Statement::ClassDeclaration(c) => self.scan_variadic_class(c),
                _ => {},
            }
            i = i + 1;
        }
        proof {
            assert(ss.take(ss.len() as int) =~= ss);
        }
        main_async
    }

    /// The number of parameters before the rest parameter of the variadic function
    /// `name`; `None` where it was not noted as variadic.
    pub fn variadic_count(&self, name: &str) -> (r: Option<usize>)
        ensures
            r == (if self.variadics().contains_key(name@) { Some(self.variadics()[name@]) } else { None::<usize> }),
    {
        let ghost es = self.variadic_functions@;
        let mut i = self.variadic_functions.len();
        while i > 0
            invariant
                i <= es.len(),
                es == self.variadic_functions@,
                forall|k: int| i <= k < es.len() ==> es[k].0@ != name@,
            decreases i,
        {
            i = i - 1;
            if str_equals(self.variadic_functions[i].0.as_str(), name) {
                proof {
                    lemma_count_map_tail(es, name@, i + 1);
                    assert(es.take(i + 1).drop_last() =~= es.take(i as int));
                }
                return Some(self.variadic_functions[i].1);
            }
        }
        proof {
            lemma_count_map_tail(es, name@, 0);
        }
        None
    }
}

/// Lowering an async function leaves the scopes and the pending promise as they were
/// before: the worker's scope that `begin_async_worker` opens is the one
/// `finish_async_function` closes.
pub proof fn law_async_scopes_restored(before: Lowering, begun: Lowering, finished: Lowering)
    requires
        before.async_promise() is None,
        begun.scope_views().len() == before.scope_views().len() + 1,
        begun.scope_views().drop_last() == before.scope_views(),
        finished.scope_views() == begun.scope_views().drop_last(),
        finished.async_promise() is None,
    ensures
        finished.scope_views() == before.scope_views(),
        finished.async_promise() == before.async_promise(),
{
}

/// What scanning a class notes, told by its declaration: a constructor whose first
/// rest parameter stands at `j` is noted as `CLASS_constructor` with `j` fixed
/// parameters; so is a method `CLASS_METHOD` (not one named `constructor`, and not one
/// that a later method of the same name replaces); no key outside `CLASS_` changes.
pub proof fn law_class_variadics(m: Map<Seq<char>, usize>, c: ClassDeclaration)
    ensures
        forall|j: int| #![trigger first_rest_at(c._constructor->Some_0.params@, j)]
            c._constructor is Some && first_rest_at(c._constructor->Some_0.params@, j) ==> {
            &&& note_class(m, c).contains_key(c.name@ + "_constructor"@)
            &&& note_class(m, c)[c.name@ + "_constructor"@] as int == j
        },
        forall|i: int, j: int| 0 <= i < c.methods@.len() && #[trigger] first_rest_at(c.methods@[i].func.params@, j)
            && c.methods@[i].func.name@ != "constructor"@
            && (forall|t: int| i < t < c.methods@.len() ==> (#[trigger] c.methods@[t]).func.name@ != c.methods@[i].func.name@)
            ==> {
            &&& note_class(m, c).contains_key(c.name@ + "_"@ + c.methods@[i].func.name@)
            &&& note_class(m, c)[c.name@ + "_"@ + c.methods@[i].func.name@] as int == j
        },
        forall|key: Seq<char>| !(c.name@ + "_"@).is_prefix_of(key) ==> #[trigger] same_entry(m, note_class(m, c), key),
{
    reveal_strlit("_");
    reveal_strlit("_constructor");
    reveal_strlit("constructor");
    let ms = c.methods@;
    let p = c.name@ + "_"@;
    assert forall|j: int| #![trigger first_rest_at(c._constructor->Some_0.params@, j)]
        c._constructor is Some && first_rest_at(c._constructor->Some_0.params@, j) implies {
        &&& note_class(m, c).contains_key(c.name@ + "_constructor"@)
        &&& note_class(m, c)[c.name@ + "_constructor"@] as int == j
    } by {
        assert(c._constructor->Some_0.params@.len() == c._constructor->Some_0.params.len());
        lemma_fixed_count_at(c._constructor->Some_0.params@, j);
    }
    assert forall|i: int, j: int| 0 <= i < ms.len() && #[trigger] first_rest_at(c.methods@[i].func.params@, j)
        && c.methods@[i].func.name@ != "constructor"@
        && (forall|t: int| i < t < ms.len() ==> (#[trigger] c.methods@[t]).func.name@ != c.methods@[i].func.name@)
        implies {
        &&& note_class(m, c).contains_key(c.name@ + "_"@ + c.methods@[i].func.name@)
        &&& note_class(m, c)[c.name@ + "_"@ + c.methods@[i].func.name@] as int == j
    } by {
        let key = c.name@ + "_"@ + ms[i].func.name@;
        let front = ms.take(i + 1);
        let back = ms.skip(i + 1);
        assert(ms =~= front + back);
        lemma_note_methods_append(m, c.name@, front, back);
        assert(front.drop_last() =~= ms.take(i));
        assert(ms[i].func.params@.len() == ms[i].func.params.len());
        lemma_fixed_count_at(ms[i].func.params@, j);
        let mid = note_methods(m, c.name@, front);
        assert(mid.contains_key(key) && mid[key] as int == j);
        assert forall|t: int| 0 <= t < back.len() implies c.name@ + "_"@ + (#[trigger] back[t]).func.name@ != key by {
            assert(back[t] == ms[i + 1 + t]);
            if c.name@ + "_"@ + back[t].func.name@ == key {
                lemma_name_after_prefix(c.name@, back[t].func.name@, ms[i].func.name@);
            }
        }
        lemma_note_methods_frame(mid, c.name@, back, key);
        if c.name@ + "_constructor"@ == key {
            assert(c.name@ + "_constructor"@ == c.name@ + "_"@ + "constructor"@) by {
                assert(c.name@ + "_constructor"@ =~= c.name@ + "_"@ + "constructor"@);
            }
            lemma_name_after_prefix(c.name@, "constructor"@, ms[i].func.name@);
        }
    }
    assert forall|key: Seq<char>| !p.is_prefix_of(key) implies #[trigger] same_entry(m, note_class(m, c), key) by {
        assert forall|t: int| 0 <= t < ms.len() implies c.name@ + "_"@ + (#[trigger] ms[t]).func.name@ != key by {
            if c.name@ + "_"@ + ms[t].func.name@ == key {
                assert(key.subrange(0, p.len() as int) =~= p);
            }
        }
        lemma_note_methods_frame(m, c.name@, ms, key);
        if c.name@ + "_constructor"@ == key {
            assert(key.subrange(0, p.len() as int) =~= p);
        }
    }
}

/// What scanning a program notes, told by its statements: a function, or a class
/// constructor, whose first rest parameter stands at `j` is noted with `j` fixed
/// parameters unless a later statement could note the same key; a key that no
/// statement could note keeps its entry.
pub proof fn law_program_variadics(m: Map<Seq<char>, usize>, ss: Seq<Statement>)
    ensures
        forall|k: int, key: Seq<char>, j: int| 0 <= k < ss.len() && #[trigger] variadic_at(ss[k], key, j)
            && (forall|t: int| k < t < ss.len() ==> !may_note(#[trigger] ss[t], key))
            ==> note_program(m, ss).contains_key(key) && note_program(m, ss)[key] as int == j,
        forall|key: Seq<char>| (forall|t: int| 0 <= t < ss.len() ==> !may_note(#[trigger] ss[t], key))
            ==> #[trigger] same_entry(m, note_program(m, ss), key),
{
    assert forall|k: int, key: Seq<char>, j: int| 0 <= k < ss.len() && #[trigger] variadic_at(ss[k], key, j)
        && (forall|t: int| k < t < ss.len() ==> !may_note(#[trigger] ss[t], key))
        implies note_program(m, ss).contains_key(key) && note_program(m, ss)[key] as int == j by {
        lemma_note_program_variadic(m, ss, k, key, j);
    }
    assert forall|key: Seq<char>| (forall|t: int| 0 <= t < ss.len() ==> !may_note(#[trigger] ss[t], key))
        implies #[trigger] same_entry(m, note_program(m, ss), key) by {
        lemma_note_program_frame(m, ss, key);
    }
}

} // verus!
