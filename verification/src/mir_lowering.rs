use vstd::prelude::*;

use std::collections::HashMap;

use crate::mir::{law_line_round_trip, BasicBlock, MIRFunction, MIRInstruction, MIRValue};
use crate::text::{
    contains_char, contains_text, decimal, decimal_string, holds_text, lemma_decimal_injective, lex_less, owned,
    sort_names, starts_with, str_equals,
};
use crate::types::{distinct_type_names, lemma_type_map_has, lemma_type_map_lacks, put_type, type_map, TejxType};

verus! {

/// The names one scope declares, from source name to unique name; a later entry
/// for a name takes the place of an earlier one.
pub open spec fn scope_map(entries: Seq<(String, String)>) -> Map<Seq<char>, Seq<char>>
    decreases entries.len(),
{
    if entries.len() == 0 {
        Map::empty()
    } else {
        scope_map(entries.drop_last()).insert(entries.last().0@, entries.last().1@)
    }
}

/// No source name has two entries in one scope.
pub open spec fn distinct_names(entries: Seq<(String, String)>) -> bool {
    forall|i: int, j: int| 0 <= i < j < entries.len() ==> entries[i].0@ != entries[j].0@
}

/// What `name` stands for under a stack of scopes, innermost last: the unique
/// name that the innermost scope declaring it gives, else `name` itself.
pub open spec fn resolve_in(scopes: Seq<Map<Seq<char>, Seq<char>>>, name: Seq<char>) -> Seq<char>
    decreases scopes.len(),
{
    if scopes.len() == 0 {
        name
    } else if scopes.last().contains_key(name) {
        scopes.last()[name]
    } else {
        resolve_in(scopes.drop_last(), name)
    }
}

/// Names declared as written: globals (`g_` in front) and names already made
/// unique (holding `$`).
pub open spec fn kept_as_is(name: Seq<char>) -> bool {
    seq!['g', '_'].is_prefix_of(name) || name.contains('$')
}

/// The unique name a declaration of `name` gets with `depth` scopes open, when
/// `counter` declarations have been numbered before it. Only the outermost
/// scope keeps plain names.
pub open spec fn declared_name(name: Seq<char>, depth: nat, counter: nat) -> Seq<char> {
    if kept_as_is(name) || depth == 1 {
        name
    } else {
        name + seq!['_'] + decimal(counter)
    }
}

/// The name of the `n`-th temporary.
pub open spec fn temp_name(n: nat) -> Seq<char> {
    seq!['_', 't'] + decimal(n)
}

/// The name of the `n`-th temporary of an async state machine.
pub open spec fn async_temp_name(n: nat) -> Seq<char> {
    seq!['_', 'a', 't', 'm', 'p'] + decimal(n)
}

/// The name of the `n`-th block, made with `prefix`.
pub open spec fn block_name(prefix: Seq<char>, n: nat) -> Seq<char> {
    prefix + seq!['_'] + decimal(n)
}

/// The innermost of the exception handlers `hs`, if any.
pub open spec fn innermost(hs: Seq<usize>) -> Option<usize> {
    if hs.len() == 0 { None } else { Some(hs.last()) }
}

/// `b` is a block as `new_block` makes it: named after `prefix` and the count `n`,
/// empty, and handled by `handler`.
pub open spec fn made_block(b: BasicBlock, prefix: Seq<char>, n: nat, handler: Option<usize>) -> bool {
    &&& b.name@ == block_name(prefix, n)
    &&& b.instructions@.len() == 0
    &&& b.exception_handler == handler
}

/// The scope that the parameters of a function open with: each name stands for itself.
pub open spec fn params_scope(params: Seq<(String, TejxType)>) -> Map<Seq<char>, Seq<char>>
    decreases params.len(),
{
    if params.len() == 0 {
        Map::empty()
    } else {
        params_scope(params.drop_last()).insert(params.last().0@, params.last().0@)
    }
}

/// Names of variables that an async state machine keeps in its context rather
/// than among its locals.
pub open spec fn machine_internal(name: Seq<char>) -> bool {
    ||| name == "ctx"@
    ||| "__ctx_"@.is_prefix_of(name)
    ||| "__p_"@.is_prefix_of(name)
    ||| "promise_id_local"@.is_prefix_of(name)
    ||| "_atmp"@.is_prefix_of(name)
    ||| "_restore_local_"@.is_prefix_of(name)
    ||| "_state"@.is_prefix_of(name)
    ||| "_cmp_state_"@.is_prefix_of(name)
}

/// `list` with `name` added at its end, unless it holds it already.
pub open spec fn with_name(list: Seq<Seq<char>>, name: Seq<char>) -> Seq<Seq<char>> {
    if list.contains(name) {
        list
    } else {
        list.push(name)
    }
}

/// `with_name` applied with each of `names` in turn.
pub open spec fn with_names(list: Seq<Seq<char>>, names: Seq<Seq<char>>) -> Seq<Seq<char>>
    decreases names.len(),
{
    if names.len() == 0 {
        list
    } else {
        with_name(with_names(list, names.drop_last()), names.last())
    }
}

/// The unique names that `params` stand for under `scopes`, in order, leaving out
/// those that resolve to nothing.
pub open spec fn param_locals(scopes: Seq<Map<Seq<char>, Seq<char>>>, params: Seq<(String, TejxType)>) -> Seq<Seq<char>>
    decreases params.len(),
{
    if params.len() == 0 {
        seq![]
    } else {
        let rest = param_locals(scopes, params.drop_last());
        let m = resolve_in(scopes, params.last().0@);
        if m.len() == 0 {
            rest
        } else {
            rest.push(m)
        }
    }
}

/// The names of `names` that are not machine internals, in order.
pub open spec fn carried(names: Seq<Seq<char>>) -> Seq<Seq<char>>
    decreases names.len(),
{
    if names.len() == 0 {
        seq![]
    } else {
        let rest = carried(names.drop_last());
        if machine_internal(names.last()) {
            rest
        } else {
            rest.push(names.last())
        }
    }
}

/// `names` lists the names of `m` once each, in code point order.
pub open spec fn sorted_keys(names: Seq<Seq<char>>, m: Map<Seq<char>, TejxType>) -> bool {
    &&& forall|i: int, j: int| 0 <= i < j < names.len() ==> lex_less(names[i], names[j])
    &&& forall|x: Seq<char>| m.contains_key(x) <==> names.contains(x)
}

/// Whether `name` is a machine internal.
fn is_machine_internal(name: &str) -> (r: bool)
    ensures
        r == machine_internal(name@),
{
    str_equals(name, "ctx") || starts_with(name, "__ctx_") || starts_with(name, "__p_")
        || starts_with(name, "promise_id_local") || starts_with(name, "_atmp")
        || starts_with(name, "_restore_local_") || starts_with(name, "_state")
        || starts_with(name, "_cmp_state_")
}

pub(crate) proof fn lemma_scope_map_has(entries: Seq<(String, String)>, j: int)
    requires
        distinct_names(entries),
        0 <= j < entries.len(),
    ensures
        scope_map(entries).contains_key(entries[j].0@),
        scope_map(entries)[entries[j].0@] == entries[j].1@,
    decreases entries.len(),
{
    if j < entries.len() - 1 {
        lemma_scope_map_has(entries.drop_last(), j);
    }
}

pub(crate) proof fn lemma_scope_map_lacks(entries: Seq<(String, String)>, name: Seq<char>)
    requires
        forall|j: int| 0 <= j < entries.len() ==> entries[j].0@ != name,
    ensures
        !scope_map(entries).contains_key(name),
    decreases entries.len(),
{
    if entries.len() > 0 {
        lemma_scope_map_lacks(entries.drop_last(), name);
    }
}

pub(crate) proof fn lemma_scope_map_update(entries: Seq<(String, String)>, i: int, e: (String, String))
    requires
        distinct_names(entries),
        0 <= i < entries.len(),
        entries[i].0@ == e.0@,
    ensures
        scope_map(entries.update(i, e)) == scope_map(entries).insert(e.0@, e.1@),
    decreases entries.len(),
{
    let u = entries.update(i, e);
    if i == entries.len() - 1 {
        assert(u.drop_last() =~= entries.drop_last());
        assert(scope_map(u) =~= scope_map(entries).insert(e.0@, e.1@));
    } else {
        assert(u.drop_last() =~= entries.drop_last().update(i, e));
        lemma_scope_map_update(entries.drop_last(), i, e);
        assert(scope_map(u) =~= scope_map(entries).insert(e.0@, e.1@));
    }
}

/// The keys of a scope are the names of its entries, and there are as many.
proof fn lemma_scope_map_dom(entries: Seq<(String, String)>)
    requires
        distinct_names(entries),
    ensures
        scope_map(entries).dom().finite(),
        scope_map(entries).dom().len() == entries.len(),
        forall|k: Seq<char>| #[trigger] scope_map(entries).contains_key(k)
            ==> exists|j: int| 0 <= j < entries.len() && entries[j].0@ == k,
    decreases entries.len(),
{
    if entries.len() > 0 {
        let rest = entries.drop_last();
        lemma_scope_map_dom(rest);
        assert forall|j: int| 0 <= j < rest.len() implies rest[j].0@ != entries.last().0@ by {
            assert(entries[j].0@ != entries[entries.len() - 1].0@);
        }
        lemma_scope_map_lacks(rest, entries.last().0@);
        assert forall|k: Seq<char>| #[trigger] scope_map(entries).contains_key(k)
            implies exists|j: int| 0 <= j < entries.len() && entries[j].0@ == k by {
            if k != entries.last().0@ {
                let j = choose|j: int| 0 <= j < rest.len() && rest[j].0@ == k;
                assert(entries[j].0@ == k);
            } else {
                assert(entries[entries.len() - 1].0@ == k);
            }
        }
    }
}

proof fn lemma_resolve_skip(scopes: Seq<Map<Seq<char>, Seq<char>>>, name: Seq<char>, i: int)
    requires
        0 <= i <= scopes.len(),
        forall|k: int| i <= k < scopes.len() ==> !scopes[k].contains_key(name),
    ensures
        resolve_in(scopes, name) == resolve_in(scopes.subrange(0, i), name),
    decreases scopes.len() - i,
{
    if i < scopes.len() {
        assert(scopes.drop_last() =~= scopes.subrange(0, scopes.len() - 1));
        lemma_resolve_skip(scopes.drop_last(), name, i);
        assert(scopes.drop_last().subrange(0, i) =~= scopes.subrange(0, i));
    } else {
        assert(scopes.subrange(0, i) =~= scopes);
    }
}

/// Index of the entry for `name` in one scope.
pub(crate) fn find_name(scope: &Vec<(String, String)>, name: &str) -> (r: Option<usize>)
    ensures
        r matches Some(j) ==> j < scope@.len() && scope@[j as int].0@ == name@,
        r is None ==> forall|j: int| 0 <= j < scope@.len() ==> scope@[j].0@ != name@,
{
    let mut i: usize = 0;
    while i < scope.len()
        invariant
            i <= scope@.len(),
            forall|j: int| 0 <= j < i ==> scope@[j].0@ != name@,
        decreases scope@.len() - i,
    {
        if str_equals(scope[i].0.as_str(), name) {
            return Some(i);
        }
        i = i + 1;
    }
    None
}

/// Gives `name` the unique name `unique` in one scope, in place of an earlier entry.
pub(crate) fn insert_name(scope: &mut Vec<(String, String)>, name: String, unique: String)
    requires
        distinct_names(old(scope)@),
    ensures
        distinct_names(final(scope)@),
        scope_map(final(scope)@) == scope_map(old(scope)@).insert(name@, unique@),
{
    let ghost key = name@;
    let ghost value = unique@;
    match find_name(scope, name.as_str()) {
        Some(j) => {
            proof { lemma_scope_map_update(scope@, j as int, (name, unique)); }
            scope.set(j, (name, unique));
        },
        None => {
            let ghost before = scope@;
            scope.push((name, unique));
            proof {
                assert(scope@.drop_last() =~= before);
            }
        },
    }
}

/// Where `continue` and `break` go inside a loop.
#[derive(Clone, Copy)]
struct LoopContext {
    continue_target: usize,
    break_target: usize,
}

/// The state of the pass from typed IR to basic blocks: the function being built,
/// the block that instructions go to, counters for fresh names, and the stack of
/// variable scopes.
pub struct MIRLowering {
    current_function: MIRFunction,
    current_block: usize,
    temp_counter: usize,
    block_counter: usize,
    loop_stack: Vec<LoopContext>,
    exception_handler_stack: Vec<usize>,
    #[allow(dead_code)]
    signatures: HashMap<String, Vec<TejxType>>,
    current_line: usize,
    scopes: Vec<Vec<(String, String)>>,
    var_counter: usize,
    #[allow(dead_code)]
    class_fields: HashMap<String, Vec<(String, TejxType)>>,
    async_state_counter: usize,
    pub async_continuations: Vec<(usize, usize)>,
    pub current_async_params: Option<Vec<(String, TejxType)>>,
    pub current_promise_id: Option<String>,
    pub async_locals: Vec<String>,
}

impl MIRLowering {
    /// The function being built.
    pub closed spec fn function(&self) -> MIRFunction {
        self.current_function
    }

    /// The index of the block that instructions go to.
    pub closed spec fn block(&self) -> int {
        self.current_block as int
    }

    /// How many temporaries have been named.
    pub closed spec fn temps_made(&self) -> nat {
        self.temp_counter as nat
    }

    /// How many blocks have been named.
    pub closed spec fn blocks_made(&self) -> nat {
        self.block_counter as nat
    }

    /// How many declarations have been numbered.
    pub closed spec fn vars_made(&self) -> nat {
        self.var_counter as nat
    }

    /// The source line that emitted instructions carry.
    pub closed spec fn line(&self) -> usize {
        self.current_line
    }

    /// The blocks that handle exceptions, innermost last.
    pub closed spec fn handlers(&self) -> Seq<usize> {
        self.exception_handler_stack@
    }

    /// The open loops, innermost last: where `continue` goes, and where `break` goes.
    pub closed spec fn loops(&self) -> Seq<(usize, usize)> {
        Seq::new(
            self.loop_stack@.len(),
            |i: int| (self.loop_stack@[i].continue_target, self.loop_stack@[i].break_target),
        )
    }

    /// The number the next state of an async state machine gets.
    pub closed spec fn next_state(&self) -> nat {
        self.async_state_counter as nat
    }

    /// Every block index the pass holds names a block of the function: the entry,
    /// every target in the blocks, every exception handler and every loop target.
    pub open spec fn targets_ok(&self) -> bool {
        let n = self.function().blocks@.len();
        &&& self.function().targets_in_range()
        &&& forall|i: int| 0 <= i < self.handlers().len() ==> #[trigger] self.handlers()[i] < n
        &&& forall|i: int| 0 <= i < self.loops().len() ==> (#[trigger] self.loops()[i]).0 < n && self.loops()[i].1 < n
    }

    /// The open scopes, outermost first.
    pub closed spec fn scope_maps(&self) -> Seq<Map<Seq<char>, Seq<char>>> {
        Seq::new(self.scopes@.len(), |i: int| scope_map(self.scopes@[i]@))
    }

    /// The parameter types of each known function.
    pub closed spec fn signature_table(&self) -> Map<String, Vec<TejxType>> {
        self.signatures@
    }

    /// The fields of each known class.
    pub closed spec fn field_table(&self) -> Map<String, Vec<(String, TejxType)>> {
        self.class_fields@
    }

    /// The bookkeeping of async state machines: continuations, parameters, promise and locals.
    pub closed spec fn async_state(&self) -> (
        Seq<(usize, usize)>,
        Option<Vec<(String, TejxType)>>,
        Option<String>,
        Seq<String>,
    ) {
        (
            self.async_continuations@,
            self.current_async_params,
            self.current_promise_id,
            self.async_locals@,
        )
    }

    /// No scope has two entries for one name, nor the function two variables.
    pub closed spec fn wf(&self) -> bool {
        &&& forall|i: int| 0 <= i < self.scopes@.len() ==> distinct_names(#[trigger] self.scopes@[i]@)
        &&& distinct_type_names(self.current_function.variables@)
    }

    /// All but the scopes and the declaration counter are as in `before`.
    pub open spec fn same_but_scopes(self, before: Self) -> bool {
        &&& self.function() == before.function()
        &&& self.block() == before.block()
        &&& self.temps_made() == before.temps_made()
        &&& self.blocks_made() == before.blocks_made()
        &&& self.line() == before.line()
        &&& self.handlers() == before.handlers()
        &&& self.loops() == before.loops()
        &&& self.next_state() == before.next_state()
        &&& self.signature_table() == before.signature_table()
        &&& self.field_table() == before.field_table()
        &&& self.async_state() == before.async_state()
    }

    /// `self` is `before` after declaring `name`, which was given the unique name `unique`.
    pub open spec fn declared(self, before: Self, name: Seq<char>, unique: Seq<char>) -> bool {
        let depth = before.scope_maps().len();
        &&& self.wf()
        &&& self.same_but_scopes(before)
        &&& unique == declared_name(name, depth, before.vars_made())
        &&& self.vars_made() == (if kept_as_is(name) { before.vars_made() } else { before.vars_made() + 1 })
        &&& self.scope_maps() == (if depth == 0 {
            before.scope_maps()
        } else {
            before.scope_maps().update(depth - 1, before.scope_maps()[depth - 1].insert(name, unique))
        })
    }

    /// A pass with the given signatures and class fields, an empty function and
    /// one open scope.
    pub fn new(
        signatures: HashMap<String, Vec<TejxType>>,
        class_fields: HashMap<String, Vec<(String, TejxType)>>,
    ) -> (l: Self)
        ensures
            l.wf(),
            l.function().name@.len() == 0,
            l.function().params@.len() == 0,
            l.function().var_types() == Map::<Seq<char>, TejxType>::empty(),
            l.function().blocks@.len() == 0,
            l.function().entry_block == 0,
            !l.function().is_extern,
            l.block() == 0,
            l.temps_made() == 0,
            l.blocks_made() == 0,
            l.vars_made() == 0,
            l.line() == 0,
            l.handlers().len() == 0,
            l.loops().len() == 0,
            l.next_state() == 1,
            l.scope_maps() == seq![Map::<Seq<char>, Seq<char>>::empty()],
            l.signature_table() == signatures@,
            l.field_table() == class_fields@,
            l.async_state().0.len() == 0,
            l.async_state().1 is None,
            l.async_state().2 is None,
            l.async_state().3.len() == 0,
    {
        let mut scopes: Vec<Vec<(String, String)>> = Vec::new();
        scopes.push(Vec::new());
        let l = MIRLowering {
            current_function: MIRFunction::new(String::new()),
            current_block: 0,
            temp_counter: 0,
            block_counter: 0,
            loop_stack: Vec::new(),
            exception_handler_stack: Vec::new(),
            signatures,
            current_line: 0,
            scopes,
            var_counter: 0,
            class_fields,
            async_state_counter: 1,
            async_continuations: Vec::new(),
            current_async_params: None,
            current_promise_id: None,
            async_locals: Vec::new(),
        };
        assert(l.scope_maps() =~= seq![Map::<Seq<char>, Seq<char>>::empty()]);
        assert(l.loops() =~= Seq::<(usize, usize)>::empty());
        l
    }

    /// Opens a scope inside the current one.
    pub fn new_scope(&mut self)
        requires
            old(self).wf(),
        ensures
            final(self).wf(),
            final(self).same_but_scopes(*old(self)),
            final(self).vars_made() == old(self).vars_made(),
            final(self).scope_maps() == old(self).scope_maps().push(Map::empty()),
    {
        self.scopes.push(Vec::new());
        assert(self.scope_maps() =~= old(self).scope_maps().push(Map::empty()));
    }

    /// Closes the innermost scope and gives the unique names it declared, one per
    /// declared name, in no particular order.
    pub fn pop_scope(&mut self) -> (names: Vec<String>)
        requires
            old(self).wf(),
            old(self).scope_maps().len() > 0,
        ensures
            final(self).wf(),
            final(self).same_but_scopes(*old(self)),
            final(self).vars_made() == old(self).vars_made(),
            final(self).scope_maps() == old(self).scope_maps().drop_last(),
            names@.len() == old(self).scope_maps().last().dom().len(),
            forall|v: Seq<char>| old(self).scope_maps().last().values().contains(v)
                <==> exists|i: int| 0 <= i < names@.len() && #[trigger] names@[i]@ == v,
    {
        let ghost before = *self;
        let scope = self.scopes.pop().unwrap();
        let ghost m = scope_map(scope@);
        proof {
            assert(before.scope_maps().last() == m);
            assert(self.scope_maps() =~= before.scope_maps().drop_last());
            lemma_scope_map_dom(scope@);
        }
        let mut names: Vec<String> = Vec::new();
        let mut i: usize = 0;
        while i < scope.len()
            invariant
                i <= scope@.len(),
                names@.len() == i,
                forall|j: int| 0 <= j < i ==> #[trigger] names@[j]@ == scope@[j].1@,
            decreases scope@.len() - i,
        {
            names.push(scope[i].1.clone());
            i = i + 1;
        }
        proof {
            assert forall|v: Seq<char>| m.values().contains(v)
                implies exists|i: int| 0 <= i < names@.len() && #[trigger] names@[i]@ == v by {
                let k = choose|k: Seq<char>| m.contains_key(k) && m[k] == v;
                let j = choose|j: int| 0 <= j < scope@.len() && scope@[j].0@ == k;
                lemma_scope_map_has(scope@, j);
                assert(names@[j]@ == v);
            }
            assert forall|v: Seq<char>| (exists|i: int| 0 <= i < names@.len() && #[trigger] names@[i]@ == v)
                implies m.values().contains(v) by {
                let j = choose|j: int| 0 <= j < names@.len() && #[trigger] names@[j]@ == v;
                lemma_scope_map_has(scope@, j);
                assert(m.contains_key(scope@[j].0@) && m[scope@[j].0@] == v);
            }
        }
        names
    }

    /// Declares `name` in the innermost scope and gives the unique name it stands for
    /// from now on: globals and names holding `$` keep their name, as does any name
    /// in the outermost scope; others get `_` and a running number behind them.
    pub fn declare_variable(&mut self, name: &str) -> (unique: String)
        requires
            old(self).wf(),
            !kept_as_is(name@) ==> old(self).vars_made() < usize::MAX,
        ensures
            final(self).declared(*old(self), name@, unique@),
    {
        let ghost before = *self;
        let depth = self.scopes.len();
        proof { reveal_strlit("g_"); }
        let global = starts_with(name, "g_");
        let mangled = contains_char(name, '$');
        assert(kept_as_is(name@) == (global || mangled));
        let unique = if global || mangled || depth == 1 {
            owned(name)
        } else {
            let mut s = owned(name);
            proof { reveal_strlit("_"); }
            s.append("_");
            s.append(decimal_string(self.var_counter).as_str());
            assert(s@ =~= name@ + seq!['_'] + decimal(self.var_counter as nat));
            s
        };
        assert(unique@ == declared_name(name@, depth as nat, before.vars_made()));
        if !global && !mangled {
            self.var_counter = self.var_counter + 1;
        }
        if depth > 0 {
            let mut scope = self.scopes.pop().unwrap();
            proof {
                assert(distinct_names(before.scopes@[depth - 1]@));
            }
            insert_name(&mut scope, owned(name), unique.clone());
            self.scopes.push(scope);
            proof {
                assert(self.scopes@ =~= before.scopes@.update(depth - 1, scope));
                assert(self.scope_maps() =~= before.scope_maps().update(
                    depth - 1,
                    before.scope_maps()[depth - 1].insert(name@, unique@),
                ));
                assert forall|i: int| 0 <= i < self.scopes@.len() implies distinct_names(
                    #[trigger] self.scopes@[i]@,
                ) by {
                    if i != depth - 1 {
                        assert(self.scopes@[i] == before.scopes@[i]);
                    }
                }
            }
        }
        assert(self.wf());
        assert(self.same_but_scopes(before));
        unique
    }

    /// The unique name that `name` stands for: the innermost declaration wins, and
    /// an undeclared name stands for itself.
    pub fn resolve_variable(&self, name: &str) -> (unique: String)
        requires
            self.wf(),
        ensures
            unique@ == resolve_in(self.scope_maps(), name@),
    {
        let n = self.scopes.len();
        let mut i = n;
        while i > 0
            invariant
                i <= n,
                n == self.scopes@.len(),
                self.wf(),
                forall|k: int| i <= k < n ==> !self.scope_maps()[k].contains_key(name@),
            decreases i,
        {
            i = i - 1;
            let scope = &self.scopes[i];
            proof { assert(distinct_names(self.scopes@[i as int]@)); }
            match find_name(scope, name) {
                Some(j) => {
                    proof {
                        lemma_scope_map_has(scope@, j as int);
                        lemma_resolve_skip(self.scope_maps(), name@, i + 1);
                        let sub = self.scope_maps().subrange(0, i + 1);
                        assert(sub.last() == self.scope_maps()[i as int]);
                    }
                    return scope[j].1.clone();
                },
                None => {
                    proof { lemma_scope_map_lacks(scope@, name@); }
                },
            }
        }
        proof {
            lemma_resolve_skip(self.scope_maps(), name@, 0);
            assert(self.scope_maps().subrange(0, 0).len() == 0);
        }
        owned(name)
    }

    /// All but the function being built and the counters of fresh names are as in `before`.
    pub open spec fn same_names(self, before: Self) -> bool {
        &&& self.wf()
        &&& self.block() == before.block()
        &&& self.vars_made() == before.vars_made()
        &&& self.line() == before.line()
        &&& self.handlers() == before.handlers()
        &&& self.loops() == before.loops()
        &&& self.next_state() == before.next_state()
        &&& self.scope_maps() == before.scope_maps()
        &&& self.signature_table() == before.signature_table()
        &&& self.field_table() == before.field_table()
        &&& self.async_state() == before.async_state()
    }

    /// Adds an empty block named after `prefix` and the number of blocks made so far,
    /// handled by the innermost exception handler, and gives its index.
    pub fn new_block(&mut self, prefix: &str) -> (idx: usize)
        requires
            old(self).wf(),
            old(self).blocks_made() < usize::MAX,
            old(self).function().blocks@.len() < usize::MAX,
        ensures
            final(self).same_names(*old(self)),
            final(self).temps_made() == old(self).temps_made(),
            final(self).blocks_made() == old(self).blocks_made() + 1,
            idx == old(self).function().blocks@.len(),
            final(self).function().blocks@.len() == idx + 1,
            final(self).function().blocks@.drop_last() == old(self).function().blocks@,
            final(self).function().blocks@[idx as int].name@ == block_name(prefix@, old(self).blocks_made()),
            final(self).function().blocks@[idx as int].instructions@.len() == 0,
            final(self).function().blocks@[idx as int].exception_handler == (if old(self).handlers().len() == 0 {
                None
            } else {
                Some(old(self).handlers().last())
            }),
            final(self).function().name == old(self).function().name,
            final(self).function().params == old(self).function().params,
            final(self).function().variables == old(self).function().variables,
            final(self).function().entry_block == old(self).function().entry_block,
            final(self).function().is_extern == old(self).function().is_extern,
            old(self).function().targets_in_range() && (old(self).handlers().len() > 0
                ==> old(self).handlers().last() < old(self).function().blocks@.len())
                ==> final(self).function().targets_in_range(),
    {
        let ghost before = *self;
        let mut name = owned(prefix);
        proof { reveal_strlit("_"); }
        name.append("_");
        name.append(decimal_string(self.block_counter).as_str());
        assert(name@ =~= block_name(prefix@, self.block_counter as nat));
        self.block_counter = self.block_counter + 1;
        let mut bb = BasicBlock::new(name);
        let n = self.exception_handler_stack.len();
        bb.exception_handler = if n > 0 {
            Some(self.exception_handler_stack[n - 1])
        } else {
            None
        };
        self.current_function.blocks.push(bb);
        assert(self.function().blocks@.drop_last() =~= before.function().blocks@);
        proof {
            let f0 = before.function();
            let f1 = self.function();
            if f0.targets_in_range() && (before.handlers().len() > 0 ==> before.handlers().last() < f0.blocks@.len()) {
                assert forall|b: int| 0 <= b < f1.blocks@.len() implies (#[trigger] f1.blocks@[b]).targets_below(
                    f1.blocks@.len() as int) by {
                    if b < f0.blocks@.len() {
                        assert(f1.blocks@[b] == f0.blocks@[b]);
                        assert(f0.blocks@[b].targets_below(f0.blocks@.len() as int));
                    }
                }
            }
        }
        self.current_function.blocks.len() - 1
    }

    /// Names a fresh temporary of type `ty` and records it among the function's variables.
    pub fn new_temp(&mut self, ty: TejxType) -> (name: String)
        requires
            old(self).wf(),
            old(self).temps_made() < usize::MAX,
        ensures
            final(self).same_names(*old(self)),
            final(self).blocks_made() == old(self).blocks_made(),
            final(self).temps_made() == old(self).temps_made() + 1,
            name@ == temp_name(old(self).temps_made()),
            final(self).function().var_types() == old(self).function().var_types().insert(name@, ty),
            final(self).function().name == old(self).function().name,
            final(self).function().params == old(self).function().params,
            final(self).function().blocks == old(self).function().blocks,
            final(self).function().entry_block == old(self).function().entry_block,
            final(self).function().is_extern == old(self).function().is_extern,
    {
        let mut name = String::new();
        proof { reveal_strlit("_t"); }
        name.append("_t");
        name.append(decimal_string(self.temp_counter).as_str());
        assert(name@ =~= temp_name(self.temp_counter as nat));
        self.temp_counter = self.temp_counter + 1;
        put_type(&mut self.current_function.variables, name.clone(), ty);
        name
    }

    /// As `new_temp`, for the temporaries of an async state machine.
    pub fn new_async_temp(&mut self, ty: TejxType) -> (name: String)
        requires
            old(self).wf(),
            old(self).temps_made() < usize::MAX,
        ensures
            final(self).same_names(*old(self)),
            final(self).blocks_made() == old(self).blocks_made(),
            final(self).temps_made() == old(self).temps_made() + 1,
            name@ == async_temp_name(old(self).temps_made()),
            final(self).function().var_types() == old(self).function().var_types().insert(name@, ty),
            final(self).function().name == old(self).function().name,
            final(self).function().params == old(self).function().params,
            final(self).function().blocks == old(self).function().blocks,
            final(self).function().entry_block == old(self).function().entry_block,
            final(self).function().is_extern == old(self).function().is_extern,
    {
        let mut name = String::new();
        proof { reveal_strlit("_atmp"); }
        name.append("_atmp");
        name.append(decimal_string(self.temp_counter).as_str());
        assert(name@ =~= async_temp_name(self.temp_counter as nat));
        self.temp_counter = self.temp_counter + 1;
        put_type(&mut self.current_function.variables, name.clone(), ty);
        name
    }

    /// `self` is `before` after `inst`, stamped with the current line, was appended to
    /// the current block; or, where that block was terminated, `self` is `before`.
    pub open spec fn emitted(self, before: Self, inst: MIRInstruction) -> bool {
        let cb = before.block();
        let b = before.function().blocks@[cb];
        let nb = self.function().blocks@[cb];
        &&& b.spec_terminated() ==> self == before
        &&& !b.spec_terminated() ==> {
            &&& self.same_names(before)
            &&& self.temps_made() == before.temps_made()
            &&& self.blocks_made() == before.blocks_made()
            &&& self.function().blocks@.len() == before.function().blocks@.len()
            &&& forall|j: int| 0 <= j < before.function().blocks@.len() && j != cb
                ==> self.function().blocks@[j] == before.function().blocks@[j]
            &&& nb.name == b.name
            &&& nb.exception_handler == b.exception_handler
            &&& nb.instructions@ == b.instructions@.push(inst.with_line(before.line()))
            &&& self.function().name == before.function().name
            &&& self.function().params == before.function().params
            &&& self.function().variables == before.function().variables
            &&& self.function().entry_block == before.function().entry_block
            &&& self.function().is_extern == before.function().is_extern
        }
    }

    /// Appends `inst`, stamped with the current line, to the current block, unless
    /// that block is already terminated: then nothing changes.
    pub fn emit(&mut self, inst: MIRInstruction)
        requires
            old(self).wf(),
            0 <= old(self).block() < old(self).function().blocks@.len(),
        ensures
            final(self).emitted(*old(self), inst),
            old(self).function().targets_in_range() && inst.targets_below(old(self).function().blocks@.len() as int)
                ==> final(self).function().targets_in_range(),
    {
        let ghost before = *self;
        let ghost orig = inst;
        let mut inst = inst;
        inst.set_line(self.current_line);
        let cb = self.current_block;
        if cb < self.current_function.blocks.len() && self.current_function.blocks[cb].is_terminated() {
            return;
        }
        self.current_function.blocks[cb].add_instruction(inst);
        proof {
            let f0 = before.function();
            let f1 = self.function();
            law_line_round_trip(orig, before.line());
            if f0.targets_in_range() && orig.targets_below(f0.blocks@.len() as int) {
                let n = f0.blocks@.len() as int;
                assert(f1.blocks@[cb as int].targets_below(n)) by {
                    let old_b = f0.blocks@[cb as int];
                    let new_b = f1.blocks@[cb as int];
                    assert(old_b.targets_below(n));
                    assert forall|i: int| 0 <= i < new_b.instructions@.len() implies
                        (#[trigger] new_b.instructions@[i]).targets_below(n) by {
                        if i < old_b.instructions@.len() {
                            assert(new_b.instructions@[i] == old_b.instructions@[i]);
                        }
                    }
                }
                assert forall|b: int| 0 <= b < f1.blocks@.len() implies (#[trigger] f1.blocks@[b]).targets_below(
                    f1.blocks@.len() as int) by {
                    if b != cb as int {
                        assert(f1.blocks@[b] == f0.blocks@[b]);
                    }
                }
            }
        }
    }

    /// The function being built.
    pub fn current(&self) -> (f: &MIRFunction)
        ensures
            *f == self.function(),
    {
        &self.current_function
    }

    /// The start of lowering an `if`: makes the blocks `if_then`, `if_else` and
    /// `if_merge`, and gives them. The current block stays as it is.
    pub fn enter_if(&mut self) -> (r: (usize, usize, usize))
        requires
            old(self).wf(),
            old(self).blocks_made() + 3 <= usize::MAX,
            old(self).function().blocks@.len() + 3 <= usize::MAX,
        ensures
            ({
                let n = old(self).function().blocks@.len() as int;
                &&& r.0 == n && r.1 == n + 1 && r.2 == n + 2
                &&& final(self).function().blocks@.len() == n + 3
                &&& forall|j: int| 0 <= j < n ==> final(self).function().blocks@[j] == old(self).function().blocks@[j]
                &&& forall|j: int| n <= j < n + 3 ==> (#[trigger] final(self).function().blocks@[j]).instructions@.len() == 0
                &&& made_block(final(self).function().blocks@[n], "if_then"@, old(self).blocks_made(), innermost(old(self).handlers()))
                &&& made_block(final(self).function().blocks@[n + 1], "if_else"@, old(self).blocks_made() + 1, innermost(old(self).handlers()))
                &&& made_block(final(self).function().blocks@[n + 2], "if_merge"@, old(self).blocks_made() + 2, innermost(old(self).handlers()))
            }),
            final(self).same_names(*old(self)),
            final(self).temps_made() == old(self).temps_made(),
            final(self).blocks_made() == old(self).blocks_made() + 3,
            final(self).function().entry_block == old(self).function().entry_block,
            final(self).function().variables == old(self).function().variables,
            old(self).targets_ok() ==> final(self).targets_ok(),
    {
        let ghost s0 = *self;
        let then_block = self.new_block("if_then");
        let ghost s1 = *self;
        let else_block = self.new_block("if_else");
        let ghost s2 = *self;
        let merge_block = self.new_block("if_merge");
        proof {
            assert(self.function().blocks@[then_block as int] == s1.function().blocks@[then_block as int]);
            assert(self.function().blocks@[else_block as int] == s2.function().blocks@[else_block as int]);
            assert forall|j: int| 0 <= j < s0.function().blocks@.len() implies
                self.function().blocks@[j] == s0.function().blocks@[j] by {
                assert(s1.function().blocks@[j] == s0.function().blocks@[j]);
                assert(s2.function().blocks@[j] == s1.function().blocks@[j]);
            }
            if s0.targets_ok() {
                let n = self.function().blocks@.len();
                assert(forall|i: int| 0 <= i < self.loops().len() ==> (#[trigger] self.loops()[i]).0 < n
                    && self.loops()[i].1 < n);
            }
        }
        (then_block, else_block, merge_block)
    }

    /// Makes block `idx` the one instructions go to, as when lowering moves on to the
    /// `else` branch or past a construct.
    pub fn switch_to_block(&mut self, idx: usize)
        requires
            old(self).wf(),
        ensures
            final(self).wf(),
            final(self).block() == idx,
            final(self).function() == old(self).function(),
            final(self).temps_made() == old(self).temps_made(),
            final(self).blocks_made() == old(self).blocks_made(),
            final(self).vars_made() == old(self).vars_made(),
            final(self).line() == old(self).line(),
            final(self).handlers() == old(self).handlers(),
            final(self).loops() == old(self).loops(),
            final(self).scope_maps() == old(self).scope_maps(),
            old(self).targets_ok() ==> final(self).targets_ok(),
    {
        self.current_block = idx;
    }

    /// The start of lowering `try`: makes the block `try_exit`; two temporaries, one
    /// telling whether a `finally` runs while an exception unwinds and one for the
    /// exception it saved; with `has_finally` the blocks `finally_unwind` and
    /// `finally_body`; then `catch`, handled by `finally_unwind` where there is one;
    /// makes `catch` the innermost handler; makes `try_start`, handled by `catch`; sets
    /// up the handler from the current block and makes `try_start` current. Gives the
    /// exit, the two temporaries, the two `finally` blocks, `catch` and `try_start`.
    pub fn enter_try(&mut self, has_finally: bool) -> (r: (usize, String, String, Option<usize>, Option<usize>, usize, usize))
        requires
            old(self).wf(),
            0 <= old(self).block() < old(self).function().blocks@.len(),
            old(self).blocks_made() + 5 <= usize::MAX,
            old(self).function().blocks@.len() + 5 <= usize::MAX,
            old(self).temps_made() + 2 <= usize::MAX,
        ensures
            ({
                let n = old(self).function().blocks@.len() as int;
                let (exit, unwinding, saved, finally_unwind, finally_body, catch, start) = r;
                &&& exit == n
                &&& unwinding@ == temp_name(old(self).temps_made())
                &&& saved@ == temp_name(old(self).temps_made() + 1)
                &&& final(self).function().var_types() == old(self).function().var_types().insert(
                    unwinding@,
                    TejxType::Bool,
                ).insert(saved@, TejxType::Int64)
                &&& has_finally ==> finally_unwind == Some((n + 1) as usize) && finally_body == Some((n + 2) as usize)
                    && catch == n + 3 && start == n + 4
                &&& !has_finally ==> finally_unwind is None && finally_body is None && catch == n + 1 && start == n + 2
                &&& final(self).function().blocks@.len() == start + 1
                &&& forall|j: int| n <= j <= start ==> (#[trigger] final(self).function().blocks@[j]).instructions@.len() == 0
                &&& made_block(final(self).function().blocks@[n], "try_exit"@, old(self).blocks_made(), innermost(old(self).handlers()))
                &&& has_finally ==> made_block(final(self).function().blocks@[n + 1], "finally_unwind"@, old(self).blocks_made() + 1, innermost(old(self).handlers()))
                &&& has_finally ==> made_block(final(self).function().blocks@[n + 2], "finally_body"@, old(self).blocks_made() + 2, innermost(old(self).handlers()))
                &&& final(self).function().blocks@[catch as int].name@ == block_name("catch"@, (old(self).blocks_made() + catch - n) as nat)
                &&& final(self).function().blocks@[start as int].name@ == block_name("try_start"@, (old(self).blocks_made() + start - n) as nat)
                &&& final(self).function().blocks@[catch as int].exception_handler == (if has_finally {
                    Some((n + 1) as usize)
                } else if old(self).handlers().len() == 0 {
                    None
                } else {
                    Some(old(self).handlers().last())
                })
                &&& final(self).function().blocks@[start as int].exception_handler == Some(catch)
                &&& final(self).handlers() == old(self).handlers().push(catch)
                &&& final(self).block() == start
                &&& old(self).function().blocks@[old(self).block()].spec_terminated()
                    ==> final(self).function().blocks@[old(self).block()] == old(self).function().blocks@[old(self).block()]
                &&& !old(self).function().blocks@[old(self).block()].spec_terminated()
                    ==> final(self).function().blocks@[old(self).block()].instructions@
                    == old(self).function().blocks@[old(self).block()].instructions@.push(
                        (MIRInstruction::TrySetup { try_target: start, _catch_target: catch, line: old(self).line() }),
                    )
            }),
            final(self).wf(),
            final(self).loops() == old(self).loops(),
            final(self).vars_made() == old(self).vars_made(),
            final(self).line() == old(self).line(),
            final(self).scope_maps() == old(self).scope_maps(),
            final(self).temps_made() == old(self).temps_made() + 2,
            final(self).function().entry_block == old(self).function().entry_block,
            old(self).targets_ok() ==> final(self).targets_ok(),
    {
        let ghost s0 = *self;
        let cb = self.current_block;
        let exit = self.new_block("try_exit");
        let unwinding = self.new_temp(TejxType::Bool);
        let saved = self.new_temp(TejxType::Int64);
        let ghost s1 = *self;
        let finally_unwind = if has_finally { Some(self.new_block("finally_unwind")) } else { None };
        let finally_body = if has_finally { Some(self.new_block("finally_body")) } else { None };
        let ghost s2 = *self;
        proof {
            assert(s1.function().blocks@.len() == s0.function().blocks@.len() + 1);
            assert(s1.function().blocks@[cb as int] == s0.function().blocks@[cb as int]);
            if has_finally {
                assert(s2.function().blocks@.len() == s1.function().blocks@.len() + 2);
            } else {
                assert(s2 == s1);
            }
            assert(s2.function().blocks@[cb as int] == s0.function().blocks@[cb as int]);
            assert(s2.function().blocks@[exit as int] == s1.function().blocks@[exit as int]);
            if s0.targets_ok() {
                let n = s2.function().blocks@.len();
                assert(forall|i: int| 0 <= i < s2.loops().len() ==> (#[trigger] s2.loops()[i]).0 < n
                    && s2.loops()[i].1 < n);
                assert(forall|i: int| 0 <= i < s2.handlers().len() ==> #[trigger] s2.handlers()[i] < n);
            }
        }
        match finally_unwind {
            Some(h) => self.exception_handler_stack.push(h),
            None => {},
        }
        let ghost s3 = *self;
        let catch = self.new_block("catch");
        if finally_unwind.is_some() {
            self.exception_handler_stack.pop();
        }
        proof {
            assert(self.handlers() =~= s2.handlers());
        }
        self.exception_handler_stack.push(catch);
        let ghost s4 = *self;
        proof {
            if s0.targets_ok() {
                let n = s4.function().blocks@.len();
                assert(forall|i: int| 0 <= i < s4.loops().len() ==> (#[trigger] s4.loops()[i]).0 < n
                    && s4.loops()[i].1 < n);
                assert forall|i: int| 0 <= i < s4.handlers().len() implies #[trigger] s4.handlers()[i] < n by {
                    if i < s2.handlers().len() {
                        assert(s4.handlers()[i] == s2.handlers()[i]);
                    }
                }
            }
        }
        let start = self.new_block("try_start");
        let ghost s5 = *self;
        proof {
            assert(s5.function().blocks@[cb as int] == s0.function().blocks@[cb as int]);
            assert(s5.function().blocks@[catch as int] == s4.function().blocks@[catch as int]);
            law_line_round_trip(MIRInstruction::TrySetup { try_target: start, _catch_target: catch, line: 0 }, s5.line());
            if s0.targets_ok() {
                let n = s5.function().blocks@.len();
                assert(forall|i: int| 0 <= i < s5.loops().len() ==> (#[trigger] s5.loops()[i]).0 < n
                    && s5.loops()[i].1 < n);
                assert(forall|i: int| 0 <= i < s5.handlers().len() ==> #[trigger] s5.handlers()[i] < n);
            }
        }
        self.emit(MIRInstruction::TrySetup { try_target: start, _catch_target: catch, line: 0 });
        self.current_block = start;
        (exit, unwinding, saved, finally_unwind, finally_body, catch, start)
    }

    /// The end of a `try` body: unless the current block is terminated, removes the
    /// handler (`PopHandler`), then either records that no exception unwinds and goes
    /// to `finally_body`, or goes to `exit`; in any case `catch` stops being the
    /// innermost handler.
    pub fn leave_try_body(&mut self, unwinding: &String, finally_body: Option<usize>, exit: usize)
        requires
            old(self).wf(),
            0 <= old(self).block() < old(self).function().blocks@.len(),
        ensures
            final(self).wf(),
            final(self).block() == old(self).block(),
            final(self).loops() == old(self).loops(),
            final(self).handlers() == (if old(self).handlers().len() > 0 {
                old(self).handlers().drop_last()
            } else {
                old(self).handlers()
            }),
            final(self).function().blocks@.len() == old(self).function().blocks@.len(),
            forall|j: int| 0 <= j < old(self).function().blocks@.len() && j != old(self).block()
                ==> final(self).function().blocks@[j] == old(self).function().blocks@[j],
            ({
                let cb = old(self).block();
                let b = old(self).function().blocks@[cb];
                let ins = final(self).function().blocks@[cb].instructions@;
                let k = b.instructions@.len() as int;
                let l = old(self).line();
                &&& b.spec_terminated() ==> final(self).function().blocks@[cb] == b
                &&& !b.spec_terminated() && finally_body is None ==> ins == b.instructions@ + seq![
                    MIRInstruction::PopHandler { line: l },
                    MIRInstruction::Jump { target: exit, line: l },
                ]
                &&& !b.spec_terminated() && finally_body is Some ==> {
                    &&& ins.len() == k + 3
                    &&& ins.subrange(0, k) == b.instructions@
                    &&& ins[k] == (MIRInstruction::PopHandler { line: l })
                    &&& ins[k + 1] matches MIRInstruction::Move { dst, src: MIRValue::Constant { value, ty }, line }
                        && dst == *unwinding && value@ == "false"@ && ty == TejxType::Bool && line == l
                    &&& ins[k + 2] == (MIRInstruction::Jump { target: finally_body.unwrap(), line: l })
                }
            }),
            old(self).targets_ok() && exit < old(self).function().blocks@.len()
                && (finally_body matches Some(fb) ==> fb < old(self).function().blocks@.len())
                ==> final(self).targets_ok(),
    {
        let ghost s0 = *self;
        let cb = self.current_block;
        if !self.current_function.blocks[cb].is_terminated() {
            proof {
                law_line_round_trip(MIRInstruction::PopHandler { line: 0 }, s0.line());
            }
            self.emit(MIRInstruction::PopHandler { line: 0 });
            let ghost s1 = *self;
            match finally_body {
                Some(fb) => {
                    let flag = MIRInstruction::Move {
                        dst: unwinding.clone(),
                        src: MIRValue::Constant { value: owned("false"), ty: TejxType::Bool },
                        line: 0,
                    };
                    proof {
                        law_line_round_trip(flag, s0.line());
                    }
                    self.emit(flag);
                    let ghost s2 = *self;
                    proof {
                        law_line_round_trip(MIRInstruction::Jump { target: fb, line: 0 }, s0.line());
                    }
                    self.emit(MIRInstruction::Jump { target: fb, line: 0 });
                    proof {
                        let k = s0.function().blocks@[cb as int].instructions@.len();
                        let ins = self.function().blocks@[cb as int].instructions@;
                        assert(ins.subrange(0, k as int) =~= s0.function().blocks@[cb as int].instructions@);
                        assert(self.loops() == s0.loops());
                        assert(self.handlers() == s0.handlers());
                    }
                },
                None => {
                    proof {
                        law_line_round_trip(MIRInstruction::Jump { target: exit, line: 0 }, s0.line());
                    }
                    self.emit(MIRInstruction::Jump { target: exit, line: 0 });
                    proof {
                        assert(self.function().blocks@[cb as int].instructions@ =~= s0.function().blocks@[cb as int].instructions@
                            + seq![
                            MIRInstruction::PopHandler { line: s0.line() },
                            MIRInstruction::Jump { target: exit, line: s0.line() },
                        ]);
                        assert(self.loops() == s0.loops());
                        assert(self.handlers() == s0.handlers());
                    }
                },
            }
        }
        let ghost s3 = *self;
        assert(s3.loops() == s0.loops() && s3.handlers() == s0.handlers());
        self.exception_handler_stack.pop();
        proof {
            if s3.handlers().len() > 0 {
                assert(self.handlers() =~= s3.handlers().drop_last());
            } else {
                assert(self.handlers() =~= s3.handlers());
            }
            if s0.targets_ok() && exit < s0.function().blocks@.len()
                && (finally_body matches Some(fb) ==> fb < s0.function().blocks@.len()) {
                let n = self.function().blocks@.len();
                assert(forall|i: int| 0 <= i < self.loops().len() ==> (#[trigger] self.loops()[i]).0 < n
                    && self.loops()[i].1 < n);
                assert forall|i: int| 0 <= i < self.handlers().len() implies #[trigger] self.handlers()[i] < n by {
                    assert(self.handlers()[i] == s0.handlers()[i]);
                }
            }
        }
    }

    /// The start of lowering a `switch`: makes the block `switch_exit`, where `break`
    /// now goes (`continue` still goes where it went in the enclosing loop, or to the
    /// exit outside any loop); makes the block `case_check` and jumps to it from the
    /// current block. Gives the exit and the first check block.
    pub fn enter_switch(&mut self) -> (r: (usize, usize))
        requires
            old(self).wf(),
            0 <= old(self).block() < old(self).function().blocks@.len(),
            old(self).blocks_made() + 2 <= usize::MAX,
            old(self).function().blocks@.len() + 2 <= usize::MAX,
        ensures
            ({
                let n = old(self).function().blocks@.len() as int;
                let cb = old(self).block();
                let b = old(self).function().blocks@[cb];
                &&& r.0 == n && r.1 == n + 1
                &&& final(self).function().blocks@.len() == n + 2
                &&& made_block(final(self).function().blocks@[n], "switch_exit"@, old(self).blocks_made(), innermost(old(self).handlers()))
                &&& made_block(final(self).function().blocks@[n + 1], "case_check"@, old(self).blocks_made() + 1, innermost(old(self).handlers()))
                &&& final(self).function().blocks@[n].instructions@.len() == 0
                &&& final(self).function().blocks@[n + 1].instructions@.len() == 0
                &&& final(self).loops() == old(self).loops().push((
                    if old(self).loops().len() > 0 { old(self).loops().last().0 } else { r.0 },
                    r.0,
                ))
                &&& b.spec_terminated() ==> final(self).function().blocks@[cb] == b
                &&& !b.spec_terminated() ==> final(self).function().blocks@[cb].instructions@
                    == b.instructions@.push((MIRInstruction::Jump { target: r.1, line: old(self).line() }))
            }),
            final(self).wf(),
            final(self).block() == old(self).block(),
            final(self).handlers() == old(self).handlers(),
            final(self).line() == old(self).line(),
            final(self).temps_made() == old(self).temps_made(),
            final(self).blocks_made() == old(self).blocks_made() + 2,
            old(self).targets_ok() ==> final(self).targets_ok(),
    {
        let ghost s0 = *self;
        let cb = self.current_block;
        let switch_exit = self.new_block("switch_exit");
        let ghost sx = *self;
        let n = self.loop_stack.len();
        proof {
            assert(sx.loops() == s0.loops());
            assert(n == s0.loops().len());
            if n > 0 {
                assert(sx.loops()[n as int - 1] == (
                    self.loop_stack@[n as int - 1].continue_target,
                    self.loop_stack@[n as int - 1].break_target,
                ));
            }
        }
        let prev_continue = if n > 0 {
            self.loop_stack[n - 1].continue_target
        } else {
            switch_exit
        };
        self.loop_stack.push(LoopContext { continue_target: prev_continue, break_target: switch_exit });
        let ghost s1 = *self;
        proof {
            assert(s1.loops() =~= s0.loops().push((prev_continue, switch_exit)));
            if s0.targets_ok() {
                let len = s1.function().blocks@.len();
                assert forall|i: int| 0 <= i < s1.loops().len() implies
                    (#[trigger] s1.loops()[i]).0 < len && s1.loops()[i].1 < len by {
                    if i < s0.loops().len() {
                        assert(s1.loops()[i] == s0.loops()[i]);
                    }
                }
            }
        }
        let check = self.new_block("case_check");
        let ghost s2 = *self;
        proof {
            assert(s2.function().blocks@[cb as int] == s0.function().blocks@[cb as int]);
            assert(s2.function().blocks@[switch_exit as int] == s1.function().blocks@[switch_exit as int]);
            law_line_round_trip(MIRInstruction::Jump { target: check, line: 0 }, s2.line());
            if s0.targets_ok() {
                let len = s2.function().blocks@.len();
                assert(forall|i: int| 0 <= i < s2.loops().len() ==> (#[trigger] s2.loops()[i]).0 < len
                    && s2.loops()[i].1 < len);
                assert(forall|i: int| 0 <= i < s2.handlers().len() ==> #[trigger] s2.handlers()[i] < len);
            }
        }
        self.emit(MIRInstruction::Jump { target: check, line: 0 });
        (switch_exit, check)
    }

    /// The end of a `finally` body: unless the current block is terminated, makes the
    /// block `finally_rethrow`, branches on `unwinding` to it or to `exit`, and in it
    /// raises the exception saved in `saved`, leaving it current.
    pub fn end_finally_body(&mut self, unwinding: &String, saved: &String, exit: usize)
        requires
            old(self).wf(),
            0 <= old(self).block() < old(self).function().blocks@.len(),
            old(self).blocks_made() + 1 <= usize::MAX,
            old(self).function().blocks@.len() + 1 <= usize::MAX,
        ensures
            final(self).wf(),
            final(self).loops() == old(self).loops(),
            final(self).handlers() == old(self).handlers(),
            ({
                let n = old(self).function().blocks@.len() as int;
                let cb = old(self).block();
                let b = old(self).function().blocks@[cb];
                let l = old(self).line();
                &&& b.spec_terminated() ==> *final(self) == *old(self)
                &&& !b.spec_terminated() ==> {
                    &&& final(self).function().blocks@.len() == n + 1
                    &&& final(self).block() == n
                    &&& final(self).function().blocks@[n].name@ == block_name("finally_rethrow"@, old(self).blocks_made())
                    &&& final(self).function().blocks@[n].exception_handler == innermost(old(self).handlers())
                    &&& final(self).function().blocks@[cb].instructions@ == b.instructions@.push((MIRInstruction::Branch {
                        condition: MIRValue::Variable { name: *unwinding, ty: TejxType::Bool },
                        true_target: n as usize,
                        false_target: exit,
                        line: l,
                    }))
                    &&& final(self).function().blocks@[n].instructions@ == seq![(MIRInstruction::Throw {
                        value: MIRValue::Variable { name: *saved, ty: TejxType::Int64 },
                        line: l,
                    })]
                }
            }),
            old(self).targets_ok() && exit < old(self).function().blocks@.len() ==> final(self).targets_ok(),
    {
        let ghost s0 = *self;
        let cb = self.current_block;
        if !self.current_function.blocks[cb].is_terminated() {
            let rethrow = self.new_block("finally_rethrow");
            let ghost s1 = *self;
            let branch = MIRInstruction::Branch {
                condition: MIRValue::Variable { name: unwinding.clone(), ty: TejxType::Bool },
                true_target: rethrow,
                false_target: exit,
                line: 0,
            };
            proof {
                assert(s1.function().blocks@[cb as int] == s0.function().blocks@[cb as int]);
                law_line_round_trip(branch, s0.line());
                if s0.targets_ok() && exit < s0.function().blocks@.len() {
                    let len = s1.function().blocks@.len();
                    assert(forall|i: int| 0 <= i < s1.loops().len() ==> (#[trigger] s1.loops()[i]).0 < len
                        && s1.loops()[i].1 < len);
                    assert(forall|i: int| 0 <= i < s1.handlers().len() ==> #[trigger] s1.handlers()[i] < len);
                }
            }
            self.emit(branch);
            let ghost s2 = *self;
            self.current_block = rethrow;
            let throw = MIRInstruction::Throw {
                value: MIRValue::Variable { name: saved.clone(), ty: TejxType::Int64 },
                line: 0,
            };
            proof {
                law_line_round_trip(throw, s0.line());
                assert(s2.function().blocks@[rethrow as int] == s1.function().blocks@[rethrow as int]);
            }
            self.emit(throw);
            proof {
                assert(self.function().blocks@[rethrow as int].instructions@ =~= seq![throw.with_line(s0.line())]);
                if s0.targets_ok() && exit < s0.function().blocks@.len() {
                    let len = self.function().blocks@.len();
                    assert(forall|i: int| 0 <= i < self.loops().len() ==> (#[trigger] self.loops()[i]).0 < len
                        && self.loops()[i].1 < len);
                    assert(forall|i: int| 0 <= i < self.handlers().len() ==> #[trigger] self.handlers()[i] < len);
                }
            }
        }
    }

    /// The end of lowering a function body: unless the current block is terminated,
    /// returns from it with no value; then hands over the function built, leaving an
    /// empty one in its place.
    pub fn finish_function(&mut self) -> (f: MIRFunction)
        requires
            old(self).wf(),
            0 <= old(self).block() < old(self).function().blocks@.len(),
        ensures
            ({
                let g = old(self).function();
                let cb = old(self).block();
                let b = g.blocks@[cb];
                &&& b.spec_terminated() ==> f == g
                &&& !b.spec_terminated() ==> {
                    &&& f.name == g.name
                    &&& f.params == g.params
                    &&& f.variables == g.variables
                    &&& f.entry_block == g.entry_block
                    &&& f.is_extern == g.is_extern
                    &&& f.blocks@.len() == g.blocks@.len()
                    &&& forall|j: int| 0 <= j < g.blocks@.len() && j != cb ==> f.blocks@[j] == g.blocks@[j]
                    &&& f.blocks@[cb].name == b.name
                    &&& f.blocks@[cb].exception_handler == b.exception_handler
                    &&& f.blocks@[cb].instructions@ == b.instructions@.push(
                        (MIRInstruction::Return { value: None, line: old(self).line() }),
                    )
                }
            }),
            old(self).targets_ok() ==> f.targets_in_range(),
            final(self).wf(),
            final(self).function().blocks@.len() == 0,
            final(self).handlers() == old(self).handlers(),
            final(self).loops() == old(self).loops(),
            final(self).scope_maps() == old(self).scope_maps(),
    {
        let ghost s0 = *self;
        let cb = self.current_block;
        if !self.current_function.blocks[cb].is_terminated() {
            proof {
                law_line_round_trip(MIRInstruction::Return { value: None, line: 0 }, s0.line());
            }
            self.emit(MIRInstruction::Return { value: None, line: 0 });
        }
        let mut f = MIRFunction::new(String::new());
        std::mem::swap(&mut f, &mut self.current_function);
        f
    }

    /// The start of lowering a `while` loop, or with `has_increment` a `for` loop:
    /// makes the blocks `loop_header`, `loop_body`, for a `for` loop `loop_latch`, and
    /// `loop_exit`; records that `continue` goes to the latch (in a `while` loop to the
    /// header) and `break` to the exit; jumps from the current block to the header and
    /// makes the header current. Gives the header, body, latch and exit.
    pub fn enter_loop(&mut self, has_increment: bool) -> (r: (usize, usize, usize, usize))
        requires
            old(self).wf(),
            0 <= old(self).block() < old(self).function().blocks@.len(),
            old(self).blocks_made() + 4 <= usize::MAX,
            old(self).function().blocks@.len() + 4 <= usize::MAX,
        ensures
            ({
                let n = old(self).function().blocks@.len() as int;
                let k: int = if has_increment { 4 } else { 3 };
                &&& r.0 == n
                &&& r.1 == n + 1
                &&& r.2 == (if has_increment { n + 2 } else { n })
                &&& r.3 == n + k - 1
                &&& final(self).function().blocks@.len() == n + k
                &&& final(self).blocks_made() == old(self).blocks_made() + k
                &&& forall|j: int| n <= j < n + k ==> (#[trigger] final(self).function().blocks@[j]).instructions@.len() == 0
                &&& made_block(final(self).function().blocks@[n], "loop_header"@, old(self).blocks_made(), innermost(old(self).handlers()))
                &&& made_block(final(self).function().blocks@[n + 1], "loop_body"@, old(self).blocks_made() + 1, innermost(old(self).handlers()))
                &&& has_increment ==> made_block(final(self).function().blocks@[n + 2], "loop_latch"@, old(self).blocks_made() + 2, innermost(old(self).handlers()))
                &&& made_block(final(self).function().blocks@[n + k - 1], "loop_exit"@, (old(self).blocks_made() + k - 1) as nat, innermost(old(self).handlers()))
            }),
            final(self).block() == r.0,
            final(self).loops() == old(self).loops().push((r.2, r.3)),
            final(self).wf(),
            final(self).temps_made() == old(self).temps_made(),
            final(self).vars_made() == old(self).vars_made(),
            final(self).line() == old(self).line(),
            final(self).handlers() == old(self).handlers(),
            final(self).scope_maps() == old(self).scope_maps(),
            final(self).function().entry_block == old(self).function().entry_block,
            final(self).function().variables == old(self).function().variables,
            old(self).function().blocks@[old(self).block()].spec_terminated()
                ==> final(self).function().blocks@[old(self).block()] == old(self).function().blocks@[old(self).block()],
            !old(self).function().blocks@[old(self).block()].spec_terminated()
                ==> final(self).function().blocks@[old(self).block()].instructions@
                == old(self).function().blocks@[old(self).block()].instructions@.push(
                    (MIRInstruction::Jump { target: r.0, line: old(self).line() }),
                ),
            old(self).targets_ok() ==> final(self).targets_ok(),
    {
        let ghost start = *self;
        let header = self.new_block("loop_header");
        let ghost s1 = *self;
        let body = self.new_block("loop_body");
        let ghost s2 = *self;
        let latch = if has_increment {
            self.new_block("loop_latch")
        } else {
            header
        };
        let ghost s3 = *self;
        let exit = self.new_block("loop_exit");
        let ghost s4 = *self;
        proof {
            assert(s4.function().blocks@.len() == s3.function().blocks@.len() + 1);
            assert(start.function().blocks@[start.block()] == s4.function().blocks@[start.block()]) by {
                assert(s1.function().blocks@[start.block()] == start.function().blocks@[start.block()]);
                assert(s2.function().blocks@[start.block()] == s1.function().blocks@[start.block()]);
                assert(s3.function().blocks@[start.block()] == s2.function().blocks@[start.block()]);
            }
            assert(s4.function().blocks@[header as int] == s1.function().blocks@[header as int]);
            assert(s4.function().blocks@[body as int] == s2.function().blocks@[body as int]);
            assert(s4.function().blocks@[latch as int] == s3.function().blocks@[latch as int]);
        }
        self.loop_stack.push(LoopContext { continue_target: latch, break_target: exit });
        proof {
            assert(self.loops() =~= s4.loops().push((latch, exit)));
            if start.targets_ok() {
                let n = self.function().blocks@.len();
                assert forall|i: int| 0 <= i < self.loops().len() implies
                    (#[trigger] self.loops()[i]).0 < n && self.loops()[i].1 < n by {
                    if i < start.loops().len() {
                        assert(self.loops()[i] == start.loops()[i]);
                    }
                }
            }
        }
        let ghost s5 = *self;
        self.emit(MIRInstruction::Jump { target: header, line: 0 });
        proof {
            law_line_round_trip(MIRInstruction::Jump { target: header, line: 0 }, s5.line());
            if start.targets_ok() {
                let n = self.function().blocks@.len();
                assert(forall|i: int| 0 <= i < self.loops().len() ==> (#[trigger] self.loops()[i]).0 < n
                    && self.loops()[i].1 < n);
            }
        }
        self.current_block = header;
        proof {
            assert(self.loops() =~= s5.loops());
        }
        (header, body, latch, exit)
    }

    /// `self` is `before` with `inst`, stamped with the current line, appended to the
    /// block `before` was building (nothing appended where that block was
    /// terminated), and with block `current` made current.
    pub open spec fn emitted_then_moved(self, before: Self, inst: MIRInstruction, current: int) -> bool {
        let cb = before.block();
        let b = before.function().blocks@[cb];
        &&& self.wf()
        &&& self.block() == current
        &&& self.temps_made() == before.temps_made()
        &&& self.blocks_made() == before.blocks_made()
        &&& self.vars_made() == before.vars_made()
        &&& self.line() == before.line()
        &&& self.handlers() == before.handlers()
        &&& self.scope_maps() == before.scope_maps()
        &&& self.function().blocks@.len() == before.function().blocks@.len()
        &&& self.function().entry_block == before.function().entry_block
        &&& self.function().variables == before.function().variables
        &&& forall|j: int| 0 <= j < before.function().blocks@.len() && j != cb
            ==> self.function().blocks@[j] == before.function().blocks@[j]
        &&& b.spec_terminated() ==> self.function().blocks@[cb] == b
        &&& !b.spec_terminated() ==> self.function().blocks@[cb].instructions@
            == b.instructions@.push(inst.with_line(before.line()))
    }

    /// After the condition of an `if` or a loop: branches on `condition` to `body` (the
    /// `then` block, the loop body) or to `exit` (the `else` block, the loop exit), and
    /// makes `body` current.
    pub fn branch_to(&mut self, condition: MIRValue, body: usize, exit: usize)
        requires
            old(self).wf(),
            0 <= old(self).block() < old(self).function().blocks@.len(),
        ensures
            final(self).emitted_then_moved(
                *old(self),
                (MIRInstruction::Branch { condition, true_target: body, false_target: exit, line: 0 }),
                body as int,
            ),
            final(self).loops() == old(self).loops(),
            old(self).targets_ok() && body < old(self).function().blocks@.len() && exit < old(self).function().blocks@.len()
                ==> final(self).targets_ok(),
    {
        let ghost inst = MIRInstruction::Branch { condition, true_target: body, false_target: exit, line: 0 };
        proof {
            law_line_round_trip(inst, self.line());
        }
        let ghost before = *self;
        self.emit(MIRInstruction::Branch { condition, true_target: body, false_target: exit, line: 0 });
        self.current_block = body;
        proof {
            if before.targets_ok() && body < before.function().blocks@.len() && exit < before.function().blocks@.len() {
                assert(inst.targets_below(before.function().blocks@.len() as int));
                assert(self.function().targets_in_range());
                assert(self.handlers() == before.handlers());
                assert(self.loops() == before.loops());
            }
        }
    }

    /// Jumps to `target` unless the current block is terminated already, as at the end
    /// of a loop body, of a `for` increment or of a branch.
    pub fn jump_unless_terminated(&mut self, target: usize)
        requires
            old(self).wf(),
            0 <= old(self).block() < old(self).function().blocks@.len(),
        ensures
            final(self).emitted_then_moved(*old(self), (MIRInstruction::Jump { target, line: 0 }), old(self).block()),
            final(self).loops() == old(self).loops(),
            old(self).targets_ok() && target < old(self).function().blocks@.len() ==> final(self).targets_ok(),
    {
        proof {
            law_line_round_trip(MIRInstruction::Jump { target, line: 0 }, self.line());
        }
        let cb = self.current_block;
        if !self.current_function.blocks[cb].is_terminated() {
            self.emit(MIRInstruction::Jump { target, line: 0 });
        }
    }

    /// The end of lowering a loop: closes the innermost loop, if any, and makes `exit`
    /// current.
    pub fn leave_loop(&mut self, exit: usize)
        requires
            old(self).wf(),
        ensures
            final(self).wf(),
            final(self).function() == old(self).function(),
            final(self).block() == exit,
            final(self).loops() == (if old(self).loops().len() > 0 {
                old(self).loops().drop_last()
            } else {
                old(self).loops()
            }),
            final(self).temps_made() == old(self).temps_made(),
            final(self).blocks_made() == old(self).blocks_made(),
            final(self).vars_made() == old(self).vars_made(),
            final(self).line() == old(self).line(),
            final(self).handlers() == old(self).handlers(),
            final(self).scope_maps() == old(self).scope_maps(),
            old(self).targets_ok() ==> final(self).targets_ok(),
    {
        let ghost before = *self;
        self.loop_stack.pop();
        self.current_block = exit;
        proof {
            if before.loops().len() > 0 {
                assert(self.loops() =~= before.loops().drop_last());
            } else {
                assert(self.loops() =~= before.loops());
            }
            if before.targets_ok() {
                let n = self.function().blocks@.len();
                assert forall|i: int| 0 <= i < self.loops().len() implies
                    (#[trigger] self.loops()[i]).0 < n && self.loops()[i].1 < n by {
                    assert(self.loops()[i] == before.loops()[i]);
                }
                assert(self.function() == before.function());
                assert(self.handlers() == before.handlers());
                assert(self.function().targets_in_range());
            }
        }
    }

    /// `break`: jumps to the exit of the innermost loop; outside any loop nothing changes.
    pub fn lower_break(&mut self)
        requires
            old(self).wf(),
            0 <= old(self).block() < old(self).function().blocks@.len(),
        ensures
            old(self).loops().len() == 0 ==> *final(self) == *old(self),
            old(self).loops().len() > 0 ==> final(self).emitted(
                *old(self),
                (MIRInstruction::Jump { target: old(self).loops().last().1, line: 0 }),
            ),
            old(self).targets_ok() ==> final(self).targets_ok(),
    {
        let n = self.loop_stack.len();
        if n > 0 {
            let target = self.loop_stack[n - 1].break_target;
            proof {
                law_line_round_trip(MIRInstruction::Jump { target, line: 0 }, self.line());
            }
            self.emit(MIRInstruction::Jump { target, line: 0 });
        }
    }

    /// `continue`: jumps to where the innermost loop continues; outside any loop
    /// nothing changes.
    pub fn lower_continue(&mut self)
        requires
            old(self).wf(),
            0 <= old(self).block() < old(self).function().blocks@.len(),
        ensures
            old(self).loops().len() == 0 ==> *final(self) == *old(self),
            old(self).loops().len() > 0 ==> final(self).emitted(
                *old(self),
                (MIRInstruction::Jump { target: old(self).loops().last().0, line: 0 }),
            ),
            old(self).targets_ok() ==> final(self).targets_ok(),
    {
        let n = self.loop_stack.len();
        if n > 0 {
            let target = self.loop_stack[n - 1].continue_target;
            proof {
                law_line_round_trip(MIRInstruction::Jump { target, line: 0 }, self.line());
            }
            self.emit(MIRInstruction::Jump { target, line: 0 });
        }
    }

    /// Starts building the function `name`, the part of lowering a function that
    /// comes before its body: resets the counters and the async bookkeeping, opens
    /// one scope in which each parameter stands for itself, records the parameters
    /// among the function's variables, and makes a block `entry_0` the entry and
    /// current block.
    pub fn begin_function(&mut self, name: String, params: Vec<(String, TejxType)>, is_extern: bool)
        ensures
            final(self).wf(),
            final(self).function().name == name,
            final(self).function().params@.len() == params@.len(),
            forall|i: int| 0 <= i < params@.len() ==> #[trigger] final(self).function().params@[i]@ == params@[i].0@,
            final(self).function().is_extern == is_extern,
            final(self).function().entry_block == 0,
            final(self).function().targets_in_range(),
            final(self).function().blocks@.len() == 1,
            final(self).function().blocks@[0].name@ == block_name(seq!['e', 'n', 't', 'r', 'y'], 0),
            final(self).function().blocks@[0].instructions@.len() == 0,
            final(self).function().blocks@[0].exception_handler is None,
            final(self).block() == 0,
            final(self).temps_made() == 0,
            final(self).blocks_made() == 1,
            final(self).vars_made() == 0,
            final(self).line() == old(self).line(),
            final(self).handlers().len() == 0,
            final(self).loops().len() == 0,
            final(self).next_state() == 1,
            final(self).targets_ok(),
            final(self).scope_maps() == seq![params_scope(params@)],
            final(self).function().var_types() == type_map(params@),
            final(self).signature_table() == old(self).signature_table(),
            final(self).field_table() == old(self).field_table(),
            final(self).async_state().0.len() == 0,
            final(self).async_state().1 is None,
            final(self).async_state().2 is None,
            final(self).async_state().3.len() == 0,
    {
        let mut func = MIRFunction::new(name);
        let mut names: Vec<String> = Vec::new();
        let mut i: usize = 0;
        while i < params.len()
            invariant
                i <= params@.len(),
                names@.len() == i,
                forall|j: int| 0 <= j < i ==> #[trigger] names@[j]@ == params@[j].0@,
            decreases params@.len() - i,
        {
            names.push(params[i].0.clone());
            i = i + 1;
        }
        func.params = names;
        func.is_extern = is_extern;
        let ghost ps = params@;
        let ghost fixed = func;
        let mut rest = params;
        let mut scope: Vec<(String, String)> = Vec::new();
        let mut k: usize = 0;
        while rest.len() > 0
            invariant
                k <= ps.len() <= usize::MAX,
                rest@ == ps.subrange(k as int, ps.len() as int),
                distinct_names(scope@),
                scope_map(scope@) == params_scope(ps.subrange(0, k as int)),
                distinct_type_names(func.variables@),
                type_map(func.variables@) == type_map(ps.subrange(0, k as int)),
                func.name == fixed.name,
                func.params == fixed.params,
                func.is_extern == fixed.is_extern,
                func.blocks == fixed.blocks,
                func.entry_block == fixed.entry_block,
            decreases rest@.len(),
        {
            let (pname, pty) = rest.remove(0);
            proof {
                assert(ps.subrange(0, k as int + 1).drop_last() =~= ps.subrange(0, k as int));
                assert(ps[k as int] == (pname, pty));
            }
            insert_name(&mut scope, pname.clone(), pname.clone());
            put_type(&mut func.variables, pname, pty);
            k = k + 1;
            proof {
                assert(rest@ =~= ps.subrange(k as int, ps.len() as int));
            }
        }
        proof {
            assert(ps.subrange(0, k as int) =~= ps);
        }
        self.current_function = func;
        self.temp_counter = 0;
        self.block_counter = 0;
        self.var_counter = 0;
        self.loop_stack.clear();
        self.exception_handler_stack.clear();
        self.scopes.clear();
        self.async_state_counter = 1;
        self.async_continuations.clear();
        self.current_async_params = None;
        self.current_promise_id = None;
        self.async_locals.clear();
        self.scopes.push(scope);
        assert(self.scope_maps() =~= seq![params_scope(ps)]);
        let entry = self.new_block("entry");
        proof { reveal_strlit("entry"); }
        self.current_function.entry_block = entry;
        self.current_block = entry;
    }

    /// Adds to the locals of an async state machine, after those it has: first
    /// the unique names of the async parameters, then the function's variables in
    /// code point order, leaving out machine internals and names already there.
    pub fn collect_async_locals(
        &mut self,
        async_params: &Option<Vec<(String, TejxType)>>,
        _params: &[(String, TejxType)],
    )
        requires
            old(self).wf(),
        ensures
            final(self).wf(),
            final(self).function() == old(self).function(),
            final(self).block() == old(self).block(),
            final(self).temps_made() == old(self).temps_made(),
            final(self).blocks_made() == old(self).blocks_made(),
            final(self).vars_made() == old(self).vars_made(),
            final(self).line() == old(self).line(),
            final(self).handlers() == old(self).handlers(),
            final(self).scope_maps() == old(self).scope_maps(),
            final(self).signature_table() == old(self).signature_table(),
            final(self).field_table() == old(self).field_table(),
            final(self).async_state().0 == old(self).async_state().0,
            final(self).async_state().1 == old(self).async_state().1,
            final(self).async_state().2 == old(self).async_state().2,
            exists|keys: Seq<Seq<char>>| {
                &&& sorted_keys(keys, old(self).function().var_types())
                &&& final(self).async_state().3.map_values(|s: String| s@) == with_names(
                    with_names(
                        old(self).async_state().3.map_values(|s: String| s@),
                        match async_params {
                            Some(aps) => param_locals(old(self).scope_maps(), aps@),
                            None => seq![],
                        },
                    ),
                    carried(keys),
                )
            },
    {
        let ghost before = *self;
        let ghost base = before.async_state().3.map_values(|s: String| s@);
        let mut locals: Vec<String> = Vec::new();
        std::mem::swap(&mut locals, &mut self.async_locals);
        let ghost ps: Seq<Seq<char>> = match async_params {
            Some(aps) => param_locals(before.scope_maps(), aps@),
            None => seq![],
        };
        match async_params {
            Some(aps) => {
                let mut i: usize = 0;
                assert(aps@.subrange(0, 0) =~= Seq::<(String, TejxType)>::empty());
                assert(locals@.map_values(|s: String| s@) =~= base);
                while i < aps.len()
                    invariant
                        i <= aps@.len(),
                        self.wf(),
                        self.scope_maps() == before.scope_maps(),
                        locals@.map_values(|s: String| s@) == with_names(base, param_locals(before.scope_maps(), aps@.subrange(0, i as int))),
                    decreases aps@.len() - i,
                {
                    let mangled = self.resolve_variable(aps[i].0.as_str());
                    let ghost prev = locals@.map_values(|s: String| s@);
                    let ghost m = mangled@;
                    let ghost pl = param_locals(before.scope_maps(), aps@.subrange(0, i as int));
                    proof {
                        assert(aps@.subrange(0, i as int + 1).drop_last() =~= aps@.subrange(0, i as int));
                        assert(aps@.subrange(0, i as int + 1).last() == aps@[i as int]);
                        assert(param_locals(before.scope_maps(), aps@.subrange(0, i as int + 1))
                            == (if m.len() == 0 { pl } else { pl.push(m) }));
                        if m.len() > 0 {
                            assert(pl.push(m).drop_last() =~= pl);
                            assert(with_names(base, pl.push(m)) == with_name(with_names(base, pl), m));
                        }
                    }
                    if mangled.as_str().unicode_len() > 0 {
                        let present = contains_text(&locals, mangled.as_str());
                        proof {
                            if present {
                                let k = choose|k: int| 0 <= k < locals@.len() && #[trigger] locals@[k]@ == mangled@;
                                assert(prev[k] == mangled@);
                            } else {
                                assert forall|k: int| 0 <= k < prev.len() implies prev[k] != mangled@ by {
                                    assert(prev[k] == locals@[k]@);
                                }
                            }
                        }
                        if !present {
                            locals.push(mangled);
                            proof {
                                assert(locals@.map_values(|s: String| s@) =~= prev.push(mangled@));
                            }
                        }
                    }
                    i = i + 1;
                }
                proof {
                    assert(aps@.subrange(0, aps@.len() as int) =~= aps@);
                }
            },
            None => {
                assert(locals@.map_values(|s: String| s@) =~= base);
            },
        }
        let ghost mid = locals@.map_values(|s: String| s@);
        assert(mid == with_names(base, ps));
        let vars = &self.current_function.variables;
        let mut names: Vec<String> = Vec::new();
        let mut j: usize = 0;
        while j < vars.len()
            invariant
                j <= vars@.len(),
                names@.len() == j,
                forall|k: int| 0 <= k < j ==> #[trigger] names@[k]@ == vars@[k].0@,
            decreases vars@.len() - j,
        {
            names.push(vars[j].0.clone());
            j = j + 1;
        }
        proof {
            assert(distinct_type_names(vars@));
        }
        let sorted = sort_names(names);
        let ghost keys = sorted@.map_values(|s: String| s@);
        proof {
            let m = before.function().var_types();
            assert forall|x: Seq<char>| m.contains_key(x) <==> keys.contains(x) by {
                if m.contains_key(x) {
                    if !(exists|k: int| 0 <= k < vars@.len() && vars@[k].0@ == x) {
                        lemma_type_map_lacks(vars@, x);
                    }
                    let k = choose|k: int| 0 <= k < vars@.len() && vars@[k].0@ == x;
                    assert(names@[k]@ == x);
                    assert(holds_text(names@, x));
                    let w = choose|w: int| 0 <= w < sorted@.len() && #[trigger] sorted@[w]@ == x;
                    assert(keys[w] == x);
                }
                if keys.contains(x) {
                    let w = choose|w: int| 0 <= w < keys.len() && keys[w] == x;
                    assert(sorted@[w]@ == x);
                    assert(holds_text(sorted@, x));
                    let k = choose|k: int| 0 <= k < names@.len() && #[trigger] names@[k]@ == x;
                    lemma_type_map_has(vars@, k);
                }
            }
            assert(sorted_keys(keys, m));
        }
        let mut k: usize = 0;
        assert(keys.subrange(0, 0) =~= Seq::<Seq<char>>::empty());
        while k < sorted.len()
            invariant
                k <= sorted@.len(),
                keys == sorted@.map_values(|s: String| s@),
                locals@.map_values(|s: String| s@) == with_names(mid, carried(keys.subrange(0, k as int))),
            decreases sorted@.len() - k,
        {
            let name = sorted[k].as_str();
            let ghost prev = locals@.map_values(|s: String| s@);
            let ghost cr = carried(keys.subrange(0, k as int));
            proof {
                assert(keys.subrange(0, k as int + 1).drop_last() =~= keys.subrange(0, k as int));
                assert(keys.subrange(0, k as int + 1).last() == name@);
                assert(carried(keys.subrange(0, k as int + 1))
                    == (if machine_internal(name@) { cr } else { cr.push(name@) }));
                if !machine_internal(name@) {
                    assert(cr.push(name@).drop_last() =~= cr);
                    assert(with_names(mid, cr.push(name@)) == with_name(with_names(mid, cr), name@));
                }
            }
            if !is_machine_internal(name) {
                let present = contains_text(&locals, name);
                proof {
                    if present {
                        let w = choose|w: int| 0 <= w < locals@.len() && #[trigger] locals@[w]@ == name@;
                        assert(prev[w] == name@);
                    } else {
                        assert forall|w: int| 0 <= w < prev.len() implies prev[w] != name@ by {
                            assert(prev[w] == locals@[w]@);
                        }
                    }
                }
                if !present {
                    locals.push(owned(name));
                    proof {
                        assert(locals@.map_values(|s: String| s@) =~= prev.push(name@));
                    }
                }
            }
            k = k + 1;
        }
        proof {
            assert(keys.subrange(0, keys.len() as int) =~= keys);
        }
        self.async_locals = locals;
    }
}

/// A name resolves to the unique name that its latest declaration gave it.
pub proof fn law_resolve_after_declare(
    before: MIRLowering,
    after: MIRLowering,
    name: Seq<char>,
    unique: Seq<char>,
)
    requires
        after.declared(before, name, unique),
        before.scope_maps().len() > 0,
    ensures
        resolve_in(after.scope_maps(), name) == unique,
{
}

/// Declaring `name` with `k` scopes open, `n` declarations numbered before: a plain
/// name gets `name` in the outermost scope and `name_n` inside, and the count goes up
/// by one; a global (`g_` in front) or unique (holding `$`) name is kept and the count
/// stays; either way the name then resolves to what it got.
pub proof fn law_declare_variable(before: MIRLowering, after: MIRLowering, name: Seq<char>, unique: Seq<char>)
    requires
        after.declared(before, name, unique),
        before.scope_maps().len() >= 1,
    ensures
        !kept_as_is(name) ==> {
            &&& unique == (if before.scope_maps().len() == 1 {
                name
            } else {
                name + seq!['_'] + decimal(before.vars_made())
            })
            &&& after.vars_made() == before.vars_made() + 1
        },
        kept_as_is(name) ==> unique == name && after.vars_made() == before.vars_made(),
        resolve_in(after.scope_maps(), name) == unique,
{
}

/// A declaration inside a scope hides outer ones while the scope is open, and
/// counts no more once it is closed: every name then resolves as before the
/// scope was opened.
pub proof fn law_scope_closes(
    before: MIRLowering,
    opened: MIRLowering,
    inner: MIRLowering,
    closed: MIRLowering,
    name: Seq<char>,
    unique: Seq<char>,
    other: Seq<char>,
)
    requires
        opened.scope_maps() == before.scope_maps().push(Map::empty()),
        inner.declared(opened, name, unique),
        closed.scope_maps() == inner.scope_maps().drop_last(),
    ensures
        resolve_in(inner.scope_maps(), name) == unique,
        resolve_in(closed.scope_maps(), other) == resolve_in(before.scope_maps(), other),
{
    assert(closed.scope_maps() =~= before.scope_maps());
}

/// Temporaries, async temporaries, and blocks made with one prefix, are named
/// apart when made at different counts.
pub proof fn law_fresh_names(a: nat, b: nat, prefix: Seq<char>)
    requires
        a != b,
    ensures
        temp_name(a) != temp_name(b),
        async_temp_name(a) != async_temp_name(b),
        block_name(prefix, a) != block_name(prefix, b),
{
    if temp_name(a) == temp_name(b) {
        assert(decimal(a) =~= temp_name(a).subrange(2, temp_name(a).len() as int));
        assert(decimal(b) =~= temp_name(b).subrange(2, temp_name(b).len() as int));
        lemma_decimal_injective(a, b);
    }
    if async_temp_name(a) == async_temp_name(b) {
        assert(decimal(a) =~= async_temp_name(a).subrange(5, async_temp_name(a).len() as int));
        assert(decimal(b) =~= async_temp_name(b).subrange(5, async_temp_name(b).len() as int));
        lemma_decimal_injective(a, b);
    }
    if block_name(prefix, a) == block_name(prefix, b) {
        let n = prefix.len() as int + 1;
        assert(decimal(a) =~= block_name(prefix, a).subrange(n, block_name(prefix, a).len() as int));
        assert(decimal(b) =~= block_name(prefix, b).subrange(n, block_name(prefix, b).len() as int));
        lemma_decimal_injective(a, b);
    }
}

} // verus!
