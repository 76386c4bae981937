use vstd::prelude::*;

use crate::text::str_equals;

verus! {

/// Types of the language.
#[derive(Debug, PartialEq)]
pub enum TejxType {
    Int16,
    Int32,
    Int64,
    Int128,
    Float16,
    Float32,
    Float64,
    Bool,
    Char,
    String,
    Void,
    Any,
    /// A class or named type, with its type arguments.
    Class(String, Vec<TejxType>),
    /// Parameter types and return type.
    Function(Vec<TejxType>, Box<TejxType>),
    DynamicArray(Box<TejxType>),
    FixedArray(Box<TejxType>, usize),
    Slice(Box<TejxType>),
    /// Properties: name, whether optional, type.
    Object(Vec<(String, bool, TejxType)>),
    Union(Vec<TejxType>),
}


impl TejxType {
    /// Whether two types are built alike: same variants, names, sizes and parts.
    pub open spec fn same_as(&self, other: &TejxType) -> bool
        decreases self,
    {
        match (self, other) {
            (TejxType::Class(n1, a1), TejxType::Class(n2, a2)) => {
                &&& n1@ == n2@
                &&& a1@.len() == a2@.len()
                &&& forall|i: int| 0 <= i < a1@.len() ==> (#[trigger] a1@[i]).same_as(&a2@[i])
            },
            (TejxType::Function(p1, r1), TejxType::Function(p2, r2)) => {
                &&& p1@.len() == p2@.len()
                &&& forall|i: int| 0 <= i < p1@.len() ==> (#[trigger] p1@[i]).same_as(&p2@[i])
                &&& r1.same_as(r2)
            },
            (TejxType::DynamicArray(e1), TejxType::DynamicArray(e2)) => e1.same_as(e2),
            (TejxType::FixedArray(e1, n1), TejxType::FixedArray(e2, n2)) => e1.same_as(e2) && n1 == n2,
            (TejxType::Slice(e1), TejxType::Slice(e2)) => e1.same_as(e2),
            (TejxType::Object(f1), TejxType::Object(f2)) => {
                &&& f1@.len() == f2@.len()
                &&& forall|i: int| 0 <= i < f1@.len() ==> {
                    &&& (#[trigger] f1@[i]).0@ == f2@[i].0@
                    &&& f1@[i].1 == f2@[i].1
                    &&& f1@[i].2.same_as(&f2@[i].2)
                }
            },
            (TejxType::Union(u1), TejxType::Union(u2)) => {
                &&& u1@.len() == u2@.len()
                &&& forall|i: int| 0 <= i < u1@.len() ==> (#[trigger] u1@[i]).same_as(&u2@[i])
            },
            _ => *self == *other,
        }
    }

    /// A copy of the type, built alike.
    pub fn duplicate(&self) -> (r: TejxType)
        ensures
            self.same_as(&r),
        decreases self,
    {
        match self {
            TejxType::Int16 => TejxType::Int16,
            TejxType::Int32 => TejxType::Int32,
            TejxType::Int64 => TejxType::Int64,
            TejxType::Int128 => TejxType::Int128,
            TejxType::Float16 => TejxType::Float16,
            TejxType::Float32 => TejxType::Float32,
            TejxType::Float64 => TejxType::Float64,
            TejxType::Bool => TejxType::Bool,
            TejxType::Char => TejxType::Char,
            TejxType::String => TejxType::String,
            TejxType::Void => TejxType::Void,
            TejxType::Any => TejxType::Any,
            TejxType::Class(name, args) => {
                let mut copies: Vec<TejxType> = Vec::new();
                let mut i: usize = 0;
                while i < args.len()
                    invariant
                        i <= args@.len(),
                        *self == TejxType::Class(*name, *args),
                        copies@.len() == i,
                        forall|j: int| 0 <= j < i ==> (#[trigger] args@[j]).same_as(&copies@[j]),
                    decreases args@.len() - i,
                {
                    proof {
                        assert(decreases_to!(*self => (*self)->Class_1));
                        assert(decreases_to!(*args => args[i as int]));
                        assert(decreases_to!(*self => args[i as int]));
                    }
                    copies.push(args[i].duplicate());
                    i = i + 1;
                }
                TejxType::Class(name.clone(), copies)
            },
            TejxType::Function(params, ret) => {
                let mut copies: Vec<TejxType> = Vec::new();
                let mut i: usize = 0;
                while i < params.len()
                    invariant
                        i <= params@.len(),
                        *self == TejxType::Function(*params, *ret),
                        copies@.len() == i,
                        forall|j: int| 0 <= j < i ==> (#[trigger] params@[j]).same_as(&copies@[j]),
                    decreases params@.len() - i,
                {
                    proof {
                        assert(decreases_to!(*self => (*self)->Function_0));
                        assert(decreases_to!(*params => params[i as int]));
                        assert(decreases_to!(*self => params[i as int]));
                    }
                    copies.push(params[i].duplicate());
                    i = i + 1;
                }
                TejxType::Function(copies, Box::new(ret.duplicate()))
            },
            TejxType::DynamicArray(elem) => TejxType::DynamicArray(Box::new(elem.duplicate())),
            TejxType::FixedArray(elem, n) => TejxType::FixedArray(Box::new(elem.duplicate()), *n),
            TejxType::Slice(elem) => TejxType::Slice(Box::new(elem.duplicate())),
            TejxType::Object(props) => {
                let mut copies: Vec<(String, bool, TejxType)> = Vec::new();
                let mut i: usize = 0;
                while i < props.len()
                    invariant
                        i <= props@.len(),
                        *self == TejxType::Object(*props),
                        copies@.len() == i,
                        forall|j: int| 0 <= j < i ==> {
                            &&& (#[trigger] props@[j]).0@ == copies@[j].0@
                            &&& props@[j].1 == copies@[j].1
                            &&& props@[j].2.same_as(&copies@[j].2)
                        },
                    decreases props@.len() - i,
                {
                    proof {
                        assert(decreases_to!(*self => (*self)->Object_0));
                        assert(decreases_to!(*props => props[i as int]));
                        assert(decreases_to!(*self => props[i as int]));
                    }
                    let p = &props[i];
                    copies.push((p.0.clone(), p.1, p.2.duplicate()));
                    i = i + 1;
                }
                TejxType::Object(copies)
            },
            TejxType::Union(members) => {
                let mut copies: Vec<TejxType> = Vec::new();
                let mut i: usize = 0;
                while i < members.len()
                    invariant
                        i <= members@.len(),
                        *self == TejxType::Union(*members),
                        copies@.len() == i,
                        forall|j: int| 0 <= j < i ==> (#[trigger] members@[j]).same_as(&copies@[j]),
                    decreases members@.len() - i,
                {
                    proof {
                        assert(decreases_to!(*self => (*self)->Union_0));
                        assert(decreases_to!(*members => members[i as int]));
                        assert(decreases_to!(*self => members[i as int]));
                    }
                    copies.push(members[i].duplicate());
                    i = i + 1;
                }
                TejxType::Union(copies)
            },
        }
    }
}

/// Types by name; a later entry for a name takes the place of an earlier one.
pub open spec fn type_map(entries: Seq<(String, TejxType)>) -> Map<Seq<char>, TejxType>
    decreases entries.len(),
{
    if entries.len() == 0 {
        Map::empty()
    } else {
        type_map(entries.drop_last()).insert(entries.last().0@, entries.last().1)
    }
}

/// No name has two entries.
pub open spec fn distinct_type_names(entries: Seq<(String, TejxType)>) -> bool {
    forall|i: int, j: int| 0 <= i < j < entries.len() ==> entries[i].0@ != entries[j].0@
}

pub proof fn lemma_type_map_has(entries: Seq<(String, TejxType)>, j: int)
    requires
        distinct_type_names(entries),
        0 <= j < entries.len(),
    ensures
        type_map(entries).contains_key(entries[j].0@),
        type_map(entries)[entries[j].0@] == entries[j].1,
    decreases entries.len(),
{
    if j < entries.len() - 1 {
        lemma_type_map_has(entries.drop_last(), j);
    }
}

pub proof fn lemma_type_map_lacks(entries: Seq<(String, TejxType)>, name: Seq<char>)
    requires
        forall|j: int| 0 <= j < entries.len() ==> entries[j].0@ != name,
    ensures
        !type_map(entries).contains_key(name),
    decreases entries.len(),
{
    if entries.len() > 0 {
        lemma_type_map_lacks(entries.drop_last(), name);
    }
}

pub proof fn lemma_type_map_update(entries: Seq<(String, TejxType)>, i: int, e: (String, TejxType))
    requires
        distinct_type_names(entries),
        0 <= i < entries.len(),
        entries[i].0@ == e.0@,
    ensures
        type_map(entries.update(i, e)) == type_map(entries).insert(e.0@, e.1),
    decreases entries.len(),
{
    let u = entries.update(i, e);
    if i == entries.len() - 1 {
        assert(u.drop_last() =~= entries.drop_last());
        assert(type_map(u) =~= type_map(entries).insert(e.0@, e.1));
    } else {
        assert(u.drop_last() =~= entries.drop_last().update(i, e));
        lemma_type_map_update(entries.drop_last(), i, e);
        assert(type_map(u) =~= type_map(entries).insert(e.0@, e.1));
    }
}

/// Index of the entry named `name`.
pub fn find_type_name(entries: &Vec<(String, TejxType)>, name: &str) -> (r: Option<usize>)
    ensures
        r matches Some(j) ==> j < entries@.len() && entries@[j as int].0@ == name@,
        r is None ==> forall|j: int| 0 <= j < entries@.len() ==> entries@[j].0@ != name@,
{
    let mut i: usize = 0;
    while i < entries.len()
        invariant
            i <= entries@.len(),
            forall|j: int| 0 <= j < i ==> entries@[j].0@ != name@,
        decreases entries@.len() - i,
    {
        if str_equals(entries[i].0.as_str(), name) {
            return Some(i);
        }
        i = i + 1;
    }
    None
}

/// Gives `name` the type `ty`, in place of an earlier entry for `name`.
pub fn put_type(entries: &mut Vec<(String, TejxType)>, name: String, ty: TejxType)
    requires
        distinct_type_names(old(entries)@),
    ensures
        distinct_type_names(final(entries)@),
        type_map(final(entries)@) == type_map(old(entries)@).insert(name@, ty),
{
    let ghost before = entries@;
    let found = find_type_name(entries, name.as_str());
    let entry = (name, ty);
    match found {
        Some(j) => {
            proof { lemma_type_map_update(entries@, j as int, entry); }
            entries.set(j, entry);
        },
        None => {
            entries.push(entry);
            proof {
                assert(entries@.drop_last() =~= before);
            }
        },
    }
}

} // verus!
