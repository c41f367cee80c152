//! The substitution table: a tree of named levels whose leaves are strings.
use vstd::prelude::*;

verus! {

/// A value of the substitution table: a terminal string, or a level of named entries.
///
/// The entries of a level are held in order; in a well-formed table their
/// names are pairwise distinct, so that their order does not matter.
#[derive(Debug)]
pub enum ClassMap {
    Str(String),
    Node(Vec<(String, ClassMap)>),
}

/// The table that one run of the rewrite works with.
#[derive(Debug)]
pub struct Config {
    pub classmap: ClassMap,
}

/// Entry `i` is the first of `entries` named `name`.
pub open spec fn is_first_entry(entries: Seq<(String, ClassMap)>, name: Seq<char>, i: int) -> bool {
    &&& 0 <= i < entries.len()
    &&& entries[i].0@ == name
    &&& forall|j: int| 0 <= j < i ==> entries[j].0@ != name
}

/// The value that a level holds under `name`, if it holds one.
pub open spec fn lookup(entries: Seq<(String, ClassMap)>, name: Seq<char>) -> Option<ClassMap> {
    if exists|i: int| is_first_entry(entries, name, i) {
        Some(entries[choose|i: int| is_first_entry(entries, name, i)].1)
    } else {
        None
    }
}

/// The value reached by one step along `name`: only a level can be entered.
pub open spec fn step(cm: ClassMap, name: Seq<char>) -> Option<ClassMap> {
    match cm {
        ClassMap::Node(entries) => lookup(entries@, name),
        ClassMap::Str(_) => None,
    }
}

/// The value reached from `cm` by following the names of `path` in order.
pub open spec fn walk(cm: ClassMap, path: Seq<Seq<char>>) -> Option<ClassMap>
    decreases path.len(),
{
    if path.len() == 0 {
        Some(cm)
    } else {
        match walk(cm, path.drop_last()) {
            Some(at) => step(at, path.last()),
            None => None,
        }
    }
}

/// The string that `path` leads to: the walk must end exactly on a leaf.
pub open spec fn resolve(cm: ClassMap, path: Seq<Seq<char>>) -> Option<String> {
    match walk(cm, path) {
        Some(ClassMap::Str(s)) => Some(s),
        _ => None,
    }
}

/// The names of a level are pairwise distinct, here and at every level below.
pub open spec fn well_formed(cm: ClassMap) -> bool
    decreases cm,
{
    match cm {
        ClassMap::Str(_) => true,
        ClassMap::Node(entries) => {
            &&& forall|i: int, j: int|
                0 <= i < j < entries.len() ==> entries@[i].0@ != entries@[j].0@
            &&& forall|i: int| 0 <= i < entries.len() ==> well_formed(#[trigger] entries@[i].1)
        },
    }
}

impl ClassMap {
    /// The value held under `name`, when `self` is a level holding one.
    pub fn get(&self, name: &String) -> (r: Option<&ClassMap>)
        ensures
            match r {
                Some(v) => step(*self, name@) == Some(*v),
                None => step(*self, name@) is None,
            },
            well_formed(*self) ==> (r matches Some(v) ==> well_formed(*v)),
    {
        match self {
            ClassMap::Str(_) => None,
            ClassMap::Node(entries) => {
                let mut i: usize = 0;
                while i < entries.len()
                    invariant
                        *self == ClassMap::Node(*entries),
                        0 <= i <= entries.len(),
                        forall|j: int| 0 <= j < i ==> entries@[j].0@ != name@,
                    decreases entries.len() - i,
                {
                    if entries[i].0 == *name {
                        assert(is_first_entry(entries@, name@, i as int));
                        assert forall|k: int| is_first_entry(entries@, name@, k) implies k == i by {
                            if k < i {
                            } else if k > i {
                                assert(entries@[i as int].0@ == name@);
                            }
                        }
                        assert((choose|k: int| is_first_entry(entries@, name@, k)) == i);
                        assert(lookup(entries@, name@) == Some(entries@[i as int].1));
                        return Some(&entries[i].1);
                    }
                    i = i + 1;
                }
                None
            },
        }
    }
}

impl Default for ClassMap {
    /// An empty level: nothing resolves against it.
    fn default() -> (r: ClassMap)
        ensures
            r matches ClassMap::Node(entries) && entries@.len() == 0,
            well_formed(r),
    {
        ClassMap::Node(Vec::new())
    }
}

} // verus!
