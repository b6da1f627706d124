use vstd::prelude::*;

use crate::table::{map_of, unique_keys, StrTable};

verus! {

/// The variable store: the interpreter's view of its environment table.
/// The embedding program mirrors every change into the process environment
/// so that spawned children inherit it.
pub struct VarStore {
    table: StrTable,
}

impl View for VarStore {
    type V = Map<Seq<char>, Seq<char>>;

    closed spec fn view(&self) -> Map<Seq<char>, Seq<char>> {
        self.table@
    }
}

impl VarStore {
    pub fn new() -> (t: VarStore)
        ensures
            t@ == Map::<Seq<char>, Seq<char>>::empty(),
    {
        VarStore { table: StrTable::new() }
    }

    /// The value of a variable, if it is set.
    pub fn get(&self, name: &str) -> (r: Option<String>)
        ensures
            match r {
                Some(v) => self@.contains_key(name@) && v@ == self@[name@],
                None => !self@.contains_key(name@),
            },
    {
        self.table.get(name)
    }

    /// Set a variable, overwriting any previous value.
    pub fn set(&mut self, name: &str, value: &str)
        ensures
            final(self)@ == old(self)@.insert(name@, value@),
    {
        self.table.set(name, value);
    }

    /// Remove a variable; removing an unset variable is a no-op.
    pub fn delete(&mut self, name: &str)
        ensures
            final(self)@ == old(self)@.remove(name@),
    {
        self.table.delete(name);
    }

    /// Every variable with its value, each exactly once, in no promised order.
    pub fn list(&self) -> (r: Vec<(String, String)>)
        ensures
            unique_keys(r.deep_view()),
            map_of(r.deep_view()) == self@,
    {
        self.table.list()
    }
}

} // verus!
