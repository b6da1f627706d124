use vstd::prelude::*;

use crate::table::{map_of, unique_keys, StrTable};

verus! {

/// A mutable mapping from alias name to replacement text.
pub struct AliasTable {
    table: StrTable,
}

impl View for AliasTable {
    type V = Map<Seq<char>, Seq<char>>;

    closed spec fn view(&self) -> Map<Seq<char>, Seq<char>> {
        self.table@
    }
}

impl AliasTable {
    pub fn new() -> (t: AliasTable)
        ensures
            t@ == Map::<Seq<char>, Seq<char>>::empty(),
    {
        AliasTable { table: StrTable::new() }
    }

    /// Insert an alias, overwriting any previous expansion of the same name.
    pub fn add(&mut self, name: &str, command: &str)
        ensures
            final(self)@ == old(self)@.insert(name@, command@),
    {
        self.table.set(name, command);
    }

    /// The expansion of an alias name, if one is defined.
    pub fn get(&self, name: &str) -> (r: Option<String>)
        ensures
            match r {
                Some(v) => self@.contains_key(name@) && v@ == self@[name@],
                None => !self@.contains_key(name@),
            },
    {
        self.table.get(name)
    }

    /// Remove an alias; removing an unknown name is a no-op.
    pub fn remove(&mut self, name: &str)
        ensures
            final(self)@ == old(self)@.remove(name@),
    {
        self.table.delete(name);
    }

    /// Every alias with its expansion, each exactly once, in no promised order.
    pub fn list(&self) -> (r: Vec<(String, String)>)
        ensures
            unique_keys(r.deep_view()),
            map_of(r.deep_view()) == self@,
    {
        self.table.list()
    }

    /// Remove every alias.
    pub fn clear(&mut self)
        ensures
            final(self)@ == Map::<Seq<char>, Seq<char>>::empty(),
    {
        self.table.clear();
    }
}

} // verus!
