use vstd::prelude::*;

verus! {

/// The entries of a table, one `(key, value)` pair per element.
pub open spec fn map_of(es: Seq<(Seq<char>, Seq<char>)>) -> Map<Seq<char>, Seq<char>>
    decreases es.len(),
{
    if es.len() == 0 {
        Map::empty()
    } else {
        map_of(es.drop_last()).insert(es.last().0, es.last().1)
    }
}

/// No two entries share a key.
pub open spec fn unique_keys(es: Seq<(Seq<char>, Seq<char>)>) -> bool {
    forall|i: int, j: int| 0 <= i < j < es.len() ==> (#[trigger] es[i]).0 != (#[trigger] es[j]).0
}

/// A mutable mapping from string keys to string values, held as an
/// association list with unique keys. Both the alias table and the
/// variable store are built on it.
pub struct StrTable {
    entries: Vec<(String, String)>,
}

impl View for StrTable {
    type V = Map<Seq<char>, Seq<char>>;

    closed spec fn view(&self) -> Map<Seq<char>, Seq<char>> {
        map_of(self.entries.deep_view())
    }
}

pub proof fn lemma_map_of_domain(es: Seq<(Seq<char>, Seq<char>)>)
    ensures
        forall|k: Seq<char>|
            #[trigger] map_of(es).contains_key(k) <==> exists|i: int|
                0 <= i < es.len() && (#[trigger] es[i]).0 == k,
    decreases es.len(),
{
    if es.len() == 0 {
    } else {
        lemma_map_of_domain(es.drop_last());
        assert forall|k: Seq<char>| #[trigger] map_of(es).contains_key(k) implies exists|i: int|
            0 <= i < es.len() && (#[trigger] es[i]).0 == k by {
            if k == es.last().0 {
                assert(es[es.len() - 1].0 == k);
            } else {
                assert(map_of(es.drop_last()).contains_key(k));
                let i = choose|i: int| 0 <= i < es.drop_last().len() && (#[trigger] es.drop_last()[i]).0 == k;
                assert(es[i].0 == k);
            }
        }
        assert forall|k: Seq<char>| (exists|i: int| 0 <= i < es.len() && (#[trigger] es[i]).0 == k)
            implies #[trigger] map_of(es).contains_key(k) by {
            let i = choose|i: int| 0 <= i < es.len() && (#[trigger] es[i]).0 == k;
            assert(map_of(es) == map_of(es.drop_last()).insert(es.last().0, es.last().1));
            if i < es.len() - 1 {
                assert(es.drop_last()[i].0 == k);
                assert(map_of(es.drop_last()).contains_key(k));
            } else {
                assert(es.last().0 == k);
            }
        }
    }
}

pub proof fn lemma_map_of_value(es: Seq<(Seq<char>, Seq<char>)>, i: int)
    requires
        unique_keys(es),
        0 <= i < es.len(),
    ensures
        map_of(es).contains_key(es[i].0),
        map_of(es)[es[i].0] == es[i].1,
    decreases es.len(),
{
    if i == es.len() - 1 {
    } else {
        assert(es[i].0 != es[es.len() - 1].0);
        assert(es.drop_last()[i] == es[i]);
        lemma_map_of_value(es.drop_last(), i);
    }
}

impl StrTable {
    #[verifier::type_invariant]
    spec fn wf(self) -> bool {
        unique_keys(self.entries.deep_view())
    }

    pub fn new() -> (t: StrTable)
        ensures
            t@ == Map::<Seq<char>, Seq<char>>::empty(),
    {
        let t = StrTable { entries: Vec::new() };
        proof {
            assert(t.entries.deep_view() =~= Seq::<(Seq<char>, Seq<char>)>::empty());
        }
        t
    }

    fn lookup(entries: &Vec<(String, String)>, name: &str) -> (r: Option<usize>)
        ensures
            match r {
                Some(i) => i < entries.len() && entries.deep_view()[i as int].0 == name@,
                None => forall|j: int|
                    0 <= j < entries.len() ==> (#[trigger] entries.deep_view()[j]).0 != name@,
            },
    {
        let key: String = name.to_owned();
        let mut i: usize = 0;
        while i < entries.len()
            invariant
                i <= entries.len(),
                key@ == name@,
                forall|j: int| 0 <= j < i ==> (#[trigger] entries.deep_view()[j]).0 != name@,
            decreases entries.len() - i,
        {
            if entries[i].0 == key {
                return Some(i);
            }
            i += 1;
        }
        None
    }

    pub fn get(&self, name: &str) -> (r: Option<String>)
        ensures
            match r {
                Some(v) => self@.contains_key(name@) && v@ == self@[name@],
                None => !self@.contains_key(name@),
            },
    {
        proof {
            use_type_invariant(&*self);
        }
        match Self::lookup(&self.entries, name) {
            Some(i) => {
                proof {
                    lemma_map_of_value(self.entries.deep_view(), i as int);
                }
                Some(self.entries[i].1.clone())
            },
            None => {
                proof {
                    lemma_map_of_domain(self.entries.deep_view());
                }
                None
            },
        }
    }

    pub fn delete(&mut self, name: &str)
        ensures
            final(self)@ == old(self)@.remove(name@),
    {
        proof {
            use_type_invariant(&*self);
        }
        let mut entries: Vec<(String, String)> = Vec::new();
        core::mem::swap(&mut entries, &mut self.entries);
        let ghost es = entries.deep_view();
        match Self::lookup(&entries, name) {
            Some(i) => {
                entries.remove(i);
                proof {
                    Self::lemma_remove_entry(es, i as int);
                    assert(entries.deep_view() =~= es.remove(i as int));
                }
            },
            None => {
                proof {
                    lemma_map_of_domain(es);
                    assert(map_of(es).remove(name@) =~= map_of(es));
                }
            },
        }
        self.entries = entries;
    }

    proof fn lemma_remove_entry(es: Seq<(Seq<char>, Seq<char>)>, i: int)
        requires
            unique_keys(es),
            0 <= i < es.len(),
        ensures
            unique_keys(es.remove(i)),
            map_of(es.remove(i)) == map_of(es).remove(es[i].0),
    {
        let er = es.remove(i);
        es.remove_ensures(i);
        assert forall|p: int, q: int| 0 <= p < q < er.len() implies (#[trigger] er[p]).0 != (
        #[trigger] er[q]).0 by {
            let p0 = if p < i { p } else { p + 1 };
            let q0 = if q < i { q } else { q + 1 };
            assert(er[p] == es[p0] && er[q] == es[q0]);
        }
        lemma_map_of_domain(es);
        lemma_map_of_domain(er);
        assert forall|k: Seq<char>| #[trigger] map_of(er).contains_key(k) implies map_of(
            es,
        ).remove(es[i].0).contains_key(k) by {
            let p = choose|p: int| 0 <= p < er.len() && (#[trigger] er[p]).0 == k;
            let p0 = if p < i { p } else { p + 1 };
            assert(es[p0].0 == k);
            assert(k != es[i].0);
        }
        assert forall|k: Seq<char>| #[trigger] map_of(es).remove(es[i].0).contains_key(k)
            implies map_of(er).contains_key(k) by {
            let p0 = choose|p0: int| 0 <= p0 < es.len() && (#[trigger] es[p0]).0 == k;
            assert(p0 != i);
            let p = if p0 < i { p0 } else { p0 - 1 };
            assert(er[p].0 == k);
        }
        assert forall|k: Seq<char>| #[trigger] map_of(er).contains_key(k) implies map_of(er)[k]
            == map_of(es).remove(es[i].0)[k] by {
            let p = choose|p: int| 0 <= p < er.len() && (#[trigger] er[p]).0 == k;
            let p0 = if p < i { p } else { p + 1 };
            lemma_map_of_value(er, p);
            lemma_map_of_value(es, p0);
        }
        assert(map_of(er) =~= map_of(es).remove(es[i].0));
    }

    pub fn set(&mut self, name: &str, value: &str)
        ensures
            final(self)@ == old(self)@.insert(name@, value@),
    {
        proof {
            use_type_invariant(&*self);
        }
        self.delete(name);
        proof {
            use_type_invariant(&*self);
        }
        let mut entries: Vec<(String, String)> = Vec::new();
        core::mem::swap(&mut entries, &mut self.entries);
        let ghost es = entries.deep_view();
        entries.push((name.to_owned(), value.to_owned()));
        proof {
            assert(entries.deep_view() =~= es.push((name@, value@)));
            assert(entries.deep_view().drop_last() =~= es);
            lemma_map_of_domain(es);
            assert(!map_of(es).contains_key(name@));
            assert(map_of(entries.deep_view()) == map_of(es).insert(name@, value@));
            assert(map_of(es).insert(name@, value@) =~= old(self)@.insert(name@, value@));
        }
        self.entries = entries;
    }

    pub fn clear(&mut self)
        ensures
            final(self)@ == Map::<Seq<char>, Seq<char>>::empty(),
    {
        proof {
            use_type_invariant(&*self);
        }
        let entries: Vec<(String, String)> = Vec::new();
        self.entries = entries;
        proof {
            assert(self.entries.deep_view() =~= Seq::<(Seq<char>, Seq<char>)>::empty());
        }
    }

    pub fn list(&self) -> (r: Vec<(String, String)>)
        ensures
            unique_keys(r.deep_view()),
            map_of(r.deep_view()) == self@,
    {
        proof {
            use_type_invariant(&*self);
        }
        let mut out: Vec<(String, String)> = Vec::new();
        let mut i: usize = 0;
        while i < self.entries.len()
            invariant
                i <= self.entries.len(),
                out@ =~= self.entries@.subrange(0, i as int),
            decreases self.entries.len() - i,
        {
            out.push((self.entries[i].0.clone(), self.entries[i].1.clone()));
            i += 1;
        }
        proof {
            assert(out@ =~= self.entries@);
            assert(out.deep_view() =~= self.entries.deep_view());
        }
        out
    }
}

} // verus!
