//! The alias store: a mapping from alias names to command lines.
//!
//! Entries are held in a vector with pairwise-distinct keys; the abstract
//! value of a table is the finite `Map` built from its entries. Enumeration
//! order (the order of `entry_at`) is an implementation detail that callers
//! must not rely on.

use vstd::prelude::*;
use crate::tokens::str_eq;
use vstd::string::StringExecFns;

verus! {

/// A valid alias name: non-empty and free of the separating space character.
pub open spec fn alias_name_wf(name: Seq<char>) -> bool {
    &&& name.len() > 0
    &&& forall|j: int| 0 <= j < name.len() ==> #[trigger] name[j] != ' '
}

/// A valid table entry: a valid name bound to a non-empty command line.
pub open spec fn entry_wf(name: Seq<char>, command: Seq<char>) -> bool {
    &&& alias_name_wf(name)
    &&& command.len() > 0
}

/// The mapping described by a sequence of (name, command) entries; a later
/// entry with the same name overrides an earlier one.
pub open spec fn map_of(es: Seq<(Seq<char>, Seq<char>)>) -> Map<Seq<char>, Seq<char>>
    decreases es.len(),
{
    if es.len() == 0 {
        Map::empty()
    } else {
        map_of(es.drop_last()).insert(es.last().0, es.last().1)
    }
}

/// No two entries share a name.
pub open spec fn unique_keys(es: Seq<(Seq<char>, Seq<char>)>) -> bool {
    forall|i: int, j: int| 0 <= i < j < es.len() ==> (#[trigger] es[i]).0 != (#[trigger] es[j]).0
}

/// Every entry of the sequence is valid.
pub open spec fn entries_wf(es: Seq<(Seq<char>, Seq<char>)>) -> bool {
    forall|i: int| 0 <= i < es.len() ==> entry_wf((#[trigger] es[i]).0, es[i].1)
}

/// A name is in the mapping exactly when some entry carries it.
pub proof fn lemma_map_of_contains(es: Seq<(Seq<char>, Seq<char>)>, k: Seq<char>)
    ensures
        map_of(es).contains_key(k) <==> exists|i: int|
            0 <= i < es.len() && (#[trigger] es[i]).0 == k,
    decreases es.len(),
{
    if es.len() > 0 {
        lemma_map_of_contains(es.drop_last(), k);
        if es.last().0 == k {
            assert(es[es.len() - 1].0 == k);
        } else if map_of(es).contains_key(k) {
            let i = choose|i: int| 0 <= i < es.drop_last().len() && (#[trigger] es.drop_last()[i]).0 == k;
            assert(es[i].0 == k);
        } else {
            assert forall|i: int| 0 <= i < es.len() && (#[trigger] es[i]).0 == k implies false by {
                assert(es.drop_last()[i].0 == k);
            }
        }
    }
}

/// With distinct keys, the mapping sends each entry's name to its command.
pub proof fn lemma_map_of_index(es: Seq<(Seq<char>, Seq<char>)>, i: int)
    requires
        unique_keys(es),
        0 <= i < es.len(),
    ensures
        map_of(es).contains_key(es[i].0),
        map_of(es)[es[i].0] == es[i].1,
    decreases es.len(),
{
    if i == es.len() - 1 {
    } else {
        assert(unique_keys(es.drop_last())) by {
            assert forall|p: int, q: int|
                0 <= p < q < es.drop_last().len() implies (#[trigger] es.drop_last()[p]).0 != (
            #[trigger] es.drop_last()[q]).0 by {
                assert(es[p].0 != es[q].0);
            }
        }
        assert(es.drop_last()[i] == es[i]);
        lemma_map_of_index(es.drop_last(), i);
        assert(es[i].0 != es.last().0);
    }
}

/// With distinct keys, the mapping has exactly one key per entry.
pub proof fn lemma_map_of_dom_len(es: Seq<(Seq<char>, Seq<char>)>)
    requires
        unique_keys(es),
    ensures
        map_of(es).dom().finite(),
        map_of(es).dom().len() == es.len(),
    decreases es.len(),
{
    if es.len() > 0 {
        let prev = es.drop_last();
        assert(unique_keys(prev)) by {
            assert forall|p: int, q: int| 0 <= p < q < prev.len() implies (#[trigger] prev[p]).0
                != (#[trigger] prev[q]).0 by {
                assert(es[p].0 != es[q].0);
            }
        }
        lemma_map_of_dom_len(prev);
        lemma_map_of_contains(prev, es.last().0);
        assert forall|i: int| 0 <= i < prev.len() implies (#[trigger] prev[i]).0 != es.last().0 by {
            assert(es[i].0 != es[es.len() - 1].0);
        }
        assert(!map_of(prev).contains_key(es.last().0));
        assert(map_of(es).dom() =~= map_of(prev).dom().insert(es.last().0));
    }
}

/// The alias store.
pub struct AliasTable {
    entries: Vec<(String, String)>,
}

impl View for AliasTable {
    type V = Map<Seq<char>, Seq<char>>;

    open spec fn view(&self) -> Map<Seq<char>, Seq<char>> {
        map_of(self.seq_view())
    }
}

impl AliasTable {
    /// The entries as they are stored, in enumeration order.
    pub closed spec fn seq_view(&self) -> Seq<(Seq<char>, Seq<char>)> {
        Seq::new(self.entries@.len(), |i: int| (self.entries@[i].0@, self.entries@[i].1@))
    }

    /// Structural validity: distinct names, every entry valid.
    pub open spec fn wf(&self) -> bool {
        &&& unique_keys(self.seq_view())
        &&& entries_wf(self.seq_view())
    }

    /// An empty table.
    pub fn new() -> (t: AliasTable)
        ensures
            t.wf(),
            t@ == Map::<Seq<char>, Seq<char>>::empty(),
            t.seq_view() == Seq::<(Seq<char>, Seq<char>)>::empty(),
    {
        let t = AliasTable { entries: Vec::new() };
        proof {
            assert(t.seq_view() =~= Seq::<(Seq<char>, Seq<char>)>::empty());
        }
        t
    }

    /// The number of aliases in the table.
    pub fn len(&self) -> (n: usize)
        requires
            self.wf(),
        ensures
            n == self@.dom().len(),
            n == self.seq_view().len(),
    {
        proof {
            lemma_map_of_dom_len(self.seq_view());
        }
        self.entries.len()
    }

    /// The number of stored entries (no validity assumed).
    pub fn entry_count(&self) -> (n: usize)
        ensures
            n == self.seq_view().len(),
    {
        self.entries.len()
    }

    /// The entry at a given position of the enumeration order.
    pub fn entry_at<'a>(&'a self, i: usize) -> (r: (&'a String, &'a String))
        requires
            i < self.seq_view().len(),
        ensures
            r.0@ == self.seq_view()[i as int].0,
            r.1@ == self.seq_view()[i as int].1,
    {
        let e = &self.entries[i];
        (&e.0, &e.1)
    }

    fn find_index(&self, name: &str) -> (r: Option<usize>)
        ensures
            match r {
                Some(i) => i < self.seq_view().len() && self.seq_view()[i as int].0 == name@,
                None => forall|i: int|
                    0 <= i < self.seq_view().len() ==> (#[trigger] self.seq_view()[i]).0 != name@,
            },
    {
        let n = self.entries.len();
        let mut i: usize = 0;
        while i < n
            invariant
                n == self.entries.len(),
                i <= n,
                forall|j: int| 0 <= j < i ==> (#[trigger] self.seq_view()[j]).0 != name@,
            decreases n - i,
        {
            if str_eq(self.entries[i].0.as_str(), name) {
                return Some(i);
            }
            i = i + 1;
        }
        None
    }

    /// Whether the table binds the given name.
    pub fn contains(&self, name: &str) -> (r: bool)
        ensures
            r == self@.contains_key(name@),
    {
        proof {
            lemma_map_of_contains(self.seq_view(), name@);
        }
        match self.find_index(name) {
            Some(_) => true,
            None => false,
        }
    }

    /// The command line bound to a name, if any.
    pub fn get<'a>(&'a self, name: &str) -> (r: Option<&'a String>)
        requires
            self.wf(),
        ensures
            match r {
                Some(cmd) => self@.contains_key(name@) && cmd@ == self@[name@],
                None => !self@.contains_key(name@),
            },
    {
        proof {
            lemma_map_of_contains(self.seq_view(), name@);
        }
        match self.find_index(name) {
            Some(i) => {
                proof {
                    lemma_map_of_index(self.seq_view(), i as int);
                }
                let e = &self.entries[i];
                Some(&e.1)
            },
            None => None,
        }
    }

    /// Removes the binding of `name`, if present; reports whether one existed.
    pub fn remove(&mut self, name: &str) -> (r: bool)
        requires
            old(self).wf(),
        ensures
            final(self).wf(),
            r == old(self)@.contains_key(name@),
            final(self)@ == old(self)@.remove(name@),
            !old(self)@.contains_key(name@) ==> *final(self) == *old(self),
    {
        proof {
            lemma_map_of_contains(self.seq_view(), name@);
        }
        match self.find_index(name) {
            Some(i) => {
                let ghost es = self.seq_view();
                self.entries.remove(i);
                proof {
                    assert(self.seq_view() =~= es.remove(i as int));
                    lemma_unique_keys_remove(es, i as int);
                    lemma_map_of_remove(es, i as int);
                    assert forall|p: int| 0 <= p < self.seq_view().len() implies entry_wf(
                        (#[trigger] self.seq_view()[p]).0,
                        self.seq_view()[p].1,
                    ) by {
                        if p < i {
                            assert(es[p] == es.remove(i as int)[p]);
                        } else {
                            assert(es[p + 1] == es.remove(i as int)[p]);
                        }
                    }
                }
                true
            },
            None => {
                proof {
                    assert(self@.remove(name@) =~= self@);
                }
                false
            },
        }
    }

    /// Binds `name` to `command`, overriding any earlier binding.
    pub fn insert(&mut self, name: &str, command: &str)
        requires
            old(self).wf(),
            entry_wf(name@, command@),
        ensures
            final(self).wf(),
            final(self)@ == old(self)@.insert(name@, command@),
    {
        let ghost m0 = self@;
        self.remove(name);
        let ghost es = self.seq_view();
        let pair = (String::from_str(name), String::from_str(command));
        self.entries.push(pair);
        proof {
            assert(self.seq_view() =~= es.push((name@, command@)));
            assert(self.seq_view().drop_last() =~= es);
            lemma_map_of_contains(es, name@);
            assert(!map_of(es).contains_key(name@));
            assert forall|i: int, j: int| 0 <= i < j < self.seq_view().len() implies (
            #[trigger] self.seq_view()[i]).0 != (#[trigger] self.seq_view()[j]).0 by {
                if j < self.seq_view().len() - 1 {
                    assert(es[i].0 != es[j].0);
                } else {
                    assert(es[i].0 == self.seq_view()[i].0);
                    if self.seq_view()[i].0 == name@ {
                        assert(exists|p: int| 0 <= p < es.len() && (#[trigger] es[p]).0 == name@);
                    }
                }
            }
            assert forall|i: int| 0 <= i < self.seq_view().len() implies entry_wf(
                (#[trigger] self.seq_view()[i]).0,
                self.seq_view()[i].1,
            ) by {
                if i < self.seq_view().len() - 1 {
                    assert(entry_wf(es[i].0, es[i].1));
                }
            }
            assert(self@ == map_of(es).insert(name@, command@));
            assert(self@ =~= m0.insert(name@, command@));
        }
    }
}

/// Removing an entry keeps the remaining names distinct.
proof fn lemma_unique_keys_remove(es: Seq<(Seq<char>, Seq<char>)>, i: int)
    requires
        unique_keys(es),
        0 <= i < es.len(),
    ensures
        unique_keys(es.remove(i)),
{
    let es2 = es.remove(i);
    assert forall|p: int, q: int| 0 <= p < q < es2.len() implies (#[trigger] es2[p]).0 != (
    #[trigger] es2[q]).0 by {
        let p0: int = if p < i { p } else { p + 1 };
        let q0: int = if q < i { q } else { q + 1 };
        assert(es2[p] == es[p0]);
        assert(es2[q] == es[q0]);
        assert(es[p0].0 != es[q0].0);
    }
}

/// Removing an entry removes exactly its name from the mapping.
proof fn lemma_map_of_remove(es: Seq<(Seq<char>, Seq<char>)>, i: int)
    requires
        unique_keys(es),
        0 <= i < es.len(),
    ensures
        map_of(es.remove(i)) == map_of(es).remove(es[i].0),
    decreases es.len(),
{
    let es2 = es.remove(i);
    if i == es.len() - 1 {
        assert(es2 =~= es.drop_last());
        lemma_map_of_contains(es.drop_last(), es[i].0);
        assert forall|p: int| 0 <= p < es.drop_last().len() implies (
        #[trigger] es.drop_last()[p]).0 != es[i].0 by {
            assert(es[p].0 != es[es.len() - 1].0);
        }
        assert(!map_of(es.drop_last()).contains_key(es[i].0));
        assert(map_of(es2) =~= map_of(es).remove(es[i].0));
    } else {
        let prev = es.drop_last();
        assert(unique_keys(prev)) by {
            assert forall|p: int, q: int| 0 <= p < q < prev.len() implies (#[trigger] prev[p]).0
                != (#[trigger] prev[q]).0 by {
                assert(es[p].0 != es[q].0);
            }
        }
        assert(prev[i] == es[i]);
        lemma_map_of_remove(prev, i);
        assert(es2.drop_last() =~= prev.remove(i));
        assert(es2.last() == es.last());
        assert(map_of(es2) == map_of(prev.remove(i)).insert(es.last().0, es.last().1));
        assert(es[i].0 != es.last().0) by {
            assert(es[i].0 != es[es.len() - 1].0);
        }
        assert(map_of(es2) =~= map_of(es).remove(es[i].0));
    }
}

} // verus!
