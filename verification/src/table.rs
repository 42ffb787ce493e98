//! A flat table from names to values, in the order in which the names were
//! first bound.

use crate::text::{same_text, text_views};
use vstd::prelude::*;

verus! {

/// The names of `entries`, in order.
pub open spec fn names_of<V>(entries: Seq<(String, V)>) -> Seq<Seq<char>> {
    entries.map_values(|e: (String, V)| e.0@)
}

/// The map that binds each name of `entries` to its value.
pub open spec fn map_of<V>(entries: Seq<(String, V)>) -> Map<Seq<char>, V>
    decreases entries.len(),
{
    if entries.len() == 0 {
        Map::empty()
    } else {
        map_of(entries.drop_last()).insert(entries.last().0@, entries.last().1)
    }
}

proof fn lemma_map_of_absent<V>(entries: Seq<(String, V)>, name: Seq<char>)
    requires
        forall|i: int| 0 <= i < entries.len() ==> (#[trigger] entries[i]).0@ != name,
    ensures
        !map_of(entries).dom().contains(name),
    decreases entries.len(),
{
    if entries.len() > 0 {
        lemma_map_of_absent(entries.drop_last(), name);
    }
}

proof fn lemma_map_of_present<V>(entries: Seq<(String, V)>, i: int)
    requires
        names_of(entries).no_duplicates(),
        0 <= i < entries.len(),
    ensures
        map_of(entries).dom().contains(entries[i].0@),
        map_of(entries)[entries[i].0@] == entries[i].1,
    decreases entries.len(),
{
    let last = entries.len() - 1;
    if i < last {
        assert(names_of(entries)[i] != names_of(entries)[last]);
        assert(names_of(entries.drop_last()) =~= names_of(entries).drop_last());
        lemma_map_of_present(entries.drop_last(), i);
    }
}

proof fn lemma_map_of_update<V>(entries: Seq<(String, V)>, i: int, entry: (String, V))
    requires
        names_of(entries).no_duplicates(),
        0 <= i < entries.len(),
        entry.0@ == entries[i].0@,
    ensures
        map_of(entries.update(i, entry)) == map_of(entries).insert(entry.0@, entry.1),
        names_of(entries.update(i, entry)) == names_of(entries),
    decreases entries.len(),
{
    let last = entries.len() - 1;
    let updated = entries.update(i, entry);
    assert(names_of(updated) =~= names_of(entries));
    if i < last {
        assert(names_of(entries)[i] != names_of(entries)[last]);
        assert(names_of(entries.drop_last()) =~= names_of(entries).drop_last());
        lemma_map_of_update(entries.drop_last(), i, entry);
        assert(updated.drop_last() =~= entries.drop_last().update(i, entry));
        assert(map_of(updated) =~= map_of(entries).insert(entry.0@, entry.1));
    } else {
        assert(updated.drop_last() =~= entries.drop_last());
        assert(map_of(updated) =~= map_of(entries).insert(entry.0@, entry.1));
    }
}

/// A table from names to values. No name stands in it twice.
pub struct Table<V> {
    entries: Vec<(String, V)>,
}

impl<V> View for Table<V> {
    type V = Map<Seq<char>, V>;

    closed spec fn view(&self) -> Map<Seq<char>, V> {
        map_of(self.entries@)
    }
}

impl<V> Table<V> {
    /// No name stands in the table twice.
    pub closed spec fn wf(&self) -> bool {
        names_of(self.entries@).no_duplicates()
    }

    /// The bound names, in the order in which they were first bound.
    pub closed spec fn names(&self) -> Seq<Seq<char>> {
        names_of(self.entries@)
    }

    /// The empty table.
    pub fn new() -> (table: Self)
        ensures
            table.wf(),
            table@ == Map::<Seq<char>, V>::empty(),
            table.names() == Seq::<Seq<char>>::empty(),
    {
        let table = Table { entries: Vec::new() };
        assert(names_of(table.entries@) =~= Seq::<Seq<char>>::empty());
        table
    }

    /// The place of `name` among the entries.
    fn position(&self, name: &str) -> (place: Option<usize>)
        ensures
            match place {
                Some(i) => i < self.entries.len() && self.entries[i as int].0@ == name@,
                None => forall|i: int|
                    0 <= i < self.entries.len() ==> (#[trigger] self.entries[i]).0@ != name@,
            },
    {
        let mut i: usize = 0;
        while i < self.entries.len()
            invariant
                i <= self.entries.len(),
                forall|j: int| 0 <= j < i ==> (#[trigger] self.entries[j]).0@ != name@,
            decreases self.entries.len() - i,
        {
            if same_text(self.entries[i].0.as_str(), name) {
                return Some(i);
            }
            i += 1;
        }
        None
    }

    /// The value bound to `name`, if there is one.
    pub fn get(&self, name: &str) -> (value: Option<&V>)
        requires
            self.wf(),
        ensures
            match value {
                Some(v) => self@.dom().contains(name@) && self@[name@] == *v,
                None => !self@.dom().contains(name@),
            },
    {
        match self.position(name) {
            Some(i) => {
                proof {
                    lemma_map_of_present(self.entries@, i as int);
                }
                Some(&self.entries[i].1)
            },
            None => {
                proof {
                    lemma_map_of_absent(self.entries@, name@);
                }
                None
            },
        }
    }

    /// Binds `name` to `value`, in place of what it was bound to before.
    pub fn insert(&mut self, name: String, value: V)
        requires
            old(self).wf(),
        ensures
            final(self).wf(),
            final(self)@ == old(self)@.insert(name@, value),
            final(self).names() == if old(self).names().contains(name@) {
                old(self).names()
            } else {
                old(self).names().push(name@)
            },
    {
        let ghost before = self.entries@;
        match self.position(name.as_str()) {
            Some(i) => {
                proof {
                    lemma_map_of_update(before, i as int, (name, value));
                    assert(names_of(before)[i as int] == name@);
                }
                self.entries.set(i, (name, value));
            },
            None => {
                proof {
                    assert(!names_of(before).contains(name@)) by {
                        if names_of(before).contains(name@) {
                            let i = choose|i: int|
                                0 <= i < before.len() && names_of(before)[i] == name@;
                            assert(before[i].0@ == name@);
                        }
                    }
                    assert(before.push((name, value)).drop_last() =~= before);
                    assert(names_of(before.push((name, value))) =~= names_of(before).push(name@));
                }
                self.entries.push((name, value));
            },
        }
    }

    /// The names are those that the table binds, each of them once.
    pub proof fn lemma_names(&self)
        requires
            self.wf(),
        ensures
            self.names().no_duplicates(),
            forall|name: Seq<char>| self.names().contains(name) <==> self@.dom().contains(name),
    {
        let entries = self.entries@;
        assert forall|name: Seq<char>| self.names().contains(name) <==> self@.dom().contains(
            name,
        ) by {
            if self.names().contains(name) {
                let i = choose|i: int| 0 <= i < entries.len() && names_of(entries)[i] == name;
                lemma_map_of_present(entries, i);
            } else {
                assert forall|i: int| 0 <= i < entries.len() implies (#[trigger] entries[i]).0@
                    != name by {
                    assert(names_of(entries)[i] == entries[i].0@);
                }
                lemma_map_of_absent(entries, name);
            }
        }
    }

    /// How many names are bound.
    pub fn len(&self) -> (count: usize)
        ensures
            count == self.names().len(),
    {
        self.entries.len()
    }

    /// The bound names, in the order in which they were first bound.
    pub fn name_list(&self) -> (list: Vec<String>)
        requires
            self.wf(),
        ensures
            text_views(list@) == self.names(),
            text_views(list@).no_duplicates(),
            forall|name: Seq<char>|
                text_views(list@).contains(name) <==> self@.dom().contains(name),
    {
        proof {
            self.lemma_names();
        }
        let mut list: Vec<String> = Vec::new();
        let mut i: usize = 0;
        while i < self.entries.len()
            invariant
                i <= self.entries.len(),
                text_views(list@) =~= self.names().subrange(0, i as int),
            decreases self.entries.len() - i,
        {
            let ghost before = text_views(list@);
            list.push(self.entries[i].0.clone());
            assert(text_views(list@) =~= before.push(self.entries[i as int].0@));
            i += 1;
        }
        assert(self.names().subrange(0, i as int) =~= self.names());
        list
    }
}

} // verus!
