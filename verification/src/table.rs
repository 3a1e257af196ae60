//! A lookup table from ids to values, at most one value per id.

use vstd::prelude::*;

verus! {

/// Values by id. Each id occurs once; ids keep the order they came in.
pub struct Table<V> {
    entries: Vec<(String, V)>,
}

/// Whether no id occurs twice.
spec fn distinct_ids<V>(entries: Seq<(String, V)>) -> bool {
    forall|i: int, j: int|
        0 <= i < j < entries.len() ==> (#[trigger] entries[i]).0@ != (#[trigger] entries[j]).0@
}

/// Whether the entry at `i` is the one for `id`.
spec fn holds_id<V>(entries: Seq<(String, V)>, id: Seq<char>, i: int) -> bool {
    0 <= i < entries.len() && entries[i].0@ == id
}

/// The values of `entries` by id.
spec fn by_id<V: View>(entries: Seq<(String, V)>) -> Map<Seq<char>, V::V> {
    Map::new(
        |id: Seq<char>| exists|i: int| holds_id(entries, id, i),
        |id: Seq<char>| entries[choose|i: int| holds_id(entries, id, i)].1@,
    )
}

/// The entry found for an id is the one that was put there.
proof fn lemma_entry<V: View>(entries: Seq<(String, V)>, i: int)
    requires
        distinct_ids(entries),
        0 <= i < entries.len(),
    ensures
        by_id(entries).contains_key(entries[i].0@),
        by_id(entries)[entries[i].0@] == entries[i].1@,
{
    let id = entries[i].0@;
    assert(holds_id(entries, id, i));
    let j = choose|j: int| holds_id(entries, id, j);
    if i < j {
        assert(entries[i].0@ != entries[j].0@);
    } else if j < i {
        assert(entries[j].0@ != entries[i].0@);
    }
}

/// There are as many ids as entries.
proof fn lemma_id_count<V: View>(entries: Seq<(String, V)>)
    requires
        distinct_ids(entries),
    ensures
        by_id(entries).dom().finite(),
        by_id(entries).dom().len() == entries.len(),
    decreases entries.len(),
{
    if entries.len() == 0 {
        assert(by_id(entries).dom() =~= Set::<Seq<char>>::empty());
    } else {
        let rest = entries.drop_last();
        let last = entries.last().0@;
        lemma_id_count(rest);
        assert forall|id: Seq<char>|
            by_id(entries).dom().contains(id) <==> by_id(rest).dom().insert(last).contains(id) by {
            if by_id(entries).dom().contains(id) {
                let i = choose|i: int| holds_id(entries, id, i);
                if i < rest.len() {
                    assert(holds_id(rest, id, i));
                }
            }
            if by_id(rest).dom().contains(id) {
                let i = choose|i: int| holds_id(rest, id, i);
                assert(holds_id(entries, id, i));
            }
            assert(holds_id(entries, last, entries.len() - 1));
        }
        assert(by_id(entries).dom() =~= by_id(rest).dom().insert(last));
        if by_id(rest).dom().contains(last) {
            let i = choose|i: int| holds_id(rest, last, i);
            assert(entries[i].0@ != entries[entries.len() - 1].0@);
        }
    }
}

impl<V: View> View for Table<V> {
    type V = Map<Seq<char>, V::V>;

    closed spec fn view(&self) -> Map<Seq<char>, V::V> {
        by_id(self.entries@)
    }
}

impl<V> Table<V> {
    #[verifier::type_invariant]
    spec fn well_formed(self) -> bool {
        distinct_ids(self.entries@)
    }
}

impl<V: View> Table<V> {
    /// A table without entries.
    pub fn new() -> (table: Table<V>)
        ensures
            table@ == Map::<Seq<char>, V::V>::empty(),
    {
        let table = Table { entries: Vec::new() };
        assert(table@ =~= Map::<Seq<char>, V::V>::empty());
        table
    }

    fn position(&self, id: &String) -> (found: Option<usize>)
        ensures
            match found {
                Some(i) => holds_id(self.entries@, id@, i as int),
                None => forall|i: int| !holds_id(self.entries@, id@, i),
            },
    {
        let mut i: usize = 0;
        while i < self.entries.len()
            invariant
                i <= self.entries.len(),
                forall|j: int| 0 <= j < i ==> !holds_id(self.entries@, id@, j),
            decreases self.entries.len() - i,
        {
            if self.entries[i].0 == *id {
                return Some(i);
            }
            i = i + 1;
        }
        None
    }

    /// The value under `id`, if there is one.
    pub fn get(&self, id: &String) -> (found: Option<&V>)
        ensures
            match found {
                Some(value) => self@.contains_key(id@) && value@ == self@[id@],
                None => !self@.contains_key(id@),
            },
    {
        proof {
            use_type_invariant(self);
        }
        match self.position(id) {
            Some(i) => {
                proof {
                    lemma_entry(self.entries@, i as int);
                }
                Some(&self.entries[i].1)
            },
            None => None,
        }
    }

    /// Whether there is a value under `id`.
    pub fn contains_key(&self, id: &String) -> (found: bool)
        ensures
            found == self@.contains_key(id@),
    {
        self.get(id).is_some()
    }

    /// How many ids there are.
    pub fn len(&self) -> (count: usize)
        ensures
            self@.dom().finite(),
            count == self@.dom().len(),
    {
        proof {
            use_type_invariant(self);
            lemma_id_count(self.entries@);
        }
        self.entries.len()
    }

    /// Copies the ids, each once.
    pub fn ids(&self) -> (ids: Vec<String>)
        ensures
            forall|i: int, j: int|
                0 <= i < j < ids.len() ==> (#[trigger] ids[i])@ != (#[trigger] ids[j])@,
            forall|i: int| 0 <= i < ids.len() ==> self@.contains_key((#[trigger] ids[i])@),
            forall|id: Seq<char>| #[trigger]
                self@.contains_key(id) ==> exists|i: int|
                    0 <= i < ids.len() && (#[trigger] ids[i])@ == id,
    {
        proof {
            use_type_invariant(self);
        }
        let mut ids: Vec<String> = Vec::new();
        let mut i: usize = 0;
        while i < self.entries.len()
            invariant
                i <= self.entries.len(),
                ids.len() == i,
                forall|j: int| 0 <= j < i ==> (#[trigger] ids[j])@ == self.entries@[j].0@,
            decreases self.entries.len() - i,
        {
            ids.push(self.entries[i].0.clone());
            i = i + 1;
        }
        proof {
            assert forall|i: int| 0 <= i < ids.len() implies self@.contains_key(
                (#[trigger] ids[i])@,
            ) by {
                lemma_entry(self.entries@, i);
            }
            assert forall|id: Seq<char>| #[trigger] self@.contains_key(id) implies exists|i: int|
                0 <= i < ids.len() && (#[trigger] ids[i])@ == id by {
                let i = choose|i: int| holds_id(self.entries@, id, i);
                assert(ids[i]@ == id);
            }
        }
        ids
    }

    /// Puts `value` under `id`, in place of any value there.
    pub fn insert(&mut self, id: String, value: V)
        ensures
            final(self)@ == old(self)@.insert(id@, value@),
    {
        proof {
            use_type_invariant(&*self);
        }
        let ghost before = self.entries@;
        let found = self.position(&id);
        let mut entries: Vec<(String, V)> = Vec::new();
        std::mem::swap(&mut entries, &mut self.entries);
        match found {
            Some(i) => {
                entries.set(i, (id, value));
            },
            None => {
                entries.push((id, value));
            },
        }
        proof {
            let at: int = match found {
                Some(i) => i as int,
                None => before.len() as int,
            };
            assert(holds_id(entries@, id@, at));
            assert forall|i: int, j: int| 0 <= i < j < entries@.len() implies (
            #[trigger] entries@[i]).0@ != (#[trigger] entries@[j]).0@ by {
                if i == at || j == at {
                    let other = if i == at {
                        j
                    } else {
                        i
                    };
                    assert(entries@[other] == before[other]);
                    if found is None {
                        assert(!holds_id(before, id@, other));
                    } else {
                        assert(before[i].0@ != before[j].0@);
                    }
                } else {
                    assert(before[i].0@ != before[j].0@);
                }
            }
            assert forall|key: Seq<char>| #[trigger]
                by_id(entries@).contains_key(key) == by_id(before).insert(
                    id@,
                    value@,
                ).contains_key(key) && (by_id(entries@).contains_key(key) ==> by_id(
                    entries@,
                )[key] == by_id(before).insert(id@, value@)[key]) by {
                if key == id@ {
                    lemma_entry(entries@, at);
                } else {
                    if by_id(before).contains_key(key) {
                        let i = choose|i: int| holds_id(before, key, i);
                        lemma_entry(before, i);
                        assert(entries@[i] == before[i]);
                        lemma_entry(entries@, i);
                    }
                    if by_id(entries@).contains_key(key) {
                        let i = choose|i: int| holds_id(entries@, key, i);
                        assert(entries@[i] == before[i]);
                        lemma_entry(before, i);
                    }
                }
            }
            assert(by_id(entries@) =~= by_id(before).insert(id@, value@));
        }
        self.entries = entries;
    }

    /// Drops the value under `id`, if there is one.
    pub fn remove(&mut self, id: &String)
        ensures
            final(self)@ == old(self)@.remove(id@),
    {
        proof {
            use_type_invariant(&*self);
        }
        let ghost before = self.entries@;
        match self.position(id) {
            Some(at) => {
                let mut entries: Vec<(String, V)> = Vec::new();
                std::mem::swap(&mut entries, &mut self.entries);
                let _ = entries.remove(at);
                proof {
                    assert(distinct_ids(entries@));
                    assert forall|key: Seq<char>| #[trigger]
                        by_id(entries@).contains_key(key) == by_id(before).remove(id@).contains_key(
                            key,
                        ) && (by_id(entries@).contains_key(key) ==> by_id(entries@)[key]
                            == by_id(before).remove(id@)[key]) by {
                        if by_id(before).contains_key(key) && key != id@ {
                            let i = choose|i: int| holds_id(before, key, i);
                            lemma_entry(before, i);
                            let k = if i < at {
                                i
                            } else {
                                i - 1
                            };
                            assert(entries@[k] == before[i]);
                            lemma_entry(entries@, k);
                        }
                        if by_id(entries@).contains_key(key) {
                            let k = choose|k: int| holds_id(entries@, key, k);
                            let i = if k < at {
                                k
                            } else {
                                k + 1
                            };
                            assert(entries@[k] == before[i]);
                            lemma_entry(before, i);
                            if i < at {
                                assert(before[i].0@ != before[at as int].0@);
                            } else {
                                assert(before[at as int].0@ != before[i].0@);
                            }
                        }
                    }
                    assert(by_id(entries@) =~= by_id(before).remove(id@));
                }
                self.entries = entries;
            },
            None => {
                assert(by_id(before) =~= by_id(before).remove(id@));
            },
        }
    }
}

} // verus!
