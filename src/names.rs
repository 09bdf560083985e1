//! A map from names to values that keeps its entries in the order in which
//! their names first arrived, each name at most once.

use vstd::prelude::*;

verus! {

/// The map that a list of entries stands for: a later entry for a name wins.
pub open spec fn entries_map<V>(entries: Seq<(String, V)>) -> Map<Seq<char>, V>
    decreases entries.len(),
{
    if entries.len() == 0 {
        Map::empty()
    } else {
        entries_map(entries.drop_last()).insert(entries.last().0@, entries.last().1)
    }
}

/// Whether no name occurs twice among `entries`.
pub open spec fn names_unique<V>(entries: Seq<(String, V)>) -> bool {
    forall|i: int, j: int|
        0 <= i < entries.len() && 0 <= j < entries.len() && i != j ==> #[trigger] entries[i].0@
            != #[trigger] entries[j].0@
}

/// The names of `entries`, in order.
pub open spec fn entry_names<V>(entries: Seq<(String, V)>) -> Seq<Seq<char>> {
    entries.map_values(|e: (String, V)| e.0@)
}

proof fn lemma_entries_map<V>(entries: Seq<(String, V)>)
    requires
        names_unique(entries),
    ensures
        forall|k: Seq<char>|
            #[trigger] entries_map(entries).dom().contains(k) <==> exists|i: int|
                0 <= i < entries.len() && entries[i].0@ == k,
        forall|i: int|
            0 <= i < entries.len() ==> #[trigger] entries_map(entries)[entries[i].0@]
                == entries[i].1,
    decreases entries.len(),
{
    if entries.len() > 0 {
        let rest = entries.drop_last();
        lemma_entries_map(rest);
        assert(entries_map(entries) == entries_map(rest).insert(entries.last().0@, entries.last().1));
        assert forall|k: Seq<char>|
            #[trigger] entries_map(entries).dom().contains(k) <==> exists|i: int|
                0 <= i < entries.len() && entries[i].0@ == k by {
            if entries_map(entries).dom().contains(k) && k != entries.last().0@ {
                assert(entries_map(rest).dom().contains(k));
                let i = choose|i: int| 0 <= i < rest.len() && rest[i].0@ == k;
                assert(entries[i].0@ == k);
            }
            if exists|i: int| 0 <= i < entries.len() && entries[i].0@ == k {
                let i = choose|i: int| 0 <= i < entries.len() && entries[i].0@ == k;
                if i < entries.len() - 1 {
                    assert(rest[i].0@ == k);
                    assert(entries_map(rest).dom().contains(k));
                }
            }
        }
        assert forall|i: int| 0 <= i < entries.len() implies #[trigger] entries_map(entries)[entries[i].0@]
            == entries[i].1 by {
            if i < entries.len() - 1 {
                assert(rest[i] == entries[i]);
                assert(entries[i].0@ != entries[entries.len() - 1].0@);
                assert(entries_map(rest)[rest[i].0@] == rest[i].1);
            }
        }
    }
}

proof fn lemma_entry_names<V>(entries: Seq<(String, V)>)
    requires
        names_unique(entries),
    ensures
        entry_names(entries).len() == entries_map(entries).dom().len(),
        entry_names(entries).no_duplicates(),
        forall|k: Seq<char>|
            #[trigger] entries_map(entries).dom().contains(k) <==> entry_names(entries).contains(k),
        entries_map(entries).dom().finite(),
{
    lemma_entries_map(entries);
    let names = entry_names(entries);
    assert forall|k: Seq<char>| #[trigger] entries_map(entries).dom().contains(k) <==> names.contains(k) by {
        if entries_map(entries).dom().contains(k) {
            let i = choose|i: int| 0 <= i < entries.len() && entries[i].0@ == k;
            assert(names[i] == k);
        }
        if names.contains(k) {
            let i = choose|i: int| 0 <= i < names.len() && names[i] == k;
            assert(entries[i].0@ == k);
        }
    }
    assert(names.no_duplicates()) by {
        assert forall|i: int, j: int| 0 <= i < names.len() && 0 <= j < names.len() && i != j
            implies names[i] != names[j] by {
            assert(entries[i].0@ != entries[j].0@);
        }
    }
    assert(entries_map(entries).dom() =~= names.to_set());
    names.unique_seq_to_set();
}

/// Names with values, each name at most once, in the order of their first insertion.
#[derive(Debug, PartialEq, Eq)]
pub struct NameMap<V> {
    entries: Vec<(String, V)>,
}

impl<V> View for NameMap<V> {
    type V = Map<Seq<char>, V>;

    closed spec fn view(&self) -> Map<Seq<char>, V> {
        entries_map(self.entries@)
    }
}

impl<V> NameMap<V> {
    #[verifier::type_invariant]
    closed spec fn inv(&self) -> bool {
        names_unique(self.entries@)
    }

    /// The names held, in the order of their first insertion.
    pub closed spec fn names(&self) -> Seq<Seq<char>> {
        entry_names(self.entries@)
    }

    /// The names are those of the map, each once: every map keeps this, and `len` says so.
    pub open spec fn names_cover(&self) -> bool {
        &&& self.names().no_duplicates()
        &&& forall|k: Seq<char>| #[trigger] self@.dom().contains(k) <==> self.names().contains(k)
    }

    /// An empty map.
    pub fn new() -> (r: Self)
        ensures
            r@ == Map::<Seq<char>, V>::empty(),
            r.names() == Seq::<Seq<char>>::empty(),
    {
        let r = NameMap { entries: Vec::new() };
        assert(r.names() =~= Seq::<Seq<char>>::empty());
        r
    }

    /// How many names are held.
    pub fn len(&self) -> (r: usize)
        ensures
            r == self.names().len(),
            r == self@.dom().len(),
            self.names_cover(),
            self@.dom().finite(),
    {
        proof {
            use_type_invariant(self);
            lemma_entry_names(self.entries@);
        }
        self.entries.len()
    }

    /// Where `name` stands among the names, if it is held.
    fn position(&self, name: &str) -> (r: Option<usize>)
        ensures
            match r {
                Some(i) => i < self.entries@.len() && self.entries@[i as int].0@ == name@,
                None => forall|i: int| 0 <= i < self.entries@.len() ==> self.entries@[i].0@ != name@,
            },
    {
        let key = name.to_owned();
        let mut i: usize = 0;
        while i < self.entries.len()
            invariant
                i <= self.entries@.len(),
                key@ == name@,
                forall|j: int| 0 <= j < i ==> self.entries@[j].0@ != name@,
            decreases self.entries@.len() - i,
        {
            if self.entries[i].0 == key {
                return Some(i);
            }
            i = i + 1;
        }
        None
    }

    /// Whether `name` is held.
    pub fn contains_key(&self, name: &str) -> (r: bool)
        ensures
            r == self@.dom().contains(name@),
    {
        proof {
            use_type_invariant(self);
            lemma_entries_map(self.entries@);
        }
        self.position(name).is_some()
    }

    /// The value held for `name`.
    pub fn get(&self, name: &str) -> (r: Option<&V>)
        ensures
            match r {
                Some(v) => self@.dom().contains(name@) && *v == self@[name@],
                None => !self@.dom().contains(name@),
            },
    {
        proof {
            use_type_invariant(self);
            lemma_entries_map(self.entries@);
        }
        match self.position(name) {
            Some(i) => Some(&self.entries[i].1),
            None => None,
        }
    }

    /// The `i`-th name, in the order of first insertion.
    pub fn name_at(&self, i: usize) -> (r: &String)
        requires
            i < self.names().len(),
        ensures
            r@ == self.names()[i as int],
    {
        &self.entries[i].0
    }

    /// The value of the `i`-th name.
    pub fn value_at(&self, i: usize) -> (r: &V)
        requires
            i < self.names().len(),
        ensures
            *r == self@[self.names()[i as int]],
    {
        proof {
            use_type_invariant(self);
            lemma_entries_map(self.entries@);
        }
        &self.entries[i].1
    }

    /// Gives `name` the value `value`: a name already held keeps its place, a new one
    /// goes last.
    pub fn insert(&mut self, name: String, value: V)
        ensures
            final(self)@ == old(self)@.insert(name@, value),
            old(self)@.dom().contains(name@) ==> final(self).names() == old(self).names(),
            !old(self)@.dom().contains(name@) ==> final(self).names() == old(self).names().push(name@),
    {
        proof {
            use_type_invariant(&*self);
            lemma_entries_map(self.entries@);
        }
        let ghost old_entries = self.entries@;
        let found = self.position(name.as_str());
        let mut entries = Vec::new();
        std::mem::swap(&mut entries, &mut self.entries);
        match found {
            Some(i) => {
                entries.set(i, (name, value));
                proof {
                    let new_entries = entries@;
                    assert(names_unique(new_entries)) by {
                        assert forall|a: int, b: int|
                            0 <= a < new_entries.len() && 0 <= b < new_entries.len() && a != b
                            implies #[trigger] new_entries[a].0@ != #[trigger] new_entries[b].0@ by {
                            assert(old_entries[a].0@ != old_entries[b].0@);
                        }
                    }
                    lemma_entries_map(new_entries);
                    assert(entries_map(new_entries) =~= entries_map(old_entries).insert(name@, value)) by {
                        assert forall|k: Seq<char>| #[trigger] entries_map(new_entries).dom().contains(k)
                            <==> entries_map(old_entries).insert(name@, value).dom().contains(k) by {
                            if exists|j: int| 0 <= j < old_entries.len() && old_entries[j].0@ == k {
                                let j = choose|j: int| 0 <= j < old_entries.len() && old_entries[j].0@ == k;
                                assert(new_entries[j].0@ == k);
                            }
                            if exists|j: int| 0 <= j < new_entries.len() && new_entries[j].0@ == k {
                                let j = choose|j: int| 0 <= j < new_entries.len() && new_entries[j].0@ == k;
                                assert(old_entries[j].0@ == k);
                            }
                        }
                        assert forall|k: Seq<char>| #[trigger] entries_map(new_entries).dom().contains(k)
                            implies entries_map(new_entries)[k] == entries_map(old_entries).insert(name@, value)[k] by {
                            let j = choose|j: int| 0 <= j < new_entries.len() && new_entries[j].0@ == k;
                            assert(entries_map(new_entries)[new_entries[j].0@] == new_entries[j].1);
                            if j != i {
                                assert(entries_map(old_entries)[old_entries[j].0@] == old_entries[j].1);
                            }
                        }
                    }
                    assert(entry_names(new_entries) =~= entry_names(old_entries));
                }
            },
            None => {
                entries.push((name, value));
                proof {
                    let new_entries = entries@;
                    assert(new_entries.drop_last() =~= old_entries);
                    assert(names_unique(new_entries)) by {
                        assert forall|a: int, b: int|
                            0 <= a < new_entries.len() && 0 <= b < new_entries.len() && a != b
                            implies #[trigger] new_entries[a].0@ != #[trigger] new_entries[b].0@ by {
                            if a < old_entries.len() && b < old_entries.len() {
                                assert(old_entries[a].0@ != old_entries[b].0@);
                            }
                        }
                    }
                    assert(entry_names(new_entries) =~= entry_names(old_entries).push(name@));
                }
            },
        }
        self.entries = entries;
    }

    /// Takes `name` out, if it is held; the other names keep their order.
    pub fn remove(&mut self, name: &str)
        ensures
            final(self)@ == old(self)@.remove(name@),
    {
        proof {
            use_type_invariant(&*self);
            lemma_entries_map(self.entries@);
        }
        let ghost old_entries = self.entries@;
        if let Some(i) = self.position(name) {
            let mut entries = Vec::new();
            std::mem::swap(&mut entries, &mut self.entries);
            entries.remove(i);
            proof {
                let new_entries = entries@;
                assert(new_entries =~= old_entries.remove(i as int));
                assert(names_unique(new_entries)) by {
                    assert forall|a: int, b: int|
                        0 <= a < new_entries.len() && 0 <= b < new_entries.len() && a != b
                        implies #[trigger] new_entries[a].0@ != #[trigger] new_entries[b].0@ by {
                        let oa = if a < i { a } else { a + 1 };
                        let ob = if b < i { b } else { b + 1 };
                        assert(new_entries[a] == old_entries[oa]);
                        assert(new_entries[b] == old_entries[ob]);
                        assert(old_entries[oa].0@ != old_entries[ob].0@);
                    }
                }
                lemma_entries_map(new_entries);
                let target = entries_map(old_entries).remove(name@);
                assert forall|k: Seq<char>| #[trigger] entries_map(new_entries).dom().contains(k)
                    <==> target.dom().contains(k) by {
                    if exists|j: int| 0 <= j < new_entries.len() && new_entries[j].0@ == k {
                        let j = choose|j: int| 0 <= j < new_entries.len() && new_entries[j].0@ == k;
                        let oj = if j < i { j } else { j + 1 };
                        assert(old_entries[oj].0@ == k);
                        assert(old_entries[oj].0@ != old_entries[i as int].0@);
                    }
                    if target.dom().contains(k) {
                        let j = choose|j: int| 0 <= j < old_entries.len() && old_entries[j].0@ == k;
                        assert(j != i);
                        let nj = if j < i { j } else { j - 1 };
                        assert(new_entries[nj].0@ == k);
                    }
                }
                assert forall|k: Seq<char>| #[trigger] entries_map(new_entries).dom().contains(k)
                    implies entries_map(new_entries)[k] == target[k] by {
                    let j = choose|j: int| 0 <= j < new_entries.len() && new_entries[j].0@ == k;
                    let oj = if j < i { j } else { j + 1 };
                    assert(entries_map(new_entries)[new_entries[j].0@] == new_entries[j].1);
                    assert(entries_map(old_entries)[old_entries[oj].0@] == old_entries[oj].1);
                }
                assert(entries_map(new_entries) =~= target);
            }
            self.entries = entries;
        } else {
            proof {
                assert(entries_map(old_entries) =~= entries_map(old_entries).remove(name@));
            }
        }
    }
}

} // verus!
