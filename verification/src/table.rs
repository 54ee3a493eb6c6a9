use vstd::prelude::*;

verus! {

/// Map of the entries of `s`, later entries taking precedence.
pub open spec fn table_map<V>(s: Seq<(String, V)>) -> Map<Seq<char>, V>
    decreases s.len(),
{
    if s.len() == 0 {
        Map::empty()
    } else {
        table_map(s.drop_last()).insert(s.last().0@, s.last().1)
    }
}

/// The entries after setting `key`: an entry with that key has its value replaced in
/// place; otherwise the entry is added at the end.
pub open spec fn insert_entry<V>(s: Seq<(String, V)>, key: String, value: V) -> Seq<(String, V)> {
    if exists|i: int| 0 <= i < s.len() && s[i].0@ == key@ {
        let i = choose|i: int| 0 <= i < s.len() && s[i].0@ == key@;
        s.update(i, (key, value))
    } else {
        s.push((key, value))
    }
}

/// No two entries share a key.
pub open spec fn unique_keys<V>(s: Seq<(String, V)>) -> bool {
    forall|i: int, j: int| 0 <= i < j < s.len() ==> s[i].0@ != s[j].0@
}

/// Values keyed by text, each key once, in the order the keys were first set.
pub struct Table<V> {
    entries: Vec<(String, V)>,
}

proof fn lemma_table_map<V>(s: Seq<(String, V)>)
    requires
        unique_keys(s),
    ensures
        forall|k: Seq<char>|
            #![trigger table_map(s).contains_key(k)]
            table_map(s).contains_key(k) <==> exists|i: int| 0 <= i < s.len() && s[i].0@ == k,
        forall|i: int|
            #![trigger s[i]]
            0 <= i < s.len() ==> table_map(s).contains_key(s[i].0@) && table_map(s)[s[i].0@] == s[i].1,
    decreases s.len(),
{
    if s.len() > 0 {
        let p = s.drop_last();
        assert(unique_keys(p));
        lemma_table_map(p);
        assert forall|k: Seq<char>| table_map(s).contains_key(k) implies exists|i: int|
            0 <= i < s.len() && s[i].0@ == k by {
            if k != s.last().0@ {
                assert(table_map(p).contains_key(k));
                let i = choose|i: int| 0 <= i < p.len() && p[i].0@ == k;
                assert(s[i] == p[i]);
            }
        }
        assert forall|k: Seq<char>| (exists|i: int| 0 <= i < s.len() && s[i].0@ == k) implies table_map(
            s,
        ).contains_key(k) by {
            let i = choose|i: int| 0 <= i < s.len() && s[i].0@ == k;
            if i < s.len() - 1 {
                assert(p[i] == s[i]);
            }
        }
        assert forall|i: int| 0 <= i < s.len() implies table_map(s).contains_key(s[i].0@) && table_map(
            s,
        )[s[i].0@] == s[i].1 by {
            if i < s.len() - 1 {
                assert(p[i] == s[i]);
                assert(s[i].0@ != s[s.len() - 1].0@);
            }
        }
    }
}

proof fn lemma_table_map_update<V>(s: Seq<(String, V)>, i: int, e: (String, V))
    requires
        unique_keys(s),
        0 <= i < s.len(),
        e.0@ == s[i].0@,
    ensures
        unique_keys(s.update(i, e)),
        table_map(s.update(i, e)) == table_map(s).insert(e.0@, e.1),
{
    let t = s.update(i, e);
    assert(unique_keys(t)) by {
        assert forall|a: int, b: int| 0 <= a < b < t.len() implies t[a].0@ != t[b].0@ by {
            assert(t[a].0@ == s[a].0@);
            assert(t[b].0@ == s[b].0@);
        }
    }
    lemma_table_map(s);
    lemma_table_map(t);
    assert(table_map(t) =~= table_map(s).insert(e.0@, e.1)) by {
        assert forall|k: Seq<char>| #![auto] table_map(t).contains_key(k) <==> table_map(s).insert(
            e.0@,
            e.1,
        ).contains_key(k) by {
            if table_map(t).contains_key(k) {
                let j = choose|j: int| 0 <= j < t.len() && t[j].0@ == k;
                assert(s[j].0@ == k);
            }
            if table_map(s).contains_key(k) {
                let j = choose|j: int| 0 <= j < s.len() && s[j].0@ == k;
                assert(t[j].0@ == k);
            }
        }
        assert forall|k: Seq<char>| #![auto] table_map(t).contains_key(k) implies table_map(t)[k]
            == table_map(s).insert(e.0@, e.1)[k] by {
            let j = choose|j: int| 0 <= j < t.len() && t[j].0@ == k;
            assert(t[j] == if j == i { e } else { s[j] });
        }
    }
}

impl<V> View for Table<V> {
    type V = Map<Seq<char>, V>;

    closed spec fn view(&self) -> Map<Seq<char>, V> {
        table_map(self.entries@)
    }
}

impl<V> Table<V> {
    #[verifier::type_invariant]
    spec fn unique(&self) -> bool {
        unique_keys(self.entries@)
    }

    /// The entries in the order their keys were first set.
    pub closed spec fn entry_seq(&self) -> Seq<(String, V)> {
        self.entries@
    }

    /// An empty table.
    pub fn new() -> (table: Self)
        ensures
            table@ == Map::<Seq<char>, V>::empty(),
            table.entry_seq() == Seq::<(String, V)>::empty(),
    {
        Table { entries: Vec::new() }
    }

    fn position(&self, key: &String) -> (pos: Option<usize>)
        ensures
            match pos {
                Some(i) => i < self.entries@.len() && self.entries@[i as int].0@ == key@,
                None => forall|j: int| 0 <= j < self.entries@.len() ==> self.entries@[j].0@ != key@,
            },
    {
        let mut i: usize = 0;
        while i < self.entries.len()
            invariant
                i <= self.entries@.len(),
                forall|j: int| 0 <= j < i ==> self.entries@[j].0@ != key@,
            decreases self.entries@.len() - i,
        {
            if self.entries[i].0 == *key {
                return Some(i);
            }
            i += 1;
        }
        None
    }

    /// The value of `key`, if it is set.
    pub fn get(&self, key: &str) -> (value: Option<&V>)
        ensures
            value is Some <==> self@.contains_key(key@),
            value matches Some(v) ==> *v == self@[key@],
    {
        proof {
            use_type_invariant(self);
            lemma_table_map(self.entries@);
        }
        let k = key.to_owned();
        match self.position(&k) {
            Some(i) => Some(&self.entries[i].1),
            None => None,
        }
    }

    /// Sets `key` to `value`, replacing any earlier value in place.
    pub fn insert(&mut self, key: String, value: V)
        ensures
            final(self)@ == old(self)@.insert(key@, value),
            final(self).entry_seq() == insert_entry(old(self).entry_seq(), key, value),
    {
        proof {
            use_type_invariant(&*self);
        }
        match self.position(&key) {
            Some(i) => {
                proof {
                    lemma_table_map_update(self.entries@, i as int, (key, value));
                }
                let mut entries: Vec<(String, V)> = Vec::new();
                std::mem::swap(&mut entries, &mut self.entries);
                entries.set(i, (key, value));
                self.entries = entries;
            },
            None => {
                let ghost old_entries = self.entries@;
                let mut entries: Vec<(String, V)> = Vec::new();
                std::mem::swap(&mut entries, &mut self.entries);
                entries.push((key, value));
                proof {
                    assert(entries@.drop_last() =~= old_entries);
                }
                self.entries = entries;
            },
        }
    }

    /// The entries, each as a key and a value, in the order the keys were first set.
    pub fn entries(&self) -> (entries: &Vec<(String, V)>)
        ensures
            entries@ == self.entry_seq(),
            forall|i: int|
                #![trigger entries@[i]]
                0 <= i < entries@.len() ==> self@.contains_key(entries@[i].0@) && self@[entries@[i].0@]
                    == entries@[i].1,
            forall|k: Seq<char>|
                #![trigger self@.contains_key(k)]
                self@.contains_key(k) ==> exists|i: int|
                    0 <= i < entries@.len() && entries@[i].0@ == k,
            unique_keys(entries@),
    {
        proof {
            use_type_invariant(self);
            lemma_table_map(self.entries@);
        }
        &self.entries
    }
}

} // verus!
