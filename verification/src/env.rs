use vstd::prelude::*;

verus! {

/// Map of the entries of `s`, later entries taking precedence.
pub open spec fn map_of(s: Seq<(String, String)>) -> Map<Seq<char>, Seq<char>>
    decreases s.len(),
{
    if s.len() == 0 {
        Map::empty()
    } else {
        map_of(s.drop_last()).insert(s.last().0@, s.last().1@)
    }
}

/// No two entries share a key.
pub open spec fn distinct_keys(s: Seq<(String, String)>) -> bool {
    forall|i: int, j: int| 0 <= i < j < s.len() ==> s[i].0@ != s[j].0@
}

/// Variables handed from a request to its script: names mapped to values, each name once.
pub struct Env {
    entries: Vec<(String, String)>,
}

proof fn lemma_map_of(s: Seq<(String, String)>)
    requires
        distinct_keys(s),
    ensures
        forall|k: Seq<char>|
            #![trigger map_of(s).contains_key(k)]
            map_of(s).contains_key(k) <==> exists|i: int| 0 <= i < s.len() && s[i].0@ == k,
        forall|i: int|
            #![trigger s[i]]
            0 <= i < s.len() ==> map_of(s).contains_key(s[i].0@) && map_of(s)[s[i].0@] == s[i].1@,
    decreases s.len(),
{
    if s.len() > 0 {
        let p = s.drop_last();
        assert(distinct_keys(p));
        lemma_map_of(p);
        assert forall|k: Seq<char>| map_of(s).contains_key(k) implies exists|i: int|
            0 <= i < s.len() && s[i].0@ == k by {
            if k != s.last().0@ {
                assert(map_of(p).contains_key(k));
                let i = choose|i: int| 0 <= i < p.len() && p[i].0@ == k;
                assert(s[i] == p[i]);
            }
        }
        assert forall|k: Seq<char>| (exists|i: int| 0 <= i < s.len() && s[i].0@ == k) implies map_of(
            s,
        ).contains_key(k) by {
            let i = choose|i: int| 0 <= i < s.len() && s[i].0@ == k;
            if i < s.len() - 1 {
                assert(p[i] == s[i]);
            }
        }
        assert forall|i: int| 0 <= i < s.len() implies map_of(s).contains_key(s[i].0@) && map_of(
            s,
        )[s[i].0@] == s[i].1@ by {
            if i < s.len() - 1 {
                assert(p[i] == s[i]);
                assert(s[i].0@ != s[s.len() - 1].0@);
            }
        }
    }
}

proof fn lemma_map_of_update(s: Seq<(String, String)>, i: int, e: (String, String))
    requires
        distinct_keys(s),
        0 <= i < s.len(),
        e.0@ == s[i].0@,
    ensures
        distinct_keys(s.update(i, e)),
        map_of(s.update(i, e)) == map_of(s).insert(e.0@, e.1@),
{
    let t = s.update(i, e);
    assert(distinct_keys(t)) by {
        assert forall|a: int, b: int| 0 <= a < b < t.len() implies t[a].0@ != t[b].0@ by {
            assert(t[a].0@ == s[a].0@);
            assert(t[b].0@ == s[b].0@);
        }
    }
    lemma_map_of(s);
    lemma_map_of(t);
    assert(map_of(t) =~= map_of(s).insert(e.0@, e.1@)) by {
        assert forall|k: Seq<char>| #![auto] map_of(t).contains_key(k) <==> map_of(s).insert(
            e.0@,
            e.1@,
        ).contains_key(k) by {
            if map_of(t).contains_key(k) {
                let j = choose|j: int| 0 <= j < t.len() && t[j].0@ == k;
                assert(s[j].0@ == k);
            }
            if map_of(s).contains_key(k) {
                let j = choose|j: int| 0 <= j < s.len() && s[j].0@ == k;
                assert(t[j].0@ == k);
            }
        }
        assert forall|k: Seq<char>| #![auto] map_of(t).contains_key(k) implies map_of(t)[k]
            == map_of(s).insert(e.0@, e.1@)[k] by {
            let j = choose|j: int| 0 <= j < t.len() && t[j].0@ == k;
            assert(t[j] == if j == i { e } else { s[j] });
        }
    }
}

impl View for Env {
    type V = Map<Seq<char>, Seq<char>>;

    closed spec fn view(&self) -> Map<Seq<char>, Seq<char>> {
        map_of(self.entries@)
    }
}

impl Env {
    #[verifier::type_invariant]
    spec fn unique(&self) -> bool {
        distinct_keys(self.entries@)
    }

    /// An empty set of variables.
    pub fn new() -> (env: Self)
        ensures
            env@ == Map::<Seq<char>, Seq<char>>::empty(),
    {
        Env { entries: Vec::new() }
    }

    fn position(&self, key: &String) -> (pos: Option<usize>)
        ensures
            match pos {
                Some(i) => i < self.entries@.len() && self.entries@[i as int].0@ == key@,
                None => forall|j: int| 0 <= j < self.entries@.len() ==> self.entries@[j].0@ != key@,
            },
    {
        let mut i: usize = 0;
        while i < self.entries.len()
            invariant
                i <= self.entries@.len(),
                forall|j: int| 0 <= j < i ==> self.entries@[j].0@ != key@,
            decreases self.entries@.len() - i,
        {
            if self.entries[i].0 == *key {
                return Some(i);
            }
            i += 1;
        }
        None
    }

    /// The value of `key`, if it is set.
    pub fn get(&self, key: &str) -> (value: Option<&String>)
        ensures
            value is Some <==> self@.contains_key(key@),
            value matches Some(v) ==> v@ == self@[key@],
    {
        proof {
            use_type_invariant(self);
            lemma_map_of(self.entries@);
        }
        let k = key.to_owned();
        match self.position(&k) {
            Some(i) => Some(&self.entries[i].1),
            None => None,
        }
    }

    /// Sets `key` to `value`, replacing any earlier value.
    pub fn insert(&mut self, key: String, value: String)
        ensures
            final(self)@ == old(self)@.insert(key@, value@),
    {
        proof {
            use_type_invariant(&*self);
        }
        match self.position(&key) {
            Some(i) => {
                proof {
                    lemma_map_of_update(self.entries@, i as int, (key, value));
                }
                let mut entries: Vec<(String, String)> = Vec::new();
                std::mem::swap(&mut entries, &mut self.entries);
                entries.set(i, (key, value));
                self.entries = entries;
            },
            None => {
                let ghost old_entries = self.entries@;
                let mut entries: Vec<(String, String)> = Vec::new();
                std::mem::swap(&mut entries, &mut self.entries);
                entries.push((key, value));
                proof {
                    assert(entries@.drop_last() =~= old_entries);
                }
                self.entries = entries;
            },
        }
    }

    /// The variables, each as a name and a value.
    pub fn entries(&self) -> (entries: &Vec<(String, String)>)
        ensures
            forall|i: int|
                #![trigger entries@[i]]
                0 <= i < entries@.len() ==> self@.contains_key(entries@[i].0@) && self@[entries@[i].0@]
                    == entries@[i].1@,
            forall|k: Seq<char>|
                #![trigger self@.contains_key(k)]
                self@.contains_key(k) ==> exists|i: int|
                    0 <= i < entries@.len() && entries@[i].0@ == k,
            distinct_keys(entries@),
    {
        proof {
            use_type_invariant(self);
            lemma_map_of(self.entries@);
        }
        &self.entries
    }
}

} // verus!
