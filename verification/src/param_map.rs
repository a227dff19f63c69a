//! Name/value maps for query, path and header parameters.
use vstd::prelude::*;
use crate::text::{chars_of, eq_ignore_ascii_case, same_chars, same_ignoring_ascii_case};

verus! {

/// The map that a sequence of name/value pairs describes: a later pair overrides an
/// earlier one with the same name.
pub open spec fn map_of_pairs(ps: Seq<(Seq<char>, Seq<char>)>) -> Map<Seq<char>, Seq<char>>
    decreases ps.len(),
{
    if ps.len() == 0 {
        Map::empty()
    } else {
        map_of_pairs(ps.drop_last()).insert(ps.last().0, ps.last().1)
    }
}

/// The views of a sequence of string pairs.
pub open spec fn pair_views(es: Seq<(String, String)>) -> Seq<(Seq<char>, Seq<char>)> {
    es.map_values(|e: (String, String)| (e.0@, e.1@))
}

/// No two pairs share a name.
pub open spec fn names_unique(ps: Seq<(Seq<char>, Seq<char>)>) -> bool {
    forall|i: int, j: int| 0 <= i < j < ps.len() ==> ps[i].0 != ps[j].0
}

/// A pair pushed at the end is stored in the map.
pub proof fn lemma_map_of_pairs_push(ps: Seq<(Seq<char>, Seq<char>)>, k: Seq<char>, v: Seq<char>)
    ensures
        map_of_pairs(ps.push((k, v))) == map_of_pairs(ps).insert(k, v),
{
    assert(ps.push((k, v)).drop_last() =~= ps);
}

/// The names in the map are the names of the pairs.
pub proof fn lemma_map_of_pairs_domain(ps: Seq<(Seq<char>, Seq<char>)>, k: Seq<char>)
    ensures
        map_of_pairs(ps).contains_key(k) <==> exists|i: int| 0 <= i < ps.len() && ps[i].0 == k,
    decreases ps.len(),
{
    if ps.len() > 0 {
        let ps0 = ps.drop_last();
        lemma_map_of_pairs_domain(ps0, k);
        if map_of_pairs(ps).contains_key(k) {
            if ps.last().0 == k {
                assert(ps[ps.len() - 1].0 == k);
            } else {
                let i = choose|i: int| 0 <= i < ps0.len() && ps0[i].0 == k;
                assert(ps[i].0 == k);
            }
        }
        if exists|i: int| 0 <= i < ps.len() && ps[i].0 == k {
            let i = choose|i: int| 0 <= i < ps.len() && ps[i].0 == k;
            if i < ps.len() - 1 {
                assert(ps0[i].0 == k);
            }
        }
    }
}

/// With distinct names, each pair's value is the value stored under its name.
pub proof fn lemma_map_of_pairs_value(ps: Seq<(Seq<char>, Seq<char>)>, i: int)
    requires
        names_unique(ps),
        0 <= i < ps.len(),
    ensures
        map_of_pairs(ps).contains_key(ps[i].0),
        map_of_pairs(ps)[ps[i].0] == ps[i].1,
    decreases ps.len(),
{
    let ps0 = ps.drop_last();
    if i < ps.len() - 1 {
        assert(names_unique(ps0));
        lemma_map_of_pairs_value(ps0, i);
        assert(ps[i].0 != ps.last().0);
    }
}

/// With distinct names, replacing the value of a pair in place stores the new value
/// under its name and keeps the names distinct.
pub proof fn lemma_map_of_pairs_update(ps: Seq<(Seq<char>, Seq<char>)>, i: int, v: Seq<char>)
    requires
        names_unique(ps),
        0 <= i < ps.len(),
    ensures
        map_of_pairs(ps.update(i, (ps[i].0, v))) == map_of_pairs(ps).insert(ps[i].0, v),
        names_unique(ps.update(i, (ps[i].0, v))),
    decreases ps.len(),
{
    let qs = ps.update(i, (ps[i].0, v));
    let ps0 = ps.drop_last();
    if i == ps.len() - 1 {
        assert(qs.drop_last() =~= ps0);
        assert(map_of_pairs(qs) =~= map_of_pairs(ps).insert(ps[i].0, v));
    } else {
        assert(names_unique(ps0));
        lemma_map_of_pairs_update(ps0, i, v);
        assert(qs.drop_last() =~= ps0.update(i, (ps[i].0, v)));
        assert(ps[i].0 != ps.last().0);
        assert(map_of_pairs(qs) =~= map_of_pairs(ps).insert(ps[i].0, v));
    }
}

/// A map from names to values. Inserting a name that is present replaces its value.
#[derive(Debug)]
pub struct ParamMap {
    entries: Vec<(String, String)>,
}

impl ParamMap {
    #[verifier::type_invariant]
    spec fn wf(self) -> bool {
        names_unique(pair_views(self.entries@))
    }

    /// The map from names to values.
    pub closed spec fn view(&self) -> Map<Seq<char>, Seq<char>> {
        map_of_pairs(pair_views(self.entries@))
    }

    /// An empty map.
    pub fn new() -> (r: Self)
        ensures
            r.view() == Map::<Seq<char>, Seq<char>>::empty(),
    {
        let r = ParamMap { entries: Vec::new() };
        assert(pair_views(r.entries@) =~= Seq::<(Seq<char>, Seq<char>)>::empty());
        r
    }

    /// The position of the entry named `name`.
    fn position(&self, name: &Vec<char>) -> (r: Option<usize>)
        ensures
            r matches Some(i) ==> i < self.entries@.len() && self.entries@[i as int].0@ == name@,
            r is None ==> !self.view().contains_key(name@),
    {
        let mut i: usize = 0;
        while i < self.entries.len()
            invariant
                i <= self.entries@.len(),
                forall|j: int| 0 <= j < i ==> self.entries@[j].0@ != name@,
            decreases self.entries@.len() - i,
        {
            let key = chars_of(self.entries[i].0.as_str());
            if same_chars(&key, name) {
                return Some(i);
            }
            i += 1;
        }
        proof {
            let ps = pair_views(self.entries@);
            lemma_map_of_pairs_domain(ps, name@);
            if self.view().contains_key(name@) {
                let j = choose|j: int| 0 <= j < ps.len() && ps[j].0 == name@;
                assert(self.entries@[j].0@ == name@);
            }
        }
        None
    }

    /// The value stored under `name`.
    pub fn lookup(&self, name: &Vec<char>) -> (r: Option<&String>)
        ensures
            r matches Some(v) ==> self.view().contains_key(name@) && self.view()[name@] == v@,
            r is None ==> !self.view().contains_key(name@),
    {
        proof {
            use_type_invariant(self);
        }
        match self.position(name) {
            Some(i) => {
                proof {
                    lemma_map_of_pairs_value(pair_views(self.entries@), i as int);
                }
                Some(&self.entries[i].1)
            },
            None => None,
        }
    }

    /// The value stored under `name`.
    pub fn get(&self, name: &str) -> (r: Option<&String>)
        ensures
            r matches Some(v) ==> self.view().contains_key(name@) && self.view()[name@] == v@,
            r is None ==> !self.view().contains_key(name@),
    {
        let key = chars_of(name);
        self.lookup(&key)
    }

    /// Whether a value is stored under `name`.
    pub fn contains_key(&self, name: &str) -> (r: bool)
        ensures
            r == self.view().contains_key(name@),
    {
        self.get(name).is_some()
    }

    /// Stores `value` under `name`, replacing any earlier value.
    pub fn insert(&mut self, name: String, value: String)
        ensures
            final(self).view() == old(self).view().insert(name@, value@),
    {
        proof {
            use_type_invariant(&*self);
        }
        let key = chars_of(name.as_str());
        match self.position(&key) {
            Some(i) => {
                proof {
                    let ps = pair_views(self.entries@);
                    lemma_map_of_pairs_update(ps, i as int, value@);
                    assert(pair_views(self.entries@.update(i as int, (self.entries@[i as int].0, value)))
                        =~= ps.update(i as int, (ps[i as int].0, value@)));
                }
                let old_name = self.entries[i].0.clone();
                let mut es: Vec<(String, String)> = Vec::new();
                std::mem::swap(&mut es, &mut self.entries);
                es.set(i, (old_name, value));
                self.entries = es;
            },
            None => {
                proof {
                    let ps = pair_views(self.entries@);
                    lemma_map_of_pairs_push(ps, name@, value@);
                    lemma_map_of_pairs_domain(ps, name@);
                    assert(pair_views(self.entries@.push((name, value))) =~= ps.push((name@, value@)));
                    assert forall|i: int| 0 <= i < ps.len() implies ps[i].0 != name@ by {
                        if ps[i].0 == name@ {
                            assert(exists|j: int| 0 <= j < ps.len() && ps[j].0 == name@);
                        }
                    }
                }
                let mut es: Vec<(String, String)> = Vec::new();
                std::mem::swap(&mut es, &mut self.entries);
                es.push((name, value));
                self.entries = es;
            },
        }
    }

    /// A copy of this map.
    pub fn copy(&self) -> (r: Self)
        ensures
            r.view() == self.view(),
    {
        proof {
            use_type_invariant(self);
        }
        let mut entries: Vec<(String, String)> = Vec::new();
        let mut i: usize = 0;
        while i < self.entries.len()
            invariant
                i <= self.entries@.len(),
                pair_views(entries@) == pair_views(self.entries@.take(i as int)),
            decreases self.entries@.len() - i,
        {
            let k = self.entries[i].0.clone();
            let v = self.entries[i].1.clone();
            proof {
                assert(pair_views(entries@.push((k, v))) =~= pair_views(entries@).push((k@, v@)));
                assert(pair_views(self.entries@.take(i + 1)) =~= pair_views(self.entries@.take(i as int)).push((k@, v@)));
            }
            entries.push((k, v));
            i += 1;
        }
        assert(self.entries@.take(self.entries@.len() as int) =~= self.entries@);
        ParamMap { entries }
    }

    /// The stored name/value pairs, each name once, in insertion order.
    pub fn entries(&self) -> (r: &Vec<(String, String)>)
        ensures
            map_of_pairs(pair_views(r@)) == self.view(),
            names_unique(pair_views(r@)),
    {
        proof {
            use_type_invariant(self);
        }
        &self.entries
    }

    /// The value stored under a name that equals `name` up to ASCII case, if any.
    pub fn get_ignoring_ascii_case(&self, name: &str) -> (r: Option<&String>)
        ensures
            r matches Some(v) ==> exists|k: Seq<char>|
                #[trigger] self.view().contains_key(k) && eq_ignore_ascii_case(k, name@) && self.view()[k] == v@,
            r is None ==> forall|k: Seq<char>|
                #[trigger] self.view().contains_key(k) ==> !eq_ignore_ascii_case(k, name@),
    {
        proof {
            use_type_invariant(self);
        }
        let target = chars_of(name);
        let mut i: usize = 0;
        while i < self.entries.len()
            invariant
                i <= self.entries@.len(),
                names_unique(pair_views(self.entries@)),
                target@ == name@,
                forall|j: int| 0 <= j < i ==> !eq_ignore_ascii_case(#[trigger] self.entries@[j].0@, name@),
            decreases self.entries@.len() - i,
        {
            let key = chars_of(self.entries[i].0.as_str());
            if same_ignoring_ascii_case(&key, &target) {
                proof {
                    lemma_map_of_pairs_value(pair_views(self.entries@), i as int);
                    let k = self.entries@[i as int].0@;
                    assert(self.view().contains_key(k) && eq_ignore_ascii_case(k, name@));
                }
                return Some(&self.entries[i].1);
            }
            i += 1;
        }
        proof {
            let ps = pair_views(self.entries@);
            assert forall|k: Seq<char>| #[trigger] self.view().contains_key(k) implies !eq_ignore_ascii_case(k, name@) by {
                lemma_map_of_pairs_domain(ps, k);
                let j = choose|j: int| 0 <= j < ps.len() && ps[j].0 == k;
                assert(self.entries@[j].0@ == k);
            }
        }
        None
    }
}

impl Clone for ParamMap {
    /// A copy of this map.
    fn clone(&self) -> (r: Self)
        ensures
            r@ == self@,
    {
        self.copy()
    }
}

impl View for ParamMap {
    type V = Map<Seq<char>, Seq<char>>;

    open spec fn view(&self) -> Map<Seq<char>, Seq<char>> {
        ParamMap::view(self)
    }
}

} // verus!
