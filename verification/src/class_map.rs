//! Map from class names to positions in the list of classes.
use vstd::prelude::*;

verus! {

/// A finite map from names to positions, where inserting a name that is
/// already present replaces its position.
pub struct ClassMap {
    entries: Vec<(String, usize)>,
}

/// The map that results from inserting every name of `names` in order,
/// each with its position.
pub open spec fn names_map(names: Seq<Seq<char>>) -> Map<Seq<char>, usize>
    decreases names.len(),
{
    if names.len() == 0 {
        Map::empty()
    } else {
        names_map(names.drop_last()).insert(names.last(), (names.len() - 1) as usize)
    }
}

spec fn entries_map(es: Seq<(String, usize)>) -> Map<Seq<char>, usize>
    decreases es.len(),
{
    if es.len() == 0 {
        Map::empty()
    } else {
        entries_map(es.drop_last()).insert(es.last().0@, es.last().1)
    }
}

proof fn lemma_entries_map(es: Seq<(String, usize)>)
    requires
        forall|i: int, j: int|
            0 <= i < es.len() && 0 <= j < es.len() && i != j ==> #[trigger] es[i].0@
                != #[trigger] es[j].0@,
    ensures
        forall|k: Seq<char>|
            entries_map(es).contains_key(k) <==> exists|i: int|
                0 <= i < es.len() && #[trigger] es[i].0@ == k,
        forall|i: int|
            0 <= i < es.len() ==> entries_map(es).contains_key(#[trigger] es[i].0@)
                && entries_map(es)[es[i].0@] == es[i].1,
    decreases es.len(),
{
    if es.len() > 0 {
        let p = es.drop_last();
        lemma_entries_map(p);
        assert forall|k: Seq<char>|
            entries_map(es).contains_key(k) <==> exists|i: int|
                0 <= i < es.len() && #[trigger] es[i].0@ == k by {
            if entries_map(p).contains_key(k) {
                let i: int = choose|i: int| 0 <= i < p.len() && #[trigger] p[i].0@ == k;
                assert(es[i].0@ == k);
            }
            if exists|i: int| 0 <= i < es.len() && #[trigger] es[i].0@ == k {
                let i: int = choose|i: int| 0 <= i < es.len() && #[trigger] es[i].0@ == k;
                if i < p.len() {
                    assert(p[i].0@ == k);
                }
            }
        }
        assert forall|i: int| 0 <= i < es.len() implies entries_map(es).contains_key(
            #[trigger] es[i].0@,
        ) && entries_map(es)[es[i].0@] == es[i].1 by {
            if i < p.len() {
                assert(p[i].0@ == es[i].0@);
                assert(es[i].0@ != es.last().0@);
            }
        }
    }
}

impl View for ClassMap {
    type V = Map<Seq<char>, usize>;

    /// The mathematical map.
    closed spec fn view(&self) -> Map<Seq<char>, usize> {
        entries_map(self.entries@)
    }
}

impl ClassMap {

    /// No name occurs twice in the stored entries.
    pub closed spec fn wf(&self) -> bool {
        forall|i: int, j: int|
            0 <= i < self.entries@.len() && 0 <= j < self.entries@.len() && i != j
                ==> #[trigger] self.entries@[i].0@ != #[trigger] self.entries@[j].0@
    }

    /// The empty map.
    pub fn new() -> (res: Self)
        ensures
            res.wf(),
            res@ == Map::<Seq<char>, usize>::empty(),
    {
        ClassMap { entries: Vec::new() }
    }

    fn find(&self, key: &String) -> (res: Option<usize>)
        requires
            self.wf(),
        ensures
            match res {
                Some(i) => i < self.entries@.len() && self.entries@[i as int].0@ == key@,
                None => !self@.contains_key(key@),
            },
    {
        proof {
            lemma_entries_map(self.entries@);
        }
        let mut i: usize = 0;
        while i < self.entries.len()
            invariant
                i <= self.entries.len(),
                forall|j: int| 0 <= j < i ==> self.entries@[j].0@ != key@,
            decreases self.entries.len() - i,
        {
            if self.entries[i].0 == *key {
                return Some(i);
            }
            i = i + 1;
        }
        None
    }

    /// Whether `key` is mapped.
    pub fn contains_key(&self, key: &String) -> (res: bool)
        requires
            self.wf(),
        ensures
            res == self@.contains_key(key@),
    {
        proof {
            lemma_entries_map(self.entries@);
        }
        self.find(key).is_some()
    }

    /// The position mapped to `key`, if any.
    pub fn get(&self, key: &String) -> (res: Option<usize>)
        requires
            self.wf(),
        ensures
            res == (if self@.contains_key(key@) {
                Some(self@[key@])
            } else {
                None
            }),
    {
        proof {
            lemma_entries_map(self.entries@);
        }
        match self.find(key) {
            Some(i) => Some(self.entries[i].1),
            None => None,
        }
    }

    /// Maps `key` to `value`, replacing the position it had.
    pub fn insert(&mut self, key: String, value: usize)
        requires
            old(self).wf(),
        ensures
            final(self).wf(),
            final(self)@ == old(self)@.insert(key@, value),
    {
        proof {
            lemma_entries_map(self.entries@);
        }
        let ghost before = self.entries@;
        match self.find(&key) {
            Some(i) => {
                self.entries.set(i, (key, value));
                proof {
                    lemma_entries_map(self.entries@);
                    assert(self@ =~= old(self)@.insert(key@, value)) by {
                        assert forall|k: Seq<char>| #[trigger]
                            self@.contains_key(k) <==> old(
                                self,
                            ).view().insert(key@, value).contains_key(k) by {
                            if exists|j: int|
                                0 <= j < before.len() && #[trigger] before[j].0@ == k {
                                let j: int = choose|j: int|
                                    0 <= j < before.len() && #[trigger] before[j].0@ == k;
                                if j != i {
                                    assert(self.entries@[j].0@ == k);
                                }
                            }
                            if exists|j: int|
                                0 <= j < self.entries@.len() && #[trigger] self.entries@[j].0@
                                    == k {
                                let j: int = choose|j: int|
                                    0 <= j < self.entries@.len() && #[trigger] self.entries@[j].0@
                                        == k;
                                if j != i {
                                    assert(before[j].0@ == k);
                                }
                            }
                        }
                        assert forall|k: Seq<char>| #[trigger]
                            self@.contains_key(k) implies self@[k] == old(
                                self,
                            ).view().insert(key@, value)[k] by {
                            let j: int = choose|j: int|
                                0 <= j < self.entries@.len() && #[trigger] self.entries@[j].0@
                                    == k;
                            if j != i {
                                assert(before[j].0@ == k);
                            }
                        }
                    }
                }
            },
            None => {
                self.entries.push((key, value));
                proof {
                    assert(self.entries@.drop_last() =~= before);
                    assert forall|a: int, b: int|
                        0 <= a < self.entries@.len() && 0 <= b < self.entries@.len() && a != b
                            implies #[trigger] self.entries@[a].0@
                            != #[trigger] self.entries@[b].0@ by {
                        if a == before.len() {
                            assert(!old(self)@.contains_key(key@));
                            assert(before[b].0@ == self.entries@[b].0@);
                        } else if b == before.len() {
                            assert(before[a].0@ == self.entries@[a].0@);
                        }
                    }
                }
            },
        }
    }

    /// The map from each name to its last position in `names`.
    pub fn from_names(names: &Vec<String>) -> (res: Self)
        ensures
            res.wf(),
            res@ == names_map(names@.map_values(|s: String| s@)),
    {
        let ghost ns = names@.map_values(|s: String| s@);
        let mut map = ClassMap::new();
        let mut i: usize = 0;
        while i < names.len()
            invariant
                i <= names.len(),
                ns == names@.map_values(|s: String| s@),
                map.wf(),
                map@ == names_map(ns.take(i as int)),
            decreases names.len() - i,
        {
            map.insert(names[i].clone(), i);
            assert(ns.take(i + 1).drop_last() =~= ns.take(i as int));
            i = i + 1;
        }
        assert(ns.take(ns.len() as int) =~= ns);
        map
    }
}

} // verus!
