//! A map keyed by text.

use crate::text;
use vstd::prelude::*;

verus! {

broadcast use {vstd::seq::group_seq_axioms, vstd::map::group_map_axioms};

/// A map from texts to values. Every key occurs once; entries stand in the dictionary order of
/// their keys.
#[derive(Debug)]
pub struct TextMap<V> {
    entries: Vec<(String, V)>,
}

/// The map that a list of entries stands for, later entries overriding earlier ones.
pub open spec fn to_map<V>(entries: Seq<(Seq<char>, V)>) -> Map<Seq<char>, V>
    decreases entries.len(),
{
    if entries.len() == 0 {
        Map::empty()
    } else {
        to_map(entries.drop_last()).insert(entries.last().0, entries.last().1)
    }
}

/// Whether no key occurs twice.
pub open spec fn distinct<V>(entries: Seq<(Seq<char>, V)>) -> bool {
    forall|i: int, j: int|
        0 <= i < j < entries.len() ==> (#[trigger] entries[i]).0 != (#[trigger] entries[j]).0
}

/// Whether the keys stand in dictionary order, each once.
pub open spec fn ascending<V>(entries: Seq<(Seq<char>, V)>) -> bool {
    forall|i: int, j: int|
        0 <= i < j < entries.len() ==> text::less(
            (#[trigger] entries[i]).0,
            (#[trigger] entries[j]).0,
        )
}

proof fn lemma_ascending_distinct<V>(entries: Seq<(Seq<char>, V)>)
    requires
        ascending(entries),
    ensures
        distinct(entries),
{
    assert forall|i: int, j: int| 0 <= i < j < entries.len() implies (#[trigger] entries[i]).0
        != (#[trigger] entries[j]).0 by {
        text::lemma_less_total(entries[i].0, entries[j].0);
    }
}

/// The map of a list without repeated keys holds exactly what the list does.
pub proof fn lemma_to_map<V>(entries: Seq<(Seq<char>, V)>)
    requires
        distinct(entries),
    ensures
        forall|i: int|
            0 <= i < entries.len() ==> {
                &&& to_map(entries).dom().contains((#[trigger] entries[i]).0)
                &&& to_map(entries)[entries[i].0] == entries[i].1
            },
        forall|k: Seq<char>| #[trigger]
            to_map(entries).dom().contains(k) ==> exists|i: int|
                0 <= i < entries.len() && (#[trigger] entries[i]).0 == k,
    decreases entries.len(),
{
    if entries.len() > 0 {
        let rest = entries.drop_last();
        lemma_to_map(rest);
        assert forall|i: int| 0 <= i < entries.len() implies {
            &&& to_map(entries).dom().contains((#[trigger] entries[i]).0)
            &&& to_map(entries)[entries[i].0] == entries[i].1
        } by {
            if i < rest.len() {
                assert(rest[i] == entries[i]);
                assert(entries[i].0 != entries[entries.len() - 1].0);
            }
        }
        assert forall|k: Seq<char>| #[trigger] to_map(entries).dom().contains(k) implies exists|
            i: int,
        |
            0 <= i < entries.len() && (#[trigger] entries[i]).0 == k by {
            if k == entries.last().0 {
                assert(entries[entries.len() - 1].0 == k);
            } else {
                assert(to_map(rest).dom().contains(k));
                let i = choose|i: int| 0 <= i < rest.len() && (#[trigger] rest[i]).0 == k;
                assert(entries[i].0 == k);
            }
        }
    }
}

proof fn lemma_update<V>(entries: Seq<(Seq<char>, V)>, i: int, value: V)
    requires
        distinct(entries),
        0 <= i < entries.len(),
    ensures
        distinct(entries.update(i, (entries[i].0, value))),
        to_map(entries.update(i, (entries[i].0, value))) == to_map(entries).insert(
            entries[i].0,
            value,
        ),
    decreases entries.len(),
{
    let new = entries.update(i, (entries[i].0, value));
    assert(distinct(new));
    let rest = entries.drop_last();
    if i == entries.len() - 1 {
        assert(new.drop_last() =~= rest);
        assert(to_map(new) =~= to_map(entries).insert(entries[i].0, value));
    } else {
        assert(rest[i] == entries[i]);
        lemma_update(rest, i, value);
        assert(new.drop_last() =~= rest.update(i, (entries[i].0, value)));
        assert(new.last() == entries.last());
        assert(entries.last().0 != entries[i].0);
        assert(to_map(new) =~= to_map(entries).insert(entries[i].0, value));
    }
}

proof fn lemma_insert<V>(entries: Seq<(Seq<char>, V)>, i: int, key: Seq<char>, value: V)
    requires
        0 <= i <= entries.len(),
        forall|k: int| 0 <= k < entries.len() ==> (#[trigger] entries[k]).0 != key,
    ensures
        to_map(entries.insert(i, (key, value))) == to_map(entries).insert(key, value),
    decreases entries.len(),
{
    let new = entries.insert(i, (key, value));
    if i == entries.len() {
        assert(new.drop_last() =~= entries);
    } else {
        let rest = entries.drop_last();
        lemma_insert(rest, i, key, value);
        assert(new.drop_last() =~= rest.insert(i, (key, value)));
        assert(new.last() == entries.last());
        assert(entries[entries.len() - 1].0 != key);
        assert(to_map(new) =~= to_map(entries).insert(key, value));
    }
}

impl<V> View for TextMap<V> {
    type V = Map<Seq<char>, V>;

    open spec fn view(&self) -> Map<Seq<char>, V> {
        to_map(self.listed())
    }
}

/// What a list of entries holds.
spec fn keyed<V>(entries: Seq<(String, V)>) -> Seq<(Seq<char>, V)> {
    entries.map_values(|e: (String, V)| (e.0@, e.1))
}

impl<V> TextMap<V> {
    /// The entries, in dictionary order of their keys.
    pub closed spec fn listed(self) -> Seq<(Seq<char>, V)> {
        keyed(self.entries@)
    }

    #[verifier::type_invariant]
    spec fn valid(self) -> bool {
        ascending(self.listed())
    }

    /// The empty map.
    pub fn new() -> (r: TextMap<V>)
        ensures
            r@ == Map::<Seq<char>, V>::empty(),
            r.listed() == Seq::<(Seq<char>, V)>::empty(),
    {
        let r = TextMap { entries: Vec::new() };
        assert(r.listed() =~= Seq::empty());
        r
    }

    /// Number of entries.
    pub fn len(&self) -> (r: usize)
        ensures
            r == self.listed().len(),
            ascending(self.listed()),
    {
        proof {
            use_type_invariant(self);
        }
        self.entries.len()
    }

    /// Whether there are no entries.
    pub fn is_empty(&self) -> (r: bool)
        ensures
            r == (self@ == Map::<Seq<char>, V>::empty()),
            r == (self.listed().len() == 0),
    {
        proof {
            use_type_invariant(self);
            lemma_ascending_distinct(self.listed());
            lemma_to_map(self.listed());
            if self.listed().len() > 0 {
                assert(self@.dom().contains(self.listed()[0].0));
            }
        }
        self.entries.len() == 0
    }

    /// How many keys come before `key`.
    fn rank(&self, key: &str) -> (r: usize)
        ensures
            r <= self.listed().len(),
            forall|k: int| 0 <= k < r ==> text::less((#[trigger] self.listed()[k]).0, key@),
            forall|k: int|
                r <= k < self.listed().len() ==> !text::less((#[trigger] self.listed()[k]).0, key@),
    {
        proof {
            use_type_invariant(self);
        }
        let mut i: usize = 0;
        while i < self.entries.len()
            invariant
                0 <= i <= self.entries@.len(),
                ascending(self.listed()),
                forall|k: int| 0 <= k < i ==> text::less((#[trigger] self.listed()[k]).0, key@),
            decreases self.entries@.len() - i,
        {
            assert(self.listed()[i as int].0 == self.entries@[i as int].0@);
            if !text::precedes(self.entries[i].0.as_str(), key) {
                assert forall|k: int| i <= k < self.listed().len() implies !text::less(
                    (#[trigger] self.listed()[k]).0,
                    key@,
                ) by {
                    if k > i && text::less(self.listed()[k].0, key@) {
                        assert(text::less(self.listed()[i as int].0, self.listed()[k].0));
                        text::lemma_less_transitive(
                            self.listed()[i as int].0,
                            self.listed()[k].0,
                            key@,
                        );
                    }
                }
                return i;
            }
            i += 1;
        }
        i
    }

    /// Where `key` stands, if it has an entry.
    fn position(&self, key: &str) -> (r: Option<usize>)
        ensures
            match r {
                Some(i) => {
                    &&& i < self.listed().len()
                    &&& self.listed()[i as int].0 == key@
                    &&& self@.dom().contains(key@)
                    &&& self@[key@] == self.listed()[i as int].1
                },
                None => {
                    &&& !self@.dom().contains(key@)
                    &&& forall|i: int|
                        0 <= i < self.listed().len() ==> (#[trigger] self.listed()[i]).0 != key@
                },
            },
    {
        let i: usize = self.rank(key);
        proof {
            use_type_invariant(self);
            lemma_ascending_distinct(self.listed());
            lemma_to_map(self.listed());
            text::lemma_less_total(key@, key@);
            if i < self.entries.len() {
                assert(self.listed()[i as int].0 == self.entries@[i as int].0@);
            }
        }
        if i < self.entries.len() && text::same(self.entries[i].0.as_str(), key) {
            Some(i)
        } else {
            assert forall|k: int| 0 <= k < self.listed().len() implies (
            #[trigger] self.listed()[k]).0 != key@ by {
                if k > i {
                    assert(text::less(self.listed()[i as int].0, self.listed()[k].0));
                }
            }
            None
        }
    }

    /// Whether `key` has an entry.
    pub fn contains_key(&self, key: &str) -> (r: bool)
        ensures
            r == self@.dom().contains(key@),
    {
        self.position(key).is_some()
    }

    /// The value of `key`, if it has one.
    pub fn get(&self, key: &str) -> (r: Option<&V>)
        ensures
            match r {
                Some(v) => self@.dom().contains(key@) && *v == self@[key@],
                None => !self@.dom().contains(key@),
            },
    {
        match self.position(key) {
            Some(i) => Some(&self.entries[i].1),
            None => None,
        }
    }

    /// The key of the `i`-th entry.
    pub fn key_at(&self, i: usize) -> (r: &str)
        requires
            i < self.listed().len(),
        ensures
            r@ == self.listed()[i as int].0,
    {
        self.entries[i].0.as_str()
    }

    /// The value of the `i`-th entry.
    pub fn value_at(&self, i: usize) -> (r: &V)
        requires
            i < self.listed().len(),
        ensures
            *r == self.listed()[i as int].1,
    {
        &self.entries[i].1
    }

    /// Give `key` the value `value`, in place of the value it may have.
    pub fn insert(&mut self, key: String, value: V)
        ensures
            final(self)@ == old(self)@.insert(key@, value),
    {
        proof {
            use_type_invariant(&*self);
        }
        let ghost before = self.listed();
        let at: usize = self.rank(key.as_str());
        let found = self.position(key.as_str());
        let mut entries: Vec<(String, V)> = Vec::new();
        std::mem::swap(&mut entries, &mut self.entries);
        match found {
            Some(i) => {
                entries.set(i, (key, value));
                proof {
                    lemma_ascending_distinct(before);
                    lemma_update(before, i as int, value);
                    assert(keyed(entries@) =~= before.update(i as int, (key@, value)));
                }
            },
            None => {
                entries.insert(at, (key, value));
                proof {
                    let now = before.insert(at as int, (key@, value));
                    assert(keyed(entries@) =~= now);
                    lemma_insert(before, at as int, key@, value);
                    assert forall|i: int, j: int| 0 <= i < j < now.len() implies text::less(
                        (#[trigger] now[i]).0,
                        (#[trigger] now[j]).0,
                    ) by {
                        if j == at {
                            assert(now[i] == before[i]);
                        } else if i == at {
                            assert(now[j] == before[j - 1]);
                            text::lemma_less_total(key@, before[j - 1].0);
                        } else {
                            let a = if i < at {
                                i
                            } else {
                                i - 1
                            };
                            let b = if j < at {
                                j
                            } else {
                                j - 1
                            };
                            assert(now[i] == before[a]);
                            assert(now[j] == before[b]);
                        }
                    }
                }
            },
        }
        self.entries = entries;
    }
}

} // verus!
