//! A map from text to text.

use crate::text::same_text;
use vstd::prelude::*;

verus! {

/// A key with its value.
pub struct TextEntry {
    pub key: String,
    pub value: String,
}

impl Clone for TextEntry {
    fn clone(&self) -> (r: Self)
        ensures
            r == *self,
    {
        TextEntry { key: self.key.clone(), value: self.value.clone() }
    }
}

/// The value under a key of a map, if there is one.
pub open spec fn value_at(m: Map<Seq<char>, Seq<char>>, k: Seq<char>) -> Option<Seq<char>> {
    if m.contains_key(k) {
        Some(m[k])
    } else {
        None
    }
}

/// A map from text to text that keeps its keys in the order in which they came.
pub struct TextMap {
    entries: Vec<TextEntry>,
}

impl View for TextMap {
    type V = Map<Seq<char>, Seq<char>>;

    closed spec fn view(&self) -> Map<Seq<char>, Seq<char>> {
        entries_map(self.entries@)
    }
}

/// Whether a key stands among the entries.
pub open spec fn has_key(entries: Seq<TextEntry>, k: Seq<char>) -> bool {
    exists|i: int| 0 <= i < entries.len() && (#[trigger] entries[i]).key@ == k
}

/// Where a key stands among the entries.
pub open spec fn key_place(entries: Seq<TextEntry>, k: Seq<char>) -> int {
    choose|i: int| 0 <= i < entries.len() && (#[trigger] entries[i]).key@ == k
}

/// No key stands twice among the entries.
pub open spec fn keys_distinct(entries: Seq<TextEntry>) -> bool {
    forall|i: int, j: int|
        0 <= i < j < entries.len() ==> (#[trigger] entries[i]).key@ != (#[trigger] entries[j]).key@
}

/// The map that a list of entries with distinct keys stands for.
pub open spec fn entries_map(entries: Seq<TextEntry>) -> Map<Seq<char>, Seq<char>> {
    Map::new(|k: Seq<char>| has_key(entries, k), |k: Seq<char>|
        entries[key_place(entries, k)].value@)
}

impl TextMap {
    #[verifier::type_invariant]
    closed spec fn wf(self) -> bool {
        keys_distinct(self.entries@)
    }

    /// The map without any key.
    pub fn new() -> (r: Self)
        ensures
            r@ == Map::<Seq<char>, Seq<char>>::empty(),
    {
        let r = TextMap { entries: Vec::new() };
        assert(r@ =~= Map::<Seq<char>, Seq<char>>::empty());
        r
    }

    /// The map with the given entries.
    pub fn of_entries(entries: Vec<TextEntry>) -> (r: Self)
        requires
            keys_distinct(entries@),
        ensures
            r@ == entries_map(entries@),
    {
        TextMap { entries }
    }

    /// Where the key stands.
    fn place(&self, k: &str) -> (r: Option<usize>)
        ensures
            match r {
                Some(i) => i < self.entries@.len() && self.entries@[i as int].key@ == k@,
                None => !has_key(self.entries@, k@),
            },
    {
        let mut i: usize = 0;
        while i < self.entries.len()
            invariant
                i <= self.entries@.len(),
                forall|j: int| 0 <= j < i ==> (#[trigger] self.entries@[j]).key@ != k@,
            decreases self.entries@.len() - i,
        {
            if same_text(self.entries[i].key.as_str(), k) {
                return Some(i);
            }
            i = i + 1;
        }
        None
    }

    /// The value under a key.
    pub fn get(&self, k: &str) -> (r: Option<&String>)
        ensures
            match r {
                Some(v) => self@.contains_key(k@) && self@[k@] == v@,
                None => !self@.contains_key(k@),
            },
    {
        proof {
            use_type_invariant(self);
        }
        match self.place(k) {
            Some(i) => {
                assert(has_key(self.entries@, k@));
                assert(key_place(self.entries@, k@) == i);
                Some(&self.entries[i].value)
            },
            None => None,
        }
    }

    /// A copy of the value under a key.
    pub fn lookup(&self, k: &str) -> (r: Option<String>)
        ensures
            match r {
                Some(v) => value_at(self@, k@) == Some(v@),
                None => value_at(self@, k@) is None,
            },
    {
        match self.get(k) {
            Some(v) => Some(v.clone()),
            None => None,
        }
    }

    /// Whether a key is there.
    pub fn contains_key(&self, k: &str) -> (r: bool)
        ensures
            r == self@.contains_key(k@),
    {
        self.get(k).is_some()
    }

    /// Puts a value under a key, in place of the value that was there.
    pub fn insert(&mut self, k: String, v: String)
        ensures
            final(self)@ == old(self)@.insert(k@, v@),
    {
        proof {
            use_type_invariant(&*self);
        }
        let ghost before = self.entries@;
        let at = self.place(k.as_str());
        let mut entries: Vec<TextEntry> = Vec::new();
        let mut i: usize = 0;
        while i < self.entries.len()
            invariant
                self.entries@ == before,
                i <= before.len(),
                entries@ == before.take(i as int),
            decreases before.len() - i,
        {
            entries.push(self.entries[i].clone());
            i = i + 1;
            assert(entries@ =~= before.take(i as int));
        }
        assert(entries@ =~= before);
        let ghost key = k@;
        let ghost value = v@;
        match at {
            Some(p) => {
                entries.set(p, TextEntry { key: k, value: v });
                proof {
                    lemma_set_entry(before, entries@, p as int, key, value);
                }
            },
            None => {
                entries.push(TextEntry { key: k, value: v });
                proof {
                    lemma_push_entry(before, entries@, key, value);
                }
            },
        }
        *self = TextMap { entries };
    }

    /// How many keys there are.
    pub fn len(&self) -> (r: usize)
        ensures
            self@.dom().finite(),
            r == self@.dom().len(),
    {
        proof {
            use_type_invariant(self);
            lemma_entry_count(self.entries@);
        }
        self.entries.len()
    }

    /// Whether there is no key.
    pub fn is_empty(&self) -> (r: bool)
        ensures
            r == (self@ == Map::<Seq<char>, Seq<char>>::empty()),
    {
        let r = self.entries.len() == 0;
        if r {
            assert(self@ =~= Map::<Seq<char>, Seq<char>>::empty());
        } else {
            assert(has_key(self.entries@, self.entries@[0].key@));
            assert(self@.contains_key(self.entries@[0].key@));
        }
        r
    }

    /// The entries, in the order in which their keys came.
    pub fn entries(&self) -> (r: &Vec<TextEntry>)
        ensures
            keys_distinct(r@),
            entries_map(r@) == self@,
    {
        proof {
            use_type_invariant(self);
        }
        &self.entries
    }
}

proof fn lemma_set_entry(
    before: Seq<TextEntry>,
    after: Seq<TextEntry>,
    p: int,
    key: Seq<char>,
    value: Seq<char>,
)
    requires
        keys_distinct(before),
        0 <= p < before.len(),
        before[p].key@ == key,
        after.len() == before.len(),
        after[p].key@ == key,
        after[p].value@ == value,
        forall|i: int| 0 <= i < before.len() && i != p ==> after[i] == before[i],
    ensures
        keys_distinct(after),
        entries_map(after) == entries_map(before).insert(key, value),
{
    assert forall|i: int| 0 <= i < after.len() implies (#[trigger] after[i]).key@
        == before[i].key@ by {}
    assert(keys_distinct(after)) by {
        assert forall|i: int, j: int| 0 <= i < j < after.len() implies (#[trigger] after[i]).key@
            != (#[trigger] after[j]).key@ by {
            assert(before[i].key@ != before[j].key@);
        }
    }
    assert forall|k: Seq<char>| has_key(after, k) == has_key(before, k) by {
        if has_key(after, k) {
            let i = key_place(after, k);
            assert(before[i].key@ == k);
        }
        if has_key(before, k) {
            let i = key_place(before, k);
            assert(after[i].key@ == k);
        }
    }
    assert(has_key(before, key));
    assert(entries_map(after).dom() =~= entries_map(before).insert(key, value).dom());
    assert forall|k: Seq<char>| has_key(after, k) implies entries_map(after)[k] == entries_map(
        before,
    ).insert(key, value)[k] by {
        let i = key_place(after, k);
        let j = key_place(before, k);
        assert(has_key(before, k));
        assert(before[i].key@ == k);
        assert(i == j);
    }
    assert(entries_map(after) =~= entries_map(before).insert(key, value));
}

proof fn lemma_push_entry(
    before: Seq<TextEntry>,
    after: Seq<TextEntry>,
    key: Seq<char>,
    value: Seq<char>,
)
    requires
        keys_distinct(before),
        !has_key(before, key),
        after.len() == before.len() + 1,
        after.last().key@ == key,
        after.last().value@ == value,
        forall|i: int| 0 <= i < before.len() ==> after[i] == before[i],
    ensures
        keys_distinct(after),
        entries_map(after) == entries_map(before).insert(key, value),
{
    let n = before.len() as int;
    assert(keys_distinct(after)) by {
        assert forall|i: int, j: int| 0 <= i < j < after.len() implies (#[trigger] after[i]).key@
            != (#[trigger] after[j]).key@ by {
            assert(after[i] == before[i]);
            assert(before[i].key@ != key);
            if j < n {
                assert(before[i].key@ != before[j].key@);
            }
        }
    }
    assert forall|k: Seq<char>| has_key(after, k) == (has_key(before, k) || k == key) by {
        if has_key(after, k) {
            let i = key_place(after, k);
            if i < n {
                assert(before[i].key@ == k);
            }
        }
        if has_key(before, k) {
            let i = key_place(before, k);
            assert(after[i].key@ == k);
        }
        if k == key {
            assert(after[n].key@ == k);
        }
    }
    assert(entries_map(after).dom() =~= entries_map(before).insert(key, value).dom());
    assert forall|k: Seq<char>| has_key(after, k) implies entries_map(after)[k] == entries_map(
        before,
    ).insert(key, value)[k] by {
        let i = key_place(after, k);
        if k == key {
            assert(after[n].key@ == k);
            assert(i == n);
        } else {
            let j = key_place(before, k);
            assert(has_key(before, k));
            assert(after[j].key@ == k);
            assert(i == j);
        }
    }
    assert(entries_map(after) =~= entries_map(before).insert(key, value));
}

proof fn lemma_entry_count(entries: Seq<TextEntry>)
    requires
        keys_distinct(entries),
    ensures
        entries_map(entries).dom().finite(),
        entries_map(entries).dom().len() == entries.len(),
    decreases entries.len(),
{
    if entries.len() == 0 {
        assert(entries_map(entries).dom() =~= Set::<Seq<char>>::empty());
    } else {
        let before = entries.drop_last();
        let last = entries.last();
        assert forall|i: int, j: int| 0 <= i < j < before.len() implies (#[trigger] before[i]).key@
            != (#[trigger] before[j]).key@ by {
            assert(entries[i].key@ != entries[j].key@);
        }
        lemma_entry_count(before);
        assert(!has_key(before, last.key@)) by {
            if has_key(before, last.key@) {
                let i = key_place(before, last.key@);
                assert(entries[i].key@ != entries[entries.len() - 1].key@);
            }
        }
        lemma_push_entry(before, entries, last.key@, last.value@);
        assert(entries_map(entries).dom() =~= entries_map(before).dom().insert(last.key@));
    }
}

} // verus!
