//! A map keyed by destination hash.
use vstd::prelude::*;
use vstd::slice::slice_to_vec;

verus! {

/// True when `a` and `b` hold the same bytes.
pub fn same_bytes(a: &[u8], b: &[u8]) -> (same: bool)
    ensures
        same == (a@ == b@),
{
    if a.len() != b.len() {
        return false;
    }
    let mut i: usize = 0;
    while i < a.len()
        invariant
            i <= a@.len(),
            a@.len() == b@.len(),
            forall|j: int| 0 <= j < i ==> a@[j] == b@[j],
        decreases a@.len() - i,
    {
        if a[i] != b[i] {
            assert(a@[i as int] != b@[i as int]);
            return false;
        }
        i = i + 1;
    }
    assert(a@ =~= b@);
    true
}

/// A map from destination hashes to values, holding each hash at most once.
pub struct DestMap<V> {
    entries: Vec<(Vec<u8>, V)>,
}

/// Whether some entry has the key `key`.
spec fn holds_key<V>(entries: Seq<(Vec<u8>, V)>, key: Seq<u8>) -> bool {
    exists|i: int| 0 <= i < entries.len() && (#[trigger] entries[i]).0@ == key
}

/// Where the entry with the key `key` stands.
spec fn position<V>(entries: Seq<(Vec<u8>, V)>, key: Seq<u8>) -> int {
    choose|i: int| 0 <= i < entries.len() && (#[trigger] entries[i]).0@ == key
}

/// No two entries have the same key.
spec fn keys_distinct<V>(entries: Seq<(Vec<u8>, V)>) -> bool {
    forall|i: int, j: int|
        0 <= i < entries.len() && 0 <= j < entries.len() && (#[trigger] entries[i]).0@ == (
        #[trigger] entries[j]).0@ ==> i == j
}

/// What a list of entries maps.
spec fn mapping<V>(entries: Seq<(Vec<u8>, V)>) -> Map<Seq<u8>, V> {
    Map::new(|key: Seq<u8>| holds_key(entries, key), |key: Seq<u8>| entries[position(entries, key)].1)
}

/// Each entry is what its key maps to.
proof fn lemma_mapping_entry<V>(entries: Seq<(Vec<u8>, V)>, i: int)
    requires
        keys_distinct(entries),
        0 <= i < entries.len(),
    ensures
        mapping(entries).contains_key(entries[i].0@),
        mapping(entries)[entries[i].0@] == entries[i].1,
{
    let key = entries[i].0@;
    assert(holds_key(entries, key));
    let p = position(entries, key);
    assert(entries[p].0@ == key);
}

/// A key in the mapping has an entry.
proof fn lemma_mapping_key<V>(entries: Seq<(Vec<u8>, V)>, key: Seq<u8>)
    requires
        keys_distinct(entries),
        mapping(entries).contains_key(key),
    ensures
        0 <= position(entries, key) < entries.len(),
        entries[position(entries, key)].0@ == key,
        mapping(entries)[key] == entries[position(entries, key)].1,
{
    assert(holds_key(entries, key));
}

/// Appending an entry under a new key inserts it.
proof fn lemma_mapping_push<V>(entries: Seq<(Vec<u8>, V)>, entry: (Vec<u8>, V))
    requires
        keys_distinct(entries),
        !mapping(entries).contains_key(entry.0@),
    ensures
        keys_distinct(entries.push(entry)),
        mapping(entries.push(entry)) == mapping(entries).insert(entry.0@, entry.1),
{
    let more = entries.push(entry);
    assert forall|i: int| 0 <= i < entries.len() implies (#[trigger] entries[i]).0@ != entry.0@ by {
        lemma_mapping_entry(entries, i);
    }
    assert(keys_distinct(more));
    assert forall|key: Seq<u8>| #[trigger]
        mapping(more).contains_key(key) == mapping(entries).insert(entry.0@, entry.1).contains_key(
            key,
        ) by {
        if mapping(more).contains_key(key) {
            lemma_mapping_key(more, key);
            let p = position(more, key);
            if p < entries.len() {
                assert(entries[p] == more[p]);
                lemma_mapping_entry(entries, p);
            }
        }
        if mapping(entries).contains_key(key) {
            lemma_mapping_key(entries, key);
            assert(more[position(entries, key)] == entries[position(entries, key)]);
            lemma_mapping_entry(more, position(entries, key));
        }
        lemma_mapping_entry(more, entries.len() as int);
    }
    assert forall|key: Seq<u8>| #[trigger] mapping(more).contains_key(key) implies mapping(
        more,
    )[key] == mapping(entries).insert(entry.0@, entry.1)[key] by {
        lemma_mapping_entry(more, entries.len() as int);
        if key != entry.0@ {
            lemma_mapping_key(entries, key);
            assert(more[position(entries, key)] == entries[position(entries, key)]);
            lemma_mapping_entry(more, position(entries, key));
        }
    }
    assert(mapping(more) =~= mapping(entries).insert(entry.0@, entry.1));
}

/// Taking an entry out, with the last entry moved into its place, removes its key.
proof fn lemma_mapping_swap_remove<V>(entries: Seq<(Vec<u8>, V)>, at: int)
    requires
        keys_distinct(entries),
        0 <= at < entries.len(),
    ensures
        keys_distinct(entries.update(at, entries.last()).drop_last()),
        mapping(entries.update(at, entries.last()).drop_last()) == mapping(entries).remove(
            entries[at].0@,
        ),
{
    let gone = entries[at].0@;
    let n = entries.len() - 1;
    let fewer = entries.update(at, entries.last()).drop_last();
    assert forall|i: int| 0 <= i < n implies #[trigger] fewer[i] == entries[if i == at {
        n
    } else {
        i
    }] by {}
    assert(keys_distinct(fewer)) by {
        assert forall|i: int, j: int|
            0 <= i < fewer.len() && 0 <= j < fewer.len() && (#[trigger] fewer[i]).0@ == (
            #[trigger] fewer[j]).0@ implies i == j by {
            let a = if i == at { n } else { i };
            let b = if j == at { n } else { j };
            assert(entries[a].0@ == entries[b].0@);
        }
    }
    assert forall|key: Seq<u8>|
        (#[trigger] mapping(fewer).contains_key(key)) == mapping(entries).remove(gone).contains_key(
            key,
        ) && (mapping(fewer).contains_key(key) ==> mapping(fewer)[key] == mapping(entries).remove(
            gone,
        )[key]) by {
        if mapping(fewer).contains_key(key) {
            lemma_mapping_key(fewer, key);
            let p = position(fewer, key);
            let q = if p == at { n } else { p };
            assert(fewer[p] == entries[q]);
            lemma_mapping_entry(entries, q);
            assert(q != at);
            assert(entries[q].0@ != entries[at].0@);
        }
        if mapping(entries).contains_key(key) && key != gone {
            lemma_mapping_key(entries, key);
            let q = position(entries, key);
            let p = if q == n { at } else { q };
            assert(q != at);
            assert(fewer[p] == entries[q]);
            lemma_mapping_entry(fewer, p);
        }
    }
    assert(mapping(fewer) =~= mapping(entries).remove(gone));
}

impl<V> View for DestMap<V> {
    type V = Map<Seq<u8>, V>;

    closed spec fn view(&self) -> Map<Seq<u8>, V> {
        mapping(self.entries@)
    }
}

impl<V> DestMap<V> {
    #[verifier::type_invariant]
    spec fn inv(self) -> bool {
        keys_distinct(self.entries@)
    }

    /// An empty map.
    pub fn new() -> (map: Self)
        ensures
            map@ == Map::<Seq<u8>, V>::empty(),
    {
        let map = DestMap { entries: Vec::new() };
        assert(map@ =~= Map::<Seq<u8>, V>::empty());
        map
    }

    /// Where `key` stands among the entries.
    fn find(&self, key: &[u8]) -> (found: Option<usize>)
        ensures
            match found {
                Some(i) => i < self.entries@.len() && self.entries@[i as int].0@ == key@
                    && self@.contains_key(key@) && self@[key@] == self.entries@[i as int].1,
                None => !self@.contains_key(key@),
            },
    {
        proof {
            use_type_invariant(self);
        }
        let mut i: usize = 0;
        while i < self.entries.len()
            invariant
                keys_distinct(self.entries@),
                i <= self.entries@.len(),
                forall|j: int| 0 <= j < i ==> (#[trigger] self.entries@[j]).0@ != key@,
            decreases self.entries@.len() - i,
        {
            if same_bytes(self.entries[i].0.as_slice(), key) {
                proof {
                    lemma_mapping_entry(self.entries@, i as int);
                }
                return Some(i);
            }
            i = i + 1;
        }
        assert(!holds_key(self.entries@, key@));
        None
    }

    /// True when `key` is in the map.
    pub fn contains_key(&self, key: &[u8]) -> (held: bool)
        ensures
            held == self@.contains_key(key@),
    {
        self.find(key).is_some()
    }

    /// The value under `key`.
    pub fn get(&self, key: &[u8]) -> (value: Option<&V>)
        ensures
            match value {
                Some(v) => self@.contains_key(key@) && *v == self@[key@],
                None => !self@.contains_key(key@),
            },
    {
        match self.find(key) {
            Some(i) => Some(&self.entries[i].1),
            None => None,
        }
    }

    /// Puts `value` under `key` and hands back what stood there before.
    pub fn insert(&mut self, key: &[u8], value: V) -> (previous: Option<V>)
        ensures
            final(self)@ == old(self)@.insert(key@, value),
            match previous {
                Some(v) => old(self)@.contains_key(key@) && v == old(self)@[key@],
                None => !old(self)@.contains_key(key@),
            },
    {
        let previous = self.remove(key);
        proof {
            use_type_invariant(&*self);
        }
        let mut entries: Vec<(Vec<u8>, V)> = Vec::new();
        std::mem::swap(&mut self.entries, &mut entries);
        proof {
            assert(old(self)@.remove(key@).insert(key@, value) =~= old(self)@.insert(key@, value));
        }
        let entry = (slice_to_vec(key), value);
        proof {
            lemma_mapping_push(entries@, entry);
        }
        entries.push(entry);
        self.entries = entries;
        previous
    }

    /// Takes `key` out of the map and hands back its value.
    pub fn remove(&mut self, key: &[u8]) -> (removed: Option<V>)
        ensures
            final(self)@ == old(self)@.remove(key@),
            match removed {
                Some(v) => old(self)@.contains_key(key@) && v == old(self)@[key@],
                None => !old(self)@.contains_key(key@),
            },
    {
        proof {
            use_type_invariant(&*self);
        }
        match self.find(key) {
            Some(i) => {
                let mut entries: Vec<(Vec<u8>, V)> = Vec::new();
                std::mem::swap(&mut self.entries, &mut entries);
                proof {
                    lemma_mapping_swap_remove(entries@, i as int);
                }
                let entry = entries.swap_remove(i);
                self.entries = entries;
                Some(entry.1)
            },
            None => {
                assert(old(self)@.remove(key@) =~= old(self)@);
                None
            },
        }
    }

    /// Empties the map and hands back what it held.
    pub fn take(&mut self) -> (taken: Self)
        ensures
            taken@ == old(self)@,
            final(self)@ == Map::<Seq<u8>, V>::empty(),
    {
        let mut taken: Self = DestMap::new();
        std::mem::swap(self, &mut taken);
        taken
    }

    /// The keys, each once, in no particular order.
    pub fn keys(&self) -> (keys: Vec<Vec<u8>>)
        ensures
            lists_once(keys@, self@.dom()),
    {
        proof {
            use_type_invariant(self);
        }
        let mut keys: Vec<Vec<u8>> = Vec::new();
        let mut i: usize = 0;
        while i < self.entries.len()
            invariant
                i <= self.entries@.len(),
                keys@.len() == i,
                forall|j: int| 0 <= j < i ==> (#[trigger] keys@[j])@ == self.entries@[j].0@,
            decreases self.entries@.len() - i,
        {
            keys.push(slice_to_vec(self.entries[i].0.as_slice()));
            i = i + 1;
        }
        proof {
            assert forall|j: int| 0 <= j < keys@.len() implies self@.contains_key(
                (#[trigger] keys@[j])@,
            ) by {
                lemma_mapping_entry(self.entries@, j);
            }
            assert forall|key: Seq<u8>| self@.contains_key(key) implies exists|j: int|
                0 <= j < keys@.len() && (#[trigger] keys@[j])@ == key by {
                lemma_mapping_key(self.entries@, key);
                assert(keys@[position(self.entries@, key)]@ == key);
            }
            assert forall|a: int, b: int|
                0 <= a < keys@.len() && 0 <= b < keys@.len() && (#[trigger] keys@[a])@ == (
                #[trigger] keys@[b])@ implies a == b by {
                assert(self.entries@[a].0@ == self.entries@[b].0@);
            }
        }
        keys
    }
}

/// `list` names every member of `set` exactly once, and nothing else.
pub open spec fn lists_once(list: Seq<Vec<u8>>, set: Set<Seq<u8>>) -> bool {
    &&& forall|i: int| 0 <= i < list.len() ==> set.contains((#[trigger] list[i])@)
    &&& forall|key: Seq<u8>|
        set.contains(key) ==> exists|i: int| 0 <= i < list.len() && (#[trigger] list[i])@ == key
    &&& forall|i: int, j: int|
        0 <= i < list.len() && 0 <= j < list.len() && (#[trigger] list[i])@ == (
        #[trigger] list[j])@ ==> i == j
}

/// Appending a new member.
pub proof fn lemma_lists_once_push(list: Seq<Vec<u8>>, set: Set<Seq<u8>>, more: Vec<u8>)
    requires
        lists_once(list, set),
        !set.contains(more@),
    ensures
        lists_once(list.push(more), set.insert(more@)),
{
    let longer = list.push(more);
    assert forall|key: Seq<u8>| set.insert(more@).contains(key) implies exists|i: int|
        0 <= i < longer.len() && (#[trigger] longer[i])@ == key by {
        if key == more@ {
            assert(longer[list.len() as int]@ == key);
        } else {
            let i = choose|i: int| 0 <= i < list.len() && (#[trigger] list[i])@ == key;
            assert(longer[i]@ == key);
        }
    }
    assert forall|i: int| 0 <= i < longer.len() implies set.insert(more@).contains(
        (#[trigger] longer[i])@,
    ) by {
        if i < list.len() {
            assert(longer[i] == list[i]);
        }
    }
    assert forall|i: int, j: int|
        0 <= i < longer.len() && 0 <= j < longer.len() && (#[trigger] longer[i])@ == (
        #[trigger] longer[j])@ implies i == j by {
        if i < list.len() {
            assert(set.contains(list[i]@));
        }
        if j < list.len() {
            assert(set.contains(list[j]@));
        }
    }
}

} // verus!
