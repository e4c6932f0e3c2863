use crate::json::{entries_map, entries_of, Json, JsonValue, Member};
use vstd::prelude::*;

verus! {

/// True where no key occurs twice among `entries`.
pub open spec fn distinct_keys(entries: Seq<(Seq<char>, JsonValue)>) -> bool {
    forall|i: int, j: int|
        0 <= i < j < entries.len() ==> (#[trigger] entries[i]).0 != (#[trigger] entries[j]).0
}

/// A key that no entry carries is not in the map of the entries.
pub proof fn lemma_entries_map_absent(entries: Seq<(Seq<char>, JsonValue)>, key: Seq<char>)
    requires
        forall|i: int| 0 <= i < entries.len() ==> (#[trigger] entries[i]).0 != key,
    ensures
        !entries_map(entries).contains_key(key),
    decreases entries.len(),
{
    if entries.len() > 0 {
        let shorter = entries.drop_last();
        assert forall|i: int| 0 <= i < shorter.len() implies (#[trigger] shorter[i]).0 != key by {
            assert(shorter[i] == entries[i]);
        }
        lemma_entries_map_absent(shorter, key);
        assert(entries.last() == entries[entries.len() - 1]);
    }
}

/// With distinct keys, writing a new value at the place of a key is an
/// insertion into the map.
pub proof fn lemma_entries_map_update(
    entries: Seq<(Seq<char>, JsonValue)>,
    at: int,
    value: JsonValue,
)
    requires
        0 <= at < entries.len(),
        distinct_keys(entries),
    ensures
        entries_map(entries.update(at, (entries[at].0, value))) == entries_map(entries).insert(
            entries[at].0,
            value,
        ),
        distinct_keys(entries.update(at, (entries[at].0, value))),
    decreases entries.len(),
{
    let key = entries[at].0;
    let updated = entries.update(at, (key, value));
    let shorter = entries.drop_last();
    assert forall|i: int, j: int| 0 <= i < j < updated.len() implies (#[trigger] updated[i]).0 != (
    #[trigger] updated[j]).0 by {
        assert(updated[i].0 == entries[i].0);
        assert(updated[j].0 == entries[j].0);
    }
    if at == entries.len() - 1 {
        assert(updated.drop_last() =~= shorter);
        assert(entries_map(updated) =~= entries_map(entries).insert(key, value));
    } else {
        assert forall|i: int, j: int| 0 <= i < j < shorter.len() implies (#[trigger] shorter[i]).0
            != (#[trigger] shorter[j]).0 by {
            assert(shorter[i] == entries[i]);
            assert(shorter[j] == entries[j]);
        }
        lemma_entries_map_update(shorter, at, value);
        assert(updated.drop_last() =~= shorter.update(at, (key, value)));
        assert(updated.last() == entries.last());
        assert(entries[at].0 != entries[entries.len() - 1].0);
        assert(entries_map(updated) =~= entries_map(entries).insert(key, value));
    }
}

/// With distinct keys, the map of the entries has one key for each entry.
pub proof fn lemma_entries_map_len(entries: Seq<(Seq<char>, JsonValue)>)
    requires
        distinct_keys(entries),
    ensures
        entries_map(entries).dom().finite(),
        entries_map(entries).dom().len() == entries.len(),
    decreases entries.len(),
{
    if entries.len() > 0 {
        let shorter = entries.drop_last();
        assert forall|i: int, j: int| 0 <= i < j < shorter.len() implies (#[trigger] shorter[i]).0
            != (#[trigger] shorter[j]).0 by {
            assert(shorter[i] == entries[i]);
            assert(shorter[j] == entries[j]);
        }
        lemma_entries_map_len(shorter);
        assert forall|i: int| 0 <= i < shorter.len() implies (#[trigger] shorter[i]).0
            != entries.last().0 by {
            assert(shorter[i] == entries[i]);
            assert(entries.last() == entries[entries.len() - 1]);
        }
        lemma_entries_map_absent(shorter, entries.last().0);
        assert(entries_map(entries).dom() =~= entries_map(shorter).dom().insert(entries.last().0));
    }
}

/// The merged tags of a run: a mapping from tag name to value.
///
/// The entries are kept in the order in which their keys first came, and no
/// key occurs twice.
#[derive(Debug, PartialEq, Eq)]
pub struct TagDocument {
    entries: Vec<Member>,
}

impl View for TagDocument {
    type V = Map<Seq<char>, JsonValue>;

    closed spec fn view(&self) -> Map<Seq<char>, JsonValue> {
        entries_map(entries_of(self.entries@))
    }
}

impl TagDocument {
    #[verifier::type_invariant]
    spec fn keys_are_distinct(self) -> bool {
        distinct_keys(entries_of(self.entries@))
    }

    /// A document without tags.
    pub fn new() -> (tags: TagDocument)
        ensures
            tags@ == Map::<Seq<char>, JsonValue>::empty(),
    {
        let tags = TagDocument { entries: Vec::new() };
        assert(entries_of(tags.entries@) =~= Seq::empty());
        tags
    }

    /// Sets the value of `key`, in place of the value it had, if any.
    pub fn insert(&mut self, key: String, value: Json)
        ensures
            final(self)@ == old(self)@.insert(key@, value@),
    {
        proof {
            use_type_invariant(&*self);
        }
        let mut entries: Vec<Member> = Vec::new();
        assert(entries_of(entries@) =~= Seq::empty());
        core::mem::swap(&mut self.entries, &mut entries);
        let ghost before = entries_of(entries@);
        let mut found: Option<usize> = None;
        let mut i: usize = 0;
        while i < entries.len() && found.is_none()
            invariant
                i <= entries.len(),
                before == entries_of(entries@),
                match found {
                    Some(at) => at < entries.len() && before[at as int].0 == key@,
                    None => forall|j: int| 0 <= j < i ==> (#[trigger] before[j]).0 != key@,
                },
            decreases entries.len() - i,
        {
            if entries[i].key == key {
                found = Some(i);
            }
            i = i + 1;
        }
        match found {
            Some(at) => {
                proof {
                    lemma_entries_map_update(before, at as int, value@);
                }
                entries.set(at, Member { key, value });
                assert(entries_of(entries@) =~= before.update(at as int, (key@, value@)));
            },
            None => {
                entries.push(Member { key, value });
                proof {
                    let after = entries_of(entries@);
                    assert(after.drop_last() =~= before);
                    assert(after.last() == (key@, value@));
                    assert forall|a: int, b: int| 0 <= a < b < after.len() implies (
                    #[trigger] after[a]).0 != (#[trigger] after[b]).0 by {
                        if b < before.len() {
                            assert(after[a] == before[a] && after[b] == before[b]);
                        } else {
                            assert(after[a] == before[a]);
                        }
                    }
                }
            },
        }
        core::mem::swap(&mut self.entries, &mut entries);
    }

    /// The value of `key`, if the document has the key.
    pub fn get(&self, key: &str) -> (found: Option<&Json>)
        ensures
            match found {
                Some(value) => self@.contains_key(key@) && self@[key@] == value@,
                None => !self@.contains_key(key@),
            },
    {
        proof {
            use_type_invariant(self);
        }
        let ghost entries = entries_of(self.entries@);
        let mut i: usize = 0;
        while i < self.entries.len()
            invariant
                i <= self.entries.len(),
                entries == entries_of(self.entries@),
                distinct_keys(entries),
                forall|j: int| 0 <= j < i ==> (#[trigger] entries[j]).0 != key@,
            decreases self.entries.len() - i,
        {
            if *self.entries[i].key.as_str() == *key {
                proof {
                    let value = entries[i as int].1;
                    lemma_entries_map_update(entries, i as int, value);
                    assert(entries.update(i as int, (entries[i as int].0, value)) =~= entries);
                }
                return Some(&self.entries[i].value);
            }
            i = i + 1;
        }
        proof {
            lemma_entries_map_absent(entries, key@);
        }
        None
    }

    /// The number of tags.
    pub fn len(&self) -> (count: usize)
        ensures
            self@.dom().finite(),
            count == self@.dom().len(),
    {
        proof {
            use_type_invariant(self);
            lemma_entries_map_len(entries_of(self.entries@));
        }
        self.entries.len()
    }

    /// The tags as a list: one entry for each key, and the document is the
    /// map of the entries.
    pub fn entries(&self) -> (list: &Vec<Member>)
        ensures
            distinct_keys(entries_of(list@)),
            entries_map(entries_of(list@)) == self@,
    {
        proof {
            use_type_invariant(self);
        }
        &self.entries
    }
}

} // verus!
