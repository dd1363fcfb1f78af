//! The stored form of a set of attributes: a dictionary from attribute names
//! to the fields of each attribute. A field, or all the fields of an entry,
//! may be missing.

use vstd::prelude::*;
use crate::attribute_buff::AttributeBuff;
use crate::scalar::Scalar;
use crate::search::{first_index, lemma_first_index, lemma_first_index_is};

verus! {

/// The stored fields of one attribute.
#[derive(Debug)]
pub struct AttributeFields {
    pub attribute_name: Option<String>,
    pub attribute_value: Option<Scalar>,
    pub initial_value: Option<Scalar>,
    pub max_value: Option<Scalar>,
    pub min_value: Option<Scalar>,
    pub buffs: Option<Vec<AttributeBuff>>,
}

/// One entry of the dictionary. The value is missing where what was stored
/// under the key is not a set of fields.
#[derive(Debug)]
pub struct DictionaryEntry {
    pub key: String,
    pub value: Option<AttributeFields>,
}

/// A dictionary. Its entries stand in the order in which their keys were
/// first inserted.
#[derive(Debug)]
pub struct AttributeDictionary {
    pub entries: Vec<DictionaryEntry>,
}

/// Stored fields as the contracts see them.
pub ghost struct FieldsView {
    pub attribute_name: Option<Seq<char>>,
    pub attribute_value: Option<Scalar>,
    pub initial_value: Option<Scalar>,
    pub max_value: Option<Scalar>,
    pub min_value: Option<Scalar>,
    pub buffs: Option<Seq<AttributeBuff>>,
}

/// An entry as the contracts see it.
pub ghost struct EntryView {
    pub key: Seq<char>,
    pub value: Option<FieldsView>,
}

impl View for AttributeFields {
    type V = FieldsView;

    open spec fn view(&self) -> FieldsView {
        FieldsView {
            attribute_name: match self.attribute_name {
                Some(name) => Some(name@),
                None => None,
            },
            attribute_value: self.attribute_value,
            initial_value: self.initial_value,
            max_value: self.max_value,
            min_value: self.min_value,
            buffs: match self.buffs {
                Some(buffs) => Some(buffs@),
                None => None,
            },
        }
    }
}

impl View for DictionaryEntry {
    type V = EntryView;

    open spec fn view(&self) -> EntryView {
        EntryView {
            key: self.key@,
            value: match self.value {
                Some(fields) => Some(fields@),
                None => None,
            },
        }
    }
}

impl View for AttributeDictionary {
    type V = Seq<EntryView>;

    open spec fn view(&self) -> Seq<EntryView> {
        self.entries@.map_values(|entry: DictionaryEntry| entry@)
    }
}

/// The entries that stand under the given key.
pub open spec fn keyed(key: Seq<char>) -> spec_fn(EntryView) -> bool {
    |entry: EntryView| entry.key == key
}

/// The entries after `entry` was inserted: it takes the place of the first
/// entry under its key, or stands at the end if there is none.
pub open spec fn put(entries: Seq<EntryView>, entry: EntryView) -> Seq<EntryView> {
    let index = first_index(entries, keyed(entry.key));
    if index < entries.len() {
        entries.update(index, entry)
    } else {
        entries.push(entry)
    }
}

/// No two of the entries stand under the same key.
pub open spec fn distinct_keys(entries: Seq<EntryView>) -> bool {
    forall|i: int, j: int|
        0 <= i < j < entries.len() ==> (#[trigger] entries[i]).key != (#[trigger] entries[j]).key
}

/// Inserting an entry among entries with distinct keys leaves the keys
/// distinct.
pub proof fn lemma_put_keeps_keys_distinct(entries: Seq<EntryView>, entry: EntryView)
    requires
        distinct_keys(entries),
    ensures
        distinct_keys(put(entries, entry)),
{
    lemma_first_index(entries, keyed(entry.key));
    let index = first_index(entries, keyed(entry.key));
    let after = put(entries, entry);
    assert forall|i: int, j: int| 0 <= i < j < after.len() implies (#[trigger] after[i]).key != (
    #[trigger] after[j]).key by {
        if index < entries.len() {
            assert(after[i].key == entries[i].key);
            assert(after[j].key == entries[j].key);
        } else if j == entries.len() {
            assert(!keyed(entry.key)(entries[i]));
        } else {
            assert(after[i] == entries[i]);
            assert(after[j] == entries[j]);
        }
    }
}

impl Default for AttributeDictionary {
    /// An empty dictionary.
    fn default() -> (r: AttributeDictionary)
        ensures
            r@.len() == 0,
    {
        AttributeDictionary::new()
    }
}

impl AttributeDictionary {
    /// An empty dictionary.
    pub fn new() -> (r: AttributeDictionary)
        ensures
            r@.len() == 0,
    {
        AttributeDictionary { entries: Vec::new() }
    }

    /// The index of the first entry under `key`, or the number of entries if
    /// there is none.
    pub fn position(&self, key: &String) -> (r: usize)
        ensures
            r == first_index(self@, keyed(key@)),
            r <= self@.len(),
            r <= self.entries.len(),
    {
        let mut i: usize = 0;
        while i < self.entries.len()
            invariant
                i <= self.entries.len(),
                forall|j: int| 0 <= j < i ==> (#[trigger] self@[j]).key != key@,
            decreases self.entries.len() - i,
        {
            if self.entries[i].key == *key {
                proof {
                    assert(self@[i as int].key == key@);
                    lemma_first_index_is(self@, keyed(key@), i as int);
                }
                return i;
            }
            proof {
                assert(self@[i as int] == self.entries@[i as int]@);
            }
            i += 1;
        }
        proof {
            lemma_first_index_is(self@, keyed(key@), i as int);
        }
        i
    }

    /// The value of the first entry under `key`; nothing where there is no
    /// such entry or its value is missing.
    pub fn get(&self, key: &String) -> (r: Option<&AttributeFields>)
        ensures
            match r {
                Some(fields) => {
                    let index = first_index(self@, keyed(key@));
                    index < self@.len() && self@[index].value == Some(fields@)
                },
                None => {
                    let index = first_index(self@, keyed(key@));
                    index < self@.len() ==> self@[index].value is None
                },
            },
    {
        let i = self.position(key);
        if i < self.entries.len() {
            proof {
                assert(self@[i as int] == self.entries@[i as int]@);
            }
            self.entries[i].value.as_ref()
        } else {
            None
        }
    }

    /// Inserts a value under a key: in the place of the first entry under
    /// that key, or at the end if there is none.
    pub fn insert(&mut self, key: String, value: Option<AttributeFields>)
        ensures
            final(self)@ == put(old(self)@, (DictionaryEntry { key, value })@),
            distinct_keys(old(self)@) ==> distinct_keys(final(self)@),
    {
        proof {
            if distinct_keys(self@) {
                lemma_put_keeps_keys_distinct(self@, (DictionaryEntry { key, value })@);
            }
        }
        let i = self.position(&key);
        let entry = DictionaryEntry { key, value };
        if i < self.entries.len() {
            self.entries.set(i, entry);
            proof {
                assert(self@ == old(self)@.update(i as int, entry@));
            }
        } else {
            self.entries.push(entry);
            proof {
                assert(self@ == old(self)@.push(entry@));
            }
        }
    }
}

} // verus!
