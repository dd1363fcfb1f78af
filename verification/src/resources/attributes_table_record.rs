//! One row of a table: a named list of attribute records.

use vstd::prelude::*;
use crate::resources::attributes_record::{AttributesRecord, fresh};
use crate::search::{first_index, lemma_first_index_is};

verus! {

/// What a row announces to its observers.
#[derive(Debug)]
pub enum RecordEvent {
    /// A record was created in the row.
    AttributeAdded(AttributesRecord),
}

/// A row: its name, its records, and the events it raised and nobody took
/// yet.
#[derive(Debug)]
pub struct AttributeTableRecord {
    pub record_name: String,
    pub attributes: Vec<AttributesRecord>,
    pub events: Vec<RecordEvent>,
}

/// The records of the given name.
pub open spec fn called(name: Seq<char>) -> spec_fn(AttributesRecord) -> bool {
    |record: AttributesRecord| record.attribute_name@ == name
}

/// The announcement that a record was created.
pub open spec fn announcing() -> spec_fn(AttributesRecord) -> RecordEvent {
    |record: AttributesRecord| RecordEvent::AttributeAdded(record)
}

/// Some record has the given name.
pub open spec fn lists(records: Seq<AttributesRecord>, name: Seq<char>) -> bool {
    first_index(records, called(name)) < records.len()
}

/// The records with a fresh one behind them for each of the names, taken
/// first to last, that no record had when its turn came.
pub open spec fn completed(records: Seq<AttributesRecord>, names: Seq<String>) -> Seq<
    AttributesRecord,
>
    decreases names.len(),
{
    if names.len() == 0 {
        records
    } else {
        let before = completed(records, names.drop_last());
        if lists(before, names.last()@) {
            before
        } else {
            before.push(fresh(names.last()))
        }
    }
}

/// For each of the names, first to last, the first record of that name, if
/// there is one. Records of other names are left out.
pub open spec fn arranged(records: Seq<AttributesRecord>, names: Seq<String>) -> Seq<
    AttributesRecord,
>
    decreases names.len(),
{
    if names.len() == 0 {
        Seq::empty()
    } else {
        let before = arranged(records, names.drop_last());
        if lists(records, names.last()@) {
            before.push(records[first_index(records, called(names.last()@))])
        } else {
            before
        }
    }
}

/// Completing keeps the records that are there and puts new ones behind
/// them.
pub proof fn lemma_completed_extends(records: Seq<AttributesRecord>, names: Seq<String>)
    ensures
        records.len() <= completed(records, names).len(),
        completed(records, names).take(records.len() as int) == records,
    decreases names.len(),
{
    if names.len() > 0 {
        lemma_completed_extends(records, names.drop_last());
        let before = completed(records, names.drop_last());
        assert(before.push(fresh(names.last())).take(records.len() as int) == before.take(
            records.len() as int,
        ));
    } else {
        assert(records.take(records.len() as int) == records);
    }
}

impl Default for AttributeTableRecord {
    /// A row without a name and without records.
    fn default() -> (r: AttributeTableRecord)
        ensures
            r.record_name@.len() == 0,
            r.attributes@.len() == 0,
            r.events@.len() == 0,
    {
        AttributeTableRecord::new(String::new())
    }
}

impl AttributeTableRecord {
    /// `post` is this row after a fresh record of the given name was created
    /// behind the others and announced.
    pub open spec fn grew(&self, post: &AttributeTableRecord, attribute_name: String) -> bool {
        &&& post.record_name == self.record_name
        &&& post.attributes@ == self.attributes@.push(fresh(attribute_name))
        &&& post.events@ == self.events@.push(RecordEvent::AttributeAdded(fresh(attribute_name)))
    }

    /// `post` is this row after it was made sure to have a record for each
    /// of the names: the missing ones were created and announced, and the
    /// records were arranged in the order of the names.
    pub open spec fn ensured(&self, post: &AttributeTableRecord, names: Seq<String>) -> bool {
        &&& post.record_name == self.record_name
        &&& post.attributes@ == arranged(completed(self.attributes@, names), names)
        &&& post.events@ == self.events@ + completed(self.attributes@, names).skip(
            self.attributes@.len() as int,
        ).map_values(announcing())
    }

    /// `post` is this row after its first record of the given name, if there
    /// is one, was removed.
    pub open spec fn shrank(&self, post: &AttributeTableRecord, name: Seq<char>) -> bool {
        &&& post.record_name == self.record_name
        &&& post.events == self.events
        &&& post.attributes@ == if lists(self.attributes@, name) {
            self.attributes@.remove(first_index(self.attributes@, called(name)))
        } else {
            self.attributes@
        }
    }

    /// A row of the given name without records.
    pub fn new(record_name: String) -> (r: AttributeTableRecord)
        ensures
            r.record_name == record_name,
            r.attributes@.len() == 0,
            r.events@.len() == 0,
    {
        AttributeTableRecord { record_name, attributes: Vec::new(), events: Vec::new() }
    }

    /// Creates a fresh record of the given name behind the others and
    /// announces it.
    pub fn create_attribute(&mut self, attribute_name: String)
        ensures
            old(self).grew(final(self), attribute_name),
    {
        let new_attribute = AttributesRecord::new(attribute_name);
        self.events.push(RecordEvent::AttributeAdded(new_attribute.clone()));
        self.attributes.push(new_attribute);
    }

    /// The index of the first record of the given name, or the number of
    /// records if there is none.
    pub fn position(&self, attribute_name: &String) -> (r: usize)
        ensures
            r == first_index(self.attributes@, called(attribute_name@)),
            r <= self.attributes.len(),
    {
        let mut i: usize = 0;
        while i < self.attributes.len()
            invariant
                i <= self.attributes.len(),
                forall|j: int|
                    0 <= j < i ==> (#[trigger] self.attributes@[j]).attribute_name@
                        != attribute_name@,
            decreases self.attributes.len() - i,
        {
            if self.attributes[i].attribute_name == *attribute_name {
                proof {
                    lemma_first_index_is(self.attributes@, called(attribute_name@), i as int);
                }
                return i;
            }
            i += 1;
        }
        proof {
            lemma_first_index_is(self.attributes@, called(attribute_name@), i as int);
        }
        i
    }

    /// Makes sure that the row has a record for each of the names, creating
    /// and announcing those that are missing, and then arranges the records
    /// in the order of the names.
    pub fn ensure_attributes(&mut self, attributes: &Vec<String>)
        ensures
            old(self).ensured(final(self), attributes@),
    {
        let ghost before = self.attributes@;
        let ghost announced = self.events@;
        let mut i: usize = 0;
        proof {
            assert(before.skip(before.len() as int).map_values(announcing()) == Seq::<
                RecordEvent,
            >::empty());
            assert(announced + Seq::<RecordEvent>::empty() == announced);
        }
        while i < attributes.len()
            invariant
                i <= attributes.len(),
                before == old(self).attributes@,
                announced == old(self).events@,
                self.record_name == old(self).record_name,
                self.attributes@ == completed(before, attributes@.take(i as int)),
                self.events@ == announced + self.attributes@.skip(before.len() as int).map_values(
                    announcing(),
                ),
            decreases attributes.len() - i,
        {
            proof {
                let longer = attributes@.take(i + 1);
                assert(longer.drop_last() == attributes@.take(i as int));
                assert(longer.last() == attributes@[i as int]);
                lemma_completed_extends(before, attributes@.take(i as int));
            }
            if self.position(&attributes[i]) >= self.attributes.len() {
                let ghost held = self.attributes@;
                self.create_attribute(attributes[i].clone());
                proof {
                    let record = fresh(attributes@[i as int]);
                    assert(held.push(record).skip(before.len() as int) == held.skip(
                        before.len() as int,
                    ).push(record));
                    held.skip(before.len() as int).lemma_push_map_commute(announcing(), record);
                }
            }
            i += 1;
        }
        proof {
            assert(attributes@.take(i as int) == attributes@);
        }
        self.sort_attributes(attributes);
    }

    /// The first record of the given name, if there is one.
    pub fn get_attribute(&self, attribute_name: &String) -> (r: Option<&AttributesRecord>)
        ensures
            match r {
                Some(record) => lists(self.attributes@, attribute_name@) && *record
                    == self.attributes@[first_index(self.attributes@, called(attribute_name@))],
                None => !lists(self.attributes@, attribute_name@),
            },
    {
        let i = self.position(attribute_name);
        if i < self.attributes.len() {
            Some(&self.attributes[i])
        } else {
            None
        }
    }

    /// Arranges the records in the order of the names: for each name the first
    /// record of that name, if there is one. Records of other names are
    /// dropped.
    pub fn sort_attributes(&mut self, attributes: &Vec<String>)
        ensures
            final(self).record_name == old(self).record_name,
            final(self).attributes@ == arranged(old(self).attributes@, attributes@),
            final(self).events == old(self).events,
    {
        let mut sorted_attributes: Vec<AttributesRecord> = Vec::new();
        let mut i: usize = 0;
        while i < attributes.len()
            invariant
                i <= attributes.len(),
                *self == *old(self),
                sorted_attributes@ == arranged(self.attributes@, attributes@.take(i as int)),
            decreases attributes.len() - i,
        {
            proof {
                let longer = attributes@.take(i + 1);
                assert(longer.drop_last() == attributes@.take(i as int));
                assert(longer.last() == attributes@[i as int]);
            }
            match self.get_attribute(&attributes[i]) {
                Some(record) => {
                    sorted_attributes.push(record.clone());
                },
                None => {},
            }
            i += 1;
        }
        proof {
            assert(attributes@.take(i as int) == attributes@);
        }
        self.attributes = sorted_attributes;
    }

    /// Removes the first record of the given name and says whether there was
    /// one.
    pub fn remove_attribute(&mut self, attribute_name: &String) -> (r: bool)
        ensures
            r == lists(old(self).attributes@, attribute_name@),
            old(self).shrank(final(self), attribute_name@),
    {
        let i = self.position(attribute_name);
        if i < self.attributes.len() {
            self.attributes.remove(i);
            true
        } else {
            false
        }
    }
}

} // verus!
