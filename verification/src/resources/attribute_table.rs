//! A table: the names of its attributes and its rows.

use vstd::prelude::*;
use vstd::multiset::Multiset;
use crate::resources::attributes_table_record::AttributeTableRecord;
use crate::resources::name_order::{
    ascending,
    lemma_precedes_irreflexive,
    lemma_precedes_transitive,
    name_precedes,
    precedes,
};
use crate::search::{first_index, lemma_first_index_is};

verus! {

/// What a table announces to its observers.
#[derive(Debug)]
pub enum TableEvent {
    /// An attribute was defined.
    AttributeDefined(String),
    /// An attribute was deleted.
    AttributeDeleted(String),
    /// The names of the attributes were sorted.
    AttributeSorted,
}

/// A table: the names of its attributes, its rows, and the events it raised
/// and nobody took yet.
#[derive(Debug)]
pub struct AttributeTable {
    pub attributes: Vec<String>,
    pub records: Vec<AttributeTableRecord>,
    pub events: Vec<TableEvent>,
}

/// The names that read as `name` does.
pub open spec fn reading(name: Seq<char>) -> spec_fn(String) -> bool {
    |other: String| other@ == name
}

/// Some name of `names` reads as `name` does.
pub open spec fn defines(names: Seq<String>, name: Seq<char>) -> bool {
    first_index(names, reading(name)) < names.len()
}

/// The rows of the given name.
pub open spec fn titled(name: Seq<char>) -> spec_fn(AttributeTableRecord) -> bool {
    |record: AttributeTableRecord| record.record_name@ == name
}

impl Default for AttributeTable {
    /// An empty table.
    fn default() -> (r: AttributeTable)
        ensures
            r.attributes@.len() == 0,
            r.records@.len() == 0,
            r.events@.len() == 0,
    {
        AttributeTable::new()
    }
}

impl AttributeTable {
    /// An empty table.
    pub fn new() -> (r: AttributeTable)
        ensures
            r.attributes@.len() == 0,
            r.records@.len() == 0,
            r.events@.len() == 0,
    {
        AttributeTable { attributes: Vec::new(), records: Vec::new(), events: Vec::new() }
    }

    /// The index of the first name that reads as `attribute_name` does, or
    /// the number of names if there is none.
    pub fn position(&self, attribute_name: &String) -> (r: usize)
        ensures
            r == first_index(self.attributes@, reading(attribute_name@)),
            r <= self.attributes.len(),
    {
        let mut i: usize = 0;
        while i < self.attributes.len()
            invariant
                i <= self.attributes.len(),
                forall|j: int| 0 <= j < i ==> (#[trigger] self.attributes@[j])@ != attribute_name@,
            decreases self.attributes.len() - i,
        {
            if self.attributes[i] == *attribute_name {
                proof {
                    lemma_first_index_is(self.attributes@, reading(attribute_name@), i as int);
                }
                return i;
            }
            i += 1;
        }
        proof {
            lemma_first_index_is(self.attributes@, reading(attribute_name@), i as int);
        }
        i
    }

    /// Defines an attribute, unless the table has one of that name: puts the
    /// name behind the others, creates a record for it in every row, and
    /// announces it. Says whether it did.
    pub fn add_attribute(&mut self, attribute_name: String) -> (r: bool)
        ensures
            r == !defines(old(self).attributes@, attribute_name@),
            !r ==> *final(self) == *old(self),
            r ==> {
                &&& final(self).attributes@ == old(self).attributes@.push(attribute_name)
                &&& final(self).records@.len() == old(self).records@.len()
                &&& forall|j: int|
                    0 <= j < old(self).records@.len() ==> (#[trigger] old(self).records@[j]).grew(
                        &final(self).records@[j],
                        attribute_name,
                    )
                &&& final(self).events@ == old(self).events@.push(
                    TableEvent::AttributeDefined(attribute_name),
                )
            },
    {
        if self.position(&attribute_name) < self.attributes.len() {
            return false;
        }
        self.attributes.push(attribute_name.clone());
        let mut i: usize = 0;
        while i < self.records.len()
            invariant
                i <= self.records.len(),
                self.records.len() == old(self).records.len(),
                self.attributes@ == old(self).attributes@.push(attribute_name),
                self.events == old(self).events,
                forall|j: int|
                    0 <= j < i ==> (#[trigger] old(self).records@[j]).grew(
                        &self.records@[j],
                        attribute_name,
                    ),
                forall|j: int|
                    i <= j < self.records.len() ==> (#[trigger] self.records@[j]) == old(
                        self,
                    ).records@[j],
            decreases self.records.len() - i,
        {
            self.records[i].create_attribute(attribute_name.clone());
            i += 1;
        }
        self.events.push(TableEvent::AttributeDefined(attribute_name));
        true
    }

    /// Makes sure that every row has a record for each of the names, in the
    /// order of the names, and then sorts the table's own names.
    pub fn ensure_attributes(&mut self, attributes: &Vec<String>)
        ensures
            final(self).records@.len() == old(self).records@.len(),
            forall|j: int|
                0 <= j < old(self).records@.len() ==> (#[trigger] old(self).records@[j]).ensured(
                    &final(self).records@[j],
                    attributes@,
                ),
            ascending(final(self).attributes@),
            final(self).attributes@.to_multiset() == old(self).attributes@.to_multiset(),
            final(self).events@ == old(self).events@.push(TableEvent::AttributeSorted),
    {
        let mut i: usize = 0;
        while i < self.records.len()
            invariant
                i <= self.records.len(),
                self.records.len() == old(self).records.len(),
                self.attributes == old(self).attributes,
                self.events == old(self).events,
                forall|j: int|
                    0 <= j < i ==> (#[trigger] old(self).records@[j]).ensured(
                        &self.records@[j],
                        attributes@,
                    ),
                forall|j: int|
                    i <= j < self.records.len() ==> (#[trigger] self.records@[j]) == old(
                        self,
                    ).records@[j],
            decreases self.records.len() - i,
        {
            self.records[i].ensure_attributes(attributes);
            i += 1;
        }
        self.sort_attributes();
    }

    /// Whether the table has a row of the given name.
    pub fn has_record(&self, record_name: &String) -> (r: bool)
        ensures
            r == (first_index(self.records@, titled(record_name@)) < self.records@.len()),
            r <==> exists|j: int|
                0 <= j < self.records@.len() && (#[trigger] self.records@[j]).record_name@
                    == record_name@,
    {
        let mut i: usize = 0;
        while i < self.records.len()
            invariant
                i <= self.records.len(),
                forall|j: int|
                    0 <= j < i ==> (#[trigger] self.records@[j]).record_name@ != record_name@,
            decreases self.records.len() - i,
        {
            if self.records[i].record_name == *record_name {
                proof {
                    lemma_first_index_is(self.records@, titled(record_name@), i as int);
                }
                return true;
            }
            i += 1;
        }
        proof {
            lemma_first_index_is(self.records@, titled(record_name@), i as int);
        }
        false
    }

    /// Deletes the attribute of the given name, if the table has one: takes
    /// the first such name off, removes the first record of that name from
    /// every row, and announces it. Says whether it did.
    pub fn remove_attribute(&mut self, attribute_name: &String) -> (r: bool)
        ensures
            r == defines(old(self).attributes@, attribute_name@),
            !r ==> *final(self) == *old(self),
            r ==> {
                &&& final(self).attributes@ == old(self).attributes@.remove(
                    first_index(old(self).attributes@, reading(attribute_name@)),
                )
                &&& final(self).records@.len() == old(self).records@.len()
                &&& forall|j: int|
                    0 <= j < old(self).records@.len() ==> (#[trigger] old(self).records@[j]).shrank(
                        &final(self).records@[j],
                        attribute_name@,
                    )
                &&& final(self).events@ == old(self).events@.push(
                    TableEvent::AttributeDeleted(*attribute_name),
                )
            },
    {
        let index = self.position(attribute_name);
        if index >= self.attributes.len() {
            return false;
        }
        self.attributes.remove(index);
        let mut i: usize = 0;
        while i < self.records.len()
            invariant
                i <= self.records.len(),
                self.records.len() == old(self).records.len(),
                self.attributes@ == old(self).attributes@.remove(index as int),
                self.events == old(self).events,
                forall|j: int|
                    0 <= j < i ==> (#[trigger] old(self).records@[j]).shrank(
                        &self.records@[j],
                        attribute_name@,
                    ),
                forall|j: int|
                    i <= j < self.records.len() ==> (#[trigger] self.records@[j]) == old(
                        self,
                    ).records@[j],
            decreases self.records.len() - i,
        {
            self.records[i].remove_attribute(attribute_name);
            i += 1;
        }
        self.events.push(TableEvent::AttributeDeleted(attribute_name.clone()));
        true
    }

    /// Sorts the names of the attributes in ascending order and announces
    /// it.
    pub fn sort_attributes(&mut self)
        ensures
            ascending(final(self).attributes@),
            final(self).attributes@.to_multiset() == old(self).attributes@.to_multiset(),
            final(self).records == old(self).records,
            final(self).events@ == old(self).events@.push(TableEvent::AttributeSorted),
    {
        let mut sorted: Vec<String> = Vec::new();
        let ghost all = self.attributes@.to_multiset();
        proof {
            assert(sorted@.to_multiset() =~= Multiset::<String>::empty()) by {
                broadcast use vstd::seq_lib::group_to_multiset_ensures;

            }
            assert(self.attributes@.to_multiset().add(sorted@.to_multiset()) =~= all);
        }
        while self.attributes.len() > 0
            invariant
                self.records == old(self).records,
                self.events == old(self).events,
                all == old(self).attributes@.to_multiset(),
                ascending(sorted@),
                self.attributes@.to_multiset().add(sorted@.to_multiset()) == all,
            decreases self.attributes.len(),
        {
            let ghost left = self.attributes@;
            let ghost done = sorted@;
            let name = self.attributes.pop().unwrap();
            let mut place: usize = 0;
            while place < sorted.len() && !name_precedes(&name, &sorted[place])
                invariant
                    place <= sorted.len(),
                    forall|j: int| 0 <= j < place ==> !precedes(name@, (#[trigger] sorted@[j])@),
                decreases sorted.len() - place,
            {
                place += 1;
            }
            sorted.insert(place, name);
            proof {
                assert forall|i: int, j: int| 0 <= i < j < sorted@.len() implies !precedes(
                    (#[trigger] sorted@[j])@,
                    (#[trigger] sorted@[i])@,
                ) by {
                    if j == place {
                        assert(sorted@[i] == done[i]);
                    } else if i == place {
                        assert(sorted@[j] == done[j - 1]);
                        if precedes(done[j - 1]@, name@) {
                            lemma_precedes_transitive(done[j - 1]@, name@, done[place as int]@);
                            if j - 1 == place {
                                lemma_precedes_irreflexive(done[place as int]@);
                            }
                        }
                    } else {
                        let a = if i < place {
                            i
                        } else {
                            i - 1
                        };
                        let b = if j < place {
                            j
                        } else {
                            j - 1
                        };
                        assert(sorted@[i] == done[a]);
                        assert(sorted@[j] == done[b]);
                    }
                }
                vstd::seq_lib::to_multiset_insert(done, place as int, name);
                assert(left == self.attributes@.push(name));
                vstd::seq_lib::to_multiset_build(self.attributes@, name);
                assert(self.attributes@.to_multiset().add(sorted@.to_multiset()) =~= all);
            }
        }
        proof {
            assert(self.attributes@.to_multiset() =~= Multiset::<String>::empty()) by {
                broadcast use vstd::seq_lib::group_to_multiset_ensures;

            }
            assert(sorted@.to_multiset() =~= all);
        }
        self.attributes = sorted;
        self.events.push(TableEvent::AttributeSorted);
    }
}

} // verus!
