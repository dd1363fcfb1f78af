use gameplay_attributes::resources::attribute_table::{AttributeTable, TableEvent};
use gameplay_attributes::resources::attributes_record::AttributesRecord;
use gameplay_attributes::resources::attributes_table_record::{AttributeTableRecord, RecordEvent};
use gameplay_attributes::resources::name_order::name_precedes;
use gameplay_attributes::scalar::Scalar;

fn number(x: f64) -> Scalar {
    Scalar::from_bits(x.to_bits())
}

fn names(list: &[&str]) -> Vec<String> {
    list.iter().map(|s| s.to_string()).collect()
}

fn record_names(row: &AttributeTableRecord) -> Vec<String> {
    row.attributes.iter().map(|r| r.attribute_name.clone()).collect()
}

fn row(name: &str, attributes: &[&str]) -> AttributeTableRecord {
    let mut r = AttributeTableRecord::new(name.to_string());
    for a in attributes {
        r.create_attribute(a.to_string());
    }
    r.events.clear();
    r
}

#[test]
fn default_tables_are_empty() {
    let record = AttributesRecord::default();
    assert_eq!(record.attribute_name, "");
    assert_eq!(record.initial_value.to_bits(), 0);
    let row = AttributeTableRecord::default();
    assert_eq!(row.record_name, "");
    assert!(row.attributes.is_empty());
    let table = AttributeTable::default();
    assert!(table.attributes.is_empty());
    assert!(table.records.is_empty());
    assert!(table.events.is_empty());
}

#[test]
fn a_fresh_record_has_its_name_and_zero_values() {
    let r = AttributesRecord::new("health".to_string());
    assert_eq!(r.attribute_name, "health");
    assert_eq!(r.initial_value.to_bits(), 0);
    assert_eq!(r.min_value.to_bits(), 0);
    assert_eq!(r.max_value.to_bits(), 0);
}

#[test]
fn records_are_equal_by_name_and_numbers() {
    let mut a = AttributesRecord::new("health".to_string());
    a.initial_value = number(1.0);
    let mut b = a.clone();
    assert!(a == b);
    b.min_value = number(-0.0);
    assert!(a == b);
    b.max_value = number(2.0);
    assert!(a != b);
    let c = AttributesRecord::new("mana".to_string());
    assert!(AttributesRecord::new("health".to_string()) != c);
    let mut d = AttributesRecord::new("health".to_string());
    d.initial_value = number(f64::NAN);
    assert!(d != d.clone());
}

#[test]
fn creating_a_record_puts_it_last_and_announces_it() {
    let mut r = AttributeTableRecord::new("warrior".to_string());
    r.create_attribute("health".to_string());
    r.create_attribute("mana".to_string());
    assert_eq!(r.record_name, "warrior");
    assert_eq!(record_names(&r), names(&["health", "mana"]));
    assert_eq!(r.events.len(), 2);
    assert!(matches!(&r.events[1], RecordEvent::AttributeAdded(a) if a.attribute_name == "mana"));
}

#[test]
fn getting_a_record_finds_the_first_of_its_name() {
    let mut r = row("warrior", &["health", "mana", "health"]);
    r.attributes[0].initial_value = number(1.0);
    r.attributes[2].initial_value = number(2.0);
    let found = r.get_attribute(&"health".to_string()).unwrap();
    assert_eq!(found.initial_value, number(1.0));
    assert!(r.get_attribute(&"stamina".to_string()).is_none());
    assert_eq!(r.position(&"mana".to_string()), 1);
    assert_eq!(r.position(&"stamina".to_string()), 3);
}

#[test]
fn ensuring_creates_the_missing_records_and_arranges_all() {
    let mut r = row("warrior", &["mana", "luck", "health"]);
    r.attributes[0].initial_value = number(5.0);
    r.ensure_attributes(&names(&["health", "stamina", "mana"]));
    assert_eq!(record_names(&r), names(&["health", "stamina", "mana"]));
    assert_eq!(r.attributes[2].initial_value, number(5.0));
    assert_eq!(r.events.len(), 1);
    assert!(matches!(&r.events[0], RecordEvent::AttributeAdded(a) if a.attribute_name == "stamina"));
}

#[test]
fn ensuring_a_name_twice_lists_its_record_twice() {
    let mut r = row("warrior", &[]);
    r.ensure_attributes(&names(&["health", "health"]));
    assert_eq!(record_names(&r), names(&["health", "health"]));
    assert_eq!(r.events.len(), 1);
}

#[test]
fn sorting_a_row_follows_the_names_and_drops_the_rest() {
    let mut r = row("warrior", &["a", "b", "c"]);
    r.sort_attributes(&names(&["c", "x", "a"]));
    assert_eq!(record_names(&r), names(&["c", "a"]));
    assert!(r.events.is_empty());
    r.sort_attributes(&names(&[]));
    assert!(r.attributes.is_empty());
}

#[test]
fn removing_a_record_takes_the_first_of_its_name() {
    let mut r = row("warrior", &["a", "b", "a"]);
    r.attributes[2].initial_value = number(2.0);
    assert!(r.remove_attribute(&"a".to_string()));
    assert_eq!(record_names(&r), names(&["b", "a"]));
    assert_eq!(r.attributes[1].initial_value, number(2.0));
    assert!(!r.remove_attribute(&"z".to_string()));
    assert_eq!(r.attributes.len(), 2);
}

#[test]
fn defining_an_attribute_reaches_every_row() {
    let mut t = AttributeTable::new();
    t.records.push(row("warrior", &["health"]));
    t.records.push(row("mage", &[]));
    assert!(t.add_attribute("mana".to_string()));
    assert_eq!(t.attributes, names(&["mana"]));
    assert_eq!(record_names(&t.records[0]), names(&["health", "mana"]));
    assert_eq!(record_names(&t.records[1]), names(&["mana"]));
    assert_eq!(t.records[1].events.len(), 1);
    assert_eq!(t.events.len(), 1);
    assert!(matches!(&t.events[0], TableEvent::AttributeDefined(n) if n == "mana"));
    assert!(!t.add_attribute("mana".to_string()));
    assert_eq!(t.attributes.len(), 1);
    assert_eq!(record_names(&t.records[1]), names(&["mana"]));
    assert_eq!(t.events.len(), 1);
    assert_eq!(t.position(&"mana".to_string()), 0);
    assert_eq!(t.position(&"health".to_string()), 1);
}

#[test]
fn deleting_an_attribute_reaches_every_row() {
    let mut t = AttributeTable::new();
    t.attributes = names(&["health", "mana"]);
    t.records.push(row("warrior", &["health", "mana"]));
    t.records.push(row("mage", &["mana"]));
    assert!(!t.remove_attribute(&"luck".to_string()));
    assert!(t.events.is_empty());
    assert!(t.remove_attribute(&"mana".to_string()));
    assert_eq!(t.attributes, names(&["health"]));
    assert_eq!(record_names(&t.records[0]), names(&["health"]));
    assert!(t.records[1].attributes.is_empty());
    assert_eq!(t.events.len(), 1);
    assert!(matches!(&t.events[0], TableEvent::AttributeDeleted(n) if n == "mana"));
}

#[test]
fn a_table_knows_its_rows_by_name() {
    let mut t = AttributeTable::new();
    assert!(!t.has_record(&"warrior".to_string()));
    t.records.push(row("warrior", &[]));
    assert!(t.has_record(&"warrior".to_string()));
    assert!(!t.has_record(&"mage".to_string()));
}

#[test]
fn sorting_a_table_orders_its_names_by_code_point() {
    let mut t = AttributeTable::new();
    t.attributes = names(&["mana", "Zeal", "health", "", "man", "health", "\u{e9}lan", "zeal"]);
    t.sort_attributes();
    let mut expected = names(&["mana", "Zeal", "health", "", "man", "health", "\u{e9}lan", "zeal"]);
    expected.sort();
    assert_eq!(t.attributes, expected);
    assert_eq!(t.attributes, names(&["", "Zeal", "health", "health", "man", "mana", "zeal", "\u{e9}lan"]));
    assert_eq!(t.events.len(), 1);
    assert!(matches!(&t.events[0], TableEvent::AttributeSorted));
}

#[test]
fn ensuring_a_table_ensures_every_row_and_sorts_the_names() {
    let mut t = AttributeTable::new();
    t.attributes = names(&["mana", "health"]);
    t.records.push(row("warrior", &["luck"]));
    t.records.push(row("mage", &["mana"]));
    t.ensure_attributes(&names(&["mana", "health"]));
    assert_eq!(t.attributes, names(&["health", "mana"]));
    assert_eq!(record_names(&t.records[0]), names(&["mana", "health"]));
    assert_eq!(record_names(&t.records[1]), names(&["mana", "health"]));
    assert_eq!(t.records[0].events.len(), 2);
    assert_eq!(t.records[1].events.len(), 1);
    assert_eq!(t.events.len(), 1);
}

#[test]
fn names_are_ordered_as_strings_are() {
    let samples = ["", "a", "ab", "b", "B", "\u{e9}", "z", "\u{1F600}", "ab\u{0}", "abc"];
    for x in samples {
        for y in samples {
            assert_eq!(name_precedes(&x.to_string(), &y.to_string()), x < y, "{x:?} {y:?}");
        }
    }
}
