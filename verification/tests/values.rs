use gameplay_attributes::attribute::{Attribute, AttributeEvent};
use gameplay_attributes::attribute_buff::{clone_buffs, AttributeBuff, BuffType};
use gameplay_attributes::attribute_buff_configuration::{
    IAttributeBuffConfiguration, TimedAttributeBuffConfiguration,
};
use gameplay_attributes::attribute_effect::AttributeEffect;
use gameplay_attributes::attribute_operation::{AttributeOperation, Operand};
use gameplay_attributes::scalar::{Primitive, Scalar};

fn ieee(primitive: Primitive, x: Scalar, y: Scalar) -> Scalar {
    let a = f64::from_bits(x.to_bits());
    let b = f64::from_bits(y.to_bits());
    let r = match primitive {
        Primitive::Sum => a + b,
        Primitive::Difference => a - b,
        Primitive::Product => a * b,
        Primitive::Quotient => a / b,
    };
    Scalar::from_bits(r.to_bits())
}

fn num(x: f64) -> Scalar {
    Scalar::from_bits(x.to_bits())
}

fn val(x: Scalar) -> f64 {
    f64::from_bits(x.to_bits())
}

fn buff(target: &str, buff_type: u8, duration: f64, operation: AttributeOperation) -> AttributeBuff {
    AttributeBuff {
        attribute_name: target.to_string(),
        buff_name: String::new(),
        buff_type,
        duration: num(duration),
        operation,
    }
}

fn named_buff(target: &str, name: &str, operation: AttributeOperation) -> AttributeBuff {
    AttributeBuff {
        attribute_name: target.to_string(),
        buff_name: name.to_string(),
        buff_type: 1,
        duration: num(0.0),
        operation,
    }
}

fn attribute(name: &str, initial: f64) -> Attribute {
    let mut a = Attribute::default();
    a.attribute_name = name.to_string();
    a.initial_value = num(initial);
    a.setup_underlying_value();
    a
}

const SAMPLES: [f64; 17] = [
    0.0,
    -0.0,
    1.0,
    -1.0,
    0.5,
    0.999_999_999_999_999_9,
    1.000_000_000_000_000_2,
    2.0,
    100.0,
    -100.0,
    f64::MIN_POSITIVE,
    5e-324,
    -5e-324,
    f64::MAX,
    f64::INFINITY,
    f64::NEG_INFINITY,
    f64::NAN,
];

#[test]
fn scalar_constants_are_the_numbers_they_name() {
    assert_eq!(val(Scalar::zero()), 0.0);
    assert_eq!(Scalar::zero().to_bits(), 0);
    assert_eq!(val(Scalar::one()), 1.0);
    assert_eq!(val(Scalar::hundred()), 100.0);
    assert_eq!(Scalar::from_bits(0x4059_0000_0000_0000).to_bits(), 100.0f64.to_bits());
}

#[test]
fn scalar_comparisons_agree_with_the_doubles() {
    for x in SAMPLES {
        let s = num(x);
        assert_eq!(s.is_nan(), x.is_nan(), "is_nan {x}");
        assert_eq!(s.is_zero(), x == 0.0, "is_zero {x}");
        assert_eq!(s.is_positive(), x > 0.0, "is_positive {x}");
        assert_eq!(s.at_most_zero(), x <= 0.0, "at_most_zero {x}");
        assert_eq!(s.at_least_one(), x >= 1.0, "at_least_one {x}");
        for y in SAMPLES {
            assert_eq!(s.same_number(&num(y)), x == y, "same_number {x} {y}");
        }
    }
}

#[test]
fn negative_nan_is_nan_and_compares_with_nothing() {
    let negative_nan = Scalar::from_bits(0xfff8_0000_0000_0001);
    assert!(negative_nan.is_nan());
    assert!(!negative_nan.at_most_zero());
    assert!(!negative_nan.is_positive());
    assert!(!negative_nan.at_least_one());
    assert!(!negative_nan.same_number(&negative_nan));
    assert_eq!(negative_nan, negative_nan);
}

#[test]
fn operand_codes() {
    assert_eq!(Operand::from(0), Operand::Add);
    assert_eq!(Operand::from(1), Operand::Divide);
    assert_eq!(Operand::from(2), Operand::Multiply);
    assert_eq!(Operand::from(3), Operand::Percentage);
    assert_eq!(Operand::from(4), Operand::Subtract);
    assert_eq!(Operand::from(5), Operand::Unknown);
    assert_eq!(Operand::from(255), Operand::Unknown);
}

#[test]
fn operation_constructors_set_code_and_value() {
    assert_eq!(AttributeOperation::add(num(1.5)).operand, 0);
    assert_eq!(AttributeOperation::divide(num(1.5)).operand, 1);
    assert_eq!(AttributeOperation::multiply(num(1.5)).operand, 2);
    assert_eq!(AttributeOperation::percentage(num(1.5)).operand, 3);
    assert_eq!(AttributeOperation::subtract(num(1.5)).operand, 4);
    assert_eq!(val(AttributeOperation::subtract(num(1.5)).value), 1.5);
}

#[test]
fn operations_compute_their_formulas() {
    assert_eq!(val(AttributeOperation::add(num(2.5)).operate(num(10.0), &ieee)), 12.5);
    assert_eq!(val(AttributeOperation::subtract(num(2.5)).operate(num(10.0), &ieee)), 7.5);
    assert_eq!(val(AttributeOperation::multiply(num(2.5)).operate(num(10.0), &ieee)), 25.0);
    assert_eq!(val(AttributeOperation::divide(num(4.0)).operate(num(10.0), &ieee)), 2.5);
    assert_eq!(val(AttributeOperation::percentage(num(15.0)).operate(num(200.0), &ieee)), 230.0);
    assert_eq!(
        val(AttributeOperation::percentage(num(7.0)).operate(num(33.0), &ieee)),
        33.0 + ((33.0 / 100.0) * 7.0)
    );
}

#[test]
fn an_unknown_operand_leaves_the_base() {
    let operation = AttributeOperation { operand: 9, value: num(3.0) };
    assert_eq!(val(operation.operate(num(10.0), &ieee)), 10.0);
}

#[test]
fn division_by_zero_is_not_trapped() {
    assert_eq!(val(AttributeOperation::divide(num(0.0)).operate(num(10.0), &ieee)), f64::INFINITY);
    assert_eq!(
        val(AttributeOperation::divide(num(0.0)).operate(num(-10.0), &ieee)),
        f64::NEG_INFINITY
    );
    assert!(AttributeOperation::divide(num(0.0)).operate(num(0.0), &ieee).is_nan());
}

#[test]
fn operations_are_equal_by_code_and_number() {
    assert!(AttributeOperation::add(num(1.0)) == AttributeOperation::add(num(1.0)));
    assert!(AttributeOperation::add(num(0.0)) == AttributeOperation::add(num(-0.0)));
    assert!(AttributeOperation::add(num(1.0)) != AttributeOperation::add(num(2.0)));
    assert!(AttributeOperation::add(num(1.0)) != AttributeOperation::subtract(num(1.0)));
    assert!(AttributeOperation::add(num(f64::NAN)) != AttributeOperation::add(num(f64::NAN)));
    let nothing = AttributeOperation { operand: 7, value: num(1.0) };
    let nothing_too = AttributeOperation { operand: 9, value: num(1.0) };
    assert!(nothing == nothing_too);
    assert!(nothing != AttributeOperation { operand: 4, value: num(1.0) });
}

#[test]
fn buff_type_codes() {
    assert_eq!(BuffType::from(0), BuffType::Immediate);
    assert_eq!(BuffType::from(1), BuffType::Persistent);
    assert_eq!(BuffType::from(2), BuffType::Immediate);
    assert_eq!(BuffType::from(200), BuffType::Immediate);
    assert_eq!(u8::from(BuffType::Immediate), 0);
    assert_eq!(u8::from(BuffType::Persistent), 1);
    let code: u8 = BuffType::Persistent.into();
    assert_eq!(code, 1);
}

#[test]
fn buffs_are_equal_by_target_and_operation() {
    let a = buff("health", 1, 2.0, AttributeOperation::add(num(5.0)));
    let mut b = buff("health", 0, 9.0, AttributeOperation::add(num(5.0)));
    b.buff_name = "other".to_string();
    assert!(a == b);
    assert!(a != buff("mana", 1, 2.0, AttributeOperation::add(num(5.0))));
    assert!(a != buff("health", 1, 2.0, AttributeOperation::add(num(6.0))));
    assert!(a != buff("health", 1, 2.0, AttributeOperation::multiply(num(5.0))));
}

#[test]
fn a_buff_operates_as_its_operation_does() {
    let b = buff("health", 0, 0.0, AttributeOperation::multiply(num(3.0)));
    assert_eq!(val(b.operate(num(7.0), &ieee)), 21.0);
    assert!(b.targets(&"health".to_string()));
    assert!(!b.targets(&"mana".to_string()));
}

#[test]
fn a_buff_is_persistent_by_its_type_and_timed_by_its_duration() {
    assert!(!buff("health", 0, 1.0, AttributeOperation::add(num(1.0))).is_persistent());
    assert!(buff("health", 1, 1.0, AttributeOperation::add(num(1.0))).is_persistent());
    assert!(!buff("health", 7, 1.0, AttributeOperation::add(num(1.0))).is_persistent());
    assert!(buff("health", 1, 0.25, AttributeOperation::add(num(1.0))).is_timed());
    assert!(!buff("health", 1, 0.0, AttributeOperation::add(num(1.0))).is_timed());
    assert!(!buff("health", 1, -1.0, AttributeOperation::add(num(1.0))).is_timed());
    assert!(!buff("health", 1, f64::NAN, AttributeOperation::add(num(1.0))).is_timed());
}

#[test]
fn a_cloned_buff_has_every_field() {
    let mut a = buff("health", 1, 2.5, AttributeOperation::percentage(num(5.0)));
    a.buff_name = "regeneration".to_string();
    let b = a.clone();
    assert_eq!(b.attribute_name, "health");
    assert_eq!(b.buff_name, "regeneration");
    assert_eq!(b.buff_type, 1);
    assert_eq!(val(b.duration), 2.5);
    assert_eq!(b.operation.operand, 3);
    assert_eq!(val(b.operation.value), 5.0);
    let copies = clone_buffs(&vec![a, b]);
    assert_eq!(copies.len(), 2);
    assert_eq!(copies[1].buff_name, "regeneration");
}

#[test]
fn default_values_are_empty_and_zero() {
    let operation = AttributeOperation::default();
    assert_eq!(operation.operand, 0);
    assert_eq!(operation.value.to_bits(), 0);
    let b = AttributeBuff::default();
    assert_eq!(b.attribute_name, "");
    assert_eq!(b.buff_name, "");
    assert_eq!(b.buff_type, 0);
    assert_eq!(b.duration.to_bits(), 0);
    assert!(b.operation == operation);
    assert!(AttributeEffect::default().buffs.is_empty());
    assert_eq!(TimedAttributeBuffConfiguration::default().time_duration.to_bits(), 0);
}

#[test]
fn an_effect_is_parted_by_duration() {
    let effect = AttributeEffect {
        buffs: vec![
            named_buff("health", "a", AttributeOperation::add(num(1.0))),
            buff("health", 1, 2.0, AttributeOperation::add(num(2.0))),
            buff("mana", 0, 0.0, AttributeOperation::add(num(3.0))),
            buff("mana", 1, 0.5, AttributeOperation::add(num(4.0))),
            buff("mana", 1, -1.0, AttributeOperation::add(num(5.0))),
            buff("mana", 1, -0.0, AttributeOperation::add(num(6.0))),
        ],
    };
    let instant = effect.get_instant_buffs();
    let values: Vec<f64> = instant.iter().map(|b| val(b.operation.value)).collect();
    assert_eq!(values, vec![1.0, 3.0, 6.0]);
    let timed = effect.get_timed_buffs();
    let values: Vec<f64> = timed.iter().map(|b| val(b.operation.value)).collect();
    assert_eq!(values, vec![2.0, 4.0]);
    assert_eq!(effect.buffs.len(), 6);
}

#[test]
fn effects_are_equal_buff_by_buff() {
    let one = AttributeEffect {
        buffs: vec![
            buff("health", 1, 1.0, AttributeOperation::add(num(1.0))),
            buff("mana", 1, 1.0, AttributeOperation::add(num(2.0))),
        ],
    };
    let same = AttributeEffect {
        buffs: vec![
            buff("health", 0, 5.0, AttributeOperation::add(num(1.0))),
            buff("mana", 0, 5.0, AttributeOperation::add(num(2.0))),
        ],
    };
    let reversed = AttributeEffect {
        buffs: vec![
            buff("mana", 1, 1.0, AttributeOperation::add(num(2.0))),
            buff("health", 1, 1.0, AttributeOperation::add(num(1.0))),
        ],
    };
    let shorter = AttributeEffect { buffs: vec![buff("health", 1, 1.0, AttributeOperation::add(num(1.0)))] };
    assert!(one == same);
    assert!(one != reversed);
    assert!(one != shorter);
    assert!(AttributeEffect { buffs: vec![] } == AttributeEffect { buffs: vec![] });
}

#[test]
fn a_timed_configuration_follows_its_duration() {
    let mut lasting = TimedAttributeBuffConfiguration { time_duration: num(1.5) };
    assert!(lasting.can_apply());
    assert!(!lasting.should_remove());
    lasting.on_apply();
    assert_eq!(val(lasting.time_duration), 1.5);
    let over = TimedAttributeBuffConfiguration { time_duration: num(0.0) };
    assert!(!over.can_apply());
    assert!(over.should_remove());
    let negative = TimedAttributeBuffConfiguration { time_duration: num(-2.0) };
    assert!(!negative.can_apply());
    assert!(negative.should_remove());
    let unknown = TimedAttributeBuffConfiguration { time_duration: num(f64::NAN) };
    assert!(!unknown.can_apply());
    assert!(!unknown.should_remove());
}

#[test]
fn the_default_attribute_is_empty_and_zero() {
    let a = Attribute::default();
    assert_eq!(a.attribute_name, "");
    assert!(a.attribute_buffs.is_empty());
    assert_eq!(a.current_value.to_bits(), 0);
    assert_eq!(a.initial_value.to_bits(), 0);
    assert_eq!(a.max_value.to_bits(), 0);
    assert_eq!(a.min_value.to_bits(), 0);
    assert_eq!(a.get_buffed_value(&ieee).to_bits(), 0);
    assert!(a.pending_events().is_empty());
}

#[test]
fn a_buff_for_another_attribute_is_refused() {
    let mut a = attribute("health", 10.0);
    a.add_buff(buff("health", 1, 0.0, AttributeOperation::add(num(1.0))), &ieee);
    a.take_events();
    for buff_type in [0u8, 1u8] {
        assert!(!a.add_buff(buff("mana", buff_type, 0.0, AttributeOperation::add(num(5.0))), &ieee));
        assert!(!a.can_receive_buff(&buff("mana", buff_type, 0.0, AttributeOperation::add(num(5.0)))));
        assert_eq!(a.attribute_buffs.len(), 1);
        assert_eq!(val(a.get_buffed_value(&ieee)), 11.0);
        assert!(a.pending_events().is_empty());
        assert_eq!(a.attribute_name, "health");
        assert_eq!(val(a.initial_value), 10.0);
    }
}

#[test]
fn persistent_buffs_fold_in_the_order_of_application() {
    let mut a = attribute("health", 10.0);
    assert!(a.add_buff(buff("health", 1, 0.0, AttributeOperation::subtract(num(3.0))), &ieee));
    assert!(a.add_buff(buff("health", 1, 0.0, AttributeOperation::multiply(num(2.0))), &ieee));
    assert_eq!(val(a.get_buffed_value(&ieee)), 14.0);

    let mut b = attribute("health", 10.0);
    assert!(b.add_buff(buff("health", 1, 0.0, AttributeOperation::multiply(num(2.0))), &ieee));
    assert!(b.add_buff(buff("health", 1, 0.0, AttributeOperation::subtract(num(3.0))), &ieee));
    assert_eq!(val(b.get_buffed_value(&ieee)), 17.0);
}

#[test]
fn a_persistent_buff_is_attached_at_the_tail_and_announced() {
    let mut a = attribute("health", 10.0);
    a.add_buff(buff("health", 1, 0.0, AttributeOperation::add(num(1.0))), &ieee);
    a.add_buff(buff("health", 1, 0.0, AttributeOperation::add(num(2.0))), &ieee);
    assert_eq!(a.attribute_buffs.len(), 2);
    assert_eq!(val(a.attribute_buffs[0].operation.value), 1.0);
    assert_eq!(val(a.attribute_buffs[1].operation.value), 2.0);
    let events = a.take_events();
    assert_eq!(events.len(), 2);
    assert!(matches!(&events[0], AttributeEvent::BuffAdded(b) if val(b.operation.value) == 1.0));
    assert!(matches!(&events[1], AttributeEvent::BuffAdded(b) if val(b.operation.value) == 2.0));
    assert!(a.pending_events().is_empty());
    a.clear_buffs();
    assert_eq!(val(a.get_buffed_value(&ieee)), 10.0);
}

#[test]
fn an_immediate_buff_changes_the_value_once_and_is_not_kept() {
    let mut a = attribute("health", 10.0);
    a.add_buff(buff("health", 1, 0.0, AttributeOperation::multiply(num(2.0))), &ieee);
    a.take_events();
    assert!(a.add_buff(buff("health", 0, 0.0, AttributeOperation::add(num(5.0))), &ieee));
    assert_eq!(a.attribute_buffs.len(), 1);
    assert_eq!(val(a.get_buffed_value(&ieee)), 30.0);
    let events = a.take_events();
    assert_eq!(events.len(), 1);
    assert!(matches!(
        &events[0],
        AttributeEvent::AttributeChanged { previous, current }
            if val(*previous) == 10.0 && val(*current) == 15.0
    ));
    a.clear_buffs();
    assert_eq!(val(a.get_buffed_value(&ieee)), 15.0);
}

#[test]
fn an_immediate_buff_that_changes_nothing_is_not_announced() {
    let mut a = attribute("health", 10.0);
    assert!(a.add_buff(buff("health", 0, 0.0, AttributeOperation::add(num(0.0))), &ieee));
    assert!(a.add_buff(buff("health", 0, 0.0, AttributeOperation::multiply(num(1.0))), &ieee));
    assert!(a.pending_events().is_empty());
    assert_eq!(val(a.get_buffed_value(&ieee)), 10.0);
}

#[test]
fn an_unknown_buff_type_is_immediate() {
    let mut a = attribute("health", 10.0);
    assert!(a.add_buff(buff("health", 9, 0.0, AttributeOperation::add(num(1.0))), &ieee));
    assert!(a.attribute_buffs.is_empty());
    assert_eq!(val(a.get_buffed_value(&ieee)), 11.0);
}

#[test]
fn adding_many_buffs_counts_those_that_are_taken() {
    let mut a = attribute("health", 10.0);
    let count = a.add_buffs(
        vec![
            buff("health", 1, 0.0, AttributeOperation::add(num(1.0))),
            buff("mana", 1, 0.0, AttributeOperation::add(num(2.0))),
            buff("health", 0, 0.0, AttributeOperation::add(num(3.0))),
            buff("health", 1, 0.0, AttributeOperation::multiply(num(2.0))),
        ],
        &ieee,
    );
    assert_eq!(count, 3);
    assert_eq!(a.attribute_buffs.len(), 2);
    assert_eq!(val(a.get_buffed_value(&ieee)), 28.0);
    assert_eq!(a.add_buffs(vec![], &ieee), 0);
}

#[test]
fn removing_takes_the_first_equal_buff() {
    let mut a = attribute("health", 10.0);
    a.add_buff(named_buff("health", "first", AttributeOperation::add(num(1.0))), &ieee);
    a.add_buff(named_buff("health", "second", AttributeOperation::multiply(num(2.0))), &ieee);
    a.add_buff(named_buff("health", "third", AttributeOperation::add(num(1.0))), &ieee);
    a.take_events();
    let wanted = buff("health", 0, 7.0, AttributeOperation::add(num(1.0)));
    assert!(a.has_buff(&wanted));
    assert!(a.remove_buff(&wanted));
    let names: Vec<&str> = a.attribute_buffs.iter().map(|b| b.buff_name.as_str()).collect();
    assert_eq!(names, vec!["second", "third"]);
    let events = a.take_events();
    assert_eq!(events.len(), 1);
    assert!(matches!(&events[0], AttributeEvent::BuffRemoved(b) if val(b.duration) == 7.0));
    assert!(a.remove_buff(&wanted));
    assert!(!a.has_buff(&wanted));
    assert!(!a.remove_buff(&wanted));
    assert_eq!(a.take_events().len(), 1);
    assert_eq!(a.attribute_buffs.len(), 1);
    assert!(!a.remove_buff(&buff("mana", 1, 0.0, AttributeOperation::multiply(num(2.0)))));
}

#[test]
fn removing_many_buffs_counts_those_that_were_found() {
    let mut a = attribute("health", 10.0);
    a.add_buff(buff("health", 1, 0.0, AttributeOperation::add(num(1.0))), &ieee);
    a.add_buff(buff("health", 1, 0.0, AttributeOperation::add(num(2.0))), &ieee);
    let count = a.remove_buffs(vec![
        buff("health", 1, 0.0, AttributeOperation::add(num(1.0))),
        buff("health", 1, 0.0, AttributeOperation::add(num(1.0))),
        buff("health", 1, 0.0, AttributeOperation::add(num(3.0))),
        buff("health", 1, 0.0, AttributeOperation::add(num(2.0))),
    ]);
    assert_eq!(count, 2);
    assert!(a.attribute_buffs.is_empty());
}

#[test]
fn removing_by_type_takes_every_buff_of_the_target_and_keeps_the_order_of_the_rest() {
    let mut a = attribute("health", 10.0);
    a.attribute_buffs = vec![
        named_buff("mana", "m1", AttributeOperation::add(num(1.0))),
        named_buff("health", "h1", AttributeOperation::add(num(2.0))),
        named_buff("stamina", "s1", AttributeOperation::add(num(3.0))),
        named_buff("health", "h2", AttributeOperation::multiply(num(4.0))),
        named_buff("health", "h3", AttributeOperation::subtract(num(5.0))),
        named_buff("mana", "m2", AttributeOperation::add(num(6.0))),
    ];
    let removed = a.remove_all_buffs_of_type(&buff("health", 0, 0.0, AttributeOperation::add(num(99.0))));
    assert_eq!(removed, 3);
    let names: Vec<&str> = a.attribute_buffs.iter().map(|b| b.buff_name.as_str()).collect();
    assert_eq!(names, vec!["m1", "s1", "m2"]);
    assert!(a.pending_events().is_empty());
    assert_eq!(a.remove_all_buffs_of_type(&buff("health", 0, 0.0, AttributeOperation::add(num(99.0)))), 0);
    assert_eq!(a.attribute_buffs.len(), 3);
}

#[test]
fn removing_by_type_clears_an_attribute_filled_through_add_buff() {
    let mut a = attribute("health", 10.0);
    for k in 0..5 {
        a.add_buff(buff("health", 1, 0.0, AttributeOperation::add(num(k as f64))), &ieee);
    }
    assert_eq!(a.remove_all_buffs_of_type(&buff("health", 1, 0.0, AttributeOperation::add(num(0.0)))), 5);
    assert!(a.attribute_buffs.is_empty());
}

#[test]
fn setting_up_discards_what_immediate_buffs_did() {
    let mut a = attribute("health", 10.0);
    a.add_buff(buff("health", 0, 0.0, AttributeOperation::add(num(5.0))), &ieee);
    assert_eq!(val(a.get_buffed_value(&ieee)), 15.0);
    a.setup_underlying_value();
    assert_eq!(val(a.get_buffed_value(&ieee)), 10.0);
}

#[test]
fn attributes_are_equal_by_name() {
    let a = attribute("health", 10.0);
    let b = attribute("health", 99.0);
    let c = attribute("mana", 10.0);
    assert!(a == b);
    assert!(a != c);
    assert_eq!(a.name(), "health");
}

#[test]
fn a_buff_with_an_unknown_magnitude_cannot_be_found_again() {
    let mut a = attribute("health", 10.0);
    let odd = buff("health", 1, 0.0, AttributeOperation::add(num(f64::NAN)));
    a.add_buff(odd.clone(), &ieee);
    assert!(!a.has_buff(&odd));
    assert!(!a.remove_buff(&odd));
    assert!(a.get_buffed_value(&ieee).is_nan());
}
