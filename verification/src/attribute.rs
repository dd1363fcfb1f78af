//! A named scalar with its own value and an ordered stack of attached buffs.

use vstd::prelude::*;
use crate::attribute_buff::{AttributeBuff, clone_buffs};
use crate::attribute_dictionary::{AttributeFields, EntryView, FieldsView};
use crate::scalar::{Arithmetic, Primitive, Scalar, arithmetic_of, total};
use crate::search::{
    first_index,
    lemma_filter_keeps_order,
    lemma_filter_partition,
    lemma_first_index,
    lemma_first_index_is,
    place_after_filter,
};

verus! {

/// What an attribute announces to its observers.
#[derive(Debug)]
pub enum AttributeEvent {
    /// The attribute's own value went from `previous` to `current`.
    AttributeChanged { previous: Scalar, current: Scalar },
    /// A persistent buff was attached.
    BuffAdded(AttributeBuff),
    /// An attached buff was taken off.
    BuffRemoved(AttributeBuff),
}

impl Clone for AttributeEvent {
    fn clone(&self) -> (r: AttributeEvent)
        ensures
            r == *self,
    {
        match self {
            AttributeEvent::AttributeChanged { previous, current } => {
                AttributeEvent::AttributeChanged { previous: *previous, current: *current }
            },
            AttributeEvent::BuffAdded(buff) => AttributeEvent::BuffAdded(buff.clone()),
            AttributeEvent::BuffRemoved(buff) => AttributeEvent::BuffRemoved(buff.clone()),
        }
    }
}

/// An attribute. Its own value is private: it is seeded from `initial_value`
/// and changed by immediate buffs only. The attached buffs are folded over it,
/// in the order in which they were attached, on every reading.
#[derive(Debug)]
pub struct Attribute {
    /// The attached buffs, oldest first.
    pub attribute_buffs: Vec<AttributeBuff>,
    pub attribute_name: String,
    /// A value that is kept for the host: it is stored and restored with the
    /// attribute, and nothing else reads or changes it.
    pub current_value: Scalar,
    pub initial_value: Scalar,
    pub max_value: Scalar,
    pub min_value: Scalar,
    underlying_value: Scalar,
    events: Vec<AttributeEvent>,
}

/// An attribute as the contracts see it.
pub ghost struct AttributeView {
    /// The attached buffs, oldest first.
    pub buffs: Seq<AttributeBuff>,
    pub name: Seq<char>,
    pub current_value: Scalar,
    pub initial_value: Scalar,
    pub max_value: Scalar,
    pub min_value: Scalar,
    /// The attribute's own value, before any attached buff.
    pub underlying_value: Scalar,
    /// The events raised and not yet taken, oldest first.
    pub events: Seq<AttributeEvent>,
}

/// `result` is a value that folding the operations of `buffs`, first to last,
/// over `seed` may give under the arithmetic.
pub open spec fn folds(
    arithmetic: Arithmetic,
    buffs: Seq<AttributeBuff>,
    seed: Scalar,
    result: Scalar,
) -> bool
    decreases buffs.len(),
{
    if buffs.len() == 0 {
        result == seed
    } else {
        exists|before: Scalar|
            folds(arithmetic, buffs.drop_last(), seed, before)
                && #[trigger] buffs.last().operation.gives(arithmetic, before, result)
    }
}

/// The buffs that equal `buff`.
pub open spec fn equal_to(buff: AttributeBuff) -> spec_fn(AttributeBuff) -> bool {
    |b: AttributeBuff| b.same_as(&buff)
}

/// The index of the first buff of `buffs` that equals `buff`, or the length
/// of `buffs` if there is none.
pub open spec fn first_match(buffs: Seq<AttributeBuff>, buff: AttributeBuff) -> int {
    first_index(buffs, equal_to(buff))
}

/// The buffs that target the attribute of the given name.
pub open spec fn targeting(name: Seq<char>) -> spec_fn(AttributeBuff) -> bool {
    |b: AttributeBuff| b.attribute_name@ == name
}

/// The buffs that target another attribute than the one of the given name.
pub open spec fn not_targeting(name: Seq<char>) -> spec_fn(AttributeBuff) -> bool {
    |b: AttributeBuff| b.attribute_name@ != name
}

/// Taking off every buff that targets one attribute takes off exactly as many
/// buffs as target it, leaves none of them, and keeps the others in their
/// order: of two buffs that stay, the earlier still stands before the later.
pub proof fn lemma_removal_by_type(buffs: Seq<AttributeBuff>, name: Seq<char>)
    ensures
        buffs.len() - buffs.filter(not_targeting(name)).len() == buffs.filter(
            targeting(name),
        ).len(),
        forall|k: int|
            0 <= k < buffs.filter(not_targeting(name)).len() ==> (#[trigger] buffs.filter(
                not_targeting(name),
            )[k]).attribute_name@ != name,
        forall|first: int, second: int|
            #![trigger buffs[first], buffs[second]]
            0 <= first < second < buffs.len() && buffs[first].attribute_name@ != name
                && buffs[second].attribute_name@ != name ==> {
                let kept = buffs.filter(not_targeting(name));
                let earlier = place_after_filter(buffs, not_targeting(name), first);
                let later = place_after_filter(buffs, not_targeting(name), second);
                0 <= earlier < later < kept.len() && kept[earlier] == buffs[first] && kept[later]
                    == buffs[second]
            },
{
    lemma_filter_partition(buffs, not_targeting(name), targeting(name));
    assert forall|k: int| 0 <= k < buffs.filter(not_targeting(name)).len() implies (
    #[trigger] buffs.filter(not_targeting(name))[k]).attribute_name@ != name by {
        buffs.lemma_filter_pred(not_targeting(name), k);
    }
    assert forall|first: int, second: int|
        #![trigger buffs[first], buffs[second]]
        0 <= first < second < buffs.len() && buffs[first].attribute_name@ != name
            && buffs[second].attribute_name@ != name implies {
        let kept = buffs.filter(not_targeting(name));
        let earlier = place_after_filter(buffs, not_targeting(name), first);
        let later = place_after_filter(buffs, not_targeting(name), second);
        0 <= earlier < later < kept.len() && kept[earlier] == buffs[first] && kept[later]
            == buffs[second]
    } by {
        lemma_filter_keeps_order(buffs, not_targeting(name), first, second);
    }
}

impl AttributeView {
    /// The buff targets this attribute.
    pub open spec fn accepts(self, buff: AttributeBuff) -> bool {
        buff.attribute_name@ == self.name
    }

    /// The attribute after an immediate buff whose operation gave
    /// `candidate`: if that is another number than the attribute's own value,
    /// it becomes the value and the change is announced; otherwise nothing
    /// changes. The buff is not kept.
    pub open spec fn settle(self, candidate: Scalar) -> AttributeView {
        if candidate.spec_same_number(&self.underlying_value) {
            self
        } else {
            AttributeView {
                underlying_value: candidate,
                events: self.events.push(
                    AttributeEvent::AttributeChanged {
                        previous: self.underlying_value,
                        current: candidate,
                    },
                ),
                ..self
            }
        }
    }

    /// The attribute after `buff` was attached behind the buffs already
    /// there, and announced.
    pub open spec fn attach(self, buff: AttributeBuff) -> AttributeView {
        AttributeView {
            buffs: self.buffs.push(buff),
            events: self.events.push(AttributeEvent::BuffAdded(buff)),
            ..self
        }
    }

    /// `post` is a state that applying `buff` may lead to under the
    /// arithmetic: unchanged where the buff targets another attribute, with
    /// the buff attached where it is persistent, and else with the buff's
    /// operation applied once to the attribute's own value.
    pub open spec fn received(
        self,
        post: AttributeView,
        buff: AttributeBuff,
        arithmetic: Arithmetic,
    ) -> bool {
        if !self.accepts(buff) {
            post == self
        } else if buff.persistent() {
            post == self.attach(buff)
        } else {
            exists|candidate: Scalar| #[trigger]
                buff.operation.gives(arithmetic, self.underlying_value, candidate) && post
                    == self.settle(candidate)
        }
    }

    /// The fields under which the attribute is stored: its name, its current,
    /// initial, largest and least value, and its attached buffs. Its own value
    /// and its pending events are not stored.
    pub open spec fn fields(self) -> FieldsView {
        FieldsView {
            attribute_name: Some(self.name),
            attribute_value: Some(self.current_value),
            initial_value: Some(self.initial_value),
            max_value: Some(self.max_value),
            min_value: Some(self.min_value),
            buffs: Some(self.buffs),
        }
    }

    /// The attribute that a stored entry stands for. Its name is the key of
    /// the entry. A value that is missing is zero, missing buffs are none. Its
    /// own value is seeded from its initial value, and no event is pending.
    pub open spec fn restored(entry: EntryView) -> AttributeView {
        let zero = Scalar { bits: 0 };
        match entry.value {
            Some(fields) => AttributeView {
                buffs: match fields.buffs {
                    Some(buffs) => buffs,
                    None => Seq::empty(),
                },
                name: entry.key,
                current_value: match fields.attribute_value {
                    Some(value) => value,
                    None => zero,
                },
                initial_value: match fields.initial_value {
                    Some(value) => value,
                    None => zero,
                },
                max_value: match fields.max_value {
                    Some(value) => value,
                    None => zero,
                },
                min_value: match fields.min_value {
                    Some(value) => value,
                    None => zero,
                },
                underlying_value: match fields.initial_value {
                    Some(value) => value,
                    None => zero,
                },
                events: Seq::empty(),
            },
            None => AttributeView {
                buffs: Seq::empty(),
                name: entry.key,
                current_value: zero,
                initial_value: zero,
                max_value: zero,
                min_value: zero,
                underlying_value: zero,
                events: Seq::empty(),
            },
        }
    }

    /// `post` is a state that applying `buffs`, one after the other, may lead
    /// to under the arithmetic.
    pub open spec fn received_all(
        self,
        post: AttributeView,
        buffs: Seq<AttributeBuff>,
        arithmetic: Arithmetic,
    ) -> bool
        decreases buffs.len(),
    {
        if buffs.len() == 0 {
            post == self
        } else {
            exists|before: AttributeView|
                self.received_all(before, buffs.drop_last(), arithmetic)
                    && #[trigger] before.received(post, buffs.last(), arithmetic)
        }
    }

    /// Some attached buff equals `buff`.
    pub open spec fn holds(self, buff: AttributeBuff) -> bool {
        first_match(self.buffs, buff) < self.buffs.len()
    }

    /// The attribute after the first buff equal to `buff`, if there is one,
    /// was taken off and the removal of `buff` announced.
    pub open spec fn release(self, buff: AttributeBuff) -> AttributeView {
        let index = first_match(self.buffs, buff);
        if index < self.buffs.len() {
            AttributeView {
                buffs: self.buffs.remove(index),
                events: self.events.push(AttributeEvent::BuffRemoved(buff)),
                ..self
            }
        } else {
            self
        }
    }

    /// The attribute after each of `buffs`, one after the other, was
    /// released.
    pub open spec fn release_all(self, buffs: Seq<AttributeBuff>) -> AttributeView
        decreases buffs.len(),
    {
        if buffs.len() == 0 {
            self
        } else {
            self.release_all(buffs.drop_last()).release(buffs.last())
        }
    }

    /// How many of `buffs`, released one after the other, were found
    /// attached.
    pub open spec fn count_released(self, buffs: Seq<AttributeBuff>) -> nat
        decreases buffs.len(),
    {
        if buffs.len() == 0 {
            0
        } else {
            let found: nat = if self.release_all(buffs.drop_last()).holds(buffs.last()) {
                1
            } else {
                0
            };
            self.count_released(buffs.drop_last()) + found
        }
    }
}

/// An immediate buff never comes to stand among the attached buffs. The
/// attribute that received it has the buffs it had; and where the buff
/// targets the attribute, its own value is what the buff's operation gives,
/// applied once, on the value it had, or the value it had where the two are
/// the same number.
pub proof fn lemma_immediate_buff_is_not_kept(
    pre: AttributeView,
    post: AttributeView,
    buff: AttributeBuff,
    arithmetic: Arithmetic,
)
    requires
        !buff.persistent(),
        pre.received(post, buff, arithmetic),
    ensures
        post.buffs == pre.buffs,
        pre.accepts(buff) ==> exists|candidate: Scalar| #[trigger]
            buff.operation.gives(arithmetic, pre.underlying_value, candidate)
                && post.underlying_value == if candidate.spec_same_number(&pre.underlying_value) {
                pre.underlying_value
            } else {
                candidate
            },
{
    if pre.accepts(buff) {
        let candidate = choose|candidate: Scalar| #[trigger]
            buff.operation.gives(arithmetic, pre.underlying_value, candidate) && post
                == pre.settle(candidate);
        assert(buff.operation.gives(arithmetic, pre.underlying_value, candidate));
    }
}

impl View for Attribute {
    type V = AttributeView;

    closed spec fn view(&self) -> AttributeView {
        AttributeView {
            buffs: self.attribute_buffs@,
            name: self.attribute_name@,
            current_value: self.current_value,
            initial_value: self.initial_value,
            max_value: self.max_value,
            min_value: self.min_value,
            underlying_value: self.underlying_value,
            events: self.events@,
        }
    }
}

impl Clone for Attribute {
    fn clone(&self) -> (r: Attribute)
        ensures
            r@ == self@,
    {
        let mut events: Vec<AttributeEvent> = Vec::new();
        let mut i: usize = 0;
        while i < self.events.len()
            invariant
                i <= self.events.len(),
                events@ == self.events@.take(i as int),
            decreases self.events.len() - i,
        {
            events.push(self.events[i].clone());
            proof {
                assert(self.events@.take(i + 1) == self.events@.take(i as int).push(
                    self.events@[i as int],
                ));
            }
            i += 1;
        }
        proof {
            assert(self.events@.take(i as int) == self.events@);
        }
        Attribute {
            attribute_buffs: clone_buffs(&self.attribute_buffs),
            attribute_name: self.attribute_name.clone(),
            current_value: self.current_value,
            initial_value: self.initial_value,
            max_value: self.max_value,
            min_value: self.min_value,
            underlying_value: self.underlying_value,
            events,
        }
    }
}

impl vstd::std_specs::cmp::PartialEqSpecImpl for Attribute {
    open spec fn obeys_eq_spec() -> bool {
        true
    }

    /// Two attributes are equal exactly if they have the same name.
    open spec fn eq_spec(&self, other: &Attribute) -> bool {
        self@.name == other@.name
    }
}

impl PartialEq for Attribute {
    fn eq(&self, other: &Attribute) -> (r: bool) {
        self.attribute_name == other.attribute_name
    }
}

/// The views of the attributes, in their order.
pub open spec fn attribute_views(attributes: Seq<Attribute>) -> Seq<AttributeView> {
    attributes.map_values(|attribute: Attribute| attribute@)
}

/// The stored value, or zero where it is missing.
fn scalar_or_zero(stored: Option<Scalar>) -> (r: Scalar)
    ensures
        r == match stored {
            Some(value) => value,
            None => Scalar { bits: 0 },
        },
{
    match stored {
        Some(value) => value,
        None => Scalar::zero(),
    }
}

impl Default for Attribute {
    /// The attribute with an empty name, no buffs and every value zero.
    fn default() -> (r: Attribute)
        ensures
            r@ == (AttributeView {
                buffs: Seq::empty(),
                name: Seq::empty(),
                current_value: Scalar { bits: 0 },
                initial_value: Scalar { bits: 0 },
                max_value: Scalar { bits: 0 },
                min_value: Scalar { bits: 0 },
                underlying_value: Scalar { bits: 0 },
                events: Seq::empty(),
            }),
    {
        Attribute {
            attribute_buffs: Vec::new(),
            attribute_name: String::new(),
            current_value: Scalar::zero(),
            initial_value: Scalar::zero(),
            max_value: Scalar::zero(),
            min_value: Scalar::zero(),
            underlying_value: Scalar::zero(),
            events: Vec::new(),
        }
    }
}

impl Attribute {
    /// Applies a buff. A buff that targets another attribute is refused and
    /// nothing changes. An immediate buff is applied once to the attribute's
    /// own value and not kept. A persistent buff is attached behind those
    /// already there.
    pub fn add_buff<U: Fn(Primitive, Scalar, Scalar) -> Scalar>(
        &mut self,
        buff: AttributeBuff,
        unit: &U,
    ) -> (r: bool)
        requires
            total(*unit),
        ensures
            r == old(self)@.accepts(buff),
            old(self)@.received(final(self)@, buff, arithmetic_of(*unit)),
            !old(self)@.accepts(buff) ==> *final(self) == *old(self),
            !buff.persistent() ==> final(self)@.buffs == old(self)@.buffs,
    {
        if self.can_receive_buff(&buff) {
            if !buff.is_persistent() {
                let previous = self.underlying_value;
                let candidate = buff.operate(previous, unit);
                if !candidate.same_number(&previous) {
                    self.underlying_value = candidate;
                    self.events.push(
                        AttributeEvent::AttributeChanged { previous, current: candidate },
                    );
                }
                proof {
                    assert(self@ == old(self)@.settle(candidate));
                }
            } else {
                self.events.push(AttributeEvent::BuffAdded(buff.clone()));
                self.attribute_buffs.push(buff);
            }
            return true;
        }
        false
    }

    /// Applies the buffs one after the other and counts those that target
    /// this attribute. The count wraps at the width of its type.
    pub fn add_buffs<U: Fn(Primitive, Scalar, Scalar) -> Scalar>(
        &mut self,
        buffs: Vec<AttributeBuff>,
        unit: &U,
    ) -> (r: u32)
        requires
            total(*unit),
        ensures
            old(self)@.received_all(final(self)@, buffs@, arithmetic_of(*unit)),
            r == #[verifier::truncate] (buffs@.filter(targeting(old(self)@.name)).len() as u32),
    {
        let mut count: usize = 0;
        let mut i: usize = 0;
        while i < buffs.len()
            invariant
                total(*unit),
                i <= buffs.len(),
                old(self)@.received_all(self@, buffs@.take(i as int), arithmetic_of(*unit)),
                self@.name == old(self)@.name,
                count == buffs@.take(i as int).filter(targeting(old(self)@.name)).len(),
                count <= i,
            decreases buffs.len() - i,
        {
            let ghost before = self@;
            let added = self.add_buff(buffs[i].clone(), unit);
            proof {
                let longer = buffs@.take(i + 1);
                assert(longer.drop_last() == buffs@.take(i as int));
                assert(longer.last() == buffs@[i as int]);
                assert(before.received(self@, longer.last(), arithmetic_of(*unit)));
                buffs@.take(i as int).lemma_filter_push(
                    buffs@[i as int],
                    targeting(old(self)@.name),
                );
                assert(longer == buffs@.take(i as int).push(buffs@[i as int]));
            }
            if added {
                count += 1;
            }
            i += 1;
        }
        proof {
            assert(buffs@.take(i as int) == buffs@);
        }
        #[verifier::truncate]
        (count as u32)
    }

    /// Whether the buff targets this attribute.
    pub fn can_receive_buff(&self, buff: &AttributeBuff) -> (r: bool)
        ensures
            r == self@.accepts(*buff),
    {
        buff.attribute_name == self.attribute_name
    }

    /// Takes every attached buff off, without announcing it.
    pub fn clear_buffs(&mut self)
        ensures
            final(self)@ == (AttributeView { buffs: Seq::empty(), ..old(self)@ }),
    {
        self.attribute_buffs.clear();
    }

    /// The attribute's value as its buffs make it: the operations of the
    /// attached buffs folded, first to last, over the attribute's own value.
    pub fn get_buffed_value<U: Fn(Primitive, Scalar, Scalar) -> Scalar>(&self, unit: &U) -> (r:
        Scalar)
        requires
            total(*unit),
        ensures
            folds(arithmetic_of(*unit), self@.buffs, self@.underlying_value, r),
    {
        let mut value = self.underlying_value;
        let mut i: usize = 0;
        while i < self.attribute_buffs.len()
            invariant
                total(*unit),
                i <= self.attribute_buffs.len(),
                folds(
                    arithmetic_of(*unit),
                    self.attribute_buffs@.take(i as int),
                    self.underlying_value,
                    value,
                ),
            decreases self.attribute_buffs.len() - i,
        {
            let next = self.attribute_buffs[i].operate(value, unit);
            proof {
                let longer = self.attribute_buffs@.take(i + 1);
                assert(longer.drop_last() == self.attribute_buffs@.take(i as int));
                assert(longer.last() == self.attribute_buffs@[i as int]);
            }
            value = next;
            i += 1;
        }
        proof {
            assert(self.attribute_buffs@.take(i as int) == self.attribute_buffs@);
        }
        value
    }

    /// Whether some attached buff equals `buff`.
    pub fn has_buff(&self, buff: &AttributeBuff) -> (r: bool)
        ensures
            r == self@.holds(*buff),
            r <==> exists|j: int|
                0 <= j < self@.buffs.len() && (#[trigger] self@.buffs[j]).same_as(buff),
    {
        let i = self.position(buff);
        proof {
            lemma_first_index(self.attribute_buffs@, equal_to(*buff));
            if i < self.attribute_buffs.len() {
                assert(self@.buffs[i as int].same_as(buff));
            }
        }
        i < self.attribute_buffs.len()
    }

    /// The index of the first attached buff that equals `buff`, or the number
    /// of attached buffs if none does.
    fn position(&self, buff: &AttributeBuff) -> (r: usize)
        ensures
            r == first_match(self.attribute_buffs@, *buff),
            r <= self.attribute_buffs.len(),
    {
        let mut i: usize = 0;
        while i < self.attribute_buffs.len()
            invariant
                i <= self.attribute_buffs.len(),
                forall|j: int| 0 <= j < i ==> !(#[trigger] self.attribute_buffs@[j]).same_as(buff),
            decreases self.attribute_buffs.len() - i,
        {
            if self.attribute_buffs[i] == *buff {
                proof {
                    lemma_first_index_is(self.attribute_buffs@, equal_to(*buff), i as int);
                }
                return i;
            }
            i += 1;
        }
        proof {
            lemma_first_index_is(self.attribute_buffs@, equal_to(*buff), i as int);
        }
        i
    }

    /// Takes off the first attached buff that equals `buff` and announces the
    /// removal; does nothing if there is none.
    pub fn remove_buff(&mut self, buff: &AttributeBuff) -> (r: bool)
        ensures
            r == old(self)@.holds(*buff),
            final(self)@ == old(self)@.release(*buff),
    {
        let i = self.position(buff);
        if i < self.attribute_buffs.len() {
            self.attribute_buffs.remove(i);
            self.events.push(AttributeEvent::BuffRemoved(buff.clone()));
            true
        } else {
            false
        }
    }

    /// Takes off every attached buff that targets the same attribute as
    /// `buff`, keeps the others in their order, and says how many it took
    /// off. Nothing is announced. The count wraps at the width of its type.
    pub fn remove_all_buffs_of_type(&mut self, buff: &AttributeBuff) -> (r: u32)
        ensures
            final(self)@ == (AttributeView {
                buffs: old(self)@.buffs.filter(not_targeting(buff.attribute_name@)),
                ..old(self)@
            }),
            r == #[verifier::truncate] ((old(self)@.buffs.len() - final(self)@.buffs.len()) as u32),
    {
        let ghost before = self.attribute_buffs@;
        let ghost keep = not_targeting(buff.attribute_name@);
        let mut removed: usize = 0;
        let mut i: usize = self.attribute_buffs.len();
        proof {
            assert(before.take(i as int) == before);
            assert(before.skip(i as int).filter(keep) == Seq::<AttributeBuff>::empty()) by {
                reveal(Seq::filter);
            }
        }
        while i > 0
            invariant
                i <= before.len() <= usize::MAX,
                keep == not_targeting(buff.attribute_name@),
                self.attribute_buffs@ == before.take(i as int) + before.skip(i as int).filter(keep),
                removed == before.len() - self.attribute_buffs@.len(),
                self@ == (AttributeView { buffs: self.attribute_buffs@, ..old(self)@ }),
            decreases i,
        {
            i -= 1;
            proof {
                before.skip(i + 1).lemma_filter_prepend(before[i as int], keep);
                assert(before.skip(i as int) == seq![before[i as int]] + before.skip(i + 1));
                assert(before.take(i + 1) == before.take(i as int).push(before[i as int]));
                before.skip(i + 1).lemma_filter_len(keep);
            }
            if self.attribute_buffs[i].attribute_name == buff.attribute_name {
                self.attribute_buffs.remove(i);
                removed += 1;
            }
        }
        proof {
            assert(before.skip(0) == before);
        }
        #[verifier::truncate]
        (removed as u32)
    }

    /// Releases the buffs one after the other and counts those that were
    /// found attached. The count wraps at the width of its type.
    pub fn remove_buffs(&mut self, buffs: Vec<AttributeBuff>) -> (r: u32)
        ensures
            final(self)@ == old(self)@.release_all(buffs@),
            r == #[verifier::truncate] (old(self)@.count_released(buffs@) as u32),
    {
        let mut count: usize = 0;
        let mut i: usize = 0;
        while i < buffs.len()
            invariant
                i <= buffs.len(),
                self@ == old(self)@.release_all(buffs@.take(i as int)),
                count == old(self)@.count_released(buffs@.take(i as int)),
                count <= i,
            decreases buffs.len() - i,
        {
            proof {
                let longer = buffs@.take(i + 1);
                assert(longer.drop_last() == buffs@.take(i as int));
                assert(longer.last() == buffs@[i as int]);
            }
            if self.remove_buff(&buffs[i]) {
                count += 1;
            }
            i += 1;
        }
        proof {
            assert(buffs@.take(i as int) == buffs@);
        }
        #[verifier::truncate]
        (count as u32)
    }

    /// The fields under which the attribute is stored.
    pub fn to_fields(&self) -> (r: AttributeFields)
        ensures
            r@ == self@.fields(),
    {
        AttributeFields {
            attribute_name: Some(self.attribute_name.clone()),
            attribute_value: Some(self.current_value),
            initial_value: Some(self.initial_value),
            max_value: Some(self.max_value),
            min_value: Some(self.min_value),
            buffs: Some(clone_buffs(&self.attribute_buffs)),
        }
    }

    /// The attribute that is stored under `key` with the given fields. Its
    /// own value is seeded from its initial value.
    pub fn from_fields(key: String, fields: Option<&AttributeFields>) -> (r: Attribute)
        ensures
            r@ == AttributeView::restored(
                EntryView {
                    key: key@,
                    value: match fields {
                        Some(fields) => Some(fields@),
                        None => None,
                    },
                },
            ),
    {
        let mut attribute = Attribute::default();
        attribute.attribute_name = key;
        match fields {
            Some(fields) => {
                attribute.attribute_buffs = match &fields.buffs {
                    Some(buffs) => clone_buffs(buffs),
                    None => Vec::new(),
                };
                attribute.current_value = scalar_or_zero(fields.attribute_value);
                attribute.initial_value = scalar_or_zero(fields.initial_value);
                attribute.max_value = scalar_or_zero(fields.max_value);
                attribute.min_value = scalar_or_zero(fields.min_value);
            },
            None => {},
        }
        attribute.setup_underlying_value();
        attribute
    }

    /// Sets the attribute's own value to its initial value.
    pub fn setup_underlying_value(&mut self)
        ensures
            final(self)@ == (AttributeView {
                underlying_value: old(self)@.initial_value,
                ..old(self)@
            }),
    {
        self.underlying_value = self.initial_value;
    }

    /// The name of the attribute.
    pub fn name(&self) -> (r: &String)
        ensures
            r@ == self@.name,
    {
        &self.attribute_name
    }

    /// The events raised since they were last taken, oldest first.
    pub fn pending_events(&self) -> (r: &Vec<AttributeEvent>)
        ensures
            r@ == self@.events,
    {
        &self.events
    }

    /// Hands over the events raised since they were last taken and forgets
    /// them.
    pub fn take_events(&mut self) -> (r: Vec<AttributeEvent>)
        ensures
            r@ == old(self)@.events,
            final(self)@ == (AttributeView { events: Seq::empty(), ..old(self)@ }),
    {
        let mut taken: Vec<AttributeEvent> = Vec::new();
        std::mem::swap(&mut taken, &mut self.events);
        taken
    }
}

} // verus!
