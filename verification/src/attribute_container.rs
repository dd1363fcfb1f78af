//! The container: a set of attributes and the queue that retires their timed
//! buffs.

use vstd::prelude::*;
use crate::attribute::{Attribute, AttributeEvent, AttributeView, attribute_views};
use crate::attribute_buff::AttributeBuff;
use crate::attribute_dictionary::{
    AttributeDictionary,
    EntryView,
    distinct_keys,
    keyed,
    lemma_put_keeps_keys_distinct,
    put,
};
use crate::attribute_effect::AttributeEffect;
use crate::buff_pool_queue::{BuffPoolQueue, QueueEvent, QueueView, lemma_step_extends_events};
use crate::scalar::{Arithmetic, Primitive, Scalar, arithmetic_of, total};
use crate::search::{first_index, lemma_first_index_is};

verus! {

/// What the container announces to its observers.
#[derive(Debug)]
pub enum ContainerEvent {
    /// At least one attribute took the buff.
    AttributeBuffAdded(AttributeBuff),
    /// The queue took the buff in.
    AttributeBuffEnqueued(AttributeBuff),
    /// The queue retired the buff.
    AttributeBuffDequeued(AttributeBuff),
}

/// The container. It has no queue until it is made ready.
#[derive(Debug)]
pub struct AttributeContainer {
    buff_pool_queue: Option<BuffPoolQueue>,
    attributes: Vec<Attribute>,
    server_authoritative: bool,
    events: Vec<ContainerEvent>,
}

/// The container as the contracts see it.
pub ghost struct ContainerView {
    pub queue: Option<QueueView>,
    /// The attributes, in the order in which they were added.
    pub attributes: Seq<AttributeView>,
    pub server_authoritative: bool,
    /// The events raised and not yet taken, oldest first.
    pub events: Seq<ContainerEvent>,
}

/// The function that releases `buff` from an attribute.
pub open spec fn releasing(buff: AttributeBuff) -> spec_fn(AttributeView) -> AttributeView {
    |attribute: AttributeView| attribute.release(buff)
}

/// The function that seeds an attribute's own value from its initial value.
pub open spec fn seeding() -> spec_fn(AttributeView) -> AttributeView {
    |attribute: AttributeView|
        AttributeView { underlying_value: attribute.initial_value, ..attribute }
}

/// The attributes that a buff targets.
pub open spec fn taking(buff: AttributeBuff) -> spec_fn(AttributeView) -> bool {
    |attribute: AttributeView| attribute.accepts(buff)
}

/// The attributes to which a buff equal to `buff` is attached.
pub open spec fn holding(buff: AttributeBuff) -> spec_fn(AttributeView) -> bool {
    |attribute: AttributeView| attribute.holds(buff)
}

/// Some attribute of `attributes` has the given name.
pub open spec fn named(attributes: Seq<AttributeView>, name: Seq<char>) -> bool {
    exists|i: int| 0 <= i < attributes.len() && (#[trigger] attributes[i]).name == name
}

/// The entry under which an attribute is stored: its name is the key.
pub open spec fn entry_of(attribute: AttributeView) -> EntryView {
    EntryView { key: attribute.name, value: Some(attribute.fields()) }
}

/// The dictionary that stores the attributes: each is inserted under its
/// name, first to last, so that of two attributes with one name the later one
/// is stored, in the place of the earlier.
pub open spec fn written(attributes: Seq<AttributeView>) -> Seq<EntryView>
    decreases attributes.len(),
{
    if attributes.len() == 0 {
        Seq::empty()
    } else {
        put(written(attributes.drop_last()), entry_of(attributes.last()))
    }
}

/// The dictionary that stores attributes holds each key once.
pub proof fn lemma_written_keys_distinct(attributes: Seq<AttributeView>)
    ensures
        distinct_keys(written(attributes)),
    decreases attributes.len(),
{
    if attributes.len() > 0 {
        lemma_written_keys_distinct(attributes.drop_last());
        lemma_put_keeps_keys_distinct(
            written(attributes.drop_last()),
            entry_of(attributes.last()),
        );
    }
}

/// No two of the attributes have the same name.
pub open spec fn distinct_names(attributes: Seq<AttributeView>) -> bool {
    forall|i: int, j: int|
        0 <= i < j < attributes.len() ==> (#[trigger] attributes[i]).name != (
        #[trigger] attributes[j]).name
}

/// The function that gives an attribute as it comes back from storage: all
/// is as it was but its own value, which is seeded from its initial value,
/// and its pending events, of which there are none.
pub open spec fn storing() -> spec_fn(AttributeView) -> AttributeView {
    |attribute: AttributeView|
        AttributeView {
            underlying_value: attribute.initial_value,
            events: Seq::empty(),
            ..attribute
        }
}

/// Attributes with distinct names are stored one entry each, in their order.
pub proof fn lemma_written_in_order(attributes: Seq<AttributeView>)
    requires
        distinct_names(attributes),
    ensures
        written(attributes) == attributes.map_values(
            |attribute: AttributeView| entry_of(attribute),
        ),
    decreases attributes.len(),
{
    let entries = attributes.map_values(|attribute: AttributeView| entry_of(attribute));
    if attributes.len() == 0 {
        assert(written(attributes) == entries);
    } else {
        let front = attributes.drop_last();
        let last = attributes.last();
        assert forall|i: int, j: int| 0 <= i < j < front.len() implies (
        #[trigger] front[i]).name != (#[trigger] front[j]).name by {
            assert(front[i] == attributes[i] && front[j] == attributes[j]);
        }
        lemma_written_in_order(front);
        let stored = written(front);
        assert forall|j: int| 0 <= j < stored.len() implies !keyed(last.name)(
            #[trigger] stored[j],
        ) by {
            assert(stored[j].key == attributes[j].name);
            assert(attributes[attributes.len() - 1] == last);
        }
        lemma_first_index_is(stored, keyed(last.name), stored.len() as int);
        assert(stored.push(entry_of(last)) == entries);
    }
}

/// Storing the attributes of a container and restoring them into an empty one
/// gives back the same attributes, in their order, with their names, their
/// current, initial, largest and least values and their attached buffs, each
/// seeded anew; provided that no two of them have the same name.
pub proof fn lemma_round_trip(attributes: Seq<AttributeView>)
    requires
        distinct_names(attributes),
    ensures
        written(attributes).map_values(restoring()) == attributes.map_values(storing()),
{
    lemma_written_in_order(attributes);
    assert forall|i: int| 0 <= i < attributes.len() implies restoring()(
        #[trigger] written(attributes)[i],
    ) == storing()(attributes[i]) by {
        assert(written(attributes)[i] == entry_of(attributes[i]));
    }
    assert(written(attributes).map_values(restoring()) =~= attributes.map_values(storing()));
}

/// The function that restores an attribute from an entry.
pub open spec fn restoring() -> spec_fn(EntryView) -> AttributeView {
    |entry: EntryView| AttributeView::restored(entry)
}

/// The queue after `buff` was offered to it `times` times.
pub open spec fn enqueue_times(queue: QueueView, buff: AttributeBuff, times: nat) -> QueueView
    decreases times,
{
    if times == 0 {
        queue
    } else {
        enqueue_times(queue, buff, (times - 1) as nat).enqueue(buff)
    }
}

/// Offering buffs to a queue does not change whether it is gated.
pub proof fn lemma_enqueue_times_gated(queue: QueueView, buff: AttributeBuff, times: nat)
    ensures
        enqueue_times(queue, buff, times).gated() == queue.gated(),
    decreases times,
{
    if times > 0 {
        lemma_enqueue_times_gated(queue, buff, (times - 1) as nat);
    }
}

impl ContainerView {
    /// How many attributes the buff targets.
    pub open spec fn takers(self, buff: AttributeBuff) -> nat {
        self.attributes.filter(taking(buff)).len()
    }

    /// How often applying the buff offers it to the queue: once for each
    /// attribute that it targets, if it is persistent and lasts for a time and
    /// the container has a queue.
    pub open spec fn offers(self, buff: AttributeBuff) -> nat {
        if buff.persistent() && buff.timed() && self.queue is Some {
            self.takers(buff)
        } else {
            0
        }
    }

    /// How often applying the buff announces an entry into the queue: as
    /// often as it is offered, if the queue is open to this side.
    pub open spec fn entries(self, buff: AttributeBuff) -> nat {
        if self.queue is Some && !self.queue->0.gated() {
            self.offers(buff)
        } else {
            0
        }
    }

    /// `post` is a state that applying `buff` may lead to under the
    /// arithmetic. Every attribute has received the buff. The queue was
    /// offered the buff once for each attribute that it targets, if it is
    /// persistent and lasts for a time. The container announced each entry
    /// into the queue and then, once, that the buff was added, if any
    /// attribute took it.
    pub open spec fn applied(
        self,
        post: ContainerView,
        buff: AttributeBuff,
        arithmetic: Arithmetic,
    ) -> bool {
        &&& post.server_authoritative == self.server_authoritative
        &&& post.attributes.len() == self.attributes.len()
        &&& forall|i: int|
            0 <= i < self.attributes.len() ==> (#[trigger] self.attributes[i]).received(
                post.attributes[i],
                buff,
                arithmetic,
            )
        &&& post.queue == match self.queue {
            Some(queue) => Some(enqueue_times(queue, buff, self.offers(buff))),
            None => None,
        }
        &&& post.events == self.events + Seq::new(
            self.entries(buff),
            |i: int| ContainerEvent::AttributeBuffEnqueued(buff),
        ) + if self.takers(buff) > 0 {
            seq![ContainerEvent::AttributeBuffAdded(buff)]
        } else {
            Seq::empty()
        }
    }

    /// The container after it heard what the queue announced: it announces
    /// each entry in its turn, and for each retired buff it announces the
    /// retirement and releases the buff from every attribute.
    pub open spec fn heard(self, news: Seq<QueueEvent>) -> ContainerView
        decreases news.len(),
    {
        if news.len() == 0 {
            self
        } else {
            let before = self.heard(news.drop_last());
            match news.last() {
                QueueEvent::AttributeBuffEnqueued(buff) => ContainerView {
                    events: before.events.push(ContainerEvent::AttributeBuffEnqueued(buff)),
                    ..before
                },
                QueueEvent::AttributeBuffDequeued(buff) => ContainerView {
                    events: before.events.push(ContainerEvent::AttributeBuffDequeued(buff)),
                    attributes: before.attributes.map_values(releasing(buff)),
                    ..before
                },
            }
        }
    }

    /// `post` is a state that applying `buffs`, one after the other, may lead
    /// to under the arithmetic.
    pub open spec fn applied_all(
        self,
        post: ContainerView,
        buffs: Seq<AttributeBuff>,
        arithmetic: Arithmetic,
    ) -> bool
        decreases buffs.len(),
    {
        if buffs.len() == 0 {
            post == self
        } else {
            exists|before: ContainerView|
                self.applied_all(before, buffs.drop_last(), arithmetic)
                    && #[trigger] before.applied(post, buffs.last(), arithmetic)
        }
    }

    /// The index of the first attribute to which a buff equal to `buff` is
    /// attached, or the number of attributes if there is none.
    pub open spec fn first_holder(self, buff: AttributeBuff) -> int {
        first_index(self.attributes, holding(buff))
    }

    /// The container after `buff` was released from the first attribute that
    /// holds a buff equal to it; unchanged if there is none.
    pub open spec fn discard(self, buff: AttributeBuff) -> ContainerView {
        let index = self.first_holder(buff);
        if index < self.attributes.len() {
            ContainerView {
                attributes: self.attributes.update(index, self.attributes[index].release(buff)),
                ..self
            }
        } else {
            self
        }
    }

    /// The container after each of `buffs`, one after the other, was
    /// discarded.
    pub open spec fn discard_all(self, buffs: Seq<AttributeBuff>) -> ContainerView
        decreases buffs.len(),
    {
        if buffs.len() == 0 {
            self
        } else {
            self.discard_all(buffs.drop_last()).discard(buffs.last())
        }
    }

    /// How many of `buffs`, discarded one after the other, were found
    /// attached to an attribute.
    pub open spec fn count_discarded(self, buffs: Seq<AttributeBuff>) -> nat
        decreases buffs.len(),
    {
        if buffs.len() == 0 {
            0
        } else {
            let before = self.discard_all(buffs.drop_last());
            let found: nat = if before.first_holder(buffs.last()) < before.attributes.len() {
                1
            } else {
                0
            };
            self.count_discarded(buffs.drop_last()) + found
        }
    }

    /// `post` is a state that a step of `delta` seconds may lead to under the
    /// arithmetic: unchanged where the container has no queue; else the queue
    /// has made the step, and the container has heard what the queue
    /// announced in it.
    pub open spec fn stepped(
        self,
        post: ContainerView,
        delta: Scalar,
        arithmetic: Arithmetic,
    ) -> bool {
        match self.queue {
            Some(queue) => exists|after: QueueView| #[trigger]
                queue.step(after, delta, arithmetic) && post == (ContainerView {
                    queue: Some(after),
                    ..self
                }).heard(after.events.skip(queue.events.len() as int)),
            None => post == self,
        }
    }

    /// The container after it was made ready: it has a fresh queue that
    /// shares its authority setting, and every attribute's own value is its
    /// initial value.
    pub open spec fn readied(self) -> ContainerView {
        ContainerView {
            queue: Some(
                QueueView {
                    items: Seq::empty(),
                    server_authoritative: self.server_authoritative,
                    multiplayer_authority: true,
                    tick: Scalar { bits: 0 },
                    events: Seq::empty(),
                },
            ),
            attributes: self.attributes.map_values(seeding()),
            ..self
        }
    }

    /// The container after `attribute` was offered: unchanged where an
    /// attribute of that name is there already; else with the attribute at the
    /// end, its own value seeded from its initial value.
    pub open spec fn enrol(self, attribute: AttributeView) -> ContainerView {
        if named(self.attributes, attribute.name) {
            self
        } else {
            ContainerView { attributes: self.attributes.push(seeding()(attribute)), ..self }
        }
    }
}

/// Where the queue is gated, a step changes nothing in the container: no
/// attribute, no item of the queue, no pending event.
pub proof fn lemma_gated_container_step(
    pre: ContainerView,
    post: ContainerView,
    delta: Scalar,
    arithmetic: Arithmetic,
)
    requires
        pre.queue is Some,
        pre.queue->0.gated(),
        pre.stepped(post, delta, arithmetic),
    ensures
        post == pre,
{
    let queue = pre.queue->0;
    let after = choose|after: QueueView| #[trigger]
        queue.step(after, delta, arithmetic) && post == (ContainerView {
            queue: Some(after),
            ..pre
        }).heard(after.events.skip(queue.events.len() as int));
    assert(after == queue);
    assert(after.events.skip(queue.events.len() as int).len() == 0);
}

impl View for AttributeContainer {
    type V = ContainerView;

    closed spec fn view(&self) -> ContainerView {
        ContainerView {
            queue: match self.buff_pool_queue {
                Some(queue) => Some(queue@),
                None => None,
            },
            attributes: attribute_views(self.attributes@),
            server_authoritative: self.server_authoritative,
            events: self.events@,
        }
    }
}

impl Default for AttributeContainer {
    /// An empty container without a queue, in which any side may change the
    /// queue to come.
    fn default() -> (r: AttributeContainer)
        ensures
            r@ == (ContainerView {
                queue: None,
                attributes: Seq::empty(),
                server_authoritative: false,
                events: Seq::empty(),
            }),
    {
        AttributeContainer::new(false)
    }
}

impl AttributeContainer {
    /// An empty container without a queue.
    pub fn new(server_authoritative: bool) -> (r: AttributeContainer)
        ensures
            r@ == (ContainerView {
                queue: None,
                attributes: Seq::empty(),
                server_authoritative,
                events: Seq::empty(),
            }),
    {
        let r = AttributeContainer {
            buff_pool_queue: None,
            attributes: Vec::new(),
            server_authoritative,
            events: Vec::new(),
        };
        proof {
            assert(attribute_views(r.attributes@) == Seq::<AttributeView>::empty());
        }
        r
    }

    /// Makes the container ready: installs a fresh queue and seeds every
    /// attribute's own value.
    pub fn ready(&mut self)
        ensures
            final(self)@ == old(self)@.readied(),
    {
        self.install_pool_queue();
        self.connect_attributes();
    }

    fn connect_attributes(&mut self)
        ensures
            final(self)@ == (ContainerView {
                attributes: old(self)@.attributes.map_values(seeding()),
                ..old(self)@
            }),
    {
        let mut i: usize = 0;
        while i < self.attributes.len()
            invariant
                i <= self.attributes.len(),
                self.attributes.len() == old(self).attributes.len(),
                forall|j: int|
                    0 <= j < i ==> (#[trigger] self.attributes@[j])@ == seeding()(
                        old(self).attributes@[j]@,
                    ),
                forall|j: int|
                    i <= j < self.attributes.len() ==> (#[trigger] self.attributes@[j])
                        == old(self).attributes@[j],
                self.buff_pool_queue == old(self).buff_pool_queue,
                self.server_authoritative == old(self).server_authoritative,
                self.events == old(self).events,
            decreases self.attributes.len() - i,
        {
            self.attributes[i].setup_underlying_value();
            i += 1;
        }
        proof {
            assert(attribute_views(self.attributes@) == attribute_views(
                old(self).attributes@,
            ).map_values(seeding()));
        }
    }

    fn install_pool_queue(&mut self)
        ensures
            final(self)@ == (ContainerView {
                queue: old(self)@.readied().queue,
                ..old(self)@
            }),
    {
        self.buff_pool_queue = Some(BuffPoolQueue::new(self.server_authoritative));
    }

    /// Adds an attribute, unless one of its name is there already. The
    /// attribute's own value is seeded from its initial value.
    pub fn add_attribute(&mut self, attribute: Attribute)
        ensures
            final(self)@ == old(self)@.enrol(attribute@),
    {
        let mut i: usize = 0;
        while i < self.attributes.len()
            invariant
                i <= self.attributes.len(),
                *self == *old(self),
                forall|j: int|
                    0 <= j < i ==> (#[trigger] self.attributes@[j])@.name != attribute@.name,
            decreases self.attributes.len() - i,
        {
            if self.attributes[i] == attribute {
                proof {
                    assert(attribute_views(self.attributes@)[i as int].name == attribute@.name);
                }
                return ;
            }
            i += 1;
        }
        proof {
            assert(!named(attribute_views(self.attributes@), attribute@.name));
        }
        let mut seeded = attribute;
        seeded.setup_underlying_value();
        self.attributes.push(seeded);
        proof {
            old(self).attributes@.lemma_push_map_commute(
                |attribute: Attribute| attribute@,
                seeded,
            );
        }
    }

    /// Applies a buff to every attribute that it targets. A persistent buff
    /// that lasts for a time is also offered to the queue, once for each such
    /// attribute.
    pub fn apply_buff<U: Fn(Primitive, Scalar, Scalar) -> Scalar>(
        &mut self,
        buff: AttributeBuff,
        unit: &U,
    )
        requires
            total(*unit),
        ensures
            old(self)@.applied(final(self)@, buff, arithmetic_of(*unit)),
    {
        let ghost before = attribute_views(self.attributes@);
        let ghost announced = self.events@;
        let ghost taken: nat = 0;
        let ghost offered: nat = 0;
        let ghost entered: nat = 0;
        let registers = buff.is_persistent() && buff.is_timed();
        let mut added = false;
        let mut i: usize = 0;
        proof {
            assert(before.take(0).filter(taking(buff)).len() == 0) by {
                reveal(Seq::filter);
            }
            assert(self.events@ == announced + Seq::new(
                0,
                |i: int| ContainerEvent::AttributeBuffEnqueued(buff),
            ));
        }
        while i < self.attributes.len()
            invariant
                total(*unit),
                i <= self.attributes.len(),
                registers == (buff.persistent() && buff.timed()),
                before == attribute_views(old(self).attributes@),
                announced == old(self).events@,
                self.attributes.len() == old(self).attributes.len(),
                self.server_authoritative == old(self).server_authoritative,
                forall|j: int|
                    0 <= j < i ==> (#[trigger] before[j]).received(
                        self.attributes@[j]@,
                        buff,
                        arithmetic_of(*unit),
                    ),
                forall|j: int|
                    i <= j < self.attributes.len() ==> (#[trigger] self.attributes@[j])
                        == old(self).attributes@[j],
                taken == before.take(i as int).filter(taking(buff)).len(),
                added == (taken > 0),
                offered == (if registers && old(self)@.queue is Some {
                    taken
                } else {
                    0
                }),
                entered == (if old(self)@.queue is Some && !old(self)@.queue->0.gated() {
                    offered
                } else {
                    0
                }),
                self@.queue == match old(self)@.queue {
                    Some(queue) => Some(enqueue_times(queue, buff, offered)),
                    None => None,
                },
                self.events@ == announced + Seq::new(
                    entered,
                    |i: int| ContainerEvent::AttributeBuffEnqueued(buff),
                ),
            decreases self.attributes.len() - i,
        {
            proof {
                before.take(i as int).lemma_filter_push(before[i as int], taking(buff));
                assert(before.take(i + 1) == before.take(i as int).push(before[i as int]));
                assert(before[i as int] == self.attributes@[i as int]@);
            }
            if self.attributes[i].can_receive_buff(&buff) {
                added = true;
                self.attributes[i].add_buff(buff.clone(), unit);
                proof {
                    taken = taken + 1;
                }
                if registers {
                    match &mut self.buff_pool_queue {
                        Some(queue) => {
                            proof {
                                lemma_enqueue_times_gated(old(self)@.queue->0, buff, offered);
                            }
                            let open = !queue.is_gated();
                            queue.add_attribute_buff(buff.clone());
                            proof {
                                offered = offered + 1;
                            }
                            if open {
                                self.events.push(
                                    ContainerEvent::AttributeBuffEnqueued(buff.clone()),
                                );
                                proof {
                                    assert(Seq::new(
                                        entered + 1,
                                        |i: int| ContainerEvent::AttributeBuffEnqueued(buff),
                                    ) == Seq::new(
                                        entered,
                                        |i: int| ContainerEvent::AttributeBuffEnqueued(buff),
                                    ).push(ContainerEvent::AttributeBuffEnqueued(buff)));
                                    entered = entered + 1;
                                }
                            }
                        },
                        None => {},
                    }
                }
            }
            i += 1;
        }
        proof {
            assert(before.take(i as int) == before);
            assert(taken == old(self)@.takers(buff));
            assert(offered == old(self)@.offers(buff));
            assert(entered == old(self)@.entries(buff));
        }
        if added {
            self.events.push(ContainerEvent::AttributeBuffAdded(buff));
        }
        proof {
            let news = Seq::new(entered, |i: int| ContainerEvent::AttributeBuffEnqueued(buff));
            if added {
                assert(self.events@ == announced + news + seq![
                    ContainerEvent::AttributeBuffAdded(buff),
                ]);
            } else {
                assert(self.events@ == announced + news + Seq::<ContainerEvent>::empty());
            }
            assert(self@.attributes.len() == old(self)@.attributes.len());
            assert forall|j: int| 0 <= j < old(self)@.attributes.len() implies (
            #[trigger] old(self)@.attributes[j]).received(
                self@.attributes[j],
                buff,
                arithmetic_of(*unit),
            ) by {
                assert(before[j].received(self.attributes@[j]@, buff, arithmetic_of(*unit)));
            }
        }
    }

    /// Applies the buffs of the effect, in their order.
    pub fn apply_effect<U: Fn(Primitive, Scalar, Scalar) -> Scalar>(
        &mut self,
        effect: &AttributeEffect,
        unit: &U,
    )
        requires
            total(*unit),
        ensures
            old(self)@.applied_all(final(self)@, effect.buffs@, arithmetic_of(*unit)),
    {
        let mut i: usize = 0;
        while i < effect.buffs.len()
            invariant
                total(*unit),
                i <= effect.buffs.len(),
                old(self)@.applied_all(self@, effect.buffs@.take(i as int), arithmetic_of(*unit)),
            decreases effect.buffs.len() - i,
        {
            let ghost before = self@;
            self.apply_buff(effect.buffs[i].clone(), unit);
            proof {
                let longer = effect.buffs@.take(i + 1);
                assert(longer.drop_last() == effect.buffs@.take(i as int));
                assert(longer.last() == effect.buffs@[i as int]);
                assert(before.applied(self@, longer.last(), arithmetic_of(*unit)));
            }
            i += 1;
        }
        proof {
            assert(effect.buffs@.take(i as int) == effect.buffs@);
        }
    }

    /// Releases `buff` from the first attribute that holds a buff equal to
    /// it, and says whether there was one.
    pub fn remove_buff(&mut self, buff: &AttributeBuff) -> (r: bool)
        ensures
            r == (old(self)@.first_holder(*buff) < old(self)@.attributes.len()),
            final(self)@ == old(self)@.discard(*buff),
    {
        let ghost before = attribute_views(self.attributes@);
        let mut i: usize = 0;
        while i < self.attributes.len()
            invariant
                i <= self.attributes.len(),
                before == attribute_views(old(self).attributes@),
                attribute_views(self.attributes@) == before,
                forall|j: int| 0 <= j < i ==> !(#[trigger] before[j]).holds(*buff),
                self.buff_pool_queue == old(self).buff_pool_queue,
                self.server_authoritative == old(self).server_authoritative,
                self.events == old(self).events,
            decreases self.attributes.len() - i,
        {
            let ghost held = self.attributes@;
            proof {
                assert(before[i as int] == held[i as int]@);
            }
            if self.attributes[i].remove_buff(buff) {
                proof {
                    lemma_first_index_is(before, holding(*buff), i as int);
                    assert(attribute_views(self.attributes@) == before.update(
                        i as int,
                        before[i as int].release(*buff),
                    )) by {
                        assert forall|j: int| 0 <= j < before.len() implies attribute_views(
                            self.attributes@,
                        )[j] == before.update(i as int, before[i as int].release(*buff))[j] by {
                            if j != i {
                                assert(self.attributes@[j] == held[j]);
                                assert(before[j] == held[j]@);
                            }
                        }
                    }
                }
                return true;
            }
            proof {
                assert(attribute_views(self.attributes@) == before) by {
                    assert forall|j: int| 0 <= j < before.len() implies attribute_views(
                        self.attributes@,
                    )[j] == before[j] by {
                        if j != i {
                            assert(self.attributes@[j] == held[j]);
                        }
                        assert(before[j] == held[j]@);
                    }
                }
            }
            i += 1;
        }
        proof {
            lemma_first_index_is(before, holding(*buff), i as int);
        }
        false
    }

    /// Discards the buffs of the effect, in their order, and counts those
    /// that were found attached. The count wraps at the width of its type.
    pub fn remove_effect(&mut self, effect: &AttributeEffect) -> (r: u32)
        ensures
            final(self)@ == old(self)@.discard_all(effect.buffs@),
            r == #[verifier::truncate] (old(self)@.count_discarded(effect.buffs@) as u32),
    {
        let mut count: usize = 0;
        let mut i: usize = 0;
        while i < effect.buffs.len()
            invariant
                i <= effect.buffs.len(),
                self@ == old(self)@.discard_all(effect.buffs@.take(i as int)),
                count == old(self)@.count_discarded(effect.buffs@.take(i as int)),
                count <= i,
            decreases effect.buffs.len() - i,
        {
            proof {
                let longer = effect.buffs@.take(i + 1);
                assert(longer.drop_last() == effect.buffs@.take(i as int));
                assert(longer.last() == effect.buffs@[i as int]);
            }
            if self.remove_buff(&effect.buffs[i]) {
                count += 1;
            }
            i += 1;
        }
        proof {
            assert(effect.buffs@.take(i as int) == effect.buffs@);
        }
        #[verifier::truncate]
        (count as u32)
    }

    /// One step of the simulation, `delta` seconds long: the queue makes the
    /// step, and the container hears what the queue announces.
    pub fn physics_process<U: Fn(Primitive, Scalar, Scalar) -> Scalar>(
        &mut self,
        delta: Scalar,
        unit: &U,
    )
        requires
            total(*unit),
        ensures
            old(self)@.stepped(final(self)@, delta, arithmetic_of(*unit)),
    {
        let from = match &mut self.buff_pool_queue {
            Some(queue) => {
                let heard = queue.pending_events().len();
                let ghost before = queue@;
                queue.physics_process(delta, unit);
                proof {
                    lemma_step_extends_events(before, queue@, delta, arithmetic_of(*unit));
                }
                heard
            },
            None => {
                return ;
            },
        };
        self.hear(from);
    }

    /// Hears the events of the queue from the one at `from` on.
    fn hear(&mut self, from: usize)
        requires
            old(self)@.queue is Some,
            from <= old(self)@.queue->0.events.len(),
        ensures
            final(self)@ == old(self)@.heard(old(self)@.queue->0.events.skip(from as int)),
    {
        let ghost all = self@.queue->0.events;
        let count = match &self.buff_pool_queue {
            Some(queue) => queue.pending_events().len(),
            None => 0,
        };
        let mut k: usize = from;
        proof {
            assert(all.subrange(from as int, k as int).len() == 0);
        }
        while k < count
            invariant
                from <= k <= count,
                count == all.len(),
                old(self)@.queue is Some,
                all == old(self)@.queue->0.events,
                self@.queue == old(self)@.queue,
                self@ == old(self)@.heard(all.subrange(from as int, k as int)),
            decreases count - k,
        {
            let (buff, left) = self.event_at(k);
            proof {
                let longer = all.subrange(from as int, k + 1);
                assert(longer.drop_last() == all.subrange(from as int, k as int));
                assert(longer.last() == all[k as int]);
            }
            if left {
                self.events.push(ContainerEvent::AttributeBuffDequeued(buff.clone()));
                self.release_everywhere(&buff);
            } else {
                self.events.push(ContainerEvent::AttributeBuffEnqueued(buff));
            }
            k += 1;
        }
        proof {
            assert(all.subrange(from as int, k as int) == all.skip(from as int));
        }
    }

    /// The buff of the queue's event at `index`, and whether the event says
    /// that the buff left the queue.
    fn event_at(&self, index: usize) -> (r: (AttributeBuff, bool))
        requires
            self@.queue is Some,
            index < self@.queue->0.events.len(),
        ensures
            r.0 == self@.queue->0.events[index as int].subject(),
            r.1 == (self@.queue->0.events[index as int] is AttributeBuffDequeued),
    {
        let queue = self.buff_pool_queue.as_ref().unwrap();
        let event = &queue.pending_events()[index];
        (event.buff().clone(), event.is_dequeued())
    }

    /// Releases `buff` from every attribute.
    fn release_everywhere(&mut self, buff: &AttributeBuff)
        ensures
            final(self)@ == (ContainerView {
                attributes: old(self)@.attributes.map_values(releasing(*buff)),
                ..old(self)@
            }),
    {
        let mut i: usize = 0;
        while i < self.attributes.len()
            invariant
                i <= self.attributes.len(),
                self.attributes.len() == old(self).attributes.len(),
                forall|j: int|
                    0 <= j < i ==> (#[trigger] self.attributes@[j])@ == old(
                        self,
                    ).attributes@[j]@.release(*buff),
                forall|j: int|
                    i <= j < self.attributes.len() ==> (#[trigger] self.attributes@[j])
                        == old(self).attributes@[j],
                self.buff_pool_queue == old(self).buff_pool_queue,
                self.server_authoritative == old(self).server_authoritative,
                self.events == old(self).events,
            decreases self.attributes.len() - i,
        {
            self.attributes[i].remove_buff(buff);
            i += 1;
        }
        proof {
            assert(attribute_views(self.attributes@) == attribute_views(
                old(self).attributes@,
            ).map_values(releasing(*buff)));
        }
    }

    /// Says whether this side may change the queue where the server decides.
    /// Does nothing while the container has no queue.
    pub fn set_multiplayer_authority(&mut self, authority: bool)
        ensures
            final(self)@ == (ContainerView {
                queue: match old(self)@.queue {
                    Some(queue) => Some(QueueView { multiplayer_authority: authority, ..queue }),
                    None => None,
                },
                ..old(self)@
            }),
    {
        match &mut self.buff_pool_queue {
            Some(queue) => {
                queue.set_multiplayer_authority(authority);
            },
            None => {},
        }
    }

    /// Hands over the events that the container raised since they were last
    /// taken and forgets them.
    pub fn take_events(&mut self) -> (r: Vec<ContainerEvent>)
        ensures
            r@ == old(self)@.events,
            final(self)@ == (ContainerView { events: Seq::empty(), ..old(self)@ }),
    {
        let mut taken: Vec<ContainerEvent> = Vec::new();
        std::mem::swap(&mut taken, &mut self.events);
        taken
    }

    /// Hands over the events that the queue raised since they were last
    /// taken and forgets them. There are none while the container has no
    /// queue.
    pub fn take_queue_events(&mut self) -> (r: Vec<QueueEvent>)
        ensures
            match old(self)@.queue {
                Some(queue) => r@ == queue.events && final(self)@ == (ContainerView {
                    queue: Some(QueueView { events: Seq::empty(), ..queue }),
                    ..old(self)@
                }),
                None => r@.len() == 0 && final(self)@ == old(self)@,
            },
    {
        match &mut self.buff_pool_queue {
            Some(queue) => queue.take_events(),
            None => Vec::new(),
        }
    }

    /// Hands over the events that the attribute at `index` raised since they
    /// were last taken and forgets them. There are none where there is no such
    /// attribute.
    pub fn take_attribute_events(&mut self, index: usize) -> (r: Vec<AttributeEvent>)
        ensures
            index < old(self)@.attributes.len() ==> {
                &&& r@ == old(self)@.attributes[index as int].events
                &&& final(self)@ == (ContainerView {
                    attributes: old(self)@.attributes.update(
                        index as int,
                        AttributeView {
                            events: Seq::empty(),
                            ..old(self)@.attributes[index as int]
                        },
                    ),
                    ..old(self)@
                })
            },
            index >= old(self)@.attributes.len() ==> r@.len() == 0 && final(self)@ == old(self)@,
    {
        if index < self.attributes.len() {
            let taken = self.attributes[index].take_events();
            proof {
                assert(attribute_views(self.attributes@) == attribute_views(
                    old(self).attributes@,
                ).update(
                    index as int,
                    AttributeView {
                        events: Seq::empty(),
                        ..old(self).attributes@[index as int]@
                    },
                ));
            }
            taken
        } else {
            Vec::new()
        }
    }

    /// The stored form of the attributes.
    pub fn to_dictionary(&self) -> (r: AttributeDictionary)
        ensures
            r@ == written(self@.attributes),
            distinct_keys(r@),
    {
        proof {
            lemma_written_keys_distinct(self@.attributes);
        }
        let mut dict = AttributeDictionary::new();
        let ghost views = attribute_views(self.attributes@);
        let mut i: usize = 0;
        proof {
            assert(dict@ == written(views.take(0)));
        }
        while i < self.attributes.len()
            invariant
                i <= self.attributes.len(),
                views == attribute_views(self.attributes@),
                dict@ == written(views.take(i as int)),
            decreases self.attributes.len() - i,
        {
            let fields = self.attributes[i].to_fields();
            let key = self.attributes[i].name().clone();
            proof {
                let longer = views.take(i + 1);
                assert(longer.drop_last() == views.take(i as int));
                assert(longer.last() == self.attributes@[i as int]@);
            }
            dict.insert(key, Some(fields));
            i += 1;
        }
        proof {
            assert(views.take(i as int) == views);
        }
        dict
    }

    /// Restores an attribute from each entry of the dictionary, in their
    /// order, seeds its own value from its initial value, and puts it behind
    /// the attributes already there.
    pub fn from_dictionary(&mut self, dict: &AttributeDictionary)
        ensures
            final(self)@ == (ContainerView {
                attributes: old(self)@.attributes + dict@.map_values(restoring()),
                ..old(self)@
            }),
    {
        let mut i: usize = 0;
        proof {
            assert(dict@.take(0).map_values(restoring()) == Seq::<AttributeView>::empty());
            assert(old(self)@.attributes + Seq::<AttributeView>::empty() == old(self)@.attributes);
        }
        while i < dict.entries.len()
            invariant
                i <= dict.entries.len(),
                dict@.len() == dict.entries.len(),
                attribute_views(self.attributes@) == old(self)@.attributes + dict@.take(
                    i as int,
                ).map_values(restoring()),
                self.buff_pool_queue == old(self).buff_pool_queue,
                self.server_authoritative == old(self).server_authoritative,
                self.events == old(self).events,
            decreases dict.entries.len() - i,
        {
            let entry = &dict.entries[i];
            let attribute = Attribute::from_fields(entry.key.clone(), entry.value.as_ref());
            let ghost held = self.attributes@;
            self.attributes.push(attribute);
            proof {
                assert(dict@[i as int] == entry@);
                assert(attribute@ == restoring()(dict@[i as int]));
                assert(dict@.take(i + 1) == dict@.take(i as int).push(dict@[i as int]));
                assert(attribute_views(held.push(attribute)) == attribute_views(held).push(
                    attribute@,
                ));
            }
            i += 1;
        }
        proof {
            assert(dict@.take(i as int) == dict@);
        }
    }

    /// Puts the given attributes in the place of those of the container, as
    /// they are, and hands the former ones over.
    pub fn replace_attributes(&mut self, attributes: Vec<Attribute>) -> (r: Vec<Attribute>)
        ensures
            attribute_views(r@) == old(self)@.attributes,
            final(self)@ == (ContainerView {
                attributes: attribute_views(attributes@),
                ..old(self)@
            }),
    {
        let mut former = attributes;
        std::mem::swap(&mut former, &mut self.attributes);
        former
    }

    /// Says whether only the side with the authority may change the queue.
    /// A queue that is installed already keeps its setting.
    pub fn set_server_authoritative(&mut self, server_authoritative: bool)
        ensures
            final(self)@ == (ContainerView { server_authoritative, ..old(self)@ }),
    {
        self.server_authoritative = server_authoritative;
    }

    /// The attributes, in the order in which they were added.
    pub fn attributes(&self) -> (r: &Vec<Attribute>)
        ensures
            attribute_views(r@) == self@.attributes,
    {
        &self.attributes
    }

    /// The queue, once the container is ready.
    pub fn buff_pool_queue(&self) -> (r: Option<&BuffPoolQueue>)
        ensures
            match r {
                Some(queue) => self@.queue == Some(queue@),
                None => self@.queue is None,
            },
    {
        self.buff_pool_queue.as_ref()
    }

    /// Whether only the side with the authority may change the queue.
    pub fn server_authoritative(&self) -> (r: bool)
        ensures
            r == self@.server_authoritative,
    {
        self.server_authoritative
    }
}

} // verus!
