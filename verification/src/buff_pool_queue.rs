//! The queue that counts down timed buffs and retires them when their time
//! is up.

use vstd::prelude::*;
use crate::attribute_buff::AttributeBuff;
use crate::scalar::{Arithmetic, Primitive, Scalar, arithmetic_of, total, ONE_BITS};

verus! {

/// What the queue announces to its observers.
#[derive(Debug)]
pub enum QueueEvent {
    /// A timed buff entered the queue.
    AttributeBuffEnqueued(AttributeBuff),
    /// The time of a buff was up and it left the queue.
    AttributeBuffDequeued(AttributeBuff),
}

impl QueueEvent {
    /// The buff that the event is about.
    pub open spec fn subject(self) -> AttributeBuff {
        match self {
            QueueEvent::AttributeBuffEnqueued(buff) => buff,
            QueueEvent::AttributeBuffDequeued(buff) => buff,
        }
    }

    /// The buff that the event is about.
    pub fn buff(&self) -> (r: &AttributeBuff)
        ensures
            *r == self.subject(),
    {
        match self {
            QueueEvent::AttributeBuffEnqueued(buff) => buff,
            QueueEvent::AttributeBuffDequeued(buff) => buff,
        }
    }

    /// Whether the event says that a buff left the queue.
    pub fn is_dequeued(&self) -> (r: bool)
        ensures
            r == (self is AttributeBuffDequeued),
    {
        match self {
            QueueEvent::AttributeBuffEnqueued(_) => false,
            QueueEvent::AttributeBuffDequeued(_) => true,
        }
    }
}

/// A buff in the queue, with the seconds it has left.
#[derive(Debug)]
pub struct BuffPoolQueueItem {
    buff: AttributeBuff,
    eligible_for_removal: bool,
    seconds_remaining: Scalar,
}

/// An item as the contracts see it.
pub ghost struct ItemView {
    pub buff: AttributeBuff,
    pub eligible_for_removal: bool,
    pub seconds_remaining: Scalar,
}

impl View for BuffPoolQueueItem {
    type V = ItemView;

    closed spec fn view(&self) -> ItemView {
        ItemView {
            buff: self.buff,
            eligible_for_removal: self.eligible_for_removal,
            seconds_remaining: self.seconds_remaining,
        }
    }
}

impl ItemView {
    /// `post` is the item one second later under the arithmetic: one was
    /// taken from the seconds left, and the item is eligible for removal
    /// exactly if none is left.
    pub open spec fn aged(self, post: ItemView, arithmetic: Arithmetic) -> bool {
        &&& post.buff == self.buff
        &&& arithmetic(
            Primitive::Difference,
            self.seconds_remaining,
            Scalar { bits: ONE_BITS },
            post.seconds_remaining,
        )
        &&& post.eligible_for_removal == post.seconds_remaining.spec_at_most_zero()
    }
}

impl Default for BuffPoolQueueItem {
    /// An item for the default buff, with no time left and not yet eligible
    /// for removal.
    fn default() -> (r: BuffPoolQueueItem)
        ensures
            r@.buff.duration.bits == 0,
            r@.seconds_remaining.bits == 0,
            !r@.eligible_for_removal,
    {
        BuffPoolQueueItem::new(AttributeBuff::default())
    }
}

impl BuffPoolQueueItem {
    /// An item for `buff` with the whole of its duration left.
    pub fn new(buff: AttributeBuff) -> (r: BuffPoolQueueItem)
        ensures
            r@ == (ItemView {
                buff,
                eligible_for_removal: false,
                seconds_remaining: buff.duration,
            }),
    {
        let seconds_remaining = buff.duration;
        BuffPoolQueueItem { buff, eligible_for_removal: false, seconds_remaining }
    }

    /// Puts `buff` in the item and gives it the whole of its duration.
    pub fn set_buff(&mut self, buff: AttributeBuff) -> (r: &mut BuffPoolQueueItem)
        ensures
            r@ == (ItemView { buff, seconds_remaining: buff.duration, ..old(self)@ }),
            *final(self) == *final(r),
    {
        self.seconds_remaining = buff.duration;
        self.buff = buff;
        self
    }

    /// Lets one second pass for the item.
    pub fn second_passed<U: Fn(Primitive, Scalar, Scalar) -> Scalar>(&mut self, unit: &U) -> (r:
        &mut BuffPoolQueueItem)
        requires
            total(*unit),
        ensures
            old(self)@.aged(r@, arithmetic_of(*unit)),
            *final(self) == *final(r),
    {
        self.seconds_remaining = unit(Primitive::Difference, self.seconds_remaining, Scalar::one());
        self.eligible_for_removal = self.seconds_remaining.at_most_zero();
        self
    }

    /// The buff of the item.
    pub fn buff(&self) -> (r: &AttributeBuff)
        ensures
            *r == self@.buff,
    {
        &self.buff
    }

    /// Whether the time of the item is up.
    pub fn eligible_for_removal(&self) -> (r: bool)
        ensures
            r == self@.eligible_for_removal,
    {
        self.eligible_for_removal
    }

    /// The seconds that the item has left.
    pub fn seconds_remaining(&self) -> (r: Scalar)
        ensures
            r == self@.seconds_remaining,
    {
        self.seconds_remaining
    }
}

/// The queue. Items stand in the order in which they entered.
#[derive(Debug)]
pub struct BuffPoolQueue {
    pub queue: Vec<BuffPoolQueueItem>,
    pub server_authoritative: bool,
    multiplayer_authority: bool,
    tick: Scalar,
    events: Vec<QueueEvent>,
}

/// The queue as the contracts see it.
pub ghost struct QueueView {
    /// The items, in the order in which they entered.
    pub items: Seq<ItemView>,
    pub server_authoritative: bool,
    /// This side is the one that may change the queue.
    pub multiplayer_authority: bool,
    /// The part of a second that has been counted and not yet spent.
    pub tick: Scalar,
    /// The events raised and not yet taken, oldest first.
    pub events: Seq<QueueEvent>,
}

/// The views of the items, in their order.
pub open spec fn item_views(items: Seq<BuffPoolQueueItem>) -> Seq<ItemView> {
    items.map_values(|item: BuffPoolQueueItem| item@)
}

/// The items whose time is up.
pub open spec fn expired() -> spec_fn(ItemView) -> bool {
    |item: ItemView| item.eligible_for_removal
}

/// The items that still have time left.
pub open spec fn alive() -> spec_fn(ItemView) -> bool {
    |item: ItemView| !item.eligible_for_removal
}

/// The announcement that the buff of an item left the queue.
pub open spec fn dequeued() -> spec_fn(ItemView) -> QueueEvent {
    |item: ItemView| QueueEvent::AttributeBuffDequeued(item.buff)
}

/// `post` holds the items of `pre`, each one second later under the
/// arithmetic.
pub open spec fn all_aged(pre: Seq<ItemView>, post: Seq<ItemView>, arithmetic: Arithmetic) -> bool {
    &&& post.len() == pre.len()
    &&& forall|i: int| 0 <= i < pre.len() ==> (#[trigger] pre[i]).aged(post[i], arithmetic)
}

impl QueueView {
    /// The queue is a passive mirror: another side has the authority, and
    /// nothing here may change it.
    pub open spec fn gated(self) -> bool {
        self.server_authoritative && !self.multiplayer_authority
    }

    /// The queue after `buff` was offered: unchanged where the queue is
    /// gated; else with a new item at its end that has the whole duration of
    /// `buff` left, and the entry announced.
    pub open spec fn enqueue(self, buff: AttributeBuff) -> QueueView {
        if self.gated() {
            self
        } else {
            QueueView {
                items: self.items.push(
                    ItemView {
                        buff,
                        eligible_for_removal: false,
                        seconds_remaining: buff.duration,
                    },
                ),
                events: self.events.push(QueueEvent::AttributeBuffEnqueued(buff)),
                ..self
            }
        }
    }

    /// The queue after the items whose time is up were removed: unchanged
    /// where the queue is gated; else the others stay in their order, and the
    /// removed ones are announced from the last to the first.
    pub open spec fn sweep(self) -> QueueView {
        if self.gated() {
            self
        } else {
            QueueView {
                items: self.items.filter(alive()),
                events: self.events + self.items.filter(expired()).reverse().map_values(
                    dequeued(),
                ),
                ..self
            }
        }
    }

    /// `post` is a state that one second passing may lead to under the
    /// arithmetic: unchanged where the queue is gated; else every item is one
    /// second later, and then the queue is swept.
    pub open spec fn second_pass(self, post: QueueView, arithmetic: Arithmetic) -> bool {
        if self.gated() {
            post == self
        } else {
            exists|later: Seq<ItemView>| #[trigger]
                all_aged(self.items, later, arithmetic) && post == (QueueView {
                    items: later,
                    ..self
                }).sweep()
        }
    }

    /// `post` is the queue after `counted` seconds were counted: where that
    /// is less than one second, they are kept as the counted time; else one
    /// second is taken from them, what is left is kept, and one second passes
    /// for the queue, once, however many seconds were counted.
    pub open spec fn spend(self, post: QueueView, counted: Scalar, arithmetic: Arithmetic) -> bool {
        if counted.spec_at_least_one() {
            exists|carried: Scalar| #[trigger]
                arithmetic(Primitive::Difference, counted, Scalar { bits: ONE_BITS }, carried) && (
                QueueView { tick: carried, ..self }).second_pass(post, arithmetic)
        } else {
            post == (QueueView { tick: counted, ..self })
        }
    }

    /// `post` is a state that a step of `delta` seconds may lead to under the
    /// arithmetic: unchanged where the queue is gated; else `delta` is added
    /// to the counted time, and the sum is spent.
    pub open spec fn step(self, post: QueueView, delta: Scalar, arithmetic: Arithmetic) -> bool {
        if self.gated() {
            post == self
        } else {
            exists|counted: Scalar| #[trigger]
                arithmetic(Primitive::Sum, self.tick, delta, counted) && self.spend(
                    post,
                    counted,
                    arithmetic,
                )
        }
    }
}

/// A call on the queue.
pub ghost enum QueueCall {
    /// A buff is offered.
    Enqueue(AttributeBuff),
    /// A step of so many seconds is made.
    Step(Scalar),
    /// One second passes.
    SecondPass,
    /// The items whose time is up are removed.
    Cleanup,
}

impl QueueView {
    /// `post` is a state that the call may lead to under the arithmetic.
    pub open spec fn called(self, post: QueueView, call: QueueCall, arithmetic: Arithmetic) -> bool {
        match call {
            QueueCall::Enqueue(buff) => post == self.enqueue(buff),
            QueueCall::Step(delta) => self.step(post, delta, arithmetic),
            QueueCall::SecondPass => self.second_pass(post, arithmetic),
            QueueCall::Cleanup => post == self.sweep(),
        }
    }

    /// `post` is a state that the calls, one after the other, may lead to
    /// under the arithmetic.
    pub open spec fn called_all(
        self,
        post: QueueView,
        calls: Seq<QueueCall>,
        arithmetic: Arithmetic,
    ) -> bool
        decreases calls.len(),
    {
        if calls.len() == 0 {
            post == self
        } else {
            exists|before: QueueView|
                self.called_all(before, calls.drop_last(), arithmetic) && #[trigger] before.called(
                    post,
                    calls.last(),
                    arithmetic,
                )
        }
    }
}

/// A gated queue is inert: whatever is called on it, and however often, its
/// items, its counted time and its pending events stay as they are.
pub proof fn lemma_gated_queue_is_inert(
    pre: QueueView,
    post: QueueView,
    calls: Seq<QueueCall>,
    arithmetic: Arithmetic,
)
    requires
        pre.gated(),
        pre.called_all(post, calls, arithmetic),
    ensures
        post == pre,
    decreases calls.len(),
{
    if calls.len() > 0 {
        let before = choose|before: QueueView|
            pre.called_all(before, calls.drop_last(), arithmetic) && #[trigger] before.called(
                post,
                calls.last(),
                arithmetic,
            );
        lemma_gated_queue_is_inert(pre, before, calls.drop_last(), arithmetic);
    }
}

/// A step keeps the events that were pending and may add some behind them.
pub proof fn lemma_step_extends_events(
    pre: QueueView,
    post: QueueView,
    delta: Scalar,
    arithmetic: Arithmetic,
)
    requires
        pre.step(post, delta, arithmetic),
    ensures
        pre.events.len() <= post.events.len(),
        post.events.take(pre.events.len() as int) == pre.events,
        post.server_authoritative == pre.server_authoritative,
        post.multiplayer_authority == pre.multiplayer_authority,
{
    assert(pre.events.take(pre.events.len() as int) == pre.events);
    if !pre.gated() {
        let counted = choose|counted: Scalar| #[trigger]
            arithmetic(Primitive::Sum, pre.tick, delta, counted) && pre.spend(
                post,
                counted,
                arithmetic,
            );
        if counted.spec_at_least_one() {
            let carried = choose|carried: Scalar| #[trigger]
                arithmetic(Primitive::Difference, counted, Scalar { bits: ONE_BITS }, carried) && (
                QueueView { tick: carried, ..pre }).second_pass(post, arithmetic);
            let ticked = QueueView { tick: carried, ..pre };
            let later = choose|later: Seq<ItemView>| #[trigger]
                all_aged(ticked.items, later, arithmetic) && post == (QueueView {
                    items: later,
                    ..ticked
                }).sweep();
            let news = later.filter(expired()).reverse().map_values(dequeued());
            assert((pre.events + news).take(pre.events.len() as int) == pre.events);
        }
    }
}

impl View for BuffPoolQueue {
    type V = QueueView;

    closed spec fn view(&self) -> QueueView {
        QueueView {
            items: item_views(self.queue@),
            server_authoritative: self.server_authoritative,
            multiplayer_authority: self.multiplayer_authority,
            tick: self.tick,
            events: self.events@,
        }
    }
}

impl Default for BuffPoolQueue {
    /// An empty queue that any side may change.
    fn default() -> (r: BuffPoolQueue)
        ensures
            r@ == (QueueView {
                items: Seq::empty(),
                server_authoritative: false,
                multiplayer_authority: true,
                tick: Scalar { bits: 0 },
                events: Seq::empty(),
            }),
    {
        BuffPoolQueue::new(false)
    }
}

impl BuffPoolQueue {
    /// An empty queue that has the authority.
    pub fn new(server_authoritative: bool) -> (r: BuffPoolQueue)
        ensures
            r@ == (QueueView {
                items: Seq::empty(),
                server_authoritative,
                multiplayer_authority: true,
                tick: Scalar { bits: 0 },
                events: Seq::empty(),
            }),
    {
        let r = BuffPoolQueue {
            queue: Vec::new(),
            server_authoritative,
            multiplayer_authority: true,
            tick: Scalar::zero(),
            events: Vec::new(),
        };
        proof {
            assert(item_views(r.queue@) == Seq::<ItemView>::empty());
        }
        r
    }

    /// Whether this side may change the queue where the server decides.
    pub fn is_multiplayer_authority(&self) -> (r: bool)
        ensures
            r == self@.multiplayer_authority,
    {
        self.multiplayer_authority
    }

    /// Says whether this side may change the queue where the server decides.
    pub fn set_multiplayer_authority(&mut self, authority: bool)
        ensures
            final(self)@ == (QueueView { multiplayer_authority: authority, ..old(self)@ }),
    {
        self.multiplayer_authority = authority;
    }

    /// The part of a second that has been counted and not yet spent.
    pub fn tick(&self) -> (r: Scalar)
        ensures
            r == self@.tick,
    {
        self.tick
    }

    /// Whether the queue is a passive mirror that nothing here may change.
    pub fn is_gated(&self) -> (r: bool)
        ensures
            r == self@.gated(),
    {
        self.server_authoritative && !self.multiplayer_authority
    }

    /// One step of the simulation, `delta` seconds long.
    pub fn physics_process<U: Fn(Primitive, Scalar, Scalar) -> Scalar>(
        &mut self,
        delta: Scalar,
        unit: &U,
    )
        requires
            total(*unit),
        ensures
            old(self)@.step(final(self)@, delta, arithmetic_of(*unit)),
    {
        if self.is_gated() {
            return ;
        }
        let counted = unit(Primitive::Sum, self.tick, delta);
        self.tick = counted;
        proof {
            assert(arithmetic_of(*unit)(Primitive::Sum, old(self)@.tick, delta, counted));
        }
        if counted.at_least_one() {
            let carried = unit(Primitive::Difference, counted, Scalar::one());
            self.tick = carried;
            proof {
                assert(arithmetic_of(*unit)(
                    Primitive::Difference,
                    counted,
                    Scalar { bits: ONE_BITS },
                    carried,
                ));
            }
            self.process_items(unit);
        }
    }

    /// Offers a timed buff to the queue.
    pub fn add_attribute_buff(&mut self, buff: AttributeBuff)
        ensures
            final(self)@ == old(self)@.enqueue(buff),
    {
        if self.is_gated() {
            return ;
        }
        self.events.push(QueueEvent::AttributeBuffEnqueued(buff.clone()));
        self.queue.push(BuffPoolQueueItem::new(buff));
        proof {
            old(self).queue@.lemma_push_map_commute(
                |item: BuffPoolQueueItem| item@,
                self.queue@.last(),
            );
        }
    }

    /// Removes the items whose time is up and announces each of them.
    pub fn cleanup(&mut self)
        ensures
            final(self)@ == old(self)@.sweep(),
    {
        if self.is_gated() {
            return ;
        }
        let ghost before = item_views(self.queue@);
        let ghost announced = self.events@;
        let mut i: usize = self.queue.len();
        proof {
            assert(before.take(i as int) == before);
            assert(before.skip(i as int).filter(alive()) == Seq::<ItemView>::empty()) by {
                reveal(Seq::filter);
            }
            assert(before.skip(i as int).filter(expired()).reverse().map_values(dequeued())
                == Seq::<QueueEvent>::empty()) by {
                reveal(Seq::filter);
            }
        }
        while i > 0
            invariant
                i <= before.len(),
                before == item_views(old(self).queue@),
                announced == old(self).events@,
                item_views(self.queue@) == before.take(i as int) + before.skip(i as int).filter(
                    alive(),
                ),
                self.events@ == announced + before.skip(i as int).filter(
                    expired(),
                ).reverse().map_values(dequeued()),
                self.server_authoritative == old(self).server_authoritative,
                self.multiplayer_authority == old(self).multiplayer_authority,
                self.tick == old(self).tick,
            decreases i,
        {
            i -= 1;
            let ghost item = before[i as int];
            let ghost rest = before.skip(i + 1);
            proof {
                assert(before.skip(i as int) == seq![item] + rest);
                rest.lemma_filter_prepend(item, alive());
                rest.lemma_filter_prepend(item, expired());
                rest.lemma_filter_len(alive());
                assert(before.take(i + 1) == before.take(i as int).push(item));
                assert(item_views(self.queue@).len() == self.queue@.len());
                assert(item_views(self.queue@)[i as int] == item);
                assert(self.queue@[i as int]@ == item);
            }
            if self.queue[i].eligible_for_removal {
                let ghost held = self.queue@;
                self.events.push(
                    QueueEvent::AttributeBuffDequeued(self.queue[i].buff.clone()),
                );
                self.queue.remove(i);
                proof {
                    assert(item_views(held.remove(i as int)) == item_views(held).remove(i as int));
                    assert((seq![item] + rest.filter(expired())).reverse() == rest.filter(
                        expired(),
                    ).reverse().push(item));
                    rest.filter(expired()).reverse().lemma_push_map_commute(dequeued(), item);
                }
            }
        }
        proof {
            assert(before.skip(0) == before);
            assert(before.take(0) + before.filter(alive()) == before.filter(alive()));
        }
    }

    /// Lets one second pass for every item, then removes those whose time is
    /// up.
    pub fn process_items<U: Fn(Primitive, Scalar, Scalar) -> Scalar>(&mut self, unit: &U)
        requires
            total(*unit),
        ensures
            old(self)@.second_pass(final(self)@, arithmetic_of(*unit)),
    {
        if self.is_gated() {
            return ;
        }
        let ghost before = item_views(self.queue@);
        let mut i: usize = 0;
        while i < self.queue.len()
            invariant
                total(*unit),
                i <= self.queue.len(),
                self.queue.len() == before.len(),
                before == item_views(old(self).queue@),
                forall|j: int|
                    0 <= j < i ==> (#[trigger] before[j]).aged(
                        self.queue@[j]@,
                        arithmetic_of(*unit),
                    ),
                forall|j: int| i <= j < before.len() ==> self.queue@[j]@ == #[trigger] before[j],
                self.events == old(self).events,
                self.server_authoritative == old(self).server_authoritative,
                self.multiplayer_authority == old(self).multiplayer_authority,
                self.tick == old(self).tick,
            decreases self.queue.len() - i,
        {
            self.queue[i].second_passed(unit);
            i += 1;
        }
        let ghost later = item_views(self.queue@);
        proof {
            assert(self@ == (QueueView { items: later, ..old(self)@ }));
        }
        self.cleanup();
        proof {
            assert(all_aged(old(self)@.items, later, arithmetic_of(*unit)));
        }
    }

    /// The events raised since they were last taken, oldest first.
    pub fn pending_events(&self) -> (r: &Vec<QueueEvent>)
        ensures
            r@ == self@.events,
    {
        &self.events
    }

    /// Hands over the events raised since they were last taken and forgets
    /// them.
    pub fn take_events(&mut self) -> (r: Vec<QueueEvent>)
        ensures
            r@ == old(self)@.events,
            final(self)@ == (QueueView { events: Seq::empty(), ..old(self)@ }),
    {
        let mut taken: Vec<QueueEvent> = Vec::new();
        std::mem::swap(&mut taken, &mut self.events);
        taken
    }
}

} // verus!
