//! Accounting of a subscription that falls behind.
//!
//! New messages are offered to a subscriber over a bounded channel. A message
//! that finds the channel full is counted, and the count is reported as soon as
//! the channel takes it.

use vstd::prelude::*;

verus! {

/// How many frames a subscriber's channel holds.
pub const CHANNEL_FRAMES: usize = 256;

/// What became of a frame that was offered.
#[derive(Debug, Clone, Copy, PartialEq, Eq, Structural)]
pub enum Offer {
    /// The channel took it.
    Taken,
    /// The channel is full.
    Full,
    /// The subscriber is gone.
    Gone,
}

/// How far a subscriber is behind.
#[derive(Debug, Clone, Copy, PartialEq, Eq, Structural)]
pub struct Lag {
    /// Messages dropped since the last report that was taken.
    pub dropped: u64,
}

impl Lag {
    /// A subscriber that is not behind.
    pub fn new() -> (l: Lag)
        ensures
            l.dropped == 0,
    {
        Lag { dropped: 0 }
    }

    /// The count to report before the next message is offered, if there is one.
    pub fn report(&self) -> (r: Option<u64>)
        ensures
            r == if self.dropped > 0 {
                Some(self.dropped)
            } else {
                None
            },
    {
        if self.dropped > 0 {
            Some(self.dropped)
        } else {
            None
        }
    }

    /// Take what became of a report. `false` where the subscriber is gone.
    pub fn reported(&mut self, o: Offer) -> (r: bool)
        ensures
            r == (o != Offer::Gone),
            final(self).dropped == if o == Offer::Taken {
                0
            } else {
                old(self).dropped
            },
    {
        match o {
            Offer::Taken => {
                self.dropped = 0;
                true
            },
            Offer::Full => true,
            Offer::Gone => false,
        }
    }

    /// Take what became of a message. `false` where the subscriber is gone.
    pub fn offered(&mut self, o: Offer) -> (r: bool)
        requires
            old(self).dropped < u64::MAX,
        ensures
            r == (o != Offer::Gone),
            final(self).dropped == if o == Offer::Full {
                old(self).dropped + 1
            } else {
                old(self).dropped as int
            },
    {
        match o {
            Offer::Taken => true,
            Offer::Full => {
                self.dropped = self.dropped + 1;
                true
            },
            Offer::Gone => false,
        }
    }
}

/// A subscription after some messages.
pub struct Streamed {
    /// Messages that the subscriber was given.
    pub given: nat,
    /// Messages that the subscriber was told it missed.
    pub told: nat,
    /// Messages dropped and not yet told.
    pub dropped: nat,
}

/// A subscription after each of `pushes`: what became of the report, where one
/// was due, and of the message.
pub open spec fn streamed(pushes: Seq<(Offer, Offer)>) -> Streamed
    decreases pushes.len(),
{
    if pushes.len() == 0 {
        Streamed { given: 0, told: 0, dropped: 0 }
    } else {
        let s = streamed(pushes.drop_last());
        let (report, message) = pushes.last();
        let s1 = if s.dropped > 0 && report == Offer::Taken {
            Streamed { told: s.told + s.dropped, dropped: 0, ..s }
        } else {
            s
        };
        match message {
            Offer::Taken => Streamed { given: s1.given + 1, ..s1 },
            Offer::Full => Streamed { dropped: s1.dropped + 1, ..s1 },
            Offer::Gone => s1,
        }
    }
}

/// The subscriber is found to be gone by a push: by its report, where one was
/// due, or by its message.
pub open spec fn is_gone(dropped: nat, push: (Offer, Offer)) -> bool {
    (dropped > 0 && push.0 == Offer::Gone) || push.1 == Offer::Gone
}

/// The subscriber was there at every push.
pub open spec fn is_alive(pushes: Seq<(Offer, Offer)>) -> bool
    decreases pushes.len(),
{
    pushes.len() == 0 || (is_alive(pushes.drop_last()) && !is_gone(
        streamed(pushes.drop_last()).dropped,
        pushes.last(),
    ))
}

/// How many messages a subscription accounts for: those given, those the
/// subscriber was told of, and those still to be told.
pub open spec fn accounted(s: Streamed) -> nat {
    s.given + s.told + s.dropped
}

impl Lag {
    /// The lag after a push, or nothing where the subscriber is gone.
    pub fn after(&self, report: Offer, message: Offer) -> (r: Option<Lag>)
        requires
            self.dropped < u64::MAX,
        ensures
            r is None <==> is_gone(self.dropped as nat, (report, message)),
            forall|pushes: Seq<(Offer, Offer)>|
                streamed(pushes).dropped == self.dropped && r is Some
                    ==> #[trigger] streamed(pushes.push((report, message))).dropped
                    == r->0.dropped,
    {
        let mut l: Lag = *self;
        if l.report().is_some() {
            if !l.reported(report) {
                return None;
            }
        }
        if !l.offered(message) {
            return None;
        }
        proof {
            assert forall|pushes: Seq<(Offer, Offer)>|
                streamed(
                    pushes,
                ).dropped == self.dropped implies #[trigger] streamed(
                pushes.push((report, message)),
            ).dropped == l.dropped by {
                assert(pushes.push((report, message)).drop_last() =~= pushes);
            }
        }
        Some(l)
    }
}

/// A live subscriber.
pub struct Subscriber {
    id: u64,
    lag: Lag,
    pushes: Ghost<Seq<(Offer, Offer)>>,
}

/// The model of a [`Subscriber`].
pub struct SubscriberView {
    pub id: u64,
    /// What became of every push so far.
    pub pushes: Seq<(Offer, Offer)>,
}

impl View for Subscriber {
    type V = SubscriberView;

    closed spec fn view(&self) -> SubscriberView {
        SubscriberView { id: self.id, pushes: self.pushes@ }
    }
}

/// The live subscribers, in the order in which they came.
pub struct Subscribers {
    list: Vec<Subscriber>,
    next_id: u64,
}

/// The model of [`Subscribers`].
pub struct SubscribersView {
    pub list: Seq<SubscriberView>,
    /// The id of the next one to come.
    pub next_id: u64,
}

spec fn views(v: Seq<Subscriber>) -> Seq<SubscriberView> {
    Seq::new(v.len(), |i: int| v[i]@)
}

impl View for Subscribers {
    type V = SubscribersView;

    closed spec fn view(&self) -> SubscribersView {
        SubscribersView { list: views(self.list@), next_id: self.next_id }
    }
}

/// Ids ascend and were all given; every subscriber was there at every push.
pub open spec fn subscribers_wf(s: SubscribersView) -> bool {
    &&& s.next_id >= 1
    &&& forall|i: int|
        0 <= i < s.list.len() ==> 1 <= (#[trigger] s.list[i]).id < s.next_id && is_alive(
            s.list[i].pushes,
        )
    &&& forall|i: int, j: int|
        0 <= i < j < s.list.len() ==> (#[trigger] s.list[i]).id < (#[trigger] s.list[j]).id
}

/// How many messages a subscriber has dropped and not been told of.
pub open spec fn lag_of(s: SubscriberView) -> nat {
    streamed(s.pushes).dropped
}

/// The subscribers after a push with the given outcomes: those that are gone are
/// removed, and the others stay in their order.
pub open spec fn settled(list: Seq<SubscriberView>, outcomes: Seq<(Offer, Offer)>) -> Seq<
    SubscriberView,
>
    decreases list.len(),
{
    if list.len() == 0 {
        Seq::empty()
    } else {
        let front = settled(list.drop_last(), outcomes.drop_last());
        let s = list.last();
        if is_gone(lag_of(s), outcomes.last()) {
            front
        } else {
            front.push(SubscriberView { pushes: s.pushes.push(outcomes.last()), ..s })
        }
    }
}

/// The ids of the subscribers that are gone, in their order.
pub open spec fn departed(list: Seq<SubscriberView>, outcomes: Seq<(Offer, Offer)>) -> Seq<u64>
    decreases list.len(),
{
    if list.len() == 0 {
        Seq::empty()
    } else {
        let front = departed(list.drop_last(), outcomes.drop_last());
        let s = list.last();
        if is_gone(lag_of(s), outcomes.last()) {
            front.push(s.id)
        } else {
            front
        }
    }
}

/// The subscribers without one.
pub open spec fn without(list: Seq<SubscriberView>, id: u64) -> Seq<SubscriberView>
    decreases list.len(),
{
    if list.len() == 0 {
        Seq::empty()
    } else if list.last().id == id {
        without(list.drop_last(), id)
    } else {
        without(list.drop_last(), id).push(list.last())
    }
}

/// `b` holds only ids of `a`, in ascending order.
spec fn ids_kept(a: Seq<SubscriberView>, b: Seq<SubscriberView>) -> bool {
    &&& b.len() <= a.len()
    &&& forall|i: int| 0 <= i < b.len() ==> has_id(a, (#[trigger] b[i]).id)
    &&& forall|i: int, j: int|
        0 <= i < j < b.len() ==> (#[trigger] b[i]).id < (#[trigger] b[j]).id
}

/// A subscriber has this id.
pub open spec fn has_id(list: Seq<SubscriberView>, id: u64) -> bool {
    exists|i: int| 0 <= i < list.len() && (#[trigger] list[i]).id == id
}

/// Ids ascend.
pub open spec fn ids_ascend(list: Seq<SubscriberView>) -> bool {
    forall|i: int, j: int|
        0 <= i < j < list.len() ==> (#[trigger] list[i]).id < (#[trigger] list[j]).id
}

proof fn lemma_front(list: Seq<SubscriberView>)
    requires
        list.len() > 0,
        ids_ascend(list),
    ensures
        ids_ascend(list.drop_last()),
        forall|id: u64| #[trigger]
            has_id(list.drop_last(), id) ==> has_id(list, id) && id < list.last().id,
        has_id(list, list.last().id),
{
    let front = list.drop_last();
    assert forall|i: int, j: int| 0 <= i < j < front.len() implies (#[trigger] front[i]).id < (
    #[trigger] front[j]).id by {
        assert(front[i] == list[i] && front[j] == list[j]);
    }
    assert forall|id: u64| #[trigger] has_id(front, id) implies has_id(list, id) && id
        < list.last().id by {
        let i = choose|i: int| 0 <= i < front.len() && (#[trigger] front[i]).id == id;
        assert(list[i].id == id);
        assert(list[i].id < list[list.len() - 1].id);
    }
    assert(list[list.len() - 1].id == list.last().id);
}

proof fn lemma_extended(
    a: Seq<SubscriberView>,
    kept: Seq<SubscriberView>,
    last: SubscriberView,
)
    requires
        a.len() > 0,
        ids_ascend(a),
        ids_kept(a.drop_last(), kept),
        last.id == a.last().id,
    ensures
        ids_kept(a, kept),
        ids_kept(a, kept.push(last)),
{
    lemma_front(a);
    let all = kept.push(last);
    assert forall|i: int| 0 <= i < kept.len() implies has_id(a, (#[trigger] kept[i]).id) by {
        assert(has_id(a.drop_last(), kept[i].id));
    }
    assert forall|i: int| 0 <= i < all.len() implies has_id(a, (#[trigger] all[i]).id) by {
        if i < kept.len() {
            assert(all[i] == kept[i]);
        }
    }
    assert forall|i: int, j: int| 0 <= i < j < all.len() implies (#[trigger] all[i]).id < (
    #[trigger] all[j]).id by {
        assert(all[i] == kept[i]);
        assert(has_id(a.drop_last(), kept[i].id));
        if j < kept.len() {
            assert(all[j] == kept[j]);
        }
    }
}

proof fn lemma_settled(list: Seq<SubscriberView>, outcomes: Seq<(Offer, Offer)>)
    requires
        ids_ascend(list),
        list.len() == outcomes.len(),
        forall|i: int| 0 <= i < list.len() ==> is_alive((#[trigger] list[i]).pushes),
    ensures
        ids_kept(list, settled(list, outcomes)),
        forall|i: int|
            0 <= i < settled(list, outcomes).len() ==> is_alive(
                (#[trigger] settled(list, outcomes)[i]).pushes,
            ),
    decreases list.len(),
{
    if list.len() > 0 {
        let l = list.drop_last();
        let o = outcomes.drop_last();
        lemma_front(list);
        assert forall|i: int| 0 <= i < l.len() implies is_alive((#[trigger] l[i]).pushes) by {
            assert(l[i] == list[i]);
        }
        lemma_settled(l, o);
        let s = list.last();
        let next = SubscriberView { pushes: s.pushes.push(outcomes.last()), ..s };
        lemma_extended(list, settled(l, o), next);
        assert(next.pushes.drop_last() =~= s.pushes);
        assert(list[list.len() - 1] == s);
    }
}

proof fn lemma_without(list: Seq<SubscriberView>, id: u64)
    requires
        ids_ascend(list),
        forall|i: int| 0 <= i < list.len() ==> is_alive((#[trigger] list[i]).pushes),
    ensures
        ids_kept(list, without(list, id)),
        forall|i: int|
            0 <= i < without(list, id).len() ==> is_alive(
                (#[trigger] without(list, id)[i]).pushes,
            ),
    decreases list.len(),
{
    if list.len() > 0 {
        let l = list.drop_last();
        lemma_front(list);
        assert forall|i: int| 0 <= i < l.len() implies is_alive((#[trigger] l[i]).pushes) by {
            assert(l[i] == list[i]);
        }
        lemma_without(l, id);
        lemma_extended(list, without(l, id), list.last());
        assert(list[list.len() - 1] == list.last());
    }
}

impl Subscribers {
    /// What holds of every list of subscribers.
    pub closed spec fn wf(&self) -> bool {
        &&& subscribers_wf(self@)
        &&& forall|i: int|
            0 <= i < self.list@.len() ==> (#[trigger] self.list@[i]).lag.dropped == lag_of(
                self.list@[i]@,
            )
    }

    /// What [`Subscribers::wf`] says of the model.
    pub proof fn lemma_wf(&self)
        requires
            self.wf(),
        ensures
            subscribers_wf(self@),
    {
    }

    /// No subscribers.
    pub fn new() -> (s: Subscribers)
        ensures
            s.wf(),
            s@.list == Seq::<SubscriberView>::empty(),
            s@.next_id == 1,
    {
        let s = Subscribers { list: Vec::new(), next_id: 1 };
        assert(s@.list =~= Seq::empty());
        s
    }

    /// Take a new subscriber, and give it an id that none had before.
    pub fn register(&mut self) -> (id: u64)
        requires
            old(self).wf(),
            old(self)@.next_id < u64::MAX,
        ensures
            final(self).wf(),
            id == old(self)@.next_id,
            final(self)@ == (SubscribersView {
                list: old(self)@.list.push(SubscriberView { id, pushes: Seq::empty() }),
                next_id: (id + 1) as u64,
            }),
    {
        let id: u64 = self.next_id;
        let ghost before = self@.list;
        self.list.push(Subscriber { id, lag: Lag::new(), pushes: Ghost(Seq::empty()) });
        self.next_id = id + 1;
        proof {
            let new = SubscriberView { id, pushes: Seq::empty() };
            assert(self@.list =~= before.push(new));
            assert forall|i: int, j: int| 0 <= i < j < self@.list.len() implies (
            #[trigger] self@.list[i]).id < (#[trigger] self@.list[j]).id by {
                assert(self@.list[i] == before[i]);
                if j < before.len() {
                    assert(self@.list[j] == before[j]);
                }
            }
        }
        id
    }

    /// Let a subscriber go.
    pub fn deregister(&mut self, id: u64)
        requires
            old(self).wf(),
        ensures
            final(self).wf(),
            final(self)@ == (SubscribersView {
                list: without(old(self)@.list, id),
                ..old(self)@
            }),
    {
        let ghost all = self@.list;
        let mut kept: Vec<Subscriber> = Vec::new();
        let mut i: usize = 0;
        assert(views(kept@) =~= without(all.take(0), id));
        while i < self.list.len()
            invariant
                i <= self.list.len(),
                *self == *old(self),
                self.wf(),
                all == self@.list,
                views(kept@) == without(all.take(i as int), id),
                forall|k: int|
                    0 <= k < kept@.len() ==> (#[trigger] kept@[k]).lag.dropped == lag_of(
                        kept@[k]@,
                    ),
            decreases self.list.len() - i,
        {
            assert(all.take(i + 1).drop_last() =~= all.take(i as int));
            let s: &Subscriber = &self.list[i];
            if s.id != id {
                let ghost before = views(kept@);
                kept.push(Subscriber { id: s.id, lag: s.lag, pushes: Ghost(s.pushes@) });
                assert(views(kept@) =~= before.push(all[i as int]));
            }
            i = i + 1;
        }
        proof {
            assert(all.take(i as int) =~= all);
            lemma_without(all, id);
            lemma_kept_wf(self@, without(all, id));
        }
        self.list = kept;
    }

    /// The subscribers in their order, each with the count to report to it before
    /// the next message, where there is one.
    pub fn reports(&self) -> (r: Vec<(u64, Option<u64>)>)
        requires
            self.wf(),
        ensures
            r@.len() == self@.list.len(),
            forall|i: int|
                0 <= i < r@.len() ==> is_report(#[trigger] r@[i], self@.list[i]),
    {
        let mut out: Vec<(u64, Option<u64>)> = Vec::new();
        let mut i: usize = 0;
        while i < self.list.len()
            invariant
                i <= self.list.len(),
                self.wf(),
                out@.len() == i,
                forall|k: int| 0 <= k < i ==> is_report(#[trigger] out@[k], self@.list[k]),
            decreases self.list.len() - i,
        {
            let s: &Subscriber = &self.list[i];
            assert(s.lag.dropped == lag_of(self@.list[i as int]));
            out.push((s.id, s.lag.report()));
            i = i + 1;
        }
        out
    }

    /// Take what became of a push to each subscriber, in their order: of its
    /// report, where one was due, and of its message. Those that are gone are
    /// removed, and their ids returned.
    pub fn settle(&mut self, outcomes: &Vec<(Offer, Offer)>) -> (gone: Vec<u64>)
        requires
            old(self).wf(),
            outcomes@.len() == old(self)@.list.len(),
            forall|i: int|
                0 <= i < old(self)@.list.len() ==> lag_of(#[trigger] old(self)@.list[i])
                    < u64::MAX,
        ensures
            final(self).wf(),
            final(self)@ == (SubscribersView {
                list: settled(old(self)@.list, outcomes@),
                ..old(self)@
            }),
            gone@ == departed(old(self)@.list, outcomes@),
    {
        let ghost all = self@.list;
        let ghost os = outcomes@;
        let mut kept: Vec<Subscriber> = Vec::new();
        let mut gone: Vec<u64> = Vec::new();
        let mut i: usize = 0;
        assert(views(kept@) =~= settled(all.take(0), os.take(0)));
        assert(gone@ =~= departed(all.take(0), os.take(0)));
        while i < self.list.len()
            invariant
                i <= self.list.len(),
                *self == *old(self),
                self.wf(),
                all == self@.list,
                os == outcomes@,
                os.len() == all.len(),
                forall|k: int| 0 <= k < all.len() ==> lag_of(#[trigger] all[k]) < u64::MAX,
                views(kept@) == settled(all.take(i as int), os.take(i as int)),
                gone@ == departed(all.take(i as int), os.take(i as int)),
                forall|k: int|
                    0 <= k < kept@.len() ==> (#[trigger] kept@[k]).lag.dropped == lag_of(
                        kept@[k]@,
                    ),
            decreases self.list.len() - i,
        {
            proof {
                assert(all.take(i + 1).drop_last() =~= all.take(i as int));
                assert(os.take(i + 1).drop_last() =~= os.take(i as int));
                assert(all.take(i + 1).last() == all[i as int]);
                assert(os.take(i + 1).last() == os[i as int]);
            }
            let s: &Subscriber = &self.list[i];
            assert(s@ == all[i as int]);
            assert(lag_of(all[i as int]) < u64::MAX);
            match s.lag.after(outcomes[i].0, outcomes[i].1) {
                None => {
                    gone.push(s.id);
                },
                Some(lag) => {
                    let ghost before = views(kept@);
                    let ghost pushes = s.pushes@.push(os[i as int]);
                    let next = Subscriber { id: s.id, lag, pushes: Ghost(pushes) };
                    assert(streamed(pushes).dropped == lag.dropped);
                    kept.push(next);
                    assert(views(kept@) =~= before.push(
                        SubscriberView { pushes, ..all[i as int] },
                    ));
                },
            }
            i = i + 1;
        }
        proof {
            assert(all.take(i as int) =~= all);
            assert(os.take(i as int) =~= os);
            lemma_settled(all, os);
            lemma_kept_wf(self@, settled(all, os));
        }
        self.list = kept;
        gone
    }
}

/// What is reported to a subscriber: how far it is behind, if it is.
pub open spec fn is_report(r: (u64, Option<u64>), s: SubscriberView) -> bool {
    r.0 == s.id && match r.1 {
        Some(n) => n > 0 && n == lag_of(s),
        None => lag_of(s) == 0,
    }
}

proof fn lemma_kept_wf(s: SubscribersView, kept: Seq<SubscriberView>)
    requires
        subscribers_wf(s),
        ids_kept(s.list, kept),
        forall|i: int| 0 <= i < kept.len() ==> is_alive((#[trigger] kept[i]).pushes),
    ensures
        subscribers_wf(SubscribersView { list: kept, ..s }),
{
    assert forall|i: int| 0 <= i < kept.len() implies 1 <= (#[trigger] kept[i]).id < s.next_id by {
        assert(has_id(s.list, kept[i].id));
        let j = choose|j: int| 0 <= j < s.list.len() && (#[trigger] s.list[j]).id == kept[i].id;
        assert(1 <= s.list[j].id < s.next_id);
    }
}

/// No message is lost in silence: of all messages, those given, those the
/// subscriber was told of and those still to be told are exactly as many as were
/// pushed.
pub proof fn every_lost_message_is_told(pushes: Seq<(Offer, Offer)>)
    requires
        is_alive(pushes),
    ensures
        accounted(streamed(pushes)) == pushes.len(),
    decreases pushes.len(),
{
    if pushes.len() > 0 {
        every_lost_message_is_told(pushes.drop_last());
    }
}

/// `a` became `b` by one push with the outcome `o`: it accounts for exactly one
/// message more.
pub open spec fn counted_once(a: SubscriberView, b: SubscriberView, o: (Offer, Offer)) -> bool {
    &&& b.id == a.id
    &&& b.pushes == a.pushes.push(o)
    &&& accounted(streamed(b.pushes)) == accounted(streamed(a.pushes)) + 1
}

/// A push removes exactly the subscribers that are gone, keeps the others in
/// their order, and is given to or counted for each of those exactly once.
pub proof fn a_push_is_counted_once(s: SubscribersView, outcomes: Seq<(Offer, Offer)>, k: int)
    requires
        subscribers_wf(s),
        outcomes.len() == s.list.len(),
        0 <= k < s.list.len(),
    ensures
        ids_ascend(settled(s.list, outcomes)),
        has_id(settled(s.list, outcomes), s.list[k].id) <==> !is_gone(
            lag_of(s.list[k]),
            outcomes[k],
        ),
        forall|i: int|
            0 <= i < settled(s.list, outcomes).len() && (#[trigger] settled(
                s.list,
                outcomes,
            )[i]).id == s.list[k].id ==> counted_once(
                s.list[k],
                settled(s.list, outcomes)[i],
                outcomes[k],
            ),
{
    lemma_settled(s.list, outcomes);
    lemma_counted(s.list, outcomes, k);
}

proof fn lemma_counted(list: Seq<SubscriberView>, outcomes: Seq<(Offer, Offer)>, k: int)
    requires
        ids_ascend(list),
        list.len() == outcomes.len(),
        forall|i: int| 0 <= i < list.len() ==> is_alive((#[trigger] list[i]).pushes),
        0 <= k < list.len(),
    ensures
        has_id(settled(list, outcomes), list[k].id) <==> !is_gone(lag_of(list[k]), outcomes[k]),
        forall|i: int|
            0 <= i < settled(list, outcomes).len() && (#[trigger] settled(list, outcomes)[i]).id
                == list[k].id ==> counted_once(
                list[k],
                settled(list, outcomes)[i],
                outcomes[k],
            ),
    decreases list.len(),
{
    let l = list.drop_last();
    let o = outcomes.drop_last();
    let s = list.last();
    let next = SubscriberView { pushes: s.pushes.push(outcomes.last()), ..s };
    let front = settled(l, o);
    let all = settled(list, outcomes);
    lemma_front(list);
    assert forall|i: int| 0 <= i < l.len() implies is_alive((#[trigger] l[i]).pushes) by {
        assert(l[i] == list[i]);
    }
    lemma_settled(l, o);
    assert forall|i: int| 0 <= i < front.len() implies (#[trigger] front[i]).id < s.id by {
        assert(has_id(l, front[i].id));
    }
    if k < list.len() - 1 {
        lemma_counted(l, o, k);
        assert(l[k] == list[k] && o[k] == outcomes[k]);
        assert(list[k].id < list[list.len() - 1].id);
        if has_id(front, list[k].id) {
            let i = choose|i: int| 0 <= i < front.len() && (#[trigger] front[i]).id == list[k].id;
            assert(all[i] == front[i]);
        }
        if has_id(all, list[k].id) {
            let i = choose|i: int| 0 <= i < all.len() && (#[trigger] all[i]).id == list[k].id;
            if i < front.len() {
                assert(front[i] == all[i]);
            }
        }
        assert forall|i: int|
            0 <= i < all.len() && (#[trigger] all[i]).id == list[k].id implies counted_once(
            list[k],
            all[i],
            outcomes[k],
        ) by {
            if i < front.len() {
                assert(front[i] == all[i]);
            }
        }
    } else {
        assert(list[k] == s);
        if !is_gone(lag_of(s), outcomes.last()) {
            assert(all[all.len() - 1] == next);
            assert(next.pushes.drop_last() =~= s.pushes);
            every_lost_message_is_told(s.pushes);
            every_lost_message_is_told(next.pushes);
        }
        assert forall|i: int|
            0 <= i < all.len() && (#[trigger] all[i]).id == s.id implies counted_once(
            s,
            all[i],
            outcomes[k],
        ) by {
            if i < front.len() {
                assert(front[i] == all[i]);
            }
        }
        if has_id(all, s.id) {
            let i = choose|i: int| 0 <= i < all.len() && (#[trigger] all[i]).id == s.id;
            if i < front.len() {
                assert(front[i] == all[i]);
            }
        }
    }
}

/// How many of the pushed messages were taken.
pub open spec fn taken(pushes: Seq<(Offer, Offer)>) -> nat
    decreases pushes.len(),
{
    if pushes.len() == 0 {
        0
    } else {
        taken(pushes.drop_last()) + if pushes.last().1 == Offer::Taken {
            1nat
        } else {
            0nat
        }
    }
}

/// A subscriber was given exactly the messages that it took, and the next push
/// tells it of those that it missed once, where it takes the report.
pub proof fn a_subscriber_is_given_what_it_takes(
    pushes: Seq<(Offer, Offer)>,
    report: Offer,
    message: Offer,
)
    ensures
        streamed(pushes).given == taken(pushes),
        ({
            let a = streamed(pushes);
            let b = streamed(pushes.push((report, message)));
            let missed: nat = if message == Offer::Full {
                1
            } else {
                0
            };
            &&& report == Offer::Taken ==> b.told == a.told + a.dropped && b.dropped == missed
            &&& report != Offer::Taken ==> b.told == a.told && b.dropped == a.dropped + missed
            &&& b.given == a.given + if message == Offer::Taken {
                1nat
            } else {
                0nat
            }
        }),
    decreases pushes.len(),
{
    assert(pushes.push((report, message)).drop_last() =~= pushes);
    if pushes.len() > 0 {
        let front = pushes.drop_last();
        let last = pushes.last();
        a_subscriber_is_given_what_it_takes(front, last.0, last.1);
        assert(front.push(last) =~= pushes);
    }
}

/// A push names exactly the subscribers that are gone.
pub proof fn a_push_names_who_is_gone(s: SubscribersView, outcomes: Seq<(Offer, Offer)>, k: int)
    requires
        subscribers_wf(s),
        outcomes.len() == s.list.len(),
        0 <= k < s.list.len(),
    ensures
        departed(s.list, outcomes).contains(s.list[k].id) <==> (outcomes[k].1 == Offer::Gone || (
        streamed(s.list[k].pushes).dropped > 0 && outcomes[k].0 == Offer::Gone)),
        settled(s.list, outcomes).len() + departed(s.list, outcomes).len() == s.list.len(),
{
    lemma_departed(s.list, outcomes, k);
}

#[verifier::rlimit(40)]
proof fn lemma_departed(list: Seq<SubscriberView>, outcomes: Seq<(Offer, Offer)>, k: int)
    requires
        ids_ascend(list),
        outcomes.len() == list.len(),
        0 <= k < list.len(),
    ensures
        departed(list, outcomes).contains(list[k].id) <==> is_gone(
            lag_of(list[k]),
            outcomes[k],
        ),
        forall|i: int|
            0 <= i < departed(list, outcomes).len() ==> has_id(
                list,
                #[trigger] departed(list, outcomes)[i],
            ),
        settled(list, outcomes).len() + departed(list, outcomes).len() == list.len(),
    decreases list.len(),
{
    let l = list.drop_last();
    let o = outcomes.drop_last();
    let s = list.last();
    let front = departed(l, o);
    let all = departed(list, outcomes);
    lemma_front(list);
    if l.len() > 0 {
        lemma_departed(
            l,
            o,
            if k < l.len() {
                k
            } else {
                0
            },
        );
    }
    assert forall|i: int| 0 <= i < front.len() implies #[trigger] front[i] < s.id && has_id(
        list,
        front[i],
    ) by {
        assert(has_id(l, front[i]));
    }
    assert forall|i: int| 0 <= i < all.len() implies has_id(list, #[trigger] all[i]) by {
        if i < front.len() {
            assert(all[i] == front[i]);
        }
    }
    if k < l.len() {
        assert(l[k] == list[k] && o[k] == outcomes[k]);
        assert(list[k].id < list[list.len() - 1].id);
        if front.contains(list[k].id) {
            let i = choose|i: int| 0 <= i < front.len() && front[i] == list[k].id;
            assert(all[i] == front[i]);
        }
        if all.contains(list[k].id) {
            let i = choose|i: int| 0 <= i < all.len() && all[i] == list[k].id;
            if i < front.len() {
                assert(front[i] == all[i]);
            }
        }
    } else {
        assert(list[k] == s);
        if is_gone(lag_of(s), outcomes.last()) {
            assert(all[all.len() - 1] == s.id);
        }
        if all.contains(s.id) {
            let i = choose|i: int| 0 <= i < all.len() && all[i] == s.id;
            if i < front.len() {
                assert(front[i] == all[i]);
            }
        }
    }
}

/// One that leaves is taken off, and no other.
pub proof fn one_that_leaves_is_taken_off(
    list: Seq<SubscriberView>,
    id: u64,
    s: SubscriberView,
)
    ensures
        without(list, id).contains(s) <==> list.contains(s) && s.id != id,
    decreases list.len(),
{
    if list.len() > 0 {
        let front = list.drop_last();
        one_that_leaves_is_taken_off(front, id, s);
        let w = without(front, id);
        let all = without(list, id);
        assert(list[list.len() - 1] == list.last());
        if list.contains(s) {
            let k = choose|k: int| 0 <= k < list.len() && list[k] == s;
            if k < front.len() {
                assert(front[k] == s);
            }
        }
        if front.contains(s) {
            let k = choose|k: int| 0 <= k < front.len() && front[k] == s;
            assert(list[k] == s);
        }
        if w.contains(s) {
            let k = choose|k: int| 0 <= k < w.len() && w[k] == s;
            assert(all[k] == s);
        }
        if all.contains(s) {
            let k = choose|k: int| 0 <= k < all.len() && all[k] == s;
            if k < w.len() {
                assert(w[k] == s);
            }
        }
        if list.last().id != id {
            assert(all[all.len() - 1] == list.last());
        }
    }
}

/// A subscriber is told how many messages it missed exactly where it missed some.
pub proof fn a_report_tells_what_was_missed(r: (u64, Option<u64>), s: SubscriberView)
    requires
        is_report(r, s),
    ensures
        r.0 == s.id,
        r.1 is Some <==> streamed(s.pushes).dropped > 0,
        r.1 matches Some(n) ==> n == streamed(s.pushes).dropped,
{
}

} // verus!
