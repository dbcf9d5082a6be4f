use vstd::prelude::*;

verus! {

/// The kind of catalog record that a change touched.
#[derive(Debug, Clone, Copy, PartialEq, Eq, Structural)]
pub enum EntityKind {
    Table,
    Partition,
    Chunk,
    Job,
    Node,
}

/// What a committed change did to the record.
#[derive(Debug, Clone, Copy, PartialEq, Eq, Structural)]
pub enum Operation {
    Insert,
    Update,
    Delete,
}

/// A notification of one committed change.
#[derive(Debug, Clone, Copy, PartialEq, Eq, Structural)]
pub struct MetaStoreEvent {
    pub entity: EntityKind,
    pub id: usize,
    pub op: Operation,
}

/// What a subscriber gets when it asks for its next event.
#[derive(Debug, Clone, Copy, PartialEq, Eq, Structural)]
pub enum RecvOutcome {
    /// The next event in commit order.
    Event(MetaStoreEvent),
    /// Nothing new has been committed.
    Empty,
    /// The subscriber fell behind and was disconnected; it must resubscribe.
    Lagged,
}

struct Subscription {
    queue: Vec<MetaStoreEvent>,
    lagged: bool,
    cursor: Ghost<nat>,
}

/// Fans committed events out to subscribers, each with a queue of bounded
/// length. A subscriber whose queue is full when an event comes is marked
/// lagged and loses its queue; the publisher never waits.
pub struct EventBus {
    subs: Vec<Subscription>,
    bound: usize,
    log: Ghost<Seq<MetaStoreEvent>>,
}

impl EventBus {
    /// Every event published so far, in commit order.
    pub closed spec fn log(&self) -> Seq<MetaStoreEvent> {
        self.log@
    }

    pub closed spec fn bound(&self) -> nat {
        self.bound as nat
    }

    pub closed spec fn num_subscribers(&self) -> nat {
        self.subs@.len()
    }

    /// The position in the log of the next event that subscriber `s` will receive.
    pub closed spec fn cursor(&self, s: int) -> nat {
        self.subs@[s].cursor@
    }

    pub closed spec fn is_lagged(&self, s: int) -> bool {
        self.subs@[s].lagged
    }

    /// The events waiting for subscriber `s`.
    pub closed spec fn pending(&self, s: int) -> Seq<MetaStoreEvent> {
        self.subs@[s].queue@
    }

    pub closed spec fn wf(&self) -> bool {
        &&& self.bound > 0
        &&& forall|s: int|
            0 <= s < self.subs@.len() ==> {
                let sub = #[trigger] self.subs@[s];
                &&& sub.cursor@ <= self.log@.len()
                &&& sub.queue@.len() <= self.bound
                &&& sub.lagged ==> sub.queue@.len() == 0
                &&& !sub.lagged ==> sub.queue@ == self.log@.subrange(
                    sub.cursor@ as int,
                    self.log@.len() as int,
                )
            }
    }

    /// A bus whose subscribers may each hold up to `bound` events.
    pub fn new(bound: usize) -> (r: EventBus)
        requires
            bound > 0,
        ensures
            r.wf(),
            r.log() == Seq::<MetaStoreEvent>::empty(),
            r.bound() == bound,
            r.num_subscribers() == 0,
    {
        EventBus { subs: Vec::new(), bound, log: Ghost(Seq::empty()) }
    }

    /// Registers a subscriber that receives every event published from now on.
    pub fn subscribe(&mut self) -> (id: usize)
        requires
            old(self).wf(),
        ensures
            final(self).wf(),
            final(self).log() == old(self).log(),
            final(self).bound() == old(self).bound(),
            id == old(self).num_subscribers(),
            final(self).num_subscribers() == old(self).num_subscribers() + 1,
            final(self).cursor(id as int) == old(self).log().len(),
            !final(self).is_lagged(id as int),
            forall|s: int|
                0 <= s < old(self).num_subscribers() ==> final(self).cursor(s) == old(self).cursor(s)
                    && final(self).is_lagged(s) == old(self).is_lagged(s) && final(self).pending(s)
                    == old(self).pending(s),
    {
        let id = self.subs.len();
        let ghost len = self.log@.len();
        self.subs.push(Subscription { queue: Vec::new(), lagged: false, cursor: Ghost(len) });
        proof {
            assert(self.log@.subrange(len as int, len as int) =~= Seq::<MetaStoreEvent>::empty());
        }
        id
    }

    /// Reconnects subscriber `s`, lagged or not: it receives every event
    /// published from now on.
    pub fn resubscribe(&mut self, s: usize)
        requires
            old(self).wf(),
            s < old(self).num_subscribers(),
        ensures
            final(self).wf(),
            final(self).log() == old(self).log(),
            final(self).bound() == old(self).bound(),
            final(self).num_subscribers() == old(self).num_subscribers(),
            final(self).cursor(s as int) == old(self).log().len(),
            !final(self).is_lagged(s as int),
            forall|t: int|
                0 <= t < old(self).num_subscribers() && t != s ==> final(self).cursor(t)
                    == old(self).cursor(t) && final(self).is_lagged(t) == old(self).is_lagged(t)
                    && final(self).pending(t) == old(self).pending(t),
    {
        let ghost len = self.log@.len();
        self.subs.set(s, Subscription { queue: Vec::new(), lagged: false, cursor: Ghost(len) });
        proof {
            assert(self.log@.subrange(len as int, len as int) =~= Seq::<MetaStoreEvent>::empty());
        }
    }

    /// Appends `e` to the log and to the queue of every subscriber that is not
    /// lagged; a subscriber whose queue is already full becomes lagged instead.
    pub fn publish(&mut self, e: MetaStoreEvent)
        requires
            old(self).wf(),
        ensures
            final(self).wf(),
            final(self).log() == old(self).log().push(e),
            final(self).bound() == old(self).bound(),
            final(self).num_subscribers() == old(self).num_subscribers(),
            forall|s: int|
                0 <= s < old(self).num_subscribers() ==> {
                    &&& final(self).cursor(s) == old(self).cursor(s)
                    &&& final(self).is_lagged(s) == (old(self).is_lagged(s) || old(self).log().len()
                        - old(self).cursor(s) == old(self).bound())
                },
    {
        let ghost old_subs = self.subs@;
        let ghost old_log = self.log@;
        self.log = Ghost(self.log@.push(e));
        let n = self.subs.len();
        let mut i: usize = 0;
        while i < n
            invariant
                n == self.subs@.len(),
                n == old_subs.len(),
                i <= n,
                self.bound > 0,
                self.bound == old(self).bound,
                old_subs == old(self).subs@,
                self.log@ == old_log.push(e),
                forall|s: int|
                    i <= s < n ==> #[trigger] self.subs@[s] == old_subs[s],
                forall|s: int|
                    0 <= s < n ==> {
                        let sub = #[trigger] old_subs[s];
                        &&& sub.cursor@ <= old_log.len()
                        &&& sub.queue@.len() <= self.bound
                        &&& sub.lagged ==> sub.queue@.len() == 0
                        &&& !sub.lagged ==> sub.queue@ == old_log.subrange(
                            sub.cursor@ as int,
                            old_log.len() as int,
                        )
                    },
                forall|s: int|
                    0 <= s < i ==> {
                        let sub = #[trigger] self.subs@[s];
                        &&& sub.cursor@ == old_subs[s].cursor@
                        &&& sub.lagged == (old_subs[s].lagged || old_subs[s].queue@.len()
                            == self.bound)
                        &&& sub.cursor@ <= self.log@.len()
                        &&& sub.queue@.len() <= self.bound
                        &&& sub.lagged ==> sub.queue@.len() == 0
                        &&& !sub.lagged ==> sub.queue@ == self.log@.subrange(
                            sub.cursor@ as int,
                            self.log@.len() as int,
                        )
                    },
            decreases n - i,
        {
            let mut sub = self.subs.remove(i);
            if !sub.lagged {
                if sub.queue.len() < self.bound {
                    sub.queue.push(e);
                    proof {
                        assert(sub.queue@ =~= self.log@.subrange(
                            sub.cursor@ as int,
                            self.log@.len() as int,
                        ));
                    }
                } else {
                    sub.lagged = true;
                    sub.queue.clear();
                }
            }
            self.subs.insert(i, sub);
            i = i + 1;
        }
    }

    /// Publishes `evs` one after another. A subscriber ends up lagged exactly
    /// when it was lagged already or more than the bound now waits for it.
    pub fn publish_all(&mut self, evs: &Vec<MetaStoreEvent>)
        requires
            old(self).wf(),
        ensures
            final(self).wf(),
            final(self).log() == old(self).log() + evs@,
            final(self).bound() == old(self).bound(),
            final(self).num_subscribers() == old(self).num_subscribers(),
            forall|s: int|
                0 <= s < old(self).num_subscribers() ==> {
                    &&& final(self).cursor(s) == old(self).cursor(s)
                    &&& final(self).is_lagged(s) == (old(self).is_lagged(s) || final(self).log().len()
                        - old(self).cursor(s) > old(self).bound())
                },
    {
        let mut i: usize = 0;
        while i < evs.len()
            invariant
                self.wf(),
                i <= evs@.len(),
                self.log() == old(self).log() + evs@.take(i as int),
                self.bound() == old(self).bound(),
                self.num_subscribers() == old(self).num_subscribers(),
                forall|s: int|
                    0 <= s < old(self).num_subscribers() ==> {
                        &&& #[trigger] self.cursor(s) == old(self).cursor(s)
                        &&& self.is_lagged(s) == (old(self).is_lagged(s) || self.log().len()
                            - old(self).cursor(s) > old(self).bound())
                    },
            decreases evs@.len() - i,
        {
            proof {
                assert forall|s: int| 0 <= s < self.subs@.len() && !self.is_lagged(s) implies self.log().len()
                    - self.cursor(s) <= self.bound() by {
                    assert(self.subs@[s].queue@.len() <= self.bound);
                    assert(self.subs@[s].queue@.len() == self.log@.len() - self.subs@[s].cursor@);
                }
            }
            self.publish(evs[i]);
            proof {
                assert(evs@.take(i + 1) =~= evs@.take(i as int).push(evs@[i as int]));
            }
            i = i + 1;
        }
        proof {
            assert(evs@.take(evs@.len() as int) =~= evs@);
            assert forall|s: int| 0 <= s < old(self).num_subscribers() implies self.cursor(s) == old(
                self,
            ).cursor(s) && self.is_lagged(s) == (old(self).is_lagged(s) || self.log().len() - old(
                self,
            ).cursor(s) > old(self).bound()) by {
                assert(self.cursor(s) == old(self).cursor(s));
            }
        }
    }

    /// Hands subscriber `s` its next event, or says that there is none, or that
    /// it lagged. Events come out in commit order with none skipped.
    pub fn recv(&mut self, s: usize) -> (r: RecvOutcome)
        requires
            old(self).wf(),
            s < old(self).num_subscribers(),
        ensures
            final(self).wf(),
            final(self).log() == old(self).log(),
            final(self).bound() == old(self).bound(),
            final(self).num_subscribers() == old(self).num_subscribers(),
            final(self).is_lagged(s as int) == old(self).is_lagged(s as int),
            old(self).is_lagged(s as int) ==> r == RecvOutcome::Lagged && final(self).cursor(
                s as int,
            ) == old(self).cursor(s as int),
            !old(self).is_lagged(s as int) && old(self).cursor(s as int) == old(self).log().len()
                ==> r == RecvOutcome::Empty && final(self).cursor(s as int) == old(self).cursor(
                s as int,
            ),
            !old(self).is_lagged(s as int) && old(self).cursor(s as int) < old(self).log().len()
                ==> r == RecvOutcome::Event(old(self).log()[old(self).cursor(s as int) as int])
                && final(self).cursor(s as int) == old(self).cursor(s as int) + 1,
            forall|t: int|
                0 <= t < old(self).num_subscribers() && t != s ==> final(self).cursor(t)
                    == old(self).cursor(t) && final(self).is_lagged(t) == old(self).is_lagged(t)
                    && final(self).pending(t) == old(self).pending(t),
    {
        let mut sub = self.subs.remove(s);
        let r = if sub.lagged {
            RecvOutcome::Lagged
        } else if sub.queue.len() == 0 {
            RecvOutcome::Empty
        } else {
            let e = sub.queue.remove(0);
            let ghost c = sub.cursor@;
            sub.cursor = Ghost(c + 1);
            proof {
                assert(sub.queue@ =~= self.log@.subrange((c + 1) as int, self.log@.len() as int));
            }
            RecvOutcome::Event(e)
        };
        self.subs.insert(s, sub);
        proof {
            assert forall|t: int| 0 <= t < self.subs@.len() && t != s implies self.subs@[t] == old(
                self,
            ).subs@[t] by {}
        }
        r
    }
}

/// While a subscriber is connected, the events waiting for it are exactly the
/// log from its cursor on: nothing committed is skipped, nothing is repeated.
pub proof fn lemma_no_silent_gap(bus: &EventBus, s: int)
    requires
        bus.wf(),
        0 <= s < bus.num_subscribers(),
        !bus.is_lagged(s),
    ensures
        bus.pending(s) == bus.log().subrange(bus.cursor(s) as int, bus.log().len() as int),
        bus.cursor(s) <= bus.log().len(),
{
    assert(bus.subs@[s].cursor@ <= bus.log@.len());
}

} // verus!
