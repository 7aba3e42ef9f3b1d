//! Fan-out of compressed frames from the one capture producer to every
//! subscribed session, each through a bounded queue of its own.
//!
//! Publishing never waits: when a subscriber's queue is full, its oldest
//! unread frame is dropped to make room. A subscriber sees only frames
//! published after it subscribed.

use vstd::prelude::*;

verus! {

/// The frames of a queue, as byte sequences.
pub open spec fn frames_of(q: Seq<Vec<u8>>) -> Seq<Seq<u8>> {
    q.map_values(|f: Vec<u8>| f@)
}

/// A queue of capacity `cap` after `f` is published to it: the oldest frame
/// leaves first when the queue is full.
pub open spec fn bounded_push(q: Seq<Seq<u8>>, f: Seq<u8>, cap: nat) -> Seq<Seq<u8>> {
    if q.len() >= cap {
        q.drop_first().push(f)
    } else {
        q.push(f)
    }
}

/// A queue of capacity `cap` after each frame of `fs` is published to it in order.
pub open spec fn publish_all(q: Seq<Seq<u8>>, fs: Seq<Seq<u8>>, cap: nat) -> Seq<Seq<u8>>
    decreases fs.len(),
{
    if fs.len() == 0 {
        q
    } else {
        bounded_push(publish_all(q, fs.drop_last(), cap), fs.last(), cap)
    }
}

/// The last `min(cap, fs.len())` frames of `fs`.
pub open spec fn most_recent(fs: Seq<Seq<u8>>, cap: nat) -> Seq<Seq<u8>> {
    if fs.len() <= cap {
        fs
    } else {
        fs.subrange(fs.len() - cap, fs.len() as int)
    }
}

/// A subscriber that joins with an empty queue and then sees the frames `fs`
/// published holds exactly the most recent `cap` of them, in publication
/// order: nothing published before it joined, and no frame reordered.
pub proof fn lemma_late_subscriber_sees_only_later_frames(fs: Seq<Seq<u8>>, cap: nat)
    requires
        cap >= 1,
    ensures
        publish_all(Seq::empty(), fs, cap) == most_recent(fs, cap),
    decreases fs.len(),
{
    if fs.len() > 0 {
        let init = fs.drop_last();
        lemma_late_subscriber_sees_only_later_frames(init, cap);
        let q = most_recent(init, cap);
        if init.len() < cap {
            assert(q.push(fs.last()) =~= most_recent(fs, cap));
        } else {
            assert(q.len() == cap);
            assert(q.drop_first().push(fs.last()) =~= most_recent(fs, cap));
        }
    } else {
        assert(most_recent(fs, cap) =~= Seq::<Seq<u8>>::empty());
    }
}

struct Subscriber {
    id: u64,
    queue: std::collections::VecDeque<Vec<u8>>,
}

/// One producer, many subscribers, each with a bounded queue.
pub struct BroadcastHub {
    subscribers: Vec<Subscriber>,
    capacity: usize,
    next_id: u64,
    model: Ghost<Map<u64, Seq<Seq<u8>>>>,
}

impl View for BroadcastHub {
    type V = Map<u64, Seq<Seq<u8>>>;

    /// The unread frames of each subscriber, oldest first.
    closed spec fn view(&self) -> Map<u64, Seq<Seq<u8>>> {
        self.model@
    }
}

impl BroadcastHub {
    /// How many frames each subscriber's queue holds at most.
    pub closed spec fn spec_capacity(&self) -> nat {
        self.capacity as nat
    }

    /// The id the next subscriber will get.
    pub closed spec fn spec_next_id(&self) -> u64 {
        self.next_id
    }

    /// Queues agree with the model, ids are unique and below `next_id`, and
    /// no queue holds more than `capacity` frames.
    pub closed spec fn wf(&self) -> bool {
        &&& self.capacity >= 1
        &&& forall|i: int|
            0 <= i < self.subscribers@.len() ==> #[trigger] self.model@.contains_key(
                self.subscribers@[i].id,
            ) && self.model@[self.subscribers@[i].id] == frames_of(self.subscribers@[i].queue@)
                && self.subscribers@[i].queue@.len() <= self.capacity
        &&& forall|id: u64| #[trigger]
            self.model@.contains_key(id) ==> exists|i: int|
                0 <= i < self.subscribers@.len() && self.subscribers@[i].id == id
        &&& forall|i: int, j: int|
            0 <= i < j < self.subscribers@.len() ==> #[trigger] self.subscribers@[i].id
                != #[trigger] self.subscribers@[j].id
        &&& forall|id: u64| #[trigger] self.model@.contains_key(id) ==> id < self.next_id
    }

    /// Every queue of a well-formed hub holds at most `spec_capacity()` frames.
    pub proof fn lemma_queues_bounded(&self)
        requires
            self.wf(),
        ensures
            forall|id: u64| #[trigger] self@.contains_key(id) ==> self@[id].len() <= self.spec_capacity(),
    {
        assert forall|id: u64| #[trigger] self@.contains_key(id) implies self@[id].len()
            <= self.spec_capacity() by {
            let i = choose|i: int| 0 <= i < self.subscribers@.len() && self.subscribers@[i].id == id;
            assert(self.model@.contains_key(self.subscribers@[i].id));
        }
    }

    /// A hub without subscribers whose queues hold `capacity` frames each.
    pub fn new(capacity: usize) -> (r: Self)
        requires
            capacity >= 1,
        ensures
            r.wf(),
            r@ == Map::<u64, Seq<Seq<u8>>>::empty(),
            r.spec_capacity() == capacity,
            r.spec_next_id() == 0,
    {
        BroadcastHub { subscribers: Vec::new(), capacity, next_id: 0, model: Ghost(Map::empty()) }
    }

    /// Position of subscriber `id`, if any.
    fn find(&self, id: u64) -> (r: Option<usize>)
        requires
            self.wf(),
        ensures
            r matches Some(i) ==> i < self.subscribers@.len() && self.subscribers@[i as int].id == id,
            r is None ==> !self@.contains_key(id),
    {
        let mut i: usize = 0;
        while i < self.subscribers.len()
            invariant
                self.wf(),
                i <= self.subscribers@.len(),
                forall|k: int| 0 <= k < i ==> self.subscribers@[k].id != id,
            decreases self.subscribers@.len() - i,
        {
            if self.subscribers[i].id == id {
                return Some(i);
            }
            i = i + 1;
        }
        None
    }

    /// Adds a subscriber with an empty queue and gives its id; `None` once
    /// every id has been handed out.
    pub fn subscribe(&mut self) -> (r: Option<u64>)
        requires
            old(self).wf(),
        ensures
            final(self).wf(),
            final(self).spec_capacity() == old(self).spec_capacity(),
            r is Some <==> old(self).spec_next_id() < u64::MAX,
            match r {
                Some(id) => !old(self)@.contains_key(id) && final(self)@ == old(self)@.insert(
                    id,
                    Seq::empty(),
                ),
                None => final(self)@ == old(self)@ && old(self).spec_next_id() == u64::MAX,
            },
    {
        if self.next_id == u64::MAX {
            return None;
        }
        let id = self.next_id;
        let ghost old_subs = self.subscribers@;
        let ghost old_model = self.model@;
        self.subscribers.push(Subscriber { id, queue: std::collections::VecDeque::new() });
        self.next_id = id + 1;
        self.model = Ghost(old_model.insert(id, Seq::empty()));
        assert forall|i: int|
            0 <= i < self.subscribers@.len() implies #[trigger] self.model@.contains_key(
                self.subscribers@[i].id,
            ) && self.model@[self.subscribers@[i].id] == frames_of(self.subscribers@[i].queue@)
                && self.subscribers@[i].queue@.len() <= self.capacity by {
            if i < old_subs.len() {
                assert(old_model.contains_key(old_subs[i].id));
            } else {
                assert(frames_of(self.subscribers@[i].queue@) =~= Seq::<Seq<u8>>::empty());
            }
        }
        assert forall|id2: u64| #[trigger] self.model@.contains_key(id2) implies exists|k: int|
            0 <= k < self.subscribers@.len() && self.subscribers@[k].id == id2 by {
            if id2 != id {
                let k = choose|k: int| 0 <= k < old_subs.len() && old_subs[k].id == id2;
                assert(self.subscribers@[k].id == id2);
            } else {
                assert(self.subscribers@[old_subs.len() as int].id == id2);
            }
        }
        assert forall|p: int, q: int|
            0 <= p < q < self.subscribers@.len() implies #[trigger] self.subscribers@[p].id
                != #[trigger] self.subscribers@[q].id by {
            if q < old_subs.len() {
            } else {
                assert(old_model.contains_key(old_subs[p].id));
            }
        }
        Some(id)
    }

    /// Removes subscriber `id` and its unread frames; tells whether it was there.
    pub fn unsubscribe(&mut self, id: u64) -> (r: bool)
        requires
            old(self).wf(),
        ensures
            final(self).wf(),
            final(self).spec_capacity() == old(self).spec_capacity(),
            final(self).spec_next_id() == old(self).spec_next_id(),
            final(self)@ == old(self)@.remove(id),
            r == old(self)@.contains_key(id),
    {
        match self.find(id) {
            Some(i) => {
                let ghost old_subs = self.subscribers@;
                let ghost old_model = self.model@;
                self.subscribers.remove(i);
                self.model = Ghost(old_model.remove(id));
                assert forall|p: int|
                    0 <= p < self.subscribers@.len() implies #[trigger] self.model@.contains_key(
                        self.subscribers@[p].id,
                    ) && self.model@[self.subscribers@[p].id] == frames_of(
                        self.subscribers@[p].queue@,
                    ) && self.subscribers@[p].queue@.len() <= self.capacity by {
                    if p < i {
                        assert(old_subs[p].id != old_subs[i as int].id);
                        assert(old_model.contains_key(old_subs[p].id));
                    } else {
                        assert(old_subs[i as int].id != old_subs[p + 1].id);
                        assert(old_model.contains_key(old_subs[p + 1].id));
                    }
                }
                assert forall|id2: u64| #[trigger] self.model@.contains_key(id2) implies exists|k: int|
                    0 <= k < self.subscribers@.len() && self.subscribers@[k].id == id2 by {
                    let k = choose|k: int| 0 <= k < old_subs.len() && old_subs[k].id == id2;
                    if k < i {
                        assert(self.subscribers@[k].id == id2);
                    } else {
                        assert(k != i);
                        assert(self.subscribers@[k - 1].id == id2);
                    }
                }
                assert forall|p: int, q: int|
                    0 <= p < q < self.subscribers@.len() implies #[trigger] self.subscribers@[p].id
                        != #[trigger] self.subscribers@[q].id by {
                    if q < i {
                        assert(old_subs[p].id != old_subs[q].id);
                    } else if p < i {
                        assert(old_subs[p].id != old_subs[q + 1].id);
                    } else {
                        assert(old_subs[p + 1].id != old_subs[q + 1].id);
                    }
                }
                true
            },
            None => {
                assert(self.model@.remove(id) =~= self.model@);
                false
            },
        }
    }

    /// Hands `frame` to every subscriber without waiting: a full queue drops
    /// its oldest frame first. With no subscribers the frame is not kept.
    pub fn publish(&mut self, frame: &Vec<u8>)
        requires
            old(self).wf(),
        ensures
            final(self).wf(),
            final(self).spec_capacity() == old(self).spec_capacity(),
            final(self).spec_next_id() == old(self).spec_next_id(),
            final(self)@.dom() == old(self)@.dom(),
            forall|id: u64| #[trigger]
                old(self)@.contains_key(id) ==> final(self)@[id] == bounded_push(
                    old(self)@[id],
                    frame@,
                    old(self).spec_capacity(),
                ),
    {
        let ghost old_subs = self.subscribers@;
        let ghost old_model = self.model@;
        let ghost cap = self.capacity as nat;
        let ghost target = Map::new(
            |id: u64| old_model.contains_key(id),
            |id: u64| bounded_push(old_model[id], frame@, cap),
        );
        assert forall|k: int| #![trigger old_subs[k]] 0 <= k < old_subs.len() implies old_model.contains_key(
            old_subs[k].id,
        ) && old_subs[k].queue@.len() <= cap && old_model[old_subs[k].id] == frames_of(
            old_subs[k].queue@,
        ) by {
            assert(self.model@.contains_key(self.subscribers@[k].id));
        }
        assert forall|id: u64| #[trigger] old_model.contains_key(id) implies target.contains_key(id)
            && target[id] == bounded_push(old_model[id], frame@, cap) by {
        }
        let mut i: usize = 0;
        while i < self.subscribers.len()
            invariant
                self.capacity == cap,
                cap >= 1,
                forall|id: u64| #[trigger] old_model.contains_key(id) ==> target.contains_key(id)
                    && target[id] == bounded_push(old_model[id], frame@, cap),
                self.model@ == old_model,
                self.next_id == old(self).next_id,
                i <= self.subscribers@.len(),
                self.subscribers@.len() == old_subs.len(),
                forall|k: int|
                    0 <= k < self.subscribers@.len() ==> #[trigger] self.subscribers@[k].id
                        == old_subs[k].id,
                forall|k: int|
                    0 <= k < self.subscribers@.len() ==> #[trigger] self.subscribers@[k].queue@.len()
                        <= cap,
                forall|k: int|
                    0 <= k < i ==> #[trigger] frames_of(self.subscribers@[k].queue@)
                        == target[old_subs[k].id],
                forall|k: int|
                    i <= k < self.subscribers@.len() ==> #[trigger] frames_of(
                        self.subscribers@[k].queue@,
                    ) == frames_of(old_subs[k].queue@),
                forall|k: int|
                    0 <= k < old_subs.len() ==> #[trigger] old_model.contains_key(old_subs[k].id)
                        && old_model[old_subs[k].id] == frames_of(old_subs[k].queue@),
            decreases self.subscribers@.len() - i,
        {
            let ghost before_subs = self.subscribers@;
            let ghost before = self.subscribers@[i as int].queue@;
            let ghost id = old_subs[i as int].id;
            assert(old_model.contains_key(id));
            assert(frames_of(before) == old_model[id]);

            let copy = frame.clone();
            assert(copy@ =~= frame@);
            let sub = &mut self.subscribers[i];
            if sub.queue.len() >= self.capacity {
                sub.queue.pop_front();
            }
            sub.queue.push_back(copy);
            proof {
                let after = self.subscribers@[i as int].queue@;
                if before.len() >= cap {
                    assert(frames_of(after) =~= frames_of(before).drop_first().push(frame@));
                } else {
                    assert(frames_of(after) =~= frames_of(before).push(frame@));
                }
                assert(frames_of(after) == target[id]);
                assert forall|k: int| 0 <= k < self.subscribers@.len() && k != i implies
                    #[trigger] self.subscribers@[k] == before_subs[k] by {
                }
            }
            i = i + 1;
        }
        self.model = Ghost(target);
        assert forall|p: int|
            0 <= p < self.subscribers@.len() implies #[trigger] self.model@.contains_key(
                self.subscribers@[p].id,
            ) && self.model@[self.subscribers@[p].id] == frames_of(self.subscribers@[p].queue@)
                && self.subscribers@[p].queue@.len() <= self.capacity by {
            assert(old_model.contains_key(old_subs[p].id));
        }
        assert forall|id2: u64| #[trigger] self.model@.contains_key(id2) implies exists|k: int|
            0 <= k < self.subscribers@.len() && self.subscribers@[k].id == id2 by {
            assert(old_model.contains_key(id2));
            let k = choose|k: int| 0 <= k < old_subs.len() && old_subs[k].id == id2;
            assert(self.subscribers@[k].id == id2);
        }
        assert forall|p: int, q: int|
            0 <= p < q < self.subscribers@.len() implies #[trigger] self.subscribers@[p].id
                != #[trigger] self.subscribers@[q].id by {
            assert(old_subs[p].id != old_subs[q].id);
        }
        assert(self.model@.dom() =~= old_model.dom());
    }

    /// Takes the oldest unread frame of subscriber `id`, if it has one.
    pub fn receive(&mut self, id: u64) -> (r: Option<Vec<u8>>)
        requires
            old(self).wf(),
        ensures
            final(self).wf(),
            final(self).spec_capacity() == old(self).spec_capacity(),
            final(self).spec_next_id() == old(self).spec_next_id(),
            old(self)@.contains_key(id) && old(self)@[id].len() > 0 ==> (r matches Some(f)
                && f@ == old(self)@[id][0] && final(self)@ == old(self)@.insert(
                id,
                old(self)@[id].drop_first(),
            )),
            !(old(self)@.contains_key(id) && old(self)@[id].len() > 0) ==> (r is None
                && final(self)@ == old(self)@),
    {
        match self.find(id) {
            None => None,
            Some(i) => {
                let ghost old_subs = self.subscribers@;
                let ghost old_model = self.model@;
                assert(old_model.contains_key(old_subs[i as int].id));
                if self.subscribers[i].queue.len() == 0 {
                    assert(old_model[id] =~= frames_of(old_subs[i as int].queue@));
                    return None;
                }
                let sub = &mut self.subscribers[i];
                let r = sub.queue.pop_front();
                match r {
                    None => None,
                    Some(f) => {
                        let ghost new_model = old_model.insert(id, old_model[id].drop_first());
                        self.model = Ghost(new_model);
                        assert(frames_of(self.subscribers@[i as int].queue@) =~= old_model[id].drop_first());
                        assert forall|p: int|
                            0 <= p < self.subscribers@.len() implies #[trigger] self.model@.contains_key(
                                self.subscribers@[p].id,
                            ) && self.model@[self.subscribers@[p].id] == frames_of(
                                self.subscribers@[p].queue@,
                            ) && self.subscribers@[p].queue@.len() <= self.capacity by {
                            assert(old_model.contains_key(old_subs[p].id));
                            if p != i {
                                if p < i {
                                    assert(old_subs[p].id != old_subs[i as int].id);
                                } else {
                                    assert(old_subs[i as int].id != old_subs[p].id);
                                }
                            }
                        }
                        assert forall|id2: u64| #[trigger] self.model@.contains_key(id2) implies exists|k: int|
                            0 <= k < self.subscribers@.len() && self.subscribers@[k].id == id2 by {
                            let k = choose|k: int| 0 <= k < old_subs.len() && old_subs[k].id == id2;
                            assert(self.subscribers@[k].id == id2);
                        }
                        assert forall|p: int, q: int|
                            0 <= p < q < self.subscribers@.len() implies #[trigger] self.subscribers@[p].id
                                != #[trigger] self.subscribers@[q].id by {
                            assert(old_subs[p].id != old_subs[q].id);
                        }
                        Some(f)
                    },
                }
            },
        }
    }

    /// Number of unread frames of subscriber `id`; zero for an unknown id.
    pub fn pending(&self, id: u64) -> (r: usize)
        requires
            self.wf(),
        ensures
            self@.contains_key(id) ==> r == self@[id].len(),
            !self@.contains_key(id) ==> r == 0,
    {
        match self.find(id) {
            None => 0,
            Some(i) => {
                assert(self.model@.contains_key(self.subscribers@[i as int].id));
                self.subscribers[i].queue.len()
            },
        }
    }

    /// Number of subscribers.
    pub fn subscriber_count(&self) -> (r: usize)
        requires
            self.wf(),
        ensures
            r == self@.len(),
    {
        proof {
            self.lemma_count();
        }
        self.subscribers.len()
    }

    proof fn lemma_count(&self)
        requires
            self.wf(),
        ensures
            self.subscribers@.len() == self@.len(),
    {
        let ids = self.subscribers@.map_values(|s: Subscriber| s.id);
        assert(ids.no_duplicates()) by {
            assert forall|i: int, j: int|
                0 <= i < ids.len() && 0 <= j < ids.len() && i != j implies ids[i] != ids[j] by {
                if i < j {
                    assert(self.subscribers@[i].id != self.subscribers@[j].id);
                } else {
                    assert(self.subscribers@[j].id != self.subscribers@[i].id);
                }
            }
        }
        ids.unique_seq_to_set();
        assert(ids.to_set() =~= self@.dom()) by {
            assert forall|a: u64| ids.to_set().contains(a) implies self@.dom().contains(a) by {
                let i = choose|i: int| 0 <= i < ids.len() && ids[i] == a;
                assert(self.model@.contains_key(self.subscribers@[i].id));
            }
            assert forall|a: u64| self@.dom().contains(a) implies ids.to_set().contains(a) by {
                assert(self.model@.contains_key(a));
                let i = choose|i: int| 0 <= i < self.subscribers@.len() && self.subscribers@[i].id == a;
                assert(ids[i] == a);
            }
        }
    }
}

} // verus!
