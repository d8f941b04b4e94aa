//! A single named pub/sub topic. Many independent subscribers attach to it;
//! each attached subscriber has its own bounded buffer of pending messages.
//! A publish delivers to every currently attached subscriber and never waits
//! for a slow one: when a buffer is full, its oldest undelivered message is
//! dropped. A subscriber receives only messages published after it attached.

use vstd::prelude::*;

use crate::store::views_of;

verus! {

/// How many undelivered messages one subscriber's buffer can hold.
pub const TOPIC_CAPACITY: usize = 16;

/// The view of a topic: one slot per subscriber ever attached; `None` for a
/// detached slot, otherwise the pending messages, oldest first.
pub type TopicV = Seq<Option<Seq<Seq<char>>>>;

/// A buffer after one more message: the oldest pending message gives way
/// when the buffer is full.
pub open spec fn push_bounded(b: Seq<Seq<char>>, m: Seq<char>) -> Seq<Seq<char>> {
    if b.len() < TOPIC_CAPACITY as int {
        b.push(m)
    } else {
        b.drop_first().push(m)
    }
}

/// A topic after one publish: every attached slot takes the message.
pub open spec fn deliver(t: TopicV, m: Seq<char>) -> TopicV {
    t.map_values(
        |o: Option<Seq<Seq<char>>>|
            match o {
                Some(b) => Some(push_bounded(b, m)),
                None => None,
            },
    )
}

/// How many slots are attached.
pub open spec fn attached_count(t: TopicV) -> nat
    decreases t.len(),
{
    if t.len() == 0 {
        0
    } else {
        attached_count(t.drop_last()) + (if t.last() is Some {
            1nat
        } else {
            0nat
        })
    }
}

/// One subscriber's attachment: alive or torn down, with its pending buffer.
struct Sub {
    attached: bool,
    buf: Vec<String>,
}

/// The view of one attachment.
spec fn slot_view(s: Sub) -> Option<Seq<Seq<char>>> {
    if s.attached {
        Some(views_of(s.buf@))
    } else {
        None
    }
}

/// A named broadcast topic; the name itself lives with the registry.
pub struct Topic {
    subs: Vec<Sub>,
}

impl View for Topic {
    type V = TopicV;

    closed spec fn view(&self) -> TopicV {
        self.subs@.map_values(|s: Sub| slot_view(s))
    }
}

impl Topic {
    /// Well-formedness: no pending buffer exceeds the capacity.
    pub closed spec fn inv(&self) -> bool {
        forall|i: int| 0 <= i < self.subs@.len() ==> self.subs@[i].buf@.len() <= TOPIC_CAPACITY
    }

    /// A fresh topic with no subscribers.
    pub fn new() -> (t: Topic)
        ensures
            t.inv(),
            t@ == Seq::<Option<Seq<Seq<char>>>>::empty(),
    {
        let t = Topic { subs: Vec::new() };
        proof {
            assert(t@ =~= Seq::<Option<Seq<Seq<char>>>>::empty());
        }
        t
    }

    /// Attach a fresh subscriber; its buffer starts empty, so it receives
    /// only messages published after this call.
    pub fn attach(&mut self) -> (id: usize)
        requires
            old(self).inv(),
        ensures
            final(self).inv(),
            id as int == old(self)@.len(),
            final(self)@ == old(self)@.push(Some(Seq::<Seq<char>>::empty())),
    {
        let id = self.subs.len();
        self.subs.push(Sub { attached: true, buf: Vec::new() });
        proof {
            assert(views_of(Seq::<String>::empty()) =~= Seq::<Seq<char>>::empty());
            assert(self@ =~= old(self)@.push(Some(Seq::<Seq<char>>::empty())));
        }
        id
    }

    /// Tear one attachment down; anything still pending for it is discarded.
    /// An id that never was, or is already down, is left alone.
    pub fn detach(&mut self, id: usize)
        requires
            old(self).inv(),
        ensures
            final(self).inv(),
            final(self)@ == if id < old(self)@.len() {
                old(self)@.update(id as int, None::<Seq<Seq<char>>>)
            } else {
                old(self)@
            },
    {
        if id < self.subs.len() {
            self.subs[id] = Sub { attached: false, buf: Vec::new() };
            proof {
                assert(self@ =~= old(self)@.update(id as int, None::<Seq<Seq<char>>>));
            }
        }
    }

    /// Deliver one message to every attached subscriber, never blocking on
    /// any of them; the count of subscribers attached at publish time comes
    /// back.
    pub fn publish(&mut self, msg: &String) -> (n: usize)
        requires
            old(self).inv(),
        ensures
            final(self).inv(),
            final(self)@ == deliver(old(self)@, msg@),
            n as nat == attached_count(old(self)@),
    {
        let ghost t0 = self@;
        let mut n: usize = 0;
        let mut i: usize = 0;
        while i < self.subs.len()
            invariant
                self.inv(),
                self.subs@.len() == t0.len(),
                i <= t0.len(),
                n <= i,
                forall|j: int| i <= j < t0.len() ==> self@[j] == t0[j],
                forall|j: int| 0 <= j < i ==> self@[j] == deliver(t0, msg@)[j],
                n as nat == attached_count(t0.take(i as int)),
            decreases t0.len() - i,
        {
            let ghost pre = self.subs@;
            proof {
                assert(self@[i as int] == slot_view(pre[i as int]));
                assert(self@[i as int] == t0[i as int]);
            }
            if self.subs[i].attached {
                if self.subs[i].buf.len() == TOPIC_CAPACITY {
                    self.subs[i].buf.remove(0);
                    proof {
                        assert(self.subs@[i as int].buf@ =~= pre[i as int].buf@.drop_first());
                    }
                }
                self.subs[i].buf.push(msg.clone());
                n += 1;
                proof {
                    assert(t0[i as int] == Some(views_of(pre[i as int].buf@)));
                    assert(views_of(self.subs@[i as int].buf@)
                        =~= push_bounded(t0[i as int]->0, msg@));
                    assert(slot_view(self.subs@[i as int])
                        == Some(push_bounded(t0[i as int]->0, msg@)));
                }
            } else {
                proof {
                    assert(t0[i as int] is None);
                }
            }
            proof {
                assert(forall|j: int|
                    0 <= j < t0.len() && j != i ==> self.subs@[j] == pre[j]);
                assert(self@[i as int] == deliver(t0, msg@)[i as int]);
                assert forall|j: int| 0 <= j < i + 1 implies self@[j] == deliver(
                    t0,
                    msg@,
                )[j] by {
                    if j < i {
                        assert(self@[j] == slot_view(self.subs@[j]));
                        assert(slot_view(pre[j]) == pre.map_values(|s: Sub| slot_view(s))[j]);
                    }
                }
                assert forall|j: int| i + 1 <= j < t0.len() implies self@[j] == t0[j] by {
                    assert(self@[j] == slot_view(self.subs@[j]));
                    assert(slot_view(pre[j]) == pre.map_values(|s: Sub| slot_view(s))[j]);
                }
                assert(t0.take(i as int + 1).drop_last() =~= t0.take(i as int));
                assert(t0.take(i as int + 1).last() == t0[i as int]);
            }
            i += 1;
        }
        proof {
            assert(t0.take(t0.len() as int) =~= t0);
            assert(self@ =~= deliver(t0, msg@));
        }
        n
    }

    /// Take the oldest pending message for one attachment, if it has any.
    /// An id that never was, or is detached, yields nothing and changes
    /// nothing.
    pub fn poll(&mut self, id: usize) -> (r: Option<String>)
        requires
            old(self).inv(),
        ensures
            final(self).inv(),
            match r {
                Some(m) => id < old(self)@.len() && old(self)@[id as int] is Some
                    && old(self)@[id as int]->0.len() > 0
                    && m@ == old(self)@[id as int]->0[0]
                    && final(self)@ == old(self)@.update(
                    id as int,
                    Some(old(self)@[id as int]->0.drop_first()),
                ),
                None => final(self)@ == old(self)@ && !(id < old(self)@.len()
                    && old(self)@[id as int] is Some && old(self)@[id as int]->0.len() > 0),
            },
    {
        if id < self.subs.len() {
            if self.subs[id].attached && self.subs[id].buf.len() > 0 {
                let ghost pre = self.subs@;
                let m = self.subs[id].buf.remove(0);
                proof {
                    assert(self.subs@[id as int].buf@ =~= pre[id as int].buf@.drop_first());
                    assert(views_of(self.subs@[id as int].buf@)
                        =~= old(self)@[id as int]->0.drop_first());
                    assert(self@ =~= old(self)@.update(
                        id as int,
                        Some(old(self)@[id as int]->0.drop_first()),
                    ));
                    assert(m@ == old(self)@[id as int]->0[0]);
                }
                return Some(m);
            }
        }
        None
    }

    /// How many subscribers are attached right now.
    pub fn sub_count(&self) -> (n: usize)
        ensures
            n as nat == attached_count(self@),
    {
        let mut n: usize = 0;
        let mut i: usize = 0;
        while i < self.subs.len()
            invariant
                self.subs@.len() == self@.len(),
                i <= self@.len(),
                n <= i,
                n as nat == attached_count(self@.take(i as int)),
            decreases self@.len() - i,
        {
            if self.subs[i].attached {
                n += 1;
            }
            proof {
                assert(self@.take(i as int + 1).drop_last() =~= self@.take(i as int));
                assert(self@.take(i as int + 1).last() == self@[i as int]);
            }
            i += 1;
        }
        proof {
            assert(self@.take(self@.len() as int) =~= self@);
        }
        n
    }
}

} // verus!
