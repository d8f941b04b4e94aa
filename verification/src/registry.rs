//! The channel registry: a mutual-exclusion-guarded mapping from channel
//! name to its lazily created broadcast topic. Publishing to a name nobody
//! ever subscribed to is a silent no-op; subscribing creates the topic first.
//! A subscribe call runs in two phases: `subscribe` is the critical section
//! that atomically gets or creates each topic and attaches a fresh
//! subscriber, and `try_next` is one poll of the race across the returned
//! attachments. The runtime must release the registry's lock between the two
//! phases and between polls: the wait for a message is unbounded and must
//! never hold the lock.

use vstd::prelude::*;

use crate::assoc::{assoc_map, lemma_assoc_absent, lemma_assoc_lookup, lemma_assoc_update,
    unique_keys};
use crate::store::views_of;
use crate::topic::{attached_count, deliver, Topic, TopicV};

verus! {

/// The view of the registry: channel name to topic view.
pub type RegV = Map<Seq<char>, TopicV>;

/// The registry after a publish: the named topic, if it exists, takes the
/// message; no topic is created for an unseen name.
pub open spec fn publish_spec(r: RegV, c: Seq<char>, m: Seq<char>) -> RegV {
    if r.contains_key(c) {
        r.insert(c, deliver(r[c], m))
    } else {
        r
    }
}

/// How many subscribers a publish delivers to: those attached to the named
/// topic at publish time, none for an unseen name.
pub open spec fn publish_count(r: RegV, c: Seq<char>) -> nat {
    if r.contains_key(c) {
        attached_count(r[c])
    } else {
        0
    }
}

/// The registry after one get-or-create-and-attach on a channel.
pub open spec fn attach_spec(r: RegV, c: Seq<char>) -> RegV {
    if r.contains_key(c) {
        r.insert(c, r[c].push(Some(Seq::<Seq<char>>::empty())))
    } else {
        r.insert(c, seq![Some(Seq::<Seq<char>>::empty())])
    }
}

/// The slot the new attachment takes.
pub open spec fn attach_id(r: RegV, c: Seq<char>) -> nat {
    if r.contains_key(c) {
        r[c].len()
    } else {
        0
    }
}

/// The registry after attaching to each listed channel in order.
pub open spec fn subscribe_spec(r: RegV, cs: Seq<Seq<char>>) -> RegV
    decreases cs.len(),
{
    if cs.len() == 0 {
        r
    } else {
        subscribe_spec(attach_spec(r, cs[0]), cs.drop_first())
    }
}

/// The attachments such a subscribe hands back: channel and slot, in order.
pub open spec fn subscribe_handles(r: RegV, cs: Seq<Seq<char>>) -> Seq<(Seq<char>, nat)>
    decreases cs.len(),
{
    if cs.len() == 0 {
        Seq::empty()
    } else {
        seq![(cs[0], attach_id(r, cs[0]))] + subscribe_handles(
            attach_spec(r, cs[0]),
            cs.drop_first(),
        )
    }
}

/// An attachment that is still live: its channel exists, its slot exists,
/// and the slot is attached.
pub open spec fn handle_valid(r: RegV, c: Seq<char>, id: nat) -> bool {
    r.contains_key(c) && id < r[c].len() && r[c][id as int] is Some
}

/// The messages pending for a live attachment, oldest first.
pub open spec fn pending(r: RegV, c: Seq<char>, id: nat) -> Seq<Seq<char>> {
    r[c][id as int]->0
}

/// A live attachment with at least one pending message.
pub open spec fn ready(r: RegV, c: Seq<char>, id: nat) -> bool {
    handle_valid(r, c, id) && pending(r, c, id).len() > 0
}

/// The registry after a ready attachment gives up its oldest message.
pub open spec fn pop_spec(r: RegV, c: Seq<char>, id: nat) -> RegV {
    r.insert(c, r[c].update(id as int, Some(pending(r, c, id).drop_first())))
}

/// The registry after tearing one attachment down; an attachment whose
/// channel or slot never existed leaves the registry alone.
pub open spec fn detach_one(r: RegV, c: Seq<char>, id: nat) -> RegV {
    if r.contains_key(c) && id < r[c].len() {
        r.insert(c, r[c].update(id as int, None))
    } else {
        r
    }
}

/// The registry after tearing the listed attachments down in order.
pub open spec fn detach_seq(r: RegV, hs: Seq<(Seq<char>, nat)>) -> RegV
    decreases hs.len(),
{
    if hs.len() == 0 {
        r
    } else {
        detach_seq(detach_one(r, hs[0].0, hs[0].1), hs.drop_first())
    }
}

/// One subscriber's live connection to one topic, valid for the duration of
/// one subscribe call.
pub struct SubHandle {
    /// The channel subscribed to.
    pub channel: String,
    /// The slot taken in that channel's topic.
    pub id: usize,
}

/// The views of a sequence of handles.
pub open spec fn hviews(hs: Seq<SubHandle>) -> Seq<(Seq<char>, nat)> {
    hs.map_values(|h: SubHandle| (h.channel@, h.id as nat))
}

/// The name-to-topic mapping itself.
pub struct Registry {
    topics: Vec<(String, Topic)>,
}

impl View for Registry {
    type V = RegV;

    closed spec fn view(&self) -> RegV {
        assoc_map(self.pairs())
    }
}

impl Registry {
    /// The entries as viewed pairs.
    pub closed spec fn pairs(&self) -> Seq<(Seq<char>, TopicV)> {
        self.topics@.map_values(|p: (String, Topic)| (p.0@, p.1@))
    }

    /// Well-formedness: channel names are pairwise distinct and every topic
    /// is well formed.
    pub closed spec fn inv(&self) -> bool {
        &&& unique_keys(self.pairs())
        &&& forall|i: int| 0 <= i < self.topics@.len() ==> (#[trigger] self.topics@[i]).1.inv()
    }

    /// An empty registry.
    pub fn new() -> (r: Registry)
        ensures
            r.inv(),
            r@ == Map::<Seq<char>, TopicV>::empty(),
    {
        Registry { topics: Vec::new() }
    }

    /// The index of the entry for `channel`, if any.
    fn find(&self, channel: &String) -> (r: Option<usize>)
        ensures
            match r {
                Some(i) => i < self.pairs().len() && self.pairs()[i as int].0 == channel@,
                None => forall|i: int|
                    0 <= i < self.pairs().len() ==> self.pairs()[i].0 != channel@,
            },
    {
        let mut i: usize = 0;
        while i < self.topics.len()
            invariant
                i <= self.topics.len(),
                forall|j: int| 0 <= j < i ==> self.pairs()[j].0 != channel@,
            decreases self.topics.len() - i,
        {
            if self.topics[i].0 == *channel {
                return Some(i);
            }
            i += 1;
        }
        None
    }

    /// Deliver a message to every subscriber of the named channel; if no
    /// topic of that name exists, none is created and nobody is counted.
    pub fn publish(&mut self, channel: &String, msg: &String) -> (n: usize)
        requires
            old(self).inv(),
        ensures
            final(self).inv(),
            final(self)@ == publish_spec(old(self)@, channel@, msg@),
            n as nat == publish_count(old(self)@, channel@),
    {
        let ghost p0 = self.pairs();
        match self.find(channel) {
            Some(i) => {
                proof {
                    lemma_assoc_lookup(p0, i as int, channel@);
                }
                let n = self.topics[i].1.publish(msg);
                proof {
                    assert(self.pairs() =~= p0.update(
                        i as int,
                        (channel@, deliver(p0[i as int].1, msg@)),
                    ));
                    lemma_assoc_update(p0, i as int, channel@, deliver(p0[i as int].1, msg@));
                    assert(forall|j: int|
                        0 <= j < self.topics@.len() && j != i
                            ==> (#[trigger] self.topics@[j]).1 == old(self).topics@[j].1);
                }
                n
            },
            None => {
                proof {
                    lemma_assoc_absent(p0, channel@);
                }
                0
            },
        }
    }

    /// Get or create the topic for one channel and attach a fresh
    /// subscriber to it; the slot taken comes back.
    fn attach_one(&mut self, channel: &String) -> (id: usize)
        requires
            old(self).inv(),
        ensures
            final(self).inv(),
            final(self)@ == attach_spec(old(self)@, channel@),
            id as nat == attach_id(old(self)@, channel@),
    {
        let ghost p0 = self.pairs();
        match self.find(channel) {
            Some(i) => {
                proof {
                    lemma_assoc_lookup(p0, i as int, channel@);
                }
                let id = self.topics[i].1.attach();
                proof {
                    assert(self.pairs() =~= p0.update(
                        i as int,
                        (channel@, p0[i as int].1.push(Some(Seq::<Seq<char>>::empty()))),
                    ));
                    lemma_assoc_update(
                        p0,
                        i as int,
                        channel@,
                        p0[i as int].1.push(Some(Seq::<Seq<char>>::empty())),
                    );
                    assert(forall|j: int|
                        0 <= j < self.topics@.len() && j != i
                            ==> (#[trigger] self.topics@[j]).1 == old(self).topics@[j].1);
                }
                id
            },
            None => {
                proof {
                    lemma_assoc_absent(p0, channel@);
                }
                let mut t = Topic::new();
                let id = t.attach();
                proof {
                    assert(t@ =~= seq![Some(Seq::<Seq<char>>::empty())]);
                }
                self.topics.push((channel.clone(), t));
                proof {
                    assert(self.pairs() =~= p0.push(
                        (channel@, seq![Some(Seq::<Seq<char>>::empty())]),
                    ));
                    assert(self.pairs().drop_last() =~= p0);
                    assert(forall|j: int|
                        0 <= j < old(self).topics@.len()
                            ==> (#[trigger] self.topics@[j]).1 == old(self).topics@[j].1);
                }
                id
            },
        }
    }

    /// The critical-section phase of a subscribe call: for each requested
    /// channel in order, get or create its topic and attach a fresh
    /// subscriber. The wait for a message happens outside, one `try_next`
    /// poll at a time, with the registry's lock released in between.
    pub fn subscribe(&mut self, channels: &Vec<String>) -> (hs: Vec<SubHandle>)
        requires
            old(self).inv(),
        ensures
            final(self).inv(),
            final(self)@ == subscribe_spec(old(self)@, views_of(channels@)),
            hviews(hs@) == subscribe_handles(old(self)@, views_of(channels@)),
    {
        let ghost r0 = self@;
        let ghost cv = views_of(channels@);
        let mut hs: Vec<SubHandle> = Vec::new();
        let mut i: usize = 0;
        proof {
            assert(cv.skip(0) =~= cv);
            assert(hviews(hs@) =~= Seq::<(Seq<char>, nat)>::empty());
            assert(hviews(hs@) + subscribe_handles(self@, cv) =~= subscribe_handles(self@, cv));
        }
        while i < channels.len()
            invariant
                self.inv(),
                i <= channels@.len(),
                hs@.len() == i,
                cv == views_of(channels@),
                subscribe_spec(r0, cv) == subscribe_spec(self@, cv.skip(i as int)),
                subscribe_handles(r0, cv) == hviews(hs@) + subscribe_handles(
                    self@,
                    cv.skip(i as int),
                ),
            decreases channels@.len() - i,
        {
            let ghost pre = self@;
            let ghost hpre = hs@;
            let id = self.attach_one(&channels[i]);
            hs.push(SubHandle { channel: channels[i].clone(), id });
            proof {
                assert(cv.skip(i as int)[0] == cv[i as int]);
                assert(cv[i as int] == channels@[i as int]@);
                assert(cv.skip(i as int).drop_first() =~= cv.skip(i as int + 1));
                assert(hviews(hs@) =~= hviews(hpre).push((channels@[i as int]@, id as nat)));
                assert(hviews(hpre) + (seq![(cv[i as int], attach_id(pre, cv[i as int]))]
                    + subscribe_handles(self@, cv.skip(i as int + 1))) =~= hviews(hs@)
                    + subscribe_handles(self@, cv.skip(i as int + 1)));
            }
            i += 1;
        }
        proof {
            assert(cv.skip(channels@.len() as int) =~= Seq::<Seq<char>>::empty());
            assert(hviews(hs@) + subscribe_handles(self@, cv.skip(channels@.len() as int))
                =~= hviews(hs@));
        }
        hs
    }

    /// One poll of the fan-in race: the first of the given attachments with
    /// a pending message gives up its oldest one; if none has any, nothing
    /// changes and the caller must wait and poll again.
    pub fn try_next(&mut self, handles: &Vec<SubHandle>) -> (r: Option<String>)
        requires
            old(self).inv(),
        ensures
            final(self).inv(),
            match r {
                None => final(self)@ == old(self)@ && forall|j: int|
                    0 <= j < handles@.len() ==> !ready(
                        old(self)@,
                        (#[trigger] handles@[j]).channel@,
                        handles@[j].id as nat,
                    ),
                Some(m) => exists|j: int|
                    0 <= j < handles@.len() && (forall|x: int|
                        0 <= x < j ==> !ready(
                            old(self)@,
                            (#[trigger] handles@[x]).channel@,
                            handles@[x].id as nat,
                        )) && ready(
                        old(self)@,
                        (#[trigger] handles@[j]).channel@,
                        handles@[j].id as nat,
                    ) && m@ == pending(old(self)@, handles@[j].channel@, handles@[j].id as nat)[0]
                        && final(self)@ == pop_spec(
                        old(self)@,
                        handles@[j].channel@,
                        handles@[j].id as nat,
                    ),
            },
    {
        let ghost r0 = self@;
        let mut j: usize = 0;
        while j < handles.len()
            invariant
                self.inv(),
                j <= handles@.len(),
                self@ == r0,
                r0 == old(self)@,
                forall|x: int|
                    0 <= x < j ==> !ready(
                        r0,
                        (#[trigger] handles@[x]).channel@,
                        handles@[x].id as nat,
                    ),
            decreases handles@.len() - j,
        {
            let ghost p0 = self.pairs();
            match self.find(&handles[j].channel) {
                Some(i) => {
                    proof {
                        lemma_assoc_lookup(p0, i as int, handles@[j as int].channel@);
                    }
                    let ghost ts = self.topics@;
                    let got = self.topics[i].1.poll(handles[j].id);
                    match got {
                        Some(m) => {
                            proof {
                                let c = handles@[j as int].channel@;
                                let id = handles@[j as int].id as nat;
                                let tv = p0[i as int].1;
                                assert(self.pairs() =~= p0.update(
                                    i as int,
                                    (c, tv.update(id as int, Some(tv[id as int]->0.drop_first()))),
                                ));
                                lemma_assoc_update(
                                    p0,
                                    i as int,
                                    c,
                                    tv.update(id as int, Some(tv[id as int]->0.drop_first())),
                                );
                                assert(forall|x: int|
                                    0 <= x < self.topics@.len() && x != i
                                        ==> (#[trigger] self.topics@[x]).1 == ts[x].1);
                                assert(ready(r0, c, id));
                                assert(self@ == pop_spec(r0, c, id));
                            }
                            return Some(m);
                        },
                        None => {
                            proof {
                                assert(self.pairs() =~= p0);
                                assert(!ready(
                                    r0,
                                    handles@[j as int].channel@,
                                    handles@[j as int].id as nat,
                                ));
                                assert(forall|x: int|
                                    0 <= x < self.topics@.len() && x != i
                                        ==> (#[trigger] self.topics@[x]).1 == ts[x].1);
                            }
                        },
                    }
                },
                None => {
                    proof {
                        lemma_assoc_absent(p0, handles@[j as int].channel@);
                    }
                },
            }
            j += 1;
        }
        None
    }

    /// Tear the listed attachments down in order, discarding anything still
    /// pending for them; the topics themselves live on.
    pub fn unsubscribe(&mut self, handles: &Vec<SubHandle>)
        requires
            old(self).inv(),
        ensures
            final(self).inv(),
            final(self)@ == detach_seq(old(self)@, hviews(handles@)),
    {
        let ghost r0 = self@;
        let ghost hv = hviews(handles@);
        let mut j: usize = 0;
        proof {
            assert(hv.skip(0) =~= hv);
        }
        while j < handles.len()
            invariant
                self.inv(),
                j <= handles@.len(),
                hv == hviews(handles@),
                detach_seq(r0, hv) == detach_seq(self@, hv.skip(j as int)),
            decreases handles@.len() - j,
        {
            let ghost pre = self@;
            let ghost p0 = self.pairs();
            match self.find(&handles[j].channel) {
                Some(i) => {
                    proof {
                        lemma_assoc_lookup(p0, i as int, handles@[j as int].channel@);
                    }
                    let ghost ts = self.topics@;
                    self.topics[i].1.detach(handles[j].id);
                    proof {
                        let c = handles@[j as int].channel@;
                        let id = handles@[j as int].id as nat;
                        let tv = p0[i as int].1;
                        if id < tv.len() {
                            assert(self.pairs() =~= p0.update(
                                i as int,
                                (c, tv.update(id as int, None)),
                            ));
                            lemma_assoc_update(p0, i as int, c, tv.update(id as int, None));
                            assert(self@ == detach_one(pre, c, id));
                        } else {
                            assert(self.pairs() =~= p0);
                            assert(self@ == detach_one(pre, c, id));
                        }
                        assert(forall|x: int|
                            0 <= x < self.topics@.len() && x != i
                                ==> (#[trigger] self.topics@[x]).1 == ts[x].1);
                    }
                },
                None => {
                    proof {
                        lemma_assoc_absent(p0, handles@[j as int].channel@);
                        assert(self@ == detach_one(pre, handles@[j as int].channel@,
                            handles@[j as int].id as nat));
                    }
                },
            }
            proof {
                assert(hv.skip(j as int)[0] == hv[j as int]);
                assert(hv[j as int] == (handles@[j as int].channel@, handles@[j as int].id as nat));
                assert(hv.skip(j as int).drop_first() =~= hv.skip(j as int + 1));
            }
            j += 1;
        }
        proof {
            assert(hv.skip(handles@.len() as int) =~= Seq::<(Seq<char>, nat)>::empty());
        }
    }
}

} // verus!
