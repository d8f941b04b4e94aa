//! The laws of the state layer, each proved once and for all inputs: what
//! repeated writes leave behind, what a delete of a whole set removes and
//! counts, that a publish reaches every attached subscriber and leaves no
//! backlog for later ones, how the two-channel race settles when only one
//! channel fires, what the filtering middleware lets through, and that
//! writes to distinct keys commute (so any serialization order of
//! concurrent writers leaves the same map).

use vstd::prelude::*;

use crate::api::{ErrV, Request, RespV};
use crate::filter::{rejected_msg, FilterService, Handler, RejectPing};
use crate::registry::{attach_id, attach_spec, detach_one, handle_valid, pending, pop_spec,
    publish_count, publish_spec, ready, subscribe_handles, subscribe_spec, RegV};
use crate::store::{del_count, del_map};
use crate::topic::{deliver, push_bounded, TopicV, TOPIC_CAPACITY};

verus! {

/// Last write wins: after setting a key twice, a get sees the second value,
/// whatever was there before.
pub proof fn lemma_last_write_wins(
    m: Map<Seq<char>, Seq<char>>,
    k: Seq<char>,
    v1: Seq<char>,
    v2: Seq<char>,
)
    ensures
        m.insert(k, v1).insert(k, v2).contains_key(k),
        m.insert(k, v1).insert(k, v2)[k] == v2,
{
}

/// Deleting a key that is not present removes nothing and counts nothing;
/// the get side of the same property is the `None` arm of `get`'s contract.
pub proof fn lemma_delete_absent(m: Map<Seq<char>, Seq<char>>, k: Seq<char>)
    requires
        !m.contains_key(k),
    ensures
        del_count(m, seq![k]) == 0,
        del_map(m, seq![k]) == m,
{
    assert(seq![k].len() == 1);
    assert(seq![k][0] == k);
    assert(seq![k].drop_first() =~= Seq::<Seq<char>>::empty());
    assert(m.remove(k) =~= m);
    assert(del_count(m, seq![k]) == del_count(m.remove(k), seq![k].drop_first()));
    assert(del_map(m, seq![k]) == del_map(m.remove(k), seq![k].drop_first()));
}

/// Deleting nothing mutates nothing and counts nothing.
pub proof fn lemma_delete_nothing(m: Map<Seq<char>, Seq<char>>)
    ensures
        del_map(m, Seq::<Seq<char>>::empty()) == m,
        del_count(m, Seq::<Seq<char>>::empty()) == 0,
{
}

/// How many of the listed keys are present right now.
pub open spec fn count_present(m: Map<Seq<char>, Seq<char>>, ks: Seq<Seq<char>>) -> nat
    decreases ks.len(),
{
    if ks.len() == 0 {
        0
    } else {
        (if m.contains_key(ks[0]) {
            1nat
        } else {
            0nat
        }) + count_present(m, ks.drop_first())
    }
}

/// Removing an unlisted key beforehand does not change what a delete of the
/// list counts.
proof fn lemma_del_count_remove_other(
    m: Map<Seq<char>, Seq<char>>,
    k: Seq<char>,
    ks: Seq<Seq<char>>,
)
    requires
        !ks.contains(k),
    ensures
        del_count(m.remove(k), ks) == del_count(m, ks),
    decreases ks.len(),
{
    if ks.len() > 0 {
        let k0 = ks[0];
        assert(ks.contains(ks[0]));
        assert(k0 != k);
        assert(m.remove(k).contains_key(k0) == m.contains_key(k0));
        assert(m.remove(k).remove(k0) =~= m.remove(k0).remove(k));
        assert(!ks.drop_first().contains(k)) by {
            if ks.drop_first().contains(k) {
                let i = choose|i: int|
                    0 <= i < ks.drop_first().len() && ks.drop_first()[i] == k;
                assert(ks[i + 1] == k);
            }
        }
        lemma_del_count_remove_other(m.remove(k0), k, ks.drop_first());
    }
}

/// Deleting a set of keys (no key listed twice) counts exactly the members
/// present at the start.
pub proof fn lemma_delete_counts_present(m: Map<Seq<char>, Seq<char>>, ks: Seq<Seq<char>>)
    requires
        ks.no_duplicates(),
    ensures
        del_count(m, ks) == count_present(m, ks),
    decreases ks.len(),
{
    if ks.len() > 0 {
        assert(ks.drop_first().no_duplicates()) by {
            assert(forall|i: int, j: int|
                0 <= i < j < ks.drop_first().len()
                    ==> ks.drop_first()[i] == ks[i + 1] && ks.drop_first()[j] == ks[j + 1]);
        }
        assert(!ks.drop_first().contains(ks[0])) by {
            if ks.drop_first().contains(ks[0]) {
                let i = choose|i: int|
                    0 <= i < ks.drop_first().len() && ks.drop_first()[i] == ks[0];
                assert(ks[i + 1] == ks[0]);
            }
        }
        lemma_del_count_remove_other(m, ks[0], ks.drop_first());
        lemma_delete_counts_present(m, ks.drop_first());
    }
}

/// After a delete, every listed key reads as absent, and every unlisted key
/// is exactly as it was.
pub proof fn lemma_delete_clears(m: Map<Seq<char>, Seq<char>>, ks: Seq<Seq<char>>)
    ensures
        forall|k: Seq<char>| ks.contains(k) ==> !del_map(m, ks).contains_key(k),
        forall|k: Seq<char>|
            !ks.contains(k) ==> del_map(m, ks).contains_key(k) == m.contains_key(k),
        forall|k: Seq<char>|
            !ks.contains(k) && m.contains_key(k) ==> del_map(m, ks)[k] == m[k],
    decreases ks.len(),
{
    if ks.len() > 0 {
        let k0 = ks[0];
        let m1 = m.remove(k0);
        lemma_delete_clears(m1, ks.drop_first());
        assert(del_map(m, ks) == del_map(m1, ks.drop_first()));
        assert forall|k: Seq<char>| ks.contains(k) implies !del_map(m, ks).contains_key(k) by {
            let i = choose|i: int| 0 <= i < ks.len() && ks[i] == k;
            if i > 0 {
                assert(ks.drop_first()[i - 1] == k);
                assert(ks.drop_first().contains(k));
            } else {
                if !ks.drop_first().contains(k) {
                    assert(!m1.contains_key(k));
                    assert(del_map(m1, ks.drop_first()).contains_key(k) == m1.contains_key(k));
                }
            }
        }
        assert forall|k: Seq<char>| !ks.contains(k) implies del_map(m, ks).contains_key(k)
            == m.contains_key(k) && (m.contains_key(k) ==> del_map(m, ks)[k] == m[k]) by {
            assert(!ks.drop_first().contains(k)) by {
                if ks.drop_first().contains(k) {
                    let i = choose|i: int|
                        0 <= i < ks.drop_first().len() && ks.drop_first()[i] == k;
                    assert(ks[i + 1] == k);
                }
            }
            assert(k != k0) by {
                assert(ks.contains(k0));
            }
            assert(del_map(m1, ks.drop_first()).contains_key(k) == m1.contains_key(k));
            assert(m1.contains_key(k) == m.contains_key(k));
            if m.contains_key(k) {
                assert(del_map(m1, ks.drop_first())[k] == m1[k]);
                assert(m1[k] == m[k]);
            }
        }
    }
}

/// Publishing to a channel nobody ever subscribed to delivers to nobody and
/// creates nothing.
pub proof fn lemma_publish_unseen(r: RegV, c: Seq<char>, m: Seq<char>)
    requires
        !r.contains_key(c),
    ensures
        publish_spec(r, c, m) == r,
        publish_count(r, c) == 0,
{
}

/// A publish leaves no backlog: a subscriber attaching afterward starts
/// with nothing pending, so it cannot receive the earlier message.
pub proof fn lemma_no_backlog(r: RegV, c: Seq<char>, m: Seq<char>)
    ensures
        ({
            let r2 = publish_spec(r, c, m);
            let id = attach_id(r2, c);
            let r3 = attach_spec(r2, c);
            handle_valid(r3, c, id) && pending(r3, c, id).len() == 0 && !ready(r3, c, id)
        }),
{
}

/// Fan-out, not fan-in consumption: one publish reaches every subscriber
/// attached at publish time, independently; one whose buffer was empty has
/// exactly that message pending.
pub proof fn lemma_publish_fanout(r: RegV, c: Seq<char>, m: Seq<char>, id: nat)
    requires
        handle_valid(r, c, id),
    ensures
        handle_valid(publish_spec(r, c, m), c, id),
        pending(publish_spec(r, c, m), c, id) == push_bounded(pending(r, c, id), m),
        pending(r, c, id).len() == 0 ==> pending(publish_spec(r, c, m), c, id) == seq![m],
{
    assert(deliver(r[c], m)[id as int] == Some(push_bounded(r[c][id as int]->0, m)));
    if pending(r, c, id).len() == 0 {
        assert(push_bounded(pending(r, c, id), m) =~= seq![m]);
    }
}

/// A publish on one channel disturbs no attachment on any other channel.
pub proof fn lemma_publish_keeps_other_channels(
    r: RegV,
    c: Seq<char>,
    m: Seq<char>,
    c2: Seq<char>,
    id2: nat,
)
    requires
        handle_valid(r, c2, id2),
        c2 != c,
    ensures
        handle_valid(publish_spec(r, c, m), c2, id2),
        pending(publish_spec(r, c, m), c2, id2) == pending(r, c2, id2),
{
}

/// Fan-out is not consumption: one subscriber taking its oldest message
/// leaves every other attachment, and everything pending for it, exactly as
/// it was.
pub proof fn lemma_pop_keeps_other_handles(
    r: RegV,
    c: Seq<char>,
    id: nat,
    c2: Seq<char>,
    id2: nat,
)
    requires
        ready(r, c, id),
        handle_valid(r, c2, id2),
        c != c2 || id != id2,
    ensures
        handle_valid(pop_spec(r, c, id), c2, id2),
        pending(pop_spec(r, c, id), c2, id2) == pending(r, c2, id2),
{
}

/// Attaching somewhere disturbs no live attachment and nothing pending for
/// it.
pub proof fn lemma_attach_keeps_handles(r: RegV, c: Seq<char>, c2: Seq<char>, id2: nat)
    requires
        handle_valid(r, c2, id2),
    ensures
        handle_valid(attach_spec(r, c), c2, id2),
        pending(attach_spec(r, c), c2, id2) == pending(r, c2, id2),
{
}

/// A whole subscribe call disturbs no live attachment and nothing pending
/// for it.
pub proof fn lemma_subscribe_keeps_handles(r: RegV, cs: Seq<Seq<char>>, c2: Seq<char>, id2: nat)
    requires
        handle_valid(r, c2, id2),
    ensures
        handle_valid(subscribe_spec(r, cs), c2, id2),
        pending(subscribe_spec(r, cs), c2, id2) == pending(r, c2, id2),
    decreases cs.len(),
{
    if cs.len() > 0 {
        lemma_attach_keeps_handles(r, cs[0], c2, id2);
        lemma_subscribe_keeps_handles(attach_spec(r, cs[0]), cs.drop_first(), c2, id2);
    }
}

/// Every attachment a subscribe call hands back is live in the registry it
/// leaves behind, with nothing pending yet: it will receive only messages
/// published after it attached.
pub proof fn lemma_subscribe_handles_live(r: RegV, cs: Seq<Seq<char>>)
    ensures
        subscribe_handles(r, cs).len() == cs.len(),
        forall|j: int|
            0 <= j < cs.len() ==> {
                let h = #[trigger] subscribe_handles(r, cs)[j];
                handle_valid(subscribe_spec(r, cs), h.0, h.1) && pending(
                    subscribe_spec(r, cs),
                    h.0,
                    h.1,
                ).len() == 0
            },
    decreases cs.len(),
{
    if cs.len() > 0 {
        let r1 = attach_spec(r, cs[0]);
        let id0 = attach_id(r, cs[0]);
        assert(handle_valid(r1, cs[0], id0) && pending(r1, cs[0], id0).len() == 0) by {
            if r.contains_key(cs[0]) {
                assert(r1[cs[0]] == r[cs[0]].push(Some(Seq::<Seq<char>>::empty())));
            } else {
                assert(r1[cs[0]] == seq![Some(Seq::<Seq<char>>::empty())]);
            }
        }
        lemma_subscribe_keeps_handles(r1, cs.drop_first(), cs[0], id0);
        lemma_subscribe_handles_live(r1, cs.drop_first());
        assert forall|j: int|
            0 <= j < cs.len() implies {
            let h = #[trigger] subscribe_handles(r, cs)[j];
            handle_valid(subscribe_spec(r, cs), h.0, h.1) && pending(
                subscribe_spec(r, cs),
                h.0,
                h.1,
            ).len() == 0
        } by {
            if j == 0 {
                assert(subscribe_handles(r, cs)[0] == (cs[0], id0));
            } else {
                assert(subscribe_handles(r, cs)[j]
                    == subscribe_handles(r1, cs.drop_first())[j - 1]);
            }
        }
    }
}

/// Subscribing to no channels attaches nothing and changes nothing: the
/// race then has no source of messages, so the call waits forever by
/// design — every poll finds nothing pending.
pub proof fn lemma_subscribe_nothing(r: RegV)
    ensures
        subscribe_spec(r, Seq::<Seq<char>>::empty()) == r,
        subscribe_handles(r, Seq::<Seq<char>>::empty()) == Seq::<(Seq<char>, nat)>::empty(),
{
}

/// A torn-down attachment is dead: it can never be ready again.
pub proof fn lemma_detach_kills_handle(r: RegV, c: Seq<char>, id: nat)
    requires
        handle_valid(r, c, id),
    ensures
        !handle_valid(detach_one(r, c, id), c, id),
        !ready(detach_one(r, c, id), c, id),
{
}

/// Delivery buffers stay bounded: no publish makes any buffer exceed the
/// capacity — a full buffer gives up its oldest message instead of growing
/// or blocking the publisher.
pub proof fn lemma_deliver_bounded(t: TopicV, m: Seq<char>)
    requires
        forall|i: int|
            0 <= i < t.len() && t[i] is Some ==> t[i]->0.len() <= TOPIC_CAPACITY as int,
    ensures
        forall|i: int|
            0 <= i < t.len() && #[trigger] deliver(t, m)[i] is Some
                ==> deliver(t, m)[i]->0.len() <= TOPIC_CAPACITY as int,
{
    assert forall|i: int|
        0 <= i < t.len() && #[trigger] deliver(t, m)[i] is Some implies deliver(t, m)[i]->0.len()
        <= TOPIC_CAPACITY as int by {
        assert(t[i] is Some);
    }
}

/// The race on two channels when only the second fires: the first poll must
/// return the published message (the first channel has nothing, the second
/// has exactly it), and after that poll nothing is pending on either — the
/// message arrives exactly once.
pub proof fn lemma_race_single_publish(
    r: RegV,
    a: Seq<char>,
    b: Seq<char>,
    ia: nat,
    ib: nat,
    m: Seq<char>,
)
    requires
        handle_valid(r, a, ia),
        handle_valid(r, b, ib),
        pending(r, a, ia).len() == 0,
        pending(r, b, ib).len() == 0,
        a != b,
    ensures
        ({
            let r2 = publish_spec(r, b, m);
            &&& !ready(r2, a, ia)
            &&& ready(r2, b, ib)
            &&& pending(r2, b, ib) == seq![m]
            &&& !ready(pop_spec(r2, b, ib), b, ib)
            &&& !ready(pop_spec(r2, b, ib), a, ia)
        }),
{
    let r2 = publish_spec(r, b, m);
    lemma_publish_fanout(r, b, m, ib);
    assert(r2[a] == r[a]);
    let r3 = pop_spec(r2, b, ib);
    assert(pending(r3, b, ib) =~= Seq::<Seq<char>>::empty());
    assert(r3[a] == r2[a]);
}

/// A filter built on the reject-ping rule answers every ping with the
/// rejection error and leaves the inner handler's state untouched: the
/// inner ping handler is never invoked.
pub proof fn lemma_filter_rejects_ping<H: Handler>(
    f: FilterService<H, RejectPing>,
    p: Option<String>,
)
    ensures
        f.out(Request::Ping(p)) == Err::<RespV, ErrV>(ErrV::Filtered(rejected_msg())),
        f.next_st(Request::Ping(p)) == f.st(),
{
}

/// The same filter forwards everything that is not a ping: the state moves
/// exactly as the inner handler moves it, and an inner success passes
/// through unchanged.
pub proof fn lemma_filter_forwards<H: Handler>(f: FilterService<H, RejectPing>, req: Request)
    requires
        !(req is Ping),
    ensures
        f.next_st(req) == f.inner.next_st(req),
        f.inner.out(req) is Ok ==> f.out(req) == f.inner.out(req),
{
}

/// Writes to distinct keys commute: any serialization order of concurrent
/// setters of different keys leaves the same map.
pub proof fn lemma_distinct_writes_commute(
    m: Map<Seq<char>, Seq<char>>,
    k1: Seq<char>,
    v1: Seq<char>,
    k2: Seq<char>,
    v2: Seq<char>,
)
    requires
        k1 != k2,
    ensures
        m.insert(k1, v1).insert(k2, v2) == m.insert(k2, v2).insert(k1, v1),
{
    assert(m.insert(k1, v1).insert(k2, v2) =~= m.insert(k2, v2).insert(k1, v1));
}

} // verus!
