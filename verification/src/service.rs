//! The service: one value owning the key-value store and the channel
//! registry, explicitly constructed and handed by shared reference into
//! every caller's task by the runtime (no hidden global state). Its methods
//! are the short critical sections of the six operations; the runtime holds
//! one lock around each call and never across a wait.

use vstd::prelude::*;

use crate::api::{ErrV, Request, RespV, Response, ServiceError, SvcView};
use crate::filter::Handler;
use crate::registry::{detach_seq, hviews, pending, pop_spec, publish_count, publish_spec, ready,
    subscribe_handles, subscribe_spec, Registry, SubHandle};
use crate::store::{del_count, del_map, views_of, KvStore};

verus! {

/// What a ping answers: its payload, or the fixed reply when there is none.
pub open spec fn ping_reply(p: Option<Seq<char>>) -> Seq<char> {
    match p {
        Some(s) => s,
        None => "PONG"@,
    }
}

/// The view of an optional string.
pub open spec fn opt_view(p: Option<String>) -> Option<Seq<char>> {
    match p {
        Some(s) => Some(s@),
        None => None,
    }
}

/// The service state after one request.
pub open spec fn s_next(st: SvcView, req: Request) -> SvcView {
    match req {
        Request::Ping(_) => st,
        Request::Put(k, v) => SvcView { kv: st.kv.insert(k@, v@), ..st },
        Request::Get(_) => st,
        Request::Del(ks) => SvcView { kv: del_map(st.kv, views_of(ks@)), ..st },
        Request::Publish(c, m) => SvcView { channels: publish_spec(st.channels, c@, m@), ..st },
        Request::Subscribe(cs) => SvcView {
            channels: subscribe_spec(st.channels, views_of(cs@)),
            ..st
        },
    }
}

/// The outcome of one request; none of the six operations fails.
pub open spec fn s_out(st: SvcView, req: Request) -> Result<RespV, ErrV> {
    match req {
        Request::Ping(p) => Ok(RespV::Pong(ping_reply(opt_view(p)))),
        Request::Put(_, _) => Ok(RespV::SetOk("OK"@)),
        Request::Get(k) => Ok(
            RespV::Value(
                if st.kv.contains_key(k@) {
                    Some(st.kv[k@])
                } else {
                    None
                },
            ),
        ),
        Request::Del(ks) => Ok(RespV::Deleted(del_count(st.kv, views_of(ks@)))),
        Request::Publish(c, _) => Ok(RespV::Published(publish_count(st.channels, c@))),
        Request::Subscribe(cs) => Ok(
            RespV::Subscribed(subscribe_handles(st.channels, views_of(cs@))),
        ),
    }
}

/// The service: the store and the registry, as one owned value.
pub struct S {
    db: KvStore,
    channels: Registry,
}

impl S {
    /// A fresh service: both maps start empty, reconstructed at process
    /// start (nothing persists).
    pub fn new() -> (s: S)
        ensures
            s.wf(),
            s.st() == (SvcView {
                kv: Map::<Seq<char>, Seq<char>>::empty(),
                channels: Map::empty(),
            }),
    {
        S { db: KvStore::new(), channels: Registry::new() }
    }

    /// Echo the payload, or answer the fixed reply if there is none.
    pub fn ping(&self, payload: Option<String>) -> (r: String)
        ensures
            r@ == ping_reply(opt_view(payload)),
    {
        match payload {
            Some(p) => p,
            None => "PONG".to_owned(),
        }
    }

    /// Insert or overwrite; always succeeds and acknowledges.
    pub fn set(&mut self, key: String, value: String) -> (r: String)
        requires
            old(self).wf(),
        ensures
            final(self).wf(),
            final(self).st() == (SvcView {
                kv: old(self).st().kv.insert(key@, value@),
                ..old(self).st()
            }),
            r@ == "OK"@,
    {
        self.db.set(key, value);
        "OK".to_owned()
    }

    /// The current value, or an explicit absence; never an error.
    pub fn get(&self, key: &String) -> (r: Option<String>)
        requires
            self.wf(),
        ensures
            match r {
                Some(v) => self.st().kv.contains_key(key@) && v@ == self.st().kv[key@],
                None => !self.st().kv.contains_key(key@),
            },
    {
        self.db.get(key)
    }

    /// Remove each listed key if present; the number actually removed comes
    /// back, 0 for an empty list.
    pub fn del(&mut self, keys: &Vec<String>) -> (n: usize)
        requires
            old(self).wf(),
        ensures
            final(self).wf(),
            final(self).st() == (SvcView {
                kv: del_map(old(self).st().kv, views_of(keys@)),
                ..old(self).st()
            }),
            n as nat == del_count(old(self).st().kv, views_of(keys@)),
    {
        self.db.del(keys)
    }

    /// Deliver a message to the named channel's current subscribers; an
    /// unseen channel means nobody hears it and no topic appears.
    pub fn publish(&mut self, channel: &String, msg: &String) -> (n: usize)
        requires
            old(self).wf(),
        ensures
            final(self).wf(),
            final(self).st() == (SvcView {
                channels: publish_spec(old(self).st().channels, channel@, msg@),
                ..old(self).st()
            }),
            n as nat == publish_count(old(self).st().channels, channel@),
    {
        self.channels.publish(channel, msg)
    }

    /// Phase one of a subscribe call: atomically get or create each listed
    /// channel's topic and attach a fresh subscriber. The caller then waits
    /// outside any lock, polling `try_next` until a message arrives; a call
    /// with no channels has no source of messages and waits forever.
    pub fn subscribe(&mut self, channels: &Vec<String>) -> (hs: Vec<SubHandle>)
        requires
            old(self).wf(),
        ensures
            final(self).wf(),
            final(self).st() == (SvcView {
                channels: subscribe_spec(old(self).st().channels, views_of(channels@)),
                ..old(self).st()
            }),
            hviews(hs@) == subscribe_handles(old(self).st().channels, views_of(channels@)),
    {
        self.channels.subscribe(channels)
    }

    /// Phase two, one poll: the first of the attachments with a pending
    /// message gives up its oldest one; nothing pending means wait and poll
    /// again.
    pub fn try_next(&mut self, handles: &Vec<SubHandle>) -> (r: Option<String>)
        requires
            old(self).wf(),
        ensures
            final(self).wf(),
            final(self).st().kv == old(self).st().kv,
            match r {
                None => final(self).st() == old(self).st() && forall|j: int|
                    0 <= j < handles@.len() ==> !ready(
                        old(self).st().channels,
                        (#[trigger] handles@[j]).channel@,
                        handles@[j].id as nat,
                    ),
                Some(m) => exists|j: int|
                    0 <= j < handles@.len() && (forall|x: int|
                        0 <= x < j ==> !ready(
                            old(self).st().channels,
                            (#[trigger] handles@[x]).channel@,
                            handles@[x].id as nat,
                        )) && ready(
                        old(self).st().channels,
                        (#[trigger] handles@[j]).channel@,
                        handles@[j].id as nat,
                    ) && m@ == pending(
                        old(self).st().channels,
                        handles@[j].channel@,
                        handles@[j].id as nat,
                    )[0] && final(self).st().channels == pop_spec(
                        old(self).st().channels,
                        handles@[j].channel@,
                        handles@[j].id as nat,
                    ),
            },
    {
        self.channels.try_next(handles)
    }

    /// Tear a subscribe call's attachments down once its race is decided;
    /// the topics themselves are never torn down.
    pub fn unsubscribe(&mut self, handles: &Vec<SubHandle>)
        requires
            old(self).wf(),
        ensures
            final(self).wf(),
            final(self).st() == (SvcView {
                channels: detach_seq(old(self).st().channels, hviews(handles@)),
                ..old(self).st()
            }),
    {
        self.channels.unsubscribe(handles)
    }
}

impl Handler for S {
    closed spec fn wf(&self) -> bool {
        self.db.inv() && self.channels.inv()
    }

    closed spec fn st(&self) -> SvcView {
        SvcView { kv: self.db@, channels: self.channels@ }
    }

    open spec fn next_st(&self, req: Request) -> SvcView {
        s_next(self.st(), req)
    }

    open spec fn out(&self, req: Request) -> Result<RespV, ErrV> {
        s_out(self.st(), req)
    }

    fn call(&mut self, req: &Request) -> (r: Result<Response, ServiceError>) {
        match req {
            Request::Ping(p) => {
                let payload = match p {
                    Some(s) => Some(s.clone()),
                    None => None,
                };
                Ok(Response::Pong(self.ping(payload)))
            },
            Request::Put(k, v) => Ok(Response::SetOk(self.set(k.clone(), v.clone()))),
            Request::Get(k) => Ok(Response::Value(self.get(k))),
            Request::Del(ks) => Ok(Response::Deleted(self.del(ks))),
            Request::Publish(c, m) => Ok(Response::Published(self.publish(c, m))),
            Request::Subscribe(cs) => Ok(Response::Subscribed(self.subscribe(cs))),
        }
    }
}

} // verus!
