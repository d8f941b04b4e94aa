use mini_redis::api::{Request, Response, ServiceError};
use mini_redis::filter::{AllowAll, FilterLayer, FilterService, Handler, RejectPing};
use mini_redis::service::S;

#[test]
fn reject_ping_filter_rejects_every_ping() {
    let mut f = FilterService::new(S::new(), RejectPing);
    let r = f.call(&Request::Ping(None));
    match r {
        Err(e) => {
            assert!(e.is_filtered());
            assert_eq!(e.message(), "request filtered");
        },
        Ok(_) => panic!("a ping passed the reject-ping filter"),
    }
    let r2 = f.call(&Request::Ping(Some("x".to_string())));
    assert!(matches!(r2, Err(ServiceError::Filtered(_))));
}

#[test]
fn reject_ping_filter_forwards_the_other_operations() {
    let mut f = FilterService::new(S::new(), RejectPing);
    let set = f.call(&Request::Put("k".to_string(), "v".to_string()));
    match set {
        Ok(Response::SetOk(a)) => assert_eq!(a, "OK"),
        _ => panic!("set did not pass the filter unchanged"),
    }
    let got = f.call(&Request::Get("k".to_string()));
    match got {
        Ok(Response::Value(v)) => assert_eq!(v, Some("v".to_string())),
        _ => panic!("get did not pass the filter unchanged"),
    }
    let deleted = f.call(&Request::Del(vec!["k".to_string(), "z".to_string()]));
    match deleted {
        Ok(Response::Deleted(n)) => assert_eq!(n, 1),
        _ => panic!("del did not pass the filter unchanged"),
    }
}

#[test]
fn allow_all_filter_lets_ping_through() {
    let mut f = FilterService::new(S::new(), AllowAll);
    let r = f.call(&Request::Ping(None));
    match r {
        Ok(Response::Pong(p)) => assert_eq!(p, "PONG"),
        _ => panic!("a ping did not pass the allow-all filter"),
    }
}

#[test]
fn filters_stack() {
    // An allow-all layer over a reject-ping layer: the inner rule decides.
    let inner = FilterLayer::new(RejectPing).layer(S::new());
    let mut f = FilterLayer::new(AllowAll).layer(inner);
    assert!(matches!(f.call(&Request::Ping(None)), Err(ServiceError::Filtered(_))));
    assert!(matches!(
        f.call(&Request::Put("k".to_string(), "v".to_string())),
        Ok(Response::SetOk(_))
    ));
}

#[test]
fn dispatch_covers_publish_and_subscribe() {
    let mut f = FilterService::new(S::new(), RejectPing);
    let sub = f.call(&Request::Subscribe(vec!["c".to_string()]));
    let handles = match sub {
        Ok(Response::Subscribed(hs)) => hs,
        _ => panic!("subscribe did not pass the filter"),
    };
    let published = f.call(&Request::Publish("c".to_string(), "m".to_string()));
    match published {
        Ok(Response::Published(n)) => assert_eq!(n, 1),
        _ => panic!("publish did not pass the filter"),
    }
    assert_eq!(f.inner.try_next(&handles), Some("m".to_string()));
}

#[test]
fn handler_fault_is_distinguishable_from_rejection() {
    let e = ServiceError::HandlerFault("boom".to_string());
    assert!(!e.is_filtered());
    assert_eq!(e.message(), "boom");
}
