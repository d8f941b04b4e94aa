use mini_redis::service::S;

#[test]
fn ping_echoes_payload() {
    let s = S::new();
    assert_eq!(s.ping(Some("hello".to_string())), "hello");
}

#[test]
fn ping_without_payload_answers_pong() {
    let s = S::new();
    assert_eq!(s.ping(None), "PONG");
}

#[test]
fn last_write_wins() {
    let mut s = S::new();
    s.set("k".to_string(), "v1".to_string());
    s.set("k".to_string(), "v2".to_string());
    assert_eq!(s.get(&"k".to_string()), Some("v2".to_string()));
}

#[test]
fn set_acknowledges() {
    let mut s = S::new();
    assert_eq!(s.set("k".to_string(), "v".to_string()), "OK");
}

#[test]
fn get_unset_key_is_absent() {
    let s = S::new();
    assert_eq!(s.get(&"missing".to_string()), None);
}

#[test]
fn delete_unset_key_counts_zero() {
    let mut s = S::new();
    assert_eq!(s.del(&vec!["missing".to_string()]), 0);
}

#[test]
fn delete_empty_list_counts_zero_and_mutates_nothing() {
    let mut s = S::new();
    s.set("a".to_string(), "1".to_string());
    assert_eq!(s.del(&vec![]), 0);
    assert_eq!(s.get(&"a".to_string()), Some("1".to_string()));
}

#[test]
fn delete_counts_present_members_and_clears_them() {
    let mut s = S::new();
    s.set("a".to_string(), "1".to_string());
    s.set("b".to_string(), "2".to_string());
    s.set("c".to_string(), "3".to_string());
    let n = s.del(&vec!["a".to_string(), "b".to_string(), "x".to_string()]);
    assert_eq!(n, 2);
    assert_eq!(s.get(&"a".to_string()), None);
    assert_eq!(s.get(&"b".to_string()), None);
    assert_eq!(s.get(&"c".to_string()), Some("3".to_string()));
}

#[test]
fn delete_same_key_twice_counts_once() {
    let mut s = S::new();
    s.set("a".to_string(), "1".to_string());
    assert_eq!(s.del(&vec!["a".to_string(), "a".to_string()]), 1);
}

#[test]
fn distinct_writes_commute() {
    let mut s1 = S::new();
    s1.set("x".to_string(), "1".to_string());
    s1.set("y".to_string(), "2".to_string());
    let mut s2 = S::new();
    s2.set("y".to_string(), "2".to_string());
    s2.set("x".to_string(), "1".to_string());
    assert_eq!(s1.get(&"x".to_string()), s2.get(&"x".to_string()));
    assert_eq!(s1.get(&"y".to_string()), s2.get(&"y".to_string()));
}
