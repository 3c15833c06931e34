use lwm2m_server::{Device, RegistrationTimer, TrackerState};

#[test]
fn get_endpoint() {
    println!("New device endpoint: {}", Device::new_endpoint());
}

#[test]
fn new_endpoints_are_alphanumeric_and_differ() {
    let a = Device::new_endpoint();
    let b = Device::new_endpoint();
    assert_eq!(a.len(), 32);
    assert!(a.chars().all(|c| c.is_ascii_alphanumeric()));
    assert_ne!(a, b);
}

#[test]
fn reinserted_key_first_timer_is_silent() {
    let mut t = TrackerState::new();
    let first = t.insert("k".to_string());
    assert_eq!(first.cancel, None);
    let second = t.insert("k".to_string());
    assert_eq!(second.cancel, Some(first.timer));
    assert_ne!(first.timer, second.timer);
    assert!(!t.expire("k", first.timer));
    assert!(t.expire("k", second.timer));
}

#[test]
fn refresh_at_expiry_gives_one_expiry() {
    let mut t = TrackerState::new();
    let foo = t.insert("Foo".to_string());
    let bar = t.insert("Bar".to_string());
    let bar_again = t.insert("Bar".to_string());
    assert_eq!(bar_again.cancel, Some(bar.timer));
    assert!(t.expire("Foo", foo.timer));
    assert!(!t.expire("Bar", bar.timer));
    assert!(t.expire("Bar", bar_again.timer));
    assert!(!t.expire("Bar", bar_again.timer));
}

#[test]
fn one_expiry_per_insert() {
    let mut t = TrackerState::new();
    let a = t.insert("a".to_string());
    assert!(t.expire("a", a.timer));
    assert!(!t.expire("a", a.timer));
    let b = t.insert("a".to_string());
    assert_eq!(b.cancel, None);
    assert!(t.expire("a", b.timer));
}

#[test]
fn many_keys_each_expire_once() {
    let mut t = TrackerState::new();
    let n = 1_000_000u32;
    let mut timers = Vec::with_capacity(n as usize);
    for i in 0..n {
        timers.push(t.insert(format!("key{}", i)).timer);
    }
    let mut announced = 0u32;
    for i in 0..n {
        if t.expire(&format!("key{}", i), timers[i as usize]) {
            announced += 1;
        }
    }
    assert_eq!(announced, n);
    assert!(!t.expire("key0", timers[0]));
}

#[test]
fn registration_timer_names_endpoint() {
    let t = RegistrationTimer::new("abc".to_string());
    assert_eq!(t.server_endpoint, "abc");
}
