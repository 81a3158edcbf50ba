use droplet_core::error::DropletError;
use droplet_core::registry::Registry;

#[test]
fn insert_then_get_roundtrips() {
    let mut reg: Registry<String> = Registry::new();
    let h = reg.insert("hello".to_string());
    assert_eq!(reg.get(h), Some(&"hello".to_string()));
}

#[test]
fn handles_are_unique_and_missing_is_none() {
    let mut reg: Registry<u32> = Registry::new();
    let a = reg.insert(1);
    let b = reg.insert(2);
    assert_ne!(a, b);
    assert_eq!(reg.get(999), None);
}

#[test]
fn remove_then_get_is_none() {
    let mut reg: Registry<u32> = Registry::new();
    let h = reg.insert(42);
    assert_eq!(reg.remove(h), Some(42));
    assert_eq!(reg.get(h), None);
}

#[test]
fn require_missing_is_bad_handle() {
    let reg: Registry<u32> = Registry::new();
    assert!(matches!(reg.require(999), Err(DropletError::BadHandle(999))));
}

#[test]
fn default_registry_is_empty_and_starts_at_zero() {
    let mut reg: Registry<u32> = Registry::default();
    assert_eq!(reg.get(0), None);
    assert_eq!(reg.next_handle_id(), 0);
    assert_eq!(reg.insert(5), 0);
}

#[test]
fn removed_handle_is_not_reissued() {
    let mut reg: Registry<u32> = Registry::new();
    let a = reg.insert(1);
    assert_eq!(reg.remove(a), Some(1));
    let b = reg.insert(2);
    assert_ne!(a, b);
    assert_eq!(reg.get(b), Some(&2));
    assert_eq!(reg.remove(a), None);
}

#[test]
fn require_present_returns_the_value() {
    let mut reg: Registry<u32> = Registry::new();
    let h = reg.insert(9);
    assert_eq!(*reg.require(h).ok().unwrap(), 9);
}

#[test]
fn removed_handle_is_never_reissued() {
    let mut reg: Registry<u32> = Registry::new();
    let a = reg.insert(1);
    assert_eq!(reg.remove(a), Some(1));
    assert_eq!(reg.next_handle_id(), 1);
    let b = reg.insert(2);
    assert_ne!(a, b);
    assert_eq!(reg.get(a), None);
    assert_eq!(reg.get(b), Some(&2));
}
