use local_rcu::epoch::Epoch;
use local_rcu::registry::EpochRegistry;

#[test]
fn keys_are_distinct_while_in_use() {
    let mut reg = EpochRegistry::new();
    let a = Epoch::new();
    let b = Epoch::new();
    let ka = reg.insert(&a);
    let kb = reg.insert(&b);
    assert_ne!(ka, kb);
    assert!(reg.contains(ka));
    assert!(reg.contains(kb));
    assert_eq!(reg.snapshot().len(), 2);
}

#[test]
fn removal_frees_the_key() {
    let mut reg = EpochRegistry::new();
    let a = Epoch::new();
    let ka = reg.insert(&a);
    assert!(reg.remove(ka));
    assert!(!reg.contains(ka));
    assert!(!reg.remove(ka));
    assert_eq!(reg.snapshot().len(), 0);
    let kb = reg.insert(&Epoch::new());
    assert_eq!(kb, ka);
}

#[test]
fn snapshot_sees_current_counters() {
    let mut reg = EpochRegistry::new();
    let a = Epoch::new();
    let b = Epoch::new();
    reg.insert(&a);
    reg.insert(&b);
    b.enter();
    let mut seen: Vec<usize> = reg.snapshot().iter().map(|e| e.load()).collect();
    seen.sort();
    assert_eq!(seen, vec![0, 1]);
}
