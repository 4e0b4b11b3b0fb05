use local_rcu::epoch::Epoch;
use local_rcu::retire::Retirement;
use std::sync::Arc;

#[test]
fn empty_list_has_no_old_values() {
    let mut r: Retirement<u32> = Retirement::new();
    assert!(!r.has_old_values());
    assert_eq!(r.len(), 0);
    assert!(r.try_sync().is_empty());
}

#[test]
fn only_inside_readers_become_witnesses() {
    let a = Epoch::new();
    let b = Epoch::new();
    let mut r = Retirement::new();
    r.retire_sampled(10u32, vec![a.share(), b.share()], &vec![2, 5]);
    assert_eq!(r.len(), 1);
    // only the second witness counts; it is unchanged
    assert!(r.reclaim_observed(&vec![vec![5]]).is_empty());
    assert!(r.has_old_values());
    // its counter moved on
    assert_eq!(r.reclaim_observed(&vec![vec![6]]), vec![10]);
    assert!(!r.has_old_values());
}

#[test]
fn unwitnessed_value_is_released_at_once() {
    let a = Epoch::new();
    let mut r = Retirement::new();
    r.retire_sampled(7u32, vec![a.share()], &vec![4]);
    assert_eq!(r.reclaim_observed(&vec![vec![]]), vec![7]);
}

#[test]
fn older_value_released_while_younger_pinned() {
    let a = Epoch::new();
    let b = Epoch::new();
    let mut r = Retirement::new();
    r.retire_sampled(1u32, vec![a.share(), b.share()], &vec![1, 0]);
    r.retire_sampled(2u32, vec![a.share(), b.share()], &vec![2, 3]);
    let out = r.reclaim_observed(&vec![vec![2], vec![3]]);
    assert_eq!(out, vec![1]);
    assert_eq!(r.len(), 1);
    assert_eq!(r.reclaim_observed(&vec![vec![4]]), vec![2]);
}

#[test]
fn values_come_back_in_retirement_order() {
    let a = Epoch::new();
    let mut r = Retirement::new();
    r.retire_sampled(1u32, vec![a.share()], &vec![1]);
    r.retire_sampled(2u32, vec![a.share()], &vec![1]);
    r.retire_sampled(3u32, vec![a.share()], &vec![3]);
    let out = r.reclaim_observed(&vec![vec![3], vec![3], vec![3]]);
    assert_eq!(out, vec![1, 2]);
    assert_eq!(r.len(), 1);
}

#[test]
fn a_reader_starting_a_new_section_stops_witnessing() {
    let a = Epoch::new();
    let mut r = Retirement::new();
    a.enter();
    r.retire(5u32, vec![a.share()]);
    assert!(r.try_sync().is_empty());
    a.exit();
    a.enter();
    assert_eq!(r.try_sync(), vec![5]);
}

#[test]
fn read_then_release_before_second_write() {
    // write 1 retires 0; the reader reads once and leaves; write 2 retires 1
    let reader = Epoch::new();
    let mut r = Retirement::new();
    r.retire(0u32, vec![reader.share()]);
    assert_eq!(r.try_sync(), vec![0]);
    reader.enter();
    reader.exit();
    r.retire(1u32, vec![reader.share()]);
    assert_eq!(r.try_sync(), vec![1]);
    assert!(!r.has_old_values());
}

#[test]
fn leaked_section_stalls_reclamation() {
    let reader = Epoch::new();
    let mut r = Retirement::new();
    r.retire(0u32, vec![reader.share()]);
    reader.enter();
    r.retire(1u32, vec![reader.share()]);
    assert_eq!(r.try_sync(), vec![0]);
    assert!(r.has_old_values());
    assert!(r.try_sync().is_empty());
    assert!(r.has_old_values());
}

#[test]
fn quiescent_pass_returns_everything() {
    let a = Epoch::new();
    let b = Epoch::new();
    let mut r = Retirement::new();
    a.enter();
    b.enter();
    r.retire(1u32, vec![a.share(), b.share()]);
    r.retire(2u32, vec![a.share(), b.share()]);
    a.exit();
    b.exit();
    assert_eq!(r.try_sync(), vec![1, 2]);
    assert!(!r.has_old_values());
}

#[test]
fn no_leak_through_retirement() {
    let vals = [Arc::new(1), Arc::new(2), Arc::new(3)];
    let counts = |v: &[Arc<i32>; 3]| v.iter().map(Arc::strong_count).collect::<Vec<_>>();
    {
        let r1 = Epoch::new();
        let r2 = Epoch::new();
        let mut r = Retirement::new();
        r1.enter();
        r.retire(vals[0].clone(), vec![r1.share()]);
        let _active = vals[1].clone();
        assert_eq!(counts(&vals), [2, 2, 1]);
        r2.enter();
        r.retire(vals[1].clone(), vec![r1.share(), r2.share()]);
        let _active = vals[2].clone();
        assert_eq!(counts(&vals), [2, 3, 2]);
        assert!(r.try_sync().is_empty());
        r1.exit();
        r2.exit();
        let back = r.try_sync();
        assert_eq!(back.len(), 2);
        assert_eq!(*back[0], 1);
        assert_eq!(*back[1], 2);
    }
    assert_eq!(counts(&vals), [1, 1, 1]);
}
