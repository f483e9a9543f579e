use mamalluca::correlator::Correlator;

#[test]
fn ids_are_fresh_and_increasing() {
    let mut c: Correlator<&'static str> = Correlator::new();
    let a = c.next_id();
    let b = c.next_id();
    let d = c.next_id();
    assert_eq!(a, 0);
    assert_eq!(b, 1);
    assert_eq!(d, 2);
}

#[test]
fn resolve_hands_back_the_slot_once() {
    let mut c: Correlator<&'static str> = Correlator::new();
    let id = c.next_id();
    c.register(id, "slot-a");
    assert_eq!(c.resolve(id), Some("slot-a"));
    // The entry is gone: a late duplicate response finds nothing.
    assert_eq!(c.resolve(id), None);
}

#[test]
fn resolve_unknown_id_is_a_no_op() {
    let mut c: Correlator<&'static str> = Correlator::new();
    let id = c.next_id();
    c.register(id, "slot-a");
    assert_eq!(c.resolve(99), None);
    // The registered call is still there.
    assert_eq!(c.resolve(id), Some("slot-a"));
}

#[test]
fn fail_all_drains_every_outstanding_call() {
    let mut c: Correlator<&'static str> = Correlator::new();
    let a = c.next_id();
    c.register(a, "first");
    let b = c.next_id();
    c.register(b, "second");
    let mut drained = c.fail_all();
    drained.sort_by_key(|p| p.0);
    assert_eq!(drained, vec![(a, "first"), (b, "second")]);
    // Table is empty afterwards, and the counter keeps going.
    assert_eq!(c.resolve(a), None);
    assert_eq!(c.resolve(b), None);
    assert_eq!(c.next_id(), 2);
}
