use tracelogs::multiline::{MultiLineTokenizer, WATCHDOG_TIMEOUT_MICROS};

#[test]
fn marker_line_hands_out_the_previous_record() {
    let mut m = MultiLineTokenizer::new("[");
    assert!(m.append("loose", 10).is_none());
    let e = m.append("[start", 20).unwrap();
    assert_eq!(e.data, "\nloose");
    assert_eq!(e.created, 20);
    assert_eq!(e.entity, "");
    assert!(m.append("more", 30).is_none());
    let e2 = m.append("[next", 40).unwrap();
    assert_eq!(e2.data, "[start\n[start\nmore");
    assert_eq!(e2.created, 20);
}

#[test]
fn dump_data_resets_the_record() {
    let mut m = MultiLineTokenizer::new("#");
    m.append("#a", 5);
    let e = m.dump_data(9);
    assert_eq!(e.data, "#a\n#a");
    assert_eq!(e.created, 5);
    let empty = m.dump_data(11);
    assert_eq!(empty.data, "");
    assert_eq!(empty.created, 11);
}

#[test]
fn watchdog_hands_out_stale_records_once() {
    let mut m = MultiLineTokenizer::new("[");
    m.append("[x", 100);
    assert!(m.watchdog_tick(100 + WATCHDOG_TIMEOUT_MICROS).is_none());
    let e = m.watchdog_tick(101 + WATCHDOG_TIMEOUT_MICROS).unwrap();
    assert_eq!(e.data, "[x\n[x");
    assert_eq!(e.created, 100);
    assert!(m.watchdog_tick(10 * WATCHDOG_TIMEOUT_MICROS).is_none());
}

#[test]
fn watchdog_ignores_records_without_marker() {
    let mut m = MultiLineTokenizer::new("[");
    m.append("plain", 0);
    assert!(m.watchdog_tick(u64::MAX).is_none());
}
