use relay::registry::Registry;

#[test]
fn new_registry_is_empty() {
    let r = Registry::new(8192);
    assert!(r.is_empty());
    assert_eq!(r.len(), 0);
    assert!(r.ids_vec().is_empty());
}

#[test]
fn insert_registers_and_contains_finds() {
    let mut r = Registry::new(8192);
    r.insert(5001);
    r.insert(5002);
    assert!(!r.is_empty());
    assert_eq!(r.len(), 2);
    assert!(r.contains(5001));
    assert!(r.contains(5002));
    assert!(!r.contains(5003));
    assert_eq!(r.ids_vec(), vec![5001, 5002]);
}

#[test]
fn insert_overwrites_a_stale_entry() {
    let mut r = Registry::new(8192);
    r.insert(7);
    // Leave a partial line in 7's framer, then re-register the identifier.
    assert!(r.feed_bytes(7, b"stale").lines.is_empty());
    r.insert(7);
    assert_eq!(r.len(), 1);
    // The fresh entry starts with an empty buffer: no stale bytes survive.
    let out = r.feed_bytes(7, b"new\n");
    assert_eq!(out.lines, vec![b"new".to_vec()]);
}

#[test]
fn remove_of_an_absent_id_is_a_no_op() {
    let mut r = Registry::new(8192);
    r.insert(1);
    r.insert(2);
    r.remove(3);
    assert_eq!(r.ids_vec(), vec![1, 2]);
    // Removing from an empty registry is also a no-op.
    let mut e = Registry::new(8192);
    e.remove(9);
    assert!(e.is_empty());
}

#[test]
fn remove_drops_only_the_named_entry() {
    let mut r = Registry::new(8192);
    r.insert(1);
    r.insert(2);
    r.insert(3);
    // Buffer a partial line on 3, then remove 2: 3's state must survive.
    assert!(r.feed_bytes(3, b"par").lines.is_empty());
    r.remove(2);
    assert_eq!(r.ids_vec(), vec![1, 3]);
    let out = r.feed_bytes(3, b"tial\n");
    assert_eq!(out.lines, vec![b"partial".to_vec()]);
}

#[test]
fn feed_bytes_frames_lines_for_the_named_connection() {
    let mut r = Registry::new(8192);
    r.insert(7);
    let out = r.feed_bytes(7, b"hi\nthere\n");
    assert_eq!(out.lines, vec![b"hi".to_vec(), b"there".to_vec()]);
    assert!(!out.overflow);
}

#[test]
fn feed_bytes_for_an_unknown_id_is_dropped() {
    let mut r = Registry::new(8192);
    r.insert(7);
    let out = r.feed_bytes(8, b"hi\n");
    assert!(out.lines.is_empty());
    assert!(!out.overflow);
    assert_eq!(r.ids_vec(), vec![7]);
}

#[test]
fn overflow_is_confined_to_the_offending_connection() {
    let mut r = Registry::new(3);
    r.insert(1);
    r.insert(2);
    let out = r.feed_bytes(1, b"toolong");
    assert!(out.overflow);
    assert!(out.lines.is_empty());
    // The other connection still frames normally.
    let ok = r.feed_bytes(2, b"ok\n");
    assert!(!ok.overflow);
    assert_eq!(ok.lines, vec![b"ok".to_vec()]);
    // Removing the offender leaves the other untouched.
    r.remove(1);
    assert_eq!(r.ids_vec(), vec![2]);
    let again = r.feed_bytes(2, b"yes\n");
    assert_eq!(again.lines, vec![b"yes".to_vec()]);
}
