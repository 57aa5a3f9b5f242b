use ip_blocker::blocklist::{block_ip, blockip, Blocklist, MapError, BLOCKLIST_MAX_ENTRIES};

#[test]
fn new_table_is_empty() {
    let list = Blocklist::new();
    assert_eq!(list.len(), 0);
    assert!(!block_ip(&list, 0));
    assert_eq!(list.get(7), None);
}

#[test]
fn blockip_then_block_ip() {
    let mut list = Blocklist::new();
    assert!(blockip(&mut list, 3232235521).is_ok());
    assert!(block_ip(&list, 3232235521));
    assert!(!block_ip(&list, 3232235522));
    assert_eq!(list.get(3232235521), Some(0));
    assert_eq!(list.len(), 1);
    // blocking again changes nothing
    assert!(blockip(&mut list, 3232235521).is_ok());
    assert_eq!(list.len(), 1);
}

#[test]
fn insert_sets_value() {
    let mut list = Blocklist::new();
    assert_eq!(list.insert(5, 9), Ok(()));
    assert_eq!(list.get(5), Some(9));
    assert_eq!(list.insert(5, 0), Ok(()));
    assert_eq!(list.get(5), Some(0));
}

#[test]
fn full_table_refuses_new_keys_only() {
    let mut list = Blocklist::new();
    for k in 0..BLOCKLIST_MAX_ENTRIES as u32 {
        assert_eq!(list.insert(k, 0), Ok(()));
    }
    assert_eq!(list.len(), BLOCKLIST_MAX_ENTRIES);
    assert_eq!(list.insert(100_000, 0), Err(MapError::Full));
    assert!(!block_ip(&list, 100_000));
    assert_eq!(list.insert(3, 1), Ok(()));
    assert_eq!(list.get(3), Some(1));
    // blockip reports success even when the table refuses the address
    assert!(blockip(&mut list, 200_000).is_ok());
    assert!(!block_ip(&list, 200_000));
    assert_eq!(list.len(), BLOCKLIST_MAX_ENTRIES);
}
