use ip_blocker::blocklist::{block_ip, Blocklist};
use ip_blocker::firewall::{xdp_firewall, XDP_DROP, XDP_PASS};
use ip_blocker::policy::{apply_policy, first_missing_ip, load_policy, EntryOutcome, PolicyDocument, PolicyError};

fn entries(text: &str) -> Vec<Option<String>> {
    match load_policy(text) {
        Ok(PolicyDocument::Entries(e)) => e,
        other => panic!("unexpected {:?}", other),
    }
}

#[test]
fn reads_ip_members() {
    let e = entries(r#"[{"ip": "10.0.0.1"}, {"ip": "bad"}, {"ip": 7}, {"other": "1.2.3.4"}, "1.2.3.4", {"ip": "1.2.3.4", "ip2": "x"}]"#);
    assert_eq!(
        e,
        vec![
            Some("10.0.0.1".to_string()),
            Some("bad".to_string()),
            None,
            None,
            None,
            Some("1.2.3.4".to_string()),
        ]
    );
    assert_eq!(entries("[]"), Vec::<Option<String>>::new());
}

#[test]
fn not_an_array() {
    assert!(matches!(load_policy(r#"{"ip": "1.2.3.4"}"#), Ok(PolicyDocument::NotArray)));
    assert!(matches!(load_policy("42"), Ok(PolicyDocument::NotArray)));
}

#[test]
fn malformed_json() {
    assert!(matches!(load_policy("[{\"ip\": "), Err(PolicyError::MalformedJson)));
    assert!(matches!(load_policy(""), Err(PolicyError::MalformedJson)));
}

#[test]
fn first_missing() {
    assert_eq!(first_missing_ip(&vec![Some("a".to_string()), None, None]), Some(1));
    assert_eq!(first_missing_ip(&vec![Some("a".to_string())]), None);
    assert_eq!(first_missing_ip(&vec![]), None);
}

#[test]
fn apply_blocks_valid_addresses_in_order() {
    let mut list = Blocklist::new();
    let e = entries(r#"[{"ip": "192.168.0.1"}, {"ip": "300.1.1.1"}, {"ip": "10.0.0.1"}]"#);
    assert_eq!(first_missing_ip(&e), None);
    let outcomes = apply_policy(&mut list, &e);
    assert_eq!(
        outcomes,
        vec![EntryOutcome::Blocked(3232235521), EntryOutcome::InvalidAddress, EntryOutcome::Blocked(167772161)]
    );
    assert!(block_ip(&list, 3232235521));
    assert!(block_ip(&list, 167772161));
    assert_eq!(list.len(), 2);
}

#[test]
fn apply_prefix_before_missing_ip() {
    let mut list = Blocklist::new();
    let e = entries(r#"[{"ip": "1.1.1.1"}, {"noip": 1}, {"ip": "2.2.2.2"}]"#);
    let k = first_missing_ip(&e).unwrap();
    assert_eq!(k, 1);
    let outcomes = apply_policy(&mut list, &e[..k]);
    assert_eq!(outcomes, vec![EntryOutcome::Blocked(0x01010101)]);
    assert!(!block_ip(&list, 0x02020202));
}

#[test]
fn applied_policy_drops_named_sources() {
    let mut list = Blocklist::new();
    let e = entries(r#"[{"ip": "162.159.136.234"}, {"ip": "not-an-ip"}]"#);
    let _ = apply_policy(&mut list, &e);
    let mut frame = vec![0u8; 34];
    frame[12] = 0x08;
    frame[26..30].copy_from_slice(&[162, 159, 136, 234]);
    assert_eq!(xdp_firewall(&frame, &list), XDP_DROP);
    frame[29] = 235;
    assert_eq!(xdp_firewall(&frame, &list), XDP_PASS);
}
