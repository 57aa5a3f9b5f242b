use ip_blocker::blocklist::{blockip, Blocklist};
use ip_blocker::firewall::{
    ptr_at, try_xdp_firewall, xdp_firewall, ETH_HDR_LEN, IPV4_HDR_LEN, XDP_ABORTED, XDP_DROP, XDP_PASS,
};
use ip_blocker::ipv4::{create_ipv4_addr, Ipv4Address};
use network_types::eth::{EthHdr, EtherType};
use network_types::ip::Ipv4Hdr;

fn ipv4_frame(src: [u8; 4], dst: [u8; 4]) -> Vec<u8> {
    let mut f = vec![0u8; 34];
    f[12] = 0x08;
    f[13] = 0x00;
    f[14] = 0x45;
    f[26..30].copy_from_slice(&src);
    f[30..34].copy_from_slice(&dst);
    f
}

#[test]
fn header_layout_matches_network_types() {
    assert_eq!(ETH_HDR_LEN, EthHdr::LEN);
    assert_eq!(IPV4_HDR_LEN, Ipv4Hdr::LEN);
    assert_eq!((EtherType::Ipv4 as u16).to_ne_bytes(), [0x08, 0x00]);
}

#[test]
fn action_codes() {
    assert_eq!(XDP_ABORTED, 0);
    assert_eq!(XDP_DROP, 1);
    assert_eq!(XDP_PASS, 2);
}

#[test]
fn ptr_at_bounds() {
    assert_eq!(ptr_at(14, 0, 14), Ok(0));
    assert_eq!(ptr_at(13, 0, 14), Err(()));
    assert_eq!(ptr_at(34, 14, 20), Ok(14));
    assert_eq!(ptr_at(33, 14, 20), Err(()));
    assert_eq!(ptr_at(10, 11, 0), Err(()));
    assert_eq!(ptr_at(usize::MAX, usize::MAX, 1), Err(()));
}

#[test]
fn blocked_source_is_dropped() {
    let mut list = Blocklist::new();
    let addr = create_ipv4_addr(Ipv4Address::new(162, 159, 136, 234)).unwrap();
    assert!(blockip(&mut list, addr).is_ok());
    let frame = ipv4_frame([162, 159, 136, 234], [10, 0, 0, 1]);
    assert_eq!(xdp_firewall(&frame, &list), XDP_DROP);
    assert_eq!(try_xdp_firewall(&frame, &list), Ok(XDP_DROP));
}

#[test]
fn other_sources_pass() {
    let mut list = Blocklist::new();
    assert!(blockip(&mut list, 0xA29F88EA).is_ok());
    let frame = ipv4_frame([162, 159, 136, 235], [162, 159, 136, 234]);
    assert_eq!(xdp_firewall(&frame, &list), XDP_PASS);
}

#[test]
fn non_ipv4_frames_pass() {
    let mut list = Blocklist::new();
    assert!(blockip(&mut list, 0).is_ok());
    let mut frame = vec![0u8; 14];
    frame[12] = 0x86;
    frame[13] = 0xdd;
    assert_eq!(xdp_firewall(&frame, &list), XDP_PASS);
    // byte order matters: 0x0008 is not IPv4
    let mut swapped = ipv4_frame([0, 0, 0, 0], [0, 0, 0, 0]);
    swapped[12] = 0x00;
    swapped[13] = 0x08;
    assert_eq!(xdp_firewall(&swapped, &list), XDP_PASS);
}

#[test]
fn short_frames_abort() {
    let list = Blocklist::new();
    assert_eq!(xdp_firewall(&[], &list), XDP_ABORTED);
    assert_eq!(try_xdp_firewall(&[0u8; 13], &list), Err(()));
    let frame = ipv4_frame([1, 2, 3, 4], [5, 6, 7, 8]);
    assert_eq!(xdp_firewall(&frame[..33], &list), XDP_ABORTED);
    assert_eq!(xdp_firewall(&frame[..34], &list), XDP_PASS);
}

#[test]
fn longer_frames_read_the_same_headers() {
    let mut list = Blocklist::new();
    assert!(blockip(&mut list, 0x01020304).is_ok());
    let mut frame = ipv4_frame([1, 2, 3, 4], [5, 6, 7, 8]);
    frame.extend_from_slice(&[0xff; 60]);
    assert_eq!(xdp_firewall(&frame, &list), XDP_DROP);
}
