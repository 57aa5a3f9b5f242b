//! The XDP packet filter: it reads the Ethernet and IPv4 headers of a
//! received frame and drops the frame when its source address is in the
//! blocklist.
use crate::blocklist::{block_ip, map_update, update_succeeds, Blocklist};
use crate::ipv4::{be_u32, Ipv4Address};
use vstd::prelude::*;

verus! {

/// XDP action: the program failed on the frame.
pub const XDP_ABORTED: u32 = 0;

/// XDP action: drop the frame.
pub const XDP_DROP: u32 = 1;

/// XDP action: let the frame through.
pub const XDP_PASS: u32 = 2;

/// Length of an Ethernet header.
pub const ETH_HDR_LEN: usize = 14;

/// Length of an IPv4 header without options.
pub const IPV4_HDR_LEN: usize = 20;

/// Offset of the EtherType field in the Ethernet header.
pub const ETHER_TYPE_OFFSET: usize = 12;

/// Offset of the source address in the IPv4 header.
pub const IPV4_SRC_OFFSET: usize = 12;

/// Offset of the destination address in the IPv4 header.
pub const IPV4_DST_OFFSET: usize = 16;

/// The frame carries IPv4: its EtherType, in network byte order, is 0x0800.
pub open spec fn is_ipv4_frame(p: Seq<u8>) -> bool {
    p[ETHER_TYPE_OFFSET as int] == 0x08u8 && p[ETHER_TYPE_OFFSET + 1] == 0x00u8
}

/// The big-endian 32-bit value of the four bytes at `at`.
pub open spec fn be_u32_at(p: Seq<u8>, at: int) -> int {
    be_u32(p[at], p[at + 1], p[at + 2], p[at + 3])
}

/// The source address of an IPv4 frame, as a `u32` in host order.
pub open spec fn source_of(p: Seq<u8>) -> int {
    be_u32_at(p, ETH_HDR_LEN + IPV4_SRC_OFFSET)
}

/// The destination address of an IPv4 frame, as a `u32` in host order.
pub open spec fn destination_of(p: Seq<u8>) -> int {
    be_u32_at(p, ETH_HDR_LEN + IPV4_DST_OFFSET)
}

/// The decision on frame `p` for the set of blocked addresses `blocked`,
/// or `None` where a header does not fit in the frame.
pub open spec fn firewall_decision(p: Seq<u8>, blocked: Set<u32>) -> Option<u32> {
    if p.len() < ETH_HDR_LEN {
        None
    } else if !is_ipv4_frame(p) {
        Some(XDP_PASS)
    } else if p.len() < ETH_HDR_LEN + IPV4_HDR_LEN {
        None
    } else if blocked.contains(source_of(p) as u32) {
        Some(XDP_DROP)
    } else {
        Some(XDP_PASS)
    }
}

/// The action returned for frame `p`: the decision, or `XDP_ABORTED` where a
/// header does not fit.
pub open spec fn firewall_action(p: Seq<u8>, blocked: Set<u32>) -> u32 {
    match firewall_decision(p, blocked) {
        Some(v) => v,
        None => XDP_ABORTED,
    }
}

/// Checks that `len` bytes at `offset` lie within a frame of `frame_len`
/// bytes, and returns the offset.
pub fn ptr_at(frame_len: usize, offset: usize, len: usize) -> (r: Result<usize, ()>)
    ensures
        r is Ok <==> offset + len <= frame_len,
        r matches Ok(o) ==> o == offset,
{
    if offset > frame_len || len > frame_len - offset {
        Err(())
    } else {
        Ok(offset)
    }
}

/// Reads a big-endian `u32` at `at`.
fn read_be_u32(p: &[u8], at: usize) -> (r: u32)
    requires
        at + 4 <= p@.len(),
    ensures
        r as int == be_u32_at(p@, at as int),
{
    (p[at] as u32) * 16777216 + (p[at + 1] as u32) * 65536 + (p[at + 2] as u32) * 256 + (
    p[at + 3] as u32)
}

/// Decides on one frame: frames that are not IPv4 pass, IPv4 frames whose
/// source address is in the table are dropped and the others pass; `Err`
/// when a header does not fit in the frame.
pub fn try_xdp_firewall(ctx: &[u8], list: &Blocklist) -> (r: Result<u32, ()>)
    ensures
        r == (match firewall_decision(ctx@, list@.dom()) {
            Some(v) => Ok::<u32, ()>(v),
            None => Err(()),
        }),
{
    let eth = ptr_at(ctx.len(), 0, ETH_HDR_LEN)?;
    if !(ctx[eth + ETHER_TYPE_OFFSET] == 0x08 && ctx[eth + ETHER_TYPE_OFFSET + 1] == 0x00) {
        return Ok(XDP_PASS);
    }
    let ip = ptr_at(ctx.len(), ETH_HDR_LEN, IPV4_HDR_LEN)?;
    let source = read_be_u32(ctx, ip + IPV4_SRC_OFFSET);
    let action = if block_ip(list, source) {
        XDP_DROP
    } else {
        XDP_PASS
    };
    Ok(action)
}

/// The XDP program: the decision on the frame, or `XDP_ABORTED` when a
/// header does not fit in it.
pub fn xdp_firewall(ctx: &[u8], list: &Blocklist) -> (r: u32)
    ensures
        r == firewall_action(ctx@, list@.dom()),
{
    match try_xdp_firewall(ctx, list) {
        Ok(ret) => ret,
        Err(_) => XDP_ABORTED,
    }
}

/// The source address that the filter reads from an IPv4 frame is the
/// 32-bit value of the address whose octets stand in the frame's source field.
pub proof fn lemma_source_is_address(p: Seq<u8>, ip: Ipv4Address)
    requires
        p.len() >= ETH_HDR_LEN + IPV4_HDR_LEN,
        p.subrange(26, 30) == ip.octet_seq(),
    ensures
        source_of(p) == ip.bits(),
{
    assert(p[26] == p.subrange(26, 30)[0]);
    assert(p[27] == p.subrange(26, 30)[1]);
    assert(p[28] == p.subrange(26, 30)[2]);
    assert(p[29] == p.subrange(26, 30)[3]);
}

/// Once an address has been added to the table (the update succeeded),
/// every IPv4 frame whose source field holds that address is dropped.
pub proof fn lemma_blocked_source_dropped(m: Map<u32, u32>, ip: Ipv4Address, p: Seq<u8>)
    requires
        update_succeeds(m, ip.bits() as u32),
        p.len() >= ETH_HDR_LEN + IPV4_HDR_LEN,
        is_ipv4_frame(p),
        p.subrange(26, 30) == ip.octet_seq(),
    ensures
        firewall_action(p, map_update(m, ip.bits() as u32, 0).dom()) == XDP_DROP,
{
    lemma_source_is_address(p, ip);
}

/// Adding an address to the table never lets through a frame that was dropped.
pub proof fn lemma_update_keeps_drops(m: Map<u32, u32>, k: u32, v: u32, p: Seq<u8>)
    requires
        firewall_action(p, m.dom()) == XDP_DROP,
    ensures
        firewall_action(p, map_update(m, k, v).dom()) == XDP_DROP,
{
}

/// A frame is dropped only if it is an IPv4 frame whose source address is in the table.
pub proof fn lemma_drop_only_blocked(p: Seq<u8>, blocked: Set<u32>)
    requires
        firewall_action(p, blocked) == XDP_DROP,
    ensures
        p.len() >= ETH_HDR_LEN + IPV4_HDR_LEN,
        is_ipv4_frame(p),
        blocked.contains(source_of(p) as u32),
{
}

/// The source address field of a frame as a number: bytes 26 to 29, the
/// first the most significant.
pub open spec fn source_field(p: Seq<u8>) -> u32 {
    (p[26] as int * 16777216 + p[27] as int * 65536 + p[28] as int * 256 + p[29] as int) as u32
}

/// An IPv4 frame that holds both headers passes when its source address is
/// not in the table, whatever follows the headers.
pub proof fn lemma_unblocked_ipv4_passes(p: Seq<u8>, blocked: Set<u32>)
    requires
        p.len() >= 34,
        p[12] == 0x08u8,
        p[13] == 0x00u8,
        !blocked.contains(source_field(p)),
    ensures
        firewall_action(p, blocked) == 2,
{
}

/// An IPv4 frame that holds both headers is dropped when its source address
/// is in the table, whatever follows the headers.
pub proof fn lemma_blocked_ipv4_dropped(p: Seq<u8>, blocked: Set<u32>)
    requires
        p.len() >= 34,
        p[12] == 0x08u8,
        p[13] == 0x00u8,
        blocked.contains(source_field(p)),
    ensures
        firewall_action(p, blocked) == 1,
{
}

/// A frame that holds an Ethernet header and is not IPv4 passes.
pub proof fn lemma_non_ipv4_passes(p: Seq<u8>, blocked: Set<u32>)
    requires
        p.len() >= 14,
        !(p[12] == 0x08u8 && p[13] == 0x00u8),
    ensures
        firewall_action(p, blocked) == 2,
{
}

/// A frame too short for its Ethernet header, or an IPv4 frame too short
/// for its IPv4 header, is aborted.
pub proof fn lemma_truncated_aborts(p: Seq<u8>, blocked: Set<u32>)
    requires
        p.len() < 14 || (p.len() < 34 && p[12] == 0x08u8 && p[13] == 0x00u8),
    ensures
        firewall_action(p, blocked) == 0,
{
}

/// The action depends only on the first 34 bytes of a frame: payload after
/// the headers never changes it.
pub proof fn lemma_payload_irrelevant(p: Seq<u8>, blocked: Set<u32>)
    requires
        p.len() >= 34,
    ensures
        firewall_action(p, blocked) == firewall_action(p.subrange(0, 34), blocked),
{
    let q = p.subrange(0, 34);
    assert(q[12] == p[12] && q[13] == p[13]);
    assert(q[26] == p[26] && q[27] == p[27] && q[28] == p[28] && q[29] == p[29]);
}

} // verus!
