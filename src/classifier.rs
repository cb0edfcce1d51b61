use vstd::prelude::*;
use crate::protocol::{IPPROTO_ICMP, IPPROTO_TCP, IPPROTO_UDP};
use crate::rules::{
    covers, entry_of, ipv4_to_u32, ipv4_value, lemma_insert_rules_origin, lemma_matched_covers,
    reconciled, FirewallRuleData, Rule, RuleTable, RuleTableView,
};

verus! {

/// Length of an Ethernet header.
pub const ETH_HDR_LEN: usize = 14;

/// Offset of the EtherType in an Ethernet header.
pub const ETHER_TYPE_OFFSET: usize = 12;

/// EtherType of IPv4.
pub const ETHER_TYPE_IPV4: u16 = 0x0800;

/// Length of an IPv4 header without options.
pub const IPV4_HDR_LEN: usize = 20;

/// Offset of the protocol number in an IPv4 header.
pub const IPV4_PROTO_OFFSET: usize = 9;

/// Offset of the source address in an IPv4 header.
pub const IPV4_SRC_OFFSET: usize = 12;

/// Length of a TCP header without options.
pub const TCP_HDR_LEN: usize = 20;

/// Length of a UDP header.
pub const UDP_HDR_LEN: usize = 8;

/// What the classifier tells the driver to do with a frame.
#[derive(Clone, Copy, Debug, PartialEq, Eq, Structural)]
pub enum XdpAction {
    /// A bounds check failed: the frame is dropped without audit.
    Aborted,
    Drop,
    Pass,
}

/// The fields of an inbound IPv4 packet that the classifier reads.
#[derive(Clone, Copy, Debug)]
pub struct Packet {
    pub src_ip: [u8; 4],
    pub protocol: u8,
    /// The source port of TCP and UDP; ICMP has none.
    pub src_port: Option<u16>,
}

/// The audit record written to the ring for each dropped packet.
#[derive(Clone, Copy, Debug)]
pub struct FirewallLog {
    pub ip: [u8; 4],
    /// The source port, 0 where the packet has none.
    pub port: u16,
    pub protocol: u8,
    pub status: u8,
}

/// The decision on a frame and the audit record that goes with a drop.
#[derive(Clone, Copy, Debug)]
pub struct Verdict {
    pub action: XdpAction,
    pub log: Option<FirewallLog>,
}

/// A big-endian 16-bit value.
pub open spec fn be16(hi: u8, lo: u8) -> u16 {
    (hi as int * 256 + lo as int) as u16
}

/// What a frame holds for the classifier: `Err` where a header it must read
/// is cut short, `Ok(None)` for frames it lets pass unread (not IPv4, or a
/// protocol other than TCP, UDP and ICMP).
pub open spec fn packet_of(f: Seq<u8>) -> Result<Option<Packet>, ()> {
    let ip = ETH_HDR_LEN as int;
    let l4 = ETH_HDR_LEN as int + IPV4_HDR_LEN as int;
    if f.len() < ETH_HDR_LEN {
        Err(())
    } else if be16(f[ETHER_TYPE_OFFSET as int], f[ETHER_TYPE_OFFSET + 1]) != ETHER_TYPE_IPV4 {
        Ok(None)
    } else if f.len() < l4 {
        Err(())
    } else {
        let proto = f[ip + IPV4_PROTO_OFFSET];
        let s = ip + IPV4_SRC_OFFSET;
        let src = [f[s], f[s + 1], f[s + 2], f[s + 3]];
        if proto == IPPROTO_TCP || proto == IPPROTO_UDP {
            let hdr = if proto == IPPROTO_TCP {
                TCP_HDR_LEN as int
            } else {
                UDP_HDR_LEN as int
            };
            if f.len() < l4 + hdr {
                Err(())
            } else {
                Ok(Some(Packet { src_ip: src, protocol: proto, src_port: Some(be16(f[l4], f[l4 + 1])) }))
            }
        } else if proto == IPPROTO_ICMP {
            Ok(Some(Packet { src_ip: src, protocol: proto, src_port: None }))
        } else {
            Ok(None)
        }
    }
}

/// The port test of a rule: a range where both bounds are set, equality
/// where only `from` is, anything where neither is, nothing where only `to` is.
pub open spec fn port_matches(port: u16, from: Option<u16>, to: Option<u16>) -> bool {
    match (from, to) {
        (Some(f), Some(t)) => f <= port && port <= t,
        (Some(f), None) => port == f,
        (None, None) => true,
        (None, Some(_)) => false,
    }
}

/// A matched rule decides for a packet when the protocols agree and, where
/// the packet has a port, the port test passes.
pub open spec fn rule_applies(rule: Rule, protocol: u8, port: Option<u16>) -> bool {
    rule.protocol == protocol && match port {
        Some(p) => port_matches(p, rule.from_port, rule.to_port),
        None => true,
    }
}

/// Whether a packet passes: it does unless the selected rule applies to it
/// and denies.
pub open spec fn allows(t: RuleTableView, protocol: u8, src: [u8; 4], port: Option<u16>) -> bool {
    match t.matched(ipv4_value(src)) {
        Some(e) => !rule_applies(e.rule, protocol, port) || e.rule.status,
        None => true,
    }
}

/// Verdict on a parsed packet.
pub open spec fn decide(t: RuleTableView, protocol: u8, src: [u8; 4], port: Option<u16>) -> Verdict {
    if allows(t, protocol, src, port) {
        Verdict { action: XdpAction::Pass, log: None }
    } else {
        Verdict {
            action: XdpAction::Drop,
            log: Some(
                FirewallLog {
                    ip: src,
                    port: match port {
                        Some(p) => p,
                        None => 0,
                    },
                    protocol: protocol,
                    status: 0,
                },
            ),
        }
    }
}

/// Verdict on a frame, `Err` where a bounds check fails.
pub open spec fn frame_verdict(f: Seq<u8>, t: RuleTableView) -> Result<Verdict, ()> {
    match packet_of(f) {
        Err(()) => Err(()),
        Ok(None) => Ok(Verdict { action: XdpAction::Pass, log: None }),
        Ok(Some(p)) => Ok(decide(t, p.protocol, p.src_ip, p.src_port)),
    }
}

/// Verdict on a frame as the hook returns it: a failed bounds check aborts.
pub open spec fn hook_verdict(f: Seq<u8>, t: RuleTableView) -> Verdict {
    match frame_verdict(f, t) {
        Ok(v) => v,
        Err(()) => Verdict { action: XdpAction::Aborted, log: None },
    }
}

/// The port test of a rule.
pub fn check_port(source_port: u16, from_port: Option<u16>, to_port: Option<u16>) -> (r: bool)
    ensures
        r == port_matches(source_port, from_port, to_port),
{
    match (from_port, to_port) {
        (Some(from_port), Some(to_port)) => from_port <= source_port && source_port <= to_port,
        (Some(from_port), None) => from_port == source_port,
        (None, None) => true,
        (None, Some(_)) => false,
    }
}

/// Reads the headers that the classifier needs from a frame.
pub fn parse_frame(frame: &[u8]) -> (r: Result<Option<Packet>, ()>)
    ensures
        r == packet_of(frame@),
{
    let ip = ETH_HDR_LEN;
    let l4 = ETH_HDR_LEN + IPV4_HDR_LEN;
    if frame.len() < ETH_HDR_LEN {
        return Err(());
    }
    let ether_type = (frame[ETHER_TYPE_OFFSET] as u16) * 256 + (frame[ETHER_TYPE_OFFSET + 1] as u16);
    if ether_type != ETHER_TYPE_IPV4 {
        return Ok(None);
    }
    if frame.len() < l4 {
        return Err(());
    }
    let proto = frame[ip + IPV4_PROTO_OFFSET];
    let s = ip + IPV4_SRC_OFFSET;
    let src: [u8; 4] = [frame[s], frame[s + 1], frame[s + 2], frame[s + 3]];
    let r = if proto == IPPROTO_TCP || proto == IPPROTO_UDP {
        let hdr = if proto == IPPROTO_TCP {
            TCP_HDR_LEN
        } else {
            UDP_HDR_LEN
        };
        if frame.len() < l4 + hdr {
            Err(())
        } else {
            let port = (frame[l4] as u16) * 256 + (frame[l4 + 1] as u16);
            Ok(Some(Packet { src_ip: src, protocol: proto, src_port: Some(port) }))
        }
    } else if proto == IPPROTO_ICMP {
        Ok(Some(Packet { src_ip: src, protocol: proto, src_port: None }))
    } else {
        Ok(None)
    };
    proof {
        let sp = packet_of(frame@);
        if let (Ok(Some(a)), Ok(Some(b))) = (r, sp) {
            assert(a.src_ip@ =~= b.src_ip@);
        }
    }
    r
}

/// Finds the rule for the packet and decides: pass unless the rule applies
/// and denies; a drop comes with its audit record.
pub fn checked_firewall_rule(
    table: &RuleTable,
    protocol: u8,
    source_ipv4: [u8; 4],
    source_port: Option<u16>,
) -> (r: Verdict)
    ensures
        r == decide(table@, protocol, source_ipv4, source_port),
{
    let mut status: bool = true;
    if let Some(entry) = table.lookup(ipv4_to_u32(source_ipv4)) {
        let rule = entry.rule;
        if protocol == rule.protocol {
            match source_port {
                Some(port) => {
                    if check_port(port, rule.from_port, rule.to_port) {
                        status = rule.status;
                    }
                },
                None => {
                    status = rule.status;
                },
            }
        }
    }
    if status {
        return Verdict { action: XdpAction::Pass, log: None };
    }
    let port = match source_port {
        Some(p) => p,
        None => 0,
    };
    Verdict {
        action: XdpAction::Drop,
        log: Some(FirewallLog { ip: source_ipv4, port: port, protocol: protocol, status: 0 }),
    }
}

/// Classifies a frame: frames that are not IPv4, or carry a protocol other
/// than TCP, UDP and ICMP, pass; `Err` where a header is cut short.
pub fn try_ebpf_firewall(frame: &[u8], table: &RuleTable) -> (r: Result<Verdict, ()>)
    ensures
        r == frame_verdict(frame@, table@),
{
    match parse_frame(frame) {
        Err(()) => Err(()),
        Ok(None) => Ok(Verdict { action: XdpAction::Pass, log: None }),
        Ok(Some(p)) => Ok(checked_firewall_rule(table, p.protocol, p.src_ip, p.src_port)),
    }
}

/// The XDP hook: the verdict on a frame, aborting where a header is cut short.
pub fn ebpf_firewall(frame: &[u8], table: &RuleTable) -> (r: Verdict)
    ensures
        r == hook_verdict(frame@, table@),
{
    match try_ebpf_firewall(frame, table) {
        Ok(v) => v,
        Err(()) => Verdict { action: XdpAction::Aborted, log: None },
    }
}

/// The verdict on a frame depends on nothing but the table and the source
/// address, protocol and source port that the frame carries.
pub proof fn lemma_verdict_depends_on_header(f1: Seq<u8>, f2: Seq<u8>, t: RuleTableView)
    requires
        packet_of(f1) == packet_of(f2),
    ensures
        frame_verdict(f1, t) == frame_verdict(f2, t),
        hook_verdict(f1, t) == hook_verdict(f2, t),
{
}

/// A packet passes whenever no node of the table both covers its source
/// address and applies to its protocol and port; in particular when no node
/// covers the address.
pub proof fn lemma_pass_without_applicable_rule(
    t: RuleTableView,
    protocol: u8,
    src: [u8; 4],
    port: Option<u16>,
)
    requires
        forall|k: int|
            0 <= k < t.entries.len() ==> !(covers(
                t.entries[k].key.addr,
                t.entries[k].key.prefix_len,
                ipv4_value(src),
            ) && rule_applies(#[trigger] t.entries[k].rule, protocol, port)),
    ensures
        decide(t, protocol, src, port).action == XdpAction::Pass,
        decide(t, protocol, src, port).log is None,
{
    lemma_matched_covers(t, ipv4_value(src));
}

/// Over a reconciled ruleset: a packet passes whenever no served rule both
/// covers its source address and applies to its protocol and port.
pub proof fn lemma_reconciled_pass_without_applicable_rule(
    t: RuleTableView,
    rules: Seq<FirewallRuleData>,
    protocol: u8,
    src: [u8; 4],
    port: Option<u16>,
)
    requires
        forall|m: int|
            0 <= m < rules.len() ==> !(covers(
                entry_of(#[trigger] rules[m]).key.addr,
                entry_of(rules[m]).key.prefix_len,
                ipv4_value(src),
            ) && rule_applies(entry_of(rules[m]).rule, protocol, port)),
    ensures
        decide(reconciled(t, rules), protocol, src, port).action == XdpAction::Pass,
{
    let r = reconciled(t, rules);
    lemma_insert_rules_origin(rules);
    assert forall|k: int| 0 <= k < r.entries.len() implies !(covers(
        r.entries[k].key.addr,
        r.entries[k].key.prefix_len,
        ipv4_value(src),
    ) && rule_applies(#[trigger] r.entries[k].rule, protocol, port)) by {
        let m = choose|m: int| 0 <= m < rules.len() && r.entries[k] == entry_of(rules[m]);
    }
    lemma_pass_without_applicable_rule(r, protocol, src, port);
}

} // verus!
