use ebpf_guard::classifier::{
    check_port, ebpf_firewall, parse_frame, try_ebpf_firewall, XdpAction, ETH_HDR_LEN,
    IPV4_HDR_LEN, TCP_HDR_LEN, UDP_HDR_LEN,
};
use ebpf_guard::protocol::{IpProtocol, IPPROTO_ICMP, IPPROTO_TCP, IPPROTO_UDP};
use ebpf_guard::rules::{reconcile, FirewallRuleData, RuleTable};

fn frame(src: [u8; 4], proto: u8, port: u16, l4_len: usize) -> Vec<u8> {
    let mut f = vec![0u8; ETH_HDR_LEN + IPV4_HDR_LEN + l4_len];
    f[12] = 0x08;
    f[13] = 0x00;
    f[14] = 0x45;
    f[14 + 9] = proto;
    f[14 + 12..14 + 16].copy_from_slice(&src);
    if l4_len >= 2 {
        f[34..36].copy_from_slice(&port.to_be_bytes());
    }
    f
}

fn tcp(src: [u8; 4], port: u16) -> Vec<u8> {
    frame(src, IPPROTO_TCP, port, TCP_HDR_LEN)
}

fn udp(src: [u8; 4], port: u16) -> Vec<u8> {
    frame(src, IPPROTO_UDP, port, UDP_HDR_LEN)
}

fn icmp(src: [u8; 4]) -> Vec<u8> {
    frame(src, IPPROTO_ICMP, 0, 8)
}

fn rule(ip: [u8; 4], cidr: u16, protocol: IpProtocol, from: Option<u16>, to: Option<u16>, status: bool) -> FirewallRuleData {
    FirewallRuleData { ip, protocol, cidr, from_port: from, to_port: to, status }
}

fn table_of(rules: Vec<FirewallRuleData>) -> RuleTable {
    let mut t = RuleTable::new();
    assert!(reconcile(&mut t, &Ok(rules)).is_ok());
    t
}

#[test]
fn port_range_is_inclusive() {
    assert!(check_port(2000, Some(2000), Some(3000)));
    assert!(check_port(3000, Some(2000), Some(3000)));
    assert!(check_port(2500, Some(2000), Some(3000)));
    assert!(!check_port(1999, Some(2000), Some(3000)));
    assert!(!check_port(3001, Some(2000), Some(3000)));
}

#[test]
fn port_from_only_is_exact() {
    assert!(check_port(22, Some(22), None));
    assert!(!check_port(23, Some(22), None));
}

#[test]
fn port_without_bounds_matches_any() {
    assert!(check_port(0, None, None));
    assert!(check_port(65535, None, None));
}

#[test]
fn port_to_only_matches_nothing() {
    assert!(!check_port(10, None, Some(10)));
}

#[test]
fn tcp_range_deny_on_host() {
    let t = table_of(vec![rule([192, 168, 211, 128], 32, IpProtocol::Tcp, Some(2000), Some(3000), false)]);
    let v = ebpf_firewall(&tcp([192, 168, 211, 128], 2500), &t);
    assert_eq!(v.action, XdpAction::Drop);
    let log = v.log.expect("a drop is audited");
    assert_eq!(log.ip, [192, 168, 211, 128]);
    assert_eq!(log.port, 2500);
    assert_eq!(log.protocol, IPPROTO_TCP);
    assert_eq!(log.status, 0);
    let v = ebpf_firewall(&tcp([192, 168, 211, 128], 1999), &t);
    assert_eq!(v.action, XdpAction::Pass);
    assert!(v.log.is_none());
    let v = ebpf_firewall(&tcp([192, 168, 211, 129], 2500), &t);
    assert_eq!(v.action, XdpAction::Pass);
}

#[test]
fn icmp_deny_on_subnet() {
    let t = table_of(vec![rule([192, 168, 211, 0], 24, IpProtocol::Icmp, None, None, false)]);
    let v = ebpf_firewall(&icmp([192, 168, 211, 50]), &t);
    assert_eq!(v.action, XdpAction::Drop);
    let log = v.log.unwrap();
    assert_eq!(log.port, 0);
    assert_eq!(log.protocol, IPPROTO_ICMP);
    assert_eq!(ebpf_firewall(&tcp([192, 168, 211, 50], 80), &t).action, XdpAction::Pass);
    assert_eq!(ebpf_firewall(&icmp([192, 168, 212, 50]), &t).action, XdpAction::Pass);
}

#[test]
fn longer_prefix_wins() {
    let t = table_of(vec![
        rule([10, 0, 0, 0], 8, IpProtocol::Tcp, None, None, true),
        rule([10, 1, 0, 0], 16, IpProtocol::Tcp, None, None, false),
    ]);
    assert_eq!(ebpf_firewall(&tcp([10, 1, 2, 3], 443), &t).action, XdpAction::Drop);
    assert_eq!(ebpf_firewall(&tcp([10, 2, 2, 3], 443), &t).action, XdpAction::Pass);
    let t = table_of(vec![
        rule([10, 1, 0, 0], 16, IpProtocol::Tcp, None, None, false),
        rule([10, 0, 0, 0], 8, IpProtocol::Tcp, None, None, true),
    ]);
    assert_eq!(ebpf_firewall(&tcp([10, 1, 2, 3], 443), &t).action, XdpAction::Drop);
}

#[test]
fn longest_prefix_decides_even_when_it_does_not_apply() {
    // The /16 rule is selected; it is for UDP, so the TCP packet passes
    // although the /8 rule would deny it.
    let t = table_of(vec![
        rule([10, 0, 0, 0], 8, IpProtocol::Tcp, None, None, false),
        rule([10, 1, 0, 0], 16, IpProtocol::Udp, None, None, false),
    ]);
    assert_eq!(ebpf_firewall(&tcp([10, 1, 2, 3], 80), &t).action, XdpAction::Pass);
    assert_eq!(ebpf_firewall(&udp([10, 1, 2, 3], 53), &t).action, XdpAction::Drop);
    assert_eq!(ebpf_firewall(&tcp([10, 9, 2, 3], 80), &t).action, XdpAction::Drop);
}

#[test]
fn empty_table_passes_everything() {
    let t = RuleTable::new();
    assert_eq!(ebpf_firewall(&tcp([1, 2, 3, 4], 80), &t).action, XdpAction::Pass);
    assert_eq!(ebpf_firewall(&udp([1, 2, 3, 4], 53), &t).action, XdpAction::Pass);
    assert_eq!(ebpf_firewall(&icmp([1, 2, 3, 4]), &t).action, XdpAction::Pass);
}

#[test]
fn default_route_rule_covers_all() {
    let t = table_of(vec![rule([0, 0, 0, 0], 0, IpProtocol::Udp, Some(53), None, false)]);
    assert_eq!(ebpf_firewall(&udp([8, 8, 8, 8], 53), &t).action, XdpAction::Drop);
    assert_eq!(ebpf_firewall(&udp([8, 8, 8, 8], 54), &t).action, XdpAction::Pass);
}

#[test]
fn rule_without_ports_applies_to_every_port() {
    let t = table_of(vec![rule([172, 16, 0, 1], 32, IpProtocol::Tcp, None, None, false)]);
    assert_eq!(ebpf_firewall(&tcp([172, 16, 0, 1], 1), &t).action, XdpAction::Drop);
    assert_eq!(ebpf_firewall(&tcp([172, 16, 0, 1], 65535), &t).action, XdpAction::Drop);
}

#[test]
fn undefined_protocol_rule_acts_as_tcp() {
    let t = table_of(vec![rule([172, 16, 0, 1], 32, IpProtocol::Undefined, None, None, false)]);
    assert_eq!(ebpf_firewall(&tcp([172, 16, 0, 1], 1), &t).action, XdpAction::Drop);
    assert_eq!(ebpf_firewall(&udp([172, 16, 0, 1], 1), &t).action, XdpAction::Pass);
}

#[test]
fn udp_port_read_after_ipv4_header() {
    let t = table_of(vec![rule([192, 168, 1, 1], 32, IpProtocol::Udp, Some(5353), None, false)]);
    let f = udp([192, 168, 1, 1], 5353);
    let p = parse_frame(&f).unwrap().unwrap();
    assert_eq!(p.src_port, Some(5353));
    assert_eq!(ebpf_firewall(&f, &t).action, XdpAction::Drop);
}

#[test]
fn short_frames_abort() {
    let t = RuleTable::new();
    assert_eq!(ebpf_firewall(&[0u8; 13], &t).action, XdpAction::Aborted);
    let f = tcp([1, 2, 3, 4], 80);
    assert_eq!(ebpf_firewall(&f[..ETH_HDR_LEN + IPV4_HDR_LEN - 1], &t).action, XdpAction::Aborted);
    assert_eq!(ebpf_firewall(&f[..f.len() - 1], &t).action, XdpAction::Aborted);
    assert!(ebpf_firewall(&f[..f.len() - 1], &t).log.is_none());
    let u = udp([1, 2, 3, 4], 80);
    assert!(try_ebpf_firewall(&u[..u.len() - 1], &t).is_err());
    assert!(try_ebpf_firewall(&u, &t).is_ok());
    // ICMP reads no layer-4 header.
    let i = icmp([1, 2, 3, 4]);
    assert!(try_ebpf_firewall(&i[..ETH_HDR_LEN + IPV4_HDR_LEN], &t).is_ok());
}

#[test]
fn non_ipv4_and_other_protocols_pass() {
    let t = table_of(vec![rule([0, 0, 0, 0], 0, IpProtocol::Tcp, None, None, false)]);
    let mut f = tcp([1, 2, 3, 4], 80);
    f[12] = 0x86;
    f[13] = 0xdd;
    assert_eq!(ebpf_firewall(&f, &t).action, XdpAction::Pass);
    assert_eq!(ebpf_firewall(&f[..ETH_HDR_LEN], &t).action, XdpAction::Pass);
    let gre = frame([1, 2, 3, 4], 47, 0, 0);
    assert!(parse_frame(&gre).unwrap().is_none());
    assert_eq!(ebpf_firewall(&gre, &t).action, XdpAction::Pass);
}

#[test]
fn verdict_ignores_bytes_outside_read_fields() {
    let t = table_of(vec![rule([10, 0, 0, 0], 8, IpProtocol::Tcp, None, None, false)]);
    let a = tcp([10, 4, 4, 4], 80);
    let mut b = a.clone();
    b[0] = 0xff;
    b[20] = 0x77;
    b[30] = 0x99;
    b[40] = 0x01;
    let va = ebpf_firewall(&a, &t);
    let vb = ebpf_firewall(&b, &t);
    assert_eq!(va.action, vb.action);
    assert_eq!(va.log.unwrap().ip, vb.log.unwrap().ip);
}

#[test]
fn layout_matches_network_types() {
    assert_eq!(ETH_HDR_LEN, network_types::eth::EthHdr::LEN);
    assert_eq!(IPV4_HDR_LEN, network_types::ip::Ipv4Hdr::LEN);
    assert_eq!(TCP_HDR_LEN, network_types::tcp::TcpHdr::LEN);
    assert_eq!(UDP_HDR_LEN, network_types::udp::UdpHdr::LEN);
    assert_eq!(IPPROTO_TCP, network_types::ip::IpProto::Tcp as u8);
    assert_eq!(IPPROTO_UDP, network_types::ip::IpProto::Udp as u8);
    assert_eq!(IPPROTO_ICMP, network_types::ip::IpProto::Icmp as u8);
}

#[test]
fn classifier_keeps_previous_rules_when_fetch_fails() {
    let mut t = table_of(vec![rule([192, 168, 211, 128], 32, IpProtocol::Tcp, Some(2000), Some(3000), false)]);
    let f = tcp([192, 168, 211, 128], 2500);
    assert_eq!(ebpf_firewall(&f, &t).action, XdpAction::Drop);
    assert!(reconcile(&mut t, &Err("unreachable".to_string())).is_err());
    assert_eq!(ebpf_firewall(&f, &t).action, XdpAction::Drop);
    assert!(reconcile(&mut t, &Ok(vec![rule([192, 168, 211, 128], 32, IpProtocol::Tcp, None, None, true)])).is_ok());
    assert_eq!(ebpf_firewall(&f, &t).action, XdpAction::Pass);
}
