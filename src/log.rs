use vstd::prelude::*;
use crate::classifier::{frame_verdict, FirewallLog};
use crate::protocol::{
    get_protocol_from_u8, protocol_number, protocol_of_number, IpProtocol, IPPROTO_ICMP,
};
use crate::rules::RuleTableView;

verus! {

/// Size of a `FirewallLog` record in the ring: the address, the port in
/// native (little-endian) order, the protocol number and the status.
pub const FIREWALL_LOG_LEN: usize = 8;

/// A dropped packet as the drain posts it to the control plane.
#[derive(Clone, Copy, Debug)]
pub struct FirewallLogData {
    pub ip: [u8; 4],
    pub protocol: IpProtocol,
    pub port: Option<u16>,
    pub status: bool,
}

/// The bytes of a record in the ring.
pub open spec fn encoded(l: FirewallLog) -> Seq<u8> {
    seq![
        l.ip[0],
        l.ip[1],
        l.ip[2],
        l.ip[3],
        (l.port % 256) as u8,
        (l.port / 256) as u8,
        l.protocol,
        l.status,
    ]
}

/// The record that the first `FIREWALL_LOG_LEN` bytes hold.
pub open spec fn decoded(b: Seq<u8>) -> FirewallLog
    recommends
        b.len() >= FIREWALL_LOG_LEN,
{
    FirewallLog {
        ip: [b[0], b[1], b[2], b[3]],
        port: (b[4] as int + b[5] as int * 256) as u16,
        protocol: b[6],
        status: b[7],
    }
}

/// The form that the drain posts for a record: ICMP has no port, and only
/// status 1 reads as allowed.
pub open spec fn log_data(l: FirewallLog) -> FirewallLogData {
    let p = protocol_of_number(l.protocol);
    FirewallLogData {
        ip: l.ip,
        protocol: p,
        port: if p == IpProtocol::Icmp {
            None
        } else {
            Some(l.port)
        },
        status: l.status == 1,
    }
}

impl FirewallLog {
    /// The record's bytes as the kernel writes them to the ring.
    pub fn to_bytes(&self) -> (r: Vec<u8>)
        ensures
            r@ == encoded(*self),
    {
        let r = vec![
            self.ip[0],
            self.ip[1],
            self.ip[2],
            self.ip[3],
            (self.port % 256) as u8,
            (self.port / 256) as u8,
            self.protocol,
            self.status,
        ];
        assert(r@ =~= encoded(*self));
        r
    }

    /// Reads a record from the start of a ring slot; `None` where the slot
    /// is shorter than a record.
    pub fn from_bytes(buf: &[u8]) -> (r: Option<FirewallLog>)
        ensures
            buf@.len() < FIREWALL_LOG_LEN ==> r is None,
            buf@.len() >= FIREWALL_LOG_LEN ==> r == Some(decoded(buf@)),
    {
        if buf.len() < FIREWALL_LOG_LEN {
            return None;
        }
        let l = FirewallLog {
            ip: [buf[0], buf[1], buf[2], buf[3]],
            port: (buf[4] as u16) + (buf[5] as u16) * 256,
            protocol: buf[6],
            status: buf[7],
        };
        assert(l.ip@ =~= decoded(buf@).ip@);
        Some(l)
    }
}

impl FirewallLogData {
    /// The form posted for a record.
    pub fn from_log(log: &FirewallLog) -> (r: FirewallLogData)
        ensures
            r == log_data(*log),
    {
        let protocol = get_protocol_from_u8(log.protocol);
        FirewallLogData {
            ip: log.ip,
            port: if protocol == IpProtocol::Icmp {
                None
            } else {
                Some(log.port)
            },
            protocol: protocol,
            status: log.status == 1,
        }
    }
}

/// The drain's work on one ring slot: the form to post, `None` where the
/// slot is shorter than a record.
pub fn decode_firewall_log(buf: &[u8]) -> (r: Option<FirewallLogData>)
    ensures
        buf@.len() < FIREWALL_LOG_LEN ==> r is None,
        buf@.len() >= FIREWALL_LOG_LEN ==> r == Some(log_data(decoded(buf@))),
{
    match FirewallLog::from_bytes(buf) {
        Some(l) => Some(FirewallLogData::from_log(&l)),
        None => None,
    }
}

/// A record read back from its bytes is the record written.
pub proof fn lemma_record_round_trip(l: FirewallLog)
    ensures
        decoded(encoded(l)) == l,
{
    broadcast use vstd::array::axiom_array_ext_equal;

    let d = decoded(encoded(l));
    assert(d.ip@ =~= l.ip@);
    assert(d.ip == l.ip);
    assert(d.port == l.port);
    assert(d.protocol == l.protocol);
    assert(d.status == l.status);
}

/// For every record that the classifier emits, the form that the drain
/// posts gives back its address and protocol, and has no port exactly when
/// the protocol is ICMP; it reads as a denial.
pub proof fn lemma_emitted_log_round_trip(frame: Seq<u8>, t: RuleTableView)
    ensures
        frame_verdict(frame, t) matches Ok(v) ==> (v.log matches Some(l) ==> {
            let d = log_data(decoded(encoded(l)));
            &&& d.ip == l.ip
            &&& protocol_number(d.protocol) == l.protocol
            &&& (d.port is None <==> l.protocol == IPPROTO_ICMP)
            &&& (d.port is None <==> d.protocol == IpProtocol::Icmp)
            &&& (d.port matches Some(p) ==> p == l.port)
            &&& !d.status
        }),
{
    if let Ok(v) = frame_verdict(frame, t) {
        if let Some(l) = v.log {
            lemma_record_round_trip(l);
        }
    }
}

} // verus!
