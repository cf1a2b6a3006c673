//! Text sections of the dashboard: socket, interface and filesystem
//! summaries rendered as UTF-8 byte strings, the dashboard redirect
//! target, and log-line formatting.
//!
//! Percentages are rendered with two decimal places from fixed-point
//! integer arithmetic, rounded half up; a zero total renders as zero
//! percent.

use vstd::prelude::*;
use vstd::string::StrSliceExecFns;
use vstd::string::StringExecFns;

use crate::codec::{digit_byte, digits_of, emit_lit, emit_u128, emit_u64, enc_u64};
use crate::consolidate::avg_rounded;
use crate::stats::{
    bstrs_view, mounts_view, MountStats, MountStatsV, NetworkInterfaceStatsV, NetworkStats,
    NetworkStatsV, SocketStats,
};

verus! {

/// The text fragment `Network`.
pub open spec fn lit_network() -> Seq<u8> {
    seq![0x4eu8, 0x65u8, 0x74u8, 0x77u8, 0x6fu8, 0x72u8, 0x6bu8]
}

/// The text fragment `Network` as bytes.
const LIT_NETWORK: [u8; 7] = [0x4e, 0x65, 0x74, 0x77, 0x6f, 0x72, 0x6b];

/// The text fragment `Sockets`.
pub open spec fn lit_sockets() -> Seq<u8> {
    seq![0x53u8, 0x6fu8, 0x63u8, 0x6bu8, 0x65u8, 0x74u8, 0x73u8]
}

/// The text fragment `Sockets` as bytes.
const LIT_SOCKETS: [u8; 7] = [0x53, 0x6f, 0x63, 0x6b, 0x65, 0x74, 0x73];

/// The text fragment `TCP: `.
pub open spec fn lit_tcp_pre() -> Seq<u8> {
    seq![0x54u8, 0x43u8, 0x50u8, 0x3au8, 0x20u8]
}

/// The text fragment `TCP: ` as bytes.
const LIT_TCP_PRE: [u8; 5] = [0x54, 0x43, 0x50, 0x3a, 0x20];

/// The text fragment ` in use total, `.
pub open spec fn lit_in_use_total() -> Seq<u8> {
    seq![0x20u8, 0x69u8, 0x6eu8, 0x20u8, 0x75u8, 0x73u8, 0x65u8, 0x20u8, 0x74u8, 0x6fu8, 0x74u8, 0x61u8, 0x6cu8, 0x2cu8, 0x20u8]
}

/// The text fragment ` in use total, ` as bytes.
const LIT_IN_USE_TOTAL: [u8; 15] = [0x20, 0x69, 0x6e, 0x20, 0x75, 0x73, 0x65, 0x20, 0x74, 0x6f, 0x74, 0x61, 0x6c, 0x2c, 0x20];

/// The text fragment ` IPv6, `.
pub open spec fn lit_ipv6_mid() -> Seq<u8> {
    seq![0x20u8, 0x49u8, 0x50u8, 0x76u8, 0x36u8, 0x2cu8, 0x20u8]
}

/// The text fragment ` IPv6, ` as bytes.
const LIT_IPV6_MID: [u8; 7] = [0x20, 0x49, 0x50, 0x76, 0x36, 0x2c, 0x20];

/// The text fragment ` orphaned`.
pub open spec fn lit_orphaned() -> Seq<u8> {
    seq![0x20u8, 0x6fu8, 0x72u8, 0x70u8, 0x68u8, 0x61u8, 0x6eu8, 0x65u8, 0x64u8]
}

/// The text fragment ` orphaned` as bytes.
const LIT_ORPHANED: [u8; 9] = [0x20, 0x6f, 0x72, 0x70, 0x68, 0x61, 0x6e, 0x65, 0x64];

/// The text fragment `UDP: `.
pub open spec fn lit_udp_pre() -> Seq<u8> {
    seq![0x55u8, 0x44u8, 0x50u8, 0x3au8, 0x20u8]
}

/// The text fragment `UDP: ` as bytes.
const LIT_UDP_PRE: [u8; 5] = [0x55, 0x44, 0x50, 0x3a, 0x20];

/// The text fragment ` IPv6`.
pub open spec fn lit_ipv6() -> Seq<u8> {
    seq![0x20u8, 0x49u8, 0x50u8, 0x76u8, 0x36u8]
}

/// The text fragment ` IPv6` as bytes.
const LIT_IPV6: [u8; 5] = [0x20, 0x49, 0x50, 0x76, 0x36];

/// The text fragment `IP addresses: `.
pub open spec fn lit_ip_addresses() -> Seq<u8> {
    seq![0x49u8, 0x50u8, 0x20u8, 0x61u8, 0x64u8, 0x64u8, 0x72u8, 0x65u8, 0x73u8, 0x73u8, 0x65u8, 0x73u8, 0x3au8, 0x20u8]
}

/// The text fragment `IP addresses: ` as bytes.
const LIT_IP_ADDRESSES: [u8; 14] = [0x49, 0x50, 0x20, 0x61, 0x64, 0x64, 0x72, 0x65, 0x73, 0x73, 0x65, 0x73, 0x3a, 0x20];

/// The text fragment `, `.
pub open spec fn lit_comma_space() -> Seq<u8> {
    seq![0x2cu8, 0x20u8]
}

/// The text fragment `, ` as bytes.
const LIT_COMMA_SPACE: [u8; 2] = [0x2c, 0x20];

/// The text fragment `Sent: `.
pub open spec fn lit_sent_pre() -> Seq<u8> {
    seq![0x53u8, 0x65u8, 0x6eu8, 0x74u8, 0x3au8, 0x20u8]
}

/// The text fragment `Sent: ` as bytes.
const LIT_SENT_PRE: [u8; 6] = [0x53, 0x65, 0x6e, 0x74, 0x3a, 0x20];

/// The text fragment ` packets, `.
pub open spec fn lit_packets_mid() -> Seq<u8> {
    seq![0x20u8, 0x70u8, 0x61u8, 0x63u8, 0x6bu8, 0x65u8, 0x74u8, 0x73u8, 0x2cu8, 0x20u8]
}

/// The text fragment ` packets, ` as bytes.
const LIT_PACKETS_MID: [u8; 10] = [0x20, 0x70, 0x61, 0x63, 0x6b, 0x65, 0x74, 0x73, 0x2c, 0x20];

/// The text fragment ` MB, `.
pub open spec fn lit_mb_mid() -> Seq<u8> {
    seq![0x20u8, 0x4du8, 0x42u8, 0x2cu8, 0x20u8]
}

/// The text fragment ` MB, ` as bytes.
const LIT_MB_MID: [u8; 5] = [0x20, 0x4d, 0x42, 0x2c, 0x20];

/// The text fragment ` errors`.
pub open spec fn lit_errors_suf() -> Seq<u8> {
    seq![0x20u8, 0x65u8, 0x72u8, 0x72u8, 0x6fu8, 0x72u8, 0x73u8]
}

/// The text fragment ` errors` as bytes.
const LIT_ERRORS_SUF: [u8; 7] = [0x20, 0x65, 0x72, 0x72, 0x6f, 0x72, 0x73];

/// The text fragment `Received: `.
pub open spec fn lit_received_pre() -> Seq<u8> {
    seq![0x52u8, 0x65u8, 0x63u8, 0x65u8, 0x69u8, 0x76u8, 0x65u8, 0x64u8, 0x3au8, 0x20u8]
}

/// The text fragment `Received: ` as bytes.
const LIT_RECEIVED_PRE: [u8; 10] = [0x52, 0x65, 0x63, 0x65, 0x69, 0x76, 0x65, 0x64, 0x3a, 0x20];

/// The filesystems section title, in Chinese, as UTF-8 bytes.
pub open spec fn lit_fs_name() -> Seq<u8> {
    seq![0xe6u8, 0x96u8, 0x87u8, 0xe4u8, 0xbbu8, 0xb6u8, 0xe7u8, 0xb3u8, 0xbbu8, 0xe7u8, 0xbbu8, 0x9fu8]
}

/// The filesystems section title, in Chinese, as UTF-8 bytes.
const LIT_FS_NAME: [u8; 12] = [0xe6, 0x96, 0x87, 0xe4, 0xbb, 0xb6, 0xe7, 0xb3, 0xbb, 0xe7, 0xbb, 0x9f];

/// The filesystem-type label, in Chinese, as UTF-8 bytes.
pub open spec fn lit_fs_type_pre() -> Seq<u8> {
    seq![0xe7u8, 0xb1u8, 0xbbu8, 0xe5u8, 0x9eu8, 0x8bu8, 0x3au8, 0x20u8]
}

/// The filesystem-type label, in Chinese, as UTF-8 bytes.
const LIT_FS_TYPE_PRE: [u8; 8] = [0xe7, 0xb1, 0xbb, 0xe5, 0x9e, 0x8b, 0x3a, 0x20];

/// The mount-point label, in Chinese, as UTF-8 bytes.
pub open spec fn lit_mounted_from_pre() -> Seq<u8> {
    seq![0xe6u8, 0x8cu8, 0x82u8, 0xe8u8, 0xbdu8, 0xbdu8, 0xe7u8, 0x82u8, 0xb9u8, 0x3au8, 0x20u8]
}

/// The mount-point label, in Chinese, as UTF-8 bytes.
const LIT_MOUNTED_FROM_PRE: [u8; 11] = [0xe6, 0x8c, 0x82, 0xe8, 0xbd, 0xbd, 0xe7, 0x82, 0xb9, 0x3a, 0x20];

/// The usage label, in Chinese, as UTF-8 bytes.
pub open spec fn lit_usage_pre() -> Seq<u8> {
    seq![0xe4u8, 0xbdu8, 0xbfu8, 0xe7u8, 0x94u8, 0xa8u8, 0xe9u8, 0x87u8, 0x8fu8, 0x3au8, 0x20u8]
}

/// The usage label, in Chinese, as UTF-8 bytes.
const LIT_USAGE_PRE: [u8; 11] = [0xe4, 0xbd, 0xbf, 0xe7, 0x94, 0xa8, 0xe9, 0x87, 0x8f, 0x3a, 0x20];

/// The total-usage label, in Chinese, as UTF-8 bytes.
pub open spec fn lit_total_usage_pre() -> Seq<u8> {
    seq![0xe6u8, 0x80u8, 0xbbu8, 0xe4u8, 0xbdu8, 0xbfu8, 0xe7u8, 0x94u8, 0xa8u8, 0xe9u8, 0x87u8, 0x8fu8, 0x3au8, 0x20u8]
}

/// The total-usage label, in Chinese, as UTF-8 bytes.
const LIT_TOTAL_USAGE_PRE: [u8; 14] = [0xe6, 0x80, 0xbb, 0xe4, 0xbd, 0xbf, 0xe7, 0x94, 0xa8, 0xe9, 0x87, 0x8f, 0x3a, 0x20];

/// The text fragment ` / `.
pub open spec fn lit_slash() -> Seq<u8> {
    seq![0x20u8, 0x2fu8, 0x20u8]
}

/// The text fragment ` / ` as bytes.
const LIT_SLASH: [u8; 3] = [0x20, 0x2f, 0x20];

/// The text fragment ` MB (`.
pub open spec fn lit_mb_paren() -> Seq<u8> {
    seq![0x20u8, 0x4du8, 0x42u8, 0x20u8, 0x28u8]
}

/// The text fragment ` MB (` as bytes.
const LIT_MB_PAREN: [u8; 5] = [0x20, 0x4d, 0x42, 0x20, 0x28];

/// The text fragment `%)`.
pub open spec fn lit_pct_close() -> Seq<u8> {
    seq![0x25u8, 0x29u8]
}

/// The text fragment `%)` as bytes.
const LIT_PCT_CLOSE: [u8; 2] = [0x25, 0x29];

/// Mathematical view of a `DashboardSubsectionContext`.
#[verifier::ext_equal]
pub struct DashboardSubsectionContextV {
    pub name: Seq<u8>,
    pub stats: Seq<Seq<u8>>,
}

/// One titled block of statistics lines within a dashboard section.
#[derive(Debug)]
pub struct DashboardSubsectionContext {
    /// The subsection title, as UTF-8 bytes.
    pub name: Vec<u8>,
    /// The statistics lines, as UTF-8 bytes each.
    pub stats: Vec<Vec<u8>>,
}

impl View for DashboardSubsectionContext {
    type V = DashboardSubsectionContextV;

    open spec fn view(&self) -> DashboardSubsectionContextV {
        DashboardSubsectionContextV { name: self.name@, stats: bstrs_view(self.stats@) }
    }
}

/// The views of a sequence of subsections, element-wise.
pub open spec fn subsections_view(s: Seq<DashboardSubsectionContext>) -> Seq<
    DashboardSubsectionContextV,
> {
    s.map_values(|x: DashboardSubsectionContext| x@)
}

/// Mathematical view of a `DashboardSectionContext`.
#[verifier::ext_equal]
pub struct DashboardSectionContextV {
    pub name: Seq<u8>,
    pub stats: Seq<Seq<u8>>,
    pub subsections: Seq<DashboardSubsectionContextV>,
}

/// One titled section of the dashboard.
#[derive(Debug)]
pub struct DashboardSectionContext {
    /// The section title, as UTF-8 bytes.
    pub name: Vec<u8>,
    /// The section's own statistics lines, as UTF-8 bytes each.
    pub stats: Vec<Vec<u8>>,
    /// The section's subsections.
    pub subsections: Vec<DashboardSubsectionContext>,
}

impl View for DashboardSectionContext {
    type V = DashboardSectionContextV;

    open spec fn view(&self) -> DashboardSectionContextV {
        DashboardSectionContextV {
            name: self.name@,
            stats: bstrs_view(self.stats@),
            subsections: subsections_view(self.subsections@),
        }
    }
}

/// The TCP summary line of the socket subsection.
pub open spec fn line_tcp(s: SocketStats) -> Seq<u8> {
    lit_tcp_pre() + enc_u64(s.tcp_in_use as u64) + lit_in_use_total() + enc_u64(
        s.tcp6_in_use as u64,
    ) + lit_ipv6_mid() + enc_u64(s.tcp_orphaned as u64) + lit_orphaned()
}

/// The UDP summary line of the socket subsection.
pub open spec fn line_udp(s: SocketStats) -> Seq<u8> {
    lit_udp_pre() + enc_u64(s.udp_in_use as u64) + lit_in_use_total() + enc_u64(
        s.udp6_in_use as u64,
    ) + lit_ipv6()
}

/// The socket subsection of the network section.
pub open spec fn socket_subsection(s: SocketStats) -> DashboardSubsectionContextV {
    DashboardSubsectionContextV { name: lit_sockets(), stats: seq![line_tcp(s), line_udp(s)] }
}

/// Addresses joined with a comma and a space.
pub open spec fn joined_addrs(a: Seq<Seq<u8>>) -> Seq<u8>
    decreases a.len(),
{
    if a.len() == 0 {
        Seq::empty()
    } else if a.len() == 1 {
        a[0]
    } else {
        joined_addrs(a.drop_last()) + lit_comma_space() + a.last()
    }
}

/// The address line of one interface subsection.
pub open spec fn line_addrs(i: NetworkInterfaceStatsV) -> Seq<u8> {
    lit_ip_addresses() + joined_addrs(i.addresses)
}

/// The sent-traffic line of one interface subsection.
pub open spec fn line_sent(i: NetworkInterfaceStatsV) -> Seq<u8> {
    lit_sent_pre() + enc_u64(i.sent_packets) + lit_packets_mid() + enc_u64(i.sent_mb)
        + lit_mb_mid() + enc_u64(i.send_errors) + lit_errors_suf()
}

/// The received-traffic line of one interface subsection.
pub open spec fn line_received(i: NetworkInterfaceStatsV) -> Seq<u8> {
    lit_received_pre() + enc_u64(i.received_packets) + lit_packets_mid() + enc_u64(i.received_mb)
        + lit_mb_mid() + enc_u64(i.receive_errors) + lit_errors_suf()
}

/// The subsection describing one network interface.
pub open spec fn iface_subsection(i: NetworkInterfaceStatsV) -> DashboardSubsectionContextV {
    DashboardSubsectionContextV {
        name: i.name,
        stats: seq![line_addrs(i), line_sent(i), line_received(i)],
    }
}

/// The subsections of the network section: the socket summary if
/// sockets were sampled, then one subsection per sampled interface.
pub open spec fn network_subsections(ns: NetworkStatsV) -> Seq<DashboardSubsectionContextV> {
    (match ns.sockets {
        Some(s) => seq![socket_subsection(s)],
        None => Seq::empty(),
    }) + (match ns.interfaces {
        Some(ifs) => Seq::new(ifs.len(), |k: int| iface_subsection(ifs[k])),
        None => Seq::empty(),
    })
}

/// Appends the bytes of an address list, joined with commas.
fn emit_joined_addrs(addrs: &Vec<Vec<u8>>, out: &mut Vec<u8>)
    ensures
        final(out)@ == old(out)@ + joined_addrs(bstrs_view(addrs@)),
{
    let ghost vs = bstrs_view(addrs@);
    let n = addrs.len();
    for i in 0..n
        invariant
            n == addrs@.len(),
            vs == bstrs_view(addrs@),
            vs.len() == n,
            out@ == old(out)@ + joined_addrs(vs.take(i as int)),
    {
        proof {
            assert(vs.take(i + 1).drop_last() =~= vs.take(i as int));
            assert(vs.take(i + 1).last() == vs[i as int]);
            assert(vs[i as int] == addrs@[i as int]@);
        }
        if i > 0 {
            emit_lit(out, LIT_COMMA_SPACE.as_slice());
            proof {
                assert(LIT_COMMA_SPACE@ =~= lit_comma_space());
            }
        }
        emit_lit(out, addrs[i].as_slice());
        proof {
            assert(out@ =~= old(out)@ + joined_addrs(vs.take(i + 1)));
        }
    }
    proof {
        assert(vs.take(n as int) =~= vs);
    }
}

/// Builds the network section of the dashboard from the most recent
/// network statistics: a socket summary and one subsection per
/// interface, or nothing if neither was sampled.
pub fn build_network_section(network_stats: &NetworkStats) -> (r: Option<DashboardSectionContext>)
    ensures
        match r {
            Some(sec) => {
                &&& network_subsections(network_stats@).len() > 0
                &&& sec@.name == lit_network()
                &&& sec@.stats == Seq::<Seq<u8>>::empty()
                &&& sec@.subsections == network_subsections(network_stats@)
            },
            None => network_subsections(network_stats@).len() == 0,
        },
{
    let mut subsections: Vec<DashboardSubsectionContext> = Vec::new();
    match &network_stats.sockets {
        Some(socket_stats) => {
            let mut l1: Vec<u8> = Vec::new();
            emit_lit(&mut l1, LIT_TCP_PRE.as_slice());
            emit_u64(socket_stats.tcp_in_use as u64, &mut l1);
            emit_lit(&mut l1, LIT_IN_USE_TOTAL.as_slice());
            emit_u64(socket_stats.tcp6_in_use as u64, &mut l1);
            emit_lit(&mut l1, LIT_IPV6_MID.as_slice());
            emit_u64(socket_stats.tcp_orphaned as u64, &mut l1);
            emit_lit(&mut l1, LIT_ORPHANED.as_slice());
            let mut l2: Vec<u8> = Vec::new();
            emit_lit(&mut l2, LIT_UDP_PRE.as_slice());
            emit_u64(socket_stats.udp_in_use as u64, &mut l2);
            emit_lit(&mut l2, LIT_IN_USE_TOTAL.as_slice());
            emit_u64(socket_stats.udp6_in_use as u64, &mut l2);
            emit_lit(&mut l2, LIT_IPV6.as_slice());
            let mut name: Vec<u8> = Vec::new();
            emit_lit(&mut name, LIT_SOCKETS.as_slice());
            let mut stats: Vec<Vec<u8>> = Vec::new();
            proof {
                assert(LIT_TCP_PRE@ =~= lit_tcp_pre());
                assert(LIT_IN_USE_TOTAL@ =~= lit_in_use_total());
                assert(LIT_IPV6_MID@ =~= lit_ipv6_mid());
                assert(LIT_ORPHANED@ =~= lit_orphaned());
                assert(LIT_UDP_PRE@ =~= lit_udp_pre());
                assert(LIT_IPV6@ =~= lit_ipv6());
                assert(LIT_SOCKETS@ =~= lit_sockets());
                assert(l1@ =~= line_tcp(*socket_stats));
                assert(l2@ =~= line_udp(*socket_stats));
            }
            stats.push(l1);
            stats.push(l2);
            let sub = DashboardSubsectionContext { name, stats };
            proof {
                assert(sub@.stats =~= socket_subsection(*socket_stats).stats);
                assert(sub@ =~= socket_subsection(*socket_stats));
            }
            subsections.push(sub);
        },
        None => {},
    }
    let ghost head = subsections_view(subsections@);
    proof {
        assert(head =~= match network_stats@.sockets {
            Some(s) => seq![socket_subsection(s)],
            None => Seq::<DashboardSubsectionContextV>::empty(),
        });
    }
    match &network_stats.interfaces {
        Some(interfaces) => {
            let n = interfaces.len();
            for i in 0..n
                invariant
                    n == interfaces@.len(),
                    network_stats@.interfaces == Some(
                        crate::stats::ifaces_view(interfaces@),
                    ),
                    head == subsections_view(subsections@).take(head.len() as int),
                    subsections_view(subsections@).len() == head.len() + i,
                    subsections_view(subsections@) =~= head + Seq::new(
                        i as nat,
                        |k: int| iface_subsection(interfaces@[k]@),
                    ),
            {
                let interface = &interfaces[i];
                let mut l1: Vec<u8> = Vec::new();
                emit_lit(&mut l1, LIT_IP_ADDRESSES.as_slice());
                emit_joined_addrs(&interface.addresses, &mut l1);
                let mut l2: Vec<u8> = Vec::new();
                emit_lit(&mut l2, LIT_SENT_PRE.as_slice());
                emit_u64(interface.sent_packets, &mut l2);
                emit_lit(&mut l2, LIT_PACKETS_MID.as_slice());
                emit_u64(interface.sent_mb, &mut l2);
                emit_lit(&mut l2, LIT_MB_MID.as_slice());
                emit_u64(interface.send_errors, &mut l2);
                emit_lit(&mut l2, LIT_ERRORS_SUF.as_slice());
                let mut l3: Vec<u8> = Vec::new();
                emit_lit(&mut l3, LIT_RECEIVED_PRE.as_slice());
                emit_u64(interface.received_packets, &mut l3);
                emit_lit(&mut l3, LIT_PACKETS_MID.as_slice());
                emit_u64(interface.received_mb, &mut l3);
                emit_lit(&mut l3, LIT_MB_MID.as_slice());
                emit_u64(interface.receive_errors, &mut l3);
                emit_lit(&mut l3, LIT_ERRORS_SUF.as_slice());
                let name = interface.name.clone();
                let mut stats: Vec<Vec<u8>> = Vec::new();
                proof {
                    assert(LIT_IP_ADDRESSES@ =~= lit_ip_addresses());
                    assert(LIT_SENT_PRE@ =~= lit_sent_pre());
                    assert(LIT_PACKETS_MID@ =~= lit_packets_mid());
                    assert(LIT_MB_MID@ =~= lit_mb_mid());
                    assert(LIT_ERRORS_SUF@ =~= lit_errors_suf());
                    assert(LIT_RECEIVED_PRE@ =~= lit_received_pre());
                    assert(l1@ =~= line_addrs(interface@));
                    assert(l2@ =~= line_sent(interface@));
                    assert(l3@ =~= line_received(interface@));
                    assert(name@ =~= interface@.name);
                }
                stats.push(l1);
                stats.push(l2);
                stats.push(l3);
                let sub = DashboardSubsectionContext { name, stats };
                let ghost pre = subsections_view(subsections@);
                proof {
                    assert(sub@.stats =~= iface_subsection(interface@).stats);
                    assert(sub@ =~= iface_subsection(interface@));
                }
                subsections.push(sub);
                proof {
                    assert(subsections_view(subsections@) =~= pre.push(sub@));
                    assert(subsections_view(subsections@) =~= head + Seq::new(
                        (i + 1) as nat,
                        |k: int| iface_subsection(interfaces@[k]@),
                    ));
                    assert(head =~= subsections_view(subsections@).take(head.len() as int));
                }
            }
            proof {
                assert(Seq::new(n as nat, |k: int| iface_subsection(interfaces@[k]@)) =~= Seq::new(
                    crate::stats::ifaces_view(interfaces@).len(),
                    |k: int| iface_subsection(crate::stats::ifaces_view(interfaces@)[k]),
                ));
            }
        },
        None => {},
    }
    proof {
        assert(subsections_view(subsections@) =~= network_subsections(network_stats@));
    }
    if subsections.len() == 0 {
        None
    } else {
        let mut name: Vec<u8> = Vec::new();
        emit_lit(&mut name, LIT_NETWORK.as_slice());
        proof {
            assert(LIT_NETWORK@ =~= lit_network());
        }
        let r = DashboardSectionContext { name, stats: Vec::new(), subsections };
        proof {
            assert(r@.stats =~= Seq::<Seq<u8>>::empty());
        }
        Some(r)
    }
}

/// The percentage of `used` out of `total`, in hundredths of a percent,
/// rounded half up; zero when the total is zero.
pub open spec fn pct_hundredths(used: int, total: int) -> int {
    if total <= 0 {
        0
    } else {
        avg_rounded(used * 10000, total)
    }
}

/// A percentage in hundredths rendered with two decimal places.
pub open spec fn pct_bytes(p: int) -> Seq<u8>
    recommends
        p >= 0,
{
    digits_of((p / 100) as nat) + seq![0x2eu8, digit_byte((p % 100) / 10), digit_byte(p % 10)]
}

/// The `used / total MB (pct%)` tail of a usage line.
pub open spec fn usage_tail(used: nat, total: nat) -> Seq<u8> {
    digits_of(used) + lit_slash() + digits_of(total) + lit_mb_paren() + pct_bytes(
        pct_hundredths(used as int, total as int),
    ) + lit_pct_close()
}

/// Appends a `used / total MB (pct%)` usage tail to `out`.
fn emit_usage_tail(used: u128, total: u128, out: &mut Vec<u8>)
    requires
        used <= 0x4_0000_0000_0000_0000_0000_0000_0000,
        total <= 0x4_0000_0000_0000_0000_0000_0000_0000,
    ensures
        final(out)@ == old(out)@ + usage_tail(used as nat, total as nat),
{
    emit_u128(used, out);
    emit_lit(out, LIT_SLASH.as_slice());
    emit_u128(total, out);
    emit_lit(out, LIT_MB_PAREN.as_slice());
    let p: u128 = if total == 0 {
        0
    } else {
        let q = used * 10000;
        let d = q / total;
        let rem = q % total;
        assert(d == (q as int) / (total as int));
        assert(rem == (q as int) % (total as int));
        assert(rem < total);
        proof {
            lemma_pct_fits(used as int, total as int);
        }
        if 2 * rem >= total {
            d + 1
        } else {
            d
        }
    };
    proof {
        assert(p == pct_hundredths(used as int, total as int));
    }
    emit_u128(p / 100, out);
    out.push(0x2e);
    out.push(0x30 + (((p % 100) / 10) as u8));
    out.push(0x30 + ((p % 10) as u8));
    emit_lit(out, LIT_PCT_CLOSE.as_slice());
    proof {
        assert(LIT_SLASH@ =~= lit_slash());
        assert(LIT_MB_PAREN@ =~= lit_mb_paren());
        assert(LIT_PCT_CLOSE@ =~= lit_pct_close());
        assert((p % 100) / 10 < 10);
        assert(out@ =~= old(out)@ + usage_tail(used as nat, total as nat));
    }
}

/// A rendered percentage value fits comfortably in a wide word, and
/// `used * 10000` does not overflow.
proof fn lemma_pct_fits(used: int, total: int)
    by (nonlinear_arith)
    requires
        0 <= used <= 0x4_0000_0000_0000_0000_0000_0000_0000,
        1 <= total,
    ensures
        0 <= used * 10000 < 0x1_0000_0000_0000_0000_0000_0000_0000_0000,
        0 <= (used * 10000) / total <= used * 10000,
        avg_rounded(used * 10000, total) <= used * 10000 + 1,
{
}

/// The subsection describing one mounted filesystem.
pub open spec fn mount_subsection(m: MountStatsV) -> DashboardSubsectionContextV {
    DashboardSubsectionContextV {
        name: m.mounted_on,
        stats: seq![
            lit_fs_type_pre() + m.fs_type,
            lit_mounted_from_pre() + m.mounted_from,
            lit_usage_pre() + usage_tail(m.used_mb as nat, m.total_mb as nat),
        ],
    }
}

/// Total used space over a sequence of mounts, in MB.
pub open spec fn sum_used(ms: Seq<MountStatsV>) -> int
    decreases ms.len(),
{
    if ms.len() == 0 {
        0
    } else {
        sum_used(ms.drop_last()) + ms.last().used_mb
    }
}

/// Total space over a sequence of mounts, in MB.
pub open spec fn sum_total(ms: Seq<MountStatsV>) -> int
    decreases ms.len(),
{
    if ms.len() == 0 {
        0
    } else {
        sum_total(ms.drop_last()) + ms.last().total_mb
    }
}

/// Builds the filesystems section of the dashboard: one subsection per
/// mount and a total usage line.
pub fn build_filesystems_section(mount_stats: &Vec<MountStats>) -> (r: DashboardSectionContext)
    requires
        mount_stats@.len() <= 0x4_0000_0000_0000,
    ensures
        r@.name == lit_fs_name(),
        r@.subsections == Seq::new(
            mounts_view(mount_stats@).len(),
            |k: int| mount_subsection(mounts_view(mount_stats@)[k]),
        ),
        r@.stats == seq![
            lit_total_usage_pre() + usage_tail(
                sum_used(mounts_view(mount_stats@)) as nat,
                sum_total(mounts_view(mount_stats@)) as nat,
            ),
        ],
{
    let ghost ms = mounts_view(mount_stats@);
    let mut total_used_mb: u128 = 0;
    let mut total_total_mb: u128 = 0;
    let mut subsections: Vec<DashboardSubsectionContext> = Vec::new();
    let n = mount_stats.len();
    for i in 0..n
        invariant
            n == mount_stats@.len(),
            ms == mounts_view(mount_stats@),
            ms.len() == n,
            total_used_mb == sum_used(ms.take(i as int)),
            total_total_mb == sum_total(ms.take(i as int)),
            total_used_mb <= i * (u64::MAX as int),
            total_total_mb <= i * (u64::MAX as int),
            subsections_view(subsections@) =~= Seq::new(
                i as nat,
                |k: int| mount_subsection(ms[k]),
            ),
    {
        let mount = &mount_stats[i];
        proof {
            assert(ms.take(i + 1).drop_last() =~= ms.take(i as int));
            assert(ms.take(i + 1).last() == ms[i as int]);
            assert(ms[i as int] == mount@);
            lemma_mb_sum_step(i as int, n as int, total_used_mb as int, mount.used_mb as int);
            lemma_mb_sum_step(i as int, n as int, total_total_mb as int, mount.total_mb as int);
        }
        total_used_mb = total_used_mb + mount.used_mb as u128;
        total_total_mb = total_total_mb + mount.total_mb as u128;
        let mut l1: Vec<u8> = Vec::new();
        emit_lit(&mut l1, LIT_FS_TYPE_PRE.as_slice());
        emit_lit(&mut l1, mount.fs_type.as_slice());
        let mut l2: Vec<u8> = Vec::new();
        emit_lit(&mut l2, LIT_MOUNTED_FROM_PRE.as_slice());
        emit_lit(&mut l2, mount.mounted_from.as_slice());
        let mut l3: Vec<u8> = Vec::new();
        emit_lit(&mut l3, LIT_USAGE_PRE.as_slice());
        emit_usage_tail(mount.used_mb as u128, mount.total_mb as u128, &mut l3);
        let name = mount.mounted_on.clone();
        let mut stats: Vec<Vec<u8>> = Vec::new();
        proof {
            assert(LIT_FS_TYPE_PRE@ =~= lit_fs_type_pre());
            assert(LIT_MOUNTED_FROM_PRE@ =~= lit_mounted_from_pre());
            assert(LIT_USAGE_PRE@ =~= lit_usage_pre());
            assert(l1@ =~= mount_subsection(mount@).stats[0]);
            assert(l2@ =~= mount_subsection(mount@).stats[1]);
            assert(l3@ =~= mount_subsection(mount@).stats[2]);
            assert(name@ =~= mount@.mounted_on);
        }
        stats.push(l1);
        stats.push(l2);
        stats.push(l3);
        let sub = DashboardSubsectionContext { name, stats };
        let ghost pre = subsections_view(subsections@);
        proof {
            assert(sub@.stats =~= mount_subsection(mount@).stats);
            assert(sub@ =~= mount_subsection(mount@));
        }
        subsections.push(sub);
        proof {
            assert(subsections_view(subsections@) =~= pre.push(sub@));
            assert(subsections_view(subsections@) =~= Seq::new(
                (i + 1) as nat,
                |k: int| mount_subsection(ms[k]),
            ));
        }
    }
    proof {
        assert(ms.take(n as int) =~= ms);
    }
    proof {
        assert(n * (u64::MAX as int) <= 0x4_0000_0000_0000_0000_0000_0000_0000)
            by (nonlinear_arith)
            requires
                n <= 0x4_0000_0000_0000,
        ;
    }
    let mut total_line: Vec<u8> = Vec::new();
    emit_lit(&mut total_line, LIT_TOTAL_USAGE_PRE.as_slice());
    emit_usage_tail(total_used_mb, total_total_mb, &mut total_line);
    let mut name: Vec<u8> = Vec::new();
    emit_lit(&mut name, LIT_FS_NAME.as_slice());
    let mut stats: Vec<Vec<u8>> = Vec::new();
    proof {
        assert(LIT_TOTAL_USAGE_PRE@ =~= lit_total_usage_pre());
        assert(LIT_FS_NAME@ =~= lit_fs_name());
    }
    stats.push(total_line);
    let r = DashboardSectionContext { name, stats, subsections };
    proof {
        assert(r@.stats =~= seq![
            lit_total_usage_pre() + usage_tail(sum_used(ms) as nat, sum_total(ms) as nat),
        ]);
    }
    r
}

/// Step bound for summing megabyte counts.
proof fn lemma_mb_sum_step(i: int, n: int, sum: int, v: int)
    by (nonlinear_arith)
    requires
        0 <= i < n,
        n <= 0xffff_ffff_ffff_ffff,
        0 <= v <= 0xffff_ffff_ffff_ffff,
        0 <= sum <= i * 0xffff_ffff_ffff_ffff,
    ensures
        0 <= sum + v <= (i + 1) * 0xffff_ffff_ffff_ffff,
        (i + 1) * 0xffff_ffff_ffff_ffff < 0x1_0000_0000_0000_0000_0000_0000_0000_0000,
{
}

/// The logging level of a message.
#[derive(Clone, Copy, Debug, PartialEq, Eq, Structural)]
pub enum LogLevel {
    /// Routine detail: an unsupported statistic.
    Debug,
    /// A real failure.
    Error,
}

/// Whether two strings hold the same characters.
fn str_eq(a: &str, b: &str) -> (r: bool)
    ensures
        r == (a@ == b@),
{
    let n = a.unicode_len();
    let m = b.unicode_len();
    if n != m {
        return false;
    }
    for i in 0..n
        invariant
            n == a@.len(),
            n == b@.len(),
            forall|k: int| 0 <= k < i ==> a@[k] == b@[k],
    {
        if a.get_char(i) != b.get_char(i) {
            return false;
        }
    }
    proof {
        assert(a@ =~= b@);
    }
    true
}

/// Formats an error for the log: the message followed by the error
/// text, at debug level when the error is only an unsupported
/// statistic, at error level otherwise.
pub fn log(message: &str, error: &str) -> (r: (LogLevel, String))
    ensures
        r.0 == if error@ == "Not supported"@ {
            LogLevel::Debug
        } else {
            LogLevel::Error
        },
        r.1@ == message@ + error@,
{
    let level = if str_eq(error, "Not supported") {
        LogLevel::Debug
    } else {
        LogLevel::Error
    };
    let mut line = message.to_owned();
    line.append(error);
    (level, line)
}

/// The target of the index page: the dashboard, with dark mode on.
pub fn index() -> (r: String)
    ensures
        r@ == "/dashboard?dark=true"@,
{
    "/dashboard?dark=true".to_owned()
}

} // verus!
