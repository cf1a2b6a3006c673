//! The snapshot data model: one timestamped measurement of all tracked
//! system metrics.
//!
//! All quantities are carried as integers. Metrics that are naturally
//! fractional (load averages, CPU load percentages, CPU temperature) are
//! held in hundredths of their unit, so `1.5` is stored as `150`. Textual
//! names (filesystem types, mount points, interface names, addresses) are
//! held as UTF-8 byte strings. Collection times are UNIX timestamps in
//! milliseconds.

use vstd::prelude::*;

verus! {

/// Bytes per megabyte, for converting raw byte counters.
pub const BYTES_PER_MB: u64 = 1_000_000;

/// System load averages, in hundredths (a load of 1.5 is 150).
#[derive(Clone, Copy, Debug, PartialEq, Eq, Structural)]
pub struct LoadAverages {
    /// Load average over the last minute, in hundredths.
    pub one_minute: u64,
    /// Load average over the last five minutes, in hundredths.
    pub five_minutes: u64,
    /// Load average over the last fifteen minutes, in hundredths.
    pub fifteen_minutes: u64,
}

/// General system statistics.
#[derive(Clone, Copy, Debug, PartialEq, Eq, Structural)]
pub struct GeneralStats {
    /// Seconds the system has been running, if available.
    pub uptime_seconds: Option<u64>,
    /// Boot time as seconds since the UNIX epoch, if available.
    pub boot_timestamp: Option<i64>,
    /// Load averages, if available.
    pub load_averages: Option<LoadAverages>,
}

/// CPU statistics. Percentages and degrees are in hundredths.
#[derive(Debug, PartialEq)]
pub struct CpuStats {
    /// Load percentage of each logical CPU, in hundredths of a percent.
    pub per_logical_cpu_load_percent: Option<Vec<u64>>,
    /// Aggregate CPU load percentage, in hundredths of a percent.
    pub aggregate_load_percent: Option<u64>,
    /// CPU temperature, in hundredths of a degree Celsius.
    pub temp_celsius: Option<i64>,
}

/// Memory statistics, in megabytes.
#[derive(Clone, Copy, Debug, PartialEq, Eq, Structural)]
pub struct MemoryStats {
    /// Used memory, in MB.
    pub used_mb: u64,
    /// Total memory, in MB.
    pub total_mb: u64,
}

/// Statistics for one mounted filesystem.
#[derive(Debug, PartialEq)]
pub struct MountStats {
    /// Filesystem type (NTFS, ext3, ...), as UTF-8 bytes.
    pub fs_type: Vec<u8>,
    /// Name of the device this mount corresponds to, as UTF-8 bytes.
    pub mounted_from: Vec<u8>,
    /// Root path of this mount, as UTF-8 bytes.
    pub mounted_on: Vec<u8>,
    /// Space used on this mount, in MB.
    pub used_mb: u64,
    /// Total space on this mount, in MB.
    pub total_mb: u64,
}

/// Statistics for one network interface.
#[derive(Debug, PartialEq)]
pub struct NetworkInterfaceStats {
    /// Interface name, as UTF-8 bytes.
    pub name: Vec<u8>,
    /// IP addresses associated with this interface, as UTF-8 bytes each.
    pub addresses: Vec<Vec<u8>>,
    /// Total MB sent through this interface.
    pub sent_mb: u64,
    /// Total MB received through this interface.
    pub received_mb: u64,
    /// Total packets sent through this interface.
    pub sent_packets: u64,
    /// Total packets received through this interface.
    pub received_packets: u64,
    /// Total errors while sending through this interface.
    pub send_errors: u64,
    /// Total errors while receiving through this interface.
    pub receive_errors: u64,
}

/// Socket statistics, by protocol family.
#[derive(Clone, Copy, Debug, PartialEq, Eq, Structural)]
pub struct SocketStats {
    /// TCP sockets in use.
    pub tcp_in_use: usize,
    /// Orphaned TCP sockets.
    pub tcp_orphaned: usize,
    /// UDP sockets in use.
    pub udp_in_use: usize,
    /// IPv6 TCP sockets in use.
    pub tcp6_in_use: usize,
    /// IPv6 UDP sockets in use.
    pub udp6_in_use: usize,
}

/// Network statistics.
#[derive(Debug, PartialEq)]
pub struct NetworkStats {
    /// Per-interface statistics, if available.
    pub interfaces: Option<Vec<NetworkInterfaceStats>>,
    /// Socket statistics, if available.
    pub sockets: Option<SocketStats>,
}

/// One full measurement: every tracked metric, sampled at one time.
#[derive(Debug, PartialEq)]
pub struct AllStats {
    /// General system statistics.
    pub general: GeneralStats,
    /// CPU statistics.
    pub cpu: CpuStats,
    /// Memory statistics, if available.
    pub memory: Option<MemoryStats>,
    /// Statistics for each mounted filesystem, if sampled this cycle.
    pub filesystems: Option<Vec<MountStats>>,
    /// Network statistics.
    pub network: NetworkStats,
    /// When these statistics were collected, as UNIX milliseconds.
    pub collection_time: i64,
}

/// Mathematical view of `CpuStats`.
#[verifier::ext_equal]
pub struct CpuStatsV {
    pub per_logical_cpu_load_percent: Option<Seq<u64>>,
    pub aggregate_load_percent: Option<u64>,
    pub temp_celsius: Option<i64>,
}

/// Mathematical view of `MountStats`.
#[verifier::ext_equal]
pub struct MountStatsV {
    pub fs_type: Seq<u8>,
    pub mounted_from: Seq<u8>,
    pub mounted_on: Seq<u8>,
    pub used_mb: u64,
    pub total_mb: u64,
}

/// Mathematical view of `NetworkInterfaceStats`.
#[verifier::ext_equal]
pub struct NetworkInterfaceStatsV {
    pub name: Seq<u8>,
    pub addresses: Seq<Seq<u8>>,
    pub sent_mb: u64,
    pub received_mb: u64,
    pub sent_packets: u64,
    pub received_packets: u64,
    pub send_errors: u64,
    pub receive_errors: u64,
}

/// Mathematical view of `NetworkStats`.
#[verifier::ext_equal]
pub struct NetworkStatsV {
    pub interfaces: Option<Seq<NetworkInterfaceStatsV>>,
    pub sockets: Option<SocketStats>,
}

/// Mathematical view of `AllStats`.
#[verifier::ext_equal]
pub struct AllStatsV {
    pub general: GeneralStats,
    pub cpu: CpuStatsV,
    pub memory: Option<MemoryStats>,
    pub filesystems: Option<Seq<MountStatsV>>,
    pub network: NetworkStatsV,
    pub collection_time: i64,
}

impl View for CpuStats {
    type V = CpuStatsV;

    open spec fn view(&self) -> CpuStatsV {
        CpuStatsV {
            per_logical_cpu_load_percent: match self.per_logical_cpu_load_percent {
                Some(v) => Some(v@),
                None => None,
            },
            aggregate_load_percent: self.aggregate_load_percent,
            temp_celsius: self.temp_celsius,
        }
    }
}

impl View for MountStats {
    type V = MountStatsV;

    open spec fn view(&self) -> MountStatsV {
        MountStatsV {
            fs_type: self.fs_type@,
            mounted_from: self.mounted_from@,
            mounted_on: self.mounted_on@,
            used_mb: self.used_mb,
            total_mb: self.total_mb,
        }
    }
}

impl View for NetworkInterfaceStats {
    type V = NetworkInterfaceStatsV;

    open spec fn view(&self) -> NetworkInterfaceStatsV {
        NetworkInterfaceStatsV {
            name: self.name@,
            addresses: bstrs_view(self.addresses@),
            sent_mb: self.sent_mb,
            received_mb: self.received_mb,
            sent_packets: self.sent_packets,
            received_packets: self.received_packets,
            send_errors: self.send_errors,
            receive_errors: self.receive_errors,
        }
    }
}

impl View for NetworkStats {
    type V = NetworkStatsV;

    open spec fn view(&self) -> NetworkStatsV {
        NetworkStatsV {
            interfaces: match self.interfaces {
                Some(v) => Some(ifaces_view(v@)),
                None => None,
            },
            sockets: self.sockets,
        }
    }
}

impl View for AllStats {
    type V = AllStatsV;

    open spec fn view(&self) -> AllStatsV {
        AllStatsV {
            general: self.general,
            cpu: self.cpu@,
            memory: self.memory,
            filesystems: match self.filesystems {
                Some(v) => Some(mounts_view(v@)),
                None => None,
            },
            network: self.network@,
            collection_time: self.collection_time,
        }
    }
}

impl Clone for CpuStats {
    /// Cloning preserves the view.
    fn clone(&self) -> (r: Self)
        ensures
            r@ == self@,
    {
        CpuStats {
            per_logical_cpu_load_percent: match &self.per_logical_cpu_load_percent {
                Some(v) => {
                    let c = v.clone();
                    assert(c@ =~= v@);
                    Some(c)
                },
                None => None,
            },
            aggregate_load_percent: self.aggregate_load_percent,
            temp_celsius: self.temp_celsius,
        }
    }
}

impl Clone for MountStats {
    /// Cloning preserves the view.
    fn clone(&self) -> (r: Self)
        ensures
            r@ == self@,
    {
        let r = MountStats {
            fs_type: self.fs_type.clone(),
            mounted_from: self.mounted_from.clone(),
            mounted_on: self.mounted_on.clone(),
            used_mb: self.used_mb,
            total_mb: self.total_mb,
        };
        assert(r.fs_type@ =~= self.fs_type@);
        assert(r.mounted_from@ =~= self.mounted_from@);
        assert(r.mounted_on@ =~= self.mounted_on@);
        r
    }
}

impl Clone for NetworkInterfaceStats {
    /// Cloning preserves the view.
    fn clone(&self) -> (r: Self)
        ensures
            r@ == self@,
    {
        let addresses = self.addresses.clone();
        assert(bstrs_view(addresses@) =~= bstrs_view(self.addresses@)) by {
            assert forall|i: int| 0 <= i < addresses@.len() implies addresses@[i]@
                =~= self.addresses@[i]@ by {}
        }
        let r = NetworkInterfaceStats {
            name: self.name.clone(),
            addresses,
            sent_mb: self.sent_mb,
            received_mb: self.received_mb,
            sent_packets: self.sent_packets,
            received_packets: self.received_packets,
            send_errors: self.send_errors,
            receive_errors: self.receive_errors,
        };
        assert(r.name@ =~= self.name@);
        r
    }
}

impl Clone for NetworkStats {
    /// Cloning preserves the view.
    fn clone(&self) -> (r: Self)
        ensures
            r@ == self@,
    {
        let interfaces = match &self.interfaces {
            Some(v) => {
                let c = v.clone();
                assert(ifaces_view(c@) =~= ifaces_view(v@)) by {
                    assert forall|i: int| 0 <= i < c@.len() implies c@[i]@ =~= v@[i]@ by {}
                }
                Some(c)
            },
            None => None,
        };
        NetworkStats { interfaces, sockets: self.sockets }
    }
}

impl Clone for AllStats {
    /// Cloning preserves the view.
    fn clone(&self) -> (r: Self)
        ensures
            r@ == self@,
    {
        let filesystems = match &self.filesystems {
            Some(v) => {
                let c = v.clone();
                assert(mounts_view(c@) =~= mounts_view(v@)) by {
                    assert forall|i: int| 0 <= i < c@.len() implies c@[i]@ =~= v@[i]@ by {}
                }
                Some(c)
            },
            None => None,
        };
        AllStats {
            general: self.general,
            cpu: self.cpu.clone(),
            memory: self.memory,
            filesystems,
            network: self.network.clone(),
            collection_time: self.collection_time,
        }
    }
}

/// The views of a sequence of snapshots, element-wise.
pub open spec fn views(s: Seq<AllStats>) -> Seq<AllStatsV> {
    s.map_values(|x: AllStats| x@)
}

/// The views of a sequence of mount records, element-wise.
pub open spec fn mounts_view(s: Seq<MountStats>) -> Seq<MountStatsV> {
    s.map_values(|m: MountStats| m@)
}

/// The views of a sequence of interface records, element-wise.
pub open spec fn ifaces_view(s: Seq<NetworkInterfaceStats>) -> Seq<NetworkInterfaceStatsV> {
    s.map_values(|i: NetworkInterfaceStats| i@)
}

/// The views of a sequence of byte strings, element-wise.
pub open spec fn bstrs_view(s: Seq<Vec<u8>>) -> Seq<Seq<u8>> {
    s.map_values(|a: Vec<u8>| a@)
}

/// The number of whole megabytes represented by the given byte count.
pub fn bytes_to_mb(bytes: u64) -> (r: u64)
    ensures
        r == bytes / BYTES_PER_MB,
{
    bytes / BYTES_PER_MB
}

} // verus!
