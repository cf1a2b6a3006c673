//! Executable encoding and parsing of the record objects, proved to
//! match the framing specification exactly.

use vstd::prelude::*;

use crate::codec::{
    at_null, dec_list, e_bstr, e_u64, eat_lit, emit_bstr, emit_i64, emit_lit, emit_u64, enc_list,
    enc_opt, lit_null, p_bstr, p_u64, parse_bstr, parse_i64, parse_u64,
};
use crate::codec_objs::{
    dec_allstats, dec_cpu, dec_general, dec_iface, dec_loadavg, dec_memory, dec_mount,
    dec_network, dec_sockets, dec_usize, e_i64, e_iface, e_list_iface, e_list_mount, e_list_u64,
    e_loadavg, e_memory, e_mount, e_sockets, enc_allstats, enc_cpu, enc_general, enc_iface,
    enc_loadavg, enc_memory, enc_mount, enc_network, enc_sockets, k_allstats_0, k_allstats_1,
    k_allstats_2, k_allstats_3, k_allstats_4, k_allstats_5, k_cpu_0, k_cpu_1, k_cpu_2,
    k_general_0, k_general_1, k_general_2, k_iface_0, k_iface_1, k_iface_2, k_iface_3,
    k_iface_4, k_iface_5, k_iface_6, k_iface_7, k_loadavg_0, k_loadavg_1, k_loadavg_2,
    k_memory_0, k_memory_1, k_mount_0, k_mount_1, k_mount_2, k_mount_3, k_mount_4, k_network_0,
    k_network_1, k_obj_end, k_sockets_0, k_sockets_1, k_sockets_2, k_sockets_3, k_sockets_4,
    p_iface, p_mount,
};
use crate::stats::{
    bstrs_view, ifaces_view, mounts_view, AllStats, CpuStats, GeneralStats, LoadAverages,
    MemoryStats, MountStats, MountStatsV, NetworkInterfaceStats, NetworkInterfaceStatsV,
    NetworkStats, SocketStats,
};

verus! {

/// The key framing `{"oneMinute":` as bytes.
const K_LOADAVG_0: [u8; 13] = [0x7b, 0x22, 0x6f, 0x6e, 0x65, 0x4d, 0x69, 0x6e, 0x75, 0x74, 0x65, 0x22, 0x3a];

/// The key framing `,"fiveMinutes":` as bytes.
const K_LOADAVG_1: [u8; 15] = [0x2c, 0x22, 0x66, 0x69, 0x76, 0x65, 0x4d, 0x69, 0x6e, 0x75, 0x74, 0x65, 0x73, 0x22, 0x3a];

/// The key framing `,"fifteenMinutes":` as bytes.
const K_LOADAVG_2: [u8; 18] = [0x2c, 0x22, 0x66, 0x69, 0x66, 0x74, 0x65, 0x65, 0x6e, 0x4d, 0x69, 0x6e, 0x75, 0x74, 0x65, 0x73, 0x22, 0x3a];

/// The key framing `{"usedMb":` as bytes.
const K_MEMORY_0: [u8; 10] = [0x7b, 0x22, 0x75, 0x73, 0x65, 0x64, 0x4d, 0x62, 0x22, 0x3a];

/// The key framing `,"totalMb":` as bytes.
const K_MEMORY_1: [u8; 11] = [0x2c, 0x22, 0x74, 0x6f, 0x74, 0x61, 0x6c, 0x4d, 0x62, 0x22, 0x3a];

/// The key framing `{"tcpInUse":` as bytes.
const K_SOCKETS_0: [u8; 12] = [0x7b, 0x22, 0x74, 0x63, 0x70, 0x49, 0x6e, 0x55, 0x73, 0x65, 0x22, 0x3a];

/// The key framing `,"tcpOrphaned":` as bytes.
const K_SOCKETS_1: [u8; 15] = [0x2c, 0x22, 0x74, 0x63, 0x70, 0x4f, 0x72, 0x70, 0x68, 0x61, 0x6e, 0x65, 0x64, 0x22, 0x3a];

/// The key framing `,"udpInUse":` as bytes.
const K_SOCKETS_2: [u8; 12] = [0x2c, 0x22, 0x75, 0x64, 0x70, 0x49, 0x6e, 0x55, 0x73, 0x65, 0x22, 0x3a];

/// The key framing `,"tcp6InUse":` as bytes.
const K_SOCKETS_3: [u8; 13] = [0x2c, 0x22, 0x74, 0x63, 0x70, 0x36, 0x49, 0x6e, 0x55, 0x73, 0x65, 0x22, 0x3a];

/// The key framing `,"udp6InUse":` as bytes.
const K_SOCKETS_4: [u8; 13] = [0x2c, 0x22, 0x75, 0x64, 0x70, 0x36, 0x49, 0x6e, 0x55, 0x73, 0x65, 0x22, 0x3a];

/// The key framing `{"fsType":` as bytes.
const K_MOUNT_0: [u8; 10] = [0x7b, 0x22, 0x66, 0x73, 0x54, 0x79, 0x70, 0x65, 0x22, 0x3a];

/// The key framing `,"mountedFrom":` as bytes.
const K_MOUNT_1: [u8; 15] = [0x2c, 0x22, 0x6d, 0x6f, 0x75, 0x6e, 0x74, 0x65, 0x64, 0x46, 0x72, 0x6f, 0x6d, 0x22, 0x3a];

/// The key framing `,"mountedOn":` as bytes.
const K_MOUNT_2: [u8; 13] = [0x2c, 0x22, 0x6d, 0x6f, 0x75, 0x6e, 0x74, 0x65, 0x64, 0x4f, 0x6e, 0x22, 0x3a];

/// The key framing `,"usedMb":` as bytes.
const K_MOUNT_3: [u8; 10] = [0x2c, 0x22, 0x75, 0x73, 0x65, 0x64, 0x4d, 0x62, 0x22, 0x3a];

/// The key framing `,"totalMb":` as bytes.
const K_MOUNT_4: [u8; 11] = [0x2c, 0x22, 0x74, 0x6f, 0x74, 0x61, 0x6c, 0x4d, 0x62, 0x22, 0x3a];

/// The key framing `{"name":` as bytes.
const K_IFACE_0: [u8; 8] = [0x7b, 0x22, 0x6e, 0x61, 0x6d, 0x65, 0x22, 0x3a];

/// The key framing `,"addresses":` as bytes.
const K_IFACE_1: [u8; 13] = [0x2c, 0x22, 0x61, 0x64, 0x64, 0x72, 0x65, 0x73, 0x73, 0x65, 0x73, 0x22, 0x3a];

/// The key framing `,"sentMb":` as bytes.
const K_IFACE_2: [u8; 10] = [0x2c, 0x22, 0x73, 0x65, 0x6e, 0x74, 0x4d, 0x62, 0x22, 0x3a];

/// The key framing `,"receivedMb":` as bytes.
const K_IFACE_3: [u8; 14] = [0x2c, 0x22, 0x72, 0x65, 0x63, 0x65, 0x69, 0x76, 0x65, 0x64, 0x4d, 0x62, 0x22, 0x3a];

/// The key framing `,"sentPackets":` as bytes.
const K_IFACE_4: [u8; 15] = [0x2c, 0x22, 0x73, 0x65, 0x6e, 0x74, 0x50, 0x61, 0x63, 0x6b, 0x65, 0x74, 0x73, 0x22, 0x3a];

/// The key framing `,"receivedPackets":` as bytes.
const K_IFACE_5: [u8; 19] = [0x2c, 0x22, 0x72, 0x65, 0x63, 0x65, 0x69, 0x76, 0x65, 0x64, 0x50, 0x61, 0x63, 0x6b, 0x65, 0x74, 0x73, 0x22, 0x3a];

/// The key framing `,"sendErrors":` as bytes.
const K_IFACE_6: [u8; 14] = [0x2c, 0x22, 0x73, 0x65, 0x6e, 0x64, 0x45, 0x72, 0x72, 0x6f, 0x72, 0x73, 0x22, 0x3a];

/// The key framing `,"receiveErrors":` as bytes.
const K_IFACE_7: [u8; 17] = [0x2c, 0x22, 0x72, 0x65, 0x63, 0x65, 0x69, 0x76, 0x65, 0x45, 0x72, 0x72, 0x6f, 0x72, 0x73, 0x22, 0x3a];

/// The key framing `{"uptimeSeconds":` as bytes.
const K_GENERAL_0: [u8; 17] = [0x7b, 0x22, 0x75, 0x70, 0x74, 0x69, 0x6d, 0x65, 0x53, 0x65, 0x63, 0x6f, 0x6e, 0x64, 0x73, 0x22, 0x3a];

/// The key framing `,"bootTimestamp":` as bytes.
const K_GENERAL_1: [u8; 17] = [0x2c, 0x22, 0x62, 0x6f, 0x6f, 0x74, 0x54, 0x69, 0x6d, 0x65, 0x73, 0x74, 0x61, 0x6d, 0x70, 0x22, 0x3a];

/// The key framing `,"loadAverages":` as bytes.
const K_GENERAL_2: [u8; 16] = [0x2c, 0x22, 0x6c, 0x6f, 0x61, 0x64, 0x41, 0x76, 0x65, 0x72, 0x61, 0x67, 0x65, 0x73, 0x22, 0x3a];

/// The key framing `{"perLogicalCpuLoadPercent":` as bytes.
const K_CPU_0: [u8; 28] = [0x7b, 0x22, 0x70, 0x65, 0x72, 0x4c, 0x6f, 0x67, 0x69, 0x63, 0x61, 0x6c, 0x43, 0x70, 0x75, 0x4c, 0x6f, 0x61, 0x64, 0x50, 0x65, 0x72, 0x63, 0x65, 0x6e, 0x74, 0x22, 0x3a];

/// The key framing `,"aggregateLoadPercent":` as bytes.
const K_CPU_1: [u8; 24] = [0x2c, 0x22, 0x61, 0x67, 0x67, 0x72, 0x65, 0x67, 0x61, 0x74, 0x65, 0x4c, 0x6f, 0x61, 0x64, 0x50, 0x65, 0x72, 0x63, 0x65, 0x6e, 0x74, 0x22, 0x3a];

/// The key framing `,"tempCelsius":` as bytes.
const K_CPU_2: [u8; 15] = [0x2c, 0x22, 0x74, 0x65, 0x6d, 0x70, 0x43, 0x65, 0x6c, 0x73, 0x69, 0x75, 0x73, 0x22, 0x3a];

/// The key framing `{"interfaces":` as bytes.
const K_NETWORK_0: [u8; 14] = [0x7b, 0x22, 0x69, 0x6e, 0x74, 0x65, 0x72, 0x66, 0x61, 0x63, 0x65, 0x73, 0x22, 0x3a];

/// The key framing `,"sockets":` as bytes.
const K_NETWORK_1: [u8; 11] = [0x2c, 0x22, 0x73, 0x6f, 0x63, 0x6b, 0x65, 0x74, 0x73, 0x22, 0x3a];

/// The key framing `{"general":` as bytes.
const K_ALLSTATS_0: [u8; 11] = [0x7b, 0x22, 0x67, 0x65, 0x6e, 0x65, 0x72, 0x61, 0x6c, 0x22, 0x3a];

/// The key framing `,"cpu":` as bytes.
const K_ALLSTATS_1: [u8; 7] = [0x2c, 0x22, 0x63, 0x70, 0x75, 0x22, 0x3a];

/// The key framing `,"memory":` as bytes.
const K_ALLSTATS_2: [u8; 10] = [0x2c, 0x22, 0x6d, 0x65, 0x6d, 0x6f, 0x72, 0x79, 0x22, 0x3a];

/// The key framing `,"filesystems":` as bytes.
const K_ALLSTATS_3: [u8; 15] = [0x2c, 0x22, 0x66, 0x69, 0x6c, 0x65, 0x73, 0x79, 0x73, 0x74, 0x65, 0x6d, 0x73, 0x22, 0x3a];

/// The key framing `,"network":` as bytes.
const K_ALLSTATS_4: [u8; 11] = [0x2c, 0x22, 0x6e, 0x65, 0x74, 0x77, 0x6f, 0x72, 0x6b, 0x22, 0x3a];

/// The key framing `,"collectionTime":` as bytes.
const K_ALLSTATS_5: [u8; 18] = [0x2c, 0x22, 0x63, 0x6f, 0x6c, 0x6c, 0x65, 0x63, 0x74, 0x69, 0x6f, 0x6e, 0x54, 0x69, 0x6d, 0x65, 0x22, 0x3a];

/// The closing brace as bytes.
const K_OBJ_END_B: [u8; 1] = [0x7d];

/// The literal `null` as bytes.
const K_NULL_B: [u8; 4] = [0x6e, 0x75, 0x6c, 0x6c];

/// Appends the encoding of a u64 list to `out`.
pub fn emit_list_u64(v: &Vec<u64>, out: &mut Vec<u8>)
    ensures
        final(out)@ == old(out)@ + enc_list(v@, e_u64()),
{
    out.push(0x5b);
    let ghost base = out@;
    let ghost vs = v@;
    let n = v.len();
    for i in 0..n
        invariant
            n == v@.len(),
            vs == v@,
            vs.len() == n,
            base == old(out)@ + seq![0x5bu8],
            out@ == base + crate::codec::enc_items(vs.take(i as int), e_u64()),
    {
        proof {
            assert(vs.take(i + 1).drop_last() =~= vs.take(i as int));
            assert(vs.take(i + 1).last() == vs[i as int]);
        }
        if i > 0 {
            out.push(0x2c);
        }
        emit_u64(v[i], out);
        proof {
            assert(out@ =~= base + crate::codec::enc_items(vs.take(i + 1), e_u64()));
        }
    }
    out.push(0x5d);
    proof {
        assert(vs.take(n as int) =~= vs);
        assert(out@ =~= old(out)@ + enc_list(v@, e_u64()));
    }
}

/// Appends the encoding of a bstr list to `out`.
pub fn emit_list_bstr(v: &Vec<Vec<u8>>, out: &mut Vec<u8>)
    ensures
        final(out)@ == old(out)@ + enc_list(bstrs_view(v@), e_bstr()),
{
    out.push(0x5b);
    let ghost base = out@;
    let ghost vs = bstrs_view(v@);
    let n = v.len();
    for i in 0..n
        invariant
            n == v@.len(),
            vs == bstrs_view(v@),
            vs.len() == n,
            base == old(out)@ + seq![0x5bu8],
            out@ == base + crate::codec::enc_items(vs.take(i as int), e_bstr()),
    {
        proof {
            assert(vs.take(i + 1).drop_last() =~= vs.take(i as int));
            assert(vs.take(i + 1).last() == vs[i as int]);
        }
        if i > 0 {
            out.push(0x2c);
        }
        emit_bstr(&v[i], out);
        proof {
            assert(out@ =~= base + crate::codec::enc_items(vs.take(i + 1), e_bstr()));
        }
    }
    out.push(0x5d);
    proof {
        assert(vs.take(n as int) =~= vs);
        assert(out@ =~= old(out)@ + enc_list(bstrs_view(v@), e_bstr()));
    }
}

/// Appends the encoding of a mount list to `out`.
pub fn emit_list_mount(v: &Vec<MountStats>, out: &mut Vec<u8>)
    ensures
        final(out)@ == old(out)@ + enc_list(mounts_view(v@), e_mount()),
{
    out.push(0x5b);
    let ghost base = out@;
    let ghost vs = mounts_view(v@);
    let n = v.len();
    for i in 0..n
        invariant
            n == v@.len(),
            vs == mounts_view(v@),
            vs.len() == n,
            base == old(out)@ + seq![0x5bu8],
            out@ == base + crate::codec::enc_items(vs.take(i as int), e_mount()),
    {
        proof {
            assert(vs.take(i + 1).drop_last() =~= vs.take(i as int));
            assert(vs.take(i + 1).last() == vs[i as int]);
        }
        if i > 0 {
            out.push(0x2c);
        }
        emit_mount(&v[i], out);
        proof {
            assert(out@ =~= base + crate::codec::enc_items(vs.take(i + 1), e_mount()));
        }
    }
    out.push(0x5d);
    proof {
        assert(vs.take(n as int) =~= vs);
        assert(out@ =~= old(out)@ + enc_list(mounts_view(v@), e_mount()));
    }
}

/// Appends the encoding of a iface list to `out`.
pub fn emit_list_iface(v: &Vec<NetworkInterfaceStats>, out: &mut Vec<u8>)
    ensures
        final(out)@ == old(out)@ + enc_list(ifaces_view(v@), e_iface()),
{
    out.push(0x5b);
    let ghost base = out@;
    let ghost vs = ifaces_view(v@);
    let n = v.len();
    for i in 0..n
        invariant
            n == v@.len(),
            vs == ifaces_view(v@),
            vs.len() == n,
            base == old(out)@ + seq![0x5bu8],
            out@ == base + crate::codec::enc_items(vs.take(i as int), e_iface()),
    {
        proof {
            assert(vs.take(i + 1).drop_last() =~= vs.take(i as int));
            assert(vs.take(i + 1).last() == vs[i as int]);
        }
        if i > 0 {
            out.push(0x2c);
        }
        emit_iface(&v[i], out);
        proof {
            assert(out@ =~= base + crate::codec::enc_items(vs.take(i + 1), e_iface()));
        }
    }
    out.push(0x5d);
    proof {
        assert(vs.take(n as int) =~= vs);
        assert(out@ =~= old(out)@ + enc_list(ifaces_view(v@), e_iface()));
    }
}

/// Appends the encoding of one `LoadAverages` record to `out`.
#[verifier::rlimit(100)]
pub fn emit_loadavg(v: &LoadAverages, out: &mut Vec<u8>)
    ensures
        final(out)@ == old(out)@ + enc_loadavg(*v),
{
    emit_lit(out, K_LOADAVG_0.as_slice());
    proof {
        assert(K_LOADAVG_0@ =~= k_loadavg_0());
    }
    emit_u64(v.one_minute, out);
    emit_lit(out, K_LOADAVG_1.as_slice());
    proof {
        assert(K_LOADAVG_1@ =~= k_loadavg_1());
    }
    emit_u64(v.five_minutes, out);
    emit_lit(out, K_LOADAVG_2.as_slice());
    proof {
        assert(K_LOADAVG_2@ =~= k_loadavg_2());
    }
    emit_u64(v.fifteen_minutes, out);
    emit_lit(out, K_OBJ_END_B.as_slice());
    proof {
        assert(K_OBJ_END_B@ =~= k_obj_end());
        assert(out@ =~= old(out)@ + enc_loadavg(*v));
    }
}

/// Appends the encoding of one `MemoryStats` record to `out`.
#[verifier::rlimit(100)]
pub fn emit_memory(v: &MemoryStats, out: &mut Vec<u8>)
    ensures
        final(out)@ == old(out)@ + enc_memory(*v),
{
    emit_lit(out, K_MEMORY_0.as_slice());
    proof {
        assert(K_MEMORY_0@ =~= k_memory_0());
    }
    emit_u64(v.used_mb, out);
    emit_lit(out, K_MEMORY_1.as_slice());
    proof {
        assert(K_MEMORY_1@ =~= k_memory_1());
    }
    emit_u64(v.total_mb, out);
    emit_lit(out, K_OBJ_END_B.as_slice());
    proof {
        assert(K_OBJ_END_B@ =~= k_obj_end());
        assert(out@ =~= old(out)@ + enc_memory(*v));
    }
}

/// Appends the encoding of one `SocketStats` record to `out`.
#[verifier::rlimit(100)]
pub fn emit_sockets(v: &SocketStats, out: &mut Vec<u8>)
    ensures
        final(out)@ == old(out)@ + enc_sockets(*v),
{
    emit_lit(out, K_SOCKETS_0.as_slice());
    proof {
        assert(K_SOCKETS_0@ =~= k_sockets_0());
    }
    emit_u64(v.tcp_in_use as u64, out);
    emit_lit(out, K_SOCKETS_1.as_slice());
    proof {
        assert(K_SOCKETS_1@ =~= k_sockets_1());
    }
    emit_u64(v.tcp_orphaned as u64, out);
    emit_lit(out, K_SOCKETS_2.as_slice());
    proof {
        assert(K_SOCKETS_2@ =~= k_sockets_2());
    }
    emit_u64(v.udp_in_use as u64, out);
    emit_lit(out, K_SOCKETS_3.as_slice());
    proof {
        assert(K_SOCKETS_3@ =~= k_sockets_3());
    }
    emit_u64(v.tcp6_in_use as u64, out);
    emit_lit(out, K_SOCKETS_4.as_slice());
    proof {
        assert(K_SOCKETS_4@ =~= k_sockets_4());
    }
    emit_u64(v.udp6_in_use as u64, out);
    emit_lit(out, K_OBJ_END_B.as_slice());
    proof {
        assert(K_OBJ_END_B@ =~= k_obj_end());
        assert(out@ =~= old(out)@ + enc_sockets(*v));
    }
}

/// Appends the encoding of one `MountStats` record to `out`.
#[verifier::rlimit(100)]
pub fn emit_mount(v: &MountStats, out: &mut Vec<u8>)
    ensures
        final(out)@ == old(out)@ + enc_mount(v@),
{
    emit_lit(out, K_MOUNT_0.as_slice());
    proof {
        assert(K_MOUNT_0@ =~= k_mount_0());
    }
    emit_bstr(&v.fs_type, out);
    emit_lit(out, K_MOUNT_1.as_slice());
    proof {
        assert(K_MOUNT_1@ =~= k_mount_1());
    }
    emit_bstr(&v.mounted_from, out);
    emit_lit(out, K_MOUNT_2.as_slice());
    proof {
        assert(K_MOUNT_2@ =~= k_mount_2());
    }
    emit_bstr(&v.mounted_on, out);
    emit_lit(out, K_MOUNT_3.as_slice());
    proof {
        assert(K_MOUNT_3@ =~= k_mount_3());
    }
    emit_u64(v.used_mb, out);
    emit_lit(out, K_MOUNT_4.as_slice());
    proof {
        assert(K_MOUNT_4@ =~= k_mount_4());
    }
    emit_u64(v.total_mb, out);
    emit_lit(out, K_OBJ_END_B.as_slice());
    proof {
        assert(K_OBJ_END_B@ =~= k_obj_end());
        assert(out@ =~= old(out)@ + enc_mount(v@));
    }
}

/// Appends the encoding of one `NetworkInterfaceStats` record to `out`.
#[verifier::rlimit(100)]
pub fn emit_iface(v: &NetworkInterfaceStats, out: &mut Vec<u8>)
    ensures
        final(out)@ == old(out)@ + enc_iface(v@),
{
    emit_lit(out, K_IFACE_0.as_slice());
    proof {
        assert(K_IFACE_0@ =~= k_iface_0());
    }
    emit_bstr(&v.name, out);
    emit_lit(out, K_IFACE_1.as_slice());
    proof {
        assert(K_IFACE_1@ =~= k_iface_1());
    }
    emit_list_bstr(&v.addresses, out);
    emit_lit(out, K_IFACE_2.as_slice());
    proof {
        assert(K_IFACE_2@ =~= k_iface_2());
    }
    emit_u64(v.sent_mb, out);
    emit_lit(out, K_IFACE_3.as_slice());
    proof {
        assert(K_IFACE_3@ =~= k_iface_3());
    }
    emit_u64(v.received_mb, out);
    emit_lit(out, K_IFACE_4.as_slice());
    proof {
        assert(K_IFACE_4@ =~= k_iface_4());
    }
    emit_u64(v.sent_packets, out);
    emit_lit(out, K_IFACE_5.as_slice());
    proof {
        assert(K_IFACE_5@ =~= k_iface_5());
    }
    emit_u64(v.received_packets, out);
    emit_lit(out, K_IFACE_6.as_slice());
    proof {
        assert(K_IFACE_6@ =~= k_iface_6());
    }
    emit_u64(v.send_errors, out);
    emit_lit(out, K_IFACE_7.as_slice());
    proof {
        assert(K_IFACE_7@ =~= k_iface_7());
    }
    emit_u64(v.receive_errors, out);
    emit_lit(out, K_OBJ_END_B.as_slice());
    proof {
        assert(K_OBJ_END_B@ =~= k_obj_end());
        assert(out@ =~= old(out)@ + enc_iface(v@));
    }
}

/// Appends the encoding of one `GeneralStats` record to `out`.
#[verifier::rlimit(100)]
pub fn emit_general(v: &GeneralStats, out: &mut Vec<u8>)
    ensures
        final(out)@ == old(out)@ + enc_general(*v),
{
    emit_lit(out, K_GENERAL_0.as_slice());
    proof {
        assert(K_GENERAL_0@ =~= k_general_0());
    }
    let ghost g0 = out@;
    match &v.uptime_seconds {
        Some(x) => {
            emit_u64(*x, out);
            proof {
                assert(out@ == g0 + enc_opt(v.uptime_seconds, e_u64()));
            }
        },
        None => {
            emit_lit(out, K_NULL_B.as_slice());
            proof {
                assert(K_NULL_B@ =~= lit_null());
                assert(out@ == g0 + enc_opt(v.uptime_seconds, e_u64()));
            }
        },
    }
    emit_lit(out, K_GENERAL_1.as_slice());
    proof {
        assert(K_GENERAL_1@ =~= k_general_1());
    }
    let ghost g1 = out@;
    match &v.boot_timestamp {
        Some(x) => {
            emit_i64(*x, out);
            proof {
                assert(out@ == g1 + enc_opt(v.boot_timestamp, e_i64()));
            }
        },
        None => {
            emit_lit(out, K_NULL_B.as_slice());
            proof {
                assert(K_NULL_B@ =~= lit_null());
                assert(out@ == g1 + enc_opt(v.boot_timestamp, e_i64()));
            }
        },
    }
    emit_lit(out, K_GENERAL_2.as_slice());
    proof {
        assert(K_GENERAL_2@ =~= k_general_2());
    }
    let ghost g2 = out@;
    match &v.load_averages {
        Some(x) => {
            emit_loadavg(x, out);
            proof {
                assert(out@ == g2 + enc_opt(v.load_averages, e_loadavg()));
            }
        },
        None => {
            emit_lit(out, K_NULL_B.as_slice());
            proof {
                assert(K_NULL_B@ =~= lit_null());
                assert(out@ == g2 + enc_opt(v.load_averages, e_loadavg()));
            }
        },
    }
    emit_lit(out, K_OBJ_END_B.as_slice());
    proof {
        assert(K_OBJ_END_B@ =~= k_obj_end());
        assert(out@ =~= old(out)@ + enc_general(*v));
    }
}

/// Appends the encoding of one `CpuStats` record to `out`.
#[verifier::rlimit(100)]
pub fn emit_cpu(v: &CpuStats, out: &mut Vec<u8>)
    ensures
        final(out)@ == old(out)@ + enc_cpu(v@),
{
    emit_lit(out, K_CPU_0.as_slice());
    proof {
        assert(K_CPU_0@ =~= k_cpu_0());
    }
    let ghost g0 = out@;
    match &v.per_logical_cpu_load_percent {
        Some(x) => {
            emit_list_u64(x, out);
            proof {
                assert(out@ == g0 + enc_opt(v@.per_logical_cpu_load_percent, e_list_u64()));
            }
        },
        None => {
            emit_lit(out, K_NULL_B.as_slice());
            proof {
                assert(K_NULL_B@ =~= lit_null());
                assert(out@ == g0 + enc_opt(v@.per_logical_cpu_load_percent, e_list_u64()));
            }
        },
    }
    emit_lit(out, K_CPU_1.as_slice());
    proof {
        assert(K_CPU_1@ =~= k_cpu_1());
    }
    let ghost g1 = out@;
    match &v.aggregate_load_percent {
        Some(x) => {
            emit_u64(*x, out);
            proof {
                assert(out@ == g1 + enc_opt(v@.aggregate_load_percent, e_u64()));
            }
        },
        None => {
            emit_lit(out, K_NULL_B.as_slice());
            proof {
                assert(K_NULL_B@ =~= lit_null());
                assert(out@ == g1 + enc_opt(v@.aggregate_load_percent, e_u64()));
            }
        },
    }
    emit_lit(out, K_CPU_2.as_slice());
    proof {
        assert(K_CPU_2@ =~= k_cpu_2());
    }
    let ghost g2 = out@;
    match &v.temp_celsius {
        Some(x) => {
            emit_i64(*x, out);
            proof {
                assert(out@ == g2 + enc_opt(v@.temp_celsius, e_i64()));
            }
        },
        None => {
            emit_lit(out, K_NULL_B.as_slice());
            proof {
                assert(K_NULL_B@ =~= lit_null());
                assert(out@ == g2 + enc_opt(v@.temp_celsius, e_i64()));
            }
        },
    }
    emit_lit(out, K_OBJ_END_B.as_slice());
    proof {
        assert(K_OBJ_END_B@ =~= k_obj_end());
        assert(out@ =~= old(out)@ + enc_cpu(v@));
    }
}

/// Appends the encoding of one `NetworkStats` record to `out`.
#[verifier::rlimit(100)]
pub fn emit_network(v: &NetworkStats, out: &mut Vec<u8>)
    ensures
        final(out)@ == old(out)@ + enc_network(v@),
{
    emit_lit(out, K_NETWORK_0.as_slice());
    proof {
        assert(K_NETWORK_0@ =~= k_network_0());
    }
    let ghost g0 = out@;
    match &v.interfaces {
        Some(x) => {
            emit_list_iface(x, out);
            proof {
                assert(out@ == g0 + enc_opt(v@.interfaces, e_list_iface()));
            }
        },
        None => {
            emit_lit(out, K_NULL_B.as_slice());
            proof {
                assert(K_NULL_B@ =~= lit_null());
                assert(out@ == g0 + enc_opt(v@.interfaces, e_list_iface()));
            }
        },
    }
    emit_lit(out, K_NETWORK_1.as_slice());
    proof {
        assert(K_NETWORK_1@ =~= k_network_1());
    }
    let ghost g1 = out@;
    match &v.sockets {
        Some(x) => {
            emit_sockets(x, out);
            proof {
                assert(out@ == g1 + enc_opt(v@.sockets, e_sockets()));
            }
        },
        None => {
            emit_lit(out, K_NULL_B.as_slice());
            proof {
                assert(K_NULL_B@ =~= lit_null());
                assert(out@ == g1 + enc_opt(v@.sockets, e_sockets()));
            }
        },
    }
    emit_lit(out, K_OBJ_END_B.as_slice());
    proof {
        assert(K_OBJ_END_B@ =~= k_obj_end());
        assert(out@ =~= old(out)@ + enc_network(v@));
    }
}

/// Appends the encoding of one `AllStats` record to `out`.
#[verifier::rlimit(100)]
pub fn emit_allstats(v: &AllStats, out: &mut Vec<u8>)
    ensures
        final(out)@ == old(out)@ + enc_allstats(v@),
{
    emit_lit(out, K_ALLSTATS_0.as_slice());
    proof {
        assert(K_ALLSTATS_0@ =~= k_allstats_0());
    }
    emit_general(&v.general, out);
    emit_lit(out, K_ALLSTATS_1.as_slice());
    proof {
        assert(K_ALLSTATS_1@ =~= k_allstats_1());
    }
    emit_cpu(&v.cpu, out);
    emit_lit(out, K_ALLSTATS_2.as_slice());
    proof {
        assert(K_ALLSTATS_2@ =~= k_allstats_2());
    }
    let ghost g2 = out@;
    match &v.memory {
        Some(x) => {
            emit_memory(x, out);
            proof {
                assert(out@ == g2 + enc_opt(v@.memory, e_memory()));
            }
        },
        None => {
            emit_lit(out, K_NULL_B.as_slice());
            proof {
                assert(K_NULL_B@ =~= lit_null());
                assert(out@ == g2 + enc_opt(v@.memory, e_memory()));
            }
        },
    }
    emit_lit(out, K_ALLSTATS_3.as_slice());
    proof {
        assert(K_ALLSTATS_3@ =~= k_allstats_3());
    }
    let ghost g3 = out@;
    match &v.filesystems {
        Some(x) => {
            emit_list_mount(x, out);
            proof {
                assert(out@ == g3 + enc_opt(v@.filesystems, e_list_mount()));
            }
        },
        None => {
            emit_lit(out, K_NULL_B.as_slice());
            proof {
                assert(K_NULL_B@ =~= lit_null());
                assert(out@ == g3 + enc_opt(v@.filesystems, e_list_mount()));
            }
        },
    }
    emit_lit(out, K_ALLSTATS_4.as_slice());
    proof {
        assert(K_ALLSTATS_4@ =~= k_allstats_4());
    }
    emit_network(&v.network, out);
    emit_lit(out, K_ALLSTATS_5.as_slice());
    proof {
        assert(K_ALLSTATS_5@ =~= k_allstats_5());
    }
    emit_i64(v.collection_time, out);
    emit_lit(out, K_OBJ_END_B.as_slice());
    proof {
        assert(K_OBJ_END_B@ =~= k_obj_end());
        assert(out@ =~= old(out)@ + enc_allstats(v@));
    }
}

/// Parses a u64 list.
pub fn parse_list_u64(s: &[u8], pos: usize) -> (r: Option<(Vec<u64>, usize)>)
    requires
        pos <= s@.len(),
    ensures
        match r {
            Some(p) => dec_list(s@, pos as int, p_u64()) == Some((p.0@, p.1 as int))
                && pos < p.1 <= s@.len(),
            None => dec_list(s@, pos as int, p_u64()) is None,
        },
{
    if !(pos < s.len() && s[pos] == 0x5b) {
        return None;
    }
    if pos + 1 < s.len() && s[pos + 1] == 0x5d {
        let empty: Vec<u64> = Vec::new();
        proof {
            assert(empty@ =~= Seq::<u64>::empty());
        }
        return Some((empty, pos + 2));
    }
    let mut acc: Vec<u64> = Vec::new();
    let mut i = pos + 1;
    loop
        invariant
            pos + 1 <= i <= s@.len(),
            pos < s@.len(),
            s@[pos as int] == 0x5b,
            !(pos + 1 < s@.len() && s@[pos as int + 1] == 0x5d),
            crate::codec::dec_items(s@, pos as int + 1, p_u64()) == (match crate::codec::dec_items(
                s@,
                i as int,
                p_u64(),
            ) {
                Some((rest, e)) => Some((acc@ + rest, e)),
                None => None::<(Seq<u64>, int)>,
            }),
        decreases s@.len() - i,
    {
        let (v, e) = match parse_u64(s, i) {
            Some(p) => p,
            None => {
                return None;
            },
        };
        let ghost vv = v;
        let ghost pre = acc@;
        acc.push(v);
        proof {
            assert(acc@ =~= pre.push(vv));
        }
        if e < s.len() && s[e] == 0x2c {
            proof {
                let d = crate::codec::dec_items(s@, e as int + 1, p_u64());
                match d {
                    Some((rest, re)) => {
                        assert(pre + (seq![vv] + rest) =~= acc@ + rest);
                    },
                    None => {},
                }
            }
            i = e + 1;
        } else if e < s.len() && s[e] == 0x5d {
            proof {
                assert(crate::codec::dec_items(s@, i as int, p_u64()) == Some((seq![vv], e + 1)));
                assert(pre + seq![vv] =~= acc@);
            }
            return Some((acc, e + 1));
        } else {
            return None;
        }
    }
}

/// Parses a bstr list.
pub fn parse_list_bstr(s: &[u8], pos: usize) -> (r: Option<(Vec<Vec<u8>>, usize)>)
    requires
        pos <= s@.len(),
    ensures
        match r {
            Some(p) => dec_list(s@, pos as int, p_bstr()) == Some((bstrs_view(p.0@), p.1 as int))
                && pos < p.1 <= s@.len(),
            None => dec_list(s@, pos as int, p_bstr()) is None,
        },
{
    if !(pos < s.len() && s[pos] == 0x5b) {
        return None;
    }
    if pos + 1 < s.len() && s[pos + 1] == 0x5d {
        let empty: Vec<Vec<u8>> = Vec::new();
        proof {
            assert(bstrs_view(empty@) =~= Seq::<Seq<u8>>::empty());
        }
        return Some((empty, pos + 2));
    }
    let mut acc: Vec<Vec<u8>> = Vec::new();
    let mut i = pos + 1;
    loop
        invariant
            pos + 1 <= i <= s@.len(),
            pos < s@.len(),
            s@[pos as int] == 0x5b,
            !(pos + 1 < s@.len() && s@[pos as int + 1] == 0x5d),
            crate::codec::dec_items(s@, pos as int + 1, p_bstr()) == (match crate::codec::dec_items(
                s@,
                i as int,
                p_bstr(),
            ) {
                Some((rest, e)) => Some((bstrs_view(acc@) + rest, e)),
                None => None::<(Seq<Seq<u8>>, int)>,
            }),
        decreases s@.len() - i,
    {
        let (v, e) = match parse_bstr(s, i) {
            Some(p) => p,
            None => {
                return None;
            },
        };
        let ghost vv = v@;
        let ghost pre = bstrs_view(acc@);
        acc.push(v);
        proof {
            assert(bstrs_view(acc@) =~= pre.push(vv));
        }
        if e < s.len() && s[e] == 0x2c {
            proof {
                let d = crate::codec::dec_items(s@, e as int + 1, p_bstr());
                match d {
                    Some((rest, re)) => {
                        assert(pre + (seq![vv] + rest) =~= bstrs_view(acc@) + rest);
                    },
                    None => {},
                }
            }
            i = e + 1;
        } else if e < s.len() && s[e] == 0x5d {
            proof {
                assert(crate::codec::dec_items(s@, i as int, p_bstr()) == Some((seq![vv], e + 1)));
                assert(pre + seq![vv] =~= bstrs_view(acc@));
            }
            return Some((acc, e + 1));
        } else {
            return None;
        }
    }
}

/// Parses a mount list.
pub fn parse_list_mount(s: &[u8], pos: usize) -> (r: Option<(Vec<MountStats>, usize)>)
    requires
        pos <= s@.len(),
    ensures
        match r {
            Some(p) => dec_list(s@, pos as int, p_mount()) == Some((mounts_view(p.0@), p.1 as int))
                && pos < p.1 <= s@.len(),
            None => dec_list(s@, pos as int, p_mount()) is None,
        },
{
    if !(pos < s.len() && s[pos] == 0x5b) {
        return None;
    }
    if pos + 1 < s.len() && s[pos + 1] == 0x5d {
        let empty: Vec<MountStats> = Vec::new();
        proof {
            assert(mounts_view(empty@) =~= Seq::<MountStatsV>::empty());
        }
        return Some((empty, pos + 2));
    }
    let mut acc: Vec<MountStats> = Vec::new();
    let mut i = pos + 1;
    loop
        invariant
            pos + 1 <= i <= s@.len(),
            pos < s@.len(),
            s@[pos as int] == 0x5b,
            !(pos + 1 < s@.len() && s@[pos as int + 1] == 0x5d),
            crate::codec::dec_items(s@, pos as int + 1, p_mount()) == (match crate::codec::dec_items(
                s@,
                i as int,
                p_mount(),
            ) {
                Some((rest, e)) => Some((mounts_view(acc@) + rest, e)),
                None => None::<(Seq<MountStatsV>, int)>,
            }),
        decreases s@.len() - i,
    {
        let (v, e) = match parse_mount(s, i) {
            Some(p) => p,
            None => {
                return None;
            },
        };
        let ghost vv = v@;
        let ghost pre = mounts_view(acc@);
        acc.push(v);
        proof {
            assert(mounts_view(acc@) =~= pre.push(vv));
        }
        if e < s.len() && s[e] == 0x2c {
            proof {
                let d = crate::codec::dec_items(s@, e as int + 1, p_mount());
                match d {
                    Some((rest, re)) => {
                        assert(pre + (seq![vv] + rest) =~= mounts_view(acc@) + rest);
                    },
                    None => {},
                }
            }
            i = e + 1;
        } else if e < s.len() && s[e] == 0x5d {
            proof {
                assert(crate::codec::dec_items(s@, i as int, p_mount()) == Some((seq![vv], e + 1)));
                assert(pre + seq![vv] =~= mounts_view(acc@));
            }
            return Some((acc, e + 1));
        } else {
            return None;
        }
    }
}

/// Parses a iface list.
pub fn parse_list_iface(s: &[u8], pos: usize) -> (r: Option<(Vec<NetworkInterfaceStats>, usize)>)
    requires
        pos <= s@.len(),
    ensures
        match r {
            Some(p) => dec_list(s@, pos as int, p_iface()) == Some((ifaces_view(p.0@), p.1 as int))
                && pos < p.1 <= s@.len(),
            None => dec_list(s@, pos as int, p_iface()) is None,
        },
{
    if !(pos < s.len() && s[pos] == 0x5b) {
        return None;
    }
    if pos + 1 < s.len() && s[pos + 1] == 0x5d {
        let empty: Vec<NetworkInterfaceStats> = Vec::new();
        proof {
            assert(ifaces_view(empty@) =~= Seq::<NetworkInterfaceStatsV>::empty());
        }
        return Some((empty, pos + 2));
    }
    let mut acc: Vec<NetworkInterfaceStats> = Vec::new();
    let mut i = pos + 1;
    loop
        invariant
            pos + 1 <= i <= s@.len(),
            pos < s@.len(),
            s@[pos as int] == 0x5b,
            !(pos + 1 < s@.len() && s@[pos as int + 1] == 0x5d),
            crate::codec::dec_items(s@, pos as int + 1, p_iface()) == (match crate::codec::dec_items(
                s@,
                i as int,
                p_iface(),
            ) {
                Some((rest, e)) => Some((ifaces_view(acc@) + rest, e)),
                None => None::<(Seq<NetworkInterfaceStatsV>, int)>,
            }),
        decreases s@.len() - i,
    {
        let (v, e) = match parse_iface(s, i) {
            Some(p) => p,
            None => {
                return None;
            },
        };
        let ghost vv = v@;
        let ghost pre = ifaces_view(acc@);
        acc.push(v);
        proof {
            assert(ifaces_view(acc@) =~= pre.push(vv));
        }
        if e < s.len() && s[e] == 0x2c {
            proof {
                let d = crate::codec::dec_items(s@, e as int + 1, p_iface());
                match d {
                    Some((rest, re)) => {
                        assert(pre + (seq![vv] + rest) =~= ifaces_view(acc@) + rest);
                    },
                    None => {},
                }
            }
            i = e + 1;
        } else if e < s.len() && s[e] == 0x5d {
            proof {
                assert(crate::codec::dec_items(s@, i as int, p_iface()) == Some((seq![vv], e + 1)));
                assert(pre + seq![vv] =~= ifaces_view(acc@));
            }
            return Some((acc, e + 1));
        } else {
            return None;
        }
    }
}

/// Parses a machine word.
pub fn parse_usize(s: &[u8], pos: usize) -> (r: Option<(usize, usize)>)
    requires
        pos <= s@.len(),
    ensures
        match r {
            Some(p) => dec_usize(s@, pos as int) == Some((p.0, p.1 as int)) && pos < p.1
                <= s@.len(),
            None => dec_usize(s@, pos as int) is None,
        },
{
    match parse_u64(s, pos) {
        None => None,
        Some((v, end)) => {
            if v > usize::MAX as u64 {
                None
            } else {
                Some((v as usize, end))
            }
        },
    }
}

/// Parses one `LoadAverages` record.
#[verifier::rlimit(100)]
pub fn parse_loadavg(s: &[u8], pos: usize) -> (r: Option<(LoadAverages, usize)>)
    requires
        pos <= s@.len(),
    ensures
        match r {
            Some(p) => dec_loadavg(s@, pos as int) == Some((p.0, p.1 as int)) && pos < p.1
                <= s@.len(),
            None => dec_loadavg(s@, pos as int) is None,
        },
{
    proof {
        reveal(dec_loadavg);
    }
    let l0 = K_LOADAVG_0.as_slice();
    proof {
        assert(K_LOADAVG_0@ =~= k_loadavg_0());
    }
    let p0 = match eat_lit(s, pos, l0) {
        Some(q) => q,
        None => {
            return None;
        },
    };
    let (x0, q0) = match parse_u64(s, p0) {
        Some(p) => p,
        None => {
            return None;
        },
    };
    let l1 = K_LOADAVG_1.as_slice();
    proof {
        assert(K_LOADAVG_1@ =~= k_loadavg_1());
    }
    let p1 = match eat_lit(s, q0, l1) {
        Some(q) => q,
        None => {
            return None;
        },
    };
    let (x1, q1) = match parse_u64(s, p1) {
        Some(p) => p,
        None => {
            return None;
        },
    };
    let l2 = K_LOADAVG_2.as_slice();
    proof {
        assert(K_LOADAVG_2@ =~= k_loadavg_2());
    }
    let p2 = match eat_lit(s, q1, l2) {
        Some(q) => q,
        None => {
            return None;
        },
    };
    let (x2, q2) = match parse_u64(s, p2) {
        Some(p) => p,
        None => {
            return None;
        },
    };
    let lend = K_OBJ_END_B.as_slice();
    proof {
        assert(K_OBJ_END_B@ =~= k_obj_end());
    }
    let qend = match eat_lit(s, q2, lend) {
        Some(q) => q,
        None => {
            return None;
        },
    };
    Some((LoadAverages { one_minute: x0, five_minutes: x1, fifteen_minutes: x2 }, qend))
}

/// Parses one `MemoryStats` record.
#[verifier::rlimit(100)]
pub fn parse_memory(s: &[u8], pos: usize) -> (r: Option<(MemoryStats, usize)>)
    requires
        pos <= s@.len(),
    ensures
        match r {
            Some(p) => dec_memory(s@, pos as int) == Some((p.0, p.1 as int)) && pos < p.1
                <= s@.len(),
            None => dec_memory(s@, pos as int) is None,
        },
{
    proof {
        reveal(dec_memory);
    }
    let l0 = K_MEMORY_0.as_slice();
    proof {
        assert(K_MEMORY_0@ =~= k_memory_0());
    }
    let p0 = match eat_lit(s, pos, l0) {
        Some(q) => q,
        None => {
            return None;
        },
    };
    let (x0, q0) = match parse_u64(s, p0) {
        Some(p) => p,
        None => {
            return None;
        },
    };
    let l1 = K_MEMORY_1.as_slice();
    proof {
        assert(K_MEMORY_1@ =~= k_memory_1());
    }
    let p1 = match eat_lit(s, q0, l1) {
        Some(q) => q,
        None => {
            return None;
        },
    };
    let (x1, q1) = match parse_u64(s, p1) {
        Some(p) => p,
        None => {
            return None;
        },
    };
    let lend = K_OBJ_END_B.as_slice();
    proof {
        assert(K_OBJ_END_B@ =~= k_obj_end());
    }
    let qend = match eat_lit(s, q1, lend) {
        Some(q) => q,
        None => {
            return None;
        },
    };
    Some((MemoryStats { used_mb: x0, total_mb: x1 }, qend))
}

/// Parses one `SocketStats` record.
#[verifier::rlimit(100)]
pub fn parse_sockets(s: &[u8], pos: usize) -> (r: Option<(SocketStats, usize)>)
    requires
        pos <= s@.len(),
    ensures
        match r {
            Some(p) => dec_sockets(s@, pos as int) == Some((p.0, p.1 as int)) && pos < p.1
                <= s@.len(),
            None => dec_sockets(s@, pos as int) is None,
        },
{
    proof {
        reveal(dec_sockets);
    }
    let l0 = K_SOCKETS_0.as_slice();
    proof {
        assert(K_SOCKETS_0@ =~= k_sockets_0());
    }
    let p0 = match eat_lit(s, pos, l0) {
        Some(q) => q,
        None => {
            return None;
        },
    };
    let (x0, q0) = match parse_usize(s, p0) {
        Some(p) => p,
        None => {
            return None;
        },
    };
    let l1 = K_SOCKETS_1.as_slice();
    proof {
        assert(K_SOCKETS_1@ =~= k_sockets_1());
    }
    let p1 = match eat_lit(s, q0, l1) {
        Some(q) => q,
        None => {
            return None;
        },
    };
    let (x1, q1) = match parse_usize(s, p1) {
        Some(p) => p,
        None => {
            return None;
        },
    };
    let l2 = K_SOCKETS_2.as_slice();
    proof {
        assert(K_SOCKETS_2@ =~= k_sockets_2());
    }
    let p2 = match eat_lit(s, q1, l2) {
        Some(q) => q,
        None => {
            return None;
        },
    };
    let (x2, q2) = match parse_usize(s, p2) {
        Some(p) => p,
        None => {
            return None;
        },
    };
    let l3 = K_SOCKETS_3.as_slice();
    proof {
        assert(K_SOCKETS_3@ =~= k_sockets_3());
    }
    let p3 = match eat_lit(s, q2, l3) {
        Some(q) => q,
        None => {
            return None;
        },
    };
    let (x3, q3) = match parse_usize(s, p3) {
        Some(p) => p,
        None => {
            return None;
        },
    };
    let l4 = K_SOCKETS_4.as_slice();
    proof {
        assert(K_SOCKETS_4@ =~= k_sockets_4());
    }
    let p4 = match eat_lit(s, q3, l4) {
        Some(q) => q,
        None => {
            return None;
        },
    };
    let (x4, q4) = match parse_usize(s, p4) {
        Some(p) => p,
        None => {
            return None;
        },
    };
    let lend = K_OBJ_END_B.as_slice();
    proof {
        assert(K_OBJ_END_B@ =~= k_obj_end());
    }
    let qend = match eat_lit(s, q4, lend) {
        Some(q) => q,
        None => {
            return None;
        },
    };
    Some((SocketStats { tcp_in_use: x0, tcp_orphaned: x1, udp_in_use: x2, tcp6_in_use: x3, udp6_in_use: x4 }, qend))
}

/// Parses one `MountStats` record.
#[verifier::rlimit(100)]
pub fn parse_mount(s: &[u8], pos: usize) -> (r: Option<(MountStats, usize)>)
    requires
        pos <= s@.len(),
    ensures
        match r {
            Some(p) => dec_mount(s@, pos as int) == Some((p.0@, p.1 as int)) && pos < p.1
                <= s@.len(),
            None => dec_mount(s@, pos as int) is None,
        },
{
    proof {
        reveal(dec_mount);
    }
    let l0 = K_MOUNT_0.as_slice();
    proof {
        assert(K_MOUNT_0@ =~= k_mount_0());
    }
    let p0 = match eat_lit(s, pos, l0) {
        Some(q) => q,
        None => {
            return None;
        },
    };
    let (x0, q0) = match parse_bstr(s, p0) {
        Some(p) => p,
        None => {
            return None;
        },
    };
    let l1 = K_MOUNT_1.as_slice();
    proof {
        assert(K_MOUNT_1@ =~= k_mount_1());
    }
    let p1 = match eat_lit(s, q0, l1) {
        Some(q) => q,
        None => {
            return None;
        },
    };
    let (x1, q1) = match parse_bstr(s, p1) {
        Some(p) => p,
        None => {
            return None;
        },
    };
    let l2 = K_MOUNT_2.as_slice();
    proof {
        assert(K_MOUNT_2@ =~= k_mount_2());
    }
    let p2 = match eat_lit(s, q1, l2) {
        Some(q) => q,
        None => {
            return None;
        },
    };
    let (x2, q2) = match parse_bstr(s, p2) {
        Some(p) => p,
        None => {
            return None;
        },
    };
    let l3 = K_MOUNT_3.as_slice();
    proof {
        assert(K_MOUNT_3@ =~= k_mount_3());
    }
    let p3 = match eat_lit(s, q2, l3) {
        Some(q) => q,
        None => {
            return None;
        },
    };
    let (x3, q3) = match parse_u64(s, p3) {
        Some(p) => p,
        None => {
            return None;
        },
    };
    let l4 = K_MOUNT_4.as_slice();
    proof {
        assert(K_MOUNT_4@ =~= k_mount_4());
    }
    let p4 = match eat_lit(s, q3, l4) {
        Some(q) => q,
        None => {
            return None;
        },
    };
    let (x4, q4) = match parse_u64(s, p4) {
        Some(p) => p,
        None => {
            return None;
        },
    };
    let lend = K_OBJ_END_B.as_slice();
    proof {
        assert(K_OBJ_END_B@ =~= k_obj_end());
    }
    let qend = match eat_lit(s, q4, lend) {
        Some(q) => q,
        None => {
            return None;
        },
    };
    Some((MountStats { fs_type: x0, mounted_from: x1, mounted_on: x2, used_mb: x3, total_mb: x4 }, qend))
}

/// Parses one `NetworkInterfaceStats` record.
#[verifier::rlimit(100)]
pub fn parse_iface(s: &[u8], pos: usize) -> (r: Option<(NetworkInterfaceStats, usize)>)
    requires
        pos <= s@.len(),
    ensures
        match r {
            Some(p) => dec_iface(s@, pos as int) == Some((p.0@, p.1 as int)) && pos < p.1
                <= s@.len(),
            None => dec_iface(s@, pos as int) is None,
        },
{
    proof {
        reveal(dec_iface);
    }
    let l0 = K_IFACE_0.as_slice();
    proof {
        assert(K_IFACE_0@ =~= k_iface_0());
    }
    let p0 = match eat_lit(s, pos, l0) {
        Some(q) => q,
        None => {
            return None;
        },
    };
    let (x0, q0) = match parse_bstr(s, p0) {
        Some(p) => p,
        None => {
            return None;
        },
    };
    let l1 = K_IFACE_1.as_slice();
    proof {
        assert(K_IFACE_1@ =~= k_iface_1());
    }
    let p1 = match eat_lit(s, q0, l1) {
        Some(q) => q,
        None => {
            return None;
        },
    };
    let (x1, q1) = match parse_list_bstr(s, p1) {
        Some(p) => p,
        None => {
            return None;
        },
    };
    let l2 = K_IFACE_2.as_slice();
    proof {
        assert(K_IFACE_2@ =~= k_iface_2());
    }
    let p2 = match eat_lit(s, q1, l2) {
        Some(q) => q,
        None => {
            return None;
        },
    };
    let (x2, q2) = match parse_u64(s, p2) {
        Some(p) => p,
        None => {
            return None;
        },
    };
    let l3 = K_IFACE_3.as_slice();
    proof {
        assert(K_IFACE_3@ =~= k_iface_3());
    }
    let p3 = match eat_lit(s, q2, l3) {
        Some(q) => q,
        None => {
            return None;
        },
    };
    let (x3, q3) = match parse_u64(s, p3) {
        Some(p) => p,
        None => {
            return None;
        },
    };
    let l4 = K_IFACE_4.as_slice();
    proof {
        assert(K_IFACE_4@ =~= k_iface_4());
    }
    let p4 = match eat_lit(s, q3, l4) {
        Some(q) => q,
        None => {
            return None;
        },
    };
    let (x4, q4) = match parse_u64(s, p4) {
        Some(p) => p,
        None => {
            return None;
        },
    };
    let l5 = K_IFACE_5.as_slice();
    proof {
        assert(K_IFACE_5@ =~= k_iface_5());
    }
    let p5 = match eat_lit(s, q4, l5) {
        Some(q) => q,
        None => {
            return None;
        },
    };
    let (x5, q5) = match parse_u64(s, p5) {
        Some(p) => p,
        None => {
            return None;
        },
    };
    let l6 = K_IFACE_6.as_slice();
    proof {
        assert(K_IFACE_6@ =~= k_iface_6());
    }
    let p6 = match eat_lit(s, q5, l6) {
        Some(q) => q,
        None => {
            return None;
        },
    };
    let (x6, q6) = match parse_u64(s, p6) {
        Some(p) => p,
        None => {
            return None;
        },
    };
    let l7 = K_IFACE_7.as_slice();
    proof {
        assert(K_IFACE_7@ =~= k_iface_7());
    }
    let p7 = match eat_lit(s, q6, l7) {
        Some(q) => q,
        None => {
            return None;
        },
    };
    let (x7, q7) = match parse_u64(s, p7) {
        Some(p) => p,
        None => {
            return None;
        },
    };
    let lend = K_OBJ_END_B.as_slice();
    proof {
        assert(K_OBJ_END_B@ =~= k_obj_end());
    }
    let qend = match eat_lit(s, q7, lend) {
        Some(q) => q,
        None => {
            return None;
        },
    };
    Some((NetworkInterfaceStats { name: x0, addresses: x1, sent_mb: x2, received_mb: x3, sent_packets: x4, received_packets: x5, send_errors: x6, receive_errors: x7 }, qend))
}

/// Parses one `GeneralStats` record.
#[verifier::rlimit(100)]
pub fn parse_general(s: &[u8], pos: usize) -> (r: Option<(GeneralStats, usize)>)
    requires
        pos <= s@.len(),
    ensures
        match r {
            Some(p) => dec_general(s@, pos as int) == Some((p.0, p.1 as int)) && pos < p.1
                <= s@.len(),
            None => dec_general(s@, pos as int) is None,
        },
{
    proof {
        reveal(dec_general);
    }
    let l0 = K_GENERAL_0.as_slice();
    proof {
        assert(K_GENERAL_0@ =~= k_general_0());
    }
    let p0 = match eat_lit(s, pos, l0) {
        Some(q) => q,
        None => {
            return None;
        },
    };
    let (x0, q0) = if at_null(s, p0) {
        proof {
            broadcast use vstd::slice::axiom_spec_len;
            assert(vstd::slice::spec_slice_len(s) == s@.len());
        }
        (None, p0 + 4)
    } else {
        match parse_u64(s, p0) {
            Some(p) => (Some(p.0), p.1),
            None => {
                return None;
            },
        }
    };
    let l1 = K_GENERAL_1.as_slice();
    proof {
        assert(K_GENERAL_1@ =~= k_general_1());
    }
    let p1 = match eat_lit(s, q0, l1) {
        Some(q) => q,
        None => {
            return None;
        },
    };
    let (x1, q1) = if at_null(s, p1) {
        proof {
            broadcast use vstd::slice::axiom_spec_len;
            assert(vstd::slice::spec_slice_len(s) == s@.len());
        }
        (None, p1 + 4)
    } else {
        match parse_i64(s, p1) {
            Some(p) => (Some(p.0), p.1),
            None => {
                return None;
            },
        }
    };
    let l2 = K_GENERAL_2.as_slice();
    proof {
        assert(K_GENERAL_2@ =~= k_general_2());
    }
    let p2 = match eat_lit(s, q1, l2) {
        Some(q) => q,
        None => {
            return None;
        },
    };
    let (x2, q2) = if at_null(s, p2) {
        proof {
            broadcast use vstd::slice::axiom_spec_len;
            assert(vstd::slice::spec_slice_len(s) == s@.len());
        }
        (None, p2 + 4)
    } else {
        match parse_loadavg(s, p2) {
            Some(p) => (Some(p.0), p.1),
            None => {
                return None;
            },
        }
    };
    let lend = K_OBJ_END_B.as_slice();
    proof {
        assert(K_OBJ_END_B@ =~= k_obj_end());
    }
    let qend = match eat_lit(s, q2, lend) {
        Some(q) => q,
        None => {
            return None;
        },
    };
    Some((GeneralStats { uptime_seconds: x0, boot_timestamp: x1, load_averages: x2 }, qend))
}

/// Parses one `CpuStats` record.
#[verifier::rlimit(100)]
pub fn parse_cpu(s: &[u8], pos: usize) -> (r: Option<(CpuStats, usize)>)
    requires
        pos <= s@.len(),
    ensures
        match r {
            Some(p) => dec_cpu(s@, pos as int) == Some((p.0@, p.1 as int)) && pos < p.1
                <= s@.len(),
            None => dec_cpu(s@, pos as int) is None,
        },
{
    proof {
        reveal(dec_cpu);
    }
    let l0 = K_CPU_0.as_slice();
    proof {
        assert(K_CPU_0@ =~= k_cpu_0());
    }
    let p0 = match eat_lit(s, pos, l0) {
        Some(q) => q,
        None => {
            return None;
        },
    };
    let (x0, q0) = if at_null(s, p0) {
        proof {
            broadcast use vstd::slice::axiom_spec_len;
            assert(vstd::slice::spec_slice_len(s) == s@.len());
        }
        (None, p0 + 4)
    } else {
        match parse_list_u64(s, p0) {
            Some(p) => (Some(p.0), p.1),
            None => {
                return None;
            },
        }
    };
    let l1 = K_CPU_1.as_slice();
    proof {
        assert(K_CPU_1@ =~= k_cpu_1());
    }
    let p1 = match eat_lit(s, q0, l1) {
        Some(q) => q,
        None => {
            return None;
        },
    };
    let (x1, q1) = if at_null(s, p1) {
        proof {
            broadcast use vstd::slice::axiom_spec_len;
            assert(vstd::slice::spec_slice_len(s) == s@.len());
        }
        (None, p1 + 4)
    } else {
        match parse_u64(s, p1) {
            Some(p) => (Some(p.0), p.1),
            None => {
                return None;
            },
        }
    };
    let l2 = K_CPU_2.as_slice();
    proof {
        assert(K_CPU_2@ =~= k_cpu_2());
    }
    let p2 = match eat_lit(s, q1, l2) {
        Some(q) => q,
        None => {
            return None;
        },
    };
    let (x2, q2) = if at_null(s, p2) {
        proof {
            broadcast use vstd::slice::axiom_spec_len;
            assert(vstd::slice::spec_slice_len(s) == s@.len());
        }
        (None, p2 + 4)
    } else {
        match parse_i64(s, p2) {
            Some(p) => (Some(p.0), p.1),
            None => {
                return None;
            },
        }
    };
    let lend = K_OBJ_END_B.as_slice();
    proof {
        assert(K_OBJ_END_B@ =~= k_obj_end());
    }
    let qend = match eat_lit(s, q2, lend) {
        Some(q) => q,
        None => {
            return None;
        },
    };
    Some((CpuStats { per_logical_cpu_load_percent: x0, aggregate_load_percent: x1, temp_celsius: x2 }, qend))
}

/// Parses one `NetworkStats` record.
#[verifier::rlimit(100)]
pub fn parse_network(s: &[u8], pos: usize) -> (r: Option<(NetworkStats, usize)>)
    requires
        pos <= s@.len(),
    ensures
        match r {
            Some(p) => dec_network(s@, pos as int) == Some((p.0@, p.1 as int)) && pos < p.1
                <= s@.len(),
            None => dec_network(s@, pos as int) is None,
        },
{
    proof {
        reveal(dec_network);
    }
    let l0 = K_NETWORK_0.as_slice();
    proof {
        assert(K_NETWORK_0@ =~= k_network_0());
    }
    let p0 = match eat_lit(s, pos, l0) {
        Some(q) => q,
        None => {
            return None;
        },
    };
    let (x0, q0) = if at_null(s, p0) {
        proof {
            broadcast use vstd::slice::axiom_spec_len;
            assert(vstd::slice::spec_slice_len(s) == s@.len());
        }
        (None, p0 + 4)
    } else {
        match parse_list_iface(s, p0) {
            Some(p) => (Some(p.0), p.1),
            None => {
                return None;
            },
        }
    };
    let l1 = K_NETWORK_1.as_slice();
    proof {
        assert(K_NETWORK_1@ =~= k_network_1());
    }
    let p1 = match eat_lit(s, q0, l1) {
        Some(q) => q,
        None => {
            return None;
        },
    };
    let (x1, q1) = if at_null(s, p1) {
        proof {
            broadcast use vstd::slice::axiom_spec_len;
            assert(vstd::slice::spec_slice_len(s) == s@.len());
        }
        (None, p1 + 4)
    } else {
        match parse_sockets(s, p1) {
            Some(p) => (Some(p.0), p.1),
            None => {
                return None;
            },
        }
    };
    let lend = K_OBJ_END_B.as_slice();
    proof {
        assert(K_OBJ_END_B@ =~= k_obj_end());
    }
    let qend = match eat_lit(s, q1, lend) {
        Some(q) => q,
        None => {
            return None;
        },
    };
    Some((NetworkStats { interfaces: x0, sockets: x1 }, qend))
}

/// Parses one `AllStats` record.
#[verifier::rlimit(100)]
pub fn parse_allstats(s: &[u8], pos: usize) -> (r: Option<(AllStats, usize)>)
    requires
        pos <= s@.len(),
    ensures
        match r {
            Some(p) => dec_allstats(s@, pos as int) == Some((p.0@, p.1 as int)) && pos < p.1
                <= s@.len(),
            None => dec_allstats(s@, pos as int) is None,
        },
{
    proof {
        reveal(dec_allstats);
    }
    let l0 = K_ALLSTATS_0.as_slice();
    proof {
        assert(K_ALLSTATS_0@ =~= k_allstats_0());
    }
    let p0 = match eat_lit(s, pos, l0) {
        Some(q) => q,
        None => {
            return None;
        },
    };
    let (x0, q0) = match parse_general(s, p0) {
        Some(p) => p,
        None => {
            return None;
        },
    };
    let l1 = K_ALLSTATS_1.as_slice();
    proof {
        assert(K_ALLSTATS_1@ =~= k_allstats_1());
    }
    let p1 = match eat_lit(s, q0, l1) {
        Some(q) => q,
        None => {
            return None;
        },
    };
    let (x1, q1) = match parse_cpu(s, p1) {
        Some(p) => p,
        None => {
            return None;
        },
    };
    let l2 = K_ALLSTATS_2.as_slice();
    proof {
        assert(K_ALLSTATS_2@ =~= k_allstats_2());
    }
    let p2 = match eat_lit(s, q1, l2) {
        Some(q) => q,
        None => {
            return None;
        },
    };
    let (x2, q2) = if at_null(s, p2) {
        proof {
            broadcast use vstd::slice::axiom_spec_len;
            assert(vstd::slice::spec_slice_len(s) == s@.len());
        }
        (None, p2 + 4)
    } else {
        match parse_memory(s, p2) {
            Some(p) => (Some(p.0), p.1),
            None => {
                return None;
            },
        }
    };
    let l3 = K_ALLSTATS_3.as_slice();
    proof {
        assert(K_ALLSTATS_3@ =~= k_allstats_3());
    }
    let p3 = match eat_lit(s, q2, l3) {
        Some(q) => q,
        None => {
            return None;
        },
    };
    let (x3, q3) = if at_null(s, p3) {
        proof {
            broadcast use vstd::slice::axiom_spec_len;
            assert(vstd::slice::spec_slice_len(s) == s@.len());
        }
        (None, p3 + 4)
    } else {
        match parse_list_mount(s, p3) {
            Some(p) => (Some(p.0), p.1),
            None => {
                return None;
            },
        }
    };
    let l4 = K_ALLSTATS_4.as_slice();
    proof {
        assert(K_ALLSTATS_4@ =~= k_allstats_4());
    }
    let p4 = match eat_lit(s, q3, l4) {
        Some(q) => q,
        None => {
            return None;
        },
    };
    let (x4, q4) = match parse_network(s, p4) {
        Some(p) => p,
        None => {
            return None;
        },
    };
    let l5 = K_ALLSTATS_5.as_slice();
    proof {
        assert(K_ALLSTATS_5@ =~= k_allstats_5());
    }
    let p5 = match eat_lit(s, q4, l5) {
        Some(q) => q,
        None => {
            return None;
        },
    };
    let (x5, q5) = match parse_i64(s, p5) {
        Some(p) => p,
        None => {
            return None;
        },
    };
    let lend = K_OBJ_END_B.as_slice();
    proof {
        assert(K_OBJ_END_B@ =~= k_obj_end());
    }
    let qend = match eat_lit(s, q5, lend) {
        Some(q) => q,
        None => {
            return None;
        },
    };
    Some((AllStats { general: x0, cpu: x1, memory: x2, filesystems: x3, network: x4, collection_time: x5 }, qend))
}

} // verus!
