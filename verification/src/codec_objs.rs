//! Object-level framing: the JSON shape of each statistics record,
//! its recursive-descent parsing specification, and the lemmas showing
//! that parsing an encoded record yields the record back.

use vstd::prelude::*;

use crate::codec::{
    at_lit, dec_bstr, dec_i64, dec_list, dec_opt, dec_u64, delim_after, digits_of, e_bstr, e_u64,
    enc_bstr, enc_i64, enc_items, enc_list, enc_opt, enc_u64, is_digit, lemma_at_concat,
    lemma_at_index, lemma_dec_bstr_at, lemma_dec_i64_at, lemma_dec_list_at, lemma_dec_opt_at,
    lemma_dec_u64_at, lemma_digits_of_digits, lemma_parses_back_bstr, lemma_parses_back_u64,
    lit_null, p_bstr, p_u64, parses_back,
};
use crate::stats::{
    AllStatsV, CpuStatsV, GeneralStats, LoadAverages, MemoryStats, MountStatsV,
    NetworkInterfaceStatsV, NetworkStatsV, SocketStats,
};

verus! {

/// The encoding of a field counted in machine words: as an unsigned
/// number, rejected on reading back if it does not fit a `usize`.
pub open spec fn dec_usize(s: Seq<u8>, pos: int) -> Option<(usize, int)> {
    match dec_u64(s, pos) {
        None => None,
        Some((v, end)) => if v > usize::MAX {
            None
        } else {
            Some((v as usize, end))
        },
    }
}

/// The signed-number encoder as a function value.
pub open spec fn e_i64() -> spec_fn(i64) -> Seq<u8> {
    |v: i64| enc_i64(v)
}

/// The signed-number parser as a function value.
pub open spec fn p_i64() -> spec_fn(Seq<u8>, int) -> Option<(i64, int)> {
    |s: Seq<u8>, pos: int| dec_i64(s, pos)
}

/// The machine-word encoder as a function value.
pub open spec fn e_usize() -> spec_fn(usize) -> Seq<u8> {
    |v: usize| enc_u64(v as u64)
}

/// The machine-word parser as a function value.
pub open spec fn p_usize() -> spec_fn(Seq<u8>, int) -> Option<(usize, int)> {
    |s: Seq<u8>, pos: int| dec_usize(s, pos)
}

/// Parsing at the encoding of a machine word, followed by a delimiter,
/// gives back the word.
pub proof fn lemma_dec_usize_at(s: Seq<u8>, pos: int, v: usize)
    requires
        at_lit(s, pos, enc_u64(v as u64)),
        delim_after(s, pos + enc_u64(v as u64).len()),
    ensures
        dec_usize(s, pos) == Some((v, pos + enc_u64(v as u64).len())),
{
    lemma_dec_u64_at(s, pos, v as u64);
}

/// An unsigned number's encoding starts with a digit.
pub proof fn lemma_enc_u64_shape(v: u64)
    ensures
        enc_u64(v).len() >= 1,
        is_digit(enc_u64(v)[0]),
        enc_u64(v)[0] != 0x6e,
        enc_u64(v)[0] != 0x5d,
{
    lemma_digits_of_digits(v as nat);
}

/// A signed number's encoding starts with a minus sign or a digit.
pub proof fn lemma_enc_i64_shape(v: i64)
    ensures
        enc_i64(v).len() >= 1,
        enc_i64(v)[0] != 0x6e,
        enc_i64(v)[0] != 0x5d,
{
    if v >= 0 {
        lemma_digits_of_digits(v as nat);
    } else {
        let m = (-(v as int)) as nat;
        lemma_digits_of_digits(m);
        assert(enc_i64(v) == seq![0x2du8] + digits_of(m));
        assert((seq![0x2du8] + digits_of(m))[0] == 0x2d);
    }
}

/// A byte string's encoding starts with a quote.
pub proof fn lemma_enc_bstr_shape(v: Seq<u8>)
    ensures
        enc_bstr(v).len() >= 2,
        enc_bstr(v)[0] == 0x22,
{
    assert(enc_bstr(v)[0] == 0x22);
}

/// A list's encoding starts with an opening bracket.
pub proof fn lemma_enc_list_shape<T>(vs: Seq<T>, e: spec_fn(T) -> Seq<u8>)
    ensures
        enc_list(vs, e).len() >= 2,
        enc_list(vs, e)[0] == 0x5b,
{
    assert(enc_list(vs, e) =~= seq![0x5bu8] + (enc_items(vs, e) + seq![0x5du8]));
    assert((seq![0x5bu8] + (enc_items(vs, e) + seq![0x5du8]))[0] == 0x5b);
}

/// The unsigned-number-list encoder as a function value.
pub open spec fn e_list_u64() -> spec_fn(Seq<u64>) -> Seq<u8> {
    |vs: Seq<u64>| enc_list(vs, e_u64())
}

/// The unsigned-number-list parser as a function value.
pub open spec fn p_list_u64() -> spec_fn(Seq<u8>, int) -> Option<(Seq<u64>, int)> {
    |s: Seq<u8>, pos: int| dec_list(s, pos, p_u64())
}

/// The mount-list encoder as a function value.
pub open spec fn e_list_mount() -> spec_fn(Seq<MountStatsV>) -> Seq<u8> {
    |vs: Seq<MountStatsV>| enc_list(vs, e_mount())
}

/// The mount-list parser as a function value.
pub open spec fn p_list_mount() -> spec_fn(Seq<u8>, int) -> Option<(Seq<MountStatsV>, int)> {
    |s: Seq<u8>, pos: int| dec_list(s, pos, p_mount())
}

/// The interface-list encoder as a function value.
pub open spec fn e_list_iface() -> spec_fn(Seq<NetworkInterfaceStatsV>) -> Seq<u8> {
    |vs: Seq<NetworkInterfaceStatsV>| enc_list(vs, e_iface())
}

/// The interface-list parser as a function value.
pub open spec fn p_list_iface() -> spec_fn(Seq<u8>, int) -> Option<(
    Seq<NetworkInterfaceStatsV>,
    int,
)> {
    |s: Seq<u8>, pos: int| dec_list(s, pos, p_iface())
}

/// The closing brace of every record object.
pub open spec fn k_obj_end() -> Seq<u8> {
    seq![0x7du8]
}

/// The key framing `{"oneMinute":`.
pub open spec fn k_loadavg_0() -> Seq<u8> {
    seq![0x7bu8, 0x22u8, 0x6fu8, 0x6eu8, 0x65u8, 0x4du8, 0x69u8, 0x6eu8, 0x75u8, 0x74u8, 0x65u8, 0x22u8, 0x3au8]
}

/// The key framing `,"fiveMinutes":`.
pub open spec fn k_loadavg_1() -> Seq<u8> {
    seq![0x2cu8, 0x22u8, 0x66u8, 0x69u8, 0x76u8, 0x65u8, 0x4du8, 0x69u8, 0x6eu8, 0x75u8, 0x74u8, 0x65u8, 0x73u8, 0x22u8, 0x3au8]
}

/// The key framing `,"fifteenMinutes":`.
pub open spec fn k_loadavg_2() -> Seq<u8> {
    seq![0x2cu8, 0x22u8, 0x66u8, 0x69u8, 0x66u8, 0x74u8, 0x65u8, 0x65u8, 0x6eu8, 0x4du8, 0x69u8, 0x6eu8, 0x75u8, 0x74u8, 0x65u8, 0x73u8, 0x22u8, 0x3au8]
}

/// The key framing `{"usedMb":`.
pub open spec fn k_memory_0() -> Seq<u8> {
    seq![0x7bu8, 0x22u8, 0x75u8, 0x73u8, 0x65u8, 0x64u8, 0x4du8, 0x62u8, 0x22u8, 0x3au8]
}

/// The key framing `,"totalMb":`.
pub open spec fn k_memory_1() -> Seq<u8> {
    seq![0x2cu8, 0x22u8, 0x74u8, 0x6fu8, 0x74u8, 0x61u8, 0x6cu8, 0x4du8, 0x62u8, 0x22u8, 0x3au8]
}

/// The key framing `{"tcpInUse":`.
pub open spec fn k_sockets_0() -> Seq<u8> {
    seq![0x7bu8, 0x22u8, 0x74u8, 0x63u8, 0x70u8, 0x49u8, 0x6eu8, 0x55u8, 0x73u8, 0x65u8, 0x22u8, 0x3au8]
}

/// The key framing `,"tcpOrphaned":`.
pub open spec fn k_sockets_1() -> Seq<u8> {
    seq![0x2cu8, 0x22u8, 0x74u8, 0x63u8, 0x70u8, 0x4fu8, 0x72u8, 0x70u8, 0x68u8, 0x61u8, 0x6eu8, 0x65u8, 0x64u8, 0x22u8, 0x3au8]
}

/// The key framing `,"udpInUse":`.
pub open spec fn k_sockets_2() -> Seq<u8> {
    seq![0x2cu8, 0x22u8, 0x75u8, 0x64u8, 0x70u8, 0x49u8, 0x6eu8, 0x55u8, 0x73u8, 0x65u8, 0x22u8, 0x3au8]
}

/// The key framing `,"tcp6InUse":`.
pub open spec fn k_sockets_3() -> Seq<u8> {
    seq![0x2cu8, 0x22u8, 0x74u8, 0x63u8, 0x70u8, 0x36u8, 0x49u8, 0x6eu8, 0x55u8, 0x73u8, 0x65u8, 0x22u8, 0x3au8]
}

/// The key framing `,"udp6InUse":`.
pub open spec fn k_sockets_4() -> Seq<u8> {
    seq![0x2cu8, 0x22u8, 0x75u8, 0x64u8, 0x70u8, 0x36u8, 0x49u8, 0x6eu8, 0x55u8, 0x73u8, 0x65u8, 0x22u8, 0x3au8]
}

/// The key framing `{"fsType":`.
pub open spec fn k_mount_0() -> Seq<u8> {
    seq![0x7bu8, 0x22u8, 0x66u8, 0x73u8, 0x54u8, 0x79u8, 0x70u8, 0x65u8, 0x22u8, 0x3au8]
}

/// The key framing `,"mountedFrom":`.
pub open spec fn k_mount_1() -> Seq<u8> {
    seq![0x2cu8, 0x22u8, 0x6du8, 0x6fu8, 0x75u8, 0x6eu8, 0x74u8, 0x65u8, 0x64u8, 0x46u8, 0x72u8, 0x6fu8, 0x6du8, 0x22u8, 0x3au8]
}

/// The key framing `,"mountedOn":`.
pub open spec fn k_mount_2() -> Seq<u8> {
    seq![0x2cu8, 0x22u8, 0x6du8, 0x6fu8, 0x75u8, 0x6eu8, 0x74u8, 0x65u8, 0x64u8, 0x4fu8, 0x6eu8, 0x22u8, 0x3au8]
}

/// The key framing `,"usedMb":`.
pub open spec fn k_mount_3() -> Seq<u8> {
    seq![0x2cu8, 0x22u8, 0x75u8, 0x73u8, 0x65u8, 0x64u8, 0x4du8, 0x62u8, 0x22u8, 0x3au8]
}

/// The key framing `,"totalMb":`.
pub open spec fn k_mount_4() -> Seq<u8> {
    seq![0x2cu8, 0x22u8, 0x74u8, 0x6fu8, 0x74u8, 0x61u8, 0x6cu8, 0x4du8, 0x62u8, 0x22u8, 0x3au8]
}

/// The key framing `{"name":`.
pub open spec fn k_iface_0() -> Seq<u8> {
    seq![0x7bu8, 0x22u8, 0x6eu8, 0x61u8, 0x6du8, 0x65u8, 0x22u8, 0x3au8]
}

/// The key framing `,"addresses":`.
pub open spec fn k_iface_1() -> Seq<u8> {
    seq![0x2cu8, 0x22u8, 0x61u8, 0x64u8, 0x64u8, 0x72u8, 0x65u8, 0x73u8, 0x73u8, 0x65u8, 0x73u8, 0x22u8, 0x3au8]
}

/// The key framing `,"sentMb":`.
pub open spec fn k_iface_2() -> Seq<u8> {
    seq![0x2cu8, 0x22u8, 0x73u8, 0x65u8, 0x6eu8, 0x74u8, 0x4du8, 0x62u8, 0x22u8, 0x3au8]
}

/// The key framing `,"receivedMb":`.
pub open spec fn k_iface_3() -> Seq<u8> {
    seq![0x2cu8, 0x22u8, 0x72u8, 0x65u8, 0x63u8, 0x65u8, 0x69u8, 0x76u8, 0x65u8, 0x64u8, 0x4du8, 0x62u8, 0x22u8, 0x3au8]
}

/// The key framing `,"sentPackets":`.
pub open spec fn k_iface_4() -> Seq<u8> {
    seq![0x2cu8, 0x22u8, 0x73u8, 0x65u8, 0x6eu8, 0x74u8, 0x50u8, 0x61u8, 0x63u8, 0x6bu8, 0x65u8, 0x74u8, 0x73u8, 0x22u8, 0x3au8]
}

/// The key framing `,"receivedPackets":`.
pub open spec fn k_iface_5() -> Seq<u8> {
    seq![0x2cu8, 0x22u8, 0x72u8, 0x65u8, 0x63u8, 0x65u8, 0x69u8, 0x76u8, 0x65u8, 0x64u8, 0x50u8, 0x61u8, 0x63u8, 0x6bu8, 0x65u8, 0x74u8, 0x73u8, 0x22u8, 0x3au8]
}

/// The key framing `,"sendErrors":`.
pub open spec fn k_iface_6() -> Seq<u8> {
    seq![0x2cu8, 0x22u8, 0x73u8, 0x65u8, 0x6eu8, 0x64u8, 0x45u8, 0x72u8, 0x72u8, 0x6fu8, 0x72u8, 0x73u8, 0x22u8, 0x3au8]
}

/// The key framing `,"receiveErrors":`.
pub open spec fn k_iface_7() -> Seq<u8> {
    seq![0x2cu8, 0x22u8, 0x72u8, 0x65u8, 0x63u8, 0x65u8, 0x69u8, 0x76u8, 0x65u8, 0x45u8, 0x72u8, 0x72u8, 0x6fu8, 0x72u8, 0x73u8, 0x22u8, 0x3au8]
}

/// The key framing `{"uptimeSeconds":`.
pub open spec fn k_general_0() -> Seq<u8> {
    seq![0x7bu8, 0x22u8, 0x75u8, 0x70u8, 0x74u8, 0x69u8, 0x6du8, 0x65u8, 0x53u8, 0x65u8, 0x63u8, 0x6fu8, 0x6eu8, 0x64u8, 0x73u8, 0x22u8, 0x3au8]
}

/// The key framing `,"bootTimestamp":`.
pub open spec fn k_general_1() -> Seq<u8> {
    seq![0x2cu8, 0x22u8, 0x62u8, 0x6fu8, 0x6fu8, 0x74u8, 0x54u8, 0x69u8, 0x6du8, 0x65u8, 0x73u8, 0x74u8, 0x61u8, 0x6du8, 0x70u8, 0x22u8, 0x3au8]
}

/// The key framing `,"loadAverages":`.
pub open spec fn k_general_2() -> Seq<u8> {
    seq![0x2cu8, 0x22u8, 0x6cu8, 0x6fu8, 0x61u8, 0x64u8, 0x41u8, 0x76u8, 0x65u8, 0x72u8, 0x61u8, 0x67u8, 0x65u8, 0x73u8, 0x22u8, 0x3au8]
}

/// The key framing `{"perLogicalCpuLoadPercent":`.
pub open spec fn k_cpu_0() -> Seq<u8> {
    seq![0x7bu8, 0x22u8, 0x70u8, 0x65u8, 0x72u8, 0x4cu8, 0x6fu8, 0x67u8, 0x69u8, 0x63u8, 0x61u8, 0x6cu8, 0x43u8, 0x70u8, 0x75u8, 0x4cu8, 0x6fu8, 0x61u8, 0x64u8, 0x50u8, 0x65u8, 0x72u8, 0x63u8, 0x65u8, 0x6eu8, 0x74u8, 0x22u8, 0x3au8]
}

/// The key framing `,"aggregateLoadPercent":`.
pub open spec fn k_cpu_1() -> Seq<u8> {
    seq![0x2cu8, 0x22u8, 0x61u8, 0x67u8, 0x67u8, 0x72u8, 0x65u8, 0x67u8, 0x61u8, 0x74u8, 0x65u8, 0x4cu8, 0x6fu8, 0x61u8, 0x64u8, 0x50u8, 0x65u8, 0x72u8, 0x63u8, 0x65u8, 0x6eu8, 0x74u8, 0x22u8, 0x3au8]
}

/// The key framing `,"tempCelsius":`.
pub open spec fn k_cpu_2() -> Seq<u8> {
    seq![0x2cu8, 0x22u8, 0x74u8, 0x65u8, 0x6du8, 0x70u8, 0x43u8, 0x65u8, 0x6cu8, 0x73u8, 0x69u8, 0x75u8, 0x73u8, 0x22u8, 0x3au8]
}

/// The key framing `{"interfaces":`.
pub open spec fn k_network_0() -> Seq<u8> {
    seq![0x7bu8, 0x22u8, 0x69u8, 0x6eu8, 0x74u8, 0x65u8, 0x72u8, 0x66u8, 0x61u8, 0x63u8, 0x65u8, 0x73u8, 0x22u8, 0x3au8]
}

/// The key framing `,"sockets":`.
pub open spec fn k_network_1() -> Seq<u8> {
    seq![0x2cu8, 0x22u8, 0x73u8, 0x6fu8, 0x63u8, 0x6bu8, 0x65u8, 0x74u8, 0x73u8, 0x22u8, 0x3au8]
}

/// The key framing `{"general":`.
pub open spec fn k_allstats_0() -> Seq<u8> {
    seq![0x7bu8, 0x22u8, 0x67u8, 0x65u8, 0x6eu8, 0x65u8, 0x72u8, 0x61u8, 0x6cu8, 0x22u8, 0x3au8]
}

/// The key framing `,"cpu":`.
pub open spec fn k_allstats_1() -> Seq<u8> {
    seq![0x2cu8, 0x22u8, 0x63u8, 0x70u8, 0x75u8, 0x22u8, 0x3au8]
}

/// The key framing `,"memory":`.
pub open spec fn k_allstats_2() -> Seq<u8> {
    seq![0x2cu8, 0x22u8, 0x6du8, 0x65u8, 0x6du8, 0x6fu8, 0x72u8, 0x79u8, 0x22u8, 0x3au8]
}

/// The key framing `,"filesystems":`.
pub open spec fn k_allstats_3() -> Seq<u8> {
    seq![0x2cu8, 0x22u8, 0x66u8, 0x69u8, 0x6cu8, 0x65u8, 0x73u8, 0x79u8, 0x73u8, 0x74u8, 0x65u8, 0x6du8, 0x73u8, 0x22u8, 0x3au8]
}

/// The key framing `,"network":`.
pub open spec fn k_allstats_4() -> Seq<u8> {
    seq![0x2cu8, 0x22u8, 0x6eu8, 0x65u8, 0x74u8, 0x77u8, 0x6fu8, 0x72u8, 0x6bu8, 0x22u8, 0x3au8]
}

/// The key framing `,"collectionTime":`.
pub open spec fn k_allstats_5() -> Seq<u8> {
    seq![0x2cu8, 0x22u8, 0x63u8, 0x6fu8, 0x6cu8, 0x6cu8, 0x65u8, 0x63u8, 0x74u8, 0x69u8, 0x6fu8, 0x6eu8, 0x54u8, 0x69u8, 0x6du8, 0x65u8, 0x22u8, 0x3au8]
}

/// The encoding of one `LoadAverages` record.
pub open spec fn enc_loadavg(v: LoadAverages) -> Seq<u8> {
    k_loadavg_0() + enc_u64(v.one_minute) + k_loadavg_1() + enc_u64(v.five_minutes) + k_loadavg_2() + enc_u64(v.fifteen_minutes) + k_obj_end()
}

/// The `loadavg` encoder as a function value.
pub open spec fn e_loadavg() -> spec_fn(LoadAverages) -> Seq<u8> {
    |v: LoadAverages| enc_loadavg(v)
}

/// Parses one `LoadAverages` record.
#[verifier::opaque]
pub open spec fn dec_loadavg(s: Seq<u8>, pos: int) -> Option<(LoadAverages, int)> {
    if at_lit(s, pos, k_loadavg_0()) {
        match dec_u64(s, pos + k_loadavg_0().len()) {
            None => None,
            Some((x0, q0)) => {
                if at_lit(s, q0, k_loadavg_1()) {
                    match dec_u64(s, q0 + k_loadavg_1().len()) {
                        None => None,
                        Some((x1, q1)) => {
                            if at_lit(s, q1, k_loadavg_2()) {
                                match dec_u64(s, q1 + k_loadavg_2().len()) {
                                    None => None,
                                    Some((x2, q2)) => {
                                        if at_lit(s, q2, k_obj_end()) {
                                            Some((LoadAverages { one_minute: x0, five_minutes: x1, fifteen_minutes: x2 }, q2 + 1))
                                        } else {
                                            None
                                        }
                                    },
                                }
                            } else {
                                None
                            }
                        },
                    }
                } else {
                    None
                }
            },
        }
    } else {
        None
    }
}

/// The `loadavg` parser as a function value.
pub open spec fn p_loadavg() -> spec_fn(Seq<u8>, int) -> Option<(LoadAverages, int)> {
    |s: Seq<u8>, pos: int| dec_loadavg(s, pos)
}

/// A `loadavg` record's encoding starts with an opening brace.
pub proof fn lemma_enc_loadavg_shape(v: LoadAverages)
    ensures
        enc_loadavg(v).len() >= 1,
        enc_loadavg(v)[0] == 0x7b,
{
    let a1 = k_loadavg_0();
    let a2 = a1 + enc_u64(v.one_minute);
    assert(a2[0] == a1[0]);
    let a3 = a2 + k_loadavg_1();
    assert(a3[0] == a2[0]);
    let a4 = a3 + enc_u64(v.five_minutes);
    assert(a4[0] == a3[0]);
    let a5 = a4 + k_loadavg_2();
    assert(a5[0] == a4[0]);
    let a6 = a5 + enc_u64(v.fifteen_minutes);
    assert(a6[0] == a5[0]);
    let a7 = a6 + k_obj_end();
    assert(a7[0] == a6[0]);
    assert(enc_loadavg(v) == a7);
}

/// The encoding of one `MemoryStats` record.
pub open spec fn enc_memory(v: MemoryStats) -> Seq<u8> {
    k_memory_0() + enc_u64(v.used_mb) + k_memory_1() + enc_u64(v.total_mb) + k_obj_end()
}

/// The `memory` encoder as a function value.
pub open spec fn e_memory() -> spec_fn(MemoryStats) -> Seq<u8> {
    |v: MemoryStats| enc_memory(v)
}

/// Parses one `MemoryStats` record.
#[verifier::opaque]
pub open spec fn dec_memory(s: Seq<u8>, pos: int) -> Option<(MemoryStats, int)> {
    if at_lit(s, pos, k_memory_0()) {
        match dec_u64(s, pos + k_memory_0().len()) {
            None => None,
            Some((x0, q0)) => {
                if at_lit(s, q0, k_memory_1()) {
                    match dec_u64(s, q0 + k_memory_1().len()) {
                        None => None,
                        Some((x1, q1)) => {
                            if at_lit(s, q1, k_obj_end()) {
                                Some((MemoryStats { used_mb: x0, total_mb: x1 }, q1 + 1))
                            } else {
                                None
                            }
                        },
                    }
                } else {
                    None
                }
            },
        }
    } else {
        None
    }
}

/// The `memory` parser as a function value.
pub open spec fn p_memory() -> spec_fn(Seq<u8>, int) -> Option<(MemoryStats, int)> {
    |s: Seq<u8>, pos: int| dec_memory(s, pos)
}

/// A `memory` record's encoding starts with an opening brace.
pub proof fn lemma_enc_memory_shape(v: MemoryStats)
    ensures
        enc_memory(v).len() >= 1,
        enc_memory(v)[0] == 0x7b,
{
    let a1 = k_memory_0();
    let a2 = a1 + enc_u64(v.used_mb);
    assert(a2[0] == a1[0]);
    let a3 = a2 + k_memory_1();
    assert(a3[0] == a2[0]);
    let a4 = a3 + enc_u64(v.total_mb);
    assert(a4[0] == a3[0]);
    let a5 = a4 + k_obj_end();
    assert(a5[0] == a4[0]);
    assert(enc_memory(v) == a5);
}

/// The encoding of one `SocketStats` record.
pub open spec fn enc_sockets(v: SocketStats) -> Seq<u8> {
    k_sockets_0() + enc_u64(v.tcp_in_use as u64) + k_sockets_1() + enc_u64(v.tcp_orphaned as u64) + k_sockets_2() + enc_u64(v.udp_in_use as u64) + k_sockets_3() + enc_u64(v.tcp6_in_use as u64) + k_sockets_4() + enc_u64(v.udp6_in_use as u64) + k_obj_end()
}

/// The `sockets` encoder as a function value.
pub open spec fn e_sockets() -> spec_fn(SocketStats) -> Seq<u8> {
    |v: SocketStats| enc_sockets(v)
}

/// Parses one `SocketStats` record.
#[verifier::opaque]
pub open spec fn dec_sockets(s: Seq<u8>, pos: int) -> Option<(SocketStats, int)> {
    if at_lit(s, pos, k_sockets_0()) {
        match dec_usize(s, pos + k_sockets_0().len()) {
            None => None,
            Some((x0, q0)) => {
                if at_lit(s, q0, k_sockets_1()) {
                    match dec_usize(s, q0 + k_sockets_1().len()) {
                        None => None,
                        Some((x1, q1)) => {
                            if at_lit(s, q1, k_sockets_2()) {
                                match dec_usize(s, q1 + k_sockets_2().len()) {
                                    None => None,
                                    Some((x2, q2)) => {
                                        if at_lit(s, q2, k_sockets_3()) {
                                            match dec_usize(s, q2 + k_sockets_3().len()) {
                                                None => None,
                                                Some((x3, q3)) => {
                                                    if at_lit(s, q3, k_sockets_4()) {
                                                        match dec_usize(s, q3 + k_sockets_4().len()) {
                                                            None => None,
                                                            Some((x4, q4)) => {
                                                                if at_lit(s, q4, k_obj_end()) {
                                                                    Some((SocketStats { tcp_in_use: x0, tcp_orphaned: x1, udp_in_use: x2, tcp6_in_use: x3, udp6_in_use: x4 }, q4 + 1))
                                                                } else {
                                                                    None
                                                                }
                                                            },
                                                        }
                                                    } else {
                                                        None
                                                    }
                                                },
                                            }
                                        } else {
                                            None
                                        }
                                    },
                                }
                            } else {
                                None
                            }
                        },
                    }
                } else {
                    None
                }
            },
        }
    } else {
        None
    }
}

/// The `sockets` parser as a function value.
pub open spec fn p_sockets() -> spec_fn(Seq<u8>, int) -> Option<(SocketStats, int)> {
    |s: Seq<u8>, pos: int| dec_sockets(s, pos)
}

/// A `sockets` record's encoding starts with an opening brace.
pub proof fn lemma_enc_sockets_shape(v: SocketStats)
    ensures
        enc_sockets(v).len() >= 1,
        enc_sockets(v)[0] == 0x7b,
{
    let a1 = k_sockets_0();
    let a2 = a1 + enc_u64(v.tcp_in_use as u64);
    assert(a2[0] == a1[0]);
    let a3 = a2 + k_sockets_1();
    assert(a3[0] == a2[0]);
    let a4 = a3 + enc_u64(v.tcp_orphaned as u64);
    assert(a4[0] == a3[0]);
    let a5 = a4 + k_sockets_2();
    assert(a5[0] == a4[0]);
    let a6 = a5 + enc_u64(v.udp_in_use as u64);
    assert(a6[0] == a5[0]);
    let a7 = a6 + k_sockets_3();
    assert(a7[0] == a6[0]);
    let a8 = a7 + enc_u64(v.tcp6_in_use as u64);
    assert(a8[0] == a7[0]);
    let a9 = a8 + k_sockets_4();
    assert(a9[0] == a8[0]);
    let a10 = a9 + enc_u64(v.udp6_in_use as u64);
    assert(a10[0] == a9[0]);
    let a11 = a10 + k_obj_end();
    assert(a11[0] == a10[0]);
    assert(enc_sockets(v) == a11);
}

/// The encoding of one `MountStatsV` record.
pub open spec fn enc_mount(v: MountStatsV) -> Seq<u8> {
    k_mount_0() + enc_bstr(v.fs_type) + k_mount_1() + enc_bstr(v.mounted_from) + k_mount_2() + enc_bstr(v.mounted_on) + k_mount_3() + enc_u64(v.used_mb) + k_mount_4() + enc_u64(v.total_mb) + k_obj_end()
}

/// The `mount` encoder as a function value.
pub open spec fn e_mount() -> spec_fn(MountStatsV) -> Seq<u8> {
    |v: MountStatsV| enc_mount(v)
}

/// Parses one `MountStatsV` record.
#[verifier::opaque]
pub open spec fn dec_mount(s: Seq<u8>, pos: int) -> Option<(MountStatsV, int)> {
    if at_lit(s, pos, k_mount_0()) {
        match dec_bstr(s, pos + k_mount_0().len()) {
            None => None,
            Some((x0, q0)) => {
                if at_lit(s, q0, k_mount_1()) {
                    match dec_bstr(s, q0 + k_mount_1().len()) {
                        None => None,
                        Some((x1, q1)) => {
                            if at_lit(s, q1, k_mount_2()) {
                                match dec_bstr(s, q1 + k_mount_2().len()) {
                                    None => None,
                                    Some((x2, q2)) => {
                                        if at_lit(s, q2, k_mount_3()) {
                                            match dec_u64(s, q2 + k_mount_3().len()) {
                                                None => None,
                                                Some((x3, q3)) => {
                                                    if at_lit(s, q3, k_mount_4()) {
                                                        match dec_u64(s, q3 + k_mount_4().len()) {
                                                            None => None,
                                                            Some((x4, q4)) => {
                                                                if at_lit(s, q4, k_obj_end()) {
                                                                    Some((MountStatsV { fs_type: x0, mounted_from: x1, mounted_on: x2, used_mb: x3, total_mb: x4 }, q4 + 1))
                                                                } else {
                                                                    None
                                                                }
                                                            },
                                                        }
                                                    } else {
                                                        None
                                                    }
                                                },
                                            }
                                        } else {
                                            None
                                        }
                                    },
                                }
                            } else {
                                None
                            }
                        },
                    }
                } else {
                    None
                }
            },
        }
    } else {
        None
    }
}

/// The `mount` parser as a function value.
pub open spec fn p_mount() -> spec_fn(Seq<u8>, int) -> Option<(MountStatsV, int)> {
    |s: Seq<u8>, pos: int| dec_mount(s, pos)
}

/// A `mount` record's encoding starts with an opening brace.
pub proof fn lemma_enc_mount_shape(v: MountStatsV)
    ensures
        enc_mount(v).len() >= 1,
        enc_mount(v)[0] == 0x7b,
{
    let a1 = k_mount_0();
    let a2 = a1 + enc_bstr(v.fs_type);
    assert(a2[0] == a1[0]);
    let a3 = a2 + k_mount_1();
    assert(a3[0] == a2[0]);
    let a4 = a3 + enc_bstr(v.mounted_from);
    assert(a4[0] == a3[0]);
    let a5 = a4 + k_mount_2();
    assert(a5[0] == a4[0]);
    let a6 = a5 + enc_bstr(v.mounted_on);
    assert(a6[0] == a5[0]);
    let a7 = a6 + k_mount_3();
    assert(a7[0] == a6[0]);
    let a8 = a7 + enc_u64(v.used_mb);
    assert(a8[0] == a7[0]);
    let a9 = a8 + k_mount_4();
    assert(a9[0] == a8[0]);
    let a10 = a9 + enc_u64(v.total_mb);
    assert(a10[0] == a9[0]);
    let a11 = a10 + k_obj_end();
    assert(a11[0] == a10[0]);
    assert(enc_mount(v) == a11);
}

/// The encoding of one `NetworkInterfaceStatsV` record.
pub open spec fn enc_iface(v: NetworkInterfaceStatsV) -> Seq<u8> {
    k_iface_0() + enc_bstr(v.name) + k_iface_1() + enc_list(v.addresses, e_bstr()) + k_iface_2() + enc_u64(v.sent_mb) + k_iface_3() + enc_u64(v.received_mb) + k_iface_4() + enc_u64(v.sent_packets) + k_iface_5() + enc_u64(v.received_packets) + k_iface_6() + enc_u64(v.send_errors) + k_iface_7() + enc_u64(v.receive_errors) + k_obj_end()
}

/// The `iface` encoder as a function value.
pub open spec fn e_iface() -> spec_fn(NetworkInterfaceStatsV) -> Seq<u8> {
    |v: NetworkInterfaceStatsV| enc_iface(v)
}

/// Parses one `NetworkInterfaceStatsV` record.
#[verifier::opaque]
pub open spec fn dec_iface(s: Seq<u8>, pos: int) -> Option<(NetworkInterfaceStatsV, int)> {
    if at_lit(s, pos, k_iface_0()) {
        match dec_bstr(s, pos + k_iface_0().len()) {
            None => None,
            Some((x0, q0)) => {
                if at_lit(s, q0, k_iface_1()) {
                    match dec_list(s, q0 + k_iface_1().len(), p_bstr()) {
                        None => None,
                        Some((x1, q1)) => {
                            if at_lit(s, q1, k_iface_2()) {
                                match dec_u64(s, q1 + k_iface_2().len()) {
                                    None => None,
                                    Some((x2, q2)) => {
                                        if at_lit(s, q2, k_iface_3()) {
                                            match dec_u64(s, q2 + k_iface_3().len()) {
                                                None => None,
                                                Some((x3, q3)) => {
                                                    if at_lit(s, q3, k_iface_4()) {
                                                        match dec_u64(s, q3 + k_iface_4().len()) {
                                                            None => None,
                                                            Some((x4, q4)) => {
                                                                if at_lit(s, q4, k_iface_5()) {
                                                                    match dec_u64(s, q4 + k_iface_5().len()) {
                                                                        None => None,
                                                                        Some((x5, q5)) => {
                                                                            if at_lit(s, q5, k_iface_6()) {
                                                                                match dec_u64(s, q5 + k_iface_6().len()) {
                                                                                    None => None,
                                                                                    Some((x6, q6)) => {
                                                                                        if at_lit(s, q6, k_iface_7()) {
                                                                                            match dec_u64(s, q6 + k_iface_7().len()) {
                                                                                                None => None,
                                                                                                Some((x7, q7)) => {
                                                                                                    if at_lit(s, q7, k_obj_end()) {
                                                                                                        Some((NetworkInterfaceStatsV { name: x0, addresses: x1, sent_mb: x2, received_mb: x3, sent_packets: x4, received_packets: x5, send_errors: x6, receive_errors: x7 }, q7 + 1))
                                                                                                    } else {
                                                                                                        None
                                                                                                    }
                                                                                                },
                                                                                            }
                                                                                        } else {
                                                                                            None
                                                                                        }
                                                                                    },
                                                                                }
                                                                            } else {
                                                                                None
                                                                            }
                                                                        },
                                                                    }
                                                                } else {
                                                                    None
                                                                }
                                                            },
                                                        }
                                                    } else {
                                                        None
                                                    }
                                                },
                                            }
                                        } else {
                                            None
                                        }
                                    },
                                }
                            } else {
                                None
                            }
                        },
                    }
                } else {
                    None
                }
            },
        }
    } else {
        None
    }
}

/// The `iface` parser as a function value.
pub open spec fn p_iface() -> spec_fn(Seq<u8>, int) -> Option<(NetworkInterfaceStatsV, int)> {
    |s: Seq<u8>, pos: int| dec_iface(s, pos)
}

/// A `iface` record's encoding starts with an opening brace.
pub proof fn lemma_enc_iface_shape(v: NetworkInterfaceStatsV)
    ensures
        enc_iface(v).len() >= 1,
        enc_iface(v)[0] == 0x7b,
{
    let a1 = k_iface_0();
    let a2 = a1 + enc_bstr(v.name);
    assert(a2[0] == a1[0]);
    let a3 = a2 + k_iface_1();
    assert(a3[0] == a2[0]);
    let a4 = a3 + enc_list(v.addresses, e_bstr());
    assert(a4[0] == a3[0]);
    let a5 = a4 + k_iface_2();
    assert(a5[0] == a4[0]);
    let a6 = a5 + enc_u64(v.sent_mb);
    assert(a6[0] == a5[0]);
    let a7 = a6 + k_iface_3();
    assert(a7[0] == a6[0]);
    let a8 = a7 + enc_u64(v.received_mb);
    assert(a8[0] == a7[0]);
    let a9 = a8 + k_iface_4();
    assert(a9[0] == a8[0]);
    let a10 = a9 + enc_u64(v.sent_packets);
    assert(a10[0] == a9[0]);
    let a11 = a10 + k_iface_5();
    assert(a11[0] == a10[0]);
    let a12 = a11 + enc_u64(v.received_packets);
    assert(a12[0] == a11[0]);
    let a13 = a12 + k_iface_6();
    assert(a13[0] == a12[0]);
    let a14 = a13 + enc_u64(v.send_errors);
    assert(a14[0] == a13[0]);
    let a15 = a14 + k_iface_7();
    assert(a15[0] == a14[0]);
    let a16 = a15 + enc_u64(v.receive_errors);
    assert(a16[0] == a15[0]);
    let a17 = a16 + k_obj_end();
    assert(a17[0] == a16[0]);
    assert(enc_iface(v) == a17);
}

/// The encoding of one `GeneralStats` record.
pub open spec fn enc_general(v: GeneralStats) -> Seq<u8> {
    k_general_0() + enc_opt(v.uptime_seconds, e_u64()) + k_general_1() + enc_opt(v.boot_timestamp, e_i64()) + k_general_2() + enc_opt(v.load_averages, e_loadavg()) + k_obj_end()
}

/// The `general` encoder as a function value.
pub open spec fn e_general() -> spec_fn(GeneralStats) -> Seq<u8> {
    |v: GeneralStats| enc_general(v)
}

/// Parses one `GeneralStats` record.
#[verifier::opaque]
pub open spec fn dec_general(s: Seq<u8>, pos: int) -> Option<(GeneralStats, int)> {
    if at_lit(s, pos, k_general_0()) {
        match dec_opt(s, pos + k_general_0().len(), p_u64()) {
            None => None,
            Some((x0, q0)) => {
                if at_lit(s, q0, k_general_1()) {
                    match dec_opt(s, q0 + k_general_1().len(), p_i64()) {
                        None => None,
                        Some((x1, q1)) => {
                            if at_lit(s, q1, k_general_2()) {
                                match dec_opt(s, q1 + k_general_2().len(), p_loadavg()) {
                                    None => None,
                                    Some((x2, q2)) => {
                                        if at_lit(s, q2, k_obj_end()) {
                                            Some((GeneralStats { uptime_seconds: x0, boot_timestamp: x1, load_averages: x2 }, q2 + 1))
                                        } else {
                                            None
                                        }
                                    },
                                }
                            } else {
                                None
                            }
                        },
                    }
                } else {
                    None
                }
            },
        }
    } else {
        None
    }
}

/// The `general` parser as a function value.
pub open spec fn p_general() -> spec_fn(Seq<u8>, int) -> Option<(GeneralStats, int)> {
    |s: Seq<u8>, pos: int| dec_general(s, pos)
}

/// A `general` record's encoding starts with an opening brace.
pub proof fn lemma_enc_general_shape(v: GeneralStats)
    ensures
        enc_general(v).len() >= 1,
        enc_general(v)[0] == 0x7b,
{
    let a1 = k_general_0();
    let a2 = a1 + enc_opt(v.uptime_seconds, e_u64());
    assert(a2[0] == a1[0]);
    let a3 = a2 + k_general_1();
    assert(a3[0] == a2[0]);
    let a4 = a3 + enc_opt(v.boot_timestamp, e_i64());
    assert(a4[0] == a3[0]);
    let a5 = a4 + k_general_2();
    assert(a5[0] == a4[0]);
    let a6 = a5 + enc_opt(v.load_averages, e_loadavg());
    assert(a6[0] == a5[0]);
    let a7 = a6 + k_obj_end();
    assert(a7[0] == a6[0]);
    assert(enc_general(v) == a7);
}

/// The encoding of one `CpuStatsV` record.
pub open spec fn enc_cpu(v: CpuStatsV) -> Seq<u8> {
    k_cpu_0() + enc_opt(v.per_logical_cpu_load_percent, e_list_u64()) + k_cpu_1() + enc_opt(v.aggregate_load_percent, e_u64()) + k_cpu_2() + enc_opt(v.temp_celsius, e_i64()) + k_obj_end()
}

/// The `cpu` encoder as a function value.
pub open spec fn e_cpu() -> spec_fn(CpuStatsV) -> Seq<u8> {
    |v: CpuStatsV| enc_cpu(v)
}

/// Parses one `CpuStatsV` record.
#[verifier::opaque]
pub open spec fn dec_cpu(s: Seq<u8>, pos: int) -> Option<(CpuStatsV, int)> {
    if at_lit(s, pos, k_cpu_0()) {
        match dec_opt(s, pos + k_cpu_0().len(), p_list_u64()) {
            None => None,
            Some((x0, q0)) => {
                if at_lit(s, q0, k_cpu_1()) {
                    match dec_opt(s, q0 + k_cpu_1().len(), p_u64()) {
                        None => None,
                        Some((x1, q1)) => {
                            if at_lit(s, q1, k_cpu_2()) {
                                match dec_opt(s, q1 + k_cpu_2().len(), p_i64()) {
                                    None => None,
                                    Some((x2, q2)) => {
                                        if at_lit(s, q2, k_obj_end()) {
                                            Some((CpuStatsV { per_logical_cpu_load_percent: x0, aggregate_load_percent: x1, temp_celsius: x2 }, q2 + 1))
                                        } else {
                                            None
                                        }
                                    },
                                }
                            } else {
                                None
                            }
                        },
                    }
                } else {
                    None
                }
            },
        }
    } else {
        None
    }
}

/// The `cpu` parser as a function value.
pub open spec fn p_cpu() -> spec_fn(Seq<u8>, int) -> Option<(CpuStatsV, int)> {
    |s: Seq<u8>, pos: int| dec_cpu(s, pos)
}

/// A `cpu` record's encoding starts with an opening brace.
pub proof fn lemma_enc_cpu_shape(v: CpuStatsV)
    ensures
        enc_cpu(v).len() >= 1,
        enc_cpu(v)[0] == 0x7b,
{
    let a1 = k_cpu_0();
    let a2 = a1 + enc_opt(v.per_logical_cpu_load_percent, e_list_u64());
    assert(a2[0] == a1[0]);
    let a3 = a2 + k_cpu_1();
    assert(a3[0] == a2[0]);
    let a4 = a3 + enc_opt(v.aggregate_load_percent, e_u64());
    assert(a4[0] == a3[0]);
    let a5 = a4 + k_cpu_2();
    assert(a5[0] == a4[0]);
    let a6 = a5 + enc_opt(v.temp_celsius, e_i64());
    assert(a6[0] == a5[0]);
    let a7 = a6 + k_obj_end();
    assert(a7[0] == a6[0]);
    assert(enc_cpu(v) == a7);
}

/// The encoding of one `NetworkStatsV` record.
pub open spec fn enc_network(v: NetworkStatsV) -> Seq<u8> {
    k_network_0() + enc_opt(v.interfaces, e_list_iface()) + k_network_1() + enc_opt(v.sockets, e_sockets()) + k_obj_end()
}

/// The `network` encoder as a function value.
pub open spec fn e_network() -> spec_fn(NetworkStatsV) -> Seq<u8> {
    |v: NetworkStatsV| enc_network(v)
}

/// Parses one `NetworkStatsV` record.
#[verifier::opaque]
pub open spec fn dec_network(s: Seq<u8>, pos: int) -> Option<(NetworkStatsV, int)> {
    if at_lit(s, pos, k_network_0()) {
        match dec_opt(s, pos + k_network_0().len(), p_list_iface()) {
            None => None,
            Some((x0, q0)) => {
                if at_lit(s, q0, k_network_1()) {
                    match dec_opt(s, q0 + k_network_1().len(), p_sockets()) {
                        None => None,
                        Some((x1, q1)) => {
                            if at_lit(s, q1, k_obj_end()) {
                                Some((NetworkStatsV { interfaces: x0, sockets: x1 }, q1 + 1))
                            } else {
                                None
                            }
                        },
                    }
                } else {
                    None
                }
            },
        }
    } else {
        None
    }
}

/// The `network` parser as a function value.
pub open spec fn p_network() -> spec_fn(Seq<u8>, int) -> Option<(NetworkStatsV, int)> {
    |s: Seq<u8>, pos: int| dec_network(s, pos)
}

/// A `network` record's encoding starts with an opening brace.
pub proof fn lemma_enc_network_shape(v: NetworkStatsV)
    ensures
        enc_network(v).len() >= 1,
        enc_network(v)[0] == 0x7b,
{
    let a1 = k_network_0();
    let a2 = a1 + enc_opt(v.interfaces, e_list_iface());
    assert(a2[0] == a1[0]);
    let a3 = a2 + k_network_1();
    assert(a3[0] == a2[0]);
    let a4 = a3 + enc_opt(v.sockets, e_sockets());
    assert(a4[0] == a3[0]);
    let a5 = a4 + k_obj_end();
    assert(a5[0] == a4[0]);
    assert(enc_network(v) == a5);
}

/// The encoding of one `AllStatsV` record.
pub open spec fn enc_allstats(v: AllStatsV) -> Seq<u8> {
    k_allstats_0() + enc_general(v.general) + k_allstats_1() + enc_cpu(v.cpu) + k_allstats_2() + enc_opt(v.memory, e_memory()) + k_allstats_3() + enc_opt(v.filesystems, e_list_mount()) + k_allstats_4() + enc_network(v.network) + k_allstats_5() + enc_i64(v.collection_time) + k_obj_end()
}

/// The `allstats` encoder as a function value.
pub open spec fn e_allstats() -> spec_fn(AllStatsV) -> Seq<u8> {
    |v: AllStatsV| enc_allstats(v)
}

/// Parses one `AllStatsV` record.
#[verifier::opaque]
pub open spec fn dec_allstats(s: Seq<u8>, pos: int) -> Option<(AllStatsV, int)> {
    if at_lit(s, pos, k_allstats_0()) {
        match dec_general(s, pos + k_allstats_0().len()) {
            None => None,
            Some((x0, q0)) => {
                if at_lit(s, q0, k_allstats_1()) {
                    match dec_cpu(s, q0 + k_allstats_1().len()) {
                        None => None,
                        Some((x1, q1)) => {
                            if at_lit(s, q1, k_allstats_2()) {
                                match dec_opt(s, q1 + k_allstats_2().len(), p_memory()) {
                                    None => None,
                                    Some((x2, q2)) => {
                                        if at_lit(s, q2, k_allstats_3()) {
                                            match dec_opt(s, q2 + k_allstats_3().len(), p_list_mount()) {
                                                None => None,
                                                Some((x3, q3)) => {
                                                    if at_lit(s, q3, k_allstats_4()) {
                                                        match dec_network(s, q3 + k_allstats_4().len()) {
                                                            None => None,
                                                            Some((x4, q4)) => {
                                                                if at_lit(s, q4, k_allstats_5()) {
                                                                    match dec_i64(s, q4 + k_allstats_5().len()) {
                                                                        None => None,
                                                                        Some((x5, q5)) => {
                                                                            if at_lit(s, q5, k_obj_end()) {
                                                                                Some((AllStatsV { general: x0, cpu: x1, memory: x2, filesystems: x3, network: x4, collection_time: x5 }, q5 + 1))
                                                                            } else {
                                                                                None
                                                                            }
                                                                        },
                                                                    }
                                                                } else {
                                                                    None
                                                                }
                                                            },
                                                        }
                                                    } else {
                                                        None
                                                    }
                                                },
                                            }
                                        } else {
                                            None
                                        }
                                    },
                                }
                            } else {
                                None
                            }
                        },
                    }
                } else {
                    None
                }
            },
        }
    } else {
        None
    }
}

/// The `allstats` parser as a function value.
pub open spec fn p_allstats() -> spec_fn(Seq<u8>, int) -> Option<(AllStatsV, int)> {
    |s: Seq<u8>, pos: int| dec_allstats(s, pos)
}

/// A `allstats` record's encoding starts with an opening brace.
pub proof fn lemma_enc_allstats_shape(v: AllStatsV)
    ensures
        enc_allstats(v).len() >= 1,
        enc_allstats(v)[0] == 0x7b,
{
    let a1 = k_allstats_0();
    let a2 = a1 + enc_general(v.general);
    assert(a2[0] == a1[0]);
    let a3 = a2 + k_allstats_1();
    assert(a3[0] == a2[0]);
    let a4 = a3 + enc_cpu(v.cpu);
    assert(a4[0] == a3[0]);
    let a5 = a4 + k_allstats_2();
    assert(a5[0] == a4[0]);
    let a6 = a5 + enc_opt(v.memory, e_memory());
    assert(a6[0] == a5[0]);
    let a7 = a6 + k_allstats_3();
    assert(a7[0] == a6[0]);
    let a8 = a7 + enc_opt(v.filesystems, e_list_mount());
    assert(a8[0] == a7[0]);
    let a9 = a8 + k_allstats_4();
    assert(a9[0] == a8[0]);
    let a10 = a9 + enc_network(v.network);
    assert(a10[0] == a9[0]);
    let a11 = a10 + k_allstats_5();
    assert(a11[0] == a10[0]);
    let a12 = a11 + enc_i64(v.collection_time);
    assert(a12[0] == a11[0]);
    let a13 = a12 + k_obj_end();
    assert(a13[0] == a12[0]);
    assert(enc_allstats(v) == a13);
}

/// Every `i64` value parses back from its encoding.
pub proof fn lemma_parses_back_i64(s: Seq<u8>, v: i64)
    ensures
        parses_back(s, p_i64(), e_i64(), v),
{
    assert forall|q: int|
        0 <= q && q + e_i64()(v).len() <= s.len() && s.subrange(q, q + e_i64()(v).len())
            == e_i64()(v) && delim_after(s, q + e_i64()(v).len()) implies #[trigger] p_i64()(
        s,
        q,
    ) == Some((v, q + e_i64()(v).len())) by {
        lemma_dec_i64_at(s, q, v);
    }
}

/// Every `list_u64` value parses back from its encoding.
pub proof fn lemma_parses_back_list_u64(s: Seq<u8>, v: Seq<u64>)
    ensures
        parses_back(s, p_list_u64(), e_list_u64(), v),
{
    assert forall|q: int|
        0 <= q && q + e_list_u64()(v).len() <= s.len() && s.subrange(q, q + e_list_u64()(v).len())
            == e_list_u64()(v) && delim_after(s, q + e_list_u64()(v).len()) implies #[trigger] p_list_u64()(
        s,
        q,
    ) == Some((v, q + e_list_u64()(v).len())) by {
        assert forall|ii: int| 0 <= ii < v.len() implies parses_back(s, p_u64(), e_u64(), #[trigger] v[ii]) by {
            lemma_parses_back_u64(s, v[ii]);
        }
        assert forall|ii: int| 0 <= ii < v.len() implies e_u64()(#[trigger] v[ii]).len() >= 1 by {
            lemma_enc_u64_shape(v[ii]);
        }
        if v.len() >= 1 {
            lemma_enc_u64_shape(v[0]);
            assert(e_u64()(v[0])[0] != 0x5d);
        }
        lemma_dec_list_at(s, q, v, p_u64(), e_u64());
    }
}

/// Parsing at the encoding of a `loadavg` record gives back the record.
#[verifier::rlimit(100)]
pub proof fn lemma_dec_loadavg_at(s: Seq<u8>, pos: int, v: LoadAverages)
    requires
        at_lit(s, pos, enc_loadavg(v)),
    ensures
        dec_loadavg(s, pos) == Some((v, pos + enc_loadavg(v).len())),
{
    reveal(dec_loadavg);
    let f0 = enc_u64(v.one_minute);
    let f1 = enc_u64(v.five_minutes);
    let f2 = enc_u64(v.fifteen_minutes);
    let c1 = k_loadavg_0();
    let c2 = c1 + f0;
    let c3 = c2 + k_loadavg_1();
    let c4 = c3 + f1;
    let c5 = c4 + k_loadavg_2();
    let c6 = c5 + f2;
    let c7 = c6 + k_obj_end();
    assert(enc_loadavg(v) == c7);
    lemma_at_concat(s, pos, c6, k_obj_end());
    lemma_at_concat(s, pos, c5, f2);
    lemma_at_concat(s, pos, c4, k_loadavg_2());
    lemma_at_concat(s, pos, c3, f1);
    lemma_at_concat(s, pos, c2, k_loadavg_1());
    lemma_at_concat(s, pos, c1, f0);
    let p0 = pos + c1.len();
    let q0 = pos + c2.len();
    lemma_at_index(s, q0, k_loadavg_1(), 0);
    assert(delim_after(s, q0));
    let p1 = pos + c3.len();
    let q1 = pos + c4.len();
    lemma_at_index(s, q1, k_loadavg_2(), 0);
    assert(delim_after(s, q1));
    let p2 = pos + c5.len();
    let q2 = pos + c6.len();
    lemma_at_index(s, q2, k_obj_end(), 0);
    assert(delim_after(s, q2));
    lemma_dec_u64_at(s, p0, v.one_minute);
    lemma_dec_u64_at(s, p1, v.five_minutes);
    lemma_dec_u64_at(s, p2, v.fifteen_minutes);
}

/// Every `loadavg` value parses back from its encoding.
pub proof fn lemma_parses_back_loadavg(s: Seq<u8>, v: LoadAverages)
    ensures
        parses_back(s, p_loadavg(), e_loadavg(), v),
{
    assert forall|q: int|
        0 <= q && q + e_loadavg()(v).len() <= s.len() && s.subrange(q, q + e_loadavg()(v).len())
            == e_loadavg()(v) && delim_after(s, q + e_loadavg()(v).len()) implies #[trigger] p_loadavg()(
        s,
        q,
    ) == Some((v, q + e_loadavg()(v).len())) by {
        lemma_dec_loadavg_at(s, q, v);
    }
}

/// Parsing at the encoding of a `memory` record gives back the record.
#[verifier::rlimit(100)]
pub proof fn lemma_dec_memory_at(s: Seq<u8>, pos: int, v: MemoryStats)
    requires
        at_lit(s, pos, enc_memory(v)),
    ensures
        dec_memory(s, pos) == Some((v, pos + enc_memory(v).len())),
{
    reveal(dec_memory);
    let f0 = enc_u64(v.used_mb);
    let f1 = enc_u64(v.total_mb);
    let c1 = k_memory_0();
    let c2 = c1 + f0;
    let c3 = c2 + k_memory_1();
    let c4 = c3 + f1;
    let c5 = c4 + k_obj_end();
    assert(enc_memory(v) == c5);
    lemma_at_concat(s, pos, c4, k_obj_end());
    lemma_at_concat(s, pos, c3, f1);
    lemma_at_concat(s, pos, c2, k_memory_1());
    lemma_at_concat(s, pos, c1, f0);
    let p0 = pos + c1.len();
    let q0 = pos + c2.len();
    lemma_at_index(s, q0, k_memory_1(), 0);
    assert(delim_after(s, q0));
    let p1 = pos + c3.len();
    let q1 = pos + c4.len();
    lemma_at_index(s, q1, k_obj_end(), 0);
    assert(delim_after(s, q1));
    lemma_dec_u64_at(s, p0, v.used_mb);
    lemma_dec_u64_at(s, p1, v.total_mb);
}

/// Every `memory` value parses back from its encoding.
pub proof fn lemma_parses_back_memory(s: Seq<u8>, v: MemoryStats)
    ensures
        parses_back(s, p_memory(), e_memory(), v),
{
    assert forall|q: int|
        0 <= q && q + e_memory()(v).len() <= s.len() && s.subrange(q, q + e_memory()(v).len())
            == e_memory()(v) && delim_after(s, q + e_memory()(v).len()) implies #[trigger] p_memory()(
        s,
        q,
    ) == Some((v, q + e_memory()(v).len())) by {
        lemma_dec_memory_at(s, q, v);
    }
}

/// Parsing at the encoding of a `sockets` record gives back the record.
#[verifier::rlimit(100)]
pub proof fn lemma_dec_sockets_at(s: Seq<u8>, pos: int, v: SocketStats)
    requires
        at_lit(s, pos, enc_sockets(v)),
    ensures
        dec_sockets(s, pos) == Some((v, pos + enc_sockets(v).len())),
{
    reveal(dec_sockets);
    let f0 = enc_u64(v.tcp_in_use as u64);
    let f1 = enc_u64(v.tcp_orphaned as u64);
    let f2 = enc_u64(v.udp_in_use as u64);
    let f3 = enc_u64(v.tcp6_in_use as u64);
    let f4 = enc_u64(v.udp6_in_use as u64);
    let c1 = k_sockets_0();
    let c2 = c1 + f0;
    let c3 = c2 + k_sockets_1();
    let c4 = c3 + f1;
    let c5 = c4 + k_sockets_2();
    let c6 = c5 + f2;
    let c7 = c6 + k_sockets_3();
    let c8 = c7 + f3;
    let c9 = c8 + k_sockets_4();
    let c10 = c9 + f4;
    let c11 = c10 + k_obj_end();
    assert(enc_sockets(v) == c11);
    lemma_at_concat(s, pos, c10, k_obj_end());
    lemma_at_concat(s, pos, c9, f4);
    lemma_at_concat(s, pos, c8, k_sockets_4());
    lemma_at_concat(s, pos, c7, f3);
    lemma_at_concat(s, pos, c6, k_sockets_3());
    lemma_at_concat(s, pos, c5, f2);
    lemma_at_concat(s, pos, c4, k_sockets_2());
    lemma_at_concat(s, pos, c3, f1);
    lemma_at_concat(s, pos, c2, k_sockets_1());
    lemma_at_concat(s, pos, c1, f0);
    let p0 = pos + c1.len();
    let q0 = pos + c2.len();
    lemma_at_index(s, q0, k_sockets_1(), 0);
    assert(delim_after(s, q0));
    let p1 = pos + c3.len();
    let q1 = pos + c4.len();
    lemma_at_index(s, q1, k_sockets_2(), 0);
    assert(delim_after(s, q1));
    let p2 = pos + c5.len();
    let q2 = pos + c6.len();
    lemma_at_index(s, q2, k_sockets_3(), 0);
    assert(delim_after(s, q2));
    let p3 = pos + c7.len();
    let q3 = pos + c8.len();
    lemma_at_index(s, q3, k_sockets_4(), 0);
    assert(delim_after(s, q3));
    let p4 = pos + c9.len();
    let q4 = pos + c10.len();
    lemma_at_index(s, q4, k_obj_end(), 0);
    assert(delim_after(s, q4));
    lemma_dec_usize_at(s, p0, v.tcp_in_use);
    lemma_dec_usize_at(s, p1, v.tcp_orphaned);
    lemma_dec_usize_at(s, p2, v.udp_in_use);
    lemma_dec_usize_at(s, p3, v.tcp6_in_use);
    lemma_dec_usize_at(s, p4, v.udp6_in_use);
}

/// Every `sockets` value parses back from its encoding.
pub proof fn lemma_parses_back_sockets(s: Seq<u8>, v: SocketStats)
    ensures
        parses_back(s, p_sockets(), e_sockets(), v),
{
    assert forall|q: int|
        0 <= q && q + e_sockets()(v).len() <= s.len() && s.subrange(q, q + e_sockets()(v).len())
            == e_sockets()(v) && delim_after(s, q + e_sockets()(v).len()) implies #[trigger] p_sockets()(
        s,
        q,
    ) == Some((v, q + e_sockets()(v).len())) by {
        lemma_dec_sockets_at(s, q, v);
    }
}

/// Parsing at the encoding of a `mount` record gives back the record.
#[verifier::rlimit(100)]
pub proof fn lemma_dec_mount_at(s: Seq<u8>, pos: int, v: MountStatsV)
    requires
        at_lit(s, pos, enc_mount(v)),
    ensures
        dec_mount(s, pos) == Some((v, pos + enc_mount(v).len())),
{
    reveal(dec_mount);
    let f0 = enc_bstr(v.fs_type);
    let f1 = enc_bstr(v.mounted_from);
    let f2 = enc_bstr(v.mounted_on);
    let f3 = enc_u64(v.used_mb);
    let f4 = enc_u64(v.total_mb);
    let c1 = k_mount_0();
    let c2 = c1 + f0;
    let c3 = c2 + k_mount_1();
    let c4 = c3 + f1;
    let c5 = c4 + k_mount_2();
    let c6 = c5 + f2;
    let c7 = c6 + k_mount_3();
    let c8 = c7 + f3;
    let c9 = c8 + k_mount_4();
    let c10 = c9 + f4;
    let c11 = c10 + k_obj_end();
    assert(enc_mount(v) == c11);
    lemma_at_concat(s, pos, c10, k_obj_end());
    lemma_at_concat(s, pos, c9, f4);
    lemma_at_concat(s, pos, c8, k_mount_4());
    lemma_at_concat(s, pos, c7, f3);
    lemma_at_concat(s, pos, c6, k_mount_3());
    lemma_at_concat(s, pos, c5, f2);
    lemma_at_concat(s, pos, c4, k_mount_2());
    lemma_at_concat(s, pos, c3, f1);
    lemma_at_concat(s, pos, c2, k_mount_1());
    lemma_at_concat(s, pos, c1, f0);
    let p0 = pos + c1.len();
    let q0 = pos + c2.len();
    lemma_at_index(s, q0, k_mount_1(), 0);
    assert(delim_after(s, q0));
    let p1 = pos + c3.len();
    let q1 = pos + c4.len();
    lemma_at_index(s, q1, k_mount_2(), 0);
    assert(delim_after(s, q1));
    let p2 = pos + c5.len();
    let q2 = pos + c6.len();
    lemma_at_index(s, q2, k_mount_3(), 0);
    assert(delim_after(s, q2));
    let p3 = pos + c7.len();
    let q3 = pos + c8.len();
    lemma_at_index(s, q3, k_mount_4(), 0);
    assert(delim_after(s, q3));
    let p4 = pos + c9.len();
    let q4 = pos + c10.len();
    lemma_at_index(s, q4, k_obj_end(), 0);
    assert(delim_after(s, q4));
    lemma_dec_bstr_at(s, p0, v.fs_type);
    lemma_dec_bstr_at(s, p1, v.mounted_from);
    lemma_dec_bstr_at(s, p2, v.mounted_on);
    lemma_dec_u64_at(s, p3, v.used_mb);
    lemma_dec_u64_at(s, p4, v.total_mb);
}

/// Every `mount` value parses back from its encoding.
pub proof fn lemma_parses_back_mount(s: Seq<u8>, v: MountStatsV)
    ensures
        parses_back(s, p_mount(), e_mount(), v),
{
    assert forall|q: int|
        0 <= q && q + e_mount()(v).len() <= s.len() && s.subrange(q, q + e_mount()(v).len())
            == e_mount()(v) && delim_after(s, q + e_mount()(v).len()) implies #[trigger] p_mount()(
        s,
        q,
    ) == Some((v, q + e_mount()(v).len())) by {
        lemma_dec_mount_at(s, q, v);
    }
}

/// Every `list_mount` value parses back from its encoding.
pub proof fn lemma_parses_back_list_mount(s: Seq<u8>, v: Seq<MountStatsV>)
    ensures
        parses_back(s, p_list_mount(), e_list_mount(), v),
{
    assert forall|q: int|
        0 <= q && q + e_list_mount()(v).len() <= s.len() && s.subrange(q, q + e_list_mount()(v).len())
            == e_list_mount()(v) && delim_after(s, q + e_list_mount()(v).len()) implies #[trigger] p_list_mount()(
        s,
        q,
    ) == Some((v, q + e_list_mount()(v).len())) by {
        assert forall|ii: int| 0 <= ii < v.len() implies parses_back(s, p_mount(), e_mount(), #[trigger] v[ii]) by {
            lemma_parses_back_mount(s, v[ii]);
        }
        assert forall|ii: int| 0 <= ii < v.len() implies e_mount()(#[trigger] v[ii]).len() >= 1 by {
            lemma_enc_mount_shape(v[ii]);
        }
        if v.len() >= 1 {
            lemma_enc_mount_shape(v[0]);
            assert(e_mount()(v[0])[0] != 0x5d);
        }
        lemma_dec_list_at(s, q, v, p_mount(), e_mount());
    }
}

/// Parsing at the encoding of a `iface` record gives back the record.
#[verifier::rlimit(100)]
pub proof fn lemma_dec_iface_at(s: Seq<u8>, pos: int, v: NetworkInterfaceStatsV)
    requires
        at_lit(s, pos, enc_iface(v)),
    ensures
        dec_iface(s, pos) == Some((v, pos + enc_iface(v).len())),
{
    reveal(dec_iface);
    let f0 = enc_bstr(v.name);
    let f1 = enc_list(v.addresses, e_bstr());
    let f2 = enc_u64(v.sent_mb);
    let f3 = enc_u64(v.received_mb);
    let f4 = enc_u64(v.sent_packets);
    let f5 = enc_u64(v.received_packets);
    let f6 = enc_u64(v.send_errors);
    let f7 = enc_u64(v.receive_errors);
    let c1 = k_iface_0();
    let c2 = c1 + f0;
    let c3 = c2 + k_iface_1();
    let c4 = c3 + f1;
    let c5 = c4 + k_iface_2();
    let c6 = c5 + f2;
    let c7 = c6 + k_iface_3();
    let c8 = c7 + f3;
    let c9 = c8 + k_iface_4();
    let c10 = c9 + f4;
    let c11 = c10 + k_iface_5();
    let c12 = c11 + f5;
    let c13 = c12 + k_iface_6();
    let c14 = c13 + f6;
    let c15 = c14 + k_iface_7();
    let c16 = c15 + f7;
    let c17 = c16 + k_obj_end();
    assert(enc_iface(v) == c17);
    lemma_at_concat(s, pos, c16, k_obj_end());
    lemma_at_concat(s, pos, c15, f7);
    lemma_at_concat(s, pos, c14, k_iface_7());
    lemma_at_concat(s, pos, c13, f6);
    lemma_at_concat(s, pos, c12, k_iface_6());
    lemma_at_concat(s, pos, c11, f5);
    lemma_at_concat(s, pos, c10, k_iface_5());
    lemma_at_concat(s, pos, c9, f4);
    lemma_at_concat(s, pos, c8, k_iface_4());
    lemma_at_concat(s, pos, c7, f3);
    lemma_at_concat(s, pos, c6, k_iface_3());
    lemma_at_concat(s, pos, c5, f2);
    lemma_at_concat(s, pos, c4, k_iface_2());
    lemma_at_concat(s, pos, c3, f1);
    lemma_at_concat(s, pos, c2, k_iface_1());
    lemma_at_concat(s, pos, c1, f0);
    let p0 = pos + c1.len();
    let q0 = pos + c2.len();
    lemma_at_index(s, q0, k_iface_1(), 0);
    assert(delim_after(s, q0));
    let p1 = pos + c3.len();
    let q1 = pos + c4.len();
    lemma_at_index(s, q1, k_iface_2(), 0);
    assert(delim_after(s, q1));
    let p2 = pos + c5.len();
    let q2 = pos + c6.len();
    lemma_at_index(s, q2, k_iface_3(), 0);
    assert(delim_after(s, q2));
    let p3 = pos + c7.len();
    let q3 = pos + c8.len();
    lemma_at_index(s, q3, k_iface_4(), 0);
    assert(delim_after(s, q3));
    let p4 = pos + c9.len();
    let q4 = pos + c10.len();
    lemma_at_index(s, q4, k_iface_5(), 0);
    assert(delim_after(s, q4));
    let p5 = pos + c11.len();
    let q5 = pos + c12.len();
    lemma_at_index(s, q5, k_iface_6(), 0);
    assert(delim_after(s, q5));
    let p6 = pos + c13.len();
    let q6 = pos + c14.len();
    lemma_at_index(s, q6, k_iface_7(), 0);
    assert(delim_after(s, q6));
    let p7 = pos + c15.len();
    let q7 = pos + c16.len();
    lemma_at_index(s, q7, k_obj_end(), 0);
    assert(delim_after(s, q7));
    lemma_dec_bstr_at(s, p0, v.name);
    assert forall|ii: int| 0 <= ii < v.addresses.len() implies parses_back(s, p_bstr(), e_bstr(), #[trigger] v.addresses[ii]) by {
        lemma_parses_back_bstr(s, v.addresses[ii]);
    }
    assert forall|ii: int| 0 <= ii < v.addresses.len() implies e_bstr()(#[trigger] v.addresses[ii]).len() >= 1 by {
        lemma_enc_bstr_shape(v.addresses[ii]);
    }
    if v.addresses.len() >= 1 {
        lemma_enc_bstr_shape(v.addresses[0]);
        assert(e_bstr()(v.addresses[0])[0] != 0x5d);
    }
    lemma_dec_list_at(s, p1, v.addresses, p_bstr(), e_bstr());
    lemma_dec_u64_at(s, p2, v.sent_mb);
    lemma_dec_u64_at(s, p3, v.received_mb);
    lemma_dec_u64_at(s, p4, v.sent_packets);
    lemma_dec_u64_at(s, p5, v.received_packets);
    lemma_dec_u64_at(s, p6, v.send_errors);
    lemma_dec_u64_at(s, p7, v.receive_errors);
}

/// Every `iface` value parses back from its encoding.
pub proof fn lemma_parses_back_iface(s: Seq<u8>, v: NetworkInterfaceStatsV)
    ensures
        parses_back(s, p_iface(), e_iface(), v),
{
    assert forall|q: int|
        0 <= q && q + e_iface()(v).len() <= s.len() && s.subrange(q, q + e_iface()(v).len())
            == e_iface()(v) && delim_after(s, q + e_iface()(v).len()) implies #[trigger] p_iface()(
        s,
        q,
    ) == Some((v, q + e_iface()(v).len())) by {
        lemma_dec_iface_at(s, q, v);
    }
}

/// Every `list_iface` value parses back from its encoding.
pub proof fn lemma_parses_back_list_iface(s: Seq<u8>, v: Seq<NetworkInterfaceStatsV>)
    ensures
        parses_back(s, p_list_iface(), e_list_iface(), v),
{
    assert forall|q: int|
        0 <= q && q + e_list_iface()(v).len() <= s.len() && s.subrange(q, q + e_list_iface()(v).len())
            == e_list_iface()(v) && delim_after(s, q + e_list_iface()(v).len()) implies #[trigger] p_list_iface()(
        s,
        q,
    ) == Some((v, q + e_list_iface()(v).len())) by {
        assert forall|ii: int| 0 <= ii < v.len() implies parses_back(s, p_iface(), e_iface(), #[trigger] v[ii]) by {
            lemma_parses_back_iface(s, v[ii]);
        }
        assert forall|ii: int| 0 <= ii < v.len() implies e_iface()(#[trigger] v[ii]).len() >= 1 by {
            lemma_enc_iface_shape(v[ii]);
        }
        if v.len() >= 1 {
            lemma_enc_iface_shape(v[0]);
            assert(e_iface()(v[0])[0] != 0x5d);
        }
        lemma_dec_list_at(s, q, v, p_iface(), e_iface());
    }
}

/// Parsing at the encoding of a `general` record gives back the record.
#[verifier::rlimit(100)]
pub proof fn lemma_dec_general_at(s: Seq<u8>, pos: int, v: GeneralStats)
    requires
        at_lit(s, pos, enc_general(v)),
    ensures
        dec_general(s, pos) == Some((v, pos + enc_general(v).len())),
{
    reveal(dec_general);
    let f0 = enc_opt(v.uptime_seconds, e_u64());
    let f1 = enc_opt(v.boot_timestamp, e_i64());
    let f2 = enc_opt(v.load_averages, e_loadavg());
    let c1 = k_general_0();
    let c2 = c1 + f0;
    let c3 = c2 + k_general_1();
    let c4 = c3 + f1;
    let c5 = c4 + k_general_2();
    let c6 = c5 + f2;
    let c7 = c6 + k_obj_end();
    assert(enc_general(v) == c7);
    lemma_at_concat(s, pos, c6, k_obj_end());
    lemma_at_concat(s, pos, c5, f2);
    lemma_at_concat(s, pos, c4, k_general_2());
    lemma_at_concat(s, pos, c3, f1);
    lemma_at_concat(s, pos, c2, k_general_1());
    lemma_at_concat(s, pos, c1, f0);
    let p0 = pos + c1.len();
    let q0 = pos + c2.len();
    lemma_at_index(s, q0, k_general_1(), 0);
    assert(delim_after(s, q0));
    let p1 = pos + c3.len();
    let q1 = pos + c4.len();
    lemma_at_index(s, q1, k_general_2(), 0);
    assert(delim_after(s, q1));
    let p2 = pos + c5.len();
    let q2 = pos + c6.len();
    lemma_at_index(s, q2, k_obj_end(), 0);
    assert(delim_after(s, q2));
    match v.uptime_seconds {
        Some(x) => {
            lemma_parses_back_u64(s, x);
            lemma_enc_u64_shape(x);
            assert(e_u64()(x).len() >= 1 && e_u64()(x)[0] != 0x6e);
        },
        None => {},
    }
    lemma_dec_opt_at(s, p0, v.uptime_seconds, p_u64(), e_u64());
    match v.boot_timestamp {
        Some(x) => {
            lemma_parses_back_i64(s, x);
            lemma_enc_i64_shape(x);
            assert(e_i64()(x).len() >= 1 && e_i64()(x)[0] != 0x6e);
        },
        None => {},
    }
    lemma_dec_opt_at(s, p1, v.boot_timestamp, p_i64(), e_i64());
    match v.load_averages {
        Some(x) => {
            lemma_parses_back_loadavg(s, x);
            lemma_enc_loadavg_shape(x);
            assert(e_loadavg()(x).len() >= 1 && e_loadavg()(x)[0] != 0x6e);
        },
        None => {},
    }
    lemma_dec_opt_at(s, p2, v.load_averages, p_loadavg(), e_loadavg());
}

/// Parsing at the encoding of a `cpu` record gives back the record.
#[verifier::rlimit(100)]
pub proof fn lemma_dec_cpu_at(s: Seq<u8>, pos: int, v: CpuStatsV)
    requires
        at_lit(s, pos, enc_cpu(v)),
    ensures
        dec_cpu(s, pos) == Some((v, pos + enc_cpu(v).len())),
{
    reveal(dec_cpu);
    let f0 = enc_opt(v.per_logical_cpu_load_percent, e_list_u64());
    let f1 = enc_opt(v.aggregate_load_percent, e_u64());
    let f2 = enc_opt(v.temp_celsius, e_i64());
    let c1 = k_cpu_0();
    let c2 = c1 + f0;
    let c3 = c2 + k_cpu_1();
    let c4 = c3 + f1;
    let c5 = c4 + k_cpu_2();
    let c6 = c5 + f2;
    let c7 = c6 + k_obj_end();
    assert(enc_cpu(v) == c7);
    lemma_at_concat(s, pos, c6, k_obj_end());
    lemma_at_concat(s, pos, c5, f2);
    lemma_at_concat(s, pos, c4, k_cpu_2());
    lemma_at_concat(s, pos, c3, f1);
    lemma_at_concat(s, pos, c2, k_cpu_1());
    lemma_at_concat(s, pos, c1, f0);
    let p0 = pos + c1.len();
    let q0 = pos + c2.len();
    lemma_at_index(s, q0, k_cpu_1(), 0);
    assert(delim_after(s, q0));
    let p1 = pos + c3.len();
    let q1 = pos + c4.len();
    lemma_at_index(s, q1, k_cpu_2(), 0);
    assert(delim_after(s, q1));
    let p2 = pos + c5.len();
    let q2 = pos + c6.len();
    lemma_at_index(s, q2, k_obj_end(), 0);
    assert(delim_after(s, q2));
    match v.per_logical_cpu_load_percent {
        Some(x) => {
            lemma_parses_back_list_u64(s, x);
            lemma_enc_list_shape(x, e_u64());
            assert(e_list_u64()(x).len() >= 1 && e_list_u64()(x)[0] != 0x6e);
        },
        None => {},
    }
    lemma_dec_opt_at(s, p0, v.per_logical_cpu_load_percent, p_list_u64(), e_list_u64());
    match v.aggregate_load_percent {
        Some(x) => {
            lemma_parses_back_u64(s, x);
            lemma_enc_u64_shape(x);
            assert(e_u64()(x).len() >= 1 && e_u64()(x)[0] != 0x6e);
        },
        None => {},
    }
    lemma_dec_opt_at(s, p1, v.aggregate_load_percent, p_u64(), e_u64());
    match v.temp_celsius {
        Some(x) => {
            lemma_parses_back_i64(s, x);
            lemma_enc_i64_shape(x);
            assert(e_i64()(x).len() >= 1 && e_i64()(x)[0] != 0x6e);
        },
        None => {},
    }
    lemma_dec_opt_at(s, p2, v.temp_celsius, p_i64(), e_i64());
}

/// Parsing at the encoding of a `network` record gives back the record.
#[verifier::rlimit(100)]
pub proof fn lemma_dec_network_at(s: Seq<u8>, pos: int, v: NetworkStatsV)
    requires
        at_lit(s, pos, enc_network(v)),
    ensures
        dec_network(s, pos) == Some((v, pos + enc_network(v).len())),
{
    reveal(dec_network);
    let f0 = enc_opt(v.interfaces, e_list_iface());
    let f1 = enc_opt(v.sockets, e_sockets());
    let c1 = k_network_0();
    let c2 = c1 + f0;
    let c3 = c2 + k_network_1();
    let c4 = c3 + f1;
    let c5 = c4 + k_obj_end();
    assert(enc_network(v) == c5);
    lemma_at_concat(s, pos, c4, k_obj_end());
    lemma_at_concat(s, pos, c3, f1);
    lemma_at_concat(s, pos, c2, k_network_1());
    lemma_at_concat(s, pos, c1, f0);
    let p0 = pos + c1.len();
    let q0 = pos + c2.len();
    lemma_at_index(s, q0, k_network_1(), 0);
    assert(delim_after(s, q0));
    let p1 = pos + c3.len();
    let q1 = pos + c4.len();
    lemma_at_index(s, q1, k_obj_end(), 0);
    assert(delim_after(s, q1));
    match v.interfaces {
        Some(x) => {
            lemma_parses_back_list_iface(s, x);
            lemma_enc_list_shape(x, e_iface());
            assert(e_list_iface()(x).len() >= 1 && e_list_iface()(x)[0] != 0x6e);
        },
        None => {},
    }
    lemma_dec_opt_at(s, p0, v.interfaces, p_list_iface(), e_list_iface());
    match v.sockets {
        Some(x) => {
            lemma_parses_back_sockets(s, x);
            lemma_enc_sockets_shape(x);
            assert(e_sockets()(x).len() >= 1 && e_sockets()(x)[0] != 0x6e);
        },
        None => {},
    }
    lemma_dec_opt_at(s, p1, v.sockets, p_sockets(), e_sockets());
}

/// Parsing at the encoding of a `allstats` record gives back the record.
#[verifier::rlimit(100)]
pub proof fn lemma_dec_allstats_at(s: Seq<u8>, pos: int, v: AllStatsV)
    requires
        at_lit(s, pos, enc_allstats(v)),
    ensures
        dec_allstats(s, pos) == Some((v, pos + enc_allstats(v).len())),
{
    reveal(dec_allstats);
    let f0 = enc_general(v.general);
    let f1 = enc_cpu(v.cpu);
    let f2 = enc_opt(v.memory, e_memory());
    let f3 = enc_opt(v.filesystems, e_list_mount());
    let f4 = enc_network(v.network);
    let f5 = enc_i64(v.collection_time);
    let c1 = k_allstats_0();
    let c2 = c1 + f0;
    let c3 = c2 + k_allstats_1();
    let c4 = c3 + f1;
    let c5 = c4 + k_allstats_2();
    let c6 = c5 + f2;
    let c7 = c6 + k_allstats_3();
    let c8 = c7 + f3;
    let c9 = c8 + k_allstats_4();
    let c10 = c9 + f4;
    let c11 = c10 + k_allstats_5();
    let c12 = c11 + f5;
    let c13 = c12 + k_obj_end();
    assert(enc_allstats(v) == c13);
    lemma_at_concat(s, pos, c12, k_obj_end());
    lemma_at_concat(s, pos, c11, f5);
    lemma_at_concat(s, pos, c10, k_allstats_5());
    lemma_at_concat(s, pos, c9, f4);
    lemma_at_concat(s, pos, c8, k_allstats_4());
    lemma_at_concat(s, pos, c7, f3);
    lemma_at_concat(s, pos, c6, k_allstats_3());
    lemma_at_concat(s, pos, c5, f2);
    lemma_at_concat(s, pos, c4, k_allstats_2());
    lemma_at_concat(s, pos, c3, f1);
    lemma_at_concat(s, pos, c2, k_allstats_1());
    lemma_at_concat(s, pos, c1, f0);
    let p0 = pos + c1.len();
    let q0 = pos + c2.len();
    lemma_at_index(s, q0, k_allstats_1(), 0);
    assert(delim_after(s, q0));
    let p1 = pos + c3.len();
    let q1 = pos + c4.len();
    lemma_at_index(s, q1, k_allstats_2(), 0);
    assert(delim_after(s, q1));
    let p2 = pos + c5.len();
    let q2 = pos + c6.len();
    lemma_at_index(s, q2, k_allstats_3(), 0);
    assert(delim_after(s, q2));
    let p3 = pos + c7.len();
    let q3 = pos + c8.len();
    lemma_at_index(s, q3, k_allstats_4(), 0);
    assert(delim_after(s, q3));
    let p4 = pos + c9.len();
    let q4 = pos + c10.len();
    lemma_at_index(s, q4, k_allstats_5(), 0);
    assert(delim_after(s, q4));
    let p5 = pos + c11.len();
    let q5 = pos + c12.len();
    lemma_at_index(s, q5, k_obj_end(), 0);
    assert(delim_after(s, q5));
    lemma_dec_general_at(s, p0, v.general);
    lemma_dec_cpu_at(s, p1, v.cpu);
    match v.memory {
        Some(x) => {
            lemma_parses_back_memory(s, x);
            lemma_enc_memory_shape(x);
            assert(e_memory()(x).len() >= 1 && e_memory()(x)[0] != 0x6e);
        },
        None => {},
    }
    lemma_dec_opt_at(s, p2, v.memory, p_memory(), e_memory());
    match v.filesystems {
        Some(x) => {
            lemma_parses_back_list_mount(s, x);
            lemma_enc_list_shape(x, e_mount());
            assert(e_list_mount()(x).len() >= 1 && e_list_mount()(x)[0] != 0x6e);
        },
        None => {},
    }
    lemma_dec_opt_at(s, p3, v.filesystems, p_list_mount(), e_list_mount());
    lemma_dec_network_at(s, p4, v.network);
    lemma_dec_i64_at(s, p5, v.collection_time);
}

} // verus!
