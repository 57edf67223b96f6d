//! Effective-capability masks: decoding into capability positions, their
//! names, and the "dangerous process" predicate.

use vstd::prelude::*;

verus! {

/// Number of capability positions in an effective mask.
pub const CAP_COUNT: u64 = 64;

/// Whether bit `k` of `mask` is set.
pub open spec fn mask_bit(mask: u64, k: u64) -> bool {
    (mask >> k) & 1u64 == 1u64
}

/// `caps` lists exactly the positions of the set bits of `mask`, ascending.
pub open spec fn decodes(mask: u64, caps: Seq<u8>) -> bool {
    &&& forall|a: int, b: int| 0 <= a < b < caps.len() ==> caps[a] < caps[b]
    &&& forall|k: int| 0 <= k < caps.len() ==> caps[k] < 64
    &&& forall|k: u8| k < 64 ==> (caps.contains(k) <==> mask_bit(mask, k as u64))
}

/// The kernel's name for a capability position.
pub open spec fn cap_name_spec(bit: u8) -> Seq<char> {
    match bit {
        0 => "CAP_CHOWN"@,
        1 => "CAP_DAC_OVERRIDE"@,
        2 => "CAP_DAC_READ_SEARCH"@,
        3 => "CAP_FOWNER"@,
        4 => "CAP_FSETID"@,
        5 => "CAP_KILL"@,
        6 => "CAP_SETGID"@,
        7 => "CAP_SETUID"@,
        8 => "CAP_SETPCAP"@,
        9 => "CAP_LINUX_IMMUTABLE"@,
        10 => "CAP_NET_BIND_SERVICE"@,
        11 => "CAP_NET_BROADCAST"@,
        12 => "CAP_NET_ADMIN"@,
        13 => "CAP_NET_RAW"@,
        14 => "CAP_IPC_LOCK"@,
        15 => "CAP_IPC_OWNER"@,
        16 => "CAP_SYS_MODULE"@,
        17 => "CAP_SYS_RAWIO"@,
        18 => "CAP_SYS_CHROOT"@,
        19 => "CAP_SYS_PTRACE"@,
        20 => "CAP_SYS_PACCT"@,
        21 => "CAP_SYS_ADMIN"@,
        22 => "CAP_SYS_BOOT"@,
        23 => "CAP_SYS_NICE"@,
        24 => "CAP_SYS_RESOURCE"@,
        25 => "CAP_SYS_TIME"@,
        26 => "CAP_SYS_TTY_CONFIG"@,
        27 => "CAP_MKNOD"@,
        28 => "CAP_LEASE"@,
        29 => "CAP_AUDIT_WRITE"@,
        30 => "CAP_AUDIT_CONTROL"@,
        31 => "CAP_SETFCAP"@,
        32 => "CAP_MAC_OVERRIDE"@,
        33 => "CAP_MAC_ADMIN"@,
        34 => "CAP_SYSLOG"@,
        35 => "CAP_WAKE_ALARM"@,
        36 => "CAP_BLOCK_SUSPEND"@,
        37 => "CAP_AUDIT_READ"@,
        38 => "CAP_PERFMON"@,
        39 => "CAP_BPF"@,
        40 => "CAP_CHECKPOINT_RESTORE"@,
        41 => "CAP_41"@,
        42 => "CAP_42"@,
        43 => "CAP_43"@,
        44 => "CAP_44"@,
        45 => "CAP_45"@,
        46 => "CAP_46"@,
        47 => "CAP_47"@,
        48 => "CAP_48"@,
        49 => "CAP_49"@,
        50 => "CAP_50"@,
        51 => "CAP_51"@,
        52 => "CAP_52"@,
        53 => "CAP_53"@,
        54 => "CAP_54"@,
        55 => "CAP_55"@,
        56 => "CAP_56"@,
        57 => "CAP_57"@,
        58 => "CAP_58"@,
        59 => "CAP_59"@,
        60 => "CAP_60"@,
        61 => "CAP_61"@,
        62 => "CAP_62"@,
        63 => "CAP_63"@,
        _ => Seq::empty(),
    }
}

/// Positions whose presence marks an unprivileged process as dangerous:
/// SETGID, SETUID, NET_ADMIN, SYS_MODULE, SYS_RAWIO, SYS_CHROOT, SYS_PTRACE,
/// SYS_ADMIN, SYS_BOOT, SYS_NICE and SYS_TIME.
pub open spec fn is_hot(bit: u8) -> bool {
    bit == 6 || bit == 7 || bit == 12 || bit == 16 || bit == 17 || bit == 18 || bit == 19 || bit
        == 21 || bit == 22 || bit == 23 || bit == 25
}

/// A process owned by uid 0 is dangerous when it holds any capability; any
/// other process when it holds a hot one.
pub open spec fn is_dangerous(caps: Seq<u8>, uid: u32) -> bool {
    if uid == 0 {
        caps.len() > 0
    } else {
        exists|k: int| 0 <= k < caps.len() && is_hot(#[trigger] caps[k])
    }
}

/// Decodes an effective-capability mask into the ascending positions of its set bits.
pub fn mask_to_caps(mask: u64) -> (r: Vec<u8>)
    ensures
        decodes(mask, r@),
{
    let mut out: Vec<u8> = Vec::new();
    for i in 0..CAP_COUNT
        invariant
            forall|a: int, b: int| 0 <= a < b < out@.len() ==> out@[a] < out@[b],
            forall|k: int| 0 <= k < out@.len() ==> out@[k] < i,
            forall|k: u8| k < i ==> (out@.contains(k) <==> mask_bit(mask, k as u64)),
    {
        let ghost prev = out@;
        if (mask >> i) & 1 == 1 {
            out.push(i as u8);
            assert(out@[prev.len() as int] == i as u8);
        }
        assert forall|k: u8| k < i + 1 implies (out@.contains(k) <==> mask_bit(mask, k as u64)) by {
            if k < i {
                if prev.contains(k) {
                    let j = choose|j: int| 0 <= j < prev.len() && prev[j] == k;
                    assert(out@[j] == k);
                }
                if out@.contains(k) {
                    let j = choose|j: int| 0 <= j < out@.len() && out@[j] == k;
                    if j < prev.len() {
                        assert(prev[j] == k);
                    }
                }
            } else {
                if out@.contains(k) {
                    let j = choose|j: int| 0 <= j < out@.len() && out@[j] == k;
                    if j < prev.len() {
                        assert(prev[j] < i);
                    }
                }
            }
        }
    }
    out
}

/// The kernel's name for a capability position.
pub fn cap_name(bit: u8) -> (r: &'static str)
    requires
        bit < 64,
    ensures
        r@ == cap_name_spec(bit),
{
    match bit {
        0 => "CAP_CHOWN",
        1 => "CAP_DAC_OVERRIDE",
        2 => "CAP_DAC_READ_SEARCH",
        3 => "CAP_FOWNER",
        4 => "CAP_FSETID",
        5 => "CAP_KILL",
        6 => "CAP_SETGID",
        7 => "CAP_SETUID",
        8 => "CAP_SETPCAP",
        9 => "CAP_LINUX_IMMUTABLE",
        10 => "CAP_NET_BIND_SERVICE",
        11 => "CAP_NET_BROADCAST",
        12 => "CAP_NET_ADMIN",
        13 => "CAP_NET_RAW",
        14 => "CAP_IPC_LOCK",
        15 => "CAP_IPC_OWNER",
        16 => "CAP_SYS_MODULE",
        17 => "CAP_SYS_RAWIO",
        18 => "CAP_SYS_CHROOT",
        19 => "CAP_SYS_PTRACE",
        20 => "CAP_SYS_PACCT",
        21 => "CAP_SYS_ADMIN",
        22 => "CAP_SYS_BOOT",
        23 => "CAP_SYS_NICE",
        24 => "CAP_SYS_RESOURCE",
        25 => "CAP_SYS_TIME",
        26 => "CAP_SYS_TTY_CONFIG",
        27 => "CAP_MKNOD",
        28 => "CAP_LEASE",
        29 => "CAP_AUDIT_WRITE",
        30 => "CAP_AUDIT_CONTROL",
        31 => "CAP_SETFCAP",
        32 => "CAP_MAC_OVERRIDE",
        33 => "CAP_MAC_ADMIN",
        34 => "CAP_SYSLOG",
        35 => "CAP_WAKE_ALARM",
        36 => "CAP_BLOCK_SUSPEND",
        37 => "CAP_AUDIT_READ",
        38 => "CAP_PERFMON",
        39 => "CAP_BPF",
        40 => "CAP_CHECKPOINT_RESTORE",
        41 => "CAP_41",
        42 => "CAP_42",
        43 => "CAP_43",
        44 => "CAP_44",
        45 => "CAP_45",
        46 => "CAP_46",
        47 => "CAP_47",
        48 => "CAP_48",
        49 => "CAP_49",
        50 => "CAP_50",
        51 => "CAP_51",
        52 => "CAP_52",
        53 => "CAP_53",
        54 => "CAP_54",
        55 => "CAP_55",
        56 => "CAP_56",
        57 => "CAP_57",
        58 => "CAP_58",
        59 => "CAP_59",
        60 => "CAP_60",
        61 => "CAP_61",
        62 => "CAP_62",
        _ => "CAP_63",
    }
}

/// The names of the given capability positions, in the same order.
pub fn cap_names(caps: &Vec<u8>) -> (r: Vec<String>)
    requires
        forall|k: int| 0 <= k < caps@.len() ==> caps@[k] < 64,
    ensures
        r@.len() == caps@.len(),
        forall|k: int| 0 <= k < caps@.len() ==> r@[k]@ == cap_name_spec(caps@[k]),
{
    let mut out: Vec<String> = Vec::new();
    for i in 0..caps.len()
        invariant
            out@.len() == i,
            forall|k: int| 0 <= k < caps@.len() ==> caps@[k] < 64,
            forall|k: int| 0 <= k < i ==> out@[k]@ == cap_name_spec(caps@[k]),
    {
        out.push(String::from_str(cap_name(caps[i])));
    }
    out
}

/// Whether the hot list holds this position.
fn is_hot_cap(bit: u8) -> (r: bool)
    ensures
        r == is_hot(bit),
{
    bit == 6 || bit == 7 || bit == 12 || bit == 16 || bit == 17 || bit == 18 || bit == 19 || bit
        == 21 || bit == 22 || bit == 23 || bit == 25
}

/// Classifies a process by its capabilities and owner uid.
pub fn suspicious_caps(caps: &Vec<u8>, uid: u32) -> (r: bool)
    ensures
        r == is_dangerous(caps@, uid),
{
    if uid == 0 {
        return caps.len() > 0;
    }
    for i in 0..caps.len()
        invariant
            uid != 0,
            forall|k: int| 0 <= k < i ==> !is_hot(#[trigger] caps@[k]),
    {
        if is_hot_cap(caps[i]) {
            return true;
        }
    }
    false
}

/// Decoding is bit-exact: a position is listed exactly when its bit is set,
/// so the zero mask decodes to nothing and each single bit to its own position.
pub proof fn lemma_decode_bit_exact(mask: u64, caps: Seq<u8>)
    requires
        decodes(mask, caps),
    ensures
        forall|k: u8| k < 64 ==> (caps.contains(k) <==> mask_bit(mask, k as u64)),
        mask == 0 ==> caps.len() == 0,
        forall|k: u8| k < 64 && mask == (1u64 << k) ==> caps =~= seq![k],
{
    assert forall|k: u64| k < 64 implies !mask_bit(0u64, k) by {
        assert((0u64 >> k) & 1u64 != 1u64) by (bit_vector);
    }
    if mask == 0 && caps.len() > 0 {
        assert(caps.contains(caps[0]));
        assert(!mask_bit(0u64, caps[0] as u64));
    }
    assert forall|k: u8| k < 64 && mask == (1u64 << k) implies caps =~= seq![k] by {
        assert forall|j: u64| j < 64 implies (#[trigger] mask_bit(1u64 << (k as u64), j) <==> j == k as u64) by {
            let kk = k as u64;
            assert(kk < 64 && j < 64 ==> (((1u64 << kk) >> j) & 1u64 == 1u64 <==> j == kk))
                by (bit_vector);
        }
        assert(mask == 1u64 << (k as u64));
        assert(caps.contains(k));
        let i = choose|i: int| 0 <= i < caps.len() && caps[i] == k;
        assert forall|j: int| 0 <= j < caps.len() implies caps[j] == k by {
            assert(caps.contains(caps[j]));
            assert(mask_bit(mask, caps[j] as u64));
        }
        if caps.len() > 1 {
            assert(caps[0] < caps[1]);
        }
    }
}

/// With no capabilities even uid 0 is not dangerous; any single capability
/// makes a uid-0 process dangerous; NET_ADMIN alone makes any process
/// dangerous; capabilities outside the hot list never make a process of
/// another uid dangerous.
pub proof fn lemma_dangerous_cases(caps: Seq<u8>, bit: u8, uid: u32)
    ensures
        !is_dangerous(Seq::empty(), 0),
        is_dangerous(seq![bit], 0),
        is_dangerous(seq![12u8], uid),
        uid != 0 && (forall|k: int| 0 <= k < caps.len() ==> !is_hot(caps[k])) ==> !is_dangerous(
            caps,
            uid,
        ),
{
    if uid != 0 {
        assert(is_hot(seq![12u8][0]));
    }
}

} // verus!
