//! Per-process records: status parsing, command lines, and the privilege,
//! cross (privileged socket holder) and secret findings drawn from them.

use vstd::prelude::*;
use crate::caps::{decodes, is_dangerous, is_hot, mask_bit, mask_to_caps, suspicious_caps};
use crate::correlate::{CorrelationMap, InodeOwners};
use crate::num::{parse_spec, parse_unsigned};
use crate::secrets::{
    joined_args, join_nonempty, looks_sensitive, sensitive_spec, truncate, truncate_spec,
    MAX_VALUE_LEN,
};
use crate::text::{
    fields, fields_spec, from_chars, has_prefix, split_chars, split_spec, starts_with, sub_chars,
    to_chars, views,
};

verus! {

/// What was read for one process; `None` where the source could not be read.
pub struct ProcessRecord {
    pub pid: i32,
    pub status: Option<String>,
    pub cmdline: Option<String>,
    pub environ: Option<String>,
}

/// A process holding dangerous capabilities.
pub struct PrivFinding {
    pub pid: i32,
    pub uid: u32,
    pub caps: Vec<u8>,
    pub cmd: String,
}

/// A process holding dangerous capabilities and at least one socket.
pub struct CrossFinding {
    pub pid: i32,
    pub uid: u32,
    pub caps: Vec<u8>,
    pub inodes: Vec<u64>,
    pub cmd: String,
}

/// Where a secret was seen.
#[derive(Clone, Copy, Debug, PartialEq, Eq, Structural)]
pub enum SecretKind {
    Cmdline,
    Env,
}

/// A credential-like value seen in a process's command line or environment.
pub struct SecretFinding {
    pub pid: i32,
    pub kind: SecretKind,
    pub value: String,
}

impl View for SecretFinding {
    type V = (i32, SecretKind, Seq<char>);

    open spec fn view(&self) -> (i32, SecretKind, Seq<char>) {
        (self.pid, self.kind, self.value@)
    }
}

/// The text of each SecretKind value.
pub open spec fn secret_kind_name(v: SecretKind) -> Seq<char> {
    match v {
        SecretKind::Cmdline => "cmdline"@,
        SecretKind::Env => "env"@,
    }
}

impl SecretKind {
    /// The kind's tag.
    pub fn name(&self) -> (r: &'static str)
        ensures
            r@ == secret_kind_name(*self),
    {
        match self {
            SecretKind::Cmdline => "cmdline",
            SecretKind::Env => "env",
        }
    }
}

/// The uid and raw capability text that the status lines give: the last
/// `Uid:` line's first value (zero when it does not parse) and the last
/// `CapEff:` line's value.
pub open spec fn status_scan(lines: Seq<Seq<char>>) -> (u32, Seq<char>)
    decreases lines.len(),
{
    if lines.len() == 0 {
        (0u32, Seq::empty())
    } else {
        let prev = status_scan(lines.drop_last());
        let l = lines.last();
        let f = fields_spec(l);
        if has_prefix(l, "Uid:"@) {
            if f.len() >= 2 {
                (dec_u32_or_zero(f[1]), prev.1)
            } else {
                prev
            }
        } else if has_prefix(l, "CapEff:"@) {
            if f.len() >= 2 {
                (prev.0, f[1])
            } else {
                prev
            }
        } else {
            prev
        }
    }
}

/// A decimal u32, zero when it does not parse.
pub open spec fn dec_u32_or_zero(s: Seq<char>) -> u32 {
    match parse_spec(s, 10, u32::MAX as nat) {
        Some(v) => v as u32,
        None => 0,
    }
}

/// `s` with every leading `0x` removed.
pub open spec fn strip_hex_marker(s: Seq<char>) -> Seq<char>
    decreases s.len(),
{
    if s.len() >= 2 && s[0] == '0' && s[1] == 'x' {
        strip_hex_marker(s.subrange(2, s.len() as int))
    } else {
        s
    }
}

/// The owner uid of a status text.
pub open spec fn status_uid(text: Seq<char>) -> u32 {
    status_scan(split_spec(text, '\n')).0
}

/// The effective-capability mask of a status text, zero when absent or malformed.
pub open spec fn status_mask(text: Seq<char>) -> u64 {
    match parse_spec(strip_hex_marker(status_scan(split_spec(text, '\n')).1), 16, u64::MAX as nat) {
        Some(v) => v as u64,
        None => 0,
    }
}

/// The command line of a process: its arguments joined by spaces, or
/// `<unknown>` when none could be read.
pub open spec fn command_spec(raw: Option<String>) -> Seq<char> {
    match raw {
        Some(s) => if joined_args(s@).len() > 0 {
            joined_args(s@)
        } else {
            "<unknown>"@
        },
        None => "<unknown>"@,
    }
}

/// Dangerous by the mask itself: uid 0 with any bit set, or any uid with a hot bit set.
pub open spec fn mask_dangerous(mask: u64, uid: u32) -> bool {
    if uid == 0 {
        mask != 0
    } else {
        exists|b: u8| b < 64 && is_hot(b) && #[trigger] mask_bit(mask, b as u64)
    }
}

/// Whether a process's status marks it as dangerous.
pub open spec fn priv_selected(p: ProcessRecord) -> bool {
    match p.status {
        Some(s) => mask_dangerous(status_mask(s@), status_uid(s@)),
        None => false,
    }
}

/// The inodes of `entries` whose owners include `pid`, in order.
pub open spec fn inodes_held(entries: Seq<InodeOwners>, pid: i32) -> Seq<u64>
    decreases entries.len(),
{
    if entries.len() == 0 {
        Seq::empty()
    } else {
        let prev = inodes_held(entries.drop_last(), pid);
        if entries.last().pids@.contains(pid) {
            prev.push(entries.last().inode)
        } else {
            prev
        }
    }
}

/// Whether a process is dangerous and holds a socket of `map`.
pub open spec fn cross_selected(p: ProcessRecord, map: CorrelationMap) -> bool {
    priv_selected(p) && inodes_held(map.entries@, p.pid).len() > 0
}

/// The dangerous processes, in order.
pub open spec fn priv_records(procs: Seq<ProcessRecord>) -> Seq<ProcessRecord>
    decreases procs.len(),
{
    if procs.len() == 0 {
        Seq::empty()
    } else {
        let prev = priv_records(procs.drop_last());
        if priv_selected(procs.last()) {
            prev.push(procs.last())
        } else {
            prev
        }
    }
}

/// The dangerous processes that hold a socket of `map`, in order.
pub open spec fn cross_records(procs: Seq<ProcessRecord>, map: CorrelationMap) -> Seq<ProcessRecord>
    decreases procs.len(),
{
    if procs.len() == 0 {
        Seq::empty()
    } else {
        let prev = cross_records(procs.drop_last(), map);
        if cross_selected(procs.last(), map) {
            prev.push(procs.last())
        } else {
            prev
        }
    }
}

/// The findings for the environment entries `pieces` of process `pid`.
pub open spec fn env_findings(pid: i32, pieces: Seq<Seq<char>>) -> Seq<(i32, SecretKind, Seq<char>)>
    decreases pieces.len(),
{
    if pieces.len() == 0 {
        Seq::empty()
    } else {
        let prev = env_findings(pid, pieces.drop_last());
        let e = pieces.last();
        if e.len() > 0 && sensitive_spec(e) {
            prev.push((pid, SecretKind::Env, truncate_spec(e, MAX_VALUE_LEN as nat)))
        } else {
            prev
        }
    }
}

/// The findings for one process: its joined command line, then each environment entry.
pub open spec fn process_findings(p: ProcessRecord) -> Seq<(i32, SecretKind, Seq<char>)> {
    let cmd: Seq<(i32, SecretKind, Seq<char>)> = match p.cmdline {
        Some(c) => if sensitive_spec(joined_args(c@)) {
            seq![(p.pid, SecretKind::Cmdline, truncate_spec(joined_args(c@), MAX_VALUE_LEN as nat))]
        } else {
            Seq::empty()
        },
        None => Seq::empty(),
    };
    let env: Seq<(i32, SecretKind, Seq<char>)> = match p.environ {
        Some(e) => env_findings(p.pid, split_spec(e@, '\0')),
        None => Seq::empty(),
    };
    cmd + env
}

/// The findings for all processes, in order.
pub open spec fn secrets_spec(procs: Seq<ProcessRecord>) -> Seq<(i32, SecretKind, Seq<char>)>
    decreases procs.len(),
{
    if procs.len() == 0 {
        Seq::empty()
    } else {
        secrets_spec(procs.drop_last()) + process_findings(procs.last())
    }
}

/// The views of a list of findings.
pub open spec fn finding_views(v: Seq<SecretFinding>) -> Seq<(i32, SecretKind, Seq<char>)> {
    v.map_values(|f: SecretFinding| f@)
}

/// The process id a process-table entry name denotes: a positive decimal integer.
pub fn parse_pid(name: &str) -> (r: Option<i32>)
    ensures
        match parse_spec(name@, 10, i32::MAX as nat) {
            Some(v) => if v > 0 {
                r == Some(v as i32)
            } else {
                r is None
            },
            None => r is None,
        },
{
    let cs = to_chars(name);
    match parse_unsigned(&cs, 10, i32::MAX as u64) {
        Some(v) => if v > 0 {
            Some(v as i32)
        } else {
            None
        },
        None => None,
    }
}

fn strip_marker(s: &Vec<char>) -> (r: Vec<char>)
    ensures
        r@ == strip_hex_marker(s@),
{
    let mut i: usize = 0;
    assert(s@.subrange(0, s@.len() as int) =~= s@);
    while s.len() - i >= 2 && s[i] == '0' && s[i + 1] == 'x'
        invariant
            i <= s@.len(),
            strip_hex_marker(s@.subrange(i as int, s@.len() as int)) == strip_hex_marker(s@),
        decreases s.len() - i,
    {
        assert(s@.subrange(i as int, s@.len() as int).subrange(2, s@.len() - i) =~= s@.subrange(i + 2, s@.len() as int));
        i = i + 2;
    }
    sub_chars(s, i, s.len())
}

/// Reads the owner uid and effective-capability mask from a status text.
pub fn parse_status(text: &str) -> (r: (u32, u64))
    ensures
        r == (status_uid(text@), status_mask(text@)),
{
    let chars = to_chars(text);
    let lines = split_chars(&chars, '\n');
    let mut uid: u32 = 0;
    let mut cap: Vec<char> = Vec::new();
    for i in 0..lines.len()
        invariant
            views(lines@) == split_spec(text@, '\n'),
            (uid, cap@) == status_scan(views(lines@).subrange(0, i as int)),
    {
        assert(views(lines@).subrange(0, i + 1).drop_last() =~= views(lines@).subrange(0, i as int));
        let line = &lines[i];
        let f = fields(line);
        if starts_with(line, "Uid:") {
            if f.len() >= 2 {
                uid = match parse_unsigned(&f[1], 10, u32::MAX as u64) {
                    Some(v) => v as u32,
                    None => 0,
                };
            }
        } else if starts_with(line, "CapEff:") {
            if f.len() >= 2 {
                cap = sub_chars(&f[1], 0, f[1].len());
                assert(f@[1]@.subrange(0, f@[1]@.len() as int) =~= f@[1]@);
            }
        }
    }
    assert(views(lines@).subrange(0, lines@.len() as int) =~= views(lines@));
    let stripped = strip_marker(&cap);
    let mask = match parse_unsigned(&stripped, 16, u64::MAX) {
        Some(v) => v,
        None => 0,
    };
    (uid, mask)
}

/// The command line of a process, from its NUL-separated argument block.
pub fn command_line(raw: &Option<String>) -> (r: String)
    ensures
        r@ == command_spec(*raw),
{
    match raw {
        Some(s) => {
            let cs = to_chars(s.as_str());
            let pieces = split_chars(&cs, '\0');
            let joined = join_nonempty(&pieces);
            if joined.len() > 0 {
                from_chars(&joined)
            } else {
                String::from_str("<unknown>")
            }
        },
        None => String::from_str("<unknown>"),
    }
}

/// A finding made from a selected process record.
pub open spec fn priv_matches(f: PrivFinding, p: ProcessRecord) -> bool {
    match p.status {
        Some(s) => f.pid == p.pid && f.uid == status_uid(s@) && decodes(status_mask(s@), f.caps@)
            && f.cmd@ == command_spec(p.cmdline),
        None => false,
    }
}

/// A cross finding made from a selected process record.
pub open spec fn cross_matches(f: CrossFinding, p: ProcessRecord, map: CorrelationMap) -> bool {
    match p.status {
        Some(s) => f.pid == p.pid && f.uid == status_uid(s@) && decodes(status_mask(s@), f.caps@)
            && f.inodes@ == inodes_held(map.entries@, p.pid) && f.cmd@ == command_spec(p.cmdline),
        None => false,
    }
}

proof fn lemma_zero_mask(mask: u64)
    requires
        forall|k: u64| k < 64 ==> !#[trigger] mask_bit(mask, k),
    ensures
        mask == 0,
{
    assert(!mask_bit(mask, 0u64));
    assert(!mask_bit(mask, 1u64));
    assert(!mask_bit(mask, 2u64));
    assert(!mask_bit(mask, 3u64));
    assert(!mask_bit(mask, 4u64));
    assert(!mask_bit(mask, 5u64));
    assert(!mask_bit(mask, 6u64));
    assert(!mask_bit(mask, 7u64));
    assert(!mask_bit(mask, 8u64));
    assert(!mask_bit(mask, 9u64));
    assert(!mask_bit(mask, 10u64));
    assert(!mask_bit(mask, 11u64));
    assert(!mask_bit(mask, 12u64));
    assert(!mask_bit(mask, 13u64));
    assert(!mask_bit(mask, 14u64));
    assert(!mask_bit(mask, 15u64));
    assert(!mask_bit(mask, 16u64));
    assert(!mask_bit(mask, 17u64));
    assert(!mask_bit(mask, 18u64));
    assert(!mask_bit(mask, 19u64));
    assert(!mask_bit(mask, 20u64));
    assert(!mask_bit(mask, 21u64));
    assert(!mask_bit(mask, 22u64));
    assert(!mask_bit(mask, 23u64));
    assert(!mask_bit(mask, 24u64));
    assert(!mask_bit(mask, 25u64));
    assert(!mask_bit(mask, 26u64));
    assert(!mask_bit(mask, 27u64));
    assert(!mask_bit(mask, 28u64));
    assert(!mask_bit(mask, 29u64));
    assert(!mask_bit(mask, 30u64));
    assert(!mask_bit(mask, 31u64));
    assert(!mask_bit(mask, 32u64));
    assert(!mask_bit(mask, 33u64));
    assert(!mask_bit(mask, 34u64));
    assert(!mask_bit(mask, 35u64));
    assert(!mask_bit(mask, 36u64));
    assert(!mask_bit(mask, 37u64));
    assert(!mask_bit(mask, 38u64));
    assert(!mask_bit(mask, 39u64));
    assert(!mask_bit(mask, 40u64));
    assert(!mask_bit(mask, 41u64));
    assert(!mask_bit(mask, 42u64));
    assert(!mask_bit(mask, 43u64));
    assert(!mask_bit(mask, 44u64));
    assert(!mask_bit(mask, 45u64));
    assert(!mask_bit(mask, 46u64));
    assert(!mask_bit(mask, 47u64));
    assert(!mask_bit(mask, 48u64));
    assert(!mask_bit(mask, 49u64));
    assert(!mask_bit(mask, 50u64));
    assert(!mask_bit(mask, 51u64));
    assert(!mask_bit(mask, 52u64));
    assert(!mask_bit(mask, 53u64));
    assert(!mask_bit(mask, 54u64));
    assert(!mask_bit(mask, 55u64));
    assert(!mask_bit(mask, 56u64));
    assert(!mask_bit(mask, 57u64));
    assert(!mask_bit(mask, 58u64));
    assert(!mask_bit(mask, 59u64));
    assert(!mask_bit(mask, 60u64));
    assert(!mask_bit(mask, 61u64));
    assert(!mask_bit(mask, 62u64));
    assert(!mask_bit(mask, 63u64));
    assert(mask == 0) by (bit_vector)
        requires
            (mask >> 0u64) & 1u64 != 1u64,
            (mask >> 1u64) & 1u64 != 1u64,
            (mask >> 2u64) & 1u64 != 1u64,
            (mask >> 3u64) & 1u64 != 1u64,
            (mask >> 4u64) & 1u64 != 1u64,
            (mask >> 5u64) & 1u64 != 1u64,
            (mask >> 6u64) & 1u64 != 1u64,
            (mask >> 7u64) & 1u64 != 1u64,
            (mask >> 8u64) & 1u64 != 1u64,
            (mask >> 9u64) & 1u64 != 1u64,
            (mask >> 10u64) & 1u64 != 1u64,
            (mask >> 11u64) & 1u64 != 1u64,
            (mask >> 12u64) & 1u64 != 1u64,
            (mask >> 13u64) & 1u64 != 1u64,
            (mask >> 14u64) & 1u64 != 1u64,
            (mask >> 15u64) & 1u64 != 1u64,
            (mask >> 16u64) & 1u64 != 1u64,
            (mask >> 17u64) & 1u64 != 1u64,
            (mask >> 18u64) & 1u64 != 1u64,
            (mask >> 19u64) & 1u64 != 1u64,
            (mask >> 20u64) & 1u64 != 1u64,
            (mask >> 21u64) & 1u64 != 1u64,
            (mask >> 22u64) & 1u64 != 1u64,
            (mask >> 23u64) & 1u64 != 1u64,
            (mask >> 24u64) & 1u64 != 1u64,
            (mask >> 25u64) & 1u64 != 1u64,
            (mask >> 26u64) & 1u64 != 1u64,
            (mask >> 27u64) & 1u64 != 1u64,
            (mask >> 28u64) & 1u64 != 1u64,
            (mask >> 29u64) & 1u64 != 1u64,
            (mask >> 30u64) & 1u64 != 1u64,
            (mask >> 31u64) & 1u64 != 1u64,
            (mask >> 32u64) & 1u64 != 1u64,
            (mask >> 33u64) & 1u64 != 1u64,
            (mask >> 34u64) & 1u64 != 1u64,
            (mask >> 35u64) & 1u64 != 1u64,
            (mask >> 36u64) & 1u64 != 1u64,
            (mask >> 37u64) & 1u64 != 1u64,
            (mask >> 38u64) & 1u64 != 1u64,
            (mask >> 39u64) & 1u64 != 1u64,
            (mask >> 40u64) & 1u64 != 1u64,
            (mask >> 41u64) & 1u64 != 1u64,
            (mask >> 42u64) & 1u64 != 1u64,
            (mask >> 43u64) & 1u64 != 1u64,
            (mask >> 44u64) & 1u64 != 1u64,
            (mask >> 45u64) & 1u64 != 1u64,
            (mask >> 46u64) & 1u64 != 1u64,
            (mask >> 47u64) & 1u64 != 1u64,
            (mask >> 48u64) & 1u64 != 1u64,
            (mask >> 49u64) & 1u64 != 1u64,
            (mask >> 50u64) & 1u64 != 1u64,
            (mask >> 51u64) & 1u64 != 1u64,
            (mask >> 52u64) & 1u64 != 1u64,
            (mask >> 53u64) & 1u64 != 1u64,
            (mask >> 54u64) & 1u64 != 1u64,
            (mask >> 55u64) & 1u64 != 1u64,
            (mask >> 56u64) & 1u64 != 1u64,
            (mask >> 57u64) & 1u64 != 1u64,
            (mask >> 58u64) & 1u64 != 1u64,
            (mask >> 59u64) & 1u64 != 1u64,
            (mask >> 60u64) & 1u64 != 1u64,
            (mask >> 61u64) & 1u64 != 1u64,
            (mask >> 62u64) & 1u64 != 1u64,
            (mask >> 63u64) & 1u64 != 1u64,
    ;
}

/// On a decoded mask the danger predicate can be read off the mask itself.
pub proof fn lemma_dangerous_by_mask(mask: u64, caps: Seq<u8>, uid: u32)
    requires
        decodes(mask, caps),
    ensures
        is_dangerous(caps, uid) == mask_dangerous(mask, uid),
{
    if uid == 0 {
        if caps.len() > 0 {
            assert(caps.contains(caps[0]));
            assert(mask_bit(mask, caps[0] as u64));
            assert(mask != 0) by {
                let b = caps[0] as u64;
                assert(b < 64 && (mask >> b) & 1u64 == 1u64 ==> mask != 0) by (bit_vector);
            }
        } else {
            assert forall|k: u64| k < 64 implies !#[trigger] mask_bit(mask, k) by {
                if mask_bit(mask, k) {
                    assert(caps.contains(k as u8));
                }
            }
            lemma_zero_mask(mask);
        }
    } else {
        if is_dangerous(caps, uid) {
            let k = choose|k: int| 0 <= k < caps.len() && is_hot(#[trigger] caps[k]);
            assert(caps.contains(caps[k]));
            assert(mask_bit(mask, caps[k] as u64));
        }
        if mask_dangerous(mask, uid) {
            let b = choose|b: u8| b < 64 && is_hot(b) && #[trigger] mask_bit(mask, b as u64);
            assert(caps.contains(b));
            let k = choose|k: int| 0 <= k < caps.len() && caps[k] == b;
            assert(is_hot(caps[k]));
        }
    }
}

/// The inodes of `map` that `pid` holds, in map order.
pub fn inodes_of(map: &CorrelationMap, pid: i32) -> (r: Vec<u64>)
    ensures
        r@ == inodes_held(map.entries@, pid),
{
    let mut out: Vec<u64> = Vec::new();
    for j in 0..map.entries.len()
        invariant
            out@ == inodes_held(map.entries@.subrange(0, j as int), pid),
    {
        assert(map.entries@.subrange(0, j + 1).drop_last() =~= map.entries@.subrange(0, j as int));
        let pids = &map.entries[j].pids;
        let mut held = false;
        for q in 0..pids.len()
            invariant
                held <==> exists|k: int| 0 <= k < q && pids@[k] == pid,
        {
            if pids[q] == pid {
                held = true;
            }
        }
        if held {
            out.push(map.entries[j].inode);
        }
    }
    assert(map.entries@.subrange(0, map.entries@.len() as int) =~= map.entries@);
    out
}

/// The privilege findings: one per process whose status marks it as dangerous.
pub fn collect_priv_issues(procs: &Vec<ProcessRecord>) -> (r: Vec<PrivFinding>)
    ensures
        r@.len() == priv_records(procs@).len(),
        forall|k: int| 0 <= k < r@.len() ==> priv_matches(#[trigger] r@[k], priv_records(procs@)[k]),
{
    let mut out: Vec<PrivFinding> = Vec::new();
    for i in 0..procs.len()
        invariant
            out@.len() == priv_records(procs@.subrange(0, i as int)).len(),
            forall|k: int| 0 <= k < out@.len() ==> priv_matches(#[trigger] out@[k], priv_records(procs@.subrange(0, i as int))[k]),
    {
        assert(procs@.subrange(0, i + 1).drop_last() =~= procs@.subrange(0, i as int));
        let ghost prev = priv_records(procs@.subrange(0, i as int));
        let p = &procs[i];
        if let Some(st) = &p.status {
            let (uid, mask) = parse_status(st.as_str());
            let caps = mask_to_caps(mask);
            proof {
                lemma_dangerous_by_mask(mask, caps@, uid);
            }
            if suspicious_caps(&caps, uid) {
                let cmd = command_line(&p.cmdline);
                let ghost out0 = out@;
                out.push(PrivFinding { pid: p.pid, uid, caps, cmd });
                assert forall|k: int| 0 <= k < out@.len() implies priv_matches(#[trigger] out@[k], priv_records(procs@.subrange(0, i + 1))[k]) by {
                    if k < out0.len() {
                        assert(out@[k] == out0[k]);
                    }
                }
            }
        }
    }
    assert(procs@.subrange(0, procs@.len() as int) =~= procs@);
    out
}

/// The cross findings: one per dangerous process that holds at least one socket of `map`.
pub fn collect_cross_issues(procs: &Vec<ProcessRecord>, map: &CorrelationMap) -> (r: Vec<CrossFinding>)
    ensures
        r@.len() == cross_records(procs@, *map).len(),
        forall|k: int| 0 <= k < r@.len() ==> cross_matches(#[trigger] r@[k], cross_records(procs@, *map)[k], *map),
{
    let mut out: Vec<CrossFinding> = Vec::new();
    for i in 0..procs.len()
        invariant
            out@.len() == cross_records(procs@.subrange(0, i as int), *map).len(),
            forall|k: int| 0 <= k < out@.len() ==> cross_matches(#[trigger] out@[k], cross_records(procs@.subrange(0, i as int), *map)[k], *map),
    {
        assert(procs@.subrange(0, i + 1).drop_last() =~= procs@.subrange(0, i as int));
        let p = &procs[i];
        if let Some(st) = &p.status {
            let (uid, mask) = parse_status(st.as_str());
            let caps = mask_to_caps(mask);
            proof {
                lemma_dangerous_by_mask(mask, caps@, uid);
            }
            if suspicious_caps(&caps, uid) {
                let inodes = inodes_of(map, p.pid);
                if inodes.len() > 0 {
                    let cmd = command_line(&p.cmdline);
                    let ghost out0 = out@;
                    out.push(CrossFinding { pid: p.pid, uid, caps, inodes, cmd });
                    assert forall|k: int| 0 <= k < out@.len() implies cross_matches(#[trigger] out@[k], cross_records(procs@.subrange(0, i + 1), *map)[k], *map) by {
                        if k < out0.len() {
                            assert(out@[k] == out0[k]);
                        }
                    }
                }
            }
        }
    }
    assert(procs@.subrange(0, procs@.len() as int) =~= procs@);
    out
}

/// Scans one process's command line (joined) and environment entries for secrets.
pub fn scan_process(p: &ProcessRecord) -> (r: Vec<SecretFinding>)
    ensures
        finding_views(r@) == process_findings(*p),
{
    let mut out: Vec<SecretFinding> = Vec::new();
    if let Some(c) = &p.cmdline {
        let cs = to_chars(c.as_str());
        let pieces = split_chars(&cs, '\0');
        let joined = join_nonempty(&pieces);
        if looks_sensitive(&joined) {
            out.push(SecretFinding { pid: p.pid, kind: SecretKind::Cmdline, value: truncate(&joined, MAX_VALUE_LEN) });
        }
    }
    let ghost cmd_part = finding_views(out@);
    assert(cmd_part == process_findings(*p).subrange(0, cmd_part.len() as int)) by {
        assert(finding_views(out@) =~= match p.cmdline {
            Some(c) => if sensitive_spec(joined_args(c@)) {
                seq![(p.pid, SecretKind::Cmdline, truncate_spec(joined_args(c@), MAX_VALUE_LEN as nat))]
            } else {
                Seq::empty()
            },
            None => Seq::empty(),
        });
    }
    if let Some(e) = &p.environ {
        let es = to_chars(e.as_str());
        let pieces = split_chars(&es, '\0');
        for j in 0..pieces.len()
            invariant
                views(pieces@) == split_spec(e@, '\0'),
                finding_views(out@) == cmd_part + env_findings(p.pid, views(pieces@).subrange(0, j as int)),
        {
            assert(views(pieces@).subrange(0, j + 1).drop_last() =~= views(pieces@).subrange(0, j as int));
            let piece = &pieces[j];
            if piece.len() > 0 && looks_sensitive(piece) {
                let ghost before = finding_views(out@);
                out.push(SecretFinding { pid: p.pid, kind: SecretKind::Env, value: truncate(piece, MAX_VALUE_LEN) });
                assert(finding_views(out@) =~= before.push((p.pid, SecretKind::Env, truncate_spec(piece@, MAX_VALUE_LEN as nat))));
            }
        }
        assert(views(pieces@).subrange(0, pieces@.len() as int) =~= views(pieces@));
    }
    assert(finding_views(out@) =~= process_findings(*p));
    out
}

/// The secret findings of all processes, in process order.
pub fn collect_secrets(procs: &Vec<ProcessRecord>) -> (r: Vec<SecretFinding>)
    ensures
        finding_views(r@) == secrets_spec(procs@),
{
    let mut out: Vec<SecretFinding> = Vec::new();
    for i in 0..procs.len()
        invariant
            finding_views(out@) == secrets_spec(procs@.subrange(0, i as int)),
    {
        assert(procs@.subrange(0, i + 1).drop_last() =~= procs@.subrange(0, i as int));
        let mut found = scan_process(&procs[i]);
        let ghost before = out@;
        let ghost more = found@;
        out.append(&mut found);
        assert(finding_views(out@) =~= finding_views(before) + finding_views(more));
    }
    assert(procs@.subrange(0, procs@.len() as int) =~= procs@);
    out
}

/// A process owned by uid 0 with a non-empty mask is reported; one of another
/// uid whose mask sets no hot capability is not.
pub proof fn lemma_priv_selection(p: ProcessRecord, s: String)
    requires
        p.status == Some(s),
    ensures
        status_uid(s@) == 0 && status_mask(s@) != 0 ==> priv_selected(p),
        status_uid(s@) != 0 && (forall|b: u8| b < 64 && is_hot(b) ==> !mask_bit(status_mask(s@), b as u64))
            ==> !priv_selected(p),
{
}

} // verus!
