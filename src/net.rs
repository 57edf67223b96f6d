//! Kernel socket tables: endpoint and state decoding, risk scoring, and the
//! table parser shared by the four protocol variants.

use vstd::prelude::*;
use crate::correlate::CorrelationMap;
use crate::num::{parse_spec, parse_unsigned};
use crate::text::{fields, fields_spec, from_chars, split_chars, split_spec, sub_chars, to_chars, views};

verus! {

/// The four socket tables.
#[derive(Clone, Copy, Debug, PartialEq, Eq, Structural)]
pub enum Protocol {
    Tcp,
    Tcp6,
    Udp,
    Udp6,
}

/// An address of either family: four octets, or eight 16-bit segments.
#[derive(Clone, Copy, Debug, PartialEq, Eq, Structural)]
pub enum IpAddress {
    V4(u8, u8, u8, u8),
    V6(u16, u16, u16, u16, u16, u16, u16, u16),
}

/// An address and a port.
#[derive(Clone, Copy, Debug, PartialEq, Eq, Structural)]
pub struct Endpoint {
    pub addr: IpAddress,
    pub port: u16,
}

/// TCP connection states by their kernel code, `Unknown` for any other code.
#[derive(Clone, Copy, Debug, PartialEq, Eq, Structural)]
pub enum TcpState {
    Established,
    SynSent,
    SynRecv,
    FinWait1,
    FinWait2,
    TimeWait,
    Close,
    CloseWait,
    LastAck,
    Listen,
    Closing,
    NewSynRecv,
    Unknown,
}

/// A socket's state: a decoded TCP state, or the raw code text (`0x` and
/// the code) for the UDP tables.
#[derive(Debug)]
pub enum SocketState {
    Tcp(TcpState),
    Raw(String),
}

/// One row of a socket table, joined with its owners and scored.
pub struct SocketEntry {
    pub proto: Protocol,
    pub local_addr: Endpoint,
    pub remote_addr: Endpoint,
    pub state: SocketState,
    pub inode: u64,
    pub pids: Vec<i32>,
    pub score: i32,
}

pub open spec fn is_v6(proto: Protocol) -> bool {
    proto == Protocol::Tcp6 || proto == Protocol::Udp6
}

pub open spec fn is_udp(proto: Protocol) -> bool {
    proto == Protocol::Udp || proto == Protocol::Udp6
}

/// The value of a hex field no larger than `max`, or zero when it does not parse.
pub open spec fn hex_or_zero(s: Seq<char>, max: nat) -> nat {
    match parse_spec(s, 16, max) {
        Some(v) => v,
        None => 0,
    }
}

/// The byte spelled by the two hex digits of `h` at `at`.
pub open spec fn byte_at(h: Seq<char>, at: int) -> u8 {
    hex_or_zero(h.subrange(at, at + 2), 255) as u8
}

/// Segment `i` of an IPv6 address text: each 4-digit group holds its two
/// bytes low first.
pub open spec fn segment_at(h: Seq<char>, i: int) -> u16 {
    (byte_at(h, 4 * i + 2) as int * 256 + byte_at(h, 4 * i) as int) as u16
}

/// An IPv4 address from 8 hex digits of a little-endian word; 0.0.0.0 for any other length.
pub open spec fn ipv4_spec(h: Seq<char>) -> IpAddress {
    if h.len() != 8 {
        IpAddress::V4(0, 0, 0, 0)
    } else {
        IpAddress::V4(byte_at(h, 6), byte_at(h, 4), byte_at(h, 2), byte_at(h, 0))
    }
}

/// An IPv6 address from 32 hex digits of four little-endian words; `::` for any other length.
pub open spec fn ipv6_spec(h: Seq<char>) -> IpAddress {
    if h.len() != 32 {
        IpAddress::V6(0, 0, 0, 0, 0, 0, 0, 0)
    } else {
        IpAddress::V6(
            segment_at(h, 0),
            segment_at(h, 1),
            segment_at(h, 2),
            segment_at(h, 3),
            segment_at(h, 4),
            segment_at(h, 5),
            segment_at(h, 6),
            segment_at(h, 7),
        )
    }
}

/// An endpoint from `ADDR:PORT` in hex; the port is big-endian, zero when absent or malformed.
pub open spec fn endpoint_spec(pair: Seq<char>, v6: bool) -> Endpoint {
    let parts = split_spec(pair, ':');
    Endpoint {
        addr: if v6 {
            ipv6_spec(parts[0])
        } else {
            ipv4_spec(parts[0])
        },
        port: if parts.len() > 1 {
            hex_or_zero(parts[1], 65535) as u16
        } else {
            0
        },
    }
}

/// The TCP state for a two-digit code.
pub open spec fn tcp_state_spec(h: Seq<char>) -> TcpState {
    if h.len() == 2 && h[0] == '0' {
        if h[1] == '1' {
            TcpState::Established
        } else if h[1] == '2' {
            TcpState::SynSent
        } else if h[1] == '3' {
            TcpState::SynRecv
        } else if h[1] == '4' {
            TcpState::FinWait1
        } else if h[1] == '5' {
            TcpState::FinWait2
        } else if h[1] == '6' {
            TcpState::TimeWait
        } else if h[1] == '7' {
            TcpState::Close
        } else if h[1] == '8' {
            TcpState::CloseWait
        } else if h[1] == '9' {
            TcpState::LastAck
        } else if h[1] == 'A' {
            TcpState::Listen
        } else if h[1] == 'B' {
            TcpState::Closing
        } else if h[1] == 'C' {
            TcpState::NewSynRecv
        } else {
            TcpState::Unknown
        }
    } else {
        TcpState::Unknown
    }
}

/// The all-zero address of its family.
pub open spec fn is_unspecified(a: IpAddress) -> bool {
    match a {
        IpAddress::V4(a0, a1, a2, a3) => a0 == 0 && a1 == 0 && a2 == 0 && a3 == 0,
        IpAddress::V6(s0, s1, s2, s3, s4, s5, s6, s7) => s0 == 0 && s1 == 0 && s2 == 0 && s3 == 0
            && s4 == 0 && s5 == 0 && s6 == 0 && s7 == 0,
    }
}

/// The coarse private-range test on the dotted text of an IPv4 address: it
/// begins `10.`, `192.168.`, `172.16.` to `172.19.`, or `172.2` (so a second
/// octet of 2, 20 to 29, or 200 and above). IPv6 addresses are never private here.
pub open spec fn private_v4_spec(a: IpAddress) -> bool {
    match a {
        IpAddress::V4(a0, a1, _, _) => a0 == 10 || (a0 == 192 && a1 == 168) || (a0 == 172 && ((16
            <= a1 <= 19) || a1 == 2 || (20 <= a1 <= 29) || a1 >= 200)),
        IpAddress::V6(..) => false,
    }
}

/// The risk score of a socket: +2 for listening on the unspecified address,
/// +1 for an established TCP or any UDP socket whose remote is a public
/// IPv4 address, +1 for no owner.
pub open spec fn score_spec(
    proto: Protocol,
    local: Endpoint,
    remote: Endpoint,
    state: SocketState,
    n_owners: nat,
) -> int {
    (if state == SocketState::Tcp(TcpState::Listen) && is_unspecified(local.addr) {
        2int
    } else {
        0
    }) + (if (state == SocketState::Tcp(TcpState::Established) || is_udp(proto))
        && remote.addr is V4 && !is_unspecified(remote.addr) && !private_v4_spec(remote.addr) {
        1int
    } else {
        0
    }) + (if n_owners == 0 {
        1int
    } else {
        0
    })
}

/// The inode column's value, zero when it does not parse.
pub open spec fn inode_spec(s: Seq<char>) -> u64 {
    match parse_spec(s, 10, u64::MAX as nat) {
        Some(v) => v as u64,
        None => 0,
    }
}

/// The state that column `code` gives for `proto`.
pub open spec fn state_spec(proto: Protocol, code: Seq<char>, st: SocketState) -> bool {
    if is_udp(proto) {
        st is Raw && st->Raw_0@ == "0x"@ + code
    } else {
        st == SocketState::Tcp(tcp_state_spec(code))
    }
}

/// `e` is the entry that a table row with columns `f` yields for `proto`, joined with `map`.
pub open spec fn entry_spec(e: SocketEntry, f: Seq<Seq<char>>, proto: Protocol, map: CorrelationMap) -> bool {
    &&& e.proto == proto
    &&& e.local_addr == endpoint_spec(f[1], is_v6(proto))
    &&& e.remote_addr == endpoint_spec(f[2], is_v6(proto))
    &&& state_spec(proto, f[3], e.state)
    &&& e.inode == inode_spec(f[9])
    &&& e.pids@ == map.owners(e.inode)
    &&& e.score == score_spec(proto, e.local_addr, e.remote_addr, e.state, e.pids@.len())
}

/// The rows of `lines` that have at least ten columns, in order.
pub open spec fn well_formed_rows(lines: Seq<Seq<char>>) -> Seq<Seq<char>>
    decreases lines.len(),
{
    if lines.len() == 0 {
        Seq::empty()
    } else {
        let prev = well_formed_rows(lines.drop_last());
        if fields_spec(lines.last()).len() >= 10 {
            prev.push(lines.last())
        } else {
            prev
        }
    }
}

/// The data rows of a table text: its lines after the header that have at least ten columns.
pub open spec fn table_rows(text: Seq<char>) -> Seq<Seq<char>> {
    well_formed_rows(split_spec(text, '\n').drop_first())
}

/// `r` holds one entry for each data row of `text`, in order.
pub open spec fn table_spec(r: Seq<SocketEntry>, text: Seq<char>, proto: Protocol, map: CorrelationMap) -> bool {
    let rows = table_rows(text);
    &&& r.len() == rows.len()
    &&& forall|k: int| 0 <= k < r.len() ==> entry_spec(#[trigger] r[k], fields_spec(rows[k]), proto, map)
}

/// The text of each Protocol value.
pub open spec fn protocol_name(v: Protocol) -> Seq<char> {
    match v {
        Protocol::Tcp => "tcp"@,
        Protocol::Tcp6 => "tcp6"@,
        Protocol::Udp => "udp"@,
        Protocol::Udp6 => "udp6"@,
    }
}

impl Protocol {
    /// The protocol's table tag.
    pub fn name(&self) -> (r: &'static str)
        ensures
            r@ == protocol_name(*self),
    {
        match self {
            Protocol::Tcp => "tcp",
            Protocol::Tcp6 => "tcp6",
            Protocol::Udp => "udp",
            Protocol::Udp6 => "udp6",
        }
    }
}

/// The text of each TcpState value.
pub open spec fn tcp_state_name(v: TcpState) -> Seq<char> {
    match v {
        TcpState::Established => "ESTABLISHED"@,
        TcpState::SynSent => "SYN_SENT"@,
        TcpState::SynRecv => "SYN_RECV"@,
        TcpState::FinWait1 => "FIN_WAIT1"@,
        TcpState::FinWait2 => "FIN_WAIT2"@,
        TcpState::TimeWait => "TIME_WAIT"@,
        TcpState::Close => "CLOSE"@,
        TcpState::CloseWait => "CLOSE_WAIT"@,
        TcpState::LastAck => "LAST_ACK"@,
        TcpState::Listen => "LISTEN"@,
        TcpState::Closing => "CLOSING"@,
        TcpState::NewSynRecv => "NEW_SYN_RECV"@,
        TcpState::Unknown => "UNKNOWN"@,
    }
}

impl TcpState {
    /// The state's kernel name.
    pub fn name(&self) -> (r: &'static str)
        ensures
            r@ == tcp_state_name(*self),
    {
        match self {
            TcpState::Established => "ESTABLISHED",
            TcpState::SynSent => "SYN_SENT",
            TcpState::SynRecv => "SYN_RECV",
            TcpState::FinWait1 => "FIN_WAIT1",
            TcpState::FinWait2 => "FIN_WAIT2",
            TcpState::TimeWait => "TIME_WAIT",
            TcpState::Close => "CLOSE",
            TcpState::CloseWait => "CLOSE_WAIT",
            TcpState::LastAck => "LAST_ACK",
            TcpState::Listen => "LISTEN",
            TcpState::Closing => "CLOSING",
            TcpState::NewSynRecv => "NEW_SYN_RECV",
            TcpState::Unknown => "UNKNOWN",
        }
    }
}

fn hex_field(s: &Vec<char>, max: u64) -> (r: u64)
    ensures
        r == hex_or_zero(s@, max as nat),
{
    match parse_unsigned(s, 16, max) {
        Some(v) => v,
        None => 0,
    }
}

fn hex_byte(h: &Vec<char>, at: usize) -> (r: u8)
    requires
        at + 2 <= h@.len() <= 32,
    ensures
        r == byte_at(h@, at as int),
{
    let pair = sub_chars(h, at, at + 2);
    hex_field(&pair, 255) as u8
}

/// Decodes 8 hex digits of a little-endian word into an IPv4 address.
pub fn parse_ipv4_hex(h: &Vec<char>) -> (r: IpAddress)
    ensures
        r == ipv4_spec(h@),
{
    if h.len() != 8 {
        return IpAddress::V4(0, 0, 0, 0);
    }
    IpAddress::V4(hex_byte(h, 6), hex_byte(h, 4), hex_byte(h, 2), hex_byte(h, 0))
}

fn segment(h: &Vec<char>, i: usize) -> (r: u16)
    requires
        i < 8,
        h@.len() == 32,
    ensures
        r == segment_at(h@, i as int),
{
    let lo = hex_byte(h, 4 * i);
    let hi = hex_byte(h, 4 * i + 2);
    hi as u16 * 256 + lo as u16
}

/// Decodes 32 hex digits of four little-endian words into an IPv6 address.
pub fn parse_ipv6_hex(h: &Vec<char>) -> (r: IpAddress)
    ensures
        r == ipv6_spec(h@),
{
    if h.len() != 32 {
        return IpAddress::V6(0, 0, 0, 0, 0, 0, 0, 0);
    }
    IpAddress::V6(
        segment(h, 0),
        segment(h, 1),
        segment(h, 2),
        segment(h, 3),
        segment(h, 4),
        segment(h, 5),
        segment(h, 6),
        segment(h, 7),
    )
}

fn parse_pair(hexpair: &Vec<char>, v6: bool) -> (r: Endpoint)
    ensures
        r == endpoint_spec(hexpair@, v6),
{
    let parts = split_chars(hexpair, ':');
    assert(parts@[0]@ == split_spec(hexpair@, ':')[0]);
    let addr = if v6 {
        parse_ipv6_hex(&parts[0])
    } else {
        parse_ipv4_hex(&parts[0])
    };
    let port = if parts.len() > 1 {
        assert(parts@[1]@ == split_spec(hexpair@, ':')[1]);
        hex_field(&parts[1], 65535) as u16
    } else {
        0
    };
    Endpoint { addr, port }
}

/// Decodes an IPv4 `ADDR:PORT` hex pair.
pub fn parse_ipv4_pair(hexpair: &Vec<char>) -> (r: Endpoint)
    ensures
        r == endpoint_spec(hexpair@, false),
{
    parse_pair(hexpair, false)
}

/// Decodes an IPv6 `ADDR:PORT` hex pair.
pub fn parse_ipv6_pair(hexpair: &Vec<char>) -> (r: Endpoint)
    ensures
        r == endpoint_spec(hexpair@, true),
{
    parse_pair(hexpair, true)
}

/// Decodes a two-digit TCP state code.
pub fn tcp_state_from_hex(h: &Vec<char>) -> (r: TcpState)
    ensures
        r == tcp_state_spec(h@),
{
    if h.len() != 2 || h[0] != '0' {
        return TcpState::Unknown;
    }
    let c = h[1];
    if c == '1' {
        TcpState::Established
    } else if c == '2' {
        TcpState::SynSent
    } else if c == '3' {
        TcpState::SynRecv
    } else if c == '4' {
        TcpState::FinWait1
    } else if c == '5' {
        TcpState::FinWait2
    } else if c == '6' {
        TcpState::TimeWait
    } else if c == '7' {
        TcpState::Close
    } else if c == '8' {
        TcpState::CloseWait
    } else if c == '9' {
        TcpState::LastAck
    } else if c == 'A' {
        TcpState::Listen
    } else if c == 'B' {
        TcpState::Closing
    } else if c == 'C' {
        TcpState::NewSynRecv
    } else {
        TcpState::Unknown
    }
}

fn unspecified(a: &IpAddress) -> (r: bool)
    ensures
        r == is_unspecified(*a),
{
    match a {
        IpAddress::V4(a0, a1, a2, a3) => *a0 == 0 && *a1 == 0 && *a2 == 0 && *a3 == 0,
        IpAddress::V6(s0, s1, s2, s3, s4, s5, s6, s7) => *s0 == 0 && *s1 == 0 && *s2 == 0 && *s3
            == 0 && *s4 == 0 && *s5 == 0 && *s6 == 0 && *s7 == 0,
    }
}

/// The coarse private-range test of the scorer.
pub fn is_private_v4(ip: &IpAddress) -> (r: bool)
    ensures
        r == private_v4_spec(*ip),
{
    match ip {
        IpAddress::V4(a0, a1, _, _) => *a0 == 10 || (*a0 == 192 && *a1 == 168) || (*a0 == 172 && ((
        16 <= *a1 && *a1 <= 19) || *a1 == 2 || (20 <= *a1 && *a1 <= 29) || *a1 >= 200)),
        IpAddress::V6(..) => false,
    }
}

fn state_is(st: &SocketState, want: TcpState) -> (r: bool)
    ensures
        r == (*st == SocketState::Tcp(want)),
{
    match st {
        SocketState::Tcp(s) => *s == want,
        SocketState::Raw(_) => false,
    }
}

/// The risk score of an entry from its own fields and its owners.
pub fn suspicious_score(e: &SocketEntry) -> (r: i32)
    ensures
        r == score_spec(e.proto, e.local_addr, e.remote_addr, e.state, e.pids@.len()),
{
    let mut score: i32 = 0;
    if state_is(&e.state, TcpState::Listen) && unspecified(&e.local_addr.addr) {
        score = score + 2;
    }
    let udp = match e.proto {
        Protocol::Udp | Protocol::Udp6 => true,
        _ => false,
    };
    let remote_v4 = match e.remote_addr.addr {
        IpAddress::V4(..) => true,
        IpAddress::V6(..) => false,
    };
    if (state_is(&e.state, TcpState::Established) || udp) && remote_v4 && !unspecified(
        &e.remote_addr.addr,
    ) && !is_private_v4(&e.remote_addr.addr) {
        score = score + 1;
    }
    if e.pids.len() == 0 {
        score = score + 1;
    }
    score
}

/// The entry with its score filled in.
pub fn with_score(e: SocketEntry) -> (r: SocketEntry)
    ensures
        r.proto == e.proto,
        r.local_addr == e.local_addr,
        r.remote_addr == e.remote_addr,
        r.state == e.state,
        r.inode == e.inode,
        r.pids == e.pids,
        r.score == score_spec(e.proto, e.local_addr, e.remote_addr, e.state, e.pids@.len()),
{
    let mut e = e;
    e.score = suspicious_score(&e);
    e
}

fn parse_row(f: &Vec<Vec<char>>, proto: Protocol, map: &CorrelationMap) -> (r: SocketEntry)
    requires
        f@.len() >= 10,
        map.wf(),
    ensures
        entry_spec(r, views(f@), proto, *map),
{
    let v6 = match proto {
        Protocol::Tcp6 | Protocol::Udp6 => true,
        _ => false,
    };
    let local_addr = parse_pair(&f[1], v6);
    let remote_addr = parse_pair(&f[2], v6);
    let state = match proto {
        Protocol::Udp | Protocol::Udp6 => {
            let code = from_chars(&f[3]);
            SocketState::Raw(String::from_str("0x").concat(code.as_str()))
        },
        _ => SocketState::Tcp(tcp_state_from_hex(&f[3])),
    };
    let inode = match parse_unsigned(&f[9], 10, u64::MAX) {
        Some(v) => v,
        None => 0,
    };
    let pids = map.owners_of(inode);
    with_score(SocketEntry { proto, local_addr, remote_addr, state, inode, pids, score: 0 })
}

/// Parses one socket table (header line, then one row per socket), joining
/// each row with its owners and scoring it; rows with fewer than ten
/// columns are skipped.
pub fn read_socket_table(text: &str, proto: Protocol, map: &CorrelationMap) -> (r: Vec<SocketEntry>)
    requires
        map.wf(),
    ensures
        table_spec(r@, text@, proto, *map),
{
    let chars = to_chars(text);
    let lines = split_chars(&chars, '\n');
    let ghost ls = split_spec(text@, '\n').drop_first();
    let mut out: Vec<SocketEntry> = Vec::new();
    let mut i: usize = 1;
    while i < lines.len()
        invariant
            1 <= i <= lines@.len(),
            views(lines@) == split_spec(text@, '\n'),
            ls == split_spec(text@, '\n').drop_first(),
            map.wf(),
            out@.len() == well_formed_rows(ls.subrange(0, i - 1)).len(),
            forall|k: int| 0 <= k < out@.len() ==> entry_spec(#[trigger] out@[k], fields_spec(well_formed_rows(ls.subrange(0, i - 1))[k]), proto, *map),
        decreases lines.len() - i,
    {
        let ghost prev = well_formed_rows(ls.subrange(0, i - 1));
        assert(ls.subrange(0, i as int).drop_last() =~= ls.subrange(0, i - 1));
        assert(ls.subrange(0, i as int).last() == lines@[i as int]@);
        let f = fields(&lines[i]);
        if f.len() >= 10 {
            let e = parse_row(&f, proto, map);
            let ghost out0 = out@;
            out.push(e);
            assert(well_formed_rows(ls.subrange(0, i as int)) == prev.push(lines@[i as int]@));
            assert forall|k: int| 0 <= k < out@.len() implies entry_spec(#[trigger] out@[k], fields_spec(well_formed_rows(ls.subrange(0, i as int))[k]), proto, *map) by {
                if k < prev.len() {
                    assert(out@[k] == out0[k]);
                }
            }
        }
        i = i + 1;
    }
    assert(ls.subrange(0, lines@.len() - 1) =~= ls);
    out
}

/// Parses the four socket tables, in the order tcp, tcp6, udp, udp6.
pub fn collect_network(tcp: &str, tcp6: &str, udp: &str, udp6: &str, map: &CorrelationMap) -> (r: Vec<SocketEntry>)
    requires
        map.wf(),
    ensures
        exists|a: Seq<SocketEntry>, b: Seq<SocketEntry>, c: Seq<SocketEntry>, d: Seq<SocketEntry>|
            table_spec(a, tcp@, Protocol::Tcp, *map) && table_spec(b, tcp6@, Protocol::Tcp6, *map)
            && table_spec(c, udp@, Protocol::Udp, *map) && table_spec(d, udp6@, Protocol::Udp6, *map)
            && r@ == a + b + c + d,
{
    let mut out = read_socket_table(tcp, Protocol::Tcp, map);
    let ghost a = out@;
    let mut b = read_socket_table(tcp6, Protocol::Tcp6, map);
    let ghost bs = b@;
    out.append(&mut b);
    let mut c = read_socket_table(udp, Protocol::Udp, map);
    let ghost cs = c@;
    out.append(&mut c);
    let mut d = read_socket_table(udp6, Protocol::Udp6, map);
    let ghost ds = d@;
    out.append(&mut d);
    assert(out@ == a + bs + cs + ds);
    out
}

proof fn lemma_zero_pair(h: Seq<char>, at: int)
    requires
        0 <= at,
        at + 2 <= h.len(),
        h[at] == '0',
        h[at + 1] == '0',
    ensures
        byte_at(h, at) == 0,
{
    let t = h.subrange(at, at + 2);
    assert(t.drop_last().drop_last() =~= Seq::<char>::empty());
    assert(crate::num::unsigned_body(t) == t);
    assert(crate::num::all_digits(t, 16));
    assert(t.last() == '0' && t.drop_last().last() == '0');
    assert(crate::num::digit_value('0') == 0);
    assert(crate::num::digits_value(t.drop_last().drop_last(), 16) == 0);
    assert(crate::num::digits_value(t.drop_last(), 16) == 0);
    assert(crate::num::digits_value(t, 16) == 0);
}

/// An IPv6 address text of 32 zero digits decodes to the unspecified
/// address; the port plays no part in the address.
pub proof fn lemma_ipv6_zero_is_unspecified(h: Seq<char>, pair: Seq<char>)
    requires
        h.len() == 32,
        forall|k: int| 0 <= k < 32 ==> h[k] == '0',
    ensures
        is_unspecified(ipv6_spec(h)),
        split_spec(pair, ':')[0] == h ==> is_unspecified(endpoint_spec(pair, true).addr),
{
    assert forall|i: int| 0 <= i < 8 implies #[trigger] segment_at(h, i) == 0 by {
        lemma_zero_pair(h, 4 * i);
        lemma_zero_pair(h, 4 * i + 2);
    }
    assert(segment_at(h, 0) == 0 && segment_at(h, 1) == 0 && segment_at(h, 2) == 0 && segment_at(h, 3) == 0);
    assert(segment_at(h, 4) == 0 && segment_at(h, 5) == 0 && segment_at(h, 6) == 0 && segment_at(h, 7) == 0);
}

/// Row selection distributes over concatenation of line lists.
pub proof fn lemma_rows_concat(a: Seq<Seq<char>>, b: Seq<Seq<char>>)
    ensures
        well_formed_rows(a + b) == well_formed_rows(a) + well_formed_rows(b),
    decreases b.len(),
{
    if b.len() == 0 {
        assert(a + b =~= a);
        assert(well_formed_rows(a) + well_formed_rows(b) =~= well_formed_rows(a));
    } else {
        assert((a + b).drop_last() =~= a + b.drop_last());
        lemma_rows_concat(a, b.drop_last());
        if fields_spec(b.last()).len() >= 10 {
            assert(well_formed_rows(a) + well_formed_rows(b) =~= (well_formed_rows(a) + well_formed_rows(b.drop_last())).push(b.last()));
        } else {
        }
    }
}

/// A malformed row (fewer than ten columns) is dropped and changes nothing
/// about the rows around it.
pub proof fn lemma_malformed_row_skipped(before: Seq<Seq<char>>, bad: Seq<char>, after: Seq<Seq<char>>)
    requires
        fields_spec(bad).len() < 10,
    ensures
        well_formed_rows(before + seq![bad] + after) == well_formed_rows(before + after),
{
    lemma_rows_concat(before + seq![bad], after);
    lemma_rows_concat(before, seq![bad]);
    lemma_rows_concat(before, after);
    assert(seq![bad].drop_last() =~= Seq::<Seq<char>>::empty());
    assert(seq![bad].last() == bad);
    assert(well_formed_rows(Seq::<Seq<char>>::empty()) == Seq::<Seq<char>>::empty());
    assert(well_formed_rows(seq![bad].drop_last()) == Seq::<Seq<char>>::empty());
    assert(well_formed_rows(seq![bad]) =~= Seq::<Seq<char>>::empty());
    assert(well_formed_rows(before) + well_formed_rows(seq![bad]) =~= well_formed_rows(before));
}

/// The score depends on the entry's fields and owner count alone; a socket
/// listening on the unspecified address scores at least 2; an established
/// TCP socket with a private IPv4 remote gets no exposure point.
pub proof fn lemma_score_rules(proto: Protocol, local: Endpoint, remote: Endpoint, n_owners: nat)
    ensures
        is_unspecified(local.addr) ==> score_spec(
            proto,
            local,
            remote,
            SocketState::Tcp(TcpState::Listen),
            n_owners,
        ) >= 2,
        private_v4_spec(remote.addr) ==> score_spec(
            proto,
            local,
            remote,
            SocketState::Tcp(TcpState::Established),
            n_owners,
        ) == (if n_owners == 0 {
            1int
        } else {
            0
        }),
{
}

} // verus!
