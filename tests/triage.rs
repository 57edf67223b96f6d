use triage::caps::{cap_name, cap_names, mask_to_caps, suspicious_caps};
use triage::correlate::{build_inode_to_pids_map, socket_inode, FdLink};
use triage::net::{
    collect_network, is_private_v4, parse_ipv4_hex, parse_ipv4_pair, parse_ipv6_hex,
    parse_ipv6_pair, read_socket_table, suspicious_score, tcp_state_from_hex, with_score,
    Endpoint, IpAddress, Protocol, SocketEntry, SocketState, TcpState,
};
use triage::num::parse_unsigned;
use triage::process::{
    collect_cross_issues, collect_priv_issues, collect_secrets, command_line, inodes_of,
    parse_pid, parse_status, scan_process, ProcessRecord, SecretKind,
};
use triage::secrets::{join_nonempty, looks_sensitive, occurs, to_ascii_lower, truncate};
use triage::text::{fields, split_chars, to_chars};

fn cs(s: &str) -> Vec<char> {
    s.chars().collect()
}

const HEADER: &str = "  sl  local_address rem_address   st tx_queue rx_queue tr tm->when retrnsmt   uid  timeout inode";

fn tcp_row(local: &str, remote: &str, st: &str, inode: u64) -> String {
    format!("   0: {} {} {} 00000000:00000000 00:00000000 00000000     0        0 {} 1 0000000000000000 100 0 0 10 0", local, remote, st, inode)
}

fn link(pid: i32, target: &str) -> FdLink {
    FdLink { pid, target: target.to_string() }
}

fn record(pid: i32, status: &str, cmdline: &str) -> ProcessRecord {
    ProcessRecord {
        pid,
        status: Some(status.to_string()),
        cmdline: Some(cmdline.to_string()),
        environ: None,
    }
}

fn v4(a: u8, b: u8, c: u8, d: u8, port: u16) -> Endpoint {
    Endpoint { addr: IpAddress::V4(a, b, c, d), port }
}

fn entry(proto: Protocol, local: Endpoint, remote: Endpoint, state: SocketState, pids: Vec<i32>) -> SocketEntry {
    SocketEntry { proto, local_addr: local, remote_addr: remote, state, inode: 1, pids, score: 0 }
}

#[test]
fn decode_bit_zero_and_empty_mask() {
    assert_eq!(mask_to_caps(1), vec![0u8]);
    assert_eq!(cap_name(0), "CAP_CHOWN");
    assert!(mask_to_caps(0).is_empty());
}

#[test]
fn decode_is_exact_over_all_bits() {
    assert_eq!(mask_to_caps(u64::MAX), (0u8..64).collect::<Vec<u8>>());
    assert_eq!(mask_to_caps(0x0000_0000_0020_1000), vec![12u8, 21]);
    assert_eq!(mask_to_caps(1u64 << 63), vec![63u8]);
    let names = cap_names(&vec![12u8, 21, 40, 41, 63]);
    assert_eq!(names, vec!["CAP_NET_ADMIN", "CAP_SYS_ADMIN", "CAP_CHECKPOINT_RESTORE", "CAP_41", "CAP_63"]);
}

#[test]
fn dangerous_classification() {
    assert!(!suspicious_caps(&vec![], 0));
    assert!(suspicious_caps(&vec![0u8], 0));
    assert!(suspicious_caps(&vec![12u8], 1000));
    assert!(!suspicious_caps(&vec![0u8, 10, 13], 1000));
    assert!(suspicious_caps(&vec![7u8], 1));
    assert!(suspicious_caps(&vec![25u8], 1));
}

#[test]
fn ipv4_pair_fixture() {
    assert_eq!(parse_ipv4_pair(&cs("0100007F:0050")), v4(127, 0, 0, 1, 80));
    assert_eq!(parse_ipv4_hex(&cs("0101A8C0")), IpAddress::V4(192, 168, 1, 1));
    assert_eq!(parse_ipv4_hex(&cs("0100007")), IpAddress::V4(0, 0, 0, 0));
    assert_eq!(parse_ipv4_pair(&cs("0100007F")), v4(127, 0, 0, 1, 0));
    assert_eq!(parse_ipv4_pair(&cs("0100007F:ZZZZ")), v4(127, 0, 0, 1, 0));
}

#[test]
fn ipv6_zero_is_unspecified() {
    let zeros = "0".repeat(32);
    for port in ["0000", "0050", "FFFF"] {
        let e = parse_ipv6_pair(&cs(&format!("{}:{}", zeros, port)));
        assert_eq!(e.addr, IpAddress::V6(0, 0, 0, 0, 0, 0, 0, 0));
    }
    assert_eq!(parse_ipv6_pair(&cs(&format!("{}:0016", zeros))).port, 22);
}

#[test]
fn ipv6_groups_swap_bytes() {
    let e = parse_ipv6_pair(&cs("00000000000000000000000001000000:0035"));
    assert_eq!(e, Endpoint { addr: IpAddress::V6(0, 0, 0, 0, 0, 0, 1, 0), port: 53 });
    assert_eq!(parse_ipv6_hex(&cs("0000")), IpAddress::V6(0, 0, 0, 0, 0, 0, 0, 0));
    assert_eq!(
        parse_ipv6_hex(&cs("B80D0120000000000000000001000000")),
        IpAddress::V6(0x0db8, 0x2001, 0, 0, 0, 0, 1, 0)
    );
}

#[test]
fn tcp_states() {
    assert_eq!(tcp_state_from_hex(&cs("01")), TcpState::Established);
    assert_eq!(tcp_state_from_hex(&cs("0A")), TcpState::Listen);
    assert_eq!(tcp_state_from_hex(&cs("0C")), TcpState::NewSynRecv);
    assert_eq!(tcp_state_from_hex(&cs("0a")), TcpState::Unknown);
    assert_eq!(tcp_state_from_hex(&cs("0D")), TcpState::Unknown);
    assert_eq!(TcpState::Listen.name(), "LISTEN");
}

#[test]
fn malformed_rows_are_skipped() {
    let map = build_inode_to_pids_map(&vec![link(10, "socket:[222]")]);
    let text = format!(
        "{}\n{}\n   1: short row\n{}\n",
        HEADER,
        tcp_row("0100007F:0050", "00000000:0000", "0A", 111),
        tcp_row("00000000:0016", "00000000:0000", "0A", 222)
    );
    let rows = read_socket_table(&text, Protocol::Tcp, &map);
    assert_eq!(rows.len(), 2);
    assert_eq!(rows[0].inode, 111);
    assert_eq!(rows[0].local_addr, v4(127, 0, 0, 1, 80));
    assert_eq!(rows[0].pids, Vec::<i32>::new());
    assert_eq!(rows[0].score, 1);
    assert_eq!(rows[1].inode, 222);
    assert_eq!(rows[1].pids, vec![10]);
    assert_eq!(rows[1].score, 2);
}

#[test]
fn header_only_and_empty_tables() {
    let map = build_inode_to_pids_map(&vec![]);
    assert!(read_socket_table("", Protocol::Tcp, &map).is_empty());
    assert!(read_socket_table(HEADER, Protocol::Udp, &map).is_empty());
}

#[test]
fn udp_state_is_raw() {
    let map = build_inode_to_pids_map(&vec![link(5, "socket:[9]")]);
    let text = format!("{}\n{}", HEADER, tcp_row("00000000:0044", "08080808:0035", "07", 9));
    let rows = read_socket_table(&text, Protocol::Udp, &map);
    assert_eq!(rows.len(), 1);
    match &rows[0].state {
        SocketState::Raw(s) => assert_eq!(s, "0x07"),
        SocketState::Tcp(_) => panic!("udp state decoded as tcp"),
    }
    assert_eq!(rows[0].remote_addr, v4(8, 8, 8, 8, 53));
    assert_eq!(rows[0].score, 1);
}

#[test]
fn network_tables_in_order() {
    let map = build_inode_to_pids_map(&vec![]);
    let tcp = format!("{}\n{}", HEADER, tcp_row("0100007F:0050", "00000000:0000", "0A", 1));
    let udp6 = format!("{}\n{}", HEADER, tcp_row(&format!("{}:0035", "0".repeat(32)), &format!("{}:0000", "0".repeat(32)), "07", 2));
    let all = collect_network(&tcp, "", "", &udp6, &map);
    assert_eq!(all.len(), 2);
    assert_eq!(all[0].proto, Protocol::Tcp);
    assert_eq!(all[1].proto, Protocol::Udp6);
    assert_eq!(all[1].inode, 2);
    assert_eq!(Protocol::Udp6.name(), "udp6");
}

#[test]
fn score_is_deterministic_and_follows_rules() {
    let listen = entry(Protocol::Tcp, v4(0, 0, 0, 0, 22), v4(0, 0, 0, 0, 0), SocketState::Tcp(TcpState::Listen), vec![1]);
    assert_eq!(suspicious_score(&listen), suspicious_score(&listen));
    assert_eq!(suspicious_score(&listen), 2);
    let v6_listen = entry(Protocol::Tcp6, Endpoint { addr: IpAddress::V6(0, 0, 0, 0, 0, 0, 0, 0), port: 80 }, Endpoint { addr: IpAddress::V6(0, 0, 0, 0, 0, 0, 0, 0), port: 0 }, SocketState::Tcp(TcpState::Listen), vec![]);
    assert_eq!(suspicious_score(&v6_listen), 3);
    let private = entry(Protocol::Tcp, v4(10, 0, 0, 2, 5000), v4(192, 168, 1, 9, 443), SocketState::Tcp(TcpState::Established), vec![1]);
    assert_eq!(suspicious_score(&private), 0);
    let public = entry(Protocol::Tcp, v4(10, 0, 0, 2, 5000), v4(93, 184, 216, 34, 443), SocketState::Tcp(TcpState::Established), vec![1]);
    assert_eq!(suspicious_score(&public), 1);
    let scored = with_score(public);
    assert_eq!(scored.score, 1);
    assert_eq!(scored.remote_addr, v4(93, 184, 216, 34, 443));
}

#[test]
fn private_ranges_are_coarse() {
    assert!(is_private_v4(&IpAddress::V4(10, 1, 2, 3)));
    assert!(is_private_v4(&IpAddress::V4(192, 168, 0, 1)));
    assert!(is_private_v4(&IpAddress::V4(172, 16, 0, 1)));
    assert!(is_private_v4(&IpAddress::V4(172, 19, 0, 1)));
    assert!(is_private_v4(&IpAddress::V4(172, 25, 0, 1)));
    assert!(is_private_v4(&IpAddress::V4(172, 2, 0, 1)));
    assert!(is_private_v4(&IpAddress::V4(172, 250, 0, 1)));
    assert!(!is_private_v4(&IpAddress::V4(172, 31, 0, 1)));
    assert!(!is_private_v4(&IpAddress::V4(192, 169, 0, 1)));
    assert!(!is_private_v4(&IpAddress::V6(0, 0, 0, 0, 0, 0, 0, 1)));
}

#[test]
fn correlation_only_referenced_inodes() {
    let links = vec![
        link(100, "socket:[42]"),
        link(200, "socket:[42]"),
        link(100, "socket:[42]"),
        link(300, "pipe:[42]"),
        link(300, "/dev/null"),
        link(300, "socket:[77]"),
        link(400, "socket:[x]"),
    ];
    let map = build_inode_to_pids_map(&links);
    assert_eq!(map.owners_of(42), vec![100, 200]);
    assert_eq!(map.owners_of(77), vec![300]);
    assert!(map.owners_of(5).is_empty());
    assert_eq!(map.entries.len(), 2);
    assert_eq!(inodes_of(&map, 300), vec![77]);
    assert_eq!(inodes_of(&map, 100), vec![42]);
}

#[test]
fn socket_link_targets() {
    assert_eq!(socket_inode("socket:[12345]"), Some(12345));
    assert_eq!(socket_inode("socket:[]"), None);
    assert_eq!(socket_inode("socket:[12"), None);
    assert_eq!(socket_inode("anon_inode:[eventfd]"), None);
    assert_eq!(socket_inode("socket:[18446744073709551616]"), None);
}

#[test]
fn secret_matching_ignores_case() {
    assert!(looks_sensitive(&cs("MyPassword123")));
    assert!(looks_sensitive(&cs("url=JDBC:postgres://x")));
    assert!(!looks_sensitive(&cs("HOME=/root")));
    assert!(!looks_sensitive(&cs("")));
    assert_eq!(to_ascii_lower(&cs("AbC-Ü")), cs("abc-Ü"));
    assert!(occurs(&cs("abc"), &cs("")));
    assert!(!occurs(&cs("ab"), &cs("abc")));
}

#[test]
fn truncation_threshold() {
    let exact = "a".repeat(512);
    assert_eq!(truncate(&cs(&exact), 512), exact);
    let over = "b".repeat(513);
    assert_eq!(truncate(&cs(&over), 512), format!("{}...", "b".repeat(512)));
}

#[test]
fn secrets_from_cmdline_and_environ() {
    let p = ProcessRecord {
        pid: 7,
        status: None,
        cmdline: Some("mysql\0--password=hunter2\0\0".to_string()),
        environ: Some("HOME=/root\0API_KEY=abc\0\0SESSION_ID=1\0".to_string()),
    };
    let found = scan_process(&p);
    assert_eq!(found.len(), 3);
    assert_eq!(found[0].kind, SecretKind::Cmdline);
    assert_eq!(found[0].value, "mysql --password=hunter2");
    assert_eq!(found[1].kind, SecretKind::Env);
    assert_eq!(found[1].value, "API_KEY=abc");
    assert_eq!(found[2].value, "SESSION_ID=1");
    assert_eq!(SecretKind::Env.name(), "env");
    let quiet = ProcessRecord { pid: 8, status: None, cmdline: Some("ls\0-l\0".to_string()), environ: None };
    let all = collect_secrets(&vec![quiet, p]);
    assert_eq!(all.len(), 3);
    assert_eq!(all[0].pid, 7);
}

#[test]
fn status_fields() {
    let status = "Name:\tsshd\nUid:\t0\t0\t0\t0\nGid:\t0\t0\t0\t0\nCapInh:\t0000000000000000\nCapEff:\t000001ffffffffff\n";
    assert_eq!(parse_status(status), (0, 0x000001ffffffffff));
    assert_eq!(parse_status("Uid:\t1000\t1000\nCapEff:\t0x0x1000\n"), (1000, 0x1000));
    assert_eq!(parse_status("Uid:\tbad\nCapEff:\tzz\n"), (0, 0));
    assert_eq!(parse_status(""), (0, 0));
}

#[test]
fn command_lines() {
    assert_eq!(command_line(&Some("/usr/bin/python3\0-m\0http.server\0".to_string())), "/usr/bin/python3 -m http.server");
    assert_eq!(command_line(&Some("".to_string())), "<unknown>");
    assert_eq!(command_line(&None), "<unknown>");
}

#[test]
fn only_root_process_is_privileged() {
    let procs = vec![
        record(1, "Uid:\t0\t0\t0\t0\nCapEff:\t0000000000000001\n", "init\0"),
        record(500, "Uid:\t1000\t1000\t1000\t1000\nCapEff:\t0000000000000401\n", "app\0"),
        ProcessRecord { pid: 600, status: None, cmdline: None, environ: None },
    ];
    let found = collect_priv_issues(&procs);
    assert_eq!(found.len(), 1);
    assert_eq!(found[0].pid, 1);
    assert_eq!(found[0].uid, 0);
    assert_eq!(found[0].caps, vec![0u8]);
    assert_eq!(found[0].cmd, "init");
}

#[test]
fn cross_findings_need_a_socket() {
    let procs = vec![
        record(1, "Uid:\t0\nCapEff:\t0000000000001000\n", "daemon\0"),
        record(2, "Uid:\t0\nCapEff:\t0000000000001000\n", "idle\0"),
        record(3, "Uid:\t1000\nCapEff:\t0000000000000000\n", "user\0"),
    ];
    let map = build_inode_to_pids_map(&vec![link(1, "socket:[5]"), link(3, "socket:[6]")]);
    let found = collect_cross_issues(&procs, &map);
    assert_eq!(found.len(), 1);
    assert_eq!(found[0].pid, 1);
    assert_eq!(found[0].inodes, vec![5]);
    assert_eq!(found[0].caps, vec![12u8]);
}

#[test]
fn pids_and_numbers() {
    assert_eq!(parse_pid("1234"), Some(1234));
    assert_eq!(parse_pid("self"), None);
    assert_eq!(parse_pid("0"), None);
    assert_eq!(parse_pid("99999999999"), None);
    assert_eq!(parse_unsigned(&cs("ff"), 16, 255), Some(255));
    assert_eq!(parse_unsigned(&cs("100"), 16, 255), None);
    assert_eq!(parse_unsigned(&cs("+7"), 10, 9), Some(7));
    assert_eq!(parse_unsigned(&cs("+"), 10, 9), None);
    assert_eq!(parse_unsigned(&cs("-1"), 10, 9), None);
}

#[test]
fn text_splitting() {
    assert_eq!(split_chars(&cs("a::b"), ':'), vec![cs("a"), cs(""), cs("b")]);
    assert_eq!(fields(&cs("  a \t bc\n")), vec![cs("a"), cs("bc")]);
    assert_eq!(to_chars("héllo"), cs("héllo"));
    assert_eq!(join_nonempty(&vec![cs(""), cs("a"), cs(""), cs("b")]), cs("a b"));
}
