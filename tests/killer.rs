use std::collections::HashMap;

use net_killer::diag::{
    address_family, destroy_request, drain, on_reply, KillRequest, Reply, ReplyKind, Verdict,
    AF_INET, AF_INET6, DESTROY_REQUEST_LEN,
};
use net_killer::endpoint::{parse_endpoint, Endpoint, IpAddress};
use net_killer::links::{cycle_plan, interface_names, LinkOp};
use net_killer::policy::{
    after_destroy, after_reset, first_action, use_raw_protocol, Action, SocketRecord,
};
use net_killer::table::{parse_inode, streams, Stream};

const HEADER: &str = "TCP connections\n  sl  local_address rem_address   st tx_queue rx_queue tr tm->when retrnsmt   uid  timeout inode\n";

fn row(sl: u32, local: &str, remote: &str, st: &str, inode: &str) -> String {
    format!(
        "{:4}: {} {} {} 00000000:00000000 00:00000000 00000000  1000        0 {} 1 0000000000000000 20 4 30 10 -1\n",
        sl, local, remote, st, inode
    )
}

fn scenario_table() -> Vec<u8> {
    let mut t = String::from(HEADER);
    t.push_str(&row(0, "0100007F:1388", "0500000A:01BB", "01", "12345"));
    t.into_bytes()
}

fn localhost() -> IpAddress {
    IpAddress::v4(127, 0, 0, 1)
}

fn remote_host() -> IpAddress {
    IpAddress::v4(10, 0, 0, 5)
}

fn header(len: u32, kind: u16) -> Vec<u8> {
    let mut h = Vec::new();
    h.extend_from_slice(&len.to_ne_bytes());
    h.extend_from_slice(&kind.to_ne_bytes());
    h.extend_from_slice(&0u16.to_ne_bytes());
    h.extend_from_slice(&0u32.to_ne_bytes());
    h.extend_from_slice(&0u32.to_ne_bytes());
    h
}

fn info_reply() -> Vec<u8> {
    let mut m = header(16 + 72, 20);
    let mut body = vec![0u8; 72];
    body[0] = 2;
    body[1] = 1;
    m.extend_from_slice(&body);
    m
}

fn done_reply() -> Vec<u8> {
    let mut m = header(20, 3);
    m.extend_from_slice(&0i32.to_ne_bytes());
    m
}

fn error_reply(code: i32) -> Vec<u8> {
    let mut m = header(36, 2);
    m.extend_from_slice(&code.to_ne_bytes());
    m.extend_from_slice(&header(72, 21));
    m
}

fn noop_reply() -> Vec<u8> {
    header(16, 1)
}

#[test]
fn endpoint_field_is_byte_reversed() {
    let e = parse_endpoint(b"0100007F:1388").unwrap();
    assert_eq!(e, Endpoint { addr: localhost(), port: 5000 });
    let e = parse_endpoint(b"0500000A:01BB").unwrap();
    assert_eq!(e, Endpoint { addr: IpAddress::V4(0x0A000005), port: 443 });
}

#[test]
fn endpoint_field_accepts_lower_case() {
    let e = parse_endpoint(b"0100a8c0:00ff").unwrap();
    assert_eq!(e, Endpoint { addr: IpAddress::v4(192, 168, 0, 1), port: 255 });
}

#[test]
fn endpoint_field_round_trips() {
    for s in ["0100007F:1388", "0500000A:01BB", "00000000:0000", "FFFFFFFF:FFFF", "0A0B0C0D:ABCD"] {
        let e = parse_endpoint(s.as_bytes()).unwrap();
        let v = match e.addr {
            IpAddress::V4(v) => v,
            IpAddress::V6(_) => panic!("not an IPv4 address"),
        };
        assert_eq!(format!("{:08X}:{:04X}", v.swap_bytes(), e.port), s);
    }
}

#[test]
fn endpoint_field_rejects_malformed() {
    assert_eq!(parse_endpoint(b""), None);
    assert_eq!(parse_endpoint(b"0100007F:138"), None);
    assert_eq!(parse_endpoint(b"0100007F:13888"), None);
    assert_eq!(parse_endpoint(b"0100007F.1388"), None);
    assert_eq!(parse_endpoint(b"0100007G:1388"), None);
    assert_eq!(parse_endpoint(b"+100007F:1388"), None);
    assert_eq!(parse_endpoint(b"01000:7F:1388"), None);
}

#[test]
fn inode_field() {
    assert_eq!(parse_inode(b"12345"), Some(12345));
    assert_eq!(parse_inode(b"0"), Some(0));
    assert_eq!(parse_inode(b"18446744073709551615"), Some(u64::MAX));
    assert_eq!(parse_inode(b"18446744073709551616"), None);
    assert_eq!(parse_inode(b""), None);
    assert_eq!(parse_inode(b"12a"), None);
    assert_eq!(parse_inode(b"-1"), None);
}

#[test]
fn table_keeps_only_established_rows() {
    let mut t = String::from(HEADER);
    t.push_str(&row(0, "0100007F:1388", "0500000A:01BB", "01", "12345"));
    t.push_str(&row(1, "00000000:0016", "00000000:0000", "0A", "222"));
    t.push_str(&row(2, "0100007F:9999", "0100007F:1388", "06", "333"));
    let m = streams(t.as_bytes());
    assert_eq!(m.len(), 1);
    assert_eq!(
        m.get(&12345),
        Some(&Stream {
            local: Endpoint { addr: localhost(), port: 5000 },
            remote: Endpoint { addr: remote_host(), port: 443 },
        })
    );
}

#[test]
fn table_skips_malformed_rows() {
    let mut t = String::from(HEADER);
    t.push_str(&row(0, "0100007F:138", "0500000A:01BB", "01", "1"));
    t.push_str(&row(1, "0100007F:1388", "0500000Z:01BB", "01", "2"));
    t.push_str(&row(2, "0100007F:1388", "0500000A:01BB", "01", "x3"));
    t.push_str("   3: 0100007F:1388 0500000A:01BB 01\n");
    t.push_str(&row(4, "0100007F:1388", "0500000A:01BB", "01", "77"));
    let m = streams(t.as_bytes());
    assert_eq!(m.len(), 1);
    assert!(m.contains_key(&77));
}

#[test]
fn table_header_and_empty_input() {
    assert!(streams(b"").is_empty());
    assert!(streams(HEADER.as_bytes()).is_empty());
    let first_only = row(0, "0100007F:1388", "0500000A:01BB", "01", "5");
    assert!(streams(first_only.as_bytes()).is_empty());
}

#[test]
fn table_later_row_replaces_earlier() {
    let mut t = String::from(HEADER);
    t.push_str(&row(0, "0100007F:1388", "0500000A:01BB", "01", "9"));
    t.push_str(&row(1, "0100007F:0050", "0500000A:0051", "01", "9"));
    let m = streams(t.as_bytes());
    assert_eq!(m.len(), 1);
    assert_eq!(m[&9].local.port, 80);
    assert_eq!(m[&9].remote.port, 81);
}

#[test]
fn table_without_final_newline() {
    let mut t = String::from(HEADER);
    t.push_str(row(0, "0100007F:1388", "0500000A:01BB", "01", "12345").trim_end());
    assert!(streams(t.as_bytes()).contains_key(&12345));
}

#[test]
fn destroy_then_reset_for_unlisted_connection() {
    let m = streams(&scenario_table());
    let rec = SocketRecord { pid: 100, fd: 7, inode: 12345 };
    let req = KillRequest {
        local: Endpoint { addr: localhost(), port: 5000 },
        remote: Endpoint { addr: remote_host(), port: 443 },
    };
    assert_eq!(first_action(&m, &[], true, &rec), Action::Destroy(req));
    assert_eq!(after_destroy(&rec, false), Action::Reset { pid: 100, fd: 7 });
    assert_eq!(after_destroy(&rec, true), Action::Leave);
    assert_eq!(after_reset(&rec, false), Action::Leave);
    assert_eq!(after_reset(&rec, true), Action::Leave);
    assert_eq!(first_action(&m, &[], false, &rec), Action::Reset { pid: 100, fd: 7 });
}

#[test]
fn allow_listed_connection_is_left() {
    let m = streams(&scenario_table());
    let rec = SocketRecord { pid: 100, fd: 7, inode: 12345 };
    assert_eq!(first_action(&m, &[remote_host()], true, &rec), Action::Leave);
    assert_eq!(first_action(&m, &[remote_host()], false, &rec), Action::Leave);
    assert_eq!(first_action(&m, &[localhost()], true, &rec), Action::Leave);
    let other = [IpAddress::v4(10, 0, 0, 6), IpAddress::V6(1)];
    assert!(matches!(first_action(&m, &other, true, &rec), Action::Destroy(_)));
}

#[test]
fn unknown_inode_is_left() {
    let m: HashMap<u64, Stream> = streams(&scenario_table());
    let rec = SocketRecord { pid: 100, fd: 8, inode: 999 };
    assert_eq!(first_action(&m, &[], true, &rec), Action::Leave);
}

#[test]
fn kernel_gate() {
    assert!(!use_raw_protocol(Some((4, 9)), false));
    assert!(use_raw_protocol(Some((4, 10)), false));
    assert!(use_raw_protocol(Some((5, 0)), false));
    assert!(!use_raw_protocol(Some((3, 99)), false));
    assert!(!use_raw_protocol(Some((6, 1)), true));
    assert!(!use_raw_protocol(None, false));
}

#[test]
fn destroy_request_layout() {
    let req = KillRequest {
        local: Endpoint { addr: localhost(), port: 5000 },
        remote: Endpoint { addr: remote_host(), port: 443 },
    };
    let b = destroy_request(&req);
    assert_eq!(b.len(), DESTROY_REQUEST_LEN);
    assert_eq!(u32::from_ne_bytes([b[0], b[1], b[2], b[3]]), 72);
    assert_eq!(u16::from_ne_bytes([b[4], b[5]]), 21);
    assert_eq!(u16::from_ne_bytes([b[6], b[7]]), 5);
    assert_eq!(&b[8..16], &[0; 8]);
    assert_eq!(b[16], AF_INET);
    assert_eq!(b[17], 6);
    assert_eq!(b[18], 0);
    assert_eq!(b[19], 0);
    assert_eq!(u32::from_ne_bytes([b[20], b[21], b[22], b[23]]), 0xffe);
    assert_eq!(&b[24..26], &[0x13, 0x88]);
    assert_eq!(&b[26..28], &[0x01, 0xBB]);
    assert_eq!(&b[28..32], &[127, 0, 0, 1]);
    assert_eq!(&b[32..44], &[0; 12]);
    assert_eq!(&b[44..48], &[10, 0, 0, 5]);
    assert_eq!(&b[48..64], &[0; 16]);
    assert_eq!(&b[64..72], &[0xff; 8]);
}

#[test]
fn destroy_request_ipv6_family() {
    let req = KillRequest {
        local: Endpoint { addr: IpAddress::V6(1), port: 1 },
        remote: Endpoint { addr: IpAddress::V6(2), port: 2 },
    };
    assert_eq!(address_family(&req.local.addr), AF_INET6);
    let b = destroy_request(&req);
    assert_eq!(b.len(), DESTROY_REQUEST_LEN);
    assert_eq!(b[16], AF_INET6);
    let mut one = [0u8; 16];
    one[15] = 1;
    assert_eq!(&b[28..44], &one);
}

#[test]
fn reply_verdicts() {
    let r = |kind| Some(Reply { kind, length: 16 });
    assert_eq!(on_reply(r(ReplyKind::NoOp)), Verdict::Continue);
    assert_eq!(on_reply(r(ReplyKind::Info)), Verdict::Continue);
    assert_eq!(on_reply(r(ReplyKind::Done)), Verdict::Destroyed);
    assert_eq!(on_reply(r(ReplyKind::Ack)), Verdict::Destroyed);
    assert_eq!(on_reply(r(ReplyKind::Error)), Verdict::Failed);
    assert_eq!(on_reply(r(ReplyKind::Overrun)), Verdict::Failed);
    assert_eq!(on_reply(r(ReplyKind::Unknown)), Verdict::Failed);
    assert_eq!(on_reply(None), Verdict::Failed);
}

#[test]
fn drain_info_then_done_succeeds() {
    let mut b = info_reply();
    b.extend_from_slice(&done_reply());
    assert_eq!(drain(&b), Verdict::Destroyed);
}

#[test]
fn drain_error_fails() {
    assert_eq!(drain(&error_reply(-2)), Verdict::Failed);
}

#[test]
fn drain_ack_succeeds() {
    let mut b = noop_reply();
    b.extend_from_slice(&error_reply(0));
    assert_eq!(drain(&b), Verdict::Destroyed);
}

#[test]
fn drain_zero_length_ends() {
    assert_eq!(drain(&header(0, 1)), Verdict::Failed);
    assert_eq!(drain(&[0u8; 64]), Verdict::Failed);
}

#[test]
fn drain_without_terminator_asks_for_more() {
    let mut b = info_reply();
    b.extend_from_slice(&noop_reply());
    assert_eq!(drain(&b), Verdict::Continue);
    assert_eq!(drain(&[]), Verdict::Continue);
}

#[test]
fn drain_truncated_reply_fails() {
    let b = info_reply();
    assert_eq!(drain(&b[..40]), Verdict::Failed);
}

#[test]
fn device_table_names() {
    let t = "Inter-|   Receive                |  Transmit\n face |bytes    packets errs|bytes    packets\n    lo: 100 1 0 | 100 1\n  eth0: 200 2 0 | 200 2\n  eth1:300 3 0 | 300 3\nwlan0 : 1\n\x0bbr0\x0b\t: 4\n";
    let names = interface_names(t.as_bytes());
    assert_eq!(names, vec![b"eth0".to_vec(), b"eth1".to_vec(), b"wlan0".to_vec(), b"br0".to_vec()]);
    assert!(interface_names(b"").is_empty());
}

#[test]
fn cycle_two_interfaces() {
    let plan = cycle_plan(2, 5);
    assert_eq!(
        plan,
        vec![LinkOp::Down(0), LinkOp::Down(1), LinkOp::Sleep(5), LinkOp::Up(0), LinkOp::Up(1)]
    );
    assert_eq!(cycle_plan(0, 120), vec![LinkOp::Sleep(120)]);
}

#[test]
fn device_names_trimmed_of_unicode_space() {
    let t = "h1\nh2\n\u{a0}eth2\u{3000}: 5\n\u{2009}\u{85}n\u{e9}t\u{205f}\u{1680}\u{b}: 6\n\u{2028}lo\u{2029}: 7\n";
    let names = interface_names(t.as_bytes());
    assert_eq!(names, vec![b"eth2".to_vec(), "n\u{e9}t".as_bytes().to_vec()]);
    for line in t.lines().skip(2) {
        let expected = line.split(':').next().unwrap().trim();
        if expected != "lo" {
            assert!(names.contains(&expected.as_bytes().to_vec()));
        }
    }
}
