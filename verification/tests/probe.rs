use lattice::clock::{
    abs_diff, choose_rtt_ns, now_unix_ms, reply_rtt_ns, timespec_ns, unix_ms,
};
use lattice::cmsg::{cmsg_align, recv_timestamp_ns, SCM_TIMESTAMPNS, SOL_SOCKET};
use lattice::config::ProbePath;
use lattice::iface::IfAddr;
use lattice::net::{IpAddress, SocketAddress};
use lattice::probe::{
    check_sent, choose_bind_ip, is_echo, on_poll, poll_timeout_ms, resolve_bind_ip,
    resolve_first_for_family, wanted_families, PollVerdict, SendOutcome, POLLIN,
};

const SEC: u64 = 1_000_000_000;

fn v4(n: u32) -> IpAddress {
    IpAddress::V4(n)
}

fn v6(n: u128) -> IpAddress {
    IpAddress::V6(n)
}

fn addr(ip: IpAddress) -> SocketAddress {
    SocketAddress { ip, port: 9000 }
}

#[test]
fn clock_differences() {
    assert_eq!(abs_diff(5, 9), 4);
    assert_eq!(abs_diff(9, 5), 4);
    assert_eq!(abs_diff(7, 7), 0);
    assert_eq!(abs_diff(0, u64::MAX), u64::MAX);
}

#[test]
fn timespec_readings() {
    assert_eq!(timespec_ns(1, 5), 1_000_000_005);
    assert_eq!(timespec_ns(0, 0), 0);
    assert_eq!(timespec_ns(-1, 5), 0);
    assert_eq!(timespec_ns(1, -5), 0);
    assert_eq!(timespec_ns(18_446_744_073, 709_551_615), u64::MAX);
    assert_eq!(timespec_ns(18_446_744_073, 709_551_616), 0);
    assert_eq!(timespec_ns(i64::MAX, 0), 0);
}

#[test]
fn wall_clock_in_milliseconds() {
    assert_eq!(unix_ms(1_700_000_000, 123), 1_700_000_000_123);
    assert_eq!(unix_ms(0, 0), 0);
    assert_eq!(unix_ms(u64::MAX, 999), i64::MAX);
    let now = now_unix_ms();
    // After 2020, before 2200.
    assert!(now > 1_577_836_800_000);
    assert!(now < 7_258_118_400_000);
}

#[test]
fn rtt_from_the_realtime_clock() {
    let now = 1_700_000_000 * SEC;
    let recv = now - 1_000;
    let sent = recv - 12_345_678;
    assert_eq!(choose_rtt_ns(recv, sent, 55, now, 99 * SEC), Some(12_345_678));
}

#[test]
fn rtt_from_the_monotonic_clock() {
    let now_rt = 1_700_000_000 * SEC;
    let now_mono = 5_000 * SEC;
    let recv = now_mono - 2_000;
    let sent_mono = recv - 40_000_000;
    assert_eq!(choose_rtt_ns(recv, now_rt - 1, sent_mono, now_rt, now_mono), Some(40_000_000));
}

#[test]
fn rtt_from_neither_clock() {
    let now_rt = 1_700_000_000 * SEC;
    let now_mono = 5_000 * SEC;
    // More than five seconds from both clocks.
    assert_eq!(choose_rtt_ns(now_mono + 6 * SEC, 0, 0, now_rt, now_mono), None);
    // Exactly five seconds still matches.
    assert_eq!(
        choose_rtt_ns(now_mono + 5 * SEC, 0, now_mono + 5 * SEC - 7, now_rt, now_mono),
        Some(7)
    );
    // Clocks that could not be read match nothing.
    assert_eq!(choose_rtt_ns(100, 50, 50, 0, 0), None);
    // More than a minute is not believed.
    assert_eq!(choose_rtt_ns(now_rt, now_rt - 61 * SEC, 0, now_rt, now_mono), None);
    assert_eq!(choose_rtt_ns(now_rt, now_rt - 60 * SEC, 0, now_rt, now_mono), Some(60 * SEC));
    // A reply stamped before the send took no time.
    assert_eq!(choose_rtt_ns(now_rt, now_rt + 5, 0, now_rt, now_mono), Some(0));
}

#[test]
fn rtt_falls_back_to_user_space() {
    let now_rt = 1_700_000_000 * SEC;
    assert_eq!(reply_rtt_ns(None, 1, 2, now_rt, 9, 777), 777);
    assert_eq!(reply_rtt_ns(Some(3), 1, 2, now_rt, 9 * SEC, 777), 777);
    assert_eq!(reply_rtt_ns(Some(now_rt), now_rt - 10, 2, now_rt, 9, 777), 10);
}

#[test]
fn alignment_of_control_messages() {
    assert_eq!(cmsg_align(0), 0);
    assert_eq!(cmsg_align(1), 8);
    assert_eq!(cmsg_align(8), 8);
    assert_eq!(cmsg_align(9), 16);
    assert_eq!(cmsg_align(32), 32);
    assert_eq!(cmsg_align(33), 40);
    assert_eq!(SOL_SOCKET, libc::SOL_SOCKET as u32);
    assert_eq!(SCM_TIMESTAMPNS, libc::SCM_TIMESTAMPNS as u32);
    assert_eq!(std::mem::size_of::<libc::cmsghdr>(), 16);
    assert_eq!(std::mem::size_of::<libc::timespec>(), 16);
}

fn cmsg(level: u32, kind: u32, payload: &[u8]) -> Vec<u8> {
    let mut out = Vec::new();
    out.extend_from_slice(&((16 + payload.len()) as u64).to_le_bytes());
    out.extend_from_slice(&level.to_le_bytes());
    out.extend_from_slice(&kind.to_le_bytes());
    out.extend_from_slice(payload);
    while out.len() % 8 != 0 {
        out.push(0);
    }
    out
}

fn timespec(sec: i64, nsec: i64) -> Vec<u8> {
    let mut out = sec.to_le_bytes().to_vec();
    out.extend_from_slice(&nsec.to_le_bytes());
    out
}

#[test]
fn timestamp_among_control_messages() {
    let only = cmsg(1, 35, &timespec(1_700_000_000, 123_456_789));
    assert_eq!(recv_timestamp_ns(&only), Some(1_700_000_000_123_456_789));

    let mut second = cmsg(1, 29, &[1, 2, 3]);
    second.extend(cmsg(41, 35, &[9; 20]));
    second.extend(cmsg(1, 35, &timespec(7, 8)));
    second.extend(cmsg(1, 35, &timespec(9, 9)));
    assert_eq!(recv_timestamp_ns(&second), Some(7_000_000_008));

    assert_eq!(recv_timestamp_ns(&[]), None);
    assert_eq!(recv_timestamp_ns(&[0; 15]), None);
    assert_eq!(recv_timestamp_ns(&cmsg(1, 29, &[0; 8])), None);
    // A header that states no length ends the scan.
    let mut stuck = vec![0u8; 16];
    stuck.extend(cmsg(1, 35, &timespec(7, 8)));
    assert_eq!(recv_timestamp_ns(&stuck), None);
    // A timestamp cut short is not read.
    let cut = &only[..24];
    assert_eq!(recv_timestamp_ns(cut), None);
    // A negative time reads as no time.
    assert_eq!(recv_timestamp_ns(&cmsg(1, 35, &timespec(-1, 0))), Some(0));
}

#[test]
fn connect_address_follows_the_bind_family() {
    let addrs = vec![addr(v6(7)), addr(v4(1)), addr(v4(2)), addr(v6(8))];
    assert_eq!(resolve_first_for_family(&addrs, None), Ok(addr(v6(7))));
    assert_eq!(resolve_first_for_family(&addrs, Some(v4(99))), Ok(addr(v4(1))));
    assert_eq!(resolve_first_for_family(&addrs, Some(v6(99))), Ok(addr(v6(7))));
    let only4 = vec![addr(v4(1))];
    assert_eq!(
        resolve_first_for_family(&only4, Some(v6(1))).unwrap_err(),
        "no resolved addresses for bind family"
    );
    assert_eq!(resolve_first_for_family(&[], None).unwrap_err(), "no resolved addresses");
    assert_eq!(
        resolve_first_for_family(&[], Some(v4(1))).unwrap_err(),
        "no resolved addresses for bind family"
    );
}

#[test]
fn bind_address_follows_the_host_families() {
    let ips = vec![v6(5), v4(1), v6(6), v4(2)];
    assert_eq!(choose_bind_ip(&ips, true, false), Some(v4(1)));
    assert_eq!(choose_bind_ip(&ips, false, true), Some(v6(5)));
    assert_eq!(choose_bind_ip(&ips, true, true), Some(v4(1)));
    assert_eq!(choose_bind_ip(&ips, false, false), Some(v6(5)));
    assert_eq!(choose_bind_ip(&[v6(5)], true, false), Some(v6(5)));
    assert_eq!(choose_bind_ip(&[v4(5)], false, true), Some(v4(5)));
    assert_eq!(choose_bind_ip(&[], true, true), None);
    assert_eq!(wanted_families(&[addr(v4(1))]), (true, false));
    assert_eq!(wanted_families(&[addr(v6(1)), addr(v6(2))]), (false, true));
    assert_eq!(wanted_families(&[addr(v6(1)), addr(v4(2))]), (true, true));
    assert_eq!(wanted_families(&[]), (false, false));
}

fn path(bind_interface: Option<&str>, bind_ip: Option<&str>) -> ProbePath {
    ProbePath {
        id: "p".to_string(),
        bind_interface: bind_interface.map(|s| s.to_string()),
        bind_ip: bind_ip.map(|s| s.to_string()),
    }
}

#[test]
fn bind_resolution_of_a_path() {
    let rows = vec![
        IfAddr { name: Some("eth0".to_string()), flags: 0, addr: Some(v6(9)) },
        IfAddr { name: Some("eth0".to_string()), flags: 0, addr: Some(v4(3)) },
    ];
    let resolved = vec![addr(v4(50))];
    assert_eq!(resolve_bind_ip(&path(None, None), None, &rows, &resolved), Ok(None));
    assert_eq!(
        resolve_bind_ip(&path(Some("eth0"), Some("10.0.0.1")), Some(v4(77)), &rows, &resolved),
        Ok(Some(v4(77)))
    );
    assert_eq!(
        resolve_bind_ip(&path(None, Some("nonsense")), None, &rows, &resolved).unwrap_err(),
        "invalid bindIp"
    );
    assert_eq!(
        resolve_bind_ip(&path(Some("eth0"), None), None, &rows, &resolved),
        Ok(Some(v4(3)))
    );
    assert_eq!(resolve_bind_ip(&path(Some("eth0"), None), None, &rows, &[]), Ok(Some(v6(9))));
    assert_eq!(
        resolve_bind_ip(&path(Some("wlan0"), None), None, &rows, &resolved).unwrap_err(),
        "no addresses found for interface wlan0"
    );
}

#[test]
fn wait_budget_in_whole_milliseconds() {
    assert_eq!(poll_timeout_ms(100, 100), None);
    assert_eq!(poll_timeout_ms(101, 100), None);
    assert_eq!(poll_timeout_ms(0, 999_999), Some(0));
    assert_eq!(poll_timeout_ms(0, 1_000_000), Some(1));
    assert_eq!(poll_timeout_ms(500, 250_000_500), Some(250));
    assert_eq!(poll_timeout_ms(0, u64::MAX), Some(i32::MAX));
    assert_eq!(poll_timeout_ms(0, 2_147_483_647_000_000), Some(i32::MAX));
    assert_eq!(poll_timeout_ms(1, 2_147_483_647_000_000), Some(i32::MAX - 1));
}

#[test]
fn verdicts_on_waits_and_sends() {
    assert_eq!(POLLIN, libc::POLLIN);
    assert_eq!(on_poll(-1, 0), PollVerdict::Failed);
    assert_eq!(on_poll(0, POLLIN), PollVerdict::TimedOut);
    assert_eq!(on_poll(1, 0), PollVerdict::Again);
    assert_eq!(on_poll(1, libc::POLLERR), PollVerdict::Again);
    assert_eq!(on_poll(1, POLLIN), PollVerdict::Readable);
    assert_eq!(on_poll(1, POLLIN | libc::POLLERR), PollVerdict::Readable);
    assert_eq!(check_sent(-1, 32), SendOutcome::Failed);
    assert_eq!(check_sent(31, 32), SendOutcome::Short);
    assert_eq!(check_sent(32, 32), SendOutcome::Sent);
    assert_eq!(check_sent(0, 0), SendOutcome::Sent);
}

#[test]
fn echo_is_the_same_bytes() {
    let sent = [1u8, 2, 3, 4];
    assert!(is_echo(&[1, 2, 3, 4], &sent));
    assert!(!is_echo(&[1, 2, 3], &sent));
    assert!(!is_echo(&[1, 2, 3, 4, 5], &sent));
    assert!(!is_echo(&[1, 2, 3, 5], &sent));
    assert!(is_echo(&[], &[]));
}
