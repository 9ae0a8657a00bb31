//! From flags and the machine to a configuration.

use std::collections::HashSet;
use std::path::PathBuf;

use themed::proto::Version;
use themed::retry::{Backoff, Step};
use themed::setup::{
    default_socket, default_state_file, hostname, listen_at, parse_blob, parse_tailscale_ip,
    run_daemon, tailscale_answer, trim, DaemonArgs, Ipv4, Machine,
};
use themed::version::{next_version, tiebreak};

fn ip(a: u8, b: u8, c: u8, d: u8) -> Ipv4 {
    Ipv4 { a, b, c, d }
}

#[test]
fn tailscale_output_must_be_a_literal_address() {
    assert_eq!(parse_tailscale_ip("100.64.0.1\n"), Some(ip(100, 64, 0, 1)));
    // Only the first address; the rest is not ours to guess at.
    assert_eq!(
        parse_tailscale_ip("100.64.0.1\n100.64.0.2\n"),
        Some(ip(100, 64, 0, 1))
    );

    for junk in [
        "",
        "\n",
        "not an address",
        "fezzik.example.ts.net",
        "100.64.0.1 extra",
        "100.64.0.1:47100",
        "fd7a:115c:a1e0::1",
        "Logged out.",
    ] {
        assert_eq!(parse_tailscale_ip(junk), None, "accepted {junk:?}");
    }
}

#[test]
fn an_address_is_four_plain_octets() {
    assert_eq!(parse_tailscale_ip("0.0.0.0"), Some(ip(0, 0, 0, 0)));
    assert_eq!(parse_tailscale_ip("255.255.255.255"), Some(ip(255, 255, 255, 255)));
    assert_eq!(parse_tailscale_ip("1.22.133.4"), Some(ip(1, 22, 133, 4)));
    for junk in [
        "256.0.0.1",
        "1.2.3",
        "1.2.3.4.5",
        "01.2.3.4",
        "1.2.3.04",
        "1.2.3.00",
        "1..2.3",
        "1.2.3.4.",
        ".1.2.3",
        "1.2.3.1000",
        "+1.2.3.4",
        "1.2.3.\u{664}",
    ] {
        assert_eq!(parse_tailscale_ip(junk), None, "accepted {junk:?}");
    }
    assert_eq!(parse_tailscale_ip(" \u{a0}1.2.3.4\t\r\n"), Some(ip(1, 2, 3, 4)));
    assert_eq!(parse_tailscale_ip("\n1.2.3.4"), None);
}

#[test]
fn a_failed_run_is_no_answer() {
    assert_eq!(tailscale_answer(true, "1.2.3.4"), Some(ip(1, 2, 3, 4)));
    assert_eq!(tailscale_answer(false, "1.2.3.4"), None);
    assert_eq!(tailscale_answer(true, "Logged out."), None);
}

#[test]
fn trimming_is_what_std_does() {
    for c in (0..=0x10ffffu32).filter_map(char::from_u32) {
        if c.is_whitespace() {
            let text = format!("{c}a{c} b{c}{c}");
            assert_eq!(trim(&text), text.trim(), "{c:?}");
        }
    }
    for c in ['\u{1c}', '\u{200b}', '\u{feff}', '\u{180e}', '\u{2060}', '\u{200d}'] {
        let text = format!("{c}a{c}");
        assert_eq!(trim(&text), text.trim(), "{c:?}");
    }
    assert_eq!(trim(" \t\n"), "");
    assert_eq!(trim(""), "");
}

#[test]
fn tiebreaks_differ_between_hosts() {
    let names = ["fezzik", "vizzini", "fire-swamp", "xanadu", "max"];
    let breaks: HashSet<Version> = names.iter().map(|n| tiebreak(n)).collect();
    assert_eq!(breaks.len(), names.len());
}

#[test]
fn the_tiebreak_is_the_low_byte_of_fnv1a() {
    assert_eq!(tiebreak(""), 0x25);
    assert_eq!(tiebreak("a"), 0x8c);
    assert_eq!(tiebreak("foobar"), 0xe8);
}

#[test]
fn versions_take_the_clock_and_the_tiebreaker() {
    let now = 0x1234_5678_9abc_def0u128;
    assert_eq!(next_version(Some(now), 0x42, 0), 0x1234_5678_9abc_de42);
    // The clock is behind: forced past the previous version.
    assert_eq!(
        next_version(Some(now), 0x42, 0x1234_5678_9abc_de42),
        0x1234_5678_9abc_de43
    );
    assert_eq!(next_version(Some(now), 0x42, u64::MAX - 1), u64::MAX);
    assert_eq!(next_version(Some(now), 0x42, u64::MAX), u64::MAX);
    // Before the epoch the clock counts as zero, and past 64 bits it wraps.
    assert_eq!(next_version(None, 0x42, 7), 0x42);
    assert_eq!(next_version(None, 0x42, 0x42), 0x43);
    assert_eq!(next_version(Some((1u128 << 64) + 0x1ff), 1, 0), 0x101);
}

#[test]
fn stamps_of_different_hosts_never_tie() {
    let now = Some(1_700_000_000_123_456_789u128);
    let a = next_version(now, tiebreak("fezzik"), 0);
    let b = next_version(now, tiebreak("vizzini"), 0);
    assert_ne!(a, b);
    let later = Some(1_700_000_000_123_456_789u128 + 0x100);
    assert!(next_version(later, 0, 0) > a && next_version(later, 0, 0) > b);
}

#[test]
fn the_hostname_is_trimmed_and_never_empty() {
    assert_eq!(hostname(Some("fezzik\n"), Some("other")), "fezzik");
    assert_eq!(hostname(None, Some(" max \n")), "max");
    assert_eq!(hostname(None, None), "unknown");
    assert_eq!(hostname(Some(" \n"), Some("max")), "unknown");
}

#[test]
fn default_paths_follow_the_environment() {
    let dir = |s: &str| PathBuf::from(s);
    let place = default_socket(Some(dir("/run/user/1")), dir("/tmp"));
    assert_eq!(place.dir.join(place.below), dir("/run/user/1/themed.sock"));
    let place = default_socket(None, dir("/tmp"));
    assert_eq!(place.dir.join(place.below), dir("/tmp/themed.sock"));

    let place = default_state_file(Some(dir("/s")), Some(dir("/h")), dir("/tmp"));
    assert_eq!(place.dir.join(place.below), dir("/s/themed/state.json"));
    let place = default_state_file(None, Some(dir("/h")), dir("/tmp"));
    assert_eq!(
        place.dir.join(place.below),
        dir("/h/.local/state/themed/state.json")
    );
    let place = default_state_file(None, None, dir("/tmp"));
    assert_eq!(place.dir.join(place.below), dir("/tmp/themed/state.json"));
}

fn args() -> DaemonArgs {
    DaemonArgs {
        self_name: None,
        listen: None,
        state_file: None,
        reconcile_cmd: None,
        peers: Vec::new(),
    }
}

fn machine(address: Option<Ipv4>) -> Machine {
    Machine {
        hostname: "fezzik".to_string(),
        address,
        state_file: PathBuf::from("/state/state.json"),
    }
}

#[test]
fn flags_win_over_the_machine() {
    let given = DaemonArgs {
        self_name: Some("a".to_string()),
        listen: Some("127.0.0.1:1".to_string()),
        state_file: Some(PathBuf::from("/a.json")),
        reconcile_cmd: Some("cat".to_string()),
        peers: vec!["b:1".to_string()],
    };
    let cfg = run_daemon(given, PathBuf::from("/sock"), machine(None)).unwrap();
    assert_eq!(cfg.self_name, "a");
    assert_eq!(cfg.listen, "127.0.0.1:1");
    assert_eq!(cfg.state_file, PathBuf::from("/a.json"));
    assert_eq!(cfg.socket, PathBuf::from("/sock"));
    assert_eq!(cfg.reconcile_cmd, Some("cat".to_string()));
    assert_eq!(cfg.peers, vec!["b:1".to_string()]);
}

#[test]
fn the_machine_fills_in_for_flags() {
    let cfg = run_daemon(args(), PathBuf::from("/sock"), machine(Some(ip(100, 64, 0, 1)))).unwrap();
    assert_eq!(cfg.self_name, "fezzik");
    assert_eq!(cfg.listen, "100.64.0.1:47100");
    assert_eq!(cfg.state_file, PathBuf::from("/state/state.json"));
    assert_eq!(cfg.reconcile_cmd, None);
    assert!(cfg.peers.is_empty());
    assert!(run_daemon(args(), PathBuf::from("/sock"), machine(None)).is_none());
    assert_eq!(listen_at(ip(0, 9, 10, 255), 5), "0.9.10.255:5");
}

#[test]
fn a_blob_is_a_single_json_value() {
    assert_eq!(parse_blob(" {\"mode\" : \"light\"}\n").unwrap().text(), br#"{"mode":"light"}"#);
    assert_eq!(parse_blob("7").unwrap().text(), b"7");
    let e = parse_blob("{} {}").unwrap_err();
    assert_eq!(e.error.to_string(), "trailing characters at line 1 column 4");
}

#[test]
fn pauses_double_up_to_half_a_minute() {
    let mut backoff = Backoff::new();
    for seconds in [1, 2, 4, 8, 16, 30, 30, 30] {
        assert_eq!(backoff.step(None::<u8>), Step::Wait(seconds));
    }
    assert_eq!(backoff.step(Some(7u8)), Step::Done(7));
}
