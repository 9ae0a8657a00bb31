//! The daemon: what it adopts, answers, remembers and passes on.

use std::path::PathBuf;

use themed::control;
use themed::control::ControlError;
use themed::daemon::{
    load_state, read_state, write_state, Channel, Config, Daemon, Handled, Job, Served,
    DEFAULT_BLOB,
};
use themed::json::Json;
use themed::peer::{announce_all, gather, query_all, reply, Outgoing};
use themed::proto::{Record, Request, Response, Version};

const DARK: &str = r#"{"mode":"dark"}"#;
const LIGHT: &str = r#"{"mode":"light"}"#;

fn json(text: &str) -> Json {
    Json::parse(text.as_bytes()).unwrap()
}

fn record(version: Version, blob: &str) -> Record {
    Record { version, blob: json(blob) }
}

fn config(name: &str, peers: &[&str]) -> Config {
    Config {
        self_name: name.to_string(),
        listen: "127.0.0.1:47100".to_string(),
        state_file: PathBuf::from("/state.json"),
        socket: PathBuf::from("/themed.sock"),
        reconcile_cmd: Some("apply".to_string()),
        peers: peers.iter().map(|p| p.to_string()).collect(),
    }
}

fn daemon(name: &str, held: Record) -> Daemon {
    Daemon::new(config(name, &["b:1", "c:1"]), held)
}

fn announce(version: Version, blob: &str) -> Request {
    Request::Announce { version, blob: json(blob) }
}

fn announced(version: Version, blob: &str) -> String {
    format!("{{\"t\":\"announce\",\"version\":{version},\"blob\":{blob}}}\n")
}

fn text(line: Option<Vec<u8>>) -> Option<String> {
    line.map(|l| String::from_utf8(l).unwrap())
}

#[test]
fn missing_state_file_yields_the_default_blob() {
    let record = load_state(None);
    assert_eq!(record.version, 0);
    assert_eq!(record.blob, json(r#"{"mode":"dark"}"#));
    assert_eq!(record.blob.text(), DEFAULT_BLOB.as_bytes());
}

#[test]
fn state_text_round_trips() {
    let record = record(42, LIGHT);
    let text = String::from_utf8(write_state(&record)).unwrap();
    assert_eq!(text, r#"{"version":42,"blob":{"mode":"light"}}"#);
    let loaded = load_state(Some(&text));
    assert_eq!(loaded.version, 42);
    assert_eq!(loaded.blob, record.blob);
}

#[test]
fn corrupt_state_file_falls_back_to_the_default() {
    assert_eq!(
        load_state(Some("{ this is not json")).blob,
        json(r#"{"mode":"dark"}"#)
    );
}

#[test]
fn a_state_file_holds_a_version_and_a_blob() {
    let loaded = read_state(" {\"blob\": 1, \"version\": 7, \"more\": []}\n").unwrap();
    assert_eq!((loaded.version, loaded.blob), (7, json("1")));
    let loaded = read_state("[7, {\"a\": 1}]").unwrap();
    assert_eq!((loaded.version, loaded.blob), (7, json(r#"{"a":1}"#)));
    for text in [
        "",
        "{}",
        "{\"version\":7}",
        "{\"version\":-7,\"blob\":1}",
        "{\"version\":7,\"blob\":1,\"blob\":1}",
        "{\"version\":7,\"blob\":1,\"more\":}",
        "{\"version\":7,\"blob\":1,\"more\":[1,]}",
        "{\"version\":7,\"blob\":1e999}",
        "[7]",
        "[7,1,2]",
        "7",
    ] {
        assert!(read_state(text).is_none(), "accepted {text}");
    }
}

#[test]
fn what_else_a_state_file_holds_is_passed_over() {
    let deep = format!("{}{}", "[".repeat(1000), "]".repeat(1000));
    let text = format!("{{\"more\":1e999,\"deep\":{deep},\"version\":7,\"more\":1,\"blob\":[0]}}");
    let loaded = read_state(&text).unwrap();
    assert_eq!((loaded.version, loaded.blob), (7, json("[0]")));
}

#[test]
fn newer_announcements_are_adopted_and_passed_on() {
    let mut d = daemon("a", record(5, DARK));
    let Handled { reply, job } = d.handle(announce(6, LIGHT), Channel::Peer);
    assert!(reply.is_none());
    let job = job.unwrap();
    assert_eq!((job.record.version, job.reconcile, job.announce), (6, true, true));
    assert_eq!(job.record.blob, json(LIGHT));
    assert_eq!(d.record().version, 6);
    assert_eq!(d.record().blob, json(LIGHT));
}

#[test]
fn older_and_equal_announcements_are_ignored() {
    let mut d = daemon("a", record(5, DARK));
    for version in [0, 4, 5] {
        let Handled { reply, job } = d.handle(announce(version, LIGHT), Channel::Peer);
        assert!(reply.is_none() && job.is_none());
        assert_eq!(d.record().version, 5);
        assert_eq!(d.record().blob, json(DARK));
    }
}

#[test]
fn a_record_is_adopted_once() {
    let mut d = daemon("a", record(5, DARK));
    assert!(d.adopt(record(6, LIGHT), false).is_some());
    assert!(d.adopt(record(7, DARK), false).is_some());
    assert!(d.adopt(record(6, LIGHT), false).is_none());
    assert!(d.adopt(record(7, DARK), true).is_none());
    assert_eq!((d.record().version, d.record().blob.text()), (7, DARK.as_bytes()));
}

#[test]
fn the_same_theme_only_refreshes_the_version() {
    let mut d = daemon("a", record(5, DARK));
    let job = d.adopt(record(6, "{ \"mode\" : \"dark\" }"), false).unwrap();
    assert_eq!((job.reconcile, job.announce), (false, false));
    assert_eq!(d.record().version, 6);
    let work = d.work(&job);
    assert!(work.hook.is_none() && work.announce.is_empty());
}

#[test]
fn the_same_theme_again_runs_no_hook() {
    let mut d = daemon("a", record(5, DARK));
    let job = d.handle(announce(6, DARK), Channel::Peer).job.unwrap();
    assert_eq!((job.record.version, job.reconcile, job.announce), (6, false, false));
    let set = Request::SetBlob { blob: json(DARK) };
    let job = d.handle(set, Channel::Control).job.unwrap();
    assert_eq!((job.reconcile, job.announce), (false, true));
}

#[test]
fn a_local_set_wins_and_is_always_announced() {
    let mut d = daemon("a", record(u64::MAX - 1, DARK));
    let Handled { reply, job } = d.handle(Request::SetBlob { blob: json(DARK) }, Channel::Control);
    assert!(matches!(reply, Some(Response::Accepted)));
    let job = job.unwrap();
    assert_eq!((job.record.version, job.reconcile, job.announce), (u64::MAX, false, true));

    // Past the last version there is nothing to pass it with.
    let Handled { reply, job } = d.handle(Request::SetBlob { blob: json(LIGHT) }, Channel::Control);
    assert!(matches!(reply, Some(Response::Accepted)));
    assert!(job.is_none());
    assert_eq!(d.record().blob, json(DARK));
}

#[test]
fn a_set_is_stamped_with_the_clock() {
    let mut d = daemon("a", record(0, DARK));
    let set = Request::SetBlob { blob: json(LIGHT) };
    let handled = d.handle_at(set, Channel::Control, Some(0x1000));
    assert!(matches!(handled.reply, Some(Response::Accepted)));
    assert_eq!(d.record().version, 0x108c);
}

#[test]
fn a_set_goes_by_the_wall_clock() {
    let mut d = daemon("a", record(0, DARK));
    d.handle(Request::SetBlob { blob: json(LIGHT) }, Channel::Control);
    // Some time after 2023, with the host's tiebreaker in the low byte.
    assert!(d.record().version > 1_672_531_200_000_000_000);
    assert_eq!(d.record().version & 0xff, 0x8c);
}

#[test]
fn get_reflects_the_last_accepted_set() {
    let mut d = daemon("a", record(7, DARK));
    d.handle(Request::SetBlob { blob: json(LIGHT) }, Channel::Control);
    let version = d.record().version;
    let Some(Response::State { version: v, blob }) = d.handle(Request::Get, Channel::Control).reply
    else {
        panic!("no state");
    };
    assert_eq!((v, blob), (version, json(LIGHT)));
}

#[test]
fn each_socket_accepts_only_its_own_commands() {
    let mut d = daemon("a", record(5, DARK));
    let wrong = [
        (Request::SetBlob { blob: json(LIGHT) }, Channel::Peer),
        (Request::Get, Channel::Peer),
        (announce(9, LIGHT), Channel::Control),
        (Request::Query, Channel::Control),
    ];
    for (req, ch) in wrong {
        let Handled { reply, job } = d.handle(req, ch);
        let Some(Response::Refused { msg }) = reply else {
            panic!("not refused");
        };
        assert_eq!(msg, "command not accepted on this socket");
        assert!(job.is_none());
        assert_eq!((d.record().version, d.record().blob.text()), (5, DARK.as_bytes()));
    }
}

#[test]
fn a_refusal_is_heard_at_the_other_end() {
    let mut d = daemon("a", record(5, DARK));
    let reply = d.serve(&control::get_request(), Channel::Peer).reply.unwrap();
    let Err(ControlError::Refused { msg }) = control::get(&reply) else {
        panic!("not refused");
    };
    assert_eq!(msg, "command not accepted on this socket");
}

#[test]
fn serving_is_one_request_per_connection() {
    let mut d = daemon("a", record(5, DARK));
    let Served { reply, job } = d.serve(b"{\"t\":\"query\"}\n{\"t\":\"get\"}\n", Channel::Peer);
    assert_eq!(
        text(reply).unwrap(),
        "{\"t\":\"state\",\"version\":5,\"blob\":{\"mode\":\"dark\"}}\n"
    );
    assert!(job.is_none());

    let Served { reply, job } = d.serve_at(announced(6, LIGHT).as_bytes(), Channel::Peer, None);
    assert!(reply.is_none());
    assert_eq!(job.unwrap().record.version, 6);

    let Served { reply, job } = d.serve(b"{\"t\":\"get\"}\n", Channel::Peer);
    assert_eq!(
        text(reply).unwrap(),
        "{\"t\":\"err\",\"msg\":\"command not accepted on this socket\"}\n"
    );
    assert!(job.is_none());
}

#[test]
fn junk_gets_no_answer_and_changes_nothing() {
    let mut d = daemon("a", record(5, DARK));
    for input in ["", "\n", "this is not json\n", "{\"t\":\"nonsense\"}\n", "[]", "{"] {
        for ch in [Channel::Peer, Channel::Control] {
            let Served { reply, job } = d.serve(input.as_bytes(), ch);
            assert!(reply.is_none() && job.is_none());
        }
    }
    assert_eq!((d.record().version, d.record().blob.text()), (5, DARK.as_bytes()));
}

#[test]
fn stale_and_malformed_input_is_passed_by() {
    let mut d = daemon("a", load_state(None));
    d.serve(&control::set_request(json(LIGHT)), Channel::Control);
    for line in [
        "this is not json\n".to_string(),
        "{\"t\":\"nonsense\"}\n".to_string(),
        // Version 1 is older than any real set, so this must not be adopted.
        announced(1, DARK),
    ] {
        let Served { reply, job } = d.serve(line.as_bytes(), Channel::Peer);
        assert!(reply.is_none() && job.is_none());
    }

    // The daemon is still serving, and still holds the light theme.
    let reply = text(d.serve(b"{\"t\":\"query\"}\n", Channel::Peer).reply).unwrap();
    assert!(reply.contains("light"), "unexpected reply: {reply}");
}

#[test]
fn catching_up_takes_the_highest_version() {
    let mut d = daemon("a", record(5, DARK));
    let caught = d.catch_up(vec![record(4, "4"), record(7, "\"first\""), record(6, "6"), record(7, "\"second\"")]);
    assert!(caught.adopted);
    assert_eq!((caught.job.reconcile, caught.job.announce), (true, false));
    assert_eq!((d.record().version, d.record().blob.text()), (7, &b"\"first\""[..]));
    assert_eq!(caught.job.record.version, 7);

    // Nobody knows better: still reconcile once, with what we have.
    let caught = d.catch_up(vec![record(7, "7"), record(1, "1")]);
    assert!(!caught.adopted);
    assert_eq!((caught.job.reconcile, caught.job.announce), (true, false));
    assert_eq!(caught.job.record.blob, json("\"first\""));
    assert!(!d.catch_up(Vec::new()).adopted);
}

#[test]
fn work_is_the_hook_and_then_the_peers() {
    let d = daemon("a", record(5, DARK));
    let job = |reconcile, announce| Job { record: record(6, LIGHT), reconcile, announce };

    let work = d.work(&job(true, true));
    let hook = work.hook.unwrap();
    assert_eq!((hook.cmd.as_str(), &hook.stdin[..]), ("apply", LIGHT.as_bytes()));
    let to: Vec<&str> = work.announce.iter().map(|o| o.peer.as_str()).collect();
    assert_eq!(to, vec!["b:1", "c:1"]);
    for out in &work.announce {
        assert_eq!(out.line, announced(6, LIGHT).as_bytes());
        assert!(!out.want_reply);
    }

    assert!(d.work(&job(false, true)).hook.is_none());
    assert!(d.work(&job(true, false)).announce.is_empty());

    let mut cfg = config("a", &[]);
    cfg.reconcile_cmd = None;
    let work = Daemon::new(cfg, record(5, DARK)).work(&job(true, true));
    assert!(work.hook.is_none() && work.announce.is_empty());
}

#[test]
fn peers_are_asked_and_their_answers_gathered() {
    let peers = vec!["b:1".to_string(), "c:1".to_string()];
    let out = query_all(&peers);
    assert_eq!(out.len(), 2);
    assert!(out.iter().all(|o| o.want_reply && o.line == b"{\"t\":\"query\"}\n"));
    assert_eq!((out[0].peer.as_str(), out[1].peer.as_str()), ("b:1", "c:1"));
    assert!(query_all(&Vec::new()).is_empty());
    assert!(announce_all(&Vec::new(), &record(1, DARK)).is_empty());

    let records = gather(&vec![
        None,
        Some(b"{\"t\":\"state\",\"version\":7,\"blob\":1}\n".to_vec()),
        Some(Vec::new()),
        Some(b"{\"t\":\"ok\"}\n".to_vec()),
        Some(b"junk".to_vec()),
        Some(b"{\"t\":\"state\",\"version\":3,\"blob\":2}".to_vec()),
    ]);
    let versions: Vec<Version> = records.iter().map(|r| r.version).collect();
    assert_eq!(versions, vec![7, 3]);
    assert_eq!(records[0].blob, json("1"));
}

#[test]
fn an_answer_is_read_only_where_one_was_asked_for() {
    assert!(matches!(reply(false, b"junk"), Ok(None)));
    assert!(matches!(reply(true, b""), Ok(None)));
    assert!(matches!(reply(true, b"{\"t\":\"ok\"}\n"), Ok(Some(Response::Accepted))));
    assert!(reply(true, b"junk").is_err());
}

#[test]
fn the_client_tells_success_from_failure() {
    assert_eq!(
        String::from_utf8(control::set_request(json(LIGHT))).unwrap(),
        "{\"t\":\"set\",\"blob\":{\"mode\":\"light\"}}\n"
    );
    assert_eq!(String::from_utf8(control::get_request()).unwrap(), "{\"t\":\"get\"}\n");

    assert!(control::set(b"{\"t\":\"ok\"}\n").is_ok());
    assert!(matches!(control::set(b""), Err(ControlError::Closed)));
    assert!(matches!(control::set(b"junk\n"), Err(ControlError::Malformed)));
    let Err(ControlError::Refused { msg }) = control::set(b"{\"t\":\"err\",\"msg\":\"no\"}\n") else {
        panic!("not refused");
    };
    assert_eq!(msg, "no");
    let state = b"{\"t\":\"state\",\"version\":7,\"blob\":1}\n";
    assert!(matches!(
        control::set(state),
        Err(ControlError::Unexpected { reply: Response::State { version: 7, .. } })
    ));

    let held = control::get(state).unwrap();
    assert_eq!((held.version, held.blob), (7, json("1")));
    assert!(matches!(control::get(b""), Err(ControlError::Closed)));
    assert!(matches!(control::get(b"{}"), Err(ControlError::Malformed)));
    assert!(matches!(
        control::get(b"{\"t\":\"err\",\"msg\":\"no\"}"),
        Err(ControlError::Refused { .. })
    ));
    assert!(matches!(
        control::get(b"{\"t\":\"ok\"}\n"),
        Err(ControlError::Unexpected { reply: Response::Accepted })
    ));
}

/// A daemon and what its hook was given, in memory.
struct Node {
    name: &'static str,
    daemon: Daemon,
    applied: String,
}

/// Daemons that reach each other by name; a name that nobody has is a host that
/// is down.
struct Fleet {
    nodes: Vec<Node>,
}

impl Fleet {
    fn new(hosts: &[(&'static str, &[&str])]) -> Fleet {
        let mut fleet = Fleet { nodes: Vec::new() };
        for (name, peers) in hosts {
            fleet.start(name, peers);
        }
        fleet
    }

    fn start(&mut self, name: &'static str, peers: &[&str]) {
        let daemon = Daemon::new(config(name, peers), load_state(None));
        let received = query_all(&daemon.cfg().peers)
            .into_iter()
            .map(|out| self.deliver(out).0)
            .collect();
        let mut node = Node { name, daemon, applied: String::new() };
        let caught = node.daemon.catch_up(gather(&received));
        self.nodes.push(node);
        self.work(name, caught.job);
    }

    fn node(&self, name: &str) -> &Node {
        self.nodes.iter().find(|n| n.name == name).unwrap()
    }

    /// Hands a line to the peer it is for; what it answers, and what it has to
    /// do then.
    fn deliver(&mut self, out: Outgoing) -> (Option<Vec<u8>>, Option<(&'static str, Job)>) {
        match self.nodes.iter_mut().find(|n| n.name == out.peer) {
            Some(node) => {
                let served = node.daemon.serve(&out.line, Channel::Peer);
                let name = node.name;
                (served.reply, served.job.map(|job| (name, job)))
            }
            None => (None, None),
        }
    }

    /// Does a job and all the jobs that come of it.
    fn work(&mut self, name: &'static str, job: Job) {
        let mut jobs = vec![(name, job)];
        let mut steps = 0;
        while let Some((name, job)) = jobs.pop() {
            steps += 1;
            assert!(steps < 1000, "the gossip goes on and on");
            let node = self.nodes.iter_mut().find(|n| n.name == name).unwrap();
            let work = node.daemon.work(&job);
            if let Some(hook) = work.hook {
                node.applied.push_str(&String::from_utf8(hook.stdin).unwrap());
            }
            for out in work.announce {
                let (_, job) = self.deliver(out);
                jobs.extend(job);
            }
        }
    }

    fn set(&mut self, name: &'static str, blob: &str) -> bool {
        let node = self.nodes.iter_mut().find(|n| n.name == name).unwrap();
        let line = control::set_request(json(blob));
        let served = node.daemon.serve(&line, Channel::Control);
        if let Some(job) = served.job {
            self.work(name, job);
        }
        control::set(&served.reply.unwrap_or_default()).is_ok()
    }

    fn get(&mut self, name: &str) -> String {
        let node = self.nodes.iter_mut().find(|n| n.name == name).unwrap();
        let served = node.daemon.serve(&control::get_request(), Channel::Control);
        let record = control::get(&served.reply.unwrap()).unwrap();
        String::from_utf8(record.blob.text().to_vec()).unwrap()
    }
}

#[test]
fn a_set_reaches_every_peer() {
    let mut fleet = Fleet::new(&[("c", &[]), ("b", &["c"]), ("a", &["b", "c"])]);
    assert!(fleet.set("a", LIGHT));
    for name in ["a", "b", "c"] {
        assert!(fleet.node(name).applied.ends_with(LIGHT));
        assert_eq!(fleet.get(name), LIGHT);
    }
}

#[test]
fn a_late_starter_learns_by_asking() {
    let mut fleet = Fleet::new(&[("a", &[])]);
    assert!(fleet.set("a", LIGHT));
    fleet.start("c", &["a"]);
    assert_eq!(fleet.node("c").applied, LIGHT);
    assert_eq!(fleet.get("c"), LIGHT);
}

#[test]
fn one_hop_gets_round_a_partition() {
    // A cannot see C: nobody is there under the name that it has for C.
    let mut fleet = Fleet::new(&[("c", &[]), ("b", &["c"]), ("a", &["b", "nobody"])]);
    assert!(fleet.set("a", LIGHT));
    assert!(fleet.node("c").applied.ends_with(LIGHT));
    assert_eq!(fleet.get("c"), LIGHT);
}

#[test]
fn a_set_succeeds_with_nobody_there() {
    let mut fleet = Fleet::new(&[("a", &["nobody", "no one"])]);
    assert!(fleet.set("a", LIGHT), "fan-out failures must not fail the set");
    assert!(fleet.node("a").applied.ends_with(LIGHT));
    assert_eq!(fleet.get("a"), LIGHT);
}

#[test]
fn a_redundant_set_runs_no_hook() {
    let mut fleet = Fleet::new(&[("b", &[]), ("a", &["b"])]);
    assert!(fleet.set("a", LIGHT));
    let before = (fleet.node("a").applied.clone(), fleet.node("b").applied.clone());
    let version = fleet.node("b").daemon.record().version;

    assert!(fleet.set("a", LIGHT));
    assert!(fleet.node("a").daemon.record().version > version);
    assert!(fleet.node("b").daemon.record().version > version);
    assert_eq!(fleet.node("a").applied, before.0, "a reconciled a no-op change");
    assert_eq!(fleet.node("b").applied, before.1, "b reconciled a no-op change");
}

#[test]
fn gossip_dies_down_in_a_ring() {
    let mut fleet = Fleet::new(&[("a", &["b", "c"]), ("b", &["a", "c"]), ("c", &["a", "b"])]);
    assert!(fleet.set("b", LIGHT));
    assert!(fleet.set("c", "{\"mode\":\"dark\",\"accent\":1}"));
    for name in ["a", "b", "c"] {
        assert_eq!(fleet.get(name), "{\"accent\":1,\"mode\":\"dark\"}");
    }
}

#[test]
fn the_order_of_announcements_makes_no_difference() {
    let records = [(3, "3"), (1, "1"), (2, "2")];
    for order in [[0, 1, 2], [0, 2, 1], [1, 0, 2], [1, 2, 0], [2, 0, 1], [2, 1, 0]] {
        let mut d = daemon("a", record(0, DARK));
        for i in order {
            d.adopt(record(records[i].0, records[i].1), false);
        }
        assert_eq!((d.record().version, d.record().blob.text()), (3, &b"3"[..]));
    }
}

#[test]
fn a_too_deep_blob_is_turned_away_at_the_daemon() {
    let deep = format!("{}{}", "[".repeat(127), "]".repeat(127));
    let mut fleet = Fleet::new(&[("a", &[])]);
    assert!(!fleet.set("a", &deep));
    assert_eq!(fleet.get("a"), DARK);
}
