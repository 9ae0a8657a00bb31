//! The daemon's state: what it adopts, what it answers, what it remembers.

use std::path::PathBuf;

use vstd::prelude::*;
use vstd::utf8::*;

use crate::control;
use crate::control::ControlErrorView;
use crate::json;
use crate::json::Json;
use crate::peer;
use crate::peer::Outgoing;
use crate::proto;
use crate::proto::{
    Message, Record, RecordView, Request, RequestView, Response, ResponseView, Version,
};
use crate::scan;
use crate::version;

verus! {

/// Paths of `std`, carried as they come.
#[verifier::external_type_specification]
#[verifier::external_body]
pub struct ExPathBuf(std::path::PathBuf);

/// Used when no state file exists yet. The daemon never looks inside a blob;
/// this is only a seed so peers have something to converge on.
pub const DEFAULT_BLOB: &'static str = "{\"mode\":\"dark\"}";

/// What the daemon was told to be.
#[derive(Debug)]
pub struct Config {
    pub self_name: String,
    pub listen: String,
    pub state_file: PathBuf,
    pub socket: PathBuf,
    pub reconcile_cmd: Option<String>,
    pub peers: Vec<String>,
}

/// Which socket a request arrived on: peers and the local CLI may say
/// different things.
#[derive(Debug, Clone, Copy, PartialEq, Eq)]
pub enum Channel {
    Peer,
    Control,
}

/// Work to do after a record was adopted, handed to a single worker so hooks
/// and fan-out stay ordered. The record of a job that comes of an adoption is
/// also the one to persist.
#[derive(Debug)]
pub struct Job {
    pub record: Record,
    pub reconcile: bool,
    pub announce: bool,
}

/// A job, with its record as a view.
pub struct JobView {
    pub record: RecordView,
    pub reconcile: bool,
    pub announce: bool,
}

impl View for Job {
    type V = JobView;

    open spec fn view(&self) -> JobView {
        JobView { record: self.record@, reconcile: self.reconcile, announce: self.announce }
    }
}

pub open spec fn job_view(job: Option<Job>) -> Option<JobView> {
    match job {
        Some(j) => Some(j@),
        None => None,
    }
}

pub open spec fn reply_view(reply: Option<Response>) -> Option<ResponseView> {
    match reply {
        Some(r) => Some(r@),
        None => None,
    }
}

/// The record that is held once `incoming` has come in: the newer of the two.
pub open spec fn newer(held: RecordView, incoming: RecordView) -> RecordView {
    if incoming.version > held.version {
        incoming
    } else {
        held
    }
}

/// The work that adopting `incoming` brings. A record that is not newer brings
/// none. A newer one that carries the same theme runs no hook, and is announced
/// only where it was set here.
pub open spec fn work_of(held: RecordView, incoming: RecordView, local: bool) -> Option<JobView> {
    if incoming.version > held.version {
        let changed = !json::same(held.blob, incoming.blob);
        Some(JobView { record: incoming, reconcile: changed, announce: local || changed })
    } else {
        None
    }
}

/// What becomes of a request: the record held afterwards, the answer, and the
/// work it brings.
pub struct Outcome {
    pub held: RecordView,
    pub reply: Option<ResponseView>,
    pub job: Option<JobView>,
}

/// What the daemon answers to a request on the wrong socket.
pub open spec fn refusal() -> ResponseView {
    ResponseView::Refused { msg: "command not accepted on this socket"@ }
}

/// What becomes of a request that comes in on a socket while `held` is held and
/// the clock stands at `clock`.
pub open spec fn outcome(
    held: RecordView,
    tiebreak: Version,
    request: RequestView,
    channel: Channel,
    clock: Option<u128>,
) -> Outcome {
    match (request, channel) {
        (RequestView::Announce { version, blob }, Channel::Peer) => {
            let incoming = RecordView { version, blob };
            Outcome { held: newer(held, incoming), reply: None, job: work_of(held, incoming, false) }
        },
        (RequestView::Query, Channel::Peer) | (RequestView::Get, Channel::Control) => Outcome {
            held,
            reply: Some(proto::state_of(held)),
            job: None,
        },
        (RequestView::SetBlob { blob }, Channel::Control) => {
            let version = version::version_after(clock, tiebreak, held.version);
            let incoming = RecordView { version, blob };
            Outcome {
                held: newer(held, incoming),
                reply: Some(ResponseView::Accepted),
                job: work_of(held, incoming, true),
            }
        },
        _ => Outcome { held, reply: Some(refusal()), job: None },
    }
}

/// What becomes of the bytes that come in on a connection: the first line is a
/// request, or nothing happens at all.
pub open spec fn served(
    held: RecordView,
    tiebreak: Version,
    input: Seq<u8>,
    channel: Channel,
    clock: Option<u128>,
) -> Outcome {
    match proto::decode::<Request>(proto::first_line(input)) {
        Some(request) => if input.len() > 0 {
            outcome(held, tiebreak, request, channel, clock)
        } else {
            Outcome { held, reply: None, job: None }
        },
        None => Outcome { held, reply: None, job: None },
    }
}

/// The line that an answer is sent as, where there is one.
pub open spec fn reply_line(reply: Option<ResponseView>) -> Option<Seq<u8>> {
    match reply {
        Some(r) => Some(proto::line_text::<Response>(r)),
        None => None,
    }
}

/// Whoever reads the line that is sent hears the answer that was meant.
pub open spec fn is_heard(line: Option<Vec<u8>>, reply: Option<ResponseView>) -> bool {
    line matches Some(bytes) ==> reply matches Some(r) && control::answered(bytes@) == Ok::<
        ResponseView,
        ControlErrorView,
    >(r)
}

/// The newest of the record held and those that came in, taken in order; of
/// equal versions the first stays.
pub open spec fn newest(held: RecordView, incoming: Seq<RecordView>) -> RecordView
    decreases incoming.len(),
{
    if incoming.len() == 0 {
        held
    } else {
        newer(newest(held, incoming.drop_last()), incoming.last())
    }
}

/// What came of a request.
#[derive(Debug)]
pub struct Handled {
    pub reply: Option<Response>,
    pub job: Option<Job>,
}

/// What came of a connection: the line to answer with, and the work it brought.
#[derive(Debug)]
pub struct Served {
    pub reply: Option<Vec<u8>>,
    pub job: Option<Job>,
}

/// What came of asking the peers at startup: whether one of them knew better,
/// so that the job's record is to be persisted, and the work to do either way.
#[derive(Debug)]
pub struct CaughtUp {
    pub adopted: bool,
    pub job: Job,
}

/// The hook to run: a shell command, and what it is given to read.
#[derive(Debug)]
pub struct Hook {
    pub cmd: String,
    pub stdin: Vec<u8>,
}

/// What a job comes to: a hook to run first, then connections to make.
#[derive(Debug)]
pub struct Work {
    pub hook: Option<Hook>,
    pub announce: Vec<Outgoing>,
}

/// The daemon: its configuration, its tiebreaker and the record it holds.
#[derive(Debug)]
pub struct Daemon {
    cfg: Config,
    tiebreak: Version,
    state: Record,
}

impl Daemon {
    /// The tiebreaker is the host's.
    #[verifier::type_invariant]
    pub closed spec fn inv(self) -> bool {
        self.tiebreak == version::tiebreak_of(self.cfg.self_name@)
    }

    /// What the daemon was told to be.
    pub closed spec fn config(self) -> Config {
        self.cfg
    }

    /// The record that the daemon holds.
    pub closed spec fn held(self) -> RecordView {
        self.state@
    }

    /// The low byte of the versions that are set here.
    pub open spec fn host(self) -> Version {
        version::tiebreak_of(self.config().self_name@)
    }

    /// A daemon that holds the record it was left with.
    pub fn new(cfg: Config, record: Record) -> (daemon: Self)
        ensures
            daemon.config() == cfg,
            daemon.held() == record@,
    {
        let tiebreak = version::tiebreak(cfg.self_name.as_str());
        Daemon { cfg, tiebreak, state: record }
    }

    /// The configuration.
    pub fn cfg(&self) -> (cfg: &Config)
        ensures
            *cfg == self.config(),
    {
        &self.cfg
    }

    /// The record that is held.
    pub fn record(&self) -> (record: &Record)
        ensures
            record@ == self.held(),
    {
        &self.state
    }

    /// Startup convergence: whoever holds the highest version wins, then
    /// reconcile once. The hook is responsible for being idempotent, since we
    /// cannot know what the system had actually applied before we started.
    pub fn catch_up(&mut self, replies: Vec<Record>) -> (caught: CaughtUp)
        ensures
            final(self).config() == old(self).config(),
            final(self).held() == newest(old(self).held(), peer::record_views(replies@)),
            caught.adopted == (final(self).held().version > old(self).held().version),
            !caught.adopted ==> final(self).held() == old(self).held(),
            caught.adopted ==> exists|i: int|
                0 <= i < replies@.len() && final(self).held() == (RecordView {
                    version: (#[trigger] replies@[i]).version,
                    blob: replies@[i].blob@,
                }) && forall|j: int|
                    0 <= j < i ==> (#[trigger] replies@[j]).version < replies@[i].version,
            forall|i: int|
                0 <= i < replies@.len() ==> (#[trigger] replies@[i]).version
                    <= final(self).held().version,
            caught.job.record.version == final(self).held().version,
            caught.job.record.blob@ == final(self).held().blob,
            caught.job.reconcile && !caught.job.announce,
            caught.job@ == (JobView {
                record: final(self).held(),
                reconcile: true,
                announce: false,
            }),
    {
        proof {
            use_type_invariant(&*self);
        }
        let mut best: Record = self.state.clone();
        let mut i: usize = 0;
        let ghost incoming = peer::record_views(replies@);
        let ghost held = self.state@;
        assert(incoming.take(0) =~= Seq::empty());
        while i < replies.len()
            invariant
                i <= replies@.len(),
                incoming == peer::record_views(replies@),
                best@ == newest(held, incoming.take(i as int)),
                best.version >= held.version,
                best.version == held.version ==> best@ == held,
                best.version > held.version ==> exists|j: int|
                    0 <= j < i && best@ == (RecordView {
                        version: (#[trigger] replies@[j]).version,
                        blob: replies@[j].blob@,
                    }) && forall|k: int|
                        0 <= k < j ==> (#[trigger] replies@[k]).version < replies@[j].version,
                forall|j: int| 0 <= j < i ==> (#[trigger] replies@[j]).version <= best.version,
            decreases replies@.len() - i,
        {
            assert(incoming.take(i + 1).drop_last() =~= incoming.take(i as int));
            assert(incoming[i as int] == replies@[i as int]@);
            if replies[i].version > best.version {
                best = replies[i].clone();
            }
            i = i + 1;
        }
        assert(incoming.take(incoming.len() as int) =~= incoming);
        let adopted: bool = best.version > self.state.version;
        if adopted {
            self.state = best.clone();
        }
        CaughtUp { adopted, job: Job { record: best, reconcile: true, announce: false } }
    }

    /// Adopt `incoming` if it is newer. A newer record carrying the *same*
    /// theme only refreshes the version: no hook, no fan-out.
    pub fn adopt(&mut self, incoming: Record, local: bool) -> (job: Option<Job>)
        ensures
            final(self).config() == old(self).config(),
            final(self).held() == newer(old(self).held(), incoming@),
            job_view(job) == work_of(old(self).held(), incoming@, local),
            incoming.version <= old(self).held().version ==> job is None && final(self).held()
                == old(self).held(),
            incoming.version > old(self).held().version ==> {
                &&& final(self).held() == (RecordView {
                    version: incoming.version,
                    blob: incoming.blob@,
                })
                &&& job is Some
                &&& job->0.record.version == incoming.version
                &&& job->0.record.blob@ == incoming.blob@
                &&& job->0.reconcile == !json::same(old(self).held().blob, incoming.blob@)
                &&& job->0.announce == (local || job->0.reconcile)
            },
            incoming@.version > old(self).held().version && incoming@.blob == old(
                self,
            ).held().blob ==> job is Some && !job->0.reconcile && job->0.announce == local,
    {
        if incoming.version <= self.state.version {
            return None;
        }
        proof {
            use_type_invariant(&*self);
        }
        let changed: bool = self.state.blob != incoming.blob;
        self.state = incoming.clone();
        Some(Job { record: incoming, reconcile: changed, announce: local || changed })
    }

    /// Answers a request while the clock stands at `clock`.
    pub fn handle_at(&mut self, req: Request, ch: Channel, clock: Option<u128>) -> (handled: Handled)
        ensures
            final(self).config() == old(self).config(),
            (Outcome {
                held: final(self).held(),
                reply: reply_view(handled.reply),
                job: job_view(handled.job),
            }) == outcome(old(self).held(), old(self).host(), req@, ch, clock),
    {
        match (req, ch) {
            (Request::Announce { version, blob }, Channel::Peer) => {
                let job: Option<Job> = self.adopt(Record { version, blob }, false);
                Handled { reply: None, job }
            },
            (Request::Query, Channel::Peer) | (Request::Get, Channel::Control) => {
                Handled { reply: Some(Response::from(self.state.clone())), job: None }
            },
            (Request::SetBlob { blob }, Channel::Control) => {
                proof {
                    use_type_invariant(&*self);
                }
                let version: Version = version::next_version(
                    clock,
                    self.tiebreak,
                    self.state.version,
                );
                let job: Option<Job> = self.adopt(Record { version, blob }, true);
                Handled { reply: Some(Response::Accepted), job }
            },
            _ => {
                let msg: String = "command not accepted on this socket".to_owned();
                Handled { reply: Some(Response::Refused { msg }), job: None }
            },
        }
    }

    /// Answers a request, at whatever time the clock tells.
    pub fn handle(&mut self, req: Request, ch: Channel) -> (handled: Handled)
        ensures
            final(self).config() == old(self).config(),
            exists|clock: Option<u128>|
                call_ensures(version::clock, (), clock) && (Outcome {
                    held: final(self).held(),
                    reply: reply_view(handled.reply),
                    job: job_view(handled.job),
                }) == #[trigger] outcome(old(self).held(), old(self).host(), req@, ch, clock),
    {
        let clock: Option<u128> = version::clock();
        self.handle_at(req, ch, clock)
    }

    /// One request per connection, while the clock stands at `clock`: `input`
    /// is what the connection sent.
    pub fn serve_at(&mut self, input: &[u8], ch: Channel, clock: Option<u128>) -> (served: Served)
        ensures
            final(self).config() == old(self).config(),
            ({
                let expected = self::served(
                    old(self).held(),
                    old(self).host(),
                    input@,
                    ch,
                    clock,
                );
                &&& final(self).held() == expected.held
                &&& peer::bytes_of(served.reply) == reply_line(expected.reply)
                &&& job_view(served.job) == expected.job
            }),
            json::nests(old(self).held().blob) ==> is_heard(
                served.reply,
                self::served(old(self).held(), old(self).host(), input@, ch, clock).reply,
            ),
    {
        let mut rest: &[u8] = input;
        match proto::read_msg::<Request>(&mut rest) {
            Ok(Some(req)) => {
                let handled: Handled = self.handle_at(req, ch, clock);
                let reply: Option<Vec<u8>> = match &handled.reply {
                    Some(response) => {
                        let mut line: Vec<u8> = Vec::new();
                        proto::write_msg(&mut line, response);
                        assert(line@ =~= proto::line_text::<Response>(response@));
                        Some(line)
                    },
                    None => None,
                };
                Served { reply, job: handled.job }
            },
            _ => Served { reply: None, job: None },
        }
    }

    /// One request per connection, at whatever time the clock tells.
    pub fn serve(&mut self, input: &[u8], ch: Channel) -> (served: Served)
        ensures
            final(self).config() == old(self).config(),
            exists|clock: Option<u128>|
                call_ensures(version::clock, (), clock) && ({
                    let expected = #[trigger] self::served(
                        old(self).held(),
                        old(self).host(),
                        input@,
                        ch,
                        clock,
                    );
                    &&& final(self).held() == expected.held
                    &&& peer::bytes_of(served.reply) == reply_line(expected.reply)
                    &&& job_view(served.job) == expected.job
                    &&& json::nests(old(self).held().blob) ==> is_heard(
                        served.reply,
                        expected.reply,
                    )
                }),
    {
        let clock: Option<u128> = version::clock();
        self.serve_at(input, ch, clock)
    }

    /// What a job comes to: the hook, where one is configured and the theme
    /// changed, and the record to every peer, where it is to be announced.
    pub fn work(&self, job: &Job) -> (work: Work)
        ensures
            work.hook is Some <==> job.reconcile && self.config().reconcile_cmd is Some,
            !job.announce ==> work.announce@.len() == 0,
            job.announce ==> work.announce@.len() == self.config().peers@.len(),
            forall|i: int|
                0 <= i < work.announce@.len() ==> {
                    &&& (#[trigger] work.announce@[i]).peer@ == self.config().peers@[i]@
                    &&& work.announce@[i].line@ == proto::line_text::<Request>(
                        RequestView::Announce {
                            version: job.record.version,
                            blob: job.record.blob@,
                        },
                    )
                    &&& !work.announce@[i].want_reply
                },
            work.hook matches Some(hook) ==> hook.cmd@ == self.config().reconcile_cmd->0@
                && hook.stdin@ == job.record.blob@,
            peer::outgoing_views(work.announce@) == (if job.announce {
                peer::to_every_peer(
                    self.config().peers@,
                    peer::announcement(job.record@),
                    false,
                )
            } else {
                Seq::empty()
            }),
    {
        let hook: Option<Hook> = match &self.cfg.reconcile_cmd {
            Some(cmd) => if job.reconcile {
                let stdin: Vec<u8> = vstd::slice::slice_to_vec(job.record.blob.text());
                Some(Hook { cmd: cmd.clone(), stdin })
            } else {
                None
            },
            None => None,
        };
        let announce: Vec<Outgoing> = if job.announce {
            peer::announce_all(&self.cfg.peers, &job.record)
        } else {
            Vec::new()
        };
        assert(!job.announce ==> peer::outgoing_views(announce@) =~= Seq::empty());
        Work { hook, announce }
    }
}

/// Nothing is left out of what a contract sees of a job, an answer, a connection
/// or a daemon.
pub proof fn views_show_everything(
    job: Job,
    reply: Response,
    line: Vec<u8>,
    records: Seq<Record>,
    out: Seq<Outgoing>,
    i: int,
    daemon: Daemon,
)
    ensures
        daemon.host() == version::tiebreak_of(daemon.config().self_name@),
        is_heard(Some(line), Some(reply@)) <==> control::answered(line@) == Ok::<
            ResponseView,
            ControlErrorView,
        >(reply@),
        job@ == (JobView {
            record: job.record@,
            reconcile: job.reconcile,
            announce: job.announce,
        }),
        job_view(Some(job)) == Some(job@),
        job_view(None) is None,
        reply_view(Some(reply)) == Some(reply@),
        reply_view(None) is None,
        peer::bytes_of(Some(line)) == Some(line@),
        peer::bytes_of(None) is None,
        reply_line(Some(reply@)) == Some(proto::line_text::<Response>(reply@)),
        reply_line(None) is None,
        peer::record_views(records).len() == records.len(),
        0 <= i < records.len() ==> peer::record_views(records)[i] == records[i]@,
        peer::outgoing_views(out).len() == out.len(),
        0 <= i < out.len() ==> peer::outgoing_views(out)[i] == out[i]@,
{
}

/// The record of a daemon that has none yet.
pub open spec fn default_record() -> RecordView {
    RecordView { version: 0, blob: encode_utf8(DEFAULT_BLOB@) }
}

/// The record that a text holds: an object with a version and a blob, or an
/// array of the two.
pub open spec fn stored(t: Seq<u8>) -> Option<RecordView> {
    match proto::decode::<Record>(t) {
        Some(record) => Some(record),
        None => match json::json_pair(t) {
            Some((version, blob)) => Some(RecordView { version, blob }),
            None => None,
        },
    }
}

/// The record that a state file holds, or the default where there is no file or
/// it holds no record.
pub open spec fn loaded(text: Option<Seq<u8>>) -> RecordView {
    match text {
        Some(t) => match stored(t) {
            Some(record) => record,
            None => default_record(),
        },
        None => default_record(),
    }
}

/// A state file holds the record that its object makes up, or else its array;
/// and a daemon without one, or with one that holds no record, starts from the
/// dark theme at version zero.
pub proof fn state_files_are_believed(t: Seq<u8>)
    ensures
        proto::decode::<Record>(t) matches Some(record) ==> loaded(Some(t)) == record,
        proto::decode::<Record>(t) is None ==> (json::json_pair(t) matches Some((version, blob))
            ==> loaded(Some(t)) == (RecordView { version, blob })),
        proto::decode::<Record>(t) is None && json::json_pair(t) is None ==> loaded(Some(t))
            == loaded(None),
        loaded(None) == (RecordView { version: 0, blob: encode_utf8("{\"mode\":\"dark\"}"@) }),
{
}

/// The default blob is an object of one plain string, and so compact as it is.
proof fn default_blob_is_plain()
    ensures
        json::is_plain_pair(encode_utf8(DEFAULT_BLOB@)),
{
    reveal_strlit("{\"mode\":\"dark\"}");
    let s = DEFAULT_BLOB@;
    assert(is_ascii_chars(s));
    is_ascii_chars_encode_utf8(s);
    let b = encode_utf8(s);
    let k = b.subrange(2, 6);
    let v = b.subrange(9, 13);
    assert(json::all_plain(k));
    assert(json::all_plain(v));
    assert(b =~= seq![123u8] + json::quoted(k) + seq![58u8] + json::quoted(v) + seq![125u8]);
}

fn fresh() -> (record: Record)
    ensures
        record@ == default_record(),
        json::nests(record.blob@),
{
    proof {
        default_blob_is_plain();
    }
    let parsed: Result<Json, serde_json::Error> = Json::parse(DEFAULT_BLOB.as_bytes());
    match parsed {
        Ok(blob) => Record { version: 0, blob },
        Err(_) => vstd::pervasive::unreached(),
    }
}

/// Reads the record that a state file holds.
pub fn read_state(text: &str) -> (record: Option<Record>)
    ensures
        record matches Some(r) ==> stored(encode_utf8(text@)) == Some(r@),
        record is None ==> stored(encode_utf8(text@)) is None,
        proto::decode::<Record>(encode_utf8(text@)) matches Some(stored) ==> record is Some
            && record->0.version == stored.version && record->0.blob@ == stored.blob,
        proto::decode::<Record>(encode_utf8(text@)) is None ==> (json::json_pair(
            encode_utf8(text@),
        ) matches Some((version, blob)) ==> record is Some && record->0.version == version
            && record->0.blob@ == blob),
        proto::decode::<Record>(encode_utf8(text@)) is None && json::json_pair(
            encode_utf8(text@),
        ) is None ==> record is None,
        record matches Some(r) ==> json::nests(r.blob@),
{
    let bytes: &[u8] = text.as_bytes();
    proof {
        proto::received_blobs_nest(bytes@);
    }
    match proto::decode_msg::<Record>(bytes) {
        Ok(record) => Some(record),
        Err(_) => match Json::pair(bytes) {
            Some((version, blob)) => Some(Record { version, blob }),
            None => None,
        },
    }
}

/// Loads what the state file was found to hold; nothing where there is no file
/// or it could not be read. A text that holds no record starts fresh too.
pub fn load_state(text: Option<&str>) -> (record: Record)
    ensures
        record@ == loaded(match text {
            Some(t) => Some(encode_utf8(t@)),
            None => None,
        }),
        json::nests(record.blob@),
        text is None ==> record.version == 0 && record.blob@ == encode_utf8(
            "{\"mode\":\"dark\"}"@,
        ),
        text matches Some(t) ==> (proto::decode::<Record>(encode_utf8(t@)) matches Some(r)
            ==> record.version == r.version && record.blob@ == r.blob),
        text matches Some(t) ==> (proto::decode::<Record>(encode_utf8(t@)) is None
            && json::json_pair(encode_utf8(t@)) is None ==> record.version == 0 && record.blob@
            == encode_utf8("{\"mode\":\"dark\"}"@)),
{
    match text {
        Some(t) => match read_state(t) {
            Some(record) => record,
            None => fresh(),
        },
        None => fresh(),
    }
}

/// What the state file is to hold, for one truncating write in place: the
/// record as an object, which [`load_state`] reads back as the same record. (As
/// in a message, the blob must not be too deep; none that came in one is.)
pub fn write_state(record: &Record) -> (text: Vec<u8>)
    ensures
        text@ == scan::object_text(Record::to_members(record@)),
        json::nests(record.blob@) ==> loaded(Some(text@)) == record@,
{
    let mut text: Vec<u8> = Vec::new();
    record.write(&mut text);
    assert(text@ =~= scan::object_text(Record::to_members(record@)));
    proof {
        use_type_invariant(&record.blob);
        if json::nests(record.blob@) {
            proto::record_reads_back(record@);
        }
    }
    text
}

} // verus!
