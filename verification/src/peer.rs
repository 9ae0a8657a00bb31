//! Outbound peer traffic: one-shot connections, one message each.

use vstd::prelude::*;

use crate::proto;
use crate::proto::{Malformed, Record, RecordView, Request, RequestView, Response, ResponseView};

verus! {

/// Per-peer budget, in seconds, for connect + write + read.
pub const PEER_TIMEOUT: u64 = 2;

/// One connection to make: to whom, the line to send, and whether to wait for
/// a line in return.
#[derive(Debug)]
pub struct Outgoing {
    pub peer: String,
    pub line: Vec<u8>,
    pub want_reply: bool,
}

/// A connection to make, with its texts.
pub struct OutgoingView {
    pub peer: Seq<char>,
    pub line: Seq<u8>,
    pub want_reply: bool,
}

impl View for Outgoing {
    type V = OutgoingView;

    open spec fn view(&self) -> OutgoingView {
        OutgoingView { peer: self.peer@, line: self.line@, want_reply: self.want_reply }
    }
}

/// The connections to make, in order.
pub open spec fn outgoing_views(out: Seq<Outgoing>) -> Seq<OutgoingView> {
    Seq::new(out.len(), |i: int| out[i]@)
}

/// The connection that takes a request to a peer.
pub open spec fn connection(
    peer: Seq<char>,
    request: RequestView,
    want_reply: bool,
) -> OutgoingView {
    OutgoingView { peer, line: proto::line_text::<Request>(request), want_reply }
}

/// The same request to every peer, in the order in which they are configured.
pub open spec fn to_every_peer(
    peers: Seq<String>,
    request: RequestView,
    want_reply: bool,
) -> Seq<OutgoingView> {
    Seq::new(peers.len(), |i: int| connection(peers[i]@, request, want_reply))
}

/// The announcement of a record.
pub open spec fn announcement(record: RecordView) -> RequestView {
    RequestView::Announce { version: record.version, blob: record.blob }
}

/// The same line goes to every peer, under the name that it is configured by,
/// character for character, and in the order of the configuration.
pub proof fn peers_are_called_by_name(
    peers: Seq<String>,
    request: RequestView,
    want_reply: bool,
    i: int,
)
    requires
        0 <= i < peers.len(),
    ensures
        ({
            let out = to_every_peer(peers, request, want_reply);
            &&& out.len() == peers.len()
            &&& out[i].peer == peers[i]@
            &&& out[i].line == proto::line_text::<Request>(request)
            &&& out[i].want_reply == want_reply
        }),
{
}

/// A connection is made as it stands, and an announcement is of the record that
/// it is made from.
pub proof fn connections_carry_what_they_are_given(
    peer: Seq<char>,
    request: RequestView,
    want_reply: bool,
    out: Outgoing,
    record: RecordView,
)
    ensures
        connection(peer, request, want_reply).peer == peer,
        connection(peer, request, want_reply).line == proto::line_text::<Request>(request),
        connection(peer, request, want_reply).want_reply == want_reply,
        out@.peer == out.peer@,
        out@.line == out.line@,
        out@.want_reply == out.want_reply,
        announcement(record) == (RequestView::Announce {
            version: record.version,
            blob: record.blob,
        }),
{
}

/// The connection that takes `req` to `peer`.
pub fn send(peer: &str, req: &Request, want_reply: bool) -> (out: Outgoing)
    ensures
        out@ == connection(peer@, req@, want_reply),
        out.peer@ == peer@,
        out.line@ == proto::line_text::<Request>(req@),
        out.want_reply == want_reply,
{
    let mut line: Vec<u8> = Vec::new();
    proto::write_msg(&mut line, req);
    assert(line@ =~= proto::line_text::<Request>(req@));
    Outgoing { peer: peer.to_owned(), line, want_reply }
}

fn send_all(peers: &Vec<String>, req: &Request, want_reply: bool) -> (out: Vec<Outgoing>)
    ensures
        outgoing_views(out@) == to_every_peer(peers@, req@, want_reply),
        out@.len() == peers@.len(),
        forall|i: int|
            0 <= i < out@.len() ==> {
                &&& (#[trigger] out@[i]).peer@ == peers@[i]@
                &&& out@[i].line@ == proto::line_text::<Request>(req@)
                &&& out@[i].want_reply == want_reply
            },
{
    let mut out: Vec<Outgoing> = Vec::new();
    let mut i: usize = 0;
    while i < peers.len()
        invariant
            i <= peers@.len(),
            out@.len() == i,
            forall|j: int|
                0 <= j < i ==> {
                    &&& (#[trigger] out@[j])@ == connection(peers@[j]@, req@, want_reply)
                    &&& out@[j].peer@ == peers@[j]@
                    &&& out@[j].line@ == proto::line_text::<Request>(req@)
                    &&& out@[j].want_reply == want_reply
                },
        decreases peers@.len() - i,
    {
        out.push(send(peers[i].as_str(), req, want_reply));
        i = i + 1;
    }
    assert(outgoing_views(out@) =~= to_every_peer(peers@, req@, want_reply));
    out
}

/// Push a record to every peer: the connections to make, which may fail one by
/// one and are never waited on for an answer.
pub fn announce_all(peers: &Vec<String>, record: &Record) -> (out: Vec<Outgoing>)
    ensures
        outgoing_views(out@) == to_every_peer(peers@, announcement(record@), false),
        out@.len() == peers@.len(),
        forall|i: int|
            0 <= i < out@.len() ==> {
                &&& (#[trigger] out@[i]).peer@ == peers@[i]@
                &&& out@[i].line@ == proto::line_text::<Request>(
                    RequestView::Announce { version: record.version, blob: record.blob@ },
                )
                &&& !out@[i].want_reply
            },
{
    let req = Request::Announce { version: record.version, blob: record.blob.clone() };
    send_all(peers, &req, false)
}

/// Ask every peer for its current record: the connections to make, each of
/// which answers with a line.
pub fn query_all(peers: &Vec<String>) -> (out: Vec<Outgoing>)
    ensures
        outgoing_views(out@) == to_every_peer(peers@, RequestView::Query, true),
        out@.len() == peers@.len(),
        forall|i: int|
            0 <= i < out@.len() ==> {
                &&& (#[trigger] out@[i]).peer@ == peers@[i]@
                &&& out@[i].line@ == proto::line_text::<Request>(RequestView::Query)
                &&& out@[i].want_reply
            },
{
    send_all(peers, &Request::Query, true)
}

/// The record that an answer carries: the first line that came in is a state.
pub open spec fn answer(received: Option<Seq<u8>>) -> Option<RecordView> {
    match received {
        Some(bytes) => match proto::decode::<Response>(proto::first_line(bytes)) {
            Some(ResponseView::State { version, blob }) => if bytes.len() > 0 {
                Some(RecordView { version, blob })
            } else {
                None
            },
            _ => None,
        },
        None => None,
    }
}

/// The records among the answers, in order.
pub open spec fn answers(received: Seq<Option<Vec<u8>>>) -> Seq<RecordView>
    decreases received.len(),
{
    if received.len() == 0 {
        Seq::empty()
    } else {
        let before = answers(received.drop_last());
        match answer(bytes_of(received.last())) {
            Some(r) => before.push(r),
            None => before,
        }
    }
}

pub open spec fn bytes_of(received: Option<Vec<u8>>) -> Option<Seq<u8>> {
    match received {
        Some(bytes) => Some(bytes@),
        None => None,
    }
}

/// The answers that carry a state: their first line is one.
pub open spec fn carries(received: Option<Vec<u8>>, record: RecordView) -> bool {
    received matches Some(bytes) && bytes@.len() > 0 && proto::decode::<Response>(
        proto::first_line(bytes@),
    ) == Some(ResponseView::State { version: record.version, blob: record.blob })
}

/// Every answer that carries a state is gathered, whatever the others carry, and
/// in the order in which they came: each record goes in at the place that the
/// states before it leave. Nothing else is gathered, so there are as many
/// records as answers that carry one.
pub proof fn every_state_is_gathered(received: Seq<Option<Vec<u8>>>)
    ensures
        answers(received) == received.filter(
            |r: Option<Vec<u8>>|
                r matches Some(bytes) && bytes@.len() > 0 && (proto::decode::<Response>(
                    proto::first_line(bytes@),
                ) matches Some(ResponseView::State { .. })),
        ).map_values(
            |r: Option<Vec<u8>>|
                match proto::decode::<Response>(proto::first_line(r->0@)) {
                    Some(ResponseView::State { version, blob }) => RecordView { version, blob },
                    _ => arbitrary(),
                },
        ),
    decreases received.len(),
{
    let states = |r: Option<Vec<u8>>|
        r matches Some(bytes) && bytes@.len() > 0 && (proto::decode::<Response>(
            proto::first_line(bytes@),
        ) matches Some(ResponseView::State { .. }));
    let record = |r: Option<Vec<u8>>|
        match proto::decode::<Response>(proto::first_line(r->0@)) {
            Some(ResponseView::State { version, blob }) => RecordView { version, blob },
            _ => arbitrary(),
        };
    reveal(Seq::filter);
    if received.len() > 0 {
        let front = received.drop_last();
        let last = received.last();
        every_state_is_gathered(front);
        assert(received.filter(states) == (if states(last) {
            front.filter(states).push(last)
        } else {
            front.filter(states)
        }));
        if states(last) {
            assert(front.filter(states).push(last).map_values(record) =~= front.filter(
                states,
            ).map_values(record).push(record(last)));
        }
    }
    assert(answers(received) =~= received.filter(states).map_values(record));
}

/// Whichever peer it came from, a state that was answered is among the records;
/// and whatever is among them was answered.
pub proof fn no_answer_is_lost(received: Seq<Option<Vec<u8>>>)
    ensures
        forall|i: int, r: RecordView|
            0 <= i < received.len() && #[trigger] carries(received[i], r) ==> answers(
                received,
            ).contains(r),
        forall|r: RecordView| #[trigger]
            answers(received).contains(r) ==> exists|i: int|
                0 <= i < received.len() && #[trigger] carries(received[i], r),
    decreases received.len(),
{
    if received.len() > 0 {
        let front = received.drop_last();
        let n = received.len() - 1;
        no_answer_is_lost(front);
        assert forall|i: int, r: RecordView|
            0 <= i < received.len() && #[trigger] carries(received[i], r) implies answers(
            received,
        ).contains(r) by {
            if i < n {
                assert(carries(front[i], r));
                let k = choose|k: int| 0 <= k < answers(front).len() && answers(front)[k] == r;
                assert(answers(received)[k] == r);
            } else {
                assert(answers(received).last() == r);
            }
        }
        assert forall|r: RecordView| #[trigger] answers(received).contains(r) implies exists|i: int|
            0 <= i < received.len() && #[trigger] carries(received[i], r) by {
            let k = choose|k: int| 0 <= k < answers(received).len() && answers(received)[k] == r;
            if k < answers(front).len() {
                assert(answers(front)[k] == r);
                assert(answers(front).contains(r));
                let i = choose|i: int| 0 <= i < front.len() && #[trigger] carries(front[i], r);
                assert(carries(received[i], r));
            } else {
                assert(carries(received[n], r));
            }
        }
    }
}

/// Some records, as their views.
pub open spec fn record_views(records: Seq<Record>) -> Seq<RecordView> {
    Seq::new(records.len(), |i: int| records[i]@)
}

/// What a peer answered, once a line was asked for and `received` came in:
/// nothing where none was asked for or the peer closed without one.
pub fn reply(want_reply: bool, received: &[u8]) -> (answer: Result<Option<Response>, Malformed>)
    ensures
        answer matches Ok(None) ==> !want_reply || received@.len() == 0,
        answer matches Ok(Some(r)) ==> want_reply && received@.len() > 0 && proto::decode::<
            Response,
        >(proto::first_line(received@)) == Some(r@),
        answer is Err ==> want_reply && received@.len() > 0 && proto::decode::<Response>(
            proto::first_line(received@),
        ) is None,
{
    if !want_reply {
        return Ok(None);
    }
    let mut rest: &[u8] = received;
    proto::read_msg::<Response>(&mut rest)
}

/// Gathers the records out of what the peers answered. A peer that could not be
/// reached, closed early or answered anything else is simply absent from the
/// result.
pub fn gather(received: &Vec<Option<Vec<u8>>>) -> (records: Vec<Record>)
    ensures
        record_views(records@) == answers(received@),
        forall|i: int, r: RecordView|
            0 <= i < received@.len() && #[trigger] carries(received@[i], r) ==> exists|k: int|
                0 <= k < records@.len() && (#[trigger] records@[k]).version == r.version
                    && records@[k].blob@ == r.blob,
{
    let mut records: Vec<Record> = Vec::new();
    let mut i: usize = 0;
    assert(record_views(records@) =~= Seq::empty());
    assert(received@.take(0) =~= Seq::empty());
    while i < received.len()
        invariant
            i <= received@.len(),
            record_views(records@) == answers(received@.take(i as int)),
        decreases received@.len() - i,
    {
        let ghost before = record_views(records@);
        assert(received@.take(i + 1).drop_last() =~= received@.take(i as int));
        match &received[i] {
            Some(bytes) => {
                match reply(true, bytes.as_slice()) {
                    Ok(Some(Response::State { version, blob })) => {
                        let record = Record { version, blob };
                        let ghost r = record@;
                        records.push(record);
                        assert(record_views(records@) =~= before.push(r));
                    },
                    _ => {},
                }
            },
            None => {},
        }
        i = i + 1;
    }
    assert(received@.take(received@.len() as int) =~= received@);
    proof {
        no_answer_is_lost(received@);
        assert forall|i: int, r: RecordView|
            0 <= i < received@.len() && #[trigger] carries(received@[i], r) implies exists|k: int|
            0 <= k < records@.len() && (#[trigger] records@[k]).version == r.version
                && records@[k].blob@ == r.blob by {
            let all = record_views(records@);
            let k = choose|k: int| 0 <= k < all.len() && all[k] == r;
            assert(records@[k]@ == r);
        }
    }
    records
}

} // verus!
