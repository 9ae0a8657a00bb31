//! What a fleet of daemons can count on: the newest record wins everywhere, in
//! whatever order it travels, and the gossip dies down by itself.

use vstd::prelude::*;
use vstd::utf8::*;

use crate::control;
use crate::control::ControlErrorView;
use crate::daemon;
use crate::daemon::{Channel, JobView, Outcome};
use crate::json;
use crate::peer;
use crate::proto;
use crate::proto::{Message, RecordView, Request, RequestView, Response, ResponseView, Version};
use crate::version;

verus! {

/// Whatever a daemon is asked, and whatever bytes it is sent, the version that
/// it holds never goes back.
pub proof fn versions_never_go_back(
    held: RecordView,
    tiebreak: Version,
    input: Seq<u8>,
    request: RequestView,
    channel: Channel,
    clock: Option<u128>,
)
    ensures
        daemon::outcome(held, tiebreak, request, channel, clock).held.version >= held.version,
        daemon::served(held, tiebreak, input, channel, clock).held.version >= held.version,
{
}

/// A record that changes hands is replaced only by a newer one: a daemon that
/// holds the same version as before holds the same record.
pub proof fn same_version_same_record(
    held: RecordView,
    tiebreak: Version,
    input: Seq<u8>,
    channel: Channel,
    clock: Option<u128>,
)
    ensures
        daemon::served(held, tiebreak, input, channel, clock).held.version == held.version
            ==> daemon::served(held, tiebreak, input, channel, clock).held == held,
{
}

/// Work comes of an adoption and of nothing else, and its record is the one that
/// is now held. So whoever persists the record of each job has persisted what
/// is held.
pub proof fn work_comes_of_adoption(
    held: RecordView,
    tiebreak: Version,
    input: Seq<u8>,
    channel: Channel,
    clock: Option<u128>,
)
    ensures
        ({
            let after = daemon::served(held, tiebreak, input, channel, clock);
            &&& after.job is Some <==> after.held.version > held.version
            &&& after.job matches Some(job) ==> job.record == after.held
        }),
{
}

/// An announcement that is not newer than what is held is ignored: nothing
/// changes, nothing is answered and no work comes of it. This is what ends the
/// gossip, for a record that comes round again is not newer.
pub proof fn stale_announcements_are_ignored(
    held: RecordView,
    tiebreak: Version,
    record: RecordView,
    clock: Option<u128>,
)
    requires
        record.version <= held.version,
    ensures
        daemon::outcome(held, tiebreak, peer::announcement(record), Channel::Peer, clock)
            == (Outcome { held, reply: None, job: None }),
{
}

/// A record that was adopted once brings no work a second time, however it
/// comes and whatever came in between.
pub proof fn adopted_once(
    held: RecordView,
    record: RecordView,
    between: Seq<RecordView>,
    local: bool,
)
    ensures
        daemon::work_of(daemon::newest(daemon::newer(held, record), between), record, local)
            is None,
{
    newest_is_highest(daemon::newer(held, record), between);
}

/// An announcement that is newer is adopted without an answer. Where the theme
/// changes, the hook runs and the record is announced on, once, to every peer;
/// where it is the same theme, neither.
pub proof fn newer_announcements_are_adopted(
    held: RecordView,
    tiebreak: Version,
    record: RecordView,
    clock: Option<u128>,
)
    requires
        record.version > held.version,
    ensures
        ({
            let changed = !json::same(held.blob, record.blob);
            daemon::outcome(held, tiebreak, peer::announcement(record), Channel::Peer, clock)
                == (Outcome {
                held: record,
                reply: None,
                job: Some(JobView { record, reconcile: changed, announce: changed }),
            })
        }),
{
}

/// A local set is accepted whatever the clock says, wins over what was held,
/// and is always announced, even where it changes nothing here: a peer may hold
/// another theme at a lower version. The one version that nothing can pass is
/// the last.
pub proof fn local_sets_win(
    held: RecordView,
    tiebreak: Version,
    blob: Seq<u8>,
    clock: Option<u128>,
)
    requires
        held.version < u64::MAX,
    ensures
        ({
            let after = daemon::outcome(
                held,
                tiebreak,
                RequestView::SetBlob { blob },
                Channel::Control,
                clock,
            );
            &&& after.reply == Some(ResponseView::Accepted)
            &&& after.held.blob == blob
            &&& after.held.version > held.version
            &&& after.job == Some(
                JobView {
                    record: after.held,
                    reconcile: !json::same(held.blob, blob),
                    announce: true,
                },
            )
        }),
{
}

/// A newer record with another theme runs the hook and is passed on: two themes
/// are the same only where their texts are, to the last byte, but for a zero
/// with a sign.
pub proof fn another_theme_runs_the_hook(
    held: RecordView,
    tiebreak: Version,
    record: RecordView,
    clock: Option<u128>,
)
    requires
        held.version < record.version,
        held.blob != record.blob,
        forall|i: int|
            0 <= i && i + 3 < held.blob.len() && #[trigger] held.blob[i] == 45 ==> held.blob[i + 1]
                != 48 || held.blob[i + 2] != 46 || held.blob[i + 3] != 48,
        forall|i: int|
            0 <= i && i + 3 < record.blob.len() && #[trigger] record.blob[i] == 45
                ==> record.blob[i + 1] != 48 || record.blob[i + 2] != 46 || record.blob[i + 3]
                != 48,
    ensures
        daemon::outcome(held, tiebreak, peer::announcement(record), Channel::Peer, clock) == (
        Outcome {
            held: record,
            reply: None,
            job: Some(JobView { record, reconcile: true, announce: true }),
        }),
{
}

/// The same theme again runs no hook, whether it is announced or set here: the
/// version moves on, and only a set is passed on to the peers.
pub proof fn the_same_theme_runs_no_hook(
    held: RecordView,
    tiebreak: Version,
    version: Version,
    clock: Option<u128>,
)
    requires
        held.version < version,
    ensures
        daemon::outcome(
            held,
            tiebreak,
            RequestView::Announce { version, blob: held.blob },
            Channel::Peer,
            clock,
        ) == (Outcome {
            held: RecordView { version, blob: held.blob },
            reply: None,
            job: Some(
                JobView {
                    record: RecordView { version, blob: held.blob },
                    reconcile: false,
                    announce: false,
                },
            ),
        }),
        ({
            let set = daemon::outcome(
                held,
                tiebreak,
                RequestView::SetBlob { blob: held.blob },
                Channel::Control,
                clock,
            );
            &&& set.held.version > held.version && set.held.blob == held.blob
            &&& set.job == Some(JobView { record: set.held, reconcile: false, announce: true })
        }),
{
}

/// A set is accepted in any case, and what is held past the last version stays.
pub proof fn sets_past_the_last_version_change_nothing(
    held: RecordView,
    tiebreak: Version,
    blob: Seq<u8>,
    clock: Option<u128>,
)
    requires
        held.version == u64::MAX,
    ensures
        daemon::outcome(
            held,
            tiebreak,
            RequestView::SetBlob { blob },
            Channel::Control,
            clock,
        ) == (Outcome { held, reply: Some(ResponseView::Accepted), job: None }),
{
}

/// A get right after a set gives back the blob that was set.
pub proof fn get_reflects_the_last_set(
    held: RecordView,
    tiebreak: Version,
    blob: Seq<u8>,
    clock: Option<u128>,
    clock_later: Option<u128>,
)
    requires
        held.version < u64::MAX,
    ensures
        ({
            let set = daemon::outcome(
                held,
                tiebreak,
                RequestView::SetBlob { blob },
                Channel::Control,
                clock,
            );
            let get = daemon::outcome(
                set.held,
                tiebreak,
                RequestView::Get,
                Channel::Control,
                clock_later,
            );
            get.reply == Some(ResponseView::State { version: set.held.version, blob })
        }),
{
}

/// Each socket accepts only its own commands. Anything else is refused, and
/// changes nothing.
pub proof fn each_socket_has_its_own_commands(
    held: RecordView,
    tiebreak: Version,
    request: RequestView,
    channel: Channel,
    clock: Option<u128>,
)
    requires
        match channel {
            Channel::Peer => request is SetBlob || request is Get,
            Channel::Control => request is Announce || request is Query,
        },
    ensures
        daemon::outcome(held, tiebreak, request, channel, clock) == (Outcome {
            held,
            reply: Some(daemon::refusal()),
            job: None,
        }),
{
}

/// A query, and a get on the control socket, are answered with the record that
/// is held, and change nothing.
pub proof fn reads_answer_what_is_held(held: RecordView, tiebreak: Version, clock: Option<u128>)
    ensures
        ({
            let answer = Outcome {
                held,
                reply: Some(ResponseView::State { version: held.version, blob: held.blob }),
                job: None,
            };
            &&& daemon::outcome(held, tiebreak, RequestView::Query, Channel::Peer, clock) == answer
            &&& daemon::outcome(held, tiebreak, RequestView::Get, Channel::Control, clock) == answer
        }),
{
}

/// Whatever a connection sends, its first line decides, and only by the request
/// that it holds: neither its length nor its spelling nor what comes after it
/// makes a difference.
pub proof fn the_first_line_decides(
    held: RecordView,
    tiebreak: Version,
    input: Seq<u8>,
    request: RequestView,
    channel: Channel,
    clock: Option<u128>,
)
    requires
        input.len() > 0,
        proto::decode::<Request>(proto::first_line(input)) == Some(request),
    ensures
        daemon::served(held, tiebreak, input, channel, clock) == daemon::outcome(
            held,
            tiebreak,
            request,
            channel,
            clock,
        ),
{
}

/// Every request that can be sent is handled as it was meant, on either socket,
/// whatever else is sent after it.
pub proof fn requests_are_served(
    held: RecordView,
    tiebreak: Version,
    request: RequestView,
    rest: Seq<u8>,
    channel: Channel,
    clock: Option<u128>,
)
    requires
        proto::request_is_valid(request),
        Request::fits(request),
    ensures
        daemon::served(
            held,
            tiebreak,
            proto::line_text::<Request>(request) + rest,
            channel,
            clock,
        ) == daemon::outcome(held, tiebreak, request, channel, clock),
{
    proto::request_reads_back(request, rest);
}

/// A set that a client sends is carried out: it is accepted, its blob is held,
/// the hook runs where the theme changed, and the record is announced. Its
/// version is the clock with the host's tiebreaker in the low byte wherever
/// that passes the version held before, and the next version where it does not.
pub proof fn sets_are_carried_out(
    held: RecordView,
    tiebreak: Version,
    blob: Seq<u8>,
    rest: Seq<u8>,
    clock: Option<u128>,
)
    requires
        json::is_compact(blob),
        json::nests(blob),
        held.version < u64::MAX,
    ensures
        ({
            let after = daemon::served(
                held,
                tiebreak,
                proto::line_text::<Request>(RequestView::SetBlob { blob }) + rest,
                Channel::Control,
                clock,
            );
            let now: u64 = match clock {
                Some(nanos) => (nanos % 0x1_0000_0000_0000_0000) as u64,
                None => 0,
            };
            let stamped: u64 = (now & !0xffu64) | tiebreak;
            &&& after.reply == Some(ResponseView::Accepted)
            &&& after.held.blob == blob
            &&& stamped > held.version ==> after.held.version == stamped
            &&& stamped <= held.version ==> after.held.version == held.version + 1
            &&& after.job == Some(
                JobView {
                    record: after.held,
                    reconcile: !json::same(held.blob, blob),
                    announce: true,
                },
            )
        }),
{
    requests_are_served(
        held,
        tiebreak,
        RequestView::SetBlob { blob },
        rest,
        Channel::Control,
        clock,
    );
}

/// A get that a client sends is answered with the record that is held, and that
/// is what the client hears; nothing changes.
pub proof fn gets_are_answered(
    held: RecordView,
    tiebreak: Version,
    rest: Seq<u8>,
    clock: Option<u128>,
)
    requires
        json::is_compact(held.blob),
        json::nests(held.blob),
    ensures
        ({
            let after = daemon::served(
                held,
                tiebreak,
                proto::line_text::<Request>(RequestView::Get) + rest,
                Channel::Control,
                clock,
            );
            let state = ResponseView::State { version: held.version, blob: held.blob };
            &&& after == (Outcome { held, reply: Some(state), job: None })
            &&& control::answered(proto::line_text::<Response>(state)) == Ok::<
                ResponseView,
                ControlErrorView,
            >(state)
        }),
{
    requests_are_served(held, tiebreak, RequestView::Get, rest, Channel::Control, clock);
    let line = proto::line_text::<Response>(proto::state_of(held));
    proto::response_reads_back(proto::state_of(held), Seq::empty());
    assert(line + Seq::<u8>::empty() =~= line);
}

/// Of two sets made apart, on whichever hosts, the later one wins: where the
/// earlier one was stamped by its clock, and the clocks are a low byte's worth
/// of nanoseconds apart, the later one has the higher version, whatever its
/// host held.
pub proof fn later_sets_win(
    held_a: RecordView,
    tiebreak_a: Version,
    blob_a: Seq<u8>,
    earlier: u128,
    held_b: RecordView,
    tiebreak_b: Version,
    blob_b: Seq<u8>,
    later: u128,
)
    requires
        tiebreak_a <= 0xff,
        tiebreak_b <= 0xff,
        later <= u64::MAX,
        earlier + 0x100 <= later,
        held_a.version < ((earlier as u64) & !0xffu64) | tiebreak_a,
        held_b.version < u64::MAX,
    ensures
        daemon::outcome(
            held_a,
            tiebreak_a,
            RequestView::SetBlob { blob: blob_a },
            Channel::Control,
            Some(earlier),
        ).held.version < daemon::outcome(
            held_b,
            tiebreak_b,
            RequestView::SetBlob { blob: blob_b },
            Channel::Control,
            Some(later),
        ).held.version,
{
    version::stamps_follow_the_clock(earlier, tiebreak_a, later, tiebreak_b);
}

/// Whoever sends a command to the wrong socket hears the refusal, and the line
/// that it comes in is spelled out to the last byte.
pub proof fn refusals_are_heard(
    held: RecordView,
    tiebreak: Version,
    request: RequestView,
    channel: Channel,
    clock: Option<u128>,
)
    requires
        proto::request_is_valid(request),
        Request::fits(request),
        match channel {
            Channel::Peer => request is SetBlob || request is Get,
            Channel::Control => request is Announce || request is Query,
        },
    ensures
        ({
            let after = daemon::served(
                held,
                tiebreak,
                proto::line_text::<Request>(request),
                channel,
                clock,
            );
            let line = encode_utf8(
                "{\"t\":\"err\",\"msg\":\"command not accepted on this socket\"}\n"@,
            );
            &&& after == (Outcome { held, reply: Some(daemon::refusal()), job: None })
            &&& daemon::reply_line(after.reply) == Some(line)
            &&& control::answered(line) == Ok::<ResponseView, ControlErrorView>(daemon::refusal())
        }),
{
    let sent = proto::line_text::<Request>(request);
    proto::request_reads_back(request, Seq::empty());
    assert(sent + Seq::<u8>::empty() =~= sent);
    let msg = "command not accepted on this socket"@;
    let line = proto::line_text::<Response>(daemon::refusal());
    refusal_is_plain();
    proto::plain_refusals_are_written_out(msg);
    proto::response_reads_back(daemon::refusal(), Seq::empty());
    assert(line + Seq::<u8>::empty() =~= line);
}

/// The refusal is in plain characters, and its line is the one that is spelled
/// out.
proof fn refusal_is_plain()
    ensures
        json::all_plain(encode_utf8("command not accepted on this socket"@)),
        encode_utf8("{\"t\":\"err\",\"msg\":\"command not accepted on this socket\"}\n"@)
            == encode_utf8("{\"t\":\"err\",\"msg\":\""@) + encode_utf8(
            "command not accepted on this socket"@,
        ) + encode_utf8("\"}\n"@),
{
    let front = "{\"t\":\"err\",\"msg\":\""@;
    let msg = "command not accepted on this socket"@;
    let back = "\"}\n"@;
    let whole = "{\"t\":\"err\",\"msg\":\"command not accepted on this socket\"}\n"@;
    reveal_strlit("{\"t\":\"err\",\"msg\":\"");
    reveal_strlit("command not accepted on this socket");
    reveal_strlit("\"}\n");
    reveal_strlit("{\"t\":\"err\",\"msg\":\"command not accepted on this socket\"}\n");
    assert(whole =~= front + msg + back);
    assert(is_ascii_chars(front));
    assert(is_ascii_chars(msg));
    assert(is_ascii_chars(back));
    assert(is_ascii_chars(whole));
    is_ascii_chars_encode_utf8(front);
    is_ascii_chars_encode_utf8(msg);
    is_ascii_chars_encode_utf8(back);
    is_ascii_chars_encode_utf8(whole);
    assert(encode_utf8(whole) =~= encode_utf8(front) + encode_utf8(msg) + encode_utf8(back));
}

/// Input that is no request is dropped: nothing is answered, nothing changes
/// and no work comes of it, on either socket.
pub proof fn malformed_input_is_dropped(
    held: RecordView,
    tiebreak: Version,
    input: Seq<u8>,
    channel: Channel,
    clock: Option<u128>,
)
    requires
        input.len() == 0 || proto::decode::<Request>(proto::first_line(input)) is None,
    ensures
        daemon::served(held, tiebreak, input, channel, clock) == (Outcome {
            held,
            reply: None,
            job: None,
        }),
{
}

/// The newest of some records is one of them, and none has a higher version.
pub proof fn newest_is_highest(held: RecordView, incoming: Seq<RecordView>)
    ensures
        daemon::newest(held, incoming) == held || incoming.contains(
            daemon::newest(held, incoming),
        ),
        held.version <= daemon::newest(held, incoming).version,
        forall|i: int|
            0 <= i < incoming.len() ==> (#[trigger] incoming[i]).version <= daemon::newest(
                held,
                incoming,
            ).version,
    decreases incoming.len(),
{
    if incoming.len() > 0 {
        let front = incoming.drop_last();
        newest_is_highest(held, front);
        let n = daemon::newest(held, front);
        if front.contains(n) {
            let i = choose|i: int| 0 <= i < front.len() && front[i] == n;
            assert(incoming[i] == n);
        }
        assert(incoming[incoming.len() - 1] == incoming.last());
        assert forall|i: int| 0 <= i < incoming.len() implies (#[trigger] incoming[i]).version
            <= daemon::newest(held, incoming).version by {
            if i < front.len() {
                assert(front[i] == incoming[i]);
            }
        }
    }
}

/// The records that a daemon has had: the one it started with and those that
/// came in.
pub open spec fn has_had(held: RecordView, incoming: Seq<RecordView>, r: RecordView) -> bool {
    r == held || incoming.contains(r)
}

/// Daemons that have had the same records hold the same one, in whatever order
/// the records came and however often, so long as a version stands for one
/// record.
pub proof fn the_fleet_converges(
    held_a: RecordView,
    incoming_a: Seq<RecordView>,
    held_b: RecordView,
    incoming_b: Seq<RecordView>,
)
    requires
        forall|r: RecordView|
            #![trigger has_had(held_a, incoming_a, r)]
            #![trigger has_had(held_b, incoming_b, r)]
            has_had(held_a, incoming_a, r) <==> has_had(held_b, incoming_b, r),
        forall|r: RecordView, s: RecordView|
            #[trigger] has_had(held_a, incoming_a, r) && #[trigger] has_had(held_a, incoming_a, s)
                && r.version == s.version ==> r == s,
    ensures
        daemon::newest(held_a, incoming_a) == daemon::newest(held_b, incoming_b),
{
    newest_is_highest(held_a, incoming_a);
    newest_is_highest(held_b, incoming_b);
    let a = daemon::newest(held_a, incoming_a);
    let b = daemon::newest(held_b, incoming_b);
    assert(has_had(held_a, incoming_a, a));
    assert(has_had(held_b, incoming_b, b));
    assert(has_had(held_b, incoming_b, a));
    assert(has_had(held_a, incoming_a, b));
    assert(a.version <= b.version);
    assert(b.version <= a.version);
}

/// Announcements that come in one after the other leave the newest of them.
pub proof fn announcements_add_up(
    held: RecordView,
    incoming: Seq<RecordView>,
    record: RecordView,
    tiebreak: Version,
    clock: Option<u128>,
)
    ensures
        daemon::outcome(
            daemon::newest(held, incoming),
            tiebreak,
            peer::announcement(record),
            Channel::Peer,
            clock,
        ).held == daemon::newest(held, incoming.push(record)),
{
    assert(incoming.push(record).drop_last() =~= incoming);
}

/// A late starter that asks around ends up with the highest version that it or
/// any peer holds, and keeps its own record where no peer knows better.
pub proof fn late_starters_catch_up(held: RecordView, replies: Seq<RecordView>)
    ensures
        forall|i: int|
            0 <= i < replies.len() ==> (#[trigger] replies[i]).version <= daemon::newest(
                held,
                replies,
            ).version,
        (forall|i: int| 0 <= i < replies.len() ==> (#[trigger] replies[i]).version <= held.version)
            ==> daemon::newest(held, replies) == held,
    decreases replies.len(),
{
    newest_is_highest(held, replies);
    if (forall|i: int| 0 <= i < replies.len() ==> (#[trigger] replies[i]).version <= held.version)
        && replies.len() > 0 {
        let front = replies.drop_last();
        assert forall|i: int| 0 <= i < front.len() implies (#[trigger] front[i]).version
            <= held.version by {
            assert(front[i] == replies[i]);
        }
        late_starters_catch_up(held, front);
        assert(replies[replies.len() - 1] == replies.last());
    }
}

/// After a daemon has caught up, no peer that answered held a higher version than
/// the one now held.
pub proof fn no_peer_knew_better(
    held: RecordView,
    received: Seq<Option<Vec<u8>>>,
    i: int,
    record: RecordView,
)
    requires
        0 <= i < received.len(),
        received[i] matches Some(bytes) && bytes@.len() > 0 && proto::decode::<Response>(
            proto::first_line(bytes@),
        ) == Some(ResponseView::State { version: record.version, blob: record.blob }),
    ensures
        ({
            let after = daemon::newest(held, peer::answers(received));
            &&& peer::answers(received).contains(record)
            &&& record.version <= after.version
            &&& held.version <= after.version
        }),
{
    peer::no_answer_is_lost(received);
    assert(peer::carries(received[i], record));
    newest_is_highest(held, peer::answers(received));
    let all = peer::answers(received);
    let k = choose|k: int| 0 <= k < all.len() && all[k] == record;
    assert(all[k].version <= daemon::newest(held, all).version);
}

/// What a daemon announces is what its peers take in: the line that goes out is
/// read on the other side as the announcement of the very record. So a record
/// that reaches one daemon goes on from it, unchanged, to peers that its sender
/// cannot see.
pub proof fn announcements_travel(
    held: RecordView,
    tiebreak: Version,
    record: RecordView,
    clock: Option<u128>,
)
    requires
        json::is_compact(record.blob),
        json::nests(record.blob),
    ensures
        daemon::served(
            held,
            tiebreak,
            proto::line_text::<Request>(peer::announcement(record)),
            Channel::Peer,
            clock,
        ) == daemon::outcome(held, tiebreak, peer::announcement(record), Channel::Peer, clock),
{
    let line = proto::line_text::<Request>(peer::announcement(record));
    proto::request_reads_back(peer::announcement(record), Seq::empty());
    assert(line + Seq::<u8>::empty() =~= line);
}

/// A set propagates: the announcement that comes of it leaves every peer that
/// hears it, and holds nothing newer, with the record that was set, blob and
/// version.
pub proof fn sets_propagate(
    held: RecordView,
    tiebreak: Version,
    blob: Seq<u8>,
    clock: Option<u128>,
    peer_held: RecordView,
    peer_tiebreak: Version,
    peer_clock: Option<u128>,
)
    requires
        held.version < u64::MAX,
        json::is_compact(blob),
        json::nests(blob),
    ensures
        ({
            let set = daemon::outcome(
                held,
                tiebreak,
                RequestView::SetBlob { blob },
                Channel::Control,
                clock,
            );
            let line = proto::line_text::<Request>(peer::announcement(set.job->0.record));
            let heard = daemon::served(peer_held, peer_tiebreak, line, Channel::Peer, peer_clock);
            &&& set.job is Some && set.job->0.announce
            &&& set.held.blob == blob
            &&& peer_held.version < set.held.version ==> heard.held == set.held
        }),
{
    let set = daemon::outcome(
        held,
        tiebreak,
        RequestView::SetBlob { blob },
        Channel::Control,
        clock,
    );
    announcements_travel(peer_held, peer_tiebreak, set.held, peer_clock);
}

/// One hop covers a partition: a record that reaches one daemon as news goes on
/// from it, and so reaches a third that the first cannot see.
pub proof fn relays_cover_a_partition(
    record: RecordView,
    relay_held: RecordView,
    relay_tiebreak: Version,
    relay_clock: Option<u128>,
    far_held: RecordView,
    far_tiebreak: Version,
    far_clock: Option<u128>,
)
    requires
        json::is_compact(record.blob),
        json::nests(record.blob),
        relay_held.version < record.version,
        !json::same(relay_held.blob, record.blob),
        far_held.version < record.version,
    ensures
        ({
            let line = proto::line_text::<Request>(peer::announcement(record));
            let relay = daemon::served(
                relay_held,
                relay_tiebreak,
                line,
                Channel::Peer,
                relay_clock,
            );
            let onward = proto::line_text::<Request>(peer::announcement(relay.job->0.record));
            let far = daemon::served(far_held, far_tiebreak, onward, Channel::Peer, far_clock);
            &&& relay.held == record
            &&& relay.job is Some && relay.job->0.announce
            &&& far.held == record
        }),
{
    announcements_travel(relay_held, relay_tiebreak, record, relay_clock);
    announcements_travel(far_held, far_tiebreak, record, far_clock);
}

/// The blob that a daemon holds always nests no deeper than a message takes: it
/// was loaded so, and whatever replaces it came in a message.
pub proof fn held_blobs_can_be_sent(
    held: RecordView,
    tiebreak: Version,
    input: Seq<u8>,
    channel: Channel,
    clock: Option<u128>,
    received: Seq<Option<Vec<u8>>>,
)
    requires
        json::nests(held.blob),
    ensures
        json::nests(daemon::served(held, tiebreak, input, channel, clock).held.blob),
        json::nests(daemon::newest(held, peer::answers(received)).blob),
{
    proto::received_blobs_nest(proto::first_line(input));
    answers_nest(received);
    newest_is_highest(held, peer::answers(received));
}

proof fn answers_nest(received: Seq<Option<Vec<u8>>>)
    ensures
        forall|r: RecordView| peer::answers(received).contains(r) ==> json::nests(r.blob),
    decreases received.len(),
{
    if received.len() > 0 {
        let front = peer::answers(received.drop_last());
        answers_nest(received.drop_last());
        match peer::bytes_of(received.last()) {
            Some(bytes) => {
                proto::received_blobs_nest(proto::first_line(bytes));
            },
            None => {},
        }
        assert forall|r: RecordView| peer::answers(received).contains(r) implies json::nests(
            r.blob,
        ) by {
            match peer::answer(peer::bytes_of(received.last())) {
                Some(last) => {
                    let all = front.push(last);
                    let i = choose|i: int| 0 <= i < all.len() && all[i] == r;
                    if i < front.len() {
                        assert(front[i] == r);
                        assert(front.contains(r));
                    }
                },
                None => {},
            }
        }
    }
}

/// Every announced record reaches every peer by name, so with no peers nothing
/// goes out.
pub proof fn every_peer_is_told(peers: Seq<String>, record: RecordView)
    ensures
        peer::to_every_peer(peers, peer::announcement(record), false).len() == peers.len(),
        forall|i: int|
            0 <= i < peers.len() ==> #[trigger] peer::to_every_peer(
                peers,
                peer::announcement(record),
                false,
            )[i] == peer::connection(peers[i]@, peer::announcement(record), false),
{
}

/// What a daemon answers to a query is, to the one that asked, the record that
/// the daemon holds.
pub proof fn queries_are_answered(
    held: RecordView,
    tiebreak: Version,
    clock: Option<u128>,
)
    requires
        json::is_compact(held.blob),
        json::nests(held.blob),
    ensures
        daemon::reply_line(
            daemon::served(
                held,
                tiebreak,
                proto::line_text::<Request>(RequestView::Query),
                Channel::Peer,
                clock,
            ).reply,
        ) == Some(proto::line_text::<Response>(proto::state_of(held))),
        peer::answer(Some(proto::line_text::<Response>(proto::state_of(held)))) == Some(held),
{
    let query = proto::line_text::<Request>(RequestView::Query);
    let line = proto::line_text::<Response>(proto::state_of(held));
    proto::request_reads_back(RequestView::Query, Seq::empty());
    assert(query + Seq::<u8>::empty() =~= query);
    proto::response_reads_back(proto::state_of(held), Seq::empty());
    assert(line + Seq::<u8>::empty() =~= line);
}

} // verus!
