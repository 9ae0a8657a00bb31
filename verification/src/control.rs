//! Client side of the control socket, used by `themed set` / `themed get`.

use vstd::prelude::*;

use crate::json;
use crate::json::Json;
use crate::proto;
use crate::proto::{Record, RecordView, Request, RequestView, Response, ResponseView};

verus! {

/// Why a request to the local daemon came to nothing.
#[derive(Debug)]
pub enum ControlError {
    /// The daemon closed the connection without an answer.
    Closed,
    /// The daemon's answer is no answer.
    Malformed,
    /// The daemon refused the request.
    Refused { msg: String },
    /// The daemon answered something else.
    Unexpected { reply: Response },
}

/// An error, with its texts.
pub enum ControlErrorView {
    Closed,
    Malformed,
    Refused { msg: Seq<char> },
    Unexpected { reply: ResponseView },
}

impl View for ControlError {
    type V = ControlErrorView;

    open spec fn view(&self) -> ControlErrorView {
        match *self {
            ControlError::Closed => ControlErrorView::Closed,
            ControlError::Malformed => ControlErrorView::Malformed,
            ControlError::Refused { msg } => ControlErrorView::Refused { msg: msg@ },
            ControlError::Unexpected { reply } => ControlErrorView::Unexpected { reply: reply@ },
        }
    }
}

/// The answer among the bytes that came in.
pub open spec fn answered(received: Seq<u8>) -> Result<ResponseView, ControlErrorView> {
    if received.len() == 0 {
        Err(ControlErrorView::Closed)
    } else {
        match proto::decode::<Response>(proto::first_line(received)) {
            Some(response) => Ok(response),
            None => Err(ControlErrorView::Malformed),
        }
    }
}

/// What became of a set: only an acceptance will do.
pub open spec fn set_result(received: Seq<u8>) -> Result<(), ControlErrorView> {
    match answered(received) {
        Ok(ResponseView::Accepted) => Ok(()),
        Ok(ResponseView::Refused { msg }) => Err(ControlErrorView::Refused { msg }),
        Ok(reply) => Err(ControlErrorView::Unexpected { reply }),
        Err(e) => Err(e),
    }
}

/// What became of a get: only a state will do.
pub open spec fn get_result(received: Seq<u8>) -> Result<RecordView, ControlErrorView> {
    match answered(received) {
        Ok(ResponseView::State { version, blob }) => Ok(RecordView { version, blob }),
        Ok(ResponseView::Refused { msg }) => Err(ControlErrorView::Refused { msg }),
        Ok(reply) => Err(ControlErrorView::Unexpected { reply }),
        Err(e) => Err(e),
    }
}

/// The line that asks the local daemon to set the theme.
pub fn set_request(blob: Json) -> (line: Vec<u8>)
    ensures
        line@ == proto::line_text::<Request>(RequestView::SetBlob { blob: blob@ }),
{
    let req = Request::SetBlob { blob };
    let mut line: Vec<u8> = Vec::new();
    proto::write_msg(&mut line, &req);
    assert(line@ =~= proto::line_text::<Request>(req@));
    line
}

/// The line that asks the local daemon for the theme.
pub fn get_request() -> (line: Vec<u8>)
    ensures
        line@ == proto::line_text::<Request>(RequestView::Get),
{
    let req = Request::Get;
    let mut line: Vec<u8> = Vec::new();
    proto::write_msg(&mut line, &req);
    assert(line@ =~= proto::line_text::<Request>(req@));
    line
}

/// Reads the daemon's answer out of what came in.
pub fn request(received: &[u8]) -> (reply: Result<Response, ControlError>)
    ensures
        reply matches Ok(r) ==> answered(received@) == Ok::<ResponseView, ControlErrorView>(r@),
        reply matches Err(e) ==> answered(received@) == Err::<ResponseView, ControlErrorView>(e@),
{
    let mut rest: &[u8] = received;
    match proto::read_msg::<Response>(&mut rest) {
        Ok(Some(response)) => Ok(response),
        Ok(None) => Err(ControlError::Closed),
        Err(_) => Err(ControlError::Malformed),
    }
}

/// A client hears the first line that comes in, and tells success by the one
/// answer that will do; each other answer is told apart from it.
pub proof fn one_answer_will_do(received: Seq<u8>, response: ResponseView)
    requires
        received.len() > 0,
        proto::decode::<Response>(proto::first_line(received)) == Some(response),
    ensures
        answered(received) == Ok::<ResponseView, ControlErrorView>(response),
        match response {
            ResponseView::Accepted => set_result(received) is Ok && get_result(received) == Err::<
                RecordView,
                ControlErrorView,
            >(ControlErrorView::Unexpected { reply: response }),
            ResponseView::State { version, blob } => get_result(received) == Ok::<
                RecordView,
                ControlErrorView,
            >(RecordView { version, blob }) && set_result(received) == Err::<(), ControlErrorView>(
                ControlErrorView::Unexpected { reply: response },
            ),
            ResponseView::Refused { msg } => set_result(received) == Err::<(), ControlErrorView>(
                ControlErrorView::Refused { msg },
            ) && get_result(received) == Err::<RecordView, ControlErrorView>(
                ControlErrorView::Refused { msg },
            ),
        },
{
}

/// Where nothing comes in, or no answer, that is what the client is told.
pub proof fn no_answer_will_not_do(received: Seq<u8>)
    requires
        received.len() > 0 ==> proto::decode::<Response>(proto::first_line(received)) is None,
    ensures
        ({
            let told = if received.len() == 0 {
                ControlErrorView::Closed
            } else {
                ControlErrorView::Malformed
            };
            &&& answered(received) == Err::<ResponseView, ControlErrorView>(told)
            &&& set_result(received) == Err::<(), ControlErrorView>(told)
            &&& get_result(received) == Err::<RecordView, ControlErrorView>(told)
        }),
{
}

/// What became of a set, told from what came in for it.
pub fn set(received: &[u8]) -> (done: Result<(), ControlError>)
    ensures
        done is Ok ==> set_result(received@) is Ok,
        done matches Err(e) ==> set_result(received@) == Err::<(), ControlErrorView>(e@),
        done is Ok <==> received@.len() > 0 && proto::decode::<Response>(
            proto::first_line(received@),
        ) == Some(ResponseView::Accepted),
        done matches Err(ControlError::Closed) <==> received@.len() == 0,
        done matches Err(ControlError::Malformed) <==> received@.len() > 0 && proto::decode::<
            Response,
        >(proto::first_line(received@)) is None,
        done matches Err(ControlError::Refused { msg }) ==> proto::decode::<Response>(
            proto::first_line(received@),
        ) == Some(ResponseView::Refused { msg: msg@ }),
        done matches Err(ControlError::Unexpected { reply }) ==> reply is State && proto::decode::<
            Response,
        >(proto::first_line(received@)) == Some(reply@),
{
    match request(received) {
        Ok(Response::Accepted) => Ok(()),
        Ok(Response::Refused { msg }) => Err(ControlError::Refused { msg }),
        Ok(reply) => Err(ControlError::Unexpected { reply }),
        Err(e) => Err(e),
    }
}

/// What became of a get, told from what came in for it.
pub fn get(received: &[u8]) -> (record: Result<Record, ControlError>)
    ensures
        record matches Ok(r) ==> get_result(received@) == Ok::<RecordView, ControlErrorView>(r@),
        record matches Err(e) ==> get_result(received@) == Err::<RecordView, ControlErrorView>(e@),
        record matches Ok(r) ==> received@.len() > 0 && proto::decode::<Response>(
            proto::first_line(received@),
        ) == Some(ResponseView::State { version: r.version, blob: r.blob@ }),
        record matches Err(ControlError::Closed) <==> received@.len() == 0,
        record matches Err(ControlError::Malformed) <==> received@.len() > 0 && proto::decode::<
            Response,
        >(proto::first_line(received@)) is None,
        record matches Err(ControlError::Refused { msg }) ==> proto::decode::<Response>(
            proto::first_line(received@),
        ) == Some(ResponseView::Refused { msg: msg@ }),
        record matches Err(ControlError::Unexpected { reply }) ==> reply is Accepted
            && proto::decode::<Response>(proto::first_line(received@)) == Some(reply@),
{
    match request(received) {
        Ok(Response::State { version, blob }) => Ok(Record { version, blob }),
        Ok(Response::Refused { msg }) => Err(ControlError::Refused { msg }),
        Ok(reply) => Err(ControlError::Unexpected { reply }),
        Err(e) => Err(e),
    }
}

/// The client sees what the daemon meant: an acceptance is a success, and a
/// state is the record that the daemon holds.
pub proof fn clients_hear_the_daemon(held: RecordView)
    requires
        json::is_compact(held.blob),
        json::nests(held.blob),
    ensures
        set_result(proto::line_text::<Response>(ResponseView::Accepted)) is Ok,
        get_result(proto::line_text::<Response>(proto::state_of(held))) == Ok::<
            RecordView,
            ControlErrorView,
        >(held),
{
    let accepted = proto::line_text::<Response>(ResponseView::Accepted);
    let state = proto::line_text::<Response>(proto::state_of(held));
    proto::response_reads_back(ResponseView::Accepted, Seq::empty());
    proto::response_reads_back(proto::state_of(held), Seq::empty());
    assert(accepted + Seq::<u8>::empty() =~= accepted);
    assert(state + Seq::<u8>::empty() =~= state);
}

} // verus!
