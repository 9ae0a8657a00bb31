//! Wire format shared by both sockets: one JSON object per line, UTF-8.

use vstd::prelude::*;
use vstd::utf8::*;

use crate::json;
use crate::json::Json;
use crate::scan;
use crate::scan::{Member, MemberView, Reading};
use crate::text;

verus! {

/// Opaque last-write-wins ordering token: nanoseconds since the Unix epoch,
/// with a per-host tiebreaker in the low byte. Never interpret it beyond
/// `>` / `<=`.
pub type Version = u64;

/// The single replicated register.
#[derive(Debug)]
pub struct Record {
    pub version: Version,
    /// Opaque to this daemon: stored, shipped, and handed to the reconcile
    /// hook, never inspected. All theme semantics live in the hook.
    pub blob: Json,
}

/// A record, with the blob as its compact text.
pub struct RecordView {
    pub version: Version,
    pub blob: Seq<u8>,
}

impl View for Record {
    type V = RecordView;

    open spec fn view(&self) -> RecordView {
        RecordView { version: self.version, blob: self.blob@ }
    }
}

impl Clone for Record {
    fn clone(&self) -> (copy: Self)
        ensures
            copy@ == self@,
    {
        Record { version: self.version, blob: self.blob.clone() }
    }
}

/// Anything a client, peer or CLI, can send us.
#[derive(Debug)]
pub enum Request {
    /// Peer to peer: "I adopted this record."
    Announce { version: Version, blob: Json },
    /// Peer to peer, at startup only: "what do you have?"
    Query,
    /// CLI to daemon: set the theme.
    SetBlob { blob: Json },
    /// CLI to daemon: read the theme.
    Get,
}

/// A request, with its blob as compact text.
pub enum RequestView {
    Announce { version: Version, blob: Seq<u8> },
    Query,
    SetBlob { blob: Seq<u8> },
    Get,
}

impl View for Request {
    type V = RequestView;

    open spec fn view(&self) -> RequestView {
        match *self {
            Request::Announce { version, blob } => RequestView::Announce { version, blob: blob@ },
            Request::Query => RequestView::Query,
            Request::SetBlob { blob } => RequestView::SetBlob { blob: blob@ },
            Request::Get => RequestView::Get,
        }
    }
}

/// What the daemon answers.
#[derive(Debug)]
pub enum Response {
    State { version: Version, blob: Json },
    Accepted,
    Refused { msg: String },
}

/// An answer, with its blob as compact text.
pub enum ResponseView {
    State { version: Version, blob: Seq<u8> },
    Accepted,
    Refused { msg: Seq<char> },
}

impl View for Response {
    type V = ResponseView;

    open spec fn view(&self) -> ResponseView {
        match *self {
            Response::State { version, blob } => ResponseView::State { version, blob: blob@ },
            Response::Accepted => ResponseView::Accepted,
            Response::Refused { msg } => ResponseView::Refused { msg: msg@ },
        }
    }
}

/// The answer that carries a record.
pub open spec fn state_of(r: RecordView) -> ResponseView {
    ResponseView::State { version: r.version, blob: r.blob }
}

impl From<Record> for Response {
    fn from(r: Record) -> (response: Self) {
        Response::State { version: r.version, blob: r.blob }
    }
}

impl vstd::std_specs::convert::FromSpecImpl<Record> for Response {
    open spec fn obeys_from_spec() -> bool {
        true
    }

    open spec fn from_spec(r: Record) -> Response {
        Response::State { version: r.version, blob: r.blob }
    }
}

/// A member whose name is given as it is written.
pub open spec fn member(name: Seq<char>, value: Seq<u8>) -> MemberView {
    MemberView { name: encode_utf8(name), value }
}

/// The `"t"` member, which says what kind of message this is.
pub open spec fn tag(value: Seq<char>) -> MemberView {
    member("\"t\""@, encode_utf8(value))
}

/// The members of a record: its version, then its blob.
pub open spec fn record_members(version: Version, blob: Seq<u8>) -> Seq<MemberView> {
    seq![member("\"version\""@, text::decimal(version as nat)), member("\"blob\""@, blob)]
}

/// The version that a numeral stands for.
pub open spec fn version_of(digits: Seq<u8>) -> Option<Version> {
    if exists|v: u64| digits == #[trigger] text::decimal(v as nat) {
        Some(text::numeral(digits) as u64)
    } else {
        None
    }
}

/// The record that some members hold: one version and one blob among them.
pub open spec fn record_in(ms: Seq<MemberView>) -> Option<RecordView> {
    match (scan::only(ms, encode_utf8("\"version\""@)), scan::only(ms, encode_utf8("\"blob\""@))) {
        (Some(digits), Some(blob)) => match version_of(digits) {
            Some(version) => Some(RecordView { version, blob }),
            None => None,
        },
        _ => None,
    }
}

/// A kind of message: how it is written as the members of an object, and how
/// it is made out of them again. Members of other names are passed over.
pub trait Message: Sized + View {
    /// How much of the object is read.
    spec fn as_read() -> Reading;

    /// The members that a message is written as.
    spec fn to_members(message: Self::V) -> Seq<MemberView>;

    /// The message that some members hold.
    spec fn from_members(ms: Seq<MemberView>) -> Option<Self::V>;

    /// Whether the message can be read at the other end: its blob, where it has
    /// one, is not too deep to stand inside a message.
    spec fn fits(message: Self::V) -> bool;

    /// Appends the object that the message is written as. What is written is
    /// made of plain names and compact values, and holds the same message.
    fn write(&self, out: &mut Vec<u8>)
        ensures
            final(out)@ == old(out)@ + scan::object_text(Self::to_members(self@)),
            scan::all_writable(Self::to_members(self@)),
            scan::all_read(Self::to_members(self@), Self::as_read()),
            Self::from_members(Self::to_members(self@)) == Some(self@),
            Self::fits(self@) ==> scan::all_nest(Self::to_members(self@)),
    ;

    /// Tells how much of the object is to be read.
    fn reading() -> (reading: Reading)
        ensures
            reading == Self::as_read(),
    ;

    /// Makes the message out of members.
    fn read(ms: &Vec<Member>) -> (message: Option<Self>)
        ensures
            message matches Some(m) ==> Self::from_members(scan::views(ms@)) == Some(m@),
            message is None ==> Self::from_members(scan::views(ms@)) is None,
    ;
}

/// A literal of plain characters between quotes is a plain name.
proof fn literal_is_plain(s: Seq<char>)
    requires
        s.len() >= 2,
        s[0] == '"',
        s[s.len() - 1] == '"',
        forall|i: int| 0 < i < s.len() - 1 ==> 'a' <= #[trigger] s[i] <= 'z',
    ensures
        json::is_plain_literal(encode_utf8(s)),
{
    assert(is_ascii_chars(s));
    is_ascii_chars_encode_utf8(s);
    let b = encode_utf8(s);
    let k = b.subrange(1, b.len() - 1);
    assert forall|i: int| 0 <= i < k.len() implies json::is_plain(#[trigger] k[i]) by {
        assert(b[i + 1] == s[i + 1] as u8);
    }
    assert(b[0] == s[0] as u8);
    assert(b[b.len() - 1] == s[s.len() - 1] as u8);
    assert(b =~= json::quoted(k));
}

/// Different characters are written differently.
proof fn literals_differ(a: Seq<char>, b: Seq<char>)
    requires
        a != b,
    ensures
        encode_utf8(a) != encode_utf8(b),
{
    encode_utf8_decode_utf8(a);
    encode_utf8_decode_utf8(b);
}

/// The names that members go by are plain, and no two are the same.
proof fn names()
    ensures
        json::is_plain_literal(encode_utf8("\"t\""@)),
        json::is_plain_literal(encode_utf8("\"version\""@)),
        json::is_plain_literal(encode_utf8("\"blob\""@)),
        json::is_plain_literal(encode_utf8("\"msg\""@)),
        encode_utf8("\"t\""@) != encode_utf8("\"version\""@),
        encode_utf8("\"t\""@) != encode_utf8("\"blob\""@),
        encode_utf8("\"t\""@) != encode_utf8("\"msg\""@),
        encode_utf8("\"version\""@) != encode_utf8("\"blob\""@),
{
    reveal_strlit("\"t\"");
    reveal_strlit("\"version\"");
    reveal_strlit("\"blob\"");
    reveal_strlit("\"msg\"");
    literal_is_plain("\"t\""@);
    literal_is_plain("\"version\""@);
    literal_is_plain("\"blob\""@);
    literal_is_plain("\"msg\""@);
    literals_differ("\"t\""@, "\"version\""@);
    literals_differ("\"t\""@, "\"blob\""@);
    literals_differ("\"t\""@, "\"msg\""@);
    literals_differ("\"version\""@, "\"blob\""@);
}

/// The tags of requests are plain, and no two are the same.
proof fn request_tags()
    ensures
        json::is_plain_literal(encode_utf8("\"announce\""@)),
        json::is_plain_literal(encode_utf8("\"query\""@)),
        json::is_plain_literal(encode_utf8("\"set\""@)),
        json::is_plain_literal(encode_utf8("\"get\""@)),
        encode_utf8("\"announce\""@) != encode_utf8("\"query\""@),
        encode_utf8("\"announce\""@) != encode_utf8("\"set\""@),
        encode_utf8("\"announce\""@) != encode_utf8("\"get\""@),
        encode_utf8("\"query\""@) != encode_utf8("\"set\""@),
        encode_utf8("\"query\""@) != encode_utf8("\"get\""@),
        encode_utf8("\"set\""@) != encode_utf8("\"get\""@),
{
    reveal_strlit("\"announce\"");
    reveal_strlit("\"query\"");
    reveal_strlit("\"set\"");
    reveal_strlit("\"get\"");
    literal_is_plain("\"announce\""@);
    literal_is_plain("\"query\""@);
    literal_is_plain("\"set\""@);
    literal_is_plain("\"get\""@);
    literals_differ("\"announce\""@, "\"query\""@);
    literals_differ("\"announce\""@, "\"set\""@);
    literals_differ("\"announce\""@, "\"get\""@);
    literals_differ("\"query\""@, "\"set\""@);
    literals_differ("\"query\""@, "\"get\""@);
    assert("\"set\""@[1] != "\"get\""@[1]);
    literals_differ("\"set\""@, "\"get\""@);
}

/// The tags of answers are plain, and no two are the same.
proof fn response_tags()
    ensures
        json::is_plain_literal(encode_utf8("\"state\""@)),
        json::is_plain_literal(encode_utf8("\"ok\""@)),
        json::is_plain_literal(encode_utf8("\"err\""@)),
        encode_utf8("\"state\""@) != encode_utf8("\"ok\""@),
        encode_utf8("\"state\""@) != encode_utf8("\"err\""@),
        encode_utf8("\"ok\""@) != encode_utf8("\"err\""@),
{
    reveal_strlit("\"state\"");
    reveal_strlit("\"ok\"");
    reveal_strlit("\"err\"");
    literal_is_plain("\"state\""@);
    literal_is_plain("\"ok\""@);
    literal_is_plain("\"err\""@);
    literals_differ("\"state\""@, "\"ok\""@);
    literals_differ("\"state\""@, "\"err\""@);
    literals_differ("\"ok\""@, "\"err\""@);
}

/// How one, two and three members are written.
proof fn few_members(a: MemberView, b: MemberView, c: MemberView)
    ensures
        scan::body_text(seq![a]) == scan::member_text(a),
        scan::body_text(seq![a, b]) == scan::member_text(a) + seq![44u8] + scan::member_text(b),
        scan::body_text(seq![a, b, c]) == scan::member_text(a) + seq![44u8] + (scan::member_text(b)
            + seq![44u8] + scan::member_text(c)),
{
    reveal_with_fuel(scan::body_text, 3);
    assert(seq![a, b].drop_first() =~= seq![b]);
    assert(seq![a, b, c].drop_first() =~= seq![b, c]);
    assert(seq![b, c].drop_first() =~= seq![c]);
}

/// Appends a member.
fn push_member(out: &mut Vec<u8>, name: &str, value: &[u8])
    ensures
        final(out)@ == old(out)@ + scan::member_text(member(name@, value@)),
{
    text::push_str(out, name);
    out.push(58);
    text::push_bytes(out, value);
    assert(out@ =~= old(out)@ + scan::member_text(member(name@, value@)));
}

/// Appends the members of a record.
fn push_record(out: &mut Vec<u8>, version: Version, blob: &Json)
    ensures
        final(out)@ == old(out)@ + scan::body_text(record_members(version, blob@)),
{
    let mut digits: Vec<u8> = Vec::new();
    text::push_decimal(&mut digits, version);
    assert(digits@ =~= text::decimal(version as nat));
    push_member(out, "\"version\"", digits.as_slice());
    out.push(44);
    push_member(out, "\"blob\"", blob.text());
    proof {
        let v = member("\"version\""@, digits@);
        let b = member("\"blob\""@, blob@);
        few_members(v, b, b);
    }
    assert(out@ =~= old(out)@ + scan::body_text(record_members(version, blob@)));
}

/// What a numeral stands for is what it was written from.
proof fn version_of_decimal(version: Version)
    ensures
        version_of(text::decimal(version as nat)) == Some(version),
{
    text::numeral_of_decimal(version as nat);
}

/// A record is found again among the members that it was written as.
proof fn record_members_hold(version: Version, blob: Seq<u8>)
    requires
        json::is_compact(blob),
    ensures
        scan::all_writable(record_members(version, blob)),
        record_in(record_members(version, blob)) == Some(RecordView { version, blob }),
{
    names();
    scan::numeral_is_compact(version);
    version_of_decimal(version);
    let ms = record_members(version, blob);
    scan::only_at(ms, encode_utf8("\"version\""@), 0);
    scan::only_at(ms, encode_utf8("\"blob\""@), 1);
}

/// And so it is behind a tag.
proof fn tagged_record_holds(kind: Seq<char>, version: Version, blob: Seq<u8>)
    requires
        json::is_compact(blob),
        json::is_plain_literal(encode_utf8(kind)),
    ensures
        scan::all_writable(seq![tag(kind)] + record_members(version, blob)),
        record_in(seq![tag(kind)] + record_members(version, blob)) == Some(
            RecordView { version, blob },
        ),
        scan::only(seq![tag(kind)] + record_members(version, blob), encode_utf8("\"t\""@)) == Some(
            encode_utf8(kind),
        ),
{
    names();
    scan::numeral_is_compact(version);
    scan::plain_name_is_compact(encode_utf8(kind));
    version_of_decimal(version);
    let ms = seq![tag(kind)] + record_members(version, blob);
    scan::only_at(ms, encode_utf8("\"t\""@), 0);
    scan::only_at(ms, encode_utf8("\"version\""@), 1);
    scan::only_at(ms, encode_utf8("\"blob\""@), 2);
}

/// A tag is found again where it stands alone.
proof fn bare_tag_holds(kind: Seq<char>)
    requires
        json::is_plain_literal(encode_utf8(kind)),
    ensures
        scan::all_writable(seq![tag(kind)]),
        scan::only(seq![tag(kind)], encode_utf8("\"t\""@)) == Some(encode_utf8(kind)),
{
    names();
    scan::plain_name_is_compact(encode_utf8(kind));
    scan::only_at(seq![tag(kind)], encode_utf8("\"t\""@), 0);
}

/// A tag and a second member are found again.
proof fn tagged_member_holds(kind: Seq<char>, name: Seq<char>, value: Seq<u8>)
    requires
        json::is_plain_literal(encode_utf8(kind)),
        json::is_plain_literal(encode_utf8(name)),
        encode_utf8("\"t\""@) != encode_utf8(name),
        json::is_compact(value),
    ensures
        scan::all_writable(seq![tag(kind), member(name, value)]),
        scan::only(seq![tag(kind), member(name, value)], encode_utf8("\"t\""@)) == Some(
            encode_utf8(kind),
        ),
        scan::only(seq![tag(kind), member(name, value)], encode_utf8(name)) == Some(value),
{
    names();
    scan::plain_name_is_compact(encode_utf8(kind));
    let ms = seq![tag(kind), member(name, value)];
    scan::only_at(ms, encode_utf8("\"t\""@), 0);
    scan::only_at(ms, encode_utf8(name), 1);
}

/// A tag and a version may stand inside a message, so a message's values all
/// may where its blob may.
proof fn members_nest(kind: Seq<char>, version: Version, blob: Seq<u8>)
    requires
        json::is_plain_literal(encode_utf8(kind)),
        json::nests(blob),
    ensures
        scan::all_nest(seq![tag(kind)]),
        scan::all_nest(record_members(version, blob)),
        scan::all_nest(seq![tag(kind)] + record_members(version, blob)),
        scan::all_nest(seq![tag(kind), member("\"blob\""@, blob)]),
{
    assert(json::is_numeral(text::decimal(version as nat)));
}

/// Reads the version and the blob out of members.
fn read_record(ms: &Vec<Member>) -> (record: Option<Record>)
    ensures
        record matches Some(r) ==> record_in(scan::views(ms@)) == Some(r@),
        record is None ==> record_in(scan::views(ms@)) is None,
{
    let digits: Json = match scan::find_only(ms, "\"version\"") {
        Some(digits) => digits,
        None => return None,
    };
    let blob: Json = match scan::find_only(ms, "\"blob\"") {
        Some(blob) => blob,
        None => return None,
    };
    match text::parse_decimal(digits.text()) {
        Some(version) => {
            proof {
                version_of_decimal(version);
            }
            Some(Record { version, blob })
        },
        None => None,
    }
}

impl Message for Record {
    open spec fn as_read() -> Reading {
        Reading::Record
    }

    open spec fn to_members(record: RecordView) -> Seq<MemberView> {
        record_members(record.version, record.blob)
    }

    open spec fn from_members(ms: Seq<MemberView>) -> Option<RecordView> {
        record_in(ms)
    }

    open spec fn fits(record: RecordView) -> bool {
        json::nests(record.blob)
    }

    fn write(&self, out: &mut Vec<u8>) {
        proof {
            use_type_invariant(&self.blob);
            record_members_hold(self.version, self.blob@);
            if Self::fits(self@) {
                names();
                members_nest("\"t\""@, self.version, self.blob@);
            }
        }
        out.push(123);
        push_record(out, self.version, &self.blob);
        out.push(125);
        assert(out@ =~= old(out)@ + scan::object_text(Self::to_members(self@)));
    }

    fn reading() -> (reading: Reading) {
        Reading::Record
    }

    fn read(ms: &Vec<Member>) -> (record: Option<Record>) {
        read_record(ms)
    }
}

impl Message for Request {
    open spec fn as_read() -> Reading {
        Reading::Whole
    }

    open spec fn to_members(request: RequestView) -> Seq<MemberView> {
        match request {
            RequestView::Announce { version, blob } => seq![tag("\"announce\""@)] + record_members(
                version,
                blob,
            ),
            RequestView::Query => seq![tag("\"query\""@)],
            RequestView::SetBlob { blob } => seq![tag("\"set\""@), member("\"blob\""@, blob)],
            RequestView::Get => seq![tag("\"get\""@)],
        }
    }

    open spec fn from_members(ms: Seq<MemberView>) -> Option<RequestView> {
        match scan::only(ms, encode_utf8("\"t\""@)) {
            Some(kind) => if kind == encode_utf8("\"announce\""@) {
                match record_in(ms) {
                    Some(r) => Some(RequestView::Announce { version: r.version, blob: r.blob }),
                    None => None,
                }
            } else if kind == encode_utf8("\"query\""@) {
                Some(RequestView::Query)
            } else if kind == encode_utf8("\"set\""@) {
                match scan::only(ms, encode_utf8("\"blob\""@)) {
                    Some(blob) => Some(RequestView::SetBlob { blob }),
                    None => None,
                }
            } else if kind == encode_utf8("\"get\""@) {
                Some(RequestView::Get)
            } else {
                None
            },
            None => None,
        }
    }

    open spec fn fits(request: RequestView) -> bool {
        match request {
            RequestView::Announce { version, blob } => json::nests(blob),
            RequestView::SetBlob { blob } => json::nests(blob),
            _ => true,
        }
    }

    fn write(&self, out: &mut Vec<u8>) {
        out.push(123);
        match self {
            Request::Announce { version, blob } => {
                proof {
                    use_type_invariant(blob);
                    request_members_hold(self@);
                }
                push_member(out, "\"t\"", "\"announce\"".as_bytes());
                out.push(44);
                push_record(out, *version, blob);
            },
            Request::Query => {
                proof {
                    request_members_hold(self@);
                }
                push_member(out, "\"t\"", "\"query\"".as_bytes());
            },
            Request::SetBlob { blob } => {
                proof {
                    use_type_invariant(blob);
                    request_members_hold(self@);
                }
                push_member(out, "\"t\"", "\"set\"".as_bytes());
                out.push(44);
                push_member(out, "\"blob\"", blob.text());
            },
            Request::Get => {
                proof {
                    request_members_hold(self@);
                }
                push_member(out, "\"t\"", "\"get\"".as_bytes());
            },
        }
        out.push(125);
        proof {
            match self@ {
                RequestView::Announce { version, blob } => {
                    let v = member("\"version\""@, text::decimal(version as nat));
                    let b = member("\"blob\""@, blob);
                    few_members(tag("\"announce\""@), v, b);
                    few_members(v, b, b);
                    assert(Self::to_members(self@) =~= seq![tag("\"announce\""@), v, b]);
                },
                RequestView::Query => {
                    few_members(tag("\"query\""@), tag("\"query\""@), tag("\"query\""@));
                },
                RequestView::SetBlob { blob } => {
                    let b = member("\"blob\""@, blob);
                    few_members(tag("\"set\""@), b, b);
                },
                RequestView::Get => {
                    few_members(tag("\"get\""@), tag("\"get\""@), tag("\"get\""@));
                },
            }
        }
        assert(out@ =~= old(out)@ + scan::object_text(Self::to_members(self@)));
    }

    fn reading() -> (reading: Reading) {
        Reading::Whole
    }

    fn read(ms: &Vec<Member>) -> (request: Option<Request>) {
        let kind: Json = match scan::find_only(ms, "\"t\"") {
            Some(kind) => kind,
            None => return None,
        };
        if text::is_str(kind.text(), "\"announce\"") {
            match read_record(ms) {
                Some(r) => Some(Request::Announce { version: r.version, blob: r.blob }),
                None => None,
            }
        } else if text::is_str(kind.text(), "\"query\"") {
            Some(Request::Query)
        } else if text::is_str(kind.text(), "\"set\"") {
            match scan::find_only(ms, "\"blob\"") {
                Some(blob) => Some(Request::SetBlob { blob }),
                None => None,
            }
        } else if text::is_str(kind.text(), "\"get\"") {
            Some(Request::Get)
        } else {
            None
        }
    }
}

/// The blob of a request, where it has one, is compact text.
pub open spec fn request_is_valid(request: RequestView) -> bool {
    match request {
        RequestView::Announce { version, blob } => json::is_compact(blob),
        RequestView::SetBlob { blob } => json::is_compact(blob),
        _ => true,
    }
}

/// A request is found again among the members that it was written as.
proof fn request_members_hold(request: RequestView)
    requires
        request_is_valid(request),
    ensures
        scan::all_writable(Request::to_members(request)),
        Request::from_members(Request::to_members(request)) == Some(request),
        Request::fits(request) ==> scan::all_nest(Request::to_members(request)),
{
    names();
    request_tags();
    if Request::fits(request) {
        let plain = encode_utf8("\"t\""@);
        match request {
            RequestView::Announce { version, blob } => {
                members_nest("\"announce\""@, version, blob);
            },
            RequestView::Query => {
                members_nest("\"query\""@, 0, plain);
            },
            RequestView::SetBlob { blob } => {
                members_nest("\"set\""@, 0, blob);
            },
            RequestView::Get => {
                members_nest("\"get\""@, 0, plain);
            },
        }
    }
    match request {
        RequestView::Announce { version, blob } => {
            tagged_record_holds("\"announce\""@, version, blob);
        },
        RequestView::Query => {
            bare_tag_holds("\"query\""@);
        },
        RequestView::SetBlob { blob } => {
            tagged_member_holds("\"set\""@, "\"blob\""@, blob);
        },
        RequestView::Get => {
            bare_tag_holds("\"get\""@);
        },
    }
}

impl Message for Response {
    open spec fn as_read() -> Reading {
        Reading::Whole
    }

    open spec fn to_members(response: ResponseView) -> Seq<MemberView> {
        match response {
            ResponseView::State { version, blob } => seq![tag("\"state\""@)] + record_members(
                version,
                blob,
            ),
            ResponseView::Accepted => seq![tag("\"ok\""@)],
            ResponseView::Refused { msg } => seq![
                tag("\"err\""@),
                member("\"msg\""@, json::string_text(msg)),
            ],
        }
    }

    open spec fn from_members(ms: Seq<MemberView>) -> Option<ResponseView> {
        match scan::only(ms, encode_utf8("\"t\""@)) {
            Some(kind) => if kind == encode_utf8("\"state\""@) {
                match record_in(ms) {
                    Some(r) => Some(state_of(r)),
                    None => None,
                }
            } else if kind == encode_utf8("\"ok\""@) {
                Some(ResponseView::Accepted)
            } else if kind == encode_utf8("\"err\""@) {
                match scan::only(ms, encode_utf8("\"msg\""@)) {
                    Some(literal) => match json::string_in(literal) {
                        Some(msg) => Some(ResponseView::Refused { msg }),
                        None => None,
                    },
                    None => None,
                }
            } else {
                None
            },
            None => None,
        }
    }

    open spec fn fits(response: ResponseView) -> bool {
        match response {
            ResponseView::State { version, blob } => json::nests(blob),
            _ => true,
        }
    }

    fn write(&self, out: &mut Vec<u8>) {
        out.push(123);
        match self {
            Response::State { version, blob } => {
                proof {
                    use_type_invariant(blob);
                    let v = member("\"version\""@, text::decimal(*version as nat));
                    let b = member("\"blob\""@, blob@);
                    few_members(tag("\"state\""@), v, b);
                    few_members(v, b, b);
                    assert(Self::to_members(self@) =~= seq![tag("\"state\""@), v, b]);
                }
                push_member(out, "\"t\"", "\"state\"".as_bytes());
                out.push(44);
                push_record(out, *version, blob);
            },
            Response::Accepted => {
                proof {
                    few_members(tag("\"ok\""@), tag("\"ok\""@), tag("\"ok\""@));
                }
                push_member(out, "\"t\"", "\"ok\"".as_bytes());
            },
            Response::Refused { msg } => {
                push_member(out, "\"t\"", "\"err\"".as_bytes());
                out.push(44);
                let literal: Vec<u8> = json::write_string(msg.as_str());
                push_member(out, "\"msg\"", literal.as_slice());
                proof {
                    let m = member("\"msg\""@, literal@);
                    few_members(tag("\"err\""@), m, m);
                }
            },
        }
        out.push(125);
        proof {
            response_members_hold(self@);
        }
        assert(out@ =~= old(out)@ + scan::object_text(Self::to_members(self@)));
    }

    fn reading() -> (reading: Reading) {
        Reading::Whole
    }

    fn read(ms: &Vec<Member>) -> (response: Option<Response>) {
        let kind: Json = match scan::find_only(ms, "\"t\"") {
            Some(kind) => kind,
            None => return None,
        };
        if text::is_str(kind.text(), "\"state\"") {
            match read_record(ms) {
                Some(r) => Some(Response::from(r)),
                None => None,
            }
        } else if text::is_str(kind.text(), "\"ok\"") {
            Some(Response::Accepted)
        } else if text::is_str(kind.text(), "\"err\"") {
            match scan::find_only(ms, "\"msg\"") {
                Some(literal) => match json::read_string(literal.text()) {
                    Some(msg) => Some(Response::Refused { msg }),
                    None => None,
                },
                None => None,
            }
        } else {
            None
        }
    }
}

/// The blob of an answer, where it has one, is compact text, and so is the
/// string literal that its message is written as, which reads back as the
/// message.
pub open spec fn response_is_valid(response: ResponseView) -> bool {
    match response {
        ResponseView::State { version, blob } => json::is_compact(blob),
        ResponseView::Accepted => true,
        ResponseView::Refused { msg } => {
            let literal = json::string_text(msg);
            json::is_compact(literal) && json::nests(literal) && json::string_in(literal) == Some(
                msg,
            )
        },
    }
}

/// An answer is found again among the members that it was written as.
proof fn response_members_hold(response: ResponseView)
    requires
        response_is_valid(response),
    ensures
        scan::all_writable(Response::to_members(response)),
        Response::from_members(Response::to_members(response)) == Some(response),
        Response::fits(response) ==> scan::all_nest(Response::to_members(response)),
{
    names();
    response_tags();
    match response {
        ResponseView::State { version, blob } => {
            tagged_record_holds("\"state\""@, version, blob);
            if json::nests(blob) {
                members_nest("\"state\""@, version, blob);
            }
        },
        ResponseView::Accepted => {
            bare_tag_holds("\"ok\""@);
            members_nest("\"ok\""@, 0, encode_utf8("\"t\""@));
        },
        ResponseView::Refused { msg } => {
            tagged_member_holds("\"err\""@, "\"msg\""@, json::string_text(msg));
        },
    }
}

/// The line that a message is sent as: its object, then a line break.
pub open spec fn line_text<M: Message>(message: M::V) -> Seq<u8> {
    scan::object_text(M::to_members(message)).push(10u8)
}

/// The length of the first line of `t`, line break and all.
pub open spec fn line_len(t: Seq<u8>) -> nat
    decreases t.len(),
{
    if t.len() == 0 {
        0
    } else if t[0] == 10 {
        1
    } else {
        1 + line_len(t.skip(1))
    }
}

/// The first line of `t`, line break and all.
pub open spec fn first_line(t: Seq<u8>) -> Seq<u8> {
    t.take(line_len(t) as int)
}

/// What follows the first line of `t`.
pub open spec fn after_line(t: Seq<u8>) -> Seq<u8> {
    t.skip(line_len(t) as int)
}

/// The message that a text holds: the text is an object, nested no deeper than
/// JSON is read, and its members make up a message of this kind.
pub open spec fn decode<M: Message>(t: Seq<u8>) -> Option<M::V> {
    match scan::object(t, M::as_read()) {
        Some(ms) => M::from_members(ms),
        None => None,
    }
}

/// A line that is no message of the kind that was asked for.
#[derive(Debug, Clone, Copy, PartialEq, Eq)]
pub struct Malformed;

/// Makes the message out of the text that holds it.
pub fn decode_msg<M: Message>(t: &[u8]) -> (message: Result<M, Malformed>)
    ensures
        message matches Ok(m) ==> decode::<M>(t@) == Some(m@),
        message is Err ==> decode::<M>(t@) is None,
{
    match scan::read_object(t, M::reading()) {
        Some(ms) => match M::read(&ms) {
            Some(m) => Ok(m),
            None => Err(Malformed),
        },
        None => Err(Malformed),
    }
}

/// Write one message as a single `\n`-terminated line.
///
/// The line comes in one piece, for the caller to hand on in one write: it
/// holds no line break but the last byte, and it reads back as the message,
/// unless the blob is too deep to stand inside one.
pub fn write_msg<M: Message>(w: &mut Vec<u8>, msg: &M)
    ensures
        final(w)@ == old(w)@ + line_text::<M>(msg@),
        first_line(line_text::<M>(msg@)) == line_text::<M>(msg@),
        M::fits(msg@) ==> decode::<M>(line_text::<M>(msg@)) == Some(msg@),
{
    msg.write(w);
    w.push(10);
    proof {
        line_reads_back::<M>(msg@, Seq::empty());
        assert(line_text::<M>(msg@) + Seq::<u8>::empty() =~= line_text::<M>(msg@));
        let line = line_text::<M>(msg@);
        assert(line.take(line.len() as int) =~= line);
        assert(w@ =~= old(w)@ + line);
    }
}

/// Read one `\n`-terminated message, and leave what follows it. `Ok(None)` on a
/// clean end of input.
pub fn read_msg<M: Message>(r: &mut &[u8]) -> (message: Result<Option<M>, Malformed>)
    ensures
        (*final(r))@ == after_line((*old(r))@),
        message matches Ok(None) ==> (*old(r))@.len() == 0,
        message matches Ok(Some(m)) ==> (*old(r))@.len() > 0 && decode::<M>(first_line((*old(r))@))
            == Some(m@),
        message is Err ==> (*old(r))@.len() > 0 && decode::<M>(first_line((*old(r))@)) is None,
{
    let all: &[u8] = *r;
    let mut n: usize = 0;
    assert(all@.skip(0) =~= all@);
    while n < all.len() && all[n] != 10
        invariant
            n <= all@.len(),
            line_len(all@) == n + line_len(all@.skip(n as int)),
        decreases all@.len() - n,
    {
        assert(all@.skip(n as int)[0] == all@[n as int]);
        assert(all@.skip(n as int).skip(1) =~= all@.skip(n + 1));
        n = n + 1;
    }
    if n < all.len() {
        assert(all@.skip(n as int)[0] == 10);
        n = n + 1;
    }
    assert(line_len(all@) == n);
    let line: &[u8] = vstd::slice::slice_subrange(all, 0, n);
    assert(line@ =~= first_line(all@));
    *r = vstd::slice::slice_subrange(all, n, all.len());
    assert((*r)@ =~= after_line(all@));
    if n == 0 {
        return Ok(None);
    }
    match decode_msg::<M>(line) {
        Ok(m) => Ok(Some(m)),
        Err(e) => Err(e),
    }
}

/// The first line ends with the first line break.
proof fn line_len_of(s: Seq<u8>, rest: Seq<u8>)
    requires
        !s.contains(10u8),
    ensures
        line_len(s.push(10u8) + rest) == s.len() + 1,
    decreases s.len(),
{
    let t = s.push(10u8) + rest;
    if s.len() == 0 {
        assert(t[0] == 10u8);
    } else {
        assert(t[0] == s[0]);
        assert(s.contains(s[0]));
        let u = s.skip(1);
        assert forall|i: int| 0 <= i < u.len() implies u[i] != 10u8 by {
            assert(s.contains(s[i + 1]));
        }
        line_len_of(u, rest);
        assert(t.skip(1) =~= u.push(10u8) + rest);
    }
}

/// A message whose members are plain names and compact values, and which they
/// hold, takes up one line and no more of what is read, and reads back from it.
proof fn line_reads_back<M: Message>(message: M::V, rest: Seq<u8>)
    requires
        scan::all_writable(M::to_members(message)),
        scan::all_read(M::to_members(message), M::as_read()),
        M::from_members(M::to_members(message)) == Some(message),
    ensures
        first_line(line_text::<M>(message) + rest) == line_text::<M>(message),
        after_line(line_text::<M>(message) + rest) == rest,
        scan::all_nest(M::to_members(message)) ==> decode::<M>(line_text::<M>(message)) == Some(
            message,
        ),
{
    let ms = M::to_members(message);
    let object = scan::object_text(ms);
    let line = line_text::<M>(message);
    scan::object_on_one_line(ms);
    line_len_of(object, rest);
    assert((line + rest).take(line.len() as int) =~= line);
    assert((line + rest).skip(line.len() as int) =~= rest);
    let tail = seq![10u8];
    assert(tail.skip(1).len() == 0);
    assert(scan::skip_space(tail.skip(1)).len() == 0);
    assert(scan::skip_space(tail).len() == 0);
    if scan::all_nest(ms) {
        scan::written_object(ms, M::as_read(), tail);
    }
    assert(line =~= object + tail);
}

/// One message per line: whatever is sent after a request, the request is what
/// is read first, and what was sent after it is left to be read. (The one thing
/// that keeps it from being read is a blob too deep to stand inside a message.)
pub proof fn request_reads_back(request: RequestView, rest: Seq<u8>)
    requires
        request_is_valid(request),
    ensures
        first_line(line_text::<Request>(request) + rest) == line_text::<Request>(request),
        after_line(line_text::<Request>(request) + rest) == rest,
        Request::fits(request) ==> decode::<Request>(line_text::<Request>(request)) == Some(
            request,
        ),
{
    request_members_hold(request);
    line_reads_back::<Request>(request, rest);
}

/// A record that is written, as the state file holds it, reads back as the same
/// record.
pub proof fn record_reads_back(record: RecordView)
    requires
        json::is_compact(record.blob),
        json::nests(record.blob),
    ensures
        decode::<Record>(scan::object_text(Record::to_members(record))) == Some(record),
{
    record_members_hold(record.version, record.blob);
    response_tags();
    members_nest("\"ok\""@, record.version, record.blob);
    let ms = Record::to_members(record);
    assert(scan::skip_space(Seq::<u8>::empty()).len() == 0);
    scan::written_object(ms, Record::as_read(), Seq::empty());
    assert(scan::object_text(ms) + Seq::<u8>::empty() =~= scan::object_text(ms));
}

/// An answer reads back as the answer that was sent, whatever is sent after it.
/// (Again a blob too deep to stand inside a message is the one thing that keeps
/// it from being read.)
pub proof fn response_reads_back(response: ResponseView, rest: Seq<u8>)
    requires
        response_is_valid(response),
    ensures
        first_line(line_text::<Response>(response) + rest) == line_text::<Response>(response),
        after_line(line_text::<Response>(response) + rest) == rest,
        Response::fits(response) ==> decode::<Response>(line_text::<Response>(response)) == Some(
            response,
        ),
{
    response_members_hold(response);
    line_reads_back::<Response>(response, rest);
}

/// Some requests and answers are a tag and nothing else, and so are written out
/// the same every time.
pub proof fn bare_messages_are_spelled_out()
    ensures
        line_text::<Request>(RequestView::Query) == encode_utf8("{\"t\":\"query\"}\n"@),
        line_text::<Request>(RequestView::Get) == encode_utf8("{\"t\":\"get\"}\n"@),
        line_text::<Response>(ResponseView::Accepted) == encode_utf8("{\"t\":\"ok\"}\n"@),
{
    few_members(tag("\"query\""@), tag("\"query\""@), tag("\"query\""@));
    few_members(tag("\"get\""@), tag("\"get\""@), tag("\"get\""@));
    few_members(tag("\"ok\""@), tag("\"ok\""@), tag("\"ok\""@));
    reveal_strlit("\"t\"");
    is_ascii_chars_encode_utf8("\"t\""@);
    reveal_strlit("\"query\"");
    is_ascii_chars_encode_utf8("\"query\""@);
    reveal_strlit("\"get\"");
    is_ascii_chars_encode_utf8("\"get\""@);
    reveal_strlit("\"ok\"");
    is_ascii_chars_encode_utf8("\"ok\""@);
    reveal_strlit("{\"t\":\"query\"}\n");
    is_ascii_chars_encode_utf8("{\"t\":\"query\"}\n"@);
    reveal_strlit("{\"t\":\"get\"}\n");
    is_ascii_chars_encode_utf8("{\"t\":\"get\"}\n"@);
    reveal_strlit("{\"t\":\"ok\"}\n");
    is_ascii_chars_encode_utf8("{\"t\":\"ok\"}\n"@);
    assert(line_text::<Request>(RequestView::Query) =~= encode_utf8("{\"t\":\"query\"}\n"@));
    assert(line_text::<Request>(RequestView::Get) =~= encode_utf8("{\"t\":\"get\"}\n"@));
    assert(line_text::<Response>(ResponseView::Accepted) =~= encode_utf8("{\"t\":\"ok\"}\n"@));
}

/// A set is written out around its blob, which goes as it stands.
pub proof fn sets_are_spelled_out(blob: Seq<u8>)
    ensures
        line_text::<Request>(RequestView::SetBlob { blob }) == encode_utf8("{\"t\":\"set\",\"blob\":"@) + blob + encode_utf8("}\n"@),
{
    let b = member("\"blob\""@, blob);
    few_members(tag("\"set\""@), b, b);
    reveal_strlit("\"t\"");
    is_ascii_chars_encode_utf8("\"t\""@);
    reveal_strlit("\"set\"");
    is_ascii_chars_encode_utf8("\"set\""@);
    reveal_strlit("\"blob\"");
    is_ascii_chars_encode_utf8("\"blob\""@);
    reveal_strlit("{\"t\":\"set\",\"blob\":");
    is_ascii_chars_encode_utf8("{\"t\":\"set\",\"blob\":"@);
    reveal_strlit("}\n");
    is_ascii_chars_encode_utf8("}\n"@);
    assert(line_text::<Request>(RequestView::SetBlob { blob }) =~= encode_utf8("{\"t\":\"set\",\"blob\":"@) + blob + encode_utf8("}\n"@));
}

/// An announcement is written out around its version, in decimal, and its blob,
/// which goes as it stands.
pub proof fn announcements_are_spelled_out(version: Version, blob: Seq<u8>)
    ensures
        line_text::<Request>(RequestView::Announce { version, blob }) == encode_utf8("{\"t\":\"announce\",\"version\":"@) + text::decimal(version as nat) + encode_utf8(",\"blob\":"@) + blob + encode_utf8("}\n"@),
{
    let v = member("\"version\""@, text::decimal(version as nat));
    let b = member("\"blob\""@, blob);
    few_members(tag("\"announce\""@), v, b);
    assert(Request::to_members(RequestView::Announce { version, blob }) =~= seq![tag("\"announce\""@), v, b]);
    reveal_strlit("\"t\"");
    is_ascii_chars_encode_utf8("\"t\""@);
    reveal_strlit("\"announce\"");
    is_ascii_chars_encode_utf8("\"announce\""@);
    reveal_strlit("\"version\"");
    is_ascii_chars_encode_utf8("\"version\""@);
    reveal_strlit("\"blob\"");
    is_ascii_chars_encode_utf8("\"blob\""@);
    reveal_strlit("{\"t\":\"announce\",\"version\":");
    is_ascii_chars_encode_utf8("{\"t\":\"announce\",\"version\":"@);
    reveal_strlit(",\"blob\":");
    is_ascii_chars_encode_utf8(",\"blob\":"@);
    reveal_strlit("}\n");
    is_ascii_chars_encode_utf8("}\n"@);
    assert(line_text::<Request>(RequestView::Announce { version, blob }) =~= encode_utf8("{\"t\":\"announce\",\"version\":"@) + text::decimal(version as nat) + encode_utf8(",\"blob\":"@) + blob + encode_utf8("}\n"@));
}

/// So is the answer that carries a record.
pub proof fn states_are_spelled_out(version: Version, blob: Seq<u8>)
    ensures
        line_text::<Response>(ResponseView::State { version, blob }) == encode_utf8("{\"t\":\"state\",\"version\":"@) + text::decimal(version as nat) + encode_utf8(",\"blob\":"@) + blob + encode_utf8("}\n"@),
{
    let v = member("\"version\""@, text::decimal(version as nat));
    let b = member("\"blob\""@, blob);
    few_members(tag("\"state\""@), v, b);
    assert(Response::to_members(ResponseView::State { version, blob }) =~= seq![tag("\"state\""@), v, b]);
    reveal_strlit("\"t\"");
    is_ascii_chars_encode_utf8("\"t\""@);
    reveal_strlit("\"state\"");
    is_ascii_chars_encode_utf8("\"state\""@);
    reveal_strlit("\"version\"");
    is_ascii_chars_encode_utf8("\"version\""@);
    reveal_strlit("\"blob\"");
    is_ascii_chars_encode_utf8("\"blob\""@);
    reveal_strlit("{\"t\":\"state\",\"version\":");
    is_ascii_chars_encode_utf8("{\"t\":\"state\",\"version\":"@);
    reveal_strlit(",\"blob\":");
    is_ascii_chars_encode_utf8(",\"blob\":"@);
    reveal_strlit("}\n");
    is_ascii_chars_encode_utf8("}\n"@);
    assert(line_text::<Response>(ResponseView::State { version, blob }) =~= encode_utf8("{\"t\":\"state\",\"version\":"@) + text::decimal(version as nat) + encode_utf8(",\"blob\":"@) + blob + encode_utf8("}\n"@));
}

/// And so is a record, as the state file holds it.
pub proof fn records_are_spelled_out(version: Version, blob: Seq<u8>)
    ensures
        scan::object_text(Record::to_members(RecordView { version, blob })) == encode_utf8("{\"version\":"@) + text::decimal(version as nat) + encode_utf8(",\"blob\":"@) + blob + encode_utf8("}"@),
{
    let v = member("\"version\""@, text::decimal(version as nat));
    let b = member("\"blob\""@, blob);
    few_members(v, b, b);
    reveal_strlit("\"version\"");
    is_ascii_chars_encode_utf8("\"version\""@);
    reveal_strlit("\"blob\"");
    is_ascii_chars_encode_utf8("\"blob\""@);
    reveal_strlit("{\"version\":");
    is_ascii_chars_encode_utf8("{\"version\":"@);
    reveal_strlit(",\"blob\":");
    is_ascii_chars_encode_utf8(",\"blob\":"@);
    reveal_strlit("}");
    is_ascii_chars_encode_utf8("}"@);
    assert(scan::object_text(Record::to_members(RecordView { version, blob })) =~= encode_utf8("{\"version\":"@) + text::decimal(version as nat) + encode_utf8(",\"blob\":"@) + blob + encode_utf8("}"@));
}

/// A line ends with the first line break, or with the text where there is none:
/// the first line and what follows it make up the text.
pub proof fn lines_end_at_line_breaks(t: Seq<u8>)
    ensures
        first_line(t) + after_line(t) == t,
        forall|i: int| 0 <= i < first_line(t).len() - 1 ==> #[trigger] first_line(t)[i] != 10,
        t.len() > 0 ==> first_line(t).len() > 0,
        after_line(t).len() > 0 ==> first_line(t).last() == 10,
    decreases t.len(),
{
    line_len_fits(t);
    if t.len() > 0 && t[0] != 10 {
        let u = t.skip(1);
        lines_end_at_line_breaks(u);
        line_len_fits(u);
        assert(first_line(t) =~= seq![t[0]] + first_line(u));
        assert(after_line(t) =~= after_line(u));
        assert forall|i: int| 0 <= i < first_line(t).len() - 1 implies #[trigger] first_line(t)[i]
            != 10 by {
            if i > 0 {
                assert(first_line(t)[i] == first_line(u)[i - 1]);
            }
        }
        if after_line(t).len() > 0 {
            assert(first_line(t).last() == first_line(u).last());
        }
    }
    assert(first_line(t) + after_line(t) =~= t);
}

proof fn line_len_fits(t: Seq<u8>)
    ensures
        line_len(t) <= t.len(),
    decreases t.len(),
{
    if t.len() > 0 && t[0] != 10 {
        line_len_fits(t.skip(1));
    }
}

/// A request is told by its tag, and takes its version and its blob from the
/// members of those names; what other members there are makes no difference.
pub proof fn requests_are_told_by_their_tag(
    ms: Seq<MemberView>,
    kind: Seq<u8>,
    version: Version,
    blob: Seq<u8>,
)
    requires
        scan::only(ms, encode_utf8("\"t\""@)) == Some(kind),
    ensures
        kind == encode_utf8("\"query\""@) ==> Request::from_members(ms) == Some(RequestView::Query),
        kind == encode_utf8("\"get\""@) ==> Request::from_members(ms) == Some(RequestView::Get),
        scan::only(ms, encode_utf8("\"blob\""@)) == Some(blob) ==> {
            &&& kind == encode_utf8("\"set\""@) ==> Request::from_members(ms) == Some(
                RequestView::SetBlob { blob },
            )
            &&& kind == encode_utf8("\"announce\""@) && scan::only(
                ms,
                encode_utf8("\"version\""@),
            ) == Some(text::decimal(version as nat)) ==> Request::from_members(ms) == Some(
                RequestView::Announce { version, blob },
            )
        },
        Request::from_members(ms) matches Some(RequestView::Announce { .. }) ==> kind
            == encode_utf8("\"announce\""@),
        Request::from_members(ms) matches Some(RequestView::SetBlob { .. }) ==> kind
            == encode_utf8("\"set\""@),
        Request::from_members(ms) matches Some(RequestView::Query) ==> kind == encode_utf8(
            "\"query\""@,
        ),
        Request::from_members(ms) matches Some(RequestView::Get) ==> kind == encode_utf8(
            "\"get\""@,
        ),
        scan::only(ms, encode_utf8("\"blob\""@)) is None ==> !(Request::from_members(ms) matches Some(
            RequestView::SetBlob { .. },
        )) && !(Request::from_members(ms) matches Some(RequestView::Announce { .. })),
{
    request_tags();
    version_of_decimal(version);
}

/// So are the answers; and a record has no tag.
pub proof fn answers_are_told_by_their_tag(
    ms: Seq<MemberView>,
    kind: Seq<u8>,
    version: Version,
    blob: Seq<u8>,
    literal: Seq<u8>,
    msg: Seq<char>,
)
    requires
        scan::only(ms, encode_utf8("\"t\""@)) == Some(kind),
    ensures
        kind == encode_utf8("\"ok\""@) ==> Response::from_members(ms) == Some(
            ResponseView::Accepted,
        ),
        kind == encode_utf8("\"state\""@) && scan::only(ms, encode_utf8("\"blob\""@)) == Some(blob)
            && scan::only(ms, encode_utf8("\"version\""@)) == Some(text::decimal(version as nat))
            ==> Response::from_members(ms) == Some(ResponseView::State { version, blob }),
        kind == encode_utf8("\"err\""@) && scan::only(ms, encode_utf8("\"msg\""@)) == Some(literal)
            && json::string_in(literal) == Some(msg) ==> Response::from_members(ms) == Some(
            ResponseView::Refused { msg },
        ),
        Response::from_members(ms) matches Some(ResponseView::Accepted) ==> kind == encode_utf8(
            "\"ok\""@,
        ),
        Response::from_members(ms) matches Some(ResponseView::State { .. }) ==> kind
            == encode_utf8("\"state\""@),
        Response::from_members(ms) matches Some(ResponseView::Refused { .. }) ==> kind
            == encode_utf8("\"err\""@),
{
    response_tags();
    version_of_decimal(version);
}

/// A record is one version, a `u64` in decimal, and one blob; without either
/// there is none. A message without its one tag is none.
pub proof fn records_are_a_version_and_a_blob(
    ms: Seq<MemberView>,
    version: Version,
    blob: Seq<u8>,
)
    ensures
        scan::only(ms, encode_utf8("\"blob\""@)) == Some(blob) && scan::only(
            ms,
            encode_utf8("\"version\""@),
        ) == Some(text::decimal(version as nat)) ==> Record::from_members(ms) == Some(
            RecordView { version, blob },
        ),
        Record::from_members(ms) matches Some(record) ==> {
            &&& scan::only(ms, encode_utf8("\"blob\""@)) == Some(record.blob)
            &&& scan::only(ms, encode_utf8("\"version\""@)) == Some(
                text::decimal(record.version as nat),
            )
        },
        scan::only(ms, encode_utf8("\"t\""@)) is None ==> Request::from_members(ms) is None
            && Response::from_members(ms) is None,
        Request::from_members(ms) matches Some(RequestView::Announce { version, blob })
            ==> Record::from_members(ms) == Some(RecordView { version, blob }),
        Response::from_members(ms) matches Some(ResponseView::State { version, blob })
            ==> Record::from_members(ms) == Some(RecordView { version, blob }),
{
    version_of_decimal(version);
    match scan::only(ms, encode_utf8("\"version\""@)) {
        Some(digits) => {
            if exists|v: u64| digits == #[trigger] text::decimal(v as nat) {
                let v = choose|v: u64| digits == #[trigger] text::decimal(v as nat);
                version_of_decimal(v);
            }
        },
        None => {},
    }
}

/// A text holds the message that the members of its object make up: requests and
/// answers are read whole, and of a record no more than its own members.
pub proof fn texts_hold_what_their_members_make_up(t: Seq<u8>)
    ensures
        scan::object(t, Reading::Whole) matches Some(ms) ==> {
            &&& decode::<Request>(t) == Request::from_members(ms)
            &&& decode::<Response>(t) == Response::from_members(ms)
        },
        scan::object(t, Reading::Whole) is None ==> decode::<Request>(t) is None && decode::<
            Response,
        >(t) is None,
        scan::object(t, Reading::Record) matches Some(ms) ==> decode::<Record>(t)
            == Record::from_members(ms),
        scan::object(t, Reading::Record) is None ==> decode::<Record>(t) is None,
{
}

/// Nothing is left out of what a contract sees of a message.
pub proof fn messages_are_seen_whole(record: Record, request: Request, response: Response)
    ensures
        record@ == (RecordView { version: record.version, blob: record.blob@ }),
        state_of(record@) == (ResponseView::State { version: record.version, blob: record.blob@ }),
        match request {
            Request::Announce { version, blob } => request@ == (RequestView::Announce {
                version,
                blob: blob@,
            }),
            Request::Query => request@ is Query,
            Request::SetBlob { blob } => request@ == (RequestView::SetBlob { blob: blob@ }),
            Request::Get => request@ is Get,
        },
        match response {
            Response::State { version, blob } => response@ == (ResponseView::State {
                version,
                blob: blob@,
            }),
            Response::Accepted => response@ is Accepted,
            Response::Refused { msg } => response@ == (ResponseView::Refused { msg: msg@ }),
        },
{
}

/// A refusal in plain characters is written out as it stands, and is valid.
pub proof fn plain_refusals_are_written_out(msg: Seq<char>)
    requires
        json::all_plain(encode_utf8(msg)),
    ensures
        line_text::<Response>(ResponseView::Refused { msg }) == encode_utf8(
            "{\"t\":\"err\",\"msg\":\""@,
        ) + encode_utf8(msg) + encode_utf8("\"}\n"@),
        response_is_valid(ResponseView::Refused { msg }),
{
    json::plain_string_reads(msg);
    scan::plain_name_is_compact(json::string_text(msg));
    let m = member("\"msg\""@, json::string_text(msg));
    few_members(tag("\"err\""@), m, m);
    reveal_strlit("\"t\"");
    reveal_strlit("\"err\"");
    reveal_strlit("\"msg\"");
    reveal_strlit("{\"t\":\"err\",\"msg\":\"");
    reveal_strlit("\"}\n");
    is_ascii_chars_encode_utf8("\"t\""@);
    is_ascii_chars_encode_utf8("\"err\""@);
    is_ascii_chars_encode_utf8("\"msg\""@);
    is_ascii_chars_encode_utf8("{\"t\":\"err\",\"msg\":\""@);
    is_ascii_chars_encode_utf8("\"}\n"@);
    assert(line_text::<Response>(ResponseView::Refused { msg }) =~= encode_utf8(
        "{\"t\":\"err\",\"msg\":\""@,
    ) + encode_utf8(msg) + encode_utf8("\"}\n"@));
}

/// The one member of a name is among the members.
proof fn only_nests(ms: Seq<MemberView>, name: Seq<u8>)
    requires
        scan::all_nest(ms),
    ensures
        scan::only(ms, name) matches Some(value) ==> json::nests(value),
{
}

/// What came in a message may go out in one again: its blob is not too deep.
pub proof fn received_blobs_nest(t: Seq<u8>)
    ensures
        decode::<Request>(t) matches Some(request) ==> Request::fits(request),
        decode::<Response>(t) matches Some(ResponseView::State { version, blob }) ==> json::nests(
            blob,
        ),
        decode::<Record>(t) matches Some(record) ==> json::nests(record.blob),
{
    scan::values_nest(t, Reading::Whole);
    scan::values_nest(t, Reading::Record);
    match scan::object(t, Reading::Whole) {
        Some(ms) => {
            only_nests(ms, encode_utf8("\"blob\""@));
        },
        None => {},
    }
    match scan::object(t, Reading::Record) {
        Some(ms) => {
            only_nests(ms, encode_utf8("\"blob\""@));
        },
        None => {},
    }
}

} // verus!
