//! The members of a JSON object, in the order in which they are written.
//!
//! A message is one object whose members are named; a name that comes twice is
//! a mistake of the sender's, so the members are kept as written rather than
//! gathered into a map.

use vstd::prelude::*;
use vstd::utf8::*;

use crate::json;
use crate::json::Json;
use crate::text;

verus! {

/// `t` from its first byte that is not white space.
pub open spec fn skip_space(t: Seq<u8>) -> Seq<u8>
    decreases t.len(),
{
    if t.len() > 0 && json::is_space(t[0]) {
        skip_space(t.skip(1))
    } else {
        t
    }
}

/// What follows the byte `b`, which comes next but for white space.
pub open spec fn after(t: Seq<u8>, b: u8) -> Option<Seq<u8>> {
    let u = skip_space(t);
    if u.len() > 0 && u[0] == b {
        Some(u.skip(1))
    } else {
        None
    }
}

/// The JSON value that comes next but for white space, and what follows it.
pub open spec fn next_value(t: Seq<u8>) -> Option<(Seq<u8>, Seq<u8>)> {
    let u = skip_space(t);
    match json::value_at(u) {
        Some((v, n)) => if 0 < n <= u.len() {
            Some((v, u.skip(n as int)))
        } else {
            None
        },
        None => None,
    }
}

/// The JSON value that comes next, as a member of an object has it: it must not
/// nest too deep to stand there, neither as it is written nor as its compact
/// text, which is what is passed on. (The two may differ: of members of the
/// same name inside the value, only the last is kept.)
pub open spec fn nested_value(t: Seq<u8>) -> Option<(Seq<u8>, Seq<u8>)> {
    let u = skip_space(t);
    match json::value_at(u) {
        Some((v, n)) => if 0 < n <= u.len() && json::nests(u.take(n as int)) && json::nests(v) {
            Some((v, u.skip(n as int)))
        } else {
            None
        },
        None => None,
    }
}

/// What follows the JSON value that comes next but for white space, where the
/// value is passed over unread.
pub open spec fn after_value(t: Seq<u8>) -> Option<Seq<u8>> {
    let u = skip_space(t);
    match json::json_skip(u) {
        Some(n) => if 0 < n <= u.len() {
            Some(u.skip(n as int))
        } else {
            None
        },
        None => None,
    }
}

/// How an object is read: every value of it, or only the values under the names
/// that a record has. The others are then passed over, so that nothing about
/// them matters but that they are JSON.
#[derive(Debug, Clone, Copy)]
pub enum Reading {
    Whole,
    Record,
}

/// Whether the value under a name is to be read.
pub open spec fn is_read(reading: Reading, name: Seq<u8>) -> bool {
    ||| reading is Whole
    ||| name == encode_utf8("\"version\""@)
    ||| name == encode_utf8("\"blob\""@)
}

/// A member of an object: its name and its value, in compact text. The value of
/// a member that was passed over is empty, as no compact text is.
pub struct MemberView {
    pub name: Seq<u8>,
    pub value: Seq<u8>,
}

/// The value of a member, and what follows it.
pub open spec fn member_value(
    t: Seq<u8>,
    reading: Reading,
    name: Seq<u8>,
) -> Option<(Seq<u8>, Seq<u8>)> {
    if is_read(reading, name) {
        nested_value(t)
    } else {
        match after_value(t) {
            Some(t1) => Some((Seq::empty(), t1)),
            None => None,
        }
    }
}

/// The member that comes next, `"name": value`, and what follows it.
pub open spec fn next_member(t: Seq<u8>, reading: Reading) -> Option<(MemberView, Seq<u8>)> {
    match next_value(t) {
        Some((name, t1)) => if name.len() > 0 && name[0] == 34 {
            match after(t1, 58) {
                Some(t2) => match member_value(t2, reading, name) {
                    Some((value, t3)) => Some((MemberView { name, value }, t3)),
                    None => None,
                },
                None => None,
            }
        } else {
            None
        },
        None => None,
    }
}

/// The members from here to the closing brace, with commas between them, where
/// nothing but white space follows the brace.
pub open spec fn members(t: Seq<u8>, reading: Reading) -> Option<Seq<MemberView>>
    decreases t.len(),
{
    proof {
        next_member_shrinks(t, reading);
    }
    match next_member(t, reading) {
        Some((m, t1)) => match after(t1, 44) {
            Some(t2) => {
                proof {
                    skip_space_shrinks(t1);
                }
                match members(t2, reading) {
                    Some(ms) => Some(seq![m] + ms),
                    None => None,
                }
            },
            None => if ends(t1) {
                Some(seq![m])
            } else {
                None
            },
        },
        None => None,
    }
}

/// The closing brace comes next, and then nothing but white space.
pub open spec fn ends(t: Seq<u8>) -> bool {
    match after(t, 125) {
        Some(t1) => skip_space(t1).len() == 0,
        None => false,
    }
}

/// The members of the object that `t` is.
pub open spec fn object(t: Seq<u8>, reading: Reading) -> Option<Seq<MemberView>> {
    match after(t, 123) {
        Some(t1) => if ends(t1) {
            Some(Seq::empty())
        } else {
            members(t1, reading)
        },
        None => None,
    }
}

pub proof fn skip_space_shrinks(t: Seq<u8>)
    ensures
        skip_space(t).len() <= t.len(),
        skip_space(t) == t.skip(t.len() - skip_space(t).len()),
        skip_space(t).len() > 0 ==> !json::is_space(skip_space(t)[0]),
    decreases t.len(),
{
    if t.len() > 0 && json::is_space(t[0]) {
        skip_space_shrinks(t.skip(1));
        let n = skip_space(t).len();
        assert(t.skip(1).skip(t.skip(1).len() - n) =~= t.skip(t.len() - n));
    } else {
        assert(t.skip(0) =~= t);
    }
}

pub proof fn next_member_shrinks(t: Seq<u8>, reading: Reading)
    ensures
        next_member(t, reading) matches Some((m, rest)) ==> rest.len() < t.len(),
{
    skip_space_shrinks(t);
    match next_value(t) {
        Some((name, t1)) => {
            skip_space_shrinks(t1);
            match after(t1, 58) {
                Some(t2) => {
                    skip_space_shrinks(t2);
                },
                None => {},
            }
        },
        None => {},
    }
}

/// A member as it is written: `"name":value`.
pub open spec fn member_text(m: MemberView) -> Seq<u8> {
    m.name + seq![58u8] + m.value
}

/// Members as they are written, with commas between them.
pub open spec fn body_text(ms: Seq<MemberView>) -> Seq<u8>
    decreases ms.len(),
{
    if ms.len() == 0 {
        Seq::empty()
    } else if ms.len() == 1 {
        member_text(ms[0])
    } else {
        member_text(ms[0]) + seq![44u8] + body_text(ms.drop_first())
    }
}

/// An object as it is written: its members between braces, and no spaces.
pub open spec fn object_text(ms: Seq<MemberView>) -> Seq<u8> {
    seq![123u8] + body_text(ms) + seq![125u8]
}

/// A member with a name of plain characters and a value in compact text.
pub open spec fn is_writable(m: MemberView) -> bool {
    &&& json::is_plain_literal(m.name)
    &&& json::is_compact(m.value)
}

pub open spec fn all_writable(ms: Seq<MemberView>) -> bool {
    forall|i: int| 0 <= i < ms.len() ==> is_writable(#[trigger] ms[i])
}

/// Every value is read.
pub open spec fn all_read(ms: Seq<MemberView>, reading: Reading) -> bool {
    forall|i: int| 0 <= i < ms.len() ==> is_read(reading, (#[trigger] ms[i]).name)
}

/// Every value that was read may stand where it stands, inside an object.
pub open spec fn all_nest(ms: Seq<MemberView>) -> bool {
    forall|i: int|
        0 <= i < ms.len() && (#[trigger] ms[i]).value.len() > 0 ==> json::nests(ms[i].value)
}

/// The values of an object's members all do.
pub proof fn values_nest(t: Seq<u8>, reading: Reading)
    ensures
        object(t, reading) matches Some(ms) ==> all_nest(ms),
{
    match after(t, 123) {
        Some(t1) => {
            if !ends(t1) {
                member_values_nest(t1, reading);
            }
        },
        None => {},
    }
}

proof fn member_values_nest(t: Seq<u8>, reading: Reading)
    ensures
        members(t, reading) matches Some(ms) ==> all_nest(ms),
    decreases t.len(),
{
    next_member_shrinks(t, reading);
    match next_member(t, reading) {
        Some((m, t1)) => match after(t1, 44) {
            Some(t2) => {
                skip_space_shrinks(t1);
                member_values_nest(t2, reading);
                match members(t2, reading) {
                    Some(more) => {
                        let ms = seq![m] + more;
                        assert forall|i: int|
                            0 <= i < ms.len() && (#[trigger] ms[i]).value.len()
                                > 0 implies json::nests(ms[i].value) by {
                            if i > 0 {
                                assert(ms[i] == more[i - 1]);
                            }
                        }
                    },
                    None => {},
                }
            },
            None => {},
        },
        None => {},
    }
}

/// The plain bytes of `s` are all there are at the front of `s + rest`, where
/// `rest` does not go on with another.
proof fn plain_len_of(s: Seq<u8>, rest: Seq<u8>)
    requires
        json::all_plain(s),
        rest.len() > 0,
        !json::is_plain(rest[0]),
    ensures
        json::plain_len(s + rest) == s.len(),
    decreases s.len(),
{
    if s.len() == 0 {
        assert(s + rest =~= rest);
    } else {
        assert((s + rest)[0] == s[0]);
        assert((s + rest).skip(1) =~= s.skip(1) + rest);
        assert(json::all_plain(s.skip(1)));
        plain_len_of(s.skip(1), rest);
    }
}

/// A string of plain characters is read as it stands, whatever follows.
proof fn plain_name_reads(name: Seq<u8>, rest: Seq<u8>)
    requires
        json::is_plain_literal(name),
    ensures
        json::value_at(name + rest) == Some((name, name.len())),
        name.len() > 0,
        name[0] == 34,
        !name.contains(10u8),
{
    let k = choose|k: Seq<u8>| json::all_plain(k) && name == #[trigger] json::quoted(k);
    let t = name + rest;
    assert(t.skip(1) =~= k + (seq![34u8] + rest));
    plain_len_of(k, seq![34u8] + rest);
    assert(t[k.len() as int + 1] == 34);
    assert(t.take(k.len() as int + 2) =~= name);
    assert forall|i: int| 0 <= i < name.len() implies name[i] != 10u8 by {
        if 0 < i < name.len() - 1 {
            assert(name[i] == k[i - 1]);
            assert(json::is_plain(k[i - 1]));
        }
    }
}

/// So a string of plain characters is compact.
pub proof fn plain_name_is_compact(name: Seq<u8>)
    requires
        json::is_plain_literal(name),
    ensures
        json::is_compact(name),
{
    plain_name_reads(name, Seq::empty());
    assert forall|rest: Seq<u8>| json::closes(rest) implies #[trigger] json::value_at(name + rest)
        == Some((name, name.len())) by {
        plain_name_reads(name, rest);
    }
}

proof fn digit_len_of(s: Seq<u8>, rest: Seq<u8>)
    requires
        forall|i: int| 0 <= i < s.len() ==> text::is_digit(#[trigger] s[i]),
        rest.len() > 0,
        !text::is_digit(rest[0]),
    ensures
        json::digit_len(s + rest) == s.len(),
    decreases s.len(),
{
    if s.len() == 0 {
        assert(s + rest =~= rest);
    } else {
        assert((s + rest)[0] == s[0]);
        assert((s + rest).skip(1) =~= s.skip(1) + rest);
        digit_len_of(s.skip(1), rest);
    }
}

/// The numeral of a `u64` is compact.
pub proof fn numeral_is_compact(n: u64)
    ensures
        json::is_compact(text::decimal(n as nat)),
{
    let t = text::decimal(n as nat);
    text::decimal_shape(n as nat);
    assert(text::is_digit(t[0]));
    if t.contains(10u8) {
        let i = choose|i: int| 0 <= i < t.len() && t[i] == 10u8;
        assert(text::is_digit(t[i]));
    }
    assert forall|rest: Seq<u8>| json::closes(rest) implies #[trigger] json::value_at(t + rest)
        == Some((t, t.len())) by {
        digit_len_of(t, rest);
        assert((t + rest).skip(t.len() as int) =~= rest);
        assert((t + rest).take(t.len() as int) =~= t);
        assert((t + rest)[0] == t[0]);
    }
}

/// A member that was written is read again, up to the comma or brace after it.
proof fn written_member(m: MemberView, reading: Reading, end: Seq<u8>)
    requires
        is_writable(m),
        is_read(reading, m.name),
        json::nests(m.value),
        json::closes(end),
    ensures
        next_member(member_text(m) + end, reading) == Some((m, end)),
        member_text(m).len() > 0,
        member_text(m)[0] == 34,
{
    let t = member_text(m) + end;
    let t2 = m.value + end;
    let t1 = seq![58u8] + t2;
    assert(t =~= m.name + t1);
    plain_name_reads(m.name, t1);
    assert(t[0] == m.name[0]);
    assert(skip_space(t) == t);
    assert(t.skip(m.name.len() as int) =~= t1);
    assert(next_value(t) == Some((m.name, t1)));
    assert(t1[0] == 58u8);
    assert(skip_space(t1) == t1);
    assert(t1.skip(1) =~= t2);
    assert(after(t1, 58) == Some(t2));
    assert(t2[0] == m.value[0]);
    assert(skip_space(t2) == t2);
    assert(json::value_at(t2) == Some((m.value, m.value.len())));
    assert(t2.skip(m.value.len() as int) =~= end);
    assert(t2.take(m.value.len() as int) =~= m.value);
    assert(nested_value(t2) == Some((m.value, end)));
}

/// Members that were written are read again.
proof fn written_members(ms: Seq<MemberView>, reading: Reading, tail: Seq<u8>)
    requires
        ms.len() > 0,
        all_writable(ms),
        all_read(ms, reading),
        all_nest(ms),
        skip_space(tail).len() == 0,
    ensures
        members(body_text(ms) + (seq![125u8] + tail), reading) == Some(ms),
        body_text(ms).len() > 0,
        body_text(ms)[0] == 34,
    decreases ms.len(),
{
    let m = ms[0];
    assert(is_writable(m) && m.value.len() > 0);
    let close = seq![125u8] + tail;
    let t = body_text(ms) + close;
    if ms.len() == 1 {
        assert(json::closes(close));
        written_member(m, reading, close);
        assert(close[0] == 125u8);
        assert(skip_space(close) == close);
        assert(after(close, 44) is None);
        assert(close.skip(1) =~= tail);
        assert(ends(close));
        assert(ms =~= seq![m]);
    } else {
        let more = ms.drop_first();
        let rest = body_text(more) + close;
        let end = seq![44u8] + rest;
        assert(forall|i: int| 0 <= i < more.len() ==> #[trigger] more[i] == ms[i + 1]);
        written_members(more, reading, tail);
        assert(json::closes(end));
        written_member(m, reading, end);
        assert(t =~= member_text(m) + end);
        assert(end[0] == 44u8);
        assert(skip_space(end) == end);
        assert(end.skip(1) =~= rest);
        assert(after(end, 44) == Some(rest));
        assert(ms =~= seq![m] + more);
    }
}

/// An object that was written is read again with the same members in the same
/// order, and white space after it makes no difference.
pub proof fn written_object(ms: Seq<MemberView>, reading: Reading, tail: Seq<u8>)
    requires
        all_writable(ms),
        all_read(ms, reading),
        all_nest(ms),
        skip_space(tail).len() == 0,
    ensures
        object(object_text(ms) + tail, reading) == Some(ms),
{
    let t = object_text(ms) + tail;
    let t1 = body_text(ms) + (seq![125u8] + tail);
    assert(t =~= seq![123u8] + t1);
    assert(t[0] == 123u8);
    assert(skip_space(t) == t);
    assert(t.skip(1) =~= t1);
    if ms.len() == 0 {
        assert(t1 =~= seq![125u8] + tail);
        assert(t1[0] == 125u8);
        assert(skip_space(t1) == t1);
        assert(t1.skip(1) =~= tail);
        assert(ms =~= Seq::empty());
    } else {
        written_members(ms, reading, tail);
        assert(t1[0] == body_text(ms)[0]);
        assert(skip_space(t1) == t1);
    }
}

/// Nothing but JSON's white space.
pub open spec fn all_space(t: Seq<u8>) -> bool {
    forall|i: int|
        0 <= i < t.len() ==> #[trigger] t[i] == 32 || t[i] == 9 || t[i] == 10 || t[i] == 13
}

/// White space is skipped, all of it, and nothing else is.
pub proof fn space_is_skipped(space: Seq<u8>, t: Seq<u8>)
    requires
        all_space(space),
        t.len() > 0 ==> t[0] != 32 && t[0] != 9 && t[0] != 10 && t[0] != 13,
    ensures
        skip_space(space + t) == t,
    decreases space.len(),
{
    if space.len() == 0 {
        assert(space + t =~= t);
    } else {
        assert((space + t)[0] == space[0]);
        assert((space + t).skip(1) =~= space.skip(1) + t);
        space_is_skipped(space.skip(1), t);
    }
}

/// A member as somebody may spell it, with white space around its name and its
/// value, and either written in whatever way reads as it.
pub struct Spelling {
    pub lead: Seq<u8>,
    pub name: Seq<u8>,
    pub mid: Seq<u8>,
    pub gap: Seq<u8>,
    pub value: Seq<u8>,
    pub trail: Seq<u8>,
    pub reads: MemberView,
}

/// What may follow a value: a comma, the closing brace, or white space.
pub open spec fn ends_value(rest: Seq<u8>) -> bool {
    rest.len() > 0 && (rest[0] == 44 || rest[0] == 125 || json::is_space(rest[0]))
}

/// The name and the value read as they should, wherever they end.
pub open spec fn is_spelling(m: Spelling) -> bool {
    &&& all_space(m.lead) && all_space(m.mid) && all_space(m.gap) && all_space(m.trail)
    &&& m.name.len() > 0 && m.name[0] == 34
    &&& forall|rest: Seq<u8>| #[trigger]
        json::value_at(m.name + rest) == Some((m.reads.name, m.name.len()))
    &&& m.reads.name.len() > 0 && m.reads.name[0] == 34
    &&& m.value.len() > 0 && !json::is_space(m.value[0])
    &&& forall|rest: Seq<u8>|
        ends_value(rest) ==> #[trigger] json::value_at(m.value + rest) == Some(
            (m.reads.value, m.value.len()),
        )
    &&& json::nests(m.value) && json::nests(m.reads.value)
}

pub open spec fn spelling_text(m: Spelling) -> Seq<u8> {
    m.lead + m.name + m.mid + seq![58u8] + m.gap + m.value + m.trail
}

/// Members as they are spelled, with commas between them.
pub open spec fn spelling_texts(ms: Seq<Spelling>) -> Seq<u8>
    decreases ms.len(),
{
    if ms.len() == 0 {
        Seq::empty()
    } else if ms.len() == 1 {
        spelling_text(ms[0])
    } else {
        spelling_text(ms[0]) + seq![44u8] + spelling_texts(ms.drop_first())
    }
}

proof fn spelled_member(m: Spelling, end: Seq<u8>)
    requires
        is_spelling(m),
        json::closes(end),
    ensures
        next_member(spelling_text(m) + end, Reading::Whole) == Some((m.reads, m.trail + end)),
        skip_space(m.trail + end) == end,
{
    let t = spelling_text(m) + end;
    let t4 = m.trail + end;
    let t3 = m.value + t4;
    let t2 = m.gap + t3;
    let t1 = seq![58u8] + t2;
    let t0 = m.name + (m.mid + t1);
    assert(t =~= m.lead + t0);
    assert(t0[0] == 34u8);
    space_is_skipped(m.lead, t0);
    assert(t0.skip(m.name.len() as int) =~= m.mid + t1);
    assert(next_value(t) == Some((m.reads.name, m.mid + t1)));
    assert(t1[0] == 58u8);
    space_is_skipped(m.mid, t1);
    assert(t1.skip(1) =~= t2);
    assert(after(m.mid + t1, 58) == Some(t2));
    assert(t3[0] == m.value[0]);
    space_is_skipped(m.gap, t3);
    assert(ends_value(t4)) by {
        if m.trail.len() == 0 {
            assert(t4 =~= end);
        } else {
            assert(t4[0] == m.trail[0]);
        }
    }
    assert(t3.take(m.value.len() as int) =~= m.value);
    assert(t3.skip(m.value.len() as int) =~= t4);
    assert(nested_value(t2) == Some((m.reads.value, t4)));
    space_is_skipped(m.trail, end);
}

proof fn spelled_members(ms: Seq<Spelling>, tail: Seq<u8>)
    requires
        ms.len() > 0,
        forall|i: int| 0 <= i < ms.len() ==> is_spelling(#[trigger] ms[i]),
    ensures
        all_space(tail) ==> members(spelling_texts(ms) + (seq![125u8] + tail), Reading::Whole)
            == Some(Seq::new(ms.len(), |i: int| ms[i].reads)),
        skip_space(tail).len() > 0 ==> members(
            spelling_texts(ms) + (seq![125u8] + tail),
            Reading::Whole,
        ) is None,
        !ends(spelling_texts(ms) + (seq![125u8] + tail)),
    decreases ms.len(),
{
    let m = ms[0];
    assert(is_spelling(m));
    let close = seq![125u8] + tail;
    let t = spelling_texts(ms) + close;
    let all = Seq::new(ms.len(), |i: int| ms[i].reads);
    let start = m.name + (m.mid + seq![58u8] + m.gap + m.value + m.trail + (if ms.len() == 1 {
        close
    } else {
        seq![44u8] + spelling_texts(ms.drop_first()) + close
    }));
    assert(start[0] == 34u8);
    assert(t =~= m.lead + start);
    space_is_skipped(m.lead, start);
    if all_space(tail) {
        space_is_skipped(tail, Seq::empty());
        assert(tail + Seq::<u8>::empty() =~= tail);
    }
    if ms.len() == 1 {
        spelled_member(m, close);
        assert(close.skip(1) =~= tail);
        assert(after(m.trail + close, 44) is None);
        assert(after(m.trail + close, 125) == Some(tail));
        assert(all =~= seq![m.reads]);
    } else {
        let more = ms.drop_first();
        let rest = spelling_texts(more) + close;
        let end = seq![44u8] + rest;
        assert(forall|i: int| 0 <= i < more.len() ==> #[trigger] more[i] == ms[i + 1]);
        spelled_members(more, tail);
        spelled_member(m, end);
        assert(t =~= spelling_text(m) + end);
        assert(end.skip(1) =~= rest);
        assert(after(m.trail + end, 44) == Some(rest));
        assert(all =~= seq![m.reads] + Seq::new(more.len(), |i: int| more[i].reads));
    }
}

/// However an object is spelled, the same members are read: white space makes no
/// difference, before it, around names, values and commas, or after it. But
/// anything else after its members makes it no object.
pub proof fn spelling_makes_no_difference(
    lead: Seq<u8>,
    ms: Seq<Spelling>,
    tail: Seq<u8>,
)
    requires
        all_space(lead),
        forall|i: int| 0 <= i < ms.len() ==> is_spelling(#[trigger] ms[i]),
    ensures
        ({
            let t = lead + seq![123u8] + spelling_texts(ms) + seq![125u8] + tail;
            &&& all_space(tail) ==> object(t, Reading::Whole) == Some(
                Seq::new(ms.len(), |i: int| ms[i].reads),
            )
            &&& ms.len() > 0 && skip_space(tail).len() > 0 ==> object(t, Reading::Whole) is None
        }),
{
    let close = seq![125u8] + tail;
    let t1 = spelling_texts(ms) + close;
    let t = lead + seq![123u8] + spelling_texts(ms) + seq![125u8] + tail;
    assert(t =~= lead + (seq![123u8] + t1));
    space_is_skipped(lead, seq![123u8] + t1);
    assert((seq![123u8] + t1).skip(1) =~= t1);
    if ms.len() == 0 {
        assert(t1 =~= close);
        assert(close.skip(1) =~= tail);
        if all_space(tail) {
            space_is_skipped(tail, Seq::empty());
            assert(tail + Seq::<u8>::empty() =~= tail);
        }
        assert(Seq::new(ms.len(), |i: int| ms[i].reads) =~= Seq::empty());
    } else {
        spelled_members(ms, tail);
    }
}

/// What does not start with a brace is no object, and of one that is read for a
/// record, every value under another name is passed over.
pub proof fn objects_start_with_a_brace(t: Seq<u8>, reading: Reading, name: Seq<u8>)
    ensures
        skip_space(t).len() == 0 || skip_space(t)[0] != 123 ==> object(t, reading) is None,
        is_read(Reading::Whole, name),
        is_read(Reading::Record, name) <==> name == encode_utf8("\"version\""@) || name
            == encode_utf8("\"blob\""@),
{
}

/// An object is written on one line.
pub proof fn object_on_one_line(ms: Seq<MemberView>)
    requires
        all_writable(ms),
    ensures
        !object_text(ms).contains(10u8),
{
    body_on_one_line(ms);
    let t = object_text(ms);
    assert forall|i: int| 0 <= i < t.len() implies t[i] != 10u8 by {
        if 0 < i < t.len() - 1 {
            assert(t[i] == body_text(ms)[i - 1]);
        }
    }
}

proof fn body_on_one_line(ms: Seq<MemberView>)
    requires
        all_writable(ms),
    ensures
        forall|i: int| 0 <= i < body_text(ms).len() ==> #[trigger] body_text(ms)[i] != 10u8,
    decreases ms.len(),
{
    if ms.len() > 0 {
        let m = ms[0];
        assert(is_writable(m));
        plain_name_reads(m.name, Seq::empty());
        let more = ms.drop_first();
        assert forall|i: int| 0 <= i < more.len() implies is_writable(#[trigger] more[i]) by {
            assert(more[i] == ms[i + 1]);
        }
        body_on_one_line(more);
        let t = body_text(ms);
        let n = m.name.len() as int;
        let k = n + 1 + m.value.len();
        assert forall|i: int| 0 <= i < t.len() implies #[trigger] t[i] != 10u8 by {
            if i < n {
                assert(t[i] == m.name[i]);
            } else if n < i < k {
                assert(t[i] == m.value[i - n - 1]);
            } else if i > k {
                assert(t[i] == body_text(more)[i - k - 1]);
            }
        }
    }
}

/// A member of an object: its name and its value, unless that was passed over.
pub struct Member {
    pub name: Json,
    pub value: Option<Json>,
}

impl View for Member {
    type V = MemberView;

    open spec fn view(&self) -> MemberView {
        MemberView {
            name: self.name@,
            value: match self.value {
                Some(value) => value@,
                None => Seq::empty(),
            },
        }
    }
}

/// The views of some members, in order.
pub open spec fn views(ms: Seq<Member>) -> Seq<MemberView> {
    Seq::new(ms.len(), |i: int| ms[i]@)
}

/// A place in a text.
struct Cursor<'a> {
    text: &'a [u8],
    pos: usize,
}

impl<'a> Cursor<'a> {
    spec fn wf(self) -> bool {
        self.pos <= self.text@.len()
    }

    /// What is left of the text.
    spec fn rest(self) -> Seq<u8> {
        self.text@.skip(self.pos as int)
    }

    /// Moves on to the first byte that is not white space.
    fn skip_space(&mut self)
        requires
            old(self).wf(),
        ensures
            final(self).wf(),
            final(self).text == old(self).text,
            final(self).rest() == skip_space(old(self).rest()),
    {
        while self.pos < self.text.len() && (self.text[self.pos] == 32 || self.text[self.pos] == 9
            || self.text[self.pos] == 10 || self.text[self.pos] == 13)
            invariant
                self.wf(),
                self.text == old(self).text,
                skip_space(self.rest()) == skip_space(old(self).rest()),
            decreases self.text@.len() - self.pos,
        {
            assert(self.rest()[0] == self.text@[self.pos as int]);
            assert(self.rest().skip(1) =~= self.text@.skip(self.pos + 1));
            self.pos = self.pos + 1;
        }
        assert(self.rest().len() > 0 ==> self.rest()[0] == self.text@[self.pos as int]);
    }

    /// Moves past the byte `b` where it comes next.
    fn eat(&mut self, b: u8) -> (found: bool)
        requires
            old(self).wf(),
        ensures
            final(self).wf(),
            final(self).text == old(self).text,
            found ==> after(old(self).rest(), b) == Some(final(self).rest()),
            !found ==> after(old(self).rest(), b) is None,
    {
        self.skip_space();
        if self.pos < self.text.len() && self.text[self.pos] == b {
            assert(self.rest()[0] == self.text@[self.pos as int]);
            assert(self.rest().skip(1) =~= self.text@.skip(self.pos + 1));
            self.pos = self.pos + 1;
            true
        } else {
            assert(self.rest().len() > 0 ==> self.rest()[0] == self.text@[self.pos as int]);
            false
        }
    }

    /// Moves past the value that comes next.
    fn value(&mut self) -> (value: Option<Json>)
        requires
            old(self).wf(),
        ensures
            final(self).wf(),
            final(self).text == old(self).text,
            value matches Some(v) ==> next_value(old(self).rest()) == Some((v@, final(self).rest())),
            value is None ==> next_value(old(self).rest()) is None,
    {
        self.skip_space();
        let left: &[u8] = vstd::slice::slice_subrange(self.text, self.pos, self.text.len());
        assert(left@ =~= self.rest());
        match Json::first(left) {
            Some((v, n)) => {
                assert(self.rest().skip(n as int) =~= self.text@.skip(self.pos + n));
                self.pos = self.pos + n;
                Some(v)
            },
            None => None,
        }
    }

    /// Moves past the value that comes next, as a member of an object has it.
    fn nested_value(&mut self) -> (value: Option<Json>)
        requires
            old(self).wf(),
        ensures
            final(self).wf(),
            final(self).text == old(self).text,
            value matches Some(v) ==> nested_value(old(self).rest()) == Some(
                (v@, final(self).rest()),
            ),
            value is None ==> nested_value(old(self).rest()) is None,
    {
        self.skip_space();
        let left: &[u8] = vstd::slice::slice_subrange(self.text, self.pos, self.text.len());
        assert(left@ =~= self.rest());
        match Json::first(left) {
            Some((v, n)) => {
                let written: &[u8] = vstd::slice::slice_subrange(left, 0, n);
                assert(written@ =~= self.rest().take(n as int));
                if !json::may_nest(written) || !v.nests() {
                    return None;
                }
                assert(self.rest().skip(n as int) =~= self.text@.skip(self.pos + n));
                self.pos = self.pos + n;
                Some(v)
            },
            None => None,
        }
    }

    /// Moves past the value that comes next, unread.
    fn pass_over(&mut self) -> (found: bool)
        requires
            old(self).wf(),
        ensures
            final(self).wf(),
            final(self).text == old(self).text,
            found ==> after_value(old(self).rest()) == Some(final(self).rest()),
            !found ==> after_value(old(self).rest()) is None,
    {
        self.skip_space();
        let left: &[u8] = vstd::slice::slice_subrange(self.text, self.pos, self.text.len());
        assert(left@ =~= self.rest());
        match json::skip_value(left) {
            Some(n) => {
                assert(self.rest().skip(n as int) =~= self.text@.skip(self.pos + n));
                self.pos = self.pos + n;
                true
            },
            None => false,
        }
    }

    /// Whether the closing brace comes next, and then nothing but white space.
    fn at_end(&mut self) -> (found: bool)
        requires
            old(self).wf(),
        ensures
            final(self).wf(),
            final(self).text == old(self).text,
            found == ends(old(self).rest()),
    {
        if self.eat(125) {
            self.skip_space();
            self.pos == self.text.len()
        } else {
            false
        }
    }

    /// Moves past the member that comes next.
    fn member(&mut self, reading: Reading) -> (member: Option<Member>)
        requires
            old(self).wf(),
        ensures
            final(self).wf(),
            final(self).text == old(self).text,
            member matches Some(m) ==> next_member(old(self).rest(), reading) == Some(
                (m@, final(self).rest()),
            ),
            member is None ==> next_member(old(self).rest(), reading) is None,
    {
        let name: Json = match self.value() {
            Some(name) => name,
            None => return None,
        };
        if name.text().len() == 0 || name.text()[0] != 34 {
            return None;
        }
        if !self.eat(58) {
            return None;
        }
        if is_to_be_read(reading, &name) {
            match self.nested_value() {
                Some(value) => Some(Member { name, value: Some(value) }),
                None => None,
            }
        } else if self.pass_over() {
            Some(Member { name, value: None })
        } else {
            None
        }
    }
}

/// Whether the value under a name is to be read.
fn is_to_be_read(reading: Reading, name: &Json) -> (read: bool)
    ensures
        read == is_read(reading, name@),
{
    match reading {
        Reading::Whole => true,
        Reading::Record => text::is_str(name.text(), "\"version\"") || text::is_str(
            name.text(),
            "\"blob\"",
        ),
    }
}

/// Reads the members of the object that `text` is, or nothing where it is no
/// object.
pub fn read_object(text: &[u8], reading: Reading) -> (found: Option<Vec<Member>>)
    ensures
        found matches Some(ms) ==> object(text@, reading) == Some(views(ms@)),
        found is None ==> object(text@, reading) is None,
{
    let mut cursor = Cursor { text, pos: 0 };
    assert(cursor.rest() =~= text@);
    if !cursor.eat(123) {
        return None;
    }
    let mut found: Vec<Member> = Vec::new();
    let start: usize = cursor.pos;
    if cursor.at_end() {
        assert(views(found@) =~= Seq::empty());
        return Some(found);
    }
    cursor.pos = start;
    let ghost all = members(cursor.rest(), reading);
    assert(all matches Some(ms) ==> views(found@) + ms =~= ms);
    loop
        invariant
            cursor.wf(),
            cursor.text == text,
            all == object(text@, reading),
            all is Some <==> members(cursor.rest(), reading) is Some,
            all is Some ==> all->0 == views(found@) + members(cursor.rest(), reading)->0,
        decreases cursor.rest().len(),
    {
        let ghost rest = cursor.rest();
        let ghost before = views(found@);
        proof {
            next_member_shrinks(rest, reading);
        }
        let member: Member = match cursor.member(reading) {
            Some(member) => member,
            None => return None,
        };
        let ghost m = member@;
        found.push(member);
        assert(views(found@) =~= before.push(m));
        proof {
            skip_space_shrinks(cursor.rest());
        }
        let here: usize = cursor.pos;
        if !cursor.eat(44) {
            cursor.pos = here;
            if cursor.at_end() {
                assert(before + seq![m] =~= before.push(m));
                return Some(found);
            }
            return None;
        }
        proof {
            match members(cursor.rest(), reading) {
                Some(ms) => {
                    assert(before + (seq![m] + ms) =~= before.push(m) + ms);
                },
                None => {},
            }
        }
    }
}

/// Member `i` has that name, and no other has.
pub open spec fn is_only(ms: Seq<MemberView>, name: Seq<u8>, i: int) -> bool {
    &&& 0 <= i < ms.len()
    &&& ms[i].name == name
    &&& forall|j: int| 0 <= j < ms.len() && #[trigger] ms[j].name == name ==> j == i
}

/// The value of the one member of that name; none where no member has it, or
/// more than one, or the one was passed over.
pub open spec fn only(ms: Seq<MemberView>, name: Seq<u8>) -> Option<Seq<u8>> {
    if exists|i: int| is_only(ms, name, i) && ms[i].value.len() > 0 {
        Some(ms[choose|i: int| is_only(ms, name, i)].value)
    } else {
        None
    }
}

/// The value of a name is that of the one member that has it: a name that no
/// member has, or more than one, stands for nothing, whatever the order of the
/// members and whatever others there are.
pub proof fn doubled_names_stand_for_nothing(ms: Seq<MemberView>, name: Seq<u8>, i: int, j: int)
    requires
        0 <= i < ms.len(),
        0 <= j < ms.len(),
        ms[i].name == name,
        ms[i].value.len() > 0,
    ensures
        (forall|k: int| 0 <= k < ms.len() && k != i ==> (#[trigger] ms[k]).name != name) ==> only(
            ms,
            name,
        ) == Some(ms[i].value),
        i != j && ms[j].name == name ==> only(ms, name) is None,
        forall|other: Seq<u8>|
            (forall|k: int| 0 <= k < ms.len() ==> (#[trigger] ms[k]).name != other)
                ==> #[trigger] only(ms, other) is None,
{
    if forall|k: int| 0 <= k < ms.len() && k != i ==> (#[trigger] ms[k]).name != name {
        assert(is_only(ms, name, i));
        only_at(ms, name, i);
    }
}

/// The one member of a name is the one that [`only`] speaks of.
pub proof fn only_at(ms: Seq<MemberView>, name: Seq<u8>, i: int)
    requires
        is_only(ms, name, i),
        ms[i].value.len() > 0,
    ensures
        only(ms, name) == Some(ms[i].value),
{
}

/// Looks up the value of the one member called `name`, which is given as it is
/// written, quotes and all.
pub fn find_only(ms: &Vec<Member>, name: &str) -> (value: Option<Json>)
    ensures
        value matches Some(v) ==> only(views(ms@), encode_utf8(name@)) == Some(v@),
        value is None ==> only(views(ms@), encode_utf8(name@)) is None,
{
    let ghost key = encode_utf8(name@);
    let ghost all = views(ms@);
    let mut found: Option<usize> = None;
    let mut i: usize = 0;
    while i < ms.len()
        invariant
            i <= ms@.len(),
            all == views(ms@),
            key == encode_utf8(name@),
            found matches Some(k) ==> k < i && all[k as int].name == key,
            forall|j: int|
                0 <= j < i && #[trigger] all[j].name == key ==> found == Some(j as usize),
        decreases ms@.len() - i,
    {
        assert(all[i as int] == ms@[i as int]@);
        if text::is_str(ms[i].name.text(), name) {
            match found {
                Some(k) => {
                    assert(all[k as int].name == key && all[i as int].name == key);
                    return None;
                },
                None => {
                    found = Some(i);
                },
            }
        }
        i = i + 1;
    }
    match found {
        Some(k) => {
            assert(is_only(all, key, k as int));
            assert(all[k as int] == ms@[k as int]@);
            match &ms[k].value {
                Some(value) => {
                    proof {
                        use_type_invariant(value);
                        only_at(all, key, k as int);
                    }
                    Some(value.clone())
                },
                None => None,
            }
        },
        None => None,
    }
}

} // verus!
