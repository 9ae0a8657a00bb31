//! JSON values, held as their compact text.
//!
//! The daemon never looks inside a theme: it stores it, ships it and asks
//! whether two of them are the same. So a value is kept as the text that
//! `serde_json` prints for it, and `serde_json` itself decides what a text
//! means: every call into it stands in this file.

use vstd::prelude::*;
use vstd::utf8::*;

use crate::text;

verus! {

/// The errors of `serde_json`, carried as they come.
#[verifier::external_type_specification]
#[verifier::external_body]
pub struct ExJsonError(serde_json::Error);

/// What `serde_json::from_slice` makes of a text that is to be one JSON value:
/// the compact text of that value, or nothing where the text is no JSON value.
pub uninterp spec fn json_compact(text: Seq<u8>) -> Option<Seq<u8>>;

/// What `serde_json`'s stream reader makes of the JSON value at the front of a
/// text: its compact text and the number of bytes that it took up.
pub uninterp spec fn json_first(text: Seq<u8>) -> Option<(Seq<u8>, nat)>;

/// The number of bytes that the JSON value at the front of a text takes up,
/// where `serde_json`'s stream reader passes over it unread.
pub uninterp spec fn json_skip(text: Seq<u8>) -> Option<nat>;

/// Whether `serde_json` reads two texts as equal values.
pub uninterp spec fn json_same(a: Seq<u8>, b: Seq<u8>) -> bool;

/// The JSON string literal that `serde_json` prints for some characters.
pub uninterp spec fn json_quote(s: Seq<char>) -> Seq<u8>;

/// The characters that `serde_json` reads out of a JSON string literal.
pub uninterp spec fn json_string(text: Seq<u8>) -> Option<Seq<char>>;

/// What `serde_json::from_slice` makes of a text that is to be an array of a
/// `u64` and a value: the two, with the value as its compact text.
pub uninterp spec fn json_pair(text: Seq<u8>) -> Option<(u64, Seq<u8>)>;

/// JSON's white space.
pub open spec fn is_space(b: u8) -> bool {
    b == 32 || b == 9 || b == 10 || b == 13
}

/// A byte that stands for itself inside a JSON string literal.
pub open spec fn is_plain(b: u8) -> bool {
    32 <= b <= 126 && b != 34 && b != 92
}

pub open spec fn all_plain(s: Seq<u8>) -> bool {
    forall|i: int| 0 <= i < s.len() ==> is_plain(#[trigger] s[i])
}

/// `s` between double quotes.
pub open spec fn quoted(s: Seq<u8>) -> Seq<u8> {
    seq![34u8] + s + seq![34u8]
}

/// What stands between the double quotes of a literal.
pub open spec fn unquoted(t: Seq<u8>) -> Seq<u8> {
    t.subrange(1, t.len() - 1)
}

/// The number of plain bytes at the front of `t`.
pub open spec fn plain_len(t: Seq<u8>) -> nat
    decreases t.len(),
{
    if t.len() > 0 && is_plain(t[0]) {
        1 + plain_len(t.skip(1))
    } else {
        0
    }
}

/// The number of digits at the front of `t`.
pub open spec fn digit_len(t: Seq<u8>) -> nat
    decreases t.len(),
{
    if t.len() > 0 && text::is_digit(t[0]) {
        1 + digit_len(t.skip(1))
    } else {
        0
    }
}

/// What may follow a value inside an object: a comma or the closing brace.
pub open spec fn closes(rest: Seq<u8>) -> bool {
    rest.len() > 0 && (rest[0] == 44 || rest[0] == 125)
}

/// `t` starts with a string literal of plain characters.
pub open spec fn starts_plain(t: Seq<u8>) -> bool {
    let n = plain_len(t.skip(1));
    t.len() > 0 && t[0] == 34 && n + 1 < t.len() && t[n as int + 1] == 34
}

/// `t` starts with the numeral of a `u64`, and there the value ends.
pub open spec fn starts_numeral(t: Seq<u8>) -> bool {
    let n = digit_len(t) as int;
    closes(t.skip(n)) && exists|v: u64| t.take(n) == #[trigger] text::decimal(v as nat)
}

/// The string literal at the front of `t`, where it [`starts_plain`].
pub open spec fn plain_at(t: Seq<u8>) -> Option<(Seq<u8>, nat)> {
    let n = plain_len(t.skip(1)) + 2;
    Some((t.take(n as int), n))
}

/// The numeral at the front of `t`, where it [`starts_numeral`].
pub open spec fn numeral_at(t: Seq<u8>) -> Option<(Seq<u8>, nat)> {
    let n = digit_len(t);
    Some((t.take(n as int), n))
}

/// The JSON value at the front of `t`, as its compact text and the number of
/// bytes that it takes up. A string of plain characters and the numeral of a
/// `u64` are their own compact text.
pub open spec fn value_at(t: Seq<u8>) -> Option<(Seq<u8>, nat)> {
    if starts_plain(t) {
        plain_at(t)
    } else if starts_numeral(t) {
        numeral_at(t)
    } else {
        json_first(t)
    }
}

/// A compact text: it reads back as itself wherever it stands as a value inside
/// an object, it is one line, and no white space leads it.
pub open spec fn is_compact(t: Seq<u8>) -> bool {
    &&& t.len() > 0
    &&& !is_space(t[0])
    &&& !t.contains(10u8)
    &&& forall|rest: Seq<u8>|
        closes(rest) ==> #[trigger] value_at(t + rest) == Some((t, t.len()))
}

/// A string literal of plain characters.
pub open spec fn is_plain_literal(t: Seq<u8>) -> bool {
    exists|k: Seq<u8>| all_plain(k) && t == #[trigger] quoted(k)
}

/// The numeral of a `u64`.
pub open spec fn is_numeral(t: Seq<u8>) -> bool {
    exists|v: u64| t == #[trigger] text::decimal(v as nat)
}

/// An object with one member, a plain string under a plain name, and no spaces.
pub open spec fn is_plain_pair(t: Seq<u8>) -> bool {
    exists|k: Seq<u8>, v: Seq<u8>|
        #![trigger quoted(k), quoted(v)]
        all_plain(k) && all_plain(v) && t == seq![123u8] + quoted(k) + seq![58u8] + quoted(v)
            + seq![125u8]
}

/// A text that is plainly a JSON value, and compact.
pub open spec fn is_simple(t: Seq<u8>) -> bool {
    is_plain_literal(t) || is_numeral(t) || is_plain_pair(t)
}

/// `t` holds `-0.0` somewhere, the one number that equals another and is written
/// otherwise.
pub open spec fn has_minus_zero(t: Seq<u8>) -> bool {
    exists|i: int|
        0 <= i && i + 3 < t.len() && #[trigger] t[i] == 45 && t[i + 1] == 48 && t[i + 2] == 46
            && t[i + 3] == 48
}

/// Whether two compact texts are the same value. They are where they are the same
/// text; where a zero may have a sign, `serde_json` decides.
pub open spec fn same(a: Seq<u8>, b: Seq<u8>) -> bool {
    a == b || ((has_minus_zero(a) || has_minus_zero(b)) && json_same(a, b))
}

/// Two values are the same where their compact texts are, and only there, down
/// to the last byte: the one exception is a zero with a sign, and of that
/// `serde_json` decides.
pub proof fn values_differ_where_their_texts_do(a: Seq<u8>, b: Seq<u8>)
    ensures
        same(a, a),
        same(a, b) && a != b ==> json_same(a, b),
        json_same(a, b) && has_minus_zero(a) ==> same(a, b),
        json_same(a, b) && has_minus_zero(b) ==> same(a, b),
        (forall|i: int|
            0 <= i && i + 3 < a.len() && #[trigger] a[i] == 45 ==> a[i + 1] != 48 || a[i + 2] != 46
                || a[i + 3] != 48) && (forall|i: int|
            0 <= i && i + 3 < b.len() && #[trigger] b[i] == 45 ==> b[i + 1] != 48 || b[i + 2] != 46
                || b[i + 3] != 48) ==> (same(a, b) <==> a == b),
{
}

/// The string literal that some characters are written as. Plain characters
/// stand as they are; where there are others, `serde_json` decides.
pub open spec fn string_text(s: Seq<char>) -> Seq<u8> {
    if all_plain(encode_utf8(s)) {
        quoted(encode_utf8(s))
    } else {
        json_quote(s)
    }
}

/// The characters that a text stands for, where it is a string literal. Plain
/// characters stand as they are; of anything else `serde_json` decides.
pub open spec fn string_in(t: Seq<u8>) -> Option<Seq<char>> {
    if is_plain_literal(t) {
        Some(decode_utf8(unquoted(t)))
    } else {
        json_string(t)
    }
}

/// `t` as the one element of an array.
pub open spec fn listed(t: Seq<u8>) -> Seq<u8> {
    seq![91u8] + t + seq![93u8]
}

/// Whether a value may stand one level down, as the element of an array or the
/// member of an object: `serde_json` reads nested values down to a limit only.
pub open spec fn nests(t: Seq<u8>) -> bool {
    is_simple(t) || json_compact(listed(t)) is Some
}

/// A compact text is one line, and reads back as itself before a comma or a
/// brace. What stands at the front of a text is what `serde_json` reads there,
/// however long it is; and a value may stand one level down where `serde_json`
/// reads the array of it.
pub proof fn values_are_read_whole(t: Seq<u8>, rest: Seq<u8>)
    requires
        rest.len() > 0 && (rest[0] == 44 || rest[0] == 125),
    ensures
        is_compact(t) ==> value_at(t + rest) == Some((t, t.len())),
        is_compact(t) ==> t.len() > 0 && !t.contains(10u8) && t[0] != 32 && t[0] != 9 && t[0] != 13,
        !starts_plain(t) && !starts_numeral(t) ==> value_at(t) == json_first(t),
        t.len() > 0 && t[0] != 32 && t[0] != 9 && t[0] != 13 && !t.contains(10u8) && (forall|
            end: Seq<u8>,
        |
            end.len() > 0 && (end[0] == 44 || end[0] == 125) ==> #[trigger] value_at(t + end)
                == Some((t, t.len()))) ==> is_compact(t),
        json_compact(seq![91u8] + t + seq![93u8]) is Some ==> nests(t),
        nests(t) && !is_simple(t) ==> json_compact(seq![91u8] + t + seq![93u8]) is Some,
{
}

/// Calls `serde_json::from_slice`, for the one JSON value that `text` holds,
/// and hands it on as its compact text. The result is what [`json_compact`]
/// names. A compact text reads back as itself (the crate's `float_roundtrip`
/// feature is on, so that this holds of floats too), holds no line break and
/// starts with no white space. A plain string, the numeral of a `u64` and an
/// object of one plain string are read as they stand, and inside an array too.
#[verifier::external_body]
fn compact(text: &[u8]) -> (value: Result<Vec<u8>, serde_json::Error>)
    ensures
        value matches Ok(t) ==> json_compact(text@) == Some(t@) && is_compact(t@),
        value is Err ==> json_compact(text@) is None,
        is_simple(text@) ==> value is Ok && value->Ok_0@ == text@,
        (exists|t: Seq<u8>| is_simple(t) && text@ == #[trigger] listed(t)) ==> value is Ok,
{
    serde_json::from_slice::<serde_json::Value>(text).map(|value| value.to_string().into_bytes())
}

/// A value and the bytes that it took up, for the contracts.
pub open spec fn first_view(value: Option<(Vec<u8>, usize)>) -> Option<(Seq<u8>, nat)> {
    match value {
        Some((t, n)) => Some((t@, n as nat)),
        None => None,
    }
}

/// A value read off `text` has a compact text and takes up some of `text`.
pub open spec fn first_fits(value: Option<(Vec<u8>, usize)>, text: Seq<u8>) -> bool {
    match value {
        Some((t, n)) => is_compact(t@) && 0 < n <= text.len(),
        None => true,
    }
}

/// Calls `serde_json::StreamDeserializer::next`, for the JSON value at the front
/// of `text`, and hands it on as its compact text with `byte_offset`, the
/// number of bytes that it took up. The result is what [`json_first`] names. A
/// string of plain characters, and the numeral of a `u64` that a comma or a
/// brace follows, are read as they stand; every compact text reads back as
/// itself.
#[verifier::external_body]
fn first_value(text: &[u8]) -> (value: Option<(Vec<u8>, usize)>)
    ensures
        first_view(value) == json_first(text@),
        first_fits(value, text@),
        starts_plain(text@) ==> first_view(value) == plain_at(text@),
        starts_numeral(text@) ==> first_view(value) == numeral_at(text@),
{
    let mut stream = serde_json::Deserializer::from_slice(text).into_iter::<serde_json::Value>();
    match stream.next() {
        Some(Ok(value)) => Some((value.to_string().into_bytes(), stream.byte_offset())),
        _ => None,
    }
}

/// A number of bytes, for the contracts.
pub open spec fn skip_view(taken: Option<usize>) -> Option<nat> {
    match taken {
        Some(n) => Some(n as nat),
        None => None,
    }
}

/// A value that is passed over takes up some of `text`.
pub open spec fn skip_fits(taken: Option<usize>, text: Seq<u8>) -> bool {
    match taken {
        Some(n) => 0 < n <= text.len(),
        None => true,
    }
}

/// Calls `serde_json::StreamDeserializer::next` for a `serde::de::IgnoredAny`: the
/// JSON value at the front of `text` is passed over, and `byte_offset` tells
/// the number of bytes that it took up. The result is what [`json_skip`] names.
#[verifier::external_body]
pub(crate) fn skip_value(text: &[u8]) -> (taken: Option<usize>)
    ensures
        skip_view(taken) == json_skip(text@),
        skip_fits(taken, text@),
{
    let mut stream = serde_json::Deserializer::from_slice(text).into_iter::<
        serde::de::IgnoredAny,
    >();
    match stream.next() {
        Some(Ok(_)) => Some(stream.byte_offset()),
        _ => None,
    }
}

/// Calls `==` of `serde_json::Value` on what `serde_json::from_slice` reads in
/// each text. The result is what [`json_same`] names; a text is the same as
/// itself. Equal values print the same but for the sign of a zero, so compact
/// texts without one are of equal values only where they are the same text.
#[verifier::external_body]
fn same_value(a: &[u8], b: &[u8]) -> (same: bool)
    ensures
        same == json_same(a@, b@),
        a@ == b@ ==> same,
        is_compact(a@) && is_compact(b@) && !has_minus_zero(a@) && !has_minus_zero(b@) ==> same == (
        a@ == b@),
{
    serde_json::from_slice::<serde_json::Value>(a).ok()
        == serde_json::from_slice::<serde_json::Value>(b).ok()
}

/// Calls `to_string` of a `serde_json::Value` that is the string `s`. The result
/// is what [`json_quote`] names: a compact text, out of which the same
/// characters are read again, and which may stand inside an array. Plain
/// characters are only put between quotes; others are escaped or not plain as
/// they stand, so that a plain literal comes of plain characters alone.
#[verifier::external_body]
fn quote(s: &str) -> (text: Vec<u8>)
    ensures
        text@ == json_quote(s@),
        is_compact(text@),
        json_string(text@) == Some(s@),
        nests(text@),
        all_plain(encode_utf8(s@)) ==> text@ == quoted(encode_utf8(s@)),
        is_plain_literal(text@) ==> text@ == quoted(encode_utf8(s@)),
{
    serde_json::Value::from(s).to_string().into_bytes()
}

/// Calls `serde_json::from_slice` for a `String`. The result is what
/// [`json_string`] names. A literal of plain characters is read as the
/// characters between its quotes.
#[verifier::external_body]
fn unquote(text: &[u8]) -> (s: Option<String>)
    ensures
        s matches Some(c) ==> json_string(text@) == Some(c@),
        s is None ==> json_string(text@) is None,
        is_plain_literal(text@) ==> s is Some && encode_utf8(s->0@) == unquoted(text@),
{
    serde_json::from_slice::<String>(text).ok()
}

/// A literal of plain characters reads as the characters that it was written
/// from.
pub proof fn plain_string_reads(s: Seq<char>)
    requires
        all_plain(encode_utf8(s)),
    ensures
        is_plain_literal(string_text(s)),
        string_in(string_text(s)) == Some(s),
{
    let k = encode_utf8(s);
    assert(unquoted(quoted(k)) =~= k);
    encode_utf8_decode_utf8(s);
}

/// Writes some characters as a string literal.
pub(crate) fn write_string(s: &str) -> (text: Vec<u8>)
    ensures
        text@ == string_text(s@),
        text@ == json_quote(s@),
        is_compact(text@),
        string_in(text@) == Some(s@),
        nests(text@),
{
    let text: Vec<u8> = quote(s);
    proof {
        if all_plain(encode_utf8(s@)) {
            plain_string_reads(s@);
        } else if is_plain_literal(text@) {
            let k = choose|k: Seq<u8>| all_plain(k) && text@ == #[trigger] quoted(k);
            assert(unquoted(quoted(k)) =~= k);
            assert(unquoted(text@) =~= encode_utf8(s@));
        }
    }
    text
}

/// Reads the characters of a string literal.
pub(crate) fn read_string(text: &[u8]) -> (s: Option<String>)
    ensures
        s matches Some(c) ==> string_in(text@) == Some(c@),
        s is None ==> string_in(text@) is None,
        s matches Some(c) ==> json_string(text@) == Some(c@),
        s is None ==> json_string(text@) is None,
{
    let s: Option<String> = unquote(text);
    proof {
        if is_plain_literal(text@) {
            encode_utf8_decode_utf8(s->0@);
        }
    }
    s
}

/// A pair, for the contracts.
pub open spec fn pair_view(pair: Option<(u64, Vec<u8>)>) -> Option<(u64, Seq<u8>)> {
    match pair {
        Some((n, t)) => Some((n, t@)),
        None => None,
    }
}

/// The value of a pair has a compact text, and stands inside an array.
pub open spec fn pair_fits(pair: Option<(u64, Vec<u8>)>) -> bool {
    match pair {
        Some((n, t)) => is_compact(t@) && nests(t@),
        None => true,
    }
}

/// Calls `serde_json::from_slice` for an array of two, a `u64` and a value, and
/// hands the value on as its compact text. The result is what [`json_pair`]
/// names; the text reads back as itself, and may stand inside an array.
#[verifier::external_body]
fn pair(text: &[u8]) -> (found: Option<(u64, Vec<u8>)>)
    ensures
        pair_view(found) == json_pair(text@),
        pair_fits(found),
{
    serde_json::from_slice::<(u64, serde_json::Value)>(text).ok().map(
        |pair| (pair.0, pair.1.to_string().into_bytes()),
    )
}

/// Whether a value, as it is written, may stand one level down.
pub fn may_nest(value: &[u8]) -> (fits: bool)
    ensures
        fits == nests(value@),
        fits <==> json_compact(seq![91u8] + value@ + seq![93u8]) is Some,
{
    let mut list: Vec<u8> = Vec::new();
    list.push(91);
    text::push_bytes(&mut list, value);
    list.push(93);
    assert(list@ =~= listed(value@));
    compact(list.as_slice()).is_ok()
}

/// One JSON value, in compact text.
#[derive(Debug)]
pub struct Json {
    text: Vec<u8>,
}

impl View for Json {
    type V = Seq<u8>;

    closed spec fn view(&self) -> Seq<u8> {
        self.text@
    }
}

impl Json {
    /// A value's text is compact.
    #[verifier::type_invariant]
    pub open spec fn inv(self) -> bool {
        is_compact(self@)
    }

    /// Reads a text that is to be one JSON value and nothing else.
    pub fn parse(text: &[u8]) -> (value: Result<Json, serde_json::Error>)
        ensures
            value matches Ok(v) ==> json_compact(text@) == Some(v@),
            value is Err <==> json_compact(text@) is None,
            is_simple(text@) ==> value is Ok && value->Ok_0@ == text@,
    {
        match compact(text) {
            Ok(t) => Ok(Json { text: t }),
            Err(e) => Err(e),
        }
    }

    /// Reads the JSON value at the front of a text, with the number of bytes
    /// that it takes up.
    pub fn first(text: &[u8]) -> (value: Option<(Json, usize)>)
        ensures
            value matches Some((v, n)) ==> value_at(text@) == Some((v@, n as nat)) && 0 < n
                <= text@.len(),
            value is None <==> value_at(text@) is None,
            value matches Some((v, n)) ==> json_first(text@) == Some((v@, n as nat)),
            value is None <==> json_first(text@) is None,
    {
        match first_value(text) {
            Some((t, n)) => Some((Json { text: t }, n)),
            None => None,
        }
    }

    /// Reads a text that is to be an array of a `u64` and a value.
    pub fn pair(text: &[u8]) -> (found: Option<(u64, Json)>)
        ensures
            found matches Some((n, v)) ==> json_pair(text@) == Some((n, v@)) && nests(v@),
            found is None <==> json_pair(text@) is None,
    {
        match pair(text) {
            Some((n, t)) => Some((n, Json { text: t })),
            None => None,
        }
    }

    /// Whether the value may stand one level down, inside a message.
    pub fn nests(&self) -> (fits: bool)
        ensures
            fits == nests(self@),
    {
        may_nest(self.text.as_slice())
    }

    /// The compact text.
    pub fn text(&self) -> (t: &[u8])
        ensures
            t@ == self@,
    {
        self.text.as_slice()
    }
}

impl Clone for Json {
    fn clone(&self) -> (copy: Self)
        ensures
            copy@ == self@,
    {
        let mut text: Vec<u8> = Vec::new();
        text::push_bytes(&mut text, self.text.as_slice());
        proof {
            use_type_invariant(self);
        }
        assert(text@ == self.text@);
        Json { text }
    }
}

impl PartialEq for Json {
    /// Whether the two are the same value, however they were written.
    fn eq(&self, other: &Self) -> (same: bool) {
        proof {
            use_type_invariant(self);
            use_type_invariant(other);
        }
        same_value(self.text.as_slice(), other.text.as_slice())
    }
}

impl vstd::std_specs::cmp::PartialEqSpecImpl for Json {
    open spec fn obeys_eq_spec() -> bool {
        true
    }

    open spec fn eq_spec(&self, other: &Self) -> bool {
        same(self@, other@)
    }
}

} // verus!
