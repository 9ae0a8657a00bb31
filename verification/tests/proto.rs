//! The wire format: what is written, what is read, and what is turned away.

use std::io::{self, Write};

use themed::json::Json;
use themed::proto::{
    decode_msg, read_msg, write_msg, Malformed, Message, Record, Request, Response, Version,
};

fn json(text: &str) -> Json {
    Json::parse(text.as_bytes()).unwrap()
}

fn record(version: Version, blob: &str) -> Record {
    Record { version, blob: json(blob) }
}

fn line<M: Message>(msg: &M) -> String {
    let mut out = Vec::new();
    write_msg(&mut out, msg);
    String::from_utf8(out).unwrap()
}

fn request(text: &str) -> Result<Request, Malformed> {
    decode_msg::<Request>(text.as_bytes())
}

#[test]
fn versions_order_as_integers() {
    let old = record(1, "{}");
    let new = record(u64::MAX, "{}");
    assert!(new.version > old.version);
}

#[test]
fn blob_equality_ignores_formatting() {
    assert_eq!(
        record(1, r#"{"mode":"dark"}"#).blob,
        record(2, r#"{ "mode": "dark" }"#).blob
    );
    assert_ne!(
        record(1, r#"{"mode":"dark"}"#).blob,
        record(2, r#"{"mode":"light"}"#).blob
    );
}

#[test]
fn blob_equality_is_by_value() {
    assert_eq!(json(r#"{"a":1,"b":2}"#), json(r#"{"b":2,"a":1}"#));
    assert_eq!(json("[0.0]"), json("[-0.0]"));
    assert_ne!(json("1"), json("1.0"));
    assert_ne!(json("[1,2]"), json("[2,1]"));
    assert_eq!(json(r#""A""#), json(r#""\u0041""#));
}

#[test]
fn a_value_is_kept_as_its_compact_text() {
    assert_eq!(json(" { \"b\" : [ 1 , 2.50 ] , \"a\" : null } ").text(), br#"{"a":null,"b":[1,2.5]}"#);
    assert_eq!(json("\"a\\u000ab\"").text(), br#""a\nb""#);
    assert_eq!(json("1e2").text(), b"100.0");
}

#[test]
fn a_text_with_more_than_one_value_is_no_value() {
    for text in ["", " ", "{} {}", "nul", "{\"a\":}", "[1,]", "'a'", "{\"a\":1}x"] {
        assert!(Json::parse(text.as_bytes()).is_err(), "accepted {text:?}");
    }
}

#[test]
fn the_first_value_leaves_the_rest() {
    let (value, taken) = Json::first(b"  {\"a\": 1} , 7").unwrap();
    assert_eq!(value.text(), br#"{"a":1}"#);
    assert_eq!(taken, 10);
    assert!(Json::first(b"  ").is_none());
    assert!(Json::first(b"12x").is_none());
}

#[test]
fn floats_read_back_as_themselves() {
    for text in ["0.1", "1e-7", "123456789.123456789", "5e-324", "1.7976931348623157e308"] {
        let once = json(text);
        let twice = Json::parse(once.text()).unwrap();
        assert_eq!(once.text(), twice.text());
        assert_eq!(once, twice);
    }
}

#[test]
fn record_round_trips_through_json() {
    let before = record(1_700_000_000_000_000_000, r#"{"mode":"light"}"#);
    let mut text = Vec::new();
    before.write(&mut text);
    let after: Record = decode_msg(&text).unwrap();
    assert_eq!(before.version, after.version);
    assert_eq!(before.blob, after.blob);
    assert_eq!(
        String::from_utf8(text).unwrap(),
        r#"{"version":1700000000000000000,"blob":{"mode":"light"}}"#
    );
}

#[test]
fn requests_round_trip() {
    let line = r#"{"t":"announce","version":7,"blob":{"mode":"dark"}}"#;
    let req: Request = request(line).unwrap();
    let Request::Announce { version, blob } = req else {
        panic!("wrong variant");
    };
    assert_eq!(version, 7);
    assert_eq!(blob, json(r#"{"mode":"dark"}"#));
}

#[test]
fn messages_are_written_field_by_field() {
    let blob = || json(r#"{"mode":"dark"}"#);
    assert_eq!(
        line(&Request::Announce { version: 7, blob: blob() }),
        "{\"t\":\"announce\",\"version\":7,\"blob\":{\"mode\":\"dark\"}}\n"
    );
    assert_eq!(line(&Request::Query), "{\"t\":\"query\"}\n");
    assert_eq!(
        line(&Request::SetBlob { blob: blob() }),
        "{\"t\":\"set\",\"blob\":{\"mode\":\"dark\"}}\n"
    );
    assert_eq!(line(&Request::Get), "{\"t\":\"get\"}\n");
    assert_eq!(
        line(&Response::from(Record { version: u64::MAX, blob: blob() })),
        "{\"t\":\"state\",\"version\":18446744073709551615,\"blob\":{\"mode\":\"dark\"}}\n"
    );
    assert_eq!(line(&Response::Accepted), "{\"t\":\"ok\"}\n");
    assert_eq!(
        line(&Response::Refused { msg: "a \"b\"\nc".to_string() }),
        "{\"t\":\"err\",\"msg\":\"a \\\"b\\\"\\nc\"}\n"
    );
}

#[test]
fn answers_round_trip() {
    let text = line(&Response::Refused { msg: "no \\ \"way\"\n\u{1f600}".to_string() });
    let Ok(Response::Refused { msg }) = decode_msg::<Response>(text.as_bytes()) else {
        panic!("wrong variant");
    };
    assert_eq!(msg, "no \\ \"way\"\n\u{1f600}");

    let text = line(&Response::State { version: 3, blob: json("[null]") });
    let Ok(Response::State { version, blob }) = decode_msg::<Response>(text.as_bytes()) else {
        panic!("wrong variant");
    };
    assert_eq!((version, blob), (3, json("[null]")));
    assert!(matches!(
        decode_msg::<Response>(b"{\"t\":\"ok\"}"),
        Ok(Response::Accepted)
    ));
    assert!(decode_msg::<Response>(b"{\"t\":\"err\",\"msg\":7}").is_err());
    assert!(decode_msg::<Response>(b"{\"t\":\"query\"}").is_err());
}

#[test]
fn framing_reads_one_message_per_line() {
    let mut buf = Vec::new();
    write_msg(&mut buf, &Request::Query);
    write_msg(&mut buf, &Request::Get);
    assert_eq!(buf.iter().filter(|b| **b == b'\n').count(), 2);

    let mut reader = &buf[..];
    assert!(matches!(
        read_msg::<Request>(&mut reader).unwrap(),
        Some(Request::Query)
    ));
    assert!(matches!(
        read_msg::<Request>(&mut reader).unwrap(),
        Some(Request::Get)
    ));
    assert!(read_msg::<Request>(&mut reader).unwrap().is_none());
}

#[test]
fn a_bad_line_is_passed_over_whole() {
    let mut reader: &[u8] = b"junk\n{\"t\":\"get\"}";
    assert!(read_msg::<Request>(&mut reader).is_err());
    assert!(matches!(
        read_msg::<Request>(&mut reader).unwrap(),
        Some(Request::Get)
    ));
    assert!(reader.is_empty());
}

/// Counts writes so the single-syscall property stays a property.
struct CountingWriter {
    bytes: Vec<u8>,
    writes: usize,
}

impl Write for CountingWriter {
    fn write(&mut self, buf: &[u8]) -> io::Result<usize> {
        self.writes += 1;
        self.bytes.extend_from_slice(buf);
        Ok(buf.len())
    }

    fn flush(&mut self) -> io::Result<()> {
        Ok(())
    }
}

#[test]
fn each_message_costs_one_write() {
    let mut w = CountingWriter { bytes: Vec::new(), writes: 0 };
    let mut line = Vec::new();
    write_msg(
        &mut line,
        &Request::Announce {
            version: 7,
            blob: json(r##"{"mode": "dark", "accent": "#ff0000"}"##),
        },
    );
    w.write_all(&line).unwrap();

    assert_eq!(w.writes, 1, "message was written in pieces");
    assert!(w.bytes.ends_with(b"\n"));
    assert_eq!(w.bytes.iter().filter(|b| **b == b'\n').count(), 1);
}

#[test]
fn malformed_lines_are_errors_not_panics() {
    for line in ["not json\n", "{}\n", r#"{"t":"nonsense"}"#] {
        assert!(read_msg::<Request>(&mut line.as_bytes()).is_err());
    }
}

#[test]
fn members_may_come_in_any_order_and_with_others() {
    let text = " {\"blob\" : [1, 2], \"extra\":{}, \"t\" : \"announce\" , \"version\":7 } \r\n";
    let Ok(Request::Announce { version, blob }) = request(text) else {
        panic!("wrong variant");
    };
    assert_eq!((version, blob), (7, json("[1,2]")));
    assert!(matches!(
        request("{\"\\u0074\":\"query\",\"blob\":1,\"blob\":2,\"x\":1,\"x\":2}"),
        Ok(Request::Query)
    ));
}

#[test]
fn members_that_are_missing_or_doubled_make_no_message() {
    for text in [
        r#"{"t":"announce","version":7}"#,
        r#"{"t":"announce","blob":{}}"#,
        r#"{"t":"set"}"#,
        r#"{"version":7,"blob":{}}"#,
        r#"{"t":"get","t":"get"}"#,
        r#"{"t":"set","blob":1,"blob":1}"#,
        r#"{"t":"announce","version":7,"version":7,"blob":{}}"#,
        r#"{"t":"get","x":1e999}"#,
    ] {
        assert!(request(text).is_err(), "accepted {text}");
    }
}

#[test]
fn a_version_is_an_unsigned_integer() {
    for version in ["-1", "7.0", "7e0", "\"7\"", "18446744073709551616", "null", "-0", "07"] {
        let text = format!("{{\"t\":\"announce\",\"version\":{version},\"blob\":1}}");
        assert!(request(&text).is_err(), "accepted {version}");
    }
    for version in ["0", "18446744073709551615"] {
        let text = format!("{{\"t\":\"announce\",\"version\":{version},\"blob\":1}}");
        assert!(request(&text).is_ok(), "refused {version}");
    }
}

#[test]
fn text_that_is_not_one_object_is_no_message() {
    for text in [
        r#"["query"]"#,
        r#""query""#,
        r#"{"t":"query"} x"#,
        r#"{"t":"query"}{"t":"query"}"#,
        r#"{"t":"query",}"#,
        r#"{"t" "query"}"#,
        r#"{t:"query"}"#,
        r#"{"t":"query""#,
        r#"{"t":"QUERY"}"#,
    ] {
        assert!(request(text).is_err(), "accepted {text}");
    }
    assert!(decode_msg::<Request>(b"{\"t\":\"query\",\"x\":\"\xff\"}").is_err());
}

#[test]
fn a_blob_may_nest_as_deep_as_a_message_is_read() {
    let nested = |depth: usize| format!("{}{}", "[".repeat(depth), "]".repeat(depth));
    let set = |depth: usize| format!("{{\"t\":\"set\",\"blob\":{}}}", nested(depth));

    assert!(json(&nested(126)).nests());
    assert!(request(&set(126)).is_ok());
    assert!(!json(&nested(127)).nests());
    assert!(request(&set(127)).is_err());
    assert!(Json::parse(nested(128).as_bytes()).is_err());
}

#[test]
fn a_value_nests_as_deep_as_it_is_written() {
    // The deep value is doubled away, but it was there to be read.
    let doubled = |depth: usize| {
        format!("{{\"a\":{}{},\"a\":1}}", "[".repeat(depth), "]".repeat(depth))
    };
    assert_eq!(json(&doubled(126)).text(), br#"{"a":1}"#);

    let get = |depth: usize| format!("{{\"t\":\"get\",\"x\":{}}}", doubled(depth));
    assert!(request(&get(125)).is_ok());
    assert!(request(&get(126)).is_err());

    let set = |depth: usize| format!("{{\"t\":\"set\",\"blob\":{}}}", doubled(depth));
    assert!(matches!(request(&set(125)), Ok(Request::SetBlob { blob }) if blob == json(r#"{"a":1}"#)));
    assert!(request(&set(126)).is_err());

    let state = |depth: usize| format!("{{\"version\":1,\"blob\":{}}}", doubled(depth));
    assert!(decode_msg::<Record>(state(125).as_bytes()).is_ok());
    assert!(decode_msg::<Record>(state(126).as_bytes()).is_err());
}
