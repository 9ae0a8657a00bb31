//! From the command line and the machine to a configuration: what each default
//! is, once the machine has been asked.

use std::path::PathBuf;

use vstd::prelude::*;
use vstd::string::*;

use crate::daemon::Config;
use crate::json;
use crate::json::Json;

verus! {

/// Peer port, matched by the fleet's service definition.
pub const DEFAULT_PORT: u16 = 47100;

/// Flags for the default (daemon) mode.
#[derive(Debug)]
pub struct DaemonArgs {
    /// This host's name; only used to break version ties.
    pub self_name: Option<String>,
    /// Peer listener address. Defaults to this host's Tailscale IPv4.
    pub listen: Option<String>,
    /// Where the current record is cached between runs.
    pub state_file: Option<PathBuf>,
    /// Shell command run on every theme change, with the blob on stdin.
    pub reconcile_cmd: Option<String>,
    /// Peers to push to, as `host:port`; none is fine.
    pub peers: Vec<String>,
}

/// A literal IPv4 address.
#[derive(Debug, Clone, Copy, PartialEq, Eq, Structural)]
pub struct Ipv4 {
    pub a: u8,
    pub b: u8,
    pub c: u8,
    pub d: u8,
}

/// The decimal digits of `n`, without leading zeros.
pub open spec fn digits(n: nat) -> Seq<char>
    decreases n,
{
    if n < 10 {
        seq![digit(n)]
    } else {
        digits(n / 10).push(digit(n % 10))
    }
}

pub open spec fn digit(d: nat) -> char {
    (48 + d) as char
}

pub open spec fn is_digit(c: char) -> bool {
    '0' <= c <= '9'
}

/// An address in dotted decimal.
pub open spec fn dotted(ip: Ipv4) -> Seq<char> {
    digits(ip.a as nat) + seq!['.'] + digits(ip.b as nat) + seq!['.'] + digits(ip.c as nat) + seq![
        '.',
    ] + digits(ip.d as nat)
}

/// Unicode's white space.
pub open spec fn is_white(c: char) -> bool {
    let n = c as u32;
    ||| 0x9 <= n <= 0xd
    ||| n == 0x20
    ||| n == 0x85
    ||| n == 0xa0
    ||| n == 0x1680
    ||| 0x2000 <= n <= 0x200a
    ||| n == 0x2028
    ||| n == 0x2029
    ||| n == 0x202f
    ||| n == 0x205f
    ||| n == 0x3000
}

pub open spec fn trim_start(s: Seq<char>) -> Seq<char>
    decreases s.len(),
{
    if s.len() > 0 && is_white(s[0]) {
        trim_start(s.skip(1))
    } else {
        s
    }
}

pub open spec fn trim_end(s: Seq<char>) -> Seq<char>
    decreases s.len(),
{
    if s.len() > 0 && is_white(s.last()) {
        trim_end(s.drop_last())
    } else {
        s
    }
}

/// `s` without the white space around it.
pub open spec fn trimmed(s: Seq<char>) -> Seq<char> {
    trim_end(trim_start(s))
}

/// What stands before the first line break.
pub open spec fn top_line(s: Seq<char>) -> Seq<char>
    decreases s.len(),
{
    if s.len() == 0 || s[0] == '\n' {
        Seq::empty()
    } else {
        seq![s[0]] + top_line(s.skip(1))
    }
}

/// Trimming takes the white space off both ends, all of it, and nothing else.
pub proof fn trimming_takes_white_space_only(s: Seq<char>)
    ensures
        exists|lead: Seq<char>, trail: Seq<char>|
            s == #[trigger] (lead + trimmed(s) + trail) && all_white(lead) && all_white(trail),
        trimmed(s).len() > 0 ==> !is_white(trimmed(s)[0]) && !is_white(trimmed(s).last()),
{
    let rest = trim_start(s);
    trim_start_splits(s);
    trim_end_splits(rest);
    let lead = s.take(s.len() - rest.len());
    let core = trim_end(rest);
    let trail = rest.skip(core.len() as int);
    assert(s =~= lead + core + trail);
    assert(s == lead + trimmed(s) + trail);
    if core.len() > 0 {
        assert(core[0] == rest[0]);
    }
}

/// Nothing but white space: tab to carriage return, space, next line, no-break
/// space, and the other spaces and separators of Unicode.
pub open spec fn all_white(s: Seq<char>) -> bool {
    forall|i: int|
        0 <= i < s.len() ==> {
            let n = #[trigger] s[i] as u32;
            ||| 0x9 <= n <= 0xd
            ||| n == 0x20 || n == 0x85 || n == 0xa0 || n == 0x1680
            ||| 0x2000 <= n <= 0x200a
            ||| n == 0x2028 || n == 0x2029 || n == 0x202f || n == 0x205f || n == 0x3000
        }
}

/// What is trimmed is white space as [`all_white`] has it, and all such white
/// space is.
pub proof fn white_space_is_unicodes(c: char)
    ensures
        is_white(c) <==> all_white(seq![c]),
{
    assert(seq![c][0] == c);
}

proof fn trim_start_splits(s: Seq<char>)
    ensures
        trim_start(s).len() <= s.len(),
        s.skip(s.len() - trim_start(s).len()) == trim_start(s),
        all_white(s.take(s.len() - trim_start(s).len())),
        trim_start(s).len() > 0 ==> !is_white(trim_start(s)[0]),
    decreases s.len(),
{
    if s.len() > 0 && is_white(s[0]) {
        let u = s.skip(1);
        trim_start_splits(u);
        let n = trim_start(s).len();
        let w = s.take(s.len() - n);
        assert(u.skip(u.len() - n) =~= s.skip(s.len() - n));
        assert forall|i: int| 0 <= i < w.len() implies is_white(#[trigger] w[i]) by {
            if i > 0 {
                assert(w[i] == u.take(u.len() - n)[i - 1]);
            }
        }
    } else {
        assert(s.skip(0) =~= s);
    }
}

proof fn trim_end_splits(s: Seq<char>)
    ensures
        trim_end(s).len() <= s.len(),
        s.take(trim_end(s).len() as int) == trim_end(s),
        all_white(s.skip(trim_end(s).len() as int)),
        trim_end(s).len() > 0 ==> !is_white(trim_end(s).last()),
    decreases s.len(),
{
    if s.len() > 0 && is_white(s.last()) {
        let u = s.drop_last();
        trim_end_splits(u);
        let n = trim_end(s).len() as int;
        let w = s.skip(n);
        assert(u.take(n) =~= s.take(n));
        assert forall|i: int| 0 <= i < w.len() implies is_white(#[trigger] w[i]) by {
            if i < w.len() - 1 {
                assert(w[i] == u.skip(n)[i]);
            }
        }
    } else {
        assert(s.take(s.len() as int) =~= s);
    }
}

/// The first line is what stands before the first line break, or all of the text
/// where there is none.
pub proof fn top_lines_end_at_line_breaks(s: Seq<char>)
    ensures
        top_line(s).len() <= s.len(),
        top_line(s) == s.take(top_line(s).len() as int),
        !top_line(s).contains('\n'),
        top_line(s).len() < s.len() ==> s[top_line(s).len() as int] == '\n',
    decreases s.len(),
{
    if s.len() > 0 && s[0] != '\n' {
        let u = s.skip(1);
        top_lines_end_at_line_breaks(u);
        let n = top_line(s).len() as int;
        assert(top_line(s) =~= s.take(n)) by {
            assert(top_line(u) == u.take(n - 1));
        }
        if n < s.len() {
            assert(s[n] == u[n - 1]);
        }
        if top_line(s).contains('\n') {
            let i = choose|i: int| 0 <= i < n && top_line(s)[i] == '\n';
            assert(i > 0);
            assert(top_line(u)[i - 1] == '\n');
            assert(top_line(u).contains('\n'));
        }
    }
}

/// A number is written digit by digit, the last one last; an address is its four
/// numbers with dots between them, and a listener address that and a port.
pub proof fn addresses_are_spelled_out(ip: Ipv4, port: u16, n: nat, d: nat)
    requires
        d < 10,
    ensures
        digits(d) == seq![(48 + d) as char],
        n > 0 ==> digits(10 * n + d) == digits(n).push((48 + d) as char),
        dotted(ip) == digits(ip.a as nat) + seq!['.'] + digits(ip.b as nat) + seq!['.'] + digits(
            ip.c as nat,
        ) + seq!['.'] + digits(ip.d as nat),
        address(ip, port) == digits(ip.a as nat) + seq!['.'] + digits(ip.b as nat) + seq!['.']
            + digits(ip.c as nat) + seq!['.'] + digits(ip.d as nat) + seq![':'] + digits(
            port as nat,
        ),
{
    if n > 0 {
        assert((10 * n + d) / 10 == n);
        assert((10 * n + d) % 10 == d);
    }
}

/// A host goes by what the file says, or else by what `uname` says, without the
/// white space around it, and by `unknown` where that leaves nothing.
pub proof fn hosts_go_by_their_names(name: Seq<char>, other: Option<Seq<char>>)
    ensures
        trimmed(name).len() > 0 ==> host_name(Some(name), other) == trimmed(name),
        trimmed(name).len() > 0 ==> host_name(None, Some(name)) == trimmed(name),
        trimmed(name).len() == 0 ==> host_name(Some(name), other) == "unknown"@,
        trimmed(name).len() == 0 ==> host_name(None, Some(name)) == "unknown"@,
        host_name(None, None) == "unknown"@,
        forall|s: &str| #[trigger] str_view(Some(s)) == Some(s@),
        str_view(None) is None,
{
}

fn white(c: char) -> (w: bool)
    ensures
        w == is_white(c),
{
    let n: u32 = c as u32;
    (0x9 <= n && n <= 0xd) || n == 0x20 || n == 0x85 || n == 0xa0 || n == 0x1680 || (0x2000 <= n
        && n <= 0x200a) || n == 0x2028 || n == 0x2029 || n == 0x202f || n == 0x205f || n == 0x3000
}

/// The text without the white space around it.
pub fn trim(s: &str) -> (t: &str)
    ensures
        t@ == trimmed(s@),
{
    let len: usize = s.unicode_len();
    let mut from: usize = 0;
    assert(s@.skip(0) =~= s@);
    while from < len && white(s.get_char(from))
        invariant
            from <= len,
            len == s@.len(),
            trim_start(s@) == trim_start(s@.skip(from as int)),
        decreases len - from,
    {
        assert(s@.skip(from as int)[0] == s@[from as int]);
        assert(s@.skip(from as int).skip(1) =~= s@.skip(from + 1));
        from = from + 1;
    }
    assert(from < len ==> s@.skip(from as int)[0] == s@[from as int]);
    let ghost rest = s@.skip(from as int);
    assert(trim_start(s@) == rest);
    let mut to: usize = len;
    assert(s@.subrange(from as int, len as int) =~= rest);
    while from < to && white(s.get_char(to - 1))
        invariant
            from <= to <= len,
            len == s@.len(),
            trim_end(rest) == trim_end(s@.subrange(from as int, to as int)),
        decreases to - from,
    {
        let ghost here = s@.subrange(from as int, to as int);
        assert(here.last() == s@[to - 1]);
        assert(here.drop_last() =~= s@.subrange(from as int, to - 1));
        to = to - 1;
    }
    assert(from < to ==> s@.subrange(from as int, to as int).last() == s@[to - 1]);
    s.substring_char(from, to)
}

/// The text before the first line break.
fn first_line(s: &str) -> (t: &str)
    ensures
        t@ == top_line(s@),
{
    let len: usize = s.unicode_len();
    let mut to: usize = 0;
    assert(s@.skip(0) =~= s@);
    assert(s@.take(0) + top_line(s@) =~= top_line(s@));
    while to < len && s.get_char(to) != '\n'
        invariant
            to <= len,
            len == s@.len(),
            top_line(s@) == s@.take(to as int) + top_line(s@.skip(to as int)),
        decreases len - to,
    {
        let ghost rest = s@.skip(to as int);
        assert(rest[0] == s@[to as int]);
        assert(rest.skip(1) =~= s@.skip(to + 1));
        assert(s@.take(to as int) + (seq![rest[0]] + top_line(rest.skip(1))) =~= s@.take(to + 1)
            + top_line(rest.skip(1)));
        to = to + 1;
    }
    assert(to < len ==> s@.skip(to as int)[0] == s@[to as int]);
    assert(top_line(s@) =~= s@.subrange(0, to as int));
    s.substring_char(0, to)
}

/// The digits of a number up to 255, spelled out.
proof fn octet_digits(n: u8)
    ensures
        n < 10 ==> digits(n as nat) =~= seq![digit(n as nat)],
        10 <= n < 100 ==> digits(n as nat) =~= seq![digit((n / 10) as nat), digit((n % 10) as nat)],
        100 <= n ==> digits(n as nat) =~= seq![
            digit((n / 100) as nat),
            digit((n / 10 % 10) as nat),
            digit((n % 10) as nat),
        ],
        1 <= digits(n as nat).len() <= 3,
        forall|i: int| 0 <= i < digits(n as nat).len() ==> is_digit(#[trigger] digits(n as nat)[i]),
{
    reveal_with_fuel(digits, 3);
}

/// The digit at `i`, where there is one.
fn digit_at(s: &str, i: usize) -> (found: Option<u8>)
    requires
        i <= s@.len(),
    ensures
        found matches Some(d) ==> i < s@.len() && d < 10 && s@[i as int] == digit(d as nat)
            && is_digit(s@[i as int]),
        found is None ==> i == s@.len() || !is_digit(s@[i as int]),
{
    if i == s.unicode_len() {
        return None;
    }
    let c: char = s.get_char(i);
    if '0' <= c && c <= '9' {
        Some((c as u32 - 48) as u8)
    } else {
        None
    }
}

/// Two numbers up to 255 that start at the same place, with no digit after
/// them, are the same number and end at the same place.
proof fn octet_is_unique(s: Seq<char>, i: int, m: u8, j: int, n: u8, k: int)
    requires
        0 <= i <= j <= s.len(),
        i <= k <= s.len(),
        s.subrange(i, j) == digits(m as nat),
        s.subrange(i, k) == digits(n as nat),
        j < s.len() ==> !is_digit(s[j]),
        k < s.len() ==> !is_digit(s[k]),
    ensures
        m == n,
        j == k,
{
    octet_digits(m);
    octet_digits(n);
    if j < k {
        assert(s[j] == s.subrange(i, k)[j - i]);
    } else if k < j {
        assert(s[k] == s.subrange(i, j)[k - i]);
    }
    let x = digits(m as nat);
    let y = digits(n as nat);
    assert(x == y);
    assert(x[0] == y[0]);
    if x.len() == 2 {
        assert(x[1] == y[1]);
    } else if x.len() == 3 {
        assert(x[1] == y[1]);
        assert(x[2] == y[2]);
    }
}

/// Reads a number up to 255 at `i`, with no digit after it and no leading zero.
fn octet(s: &str, i: usize) -> (found: Option<(u8, usize)>)
    requires
        i <= s@.len(),
    ensures
        found matches Some((n, j)) ==> i < j <= s@.len() && s@.subrange(i as int, j as int)
            == digits(n as nat) && (j < s@.len() ==> !is_digit(s@[j as int])),
        found is None ==> forall|n: u8, j: int|
            i <= j <= s@.len() && (j < s@.len() ==> !is_digit(s@[j])) ==> #[trigger] s@.subrange(
                i as int,
                j,
            ) != #[trigger] digits(n as nat),
{
    proof {
        assert forall|n: u8, j: int|
            i <= j <= s@.len() && #[trigger] s@.subrange(i as int, j) == #[trigger] digits(
                n as nat,
            ) implies {
            &&& i < j <= i + 3
            &&& forall|k: int| i <= k < j ==> is_digit(#[trigger] s@[k])
            &&& s@[i as int] == digit(0) ==> j == i + 1
        } by {
            octet_digits(n);
            let t = s@.subrange(i as int, j);
            assert forall|k: int| i <= k < j implies is_digit(#[trigger] s@[k]) by {
                assert(t[k - i] == s@[k]);
            }
            assert(t[0] == s@[i as int]);
        }
    }
    let len: usize = s.unicode_len();
    assert(s@.len() == len);
    let x: u8 = match digit_at(s, i) {
        Some(x) => x,
        None => return None,
    };
    let y: u8 = match digit_at(s, i + 1) {
        Some(y) => y,
        None => {
            proof {
                octet_digits(x);
            }
            assert(s@.subrange(i as int, i + 1) =~= digits(x as nat));
            return Some((x, i + 1));
        },
    };
    if x == 0 {
        return None;
    }
    let z: u8 = match digit_at(s, i + 2) {
        Some(z) => z,
        None => {
            let n: u8 = 10 * x + y;
            proof {
                octet_digits(n);
            }
            assert(s@.subrange(i as int, i + 2) =~= digits(n as nat));
            return Some((n, i + 2));
        },
    };
    let n: u32 = 100 * (x as u32) + 10 * (y as u32) + z as u32;
    if n > 255 || digit_at(s, i + 3).is_some() {
        proof {
            if n > 255 {
                assert forall|m: u8, j: int|
                    i <= j <= s@.len() && (j < s@.len() ==> !is_digit(s@[j])) implies #[trigger] s@.subrange(
                    i as int,
                    j,
                ) != #[trigger] digits(m as nat) by {
                    if s@.subrange(i as int, j) == digits(m as nat) {
                        octet_digits(m);
                        let t = s@.subrange(i as int, j);
                        assert(j == i + 3);
                        assert(t[0] == s@[i as int] && t[1] == s@[i + 1] && t[2] == s@[i + 2]);
                    }
                }
            }
        }
        return None;
    }
    let n: u8 = n as u8;
    proof {
        octet_digits(n);
    }
    assert(s@.subrange(i as int, i + 3) =~= digits(n as nat));
    Some((n, i + 3))
}

/// Where an address starts with a number and goes on with `tail`, that number
/// is what is read.
proof fn octet_of(s: Seq<char>, i: int, n: u8, tail: Seq<char>)
    requires
        0 <= i <= s.len(),
        s.skip(i) == digits(n as nat) + tail,
        tail.len() > 0 ==> !is_digit(tail[0]),
    ensures
        ({
            let j = i + digits(n as nat).len();
            &&& i < j <= s.len()
            &&& s.subrange(i, j) == digits(n as nat)
            &&& s.skip(j) == tail
            &&& j < s.len() ==> !is_digit(s[j])
        }),
{
    octet_digits(n);
    let j = i + digits(n as nat).len();
    assert(s.subrange(i, j) =~= s.skip(i).take(j - i));
    assert(s.skip(i).take(j - i) =~= digits(n as nat));
    assert(s.skip(j) =~= s.skip(i).skip(j - i));
    assert(s.skip(i).skip(j - i) =~= tail);
    if j < s.len() {
        assert(s[j] == s.skip(j)[0]);
    }
}

/// Reads a number up to 255 and the dot after it, at `i`.
fn octet_and_dot(s: &str, i: usize) -> (found: Option<(u8, usize)>)
    requires
        i <= s@.len(),
    ensures
        found matches Some((n, j)) ==> i < j <= s@.len() && s@.skip(i as int) == digits(n as nat) + (
        seq!['.'] + s@.skip(j as int)),
        found matches Some((n, j)) ==> forall|m: u8, tail: Seq<char>|
            s@.skip(i as int) == #[trigger] (digits(m as nat) + (seq!['.'] + tail)) ==> m == n
                && tail == s@.skip(j as int),
        found is None ==> forall|m: u8, tail: Seq<char>|
            s@.skip(i as int) != #[trigger] (digits(m as nat) + (seq!['.'] + tail)),
{
    proof {
        assert forall|m: u8, tail: Seq<char>|
            s@.skip(i as int) == #[trigger] (digits(m as nat) + (seq!['.'] + tail)) implies {
            let k = i + digits(m as nat).len();
            &&& i < k < s@.len()
            &&& s@.subrange(i as int, k) == digits(m as nat)
            &&& s@.skip(k) == seq!['.'] + tail
            &&& s@[k] == '.'
        } by {
            octet_of(s@, i as int, m, seq!['.'] + tail);
            let k = i + digits(m as nat).len();
            assert(s@.skip(k)[0] == '.');
        }
    }
    let len: usize = s.unicode_len();
    match octet(s, i) {
        Some((n, j)) => {
            proof {
                assert forall|m: u8, tail: Seq<char>|
                    s@.skip(i as int) == #[trigger] (digits(m as nat) + (seq!['.'] + tail)) implies m
                    == n && j < s@.len() && s@[j as int] == '.' && tail == s@.skip(j + 1) by {
                    let k = i + digits(m as nat).len();
                    octet_is_unique(s@, i as int, m, k, n, j as int);
                    assert(tail =~= (seq!['.'] + tail).skip(1));
                    assert(s@.skip(k).skip(1) =~= s@.skip(k + 1));
                }
            }
            if j < len && s.get_char(j) == '.' {
                assert(s@.skip(i as int) =~= s@.subrange(i as int, j as int) + (seq!['.'] + s@.skip(
                    j + 1,
                )));
                Some((n, j + 1))
            } else {
                None
            }
        },
        None => None,
    }
}

/// Reads a number up to 255 at `i`, with nothing after it.
fn last_octet(s: &str, i: usize) -> (found: Option<u8>)
    requires
        i <= s@.len(),
    ensures
        found matches Some(n) ==> s@.skip(i as int) == digits(n as nat),
        found is None ==> forall|m: u8| s@.skip(i as int) != #[trigger] digits(m as nat),
{
    let len: usize = s.unicode_len();
    proof {
        assert(s@.skip(i as int) =~= s@.subrange(i as int, s@.len() as int));
    }
    match octet(s, i) {
        Some((n, j)) => {
            if j == len {
                Some(n)
            } else {
                proof {
                    assert forall|m: u8| s@.skip(i as int) != #[trigger] digits(m as nat) by {
                        if s@.skip(i as int) == digits(m as nat) {
                            octet_is_unique(s@, i as int, m, s@.len() as int, n, j as int);
                        }
                    }
                }
                None
            }
        },
        None => {
            proof {
                assert forall|m: u8| s@.skip(i as int) != #[trigger] digits(m as nat) by {
                    assert(s@.subrange(i as int, s@.len() as int) != digits(m as nat));
                }
            }
            None
        },
    }
}

/// What follows the first dot of an address, the second and the third.
spec fn after_a(ip: Ipv4) -> Seq<char> {
    digits(ip.b as nat) + (seq!['.'] + after_b(ip))
}

spec fn after_b(ip: Ipv4) -> Seq<char> {
    digits(ip.c as nat) + (seq!['.'] + after_c(ip))
}

spec fn after_c(ip: Ipv4) -> Seq<char> {
    digits(ip.d as nat)
}

proof fn dotted_parts(ip: Ipv4)
    ensures
        dotted(ip) == digits(ip.a as nat) + (seq!['.'] + after_a(ip)),
{
    assert(dotted(ip) =~= digits(ip.a as nat) + (seq!['.'] + after_a(ip)));
}

/// Parses a literal IPv4 address: four numbers up to 255 in decimal, with dots
/// between them and nothing around them.
pub fn parse_ipv4(s: &str) -> (found: Option<Ipv4>)
    ensures
        found matches Some(ip) ==> s@ == dotted(ip),
        found is None ==> forall|ip: Ipv4| s@ != #[trigger] dotted(ip),
{
    proof {
        assert(s@.skip(0) =~= s@);
        assert forall|ip: Ipv4| #[trigger] dotted(ip) == digits(ip.a as nat) + (seq!['.'] + after_a(
            ip,
        )) by {
            dotted_parts(ip);
        }
    }
    let (a, i): (u8, usize) = match octet_and_dot(s, 0) {
        Some(part) => part,
        None => return None,
    };
    let (b, j): (u8, usize) = match octet_and_dot(s, i) {
        Some(part) => part,
        None => return None,
    };
    let (c, k): (u8, usize) = match octet_and_dot(s, j) {
        Some(part) => part,
        None => return None,
    };
    match last_octet(s, k) {
        Some(d) => {
            let ip = Ipv4 { a, b, c, d };
            assert(s@ == dotted(ip));
            Some(ip)
        },
        None => None,
    }
}

/// Take the first line of `tailscale ip -4` output as a literal IPv4 address.
/// Parsing rather than string-pasting keeps anything odd (a hostname, an error
/// banner, several addresses) from reaching the listener as something that
/// would be resolved or bound.
pub fn parse_tailscale_ip(output: &str) -> (found: Option<Ipv4>)
    ensures
        found matches Some(ip) ==> trimmed(top_line(output@)) == dotted(ip),
        found is None ==> forall|ip: Ipv4| trimmed(top_line(output@)) != #[trigger] dotted(ip),
{
    parse_ipv4(trim(first_line(output)))
}

/// No two numbers up to 255 have the same digits.
proof fn same_digits(m: u8, n: u8)
    requires
        digits(m as nat) == digits(n as nat),
    ensures
        m == n,
{
    let s = digits(m as nat);
    assert(s.subrange(0, s.len() as int) =~= s);
    octet_is_unique(s, 0, m, s.len() as int, n, s.len() as int);
}

/// A number and the dot after it are read in one way only.
proof fn one_way_to_read(m: u8, x: Seq<char>, n: u8, y: Seq<char>)
    requires
        digits(m as nat) + (seq!['.'] + x) == digits(n as nat) + (seq!['.'] + y),
    ensures
        m == n,
        x == y,
{
    let s = digits(m as nat) + (seq!['.'] + x);
    assert(s.skip(0) =~= s);
    octet_of(s, 0, m, seq!['.'] + x);
    octet_of(s, 0, n, seq!['.'] + y);
    octet_is_unique(s, 0, m, digits(m as nat).len() as int, n, digits(n as nat).len() as int);
    assert((seq!['.'] + x).skip(1) =~= x);
    assert((seq!['.'] + y).skip(1) =~= y);
}

/// No two addresses are written the same, so an address that is read is the
/// one that was written.
pub proof fn addresses_are_written_once(x: Ipv4, y: Ipv4)
    requires
        dotted(x) == dotted(y),
    ensures
        x == y,
{
    dotted_parts(x);
    dotted_parts(y);
    one_way_to_read(x.a, after_a(x), y.a, after_a(y));
    one_way_to_read(x.b, after_b(x), y.b, after_b(y));
    one_way_to_read(x.c, after_c(x), y.c, after_c(y));
    same_digits(x.d, y.d);
}

/// What the machine answers when it is asked for its address: the outcome of
/// one run of `tailscale ip -4`, which is worth another try where it failed or
/// printed no usable address.
pub fn tailscale_answer(succeeded: bool, output: &str) -> (found: Option<Ipv4>)
    ensures
        found matches Some(ip) ==> succeeded && trimmed(top_line(output@)) == dotted(ip),
        found is None ==> !succeeded || forall|ip: Ipv4|
            trimmed(top_line(output@)) != #[trigger] dotted(ip),
{
    if succeeded {
        parse_tailscale_ip(output)
    } else {
        None
    }
}

/// The name that a host goes by: what was found, without the white space around
/// it, or `unknown` where that comes to nothing.
pub open spec fn host_name(from_file: Option<Seq<char>>, from_uname: Option<Seq<char>>) -> Seq<
    char,
> {
    let found = match from_file {
        Some(s) => trimmed(s),
        None => match from_uname {
            Some(s) => trimmed(s),
            None => Seq::empty(),
        },
    };
    if found.len() == 0 {
        "unknown"@
    } else {
        found
    }
}

pub open spec fn str_view(s: Option<&str>) -> Option<Seq<char>> {
    match s {
        Some(t) => Some(t@),
        None => None,
    }
}

/// The host's name, from the hostname file or else from `uname`. Only feeds the
/// version tiebreaker, so a miss is harmless.
pub fn hostname(from_file: Option<&str>, from_uname: Option<&str>) -> (name: String)
    ensures
        name@ == host_name(str_view(from_file), str_view(from_uname)),
        name@.len() > 0,
{
    proof {
        reveal_strlit("unknown");
    }
    let found: &str = match from_file {
        Some(s) => trim(s),
        None => match from_uname {
            Some(s) => trim(s),
            None => return "unknown".to_owned(),
        },
    };
    if found.is_empty() {
        "unknown".to_owned()
    } else {
        found.to_owned()
    }
}

/// Where a file is to be: a path below a directory.
#[derive(Debug)]
pub struct Place {
    pub dir: PathBuf,
    pub below: &'static str,
}

/// `$XDG_RUNTIME_DIR/themed.sock`, or a temp-dir fallback (macOS has no
/// `XDG_RUNTIME_DIR`); the fleet passes `--socket` explicitly anyway.
pub fn default_socket(runtime_dir: Option<PathBuf>, temp_dir: PathBuf) -> (place: Place)
    ensures
        place.dir == (match runtime_dir {
            Some(dir) => dir,
            None => temp_dir,
        }),
        place.below@ == "themed.sock"@,
{
    let dir: PathBuf = match runtime_dir {
        Some(dir) => dir,
        None => temp_dir,
    };
    Place { dir, below: "themed.sock" }
}

/// `$XDG_STATE_HOME/themed/state.json`, falling back to `~/.local/state`, and
/// then to the directory for temporary files.
pub fn default_state_file(
    state_home: Option<PathBuf>,
    home: Option<PathBuf>,
    temp_dir: PathBuf,
) -> (place: Place)
    ensures
        state_home matches Some(dir) ==> place.dir == dir && place.below@ == "themed/state.json"@,
        state_home is None ==> (home matches Some(dir) ==> place.dir == dir && place.below@
            == ".local/state/themed/state.json"@),
        state_home is None && home is None ==> place.dir == temp_dir && place.below@
            == "themed/state.json"@,
{
    match state_home {
        Some(dir) => Place { dir, below: "themed/state.json" },
        None => match home {
            Some(dir) => Place { dir, below: ".local/state/themed/state.json" },
            None => Place { dir: temp_dir, below: "themed/state.json" },
        },
    }
}

fn digit_str(d: u64) -> (s: &'static str)
    requires
        d < 10,
    ensures
        s@ == seq![digit(d as nat)],
{
    proof {
        reveal_strlit("0");
        reveal_strlit("1");
        reveal_strlit("2");
        reveal_strlit("3");
        reveal_strlit("4");
        reveal_strlit("5");
        reveal_strlit("6");
        reveal_strlit("7");
        reveal_strlit("8");
        reveal_strlit("9");
    }
    let s: &'static str = match d {
        0 => "0",
        1 => "1",
        2 => "2",
        3 => "3",
        4 => "4",
        5 => "5",
        6 => "6",
        7 => "7",
        8 => "8",
        _ => "9",
    };
    assert(s@ =~= seq![digit(d as nat)]);
    s
}

fn push_digits(out: &mut String, n: u64)
    ensures
        final(out)@ == old(out)@ + digits(n as nat),
    decreases n,
{
    if n >= 10 {
        push_digits(out, n / 10);
    }
    out.append(digit_str(n % 10));
    assert(out@ =~= old(out)@ + digits(n as nat));
}

/// An address and port, as the listener takes it.
pub open spec fn address(ip: Ipv4, port: u16) -> Seq<char> {
    dotted(ip) + seq![':'] + digits(port as nat)
}

/// The address to listen on at this host.
pub fn listen_at(ip: Ipv4, port: u16) -> (listen: String)
    ensures
        listen@ == address(ip, port),
{
    proof {
        reveal_strlit(".");
        reveal_strlit(":");
    }
    let mut listen: String = String::new();
    push_digits(&mut listen, ip.a as u64);
    listen.append(".");
    push_digits(&mut listen, ip.b as u64);
    listen.append(".");
    push_digits(&mut listen, ip.c as u64);
    listen.append(".");
    push_digits(&mut listen, ip.d as u64);
    listen.append(":");
    push_digits(&mut listen, port as u64);
    assert(listen@ =~= address(ip, port));
    listen
}

/// What the machine was found to be, for the flags that were not given. The
/// address is asked for only where no listener address is given, and then
/// until there is one.
#[derive(Debug)]
pub struct Machine {
    pub hostname: String,
    pub address: Option<Ipv4>,
    pub state_file: PathBuf,
}

/// The configuration that the flags and the machine add up to: a flag that is
/// given wins. There is none yet where the listener address is neither given
/// nor found.
pub fn run_daemon(args: DaemonArgs, socket: PathBuf, machine: Machine) -> (cfg: Option<Config>)
    ensures
        cfg is None <==> args.listen is None && machine.address is None,
        cfg matches Some(c) ==> {
            &&& c.self_name == (match args.self_name {
                Some(name) => name,
                None => machine.hostname,
            })
            &&& args.listen matches Some(listen) ==> c.listen == listen
            &&& args.listen is None ==> c.listen@ == address(machine.address->0, DEFAULT_PORT)
            &&& args.listen is None ==> c.listen@ == dotted(machine.address->0) + seq![':']
                + digits(47100)
            &&& c.state_file == (match args.state_file {
                Some(path) => path,
                None => machine.state_file,
            })
            &&& c.socket == socket
            &&& c.reconcile_cmd == args.reconcile_cmd
            &&& c.peers == args.peers
        },
{
    let listen: String = match args.listen {
        Some(listen) => listen,
        None => match machine.address {
            Some(ip) => listen_at(ip, DEFAULT_PORT),
            None => return None,
        },
    };
    let self_name: String = match args.self_name {
        Some(name) => name,
        None => machine.hostname,
    };
    let state_file: PathBuf = match args.state_file {
        Some(path) => path,
        None => machine.state_file,
    };
    Some(
        Config {
            self_name,
            listen,
            state_file,
            socket,
            reconcile_cmd: args.reconcile_cmd,
            peers: args.peers,
        },
    )
}

/// A payload that is not a single JSON value, and what is wrong with it.
#[derive(Debug)]
pub struct InvalidBlob {
    pub error: serde_json::Error,
}

/// Reads the theme blob given on the command line: a single JSON value.
pub fn parse_blob(text: &str) -> (blob: Result<Json, InvalidBlob>)
    ensures
        blob matches Ok(b) ==> json::json_compact(vstd::utf8::encode_utf8(text@)) == Some(b@),
        blob is Err <==> json::json_compact(vstd::utf8::encode_utf8(text@)) is None,
{
    match Json::parse(text.as_bytes()) {
        Ok(blob) => Ok(blob),
        Err(error) => Err(InvalidBlob { error }),
    }
}

} // verus!
