//! Version tokens: what a local set is stamped with.

use vstd::prelude::*;
use vstd::utf8::*;

use crate::proto::Version;

verus! {

/// The wall clock of `std`, carried as it comes.
#[verifier::external_type_specification]
#[verifier::external_body]
pub struct ExSystemTime(std::time::SystemTime);

/// Calls `std::time::SystemTime::now`. Nothing is claimed of the time that it
/// gives.
#[verifier::external_body]
pub(crate) fn now() -> std::time::SystemTime {
    std::time::SystemTime::now()
}

/// Calls `std::time::SystemTime::duration_since` on the Unix epoch, and hands the
/// duration on in nanoseconds; nothing where the time lies before the epoch.
/// Nothing is claimed of the number.
#[verifier::external_body]
pub(crate) fn since_epoch(time: std::time::SystemTime) -> Option<u128> {
    time.duration_since(std::time::UNIX_EPOCH).ok().map(|d| d.as_nanos())
}

/// Whether this is a reading of the wall clock: the time that it told, counted
/// from the Unix epoch.
pub closed spec fn is_reading(nanos: Option<u128>) -> bool {
    exists|time: std::time::SystemTime|
        #[trigger] call_ensures(now, (), time) && call_ensures(since_epoch, (time,), nanos)
}

/// A reading is what counting from the epoch gave for a time that the wall clock
/// told.
pub(crate) proof fn readings_come_from_the_clock(nanos: Option<u128>)
    requires
        is_reading(nanos),
    ensures
        exists|time: std::time::SystemTime|
            #[trigger] call_ensures(now, (), time) && call_ensures(since_epoch, (time,), nanos),
{
}

/// Reads the clock: nanoseconds since the Unix epoch, or nothing where the
/// clock stands before it.
pub fn clock() -> (nanos: Option<u128>)
    ensures
        is_reading(nanos),
{
    since_epoch(now())
}

/// The FNV-1a hash of some bytes.
pub open spec fn fnv1a(bytes: Seq<u8>) -> u64
    decreases bytes.len(),
{
    if bytes.len() == 0 {
        0xcbf29ce484222325u64
    } else {
        (fnv1a(bytes.drop_last()) ^ (bytes.last() as u64)).wrapping_mul(0x100000001b3u64)
    }
}

/// The tiebreaker of a host: the low byte of the hash of its name.
pub open spec fn tiebreak_of(name: Seq<char>) -> Version {
    fnv1a(encode_utf8(name)) & 0xff
}

/// The hash starts from the offset basis, and each byte is mixed in before the
/// product with the prime; the tiebreaker is the low byte of it.
pub proof fn tiebreaks_hash_byte_by_byte(name: Seq<char>, bytes: Seq<u8>, b: u8)
    ensures
        fnv1a(Seq::empty()) == 0xcbf29ce484222325u64,
        fnv1a(bytes.push(b)) == (fnv1a(bytes) ^ (b as u64)).wrapping_mul(0x100000001b3u64),
        tiebreak_of(name) == fnv1a(encode_utf8(name)) & 0xff,
        tiebreak_of(name) <= 0xff,
{
    assert(bytes.push(b).drop_last() =~= bytes);
    let hash = fnv1a(encode_utf8(name));
    assert(hash & 0xff <= 0xff) by (bit_vector);
}

/// FNV-1a, truncated: only needs to differ between fleet members.
pub fn tiebreak(name: &str) -> (low: Version)
    ensures
        low == tiebreak_of(name@),
        low == fnv1a(encode_utf8(name@)) & 0xff,
        low <= 0xff,
{
    let bytes: &[u8] = name.as_bytes();
    let mut hash: u64 = 0xcbf29ce484222325;
    let mut i: usize = 0;
    assert(bytes@.take(0) =~= Seq::empty());
    while i < bytes.len()
        invariant
            i <= bytes@.len(),
            hash == fnv1a(bytes@.take(i as int)),
        decreases bytes@.len() - i,
    {
        assert(bytes@.take(i + 1).drop_last() =~= bytes@.take(i as int));
        hash = (hash ^ (bytes[i] as u64)).wrapping_mul(0x100000001b3);
        i = i + 1;
    }
    assert(bytes@.take(bytes@.len() as int) =~= bytes@);
    assert(hash & 0xff <= 0xff) by (bit_vector);
    hash & 0xff
}

/// The clock as a version counts it: whole nanoseconds in 64 bits, and zero
/// before the epoch.
pub open spec fn ticks(clock: Option<u128>) -> u64 {
    match clock {
        Some(nanos) => (nanos % 0x1_0000_0000_0000_0000) as u64,
        None => 0,
    }
}

/// A clock reading with its low byte given up to the host's tiebreaker.
pub open spec fn stamp(clock: Option<u128>, tiebreak: Version) -> Version {
    (ticks(clock) & !0xffu64) | tiebreak
}

/// The version of a local set: the stamp of the clock, or the one right after
/// `prev` where the stamp does not pass it. Past the last version there is none,
/// and the last one stands.
pub open spec fn version_after(
    clock: Option<u128>,
    tiebreak: Version,
    prev: Version,
) -> Version {
    let stamped = stamp(clock, tiebreak);
    if stamped > prev {
        stamped
    } else if prev < u64::MAX {
        (prev + 1) as u64
    } else {
        u64::MAX
    }
}

/// Wall-clock ns, truncated to make room for the host tiebreaker, and forced
/// past `prev` so a local set always wins locally even under skew.
pub fn next_version(clock: Option<u128>, tiebreak: Version, prev: Version) -> (next: Version)
    ensures
        next == version_after(clock, tiebreak, prev),
        prev < u64::MAX ==> next > prev,
        ({
            let now: u64 = match clock {
                Some(nanos) => (nanos % 0x1_0000_0000_0000_0000) as u64,
                None => 0,
            };
            let stamped: u64 = (now & !0xffu64) | tiebreak;
            &&& stamped > prev ==> next == stamped
            &&& stamped <= prev < u64::MAX ==> next == prev + 1
            &&& prev == u64::MAX ==> next == u64::MAX
        }),
{
    let now: u64 = match clock {
        Some(nanos) => (nanos % 0x1_0000_0000_0000_0000) as u64,
        None => 0,
    };
    let stamped: u64 = (now & !0xffu64) | tiebreak;
    if stamped > prev {
        stamped
    } else {
        prev.saturating_add(1)
    }
}

/// A version is the clock with the host's tiebreaker for its low byte wherever
/// that passes the version before, and the next number where it does not: the
/// clock decides, and is only ever pushed forward.
pub proof fn versions_are_stamped(clock: Option<u128>, tiebreak: Version, prev: Version)
    ensures
        ({
            let now: u64 = match clock {
                Some(nanos) => (nanos % 0x1_0000_0000_0000_0000) as u64,
                None => 0,
            };
            let stamped: u64 = (now & !0xffu64) | tiebreak;
            let next = version_after(clock, tiebreak, prev);
            &&& stamp(clock, tiebreak) == stamped
            &&& stamped > prev ==> next == stamped
            &&& stamped <= prev < u64::MAX ==> next == prev + 1
            &&& prev == u64::MAX ==> next == u64::MAX
        }),
{
}

/// A stamp carries its host's tiebreaker in the low byte and the clock in the
/// rest.
pub proof fn stamp_parts(clock: Option<u128>, tiebreak: Version)
    requires
        tiebreak <= 0xff,
    ensures
        stamp(clock, tiebreak) & 0xff == tiebreak,
        stamp(clock, tiebreak) & !0xffu64 == ticks(clock) & !0xffu64,
        clock matches Some(nanos) ==> (nanos <= u64::MAX ==> ticks(clock) == nanos),
{
    let now = ticks(clock);
    assert(((now & !0xffu64) | tiebreak) & 0xff == tiebreak) by (bit_vector)
        requires
            tiebreak <= 0xff,
    ;
    assert(((now & !0xffu64) | tiebreak) & !0xffu64 == now & !0xffu64) by (bit_vector)
        requires
            tiebreak <= 0xff,
    ;
}

/// Two hosts whose tiebreakers differ never stamp the same version, not even at
/// the same instant.
pub proof fn stamps_never_tie(
    a: Option<u128>,
    tiebreak_a: Version,
    b: Option<u128>,
    tiebreak_b: Version,
)
    requires
        tiebreak_a <= 0xff,
        tiebreak_b <= 0xff,
        tiebreak_a != tiebreak_b,
    ensures
        stamp(a, tiebreak_a) != stamp(b, tiebreak_b),
{
    stamp_parts(a, tiebreak_a);
    stamp_parts(b, tiebreak_b);
}

/// The later of two clock readings is stamped higher, once they lie a low
/// byte's worth of nanoseconds apart, whichever hosts took them.
pub proof fn stamps_follow_the_clock(
    earlier: u128,
    tiebreak_a: Version,
    later: u128,
    tiebreak_b: Version,
)
    requires
        tiebreak_a <= 0xff,
        tiebreak_b <= 0xff,
        later <= u64::MAX,
        earlier + 0x100 <= later,
    ensures
        stamp(Some(earlier), tiebreak_a) < stamp(Some(later), tiebreak_b),
{
    let x = ticks(Some(earlier));
    let y = ticks(Some(later));
    assert(x == earlier && y == later);
    assert(x <= 0xffff_ffff_ffff_feffu64);
    assert(((x & !0xffu64) | tiebreak_a) < ((y & !0xffu64) | tiebreak_b)) by (bit_vector)
        requires
            tiebreak_a <= 0xff,
            tiebreak_b <= 0xff,
            x <= 0xffff_ffff_ffff_feffu64,
            x + 0x100 <= y,
    ;
}

} // verus!
