use vstd::prelude::*;

verus! {

/// A timestamp the log can render: a Unix time between the epoch and the far
/// end of the four-digit-year range, nanoseconds below one second, and a
/// whole-minute timezone offset no larger than 23:59 either way.  Within
/// these bounds the RFC 3339 rendering always succeeds.
pub open spec fn ts_valid(secs: int, nanos: int, tz: int) -> bool {
    &&& 0 <= secs <= 250_000_000_000
    &&& 0 <= nanos < 1_000_000_000
    &&& -86340 <= tz <= 86340
    &&& tz % 60 == 0
}

/// The RFC 3339 rendering of a timestamp, adjusted to a timezone offset.  It
/// depends on nothing but its three arguments.
pub uninterp spec fn rfc3339_of(secs: int, nanos: int, tz: int) -> Seq<u8>;

/// Exec check of `ts_valid`, for callers that receive a clock reading.
pub fn ts_valid_check(secs: i64, nanos: u32, tz: i32) -> (r: bool)
    ensures
        r == ts_valid(secs as int, nanos as int, tz as int),
{
    0 <= secs && secs <= 250_000_000_000 && nanos < 1_000_000_000 && -86340 <= tz && tz <= 86340
        && tz % 60 == 0
}

/// Relies on time::OffsetDateTime::format with the well-known RFC 3339
/// description, after time::OffsetDateTime::from_unix_timestamp_nanos and a
/// time::UtcOffset::from_whole_seconds adjustment: the rendering is a pure
/// function of the timestamp and the offset, and within `ts_valid` the
/// timestamp is in the supported range, the adjusted year stays within
/// `0..10000`, and the offset has whole minutes, so every step succeeds.
#[verifier::external_body]
pub fn rfc3339_render(secs: i64, nanos: u32, tz: i32) -> (r: Vec<u8>)
    requires
        ts_valid(secs as int, nanos as int, tz as int),
    ensures
        r@ == rfc3339_of(secs as int, nanos as int, tz as int),
{
    let total = (secs as i128) * 1_000_000_000 + (nanos as i128);
    let dt = time::OffsetDateTime::from_unix_timestamp_nanos(total).expect("timestamp in range");
    let off = time::UtcOffset::from_whole_seconds(tz).expect("offset in range");
    let s = dt
        .to_offset(off)
        .format(&time::format_description::well_known::Rfc3339)
        .expect("timestamp renderable");
    s.into_bytes()
}

} // verus!
