//! Range fetching decisions: the header value that asks for one byte range,
//! and the judgement of the server's answer — only a partial-content status
//! is accepted, never a generic success that ignored the range.

use vstd::prelude::*;
use crate::ranges::ByteRange;

verus! {

/// The one response status that says the server honored a byte-range
/// request.
pub const PARTIAL_CONTENT: u16 = 206;

/// The decimal ASCII digits of `n`, most significant first.
pub open spec fn dec_digits(n: nat) -> Seq<u8>
    decreases n,
{
    if n < 10 {
        seq![(48 + n) as u8]
    } else {
        dec_digits(n / 10).push((48 + n % 10) as u8)
    }
}

/// Render `n` in decimal ASCII.
pub fn decimal_bytes(n: u64) -> (r: Vec<u8>)
    ensures
        r@ == dec_digits(n as nat),
    decreases n,
{
    if n < 10 {
        let mut r: Vec<u8> = Vec::new();
        r.push(48 + n as u8);
        r
    } else {
        let mut r = decimal_bytes(n / 10);
        r.push(48 + (n % 10) as u8);
        r
    }
}

/// The value of a range-request header asking for the inclusive byte span
/// `start` through `last`: the ASCII bytes of `bytes=`, then the two
/// bounds in decimal with `-` between them.
pub open spec fn range_header_spec(start: nat, last: nat) -> Seq<u8> {
    seq![98u8, 121u8, 116u8, 101u8, 115u8, 61u8] + dec_digits(start) + seq![45u8] + dec_digits(
        last,
    )
}

/// Render the range-request header value for a half-open range: the
/// inclusive upper bound is `end - 1`.
pub fn range_header_value(range: &ByteRange) -> (r: Vec<u8>)
    requires
        range.start < range.end,
    ensures
        r@ == range_header_spec(range.start as nat, (range.end - 1) as nat),
{
    let mut r: Vec<u8> = vec![98u8, 121u8, 116u8, 101u8, 115u8, 61u8];
    let mut start_digits = decimal_bytes(range.start as u64);
    r.append(&mut start_digits);
    r.push(45u8);
    let mut last_digits = decimal_bytes((range.end - 1) as u64);
    r.append(&mut last_digits);
    proof {
        assert(r@ =~= range_header_spec(range.start as nat, (range.end - 1) as nat));
    }
    r
}

/// Judge one range fetch: the body counts only when the server answered
/// with the partial-content status; any other status — a generic success
/// included — makes this range's fetch a failure.
pub fn range_fetch_outcome(status: u16, body: Vec<u8>) -> (r: Option<Vec<u8>>)
    ensures
        status == PARTIAL_CONTENT ==> (r matches Some(b) && b@ == body@),
        status != PARTIAL_CONTENT ==> r is None,
{
    if status == PARTIAL_CONTENT {
        Some(body)
    } else {
        None
    }
}

} // verus!
