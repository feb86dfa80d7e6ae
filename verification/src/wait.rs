//! Reading the status word that `wait` reports for a child process.

use vstd::prelude::*;
use crate::text::{dec_int, push_dec_i64, push_str};

verus! {

/// The three fields of a status word: the exit value (bits 8 to 15), the
/// signal number (bits 0 to 6) and the core-dump flag (bit 7).
pub fn decode_status(status: i32) -> (r: (i32, i32, i32))
    ensures
        r.0 == (status >> 8) & 0xFF,
        r.1 == status & 0x7F,
        r.2 == (status & 0x80) >> 7,
        0 <= r.0 < 256,
        0 <= r.1 < 128,
        0 <= r.2 < 2,
{
    let high_8 = (status >> 8) & 0xFF;
    let low_7 = status & 0x7F;
    let bit_7 = (status & 0x80) >> 7;
    assert(0 <= (status >> 8) & 0xFF < 256) by (bit_vector);
    assert(0 <= status & 0x7F < 128) by (bit_vector);
    assert(0 <= (status & 0x80) >> 7 < 2) by (bit_vector);
    (high_8, low_7, bit_7)
}

/// The fields put back together give the low 16 bits of the status word.
pub proof fn law_status_fields_recompose(status: i32)
    ensures
        ((status >> 8) & 0xFF) * 256 + ((status & 0x80) >> 7) * 128 + (status & 0x7F) == status
            & 0xFFFF,
{
    assert(((status >> 8) & 0xFF) * 256 + ((status & 0x80) >> 7) * 128 + (status & 0x7F)
        == status & 0xFFFF) by (bit_vector);
}

/// What the shell makes of a finished command's status: its exit value
/// when it exited normally (no signal in the low seven bits), else -1.
pub fn command_result(status: i32) -> (r: i32)
    ensures
        r == if status & 0x7F == 0 {
            (status >> 8) & 0xFF
        } else {
            -1i32
        },
{
    let (exit, sig, _) = decode_status(status);
    if sig == 0 {
        exit
    } else {
        -1
    }
}

/// The two lines the parent prints about its child's status.
pub fn status_report(childpid: i32, status: i32) -> (r: Vec<String>)
    ensures
        r.len() == 2,
        r@[0]@ == "done waiting for "@ + dec_int(childpid as int) + ". Wait returned: "@ + dec_int(
            status as int,
        ),
        r@[1]@ == "status: exit="@ + dec_int(((status >> 8) & 0xFF) as int) + ", sig="@ + dec_int(
            (status & 0x7F) as int,
        ) + ", core="@ + dec_int(((status & 0x80) >> 7) as int),
{
    let (high_8, low_7, bit_7) = decode_status(status);
    let mut a = String::new();
    push_str(&mut a, "done waiting for ");
    push_dec_i64(&mut a, childpid as i64);
    push_str(&mut a, ". Wait returned: ");
    push_dec_i64(&mut a, status as i64);
    let mut b = String::new();
    push_str(&mut b, "status: exit=");
    push_dec_i64(&mut b, high_8 as i64);
    push_str(&mut b, ", sig=");
    push_dec_i64(&mut b, low_7 as i64);
    push_str(&mut b, ", core=");
    push_dec_i64(&mut b, bit_7 as i64);
    let mut out: Vec<String> = Vec::new();
    out.push(a);
    out.push(b);
    out
}

} // verus!
