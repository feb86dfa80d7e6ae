//! The terminal-settings printer: baud rate names, control characters and
//! the on/off state of terminal flags.

use vstd::prelude::*;
use crate::text::{dec_nat, push_char, push_dec_u64, push_str};

verus! {

/// Output speed 300 baud (`B300`).
pub const B300: u32 = 0o000007;
/// Output speed 600 baud (`B600`).
pub const B600: u32 = 0o000010;
/// Output speed 1200 baud (`B1200`).
pub const B1200: u32 = 0o000011;
/// Output speed 1800 baud (`B1800`).
pub const B1800: u32 = 0o000012;
/// Output speed 2400 baud (`B2400`).
pub const B2400: u32 = 0o000013;
/// Output speed 4800 baud (`B4800`).
pub const B4800: u32 = 0o000014;
/// Output speed 9600 baud (`B9600`).
pub const B9600: u32 = 0o000015;

/// The name printed for a speed code.
pub open spec fn baud_name(speed: u32) -> Seq<char> {
    if speed == B300 {
        "300"@
    } else if speed == B600 {
        "600"@
    } else if speed == B1200 {
        "1200"@
    } else if speed == B1800 {
        "1800"@
    } else if speed == B2400 {
        "2400"@
    } else if speed == B4800 {
        "4800"@
    } else if speed == B9600 {
        "9600"@
    } else {
        "Fast"@
    }
}

/// The line that tells the output speed.
pub fn show_baud(speed: u32) -> (r: String)
    ensures
        r@ == "the baud rate is "@ + baud_name(speed),
{
    let mut out = String::new();
    push_str(&mut out, "the baud rate is ");
    let name = if speed == B300 {
        "300"
    } else if speed == B600 {
        "600"
    } else if speed == B1200 {
        "1200"
    } else if speed == B1800 {
        "1800"
    } else if speed == B2400 {
        "2400"
    } else if speed == B4800 {
        "4800"
    } else if speed == B9600 {
        "9600"
    } else {
        "Fast"
    };
    push_str(&mut out, name);
    out
}

/// The line that tells a control character: its code and the letter typed
/// with Ctrl to get it (`what` is `erase` or `line kill`).
pub fn control_char_line(what: &str, code: u8) -> (r: String)
    requires
        1 <= code,
        code - 1 + 65 <= 255,
    ensures
        r@ == "The "@ + what@ + " character is ascii "@ + dec_nat(code as nat) + ", Ctrl - "@
            + seq![((code - 1 + 65) as u8) as char],
{
    let mut out = String::new();
    push_str(&mut out, "The ");
    push_str(&mut out, what);
    push_str(&mut out, " character is ascii ");
    push_dec_u64(&mut out, code as u64);
    push_str(&mut out, ", Ctrl - ");
    let c: u8 = code - 1 + 65u8;
    push_char(&mut out, c as char);
    out
}

/// A terminal flag: its bit and its description.
pub struct FlagInfo {
    pub fl_value: i32,
    pub fl_name: String,
}

/// Whether a flag is on in a flag word, as the printer tests it.
pub open spec fn flag_on(value: u32, bit: i32) -> bool {
    (value as i32) & bit > 0
}

/// The line printed for one flag.
pub open spec fn flag_line(value: u32, f: (i32, Seq<char>)) -> Seq<char> {
    f.1 + " is "@ + if flag_on(value, f.0) {
        "ON"@
    } else {
        "OFF"@
    }
}

/// The lines printed for a flag word: each flag's description and whether
/// it is `ON` or `OFF`.
pub fn show_flagset(thevalue: u32, thebitnames: &Vec<FlagInfo>) -> (r: Vec<String>)
    ensures
        r.len() == thebitnames.len(),
        forall|i: int|
            0 <= i < r.len() ==> #[trigger] r@[i]@ == flag_line(
                thevalue,
                (thebitnames@[i].fl_value, thebitnames@[i].fl_name@),
            ),
{
    let mut out: Vec<String> = Vec::new();
    let mut i: usize = 0;
    while i < thebitnames.len()
        invariant
            i <= thebitnames.len(),
            out.len() == i,
            forall|k: int|
                0 <= k < i ==> #[trigger] out@[k]@ == flag_line(
                    thevalue,
                    (thebitnames@[k].fl_value, thebitnames@[k].fl_name@),
                ),
        decreases thebitnames.len() - i,
    {
        let mut line = String::new();
        push_str(&mut line, thebitnames[i].fl_name.as_str());
        push_str(&mut line, " is ");
        if (thevalue as i32) & thebitnames[i].fl_value > 0 {
            push_str(&mut line, "ON");
        } else {
            push_str(&mut line, "OFF");
        }
        out.push(line);
        i = i + 1;
    }
    out
}

/// Each speed code names its own rate: the codes 0o7 to 0o15 (`B300` to
/// `B9600`) are named 300, 600, 1200, 1800, 2400, 4800 and 9600, and any
/// other code is named `Fast`; so distinct codes among these give distinct
/// names.
pub proof fn law_speed_codes_name_their_rates(speed: u32)
    ensures
        baud_name(0o7) == "300"@,
        baud_name(0o10) == "600"@,
        baud_name(0o11) == "1200"@,
        baud_name(0o12) == "1800"@,
        baud_name(0o13) == "2400"@,
        baud_name(0o14) == "4800"@,
        baud_name(0o15) == "9600"@,
        !(0o7 <= speed <= 0o15) ==> baud_name(speed) == "Fast"@,
{
}

} // verus!
