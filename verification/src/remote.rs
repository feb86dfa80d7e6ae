//! The small network services: the remote `ls` server, the time server,
//! the datagram receiver, and the pieces they share.

use vstd::prelude::*;
use vstd::utf8::{decode_utf8, valid_utf8};

use crate::text::{
    chars_of, dec_nat, index_of_first, lemma_index_of_first, lemma_index_of_first_is, push_char,
    push_dec_u64, push_str, string_of, trim, trim_chars,
};
use crate::ls::{dec_chars, pad_left, push_pad_left};

verus! {

/// What `char::is_alphanumeric` says of `c`: whether it has the Unicode
/// `Alphabetic` or `Numeric` property.
pub uninterp spec fn alphanumeric(c: char) -> bool;

/// Whether `c` is an ASCII letter or digit.
pub open spec fn ascii_alnum(c: char) -> bool {
    ('0' <= c <= '9') || ('a' <= c <= 'z') || ('A' <= c <= 'Z')
}

/// `char::is_alphanumeric`. The result is named by `alphanumeric`; of an
/// ASCII character it is true exactly for the letters and digits.
#[verifier::external_body]
fn is_alphanumeric(c: char) -> (r: bool)
    ensures
        r == alphanumeric(c),
        (c as u32) < 128 ==> (r <==> ascii_alnum(c)),
{
    c.is_alphanumeric()
}

/// Whether `sanitize` keeps `c`.
pub open spec fn kept(c: char) -> bool {
    alphanumeric(c) || c == '/'
}

/// `s` with only the characters that `sanitize` keeps.
pub open spec fn sanitized(s: Seq<char>) -> Seq<char>
    decreases s.len(),
{
    if s.len() == 0 {
        seq![]
    } else if kept(s.last()) {
        sanitized(s.drop_last()).push(s.last())
    } else {
        sanitized(s.drop_last())
    }
}

/// Whether `sanitize` keeps the ASCII character `c`: an ASCII letter, an
/// ASCII digit or `/`.
pub open spec fn kept_ascii(c: char) -> bool {
    ascii_alnum(c) || c == '/'
}

/// An ASCII character is alphanumeric exactly when it is an ASCII letter or
/// digit.
pub open spec fn ascii_alnum_agrees(c: char) -> bool {
    (c as u32) < 128 ==> (alphanumeric(c) <==> ascii_alnum(c))
}

/// On text whose characters are ASCII, sanitizing keeps exactly the ASCII
/// letters, digits and `/`.
proof fn lemma_sanitized_ascii(s: Seq<char>)
    requires
        forall|j: int| 0 <= j < s.len() ==> (#[trigger] s[j] as u32) < 128,
        forall|j: int| 0 <= j < s.len() ==> ascii_alnum_agrees(#[trigger] s[j]),
    ensures
        sanitized(s) == s.filter(|c: char| kept_ascii(c)),
    decreases s.len(),
{
    reveal_with_fuel(Seq::filter, 1);
    if s.len() > 0 {
        let t = s.drop_last();
        assert forall|j: int| 0 <= j < t.len() implies (#[trigger] t[j] as u32) < 128
            && ascii_alnum_agrees(t[j]) by {
            assert(t[j] == s[j]);
        }
        lemma_sanitized_ascii(t);
        assert(ascii_alnum_agrees(s[s.len() - 1]));
    }
}

/// The letters, digits and `/` of `dirname`, in order. For its ASCII
/// characters, letters and digits are the ASCII ones, so an ASCII name
/// keeps exactly its ASCII letters, digits and `/`: spaces, `;`, `-`, `.`,
/// `*`, quotes and every other shell metacharacter are dropped.
pub fn sanitize(dirname: &str) -> (r: String)
    ensures
        r@ == sanitized(dirname@),
        forall|j: int| 0 <= j < dirname@.len() ==> ascii_alnum_agrees(#[trigger] dirname@[j]),
        vstd::utf8::is_ascii_chars(dirname@) ==> r@ == dirname@.filter(|c: char| kept_ascii(c)),
{
    let v = chars_of(dirname);
    let mut out = String::new();
    let mut i: usize = 0;
    while i < v.len()
        invariant
            i <= v.len(),
            v@ == dirname@,
            out@ == sanitized(v@.take(i as int)),
            forall|j: int| 0 <= j < i ==> ascii_alnum_agrees(#[trigger] v@[j]),
        decreases v.len() - i,
    {
        assert(v@.take(i + 1).drop_last() == v@.take(i as int));
        let c = v[i];
        let alnum = is_alphanumeric(c);
        if alnum || c == '/' {
            push_char(&mut out, c);
        }
        i = i + 1;
    }
    assert(v@.take(v.len() as int) == v@);
    proof {
        if vstd::utf8::is_ascii_chars(dirname@) {
            assert forall|j: int| 0 <= j < dirname@.len() implies (#[trigger] dirname@[j] as u32)
                < 128 by {
                assert('\0' <= dirname@[j] <= '\u{7f}');
            }
            lemma_sanitized_ascii(dirname@);
        }
    }
    out
}

/// Sanitizing keeps only what it keeps: every character of the result is a
/// letter, a digit or `/`, and sanitizing again changes nothing.
pub proof fn law_sanitize_idempotent(s: Seq<char>)
    ensures
        forall|j: int| 0 <= j < sanitized(s).len() ==> kept(#[trigger] sanitized(s)[j]),
        sanitized(sanitized(s)) == sanitized(s),
        sanitized(s).len() <= s.len(),
    decreases s.len(),
{
    if s.len() > 0 {
        law_sanitize_idempotent(s.drop_last());
        let t = sanitized(s.drop_last());
        if kept(s.last()) {
            assert(t.push(s.last()).drop_last() == t);
        }
    }
}

/// The command the remote `ls` server runs for a request line.
pub open spec fn ls_command_of(line: Seq<char>) -> Seq<char> {
    "ls "@ + sanitized(trim(line))
}

/// The command the remote `ls` server runs for a request line: `ls` and
/// the sanitized directory name.
pub fn ls_command(line: &str) -> (r: String)
    ensures
        r@ == ls_command_of(line@),
{
    let t = string_of(&trim_chars(&chars_of(line)));
    let mut out = String::new();
    push_str(&mut out, "ls ");
    push_str(&mut out, sanitize(t.as_str()).as_str());
    out
}

/// What `String::from_utf8_lossy` makes of `b`.
pub uninterp spec fn utf8_lossy(b: Seq<u8>) -> Seq<char>;

/// `String::from_utf8_lossy`: decodes bytes as UTF-8, putting U+FFFD for
/// invalid sequences. The result is named by `utf8_lossy`; for valid
/// UTF-8 it is the decoded text.
#[verifier::external_body]
pub fn from_utf8_lossy(b: &[u8]) -> (r: String)
    ensures
        r@ == utf8_lossy(b@),
        valid_utf8(b@) ==> r@ == decode_utf8(b@),
{
    String::from_utf8_lossy(b).to_string()
}

/// The bytes before the first NUL of `buf`, or all of it.
pub open spec fn before_nul(buf: Seq<u8>) -> Seq<u8> {
    match index_of_first(buf, 0u8) {
        Some(i) => buf.take(i),
        None => buf,
    }
}

/// The host name held in a NUL-terminated buffer (as `gethostname` fills
/// it), decoded leniently.
pub fn hostname_from_buf(buf: &Vec<u8>) -> (r: String)
    ensures
        r@ == utf8_lossy(before_nul(buf@)),
        valid_utf8(before_nul(buf@)) ==> r@ == decode_utf8(before_nul(buf@)),
{
    let mut i: usize = 0;
    while i < buf.len() && buf[i] != 0
        invariant
            i <= buf.len(),
            forall|j: int| 0 <= j < i ==> buf@[j] != 0u8,
        decreases buf.len() - i,
    {
        i = i + 1;
    }
    proof {
        if i < buf.len() {
            lemma_index_of_first_is(buf@, 0u8, i as int);
        } else {
            lemma_index_of_first(buf@, 0u8);
            assert(buf@.take(i as int) == buf@);
        }
    }
    let mut b: Vec<u8> = Vec::new();
    let mut j: usize = 0;
    while j < i
        invariant
            j <= i <= buf.len(),
            b@ == buf@.take(j as int),
        decreases i - j,
    {
        b.push(buf[j]);
        assert(buf@.take(j + 1) == buf@.take(j as int).push(buf@[j as int]));
        j = j + 1;
    }
    assert(b@ == before_nul(buf@));
    from_utf8_lossy(b.as_slice())
}

/// The line the time server sends: the seconds since the epoch.
pub fn time_message(secs: u64) -> (r: String)
    ensures
        r@ == "The time here is .. "@ + dec_nat(secs as nat) + "\n"@,
{
    let mut out = String::new();
    push_str(&mut out, "The time here is .. ");
    push_dec_u64(&mut out, secs);
    push_str(&mut out, "\n");
    out
}

/// The reply the datagram server sends back: the length of the message in
/// bytes.
pub fn reply_text(msg: &str) -> (r: String)
    ensures
        r@ == "Thanks for your "@ + dec_nat(msg.len() as nat) + " char message\n"@,
{
    let n = msg.len();
    let mut out = String::new();
    push_str(&mut out, "Thanks for your ");
    push_dec_u64(&mut out, n as u64);
    push_str(&mut out, " char message\n");
    out
}

/// The line that says who sent a datagram.
pub fn say_who_called(host: &str, port: u16) -> (r: String)
    ensures
        r@ == "  from: "@ + host@ + ":"@ + dec_nat(port as nat),
{
    let mut out = String::new();
    push_str(&mut out, "  from: ");
    push_str(&mut out, host);
    push_str(&mut out, ":");
    push_dec_u64(&mut out, port as u64);
    out
}

/// The line the log daemon prints for a message: its number right-aligned
/// in five columns, the time, and the message.
pub fn log_line(msgnum: u32, time: &str, msg: &str) -> (r: String)
    ensures
        r@ == "["@ + pad_left(dec_nat(msgnum as nat), 5) + "] "@ + time@ + " "@ + msg@,
{
    let mut out = String::new();
    push_str(&mut out, "[");
    push_pad_left(&mut out, &dec_chars(msgnum as i64), 5);
    push_str(&mut out, "] ");
    push_str(&mut out, time);
    push_str(&mut out, " ");
    push_str(&mut out, msg);
    out
}

/// A line read from a command's output, numbered from 0 with the number
/// right-aligned in three columns.
pub fn numbered_line(i: u32, line: &str) -> (r: String)
    ensures
        r@ == pad_left(dec_nat(i as nat), 3) + " "@ + line@,
{
    let mut out = String::new();
    push_pad_left(&mut out, &dec_chars(i as i64), 3);
    push_str(&mut out, " ");
    push_str(&mut out, line);
    out
}

/// Which end of the pipe the parent keeps and which the child's standard
/// stream becomes, for a `popen` mode: `"r"` gives (0, 1), `"w"` gives
/// (1, 0), anything else `None`.
pub fn popen_ends(mode: &str) -> (r: Option<(i32, i32)>)
    ensures
        mode@ == "r"@ ==> r == Some((0i32, 1i32)),
        mode@ == "w"@ ==> r == Some((1i32, 0i32)),
        mode@ != "r"@ && mode@ != "w"@ ==> r is None,
{
    proof {
        reveal_strlit("r");
        reveal_strlit("w");
        assert("r"@[0] != "w"@[0]);
    }
    if crate::text::str_eq(mode, "r") {
        Some((0, 1))
    } else if crate::text::str_eq(mode, "w") {
        Some((1, 0))
    } else {
        None
    }
}

/// What each side does with the two ends of a pipe for `popen`: the
/// parent keeps one end and closes the other; the child closes the end the
/// parent keeps, puts the other on its standard stream `child_target` and
/// then closes it.
pub struct PipePlan {
    pub parent_keeps: i32,
    pub parent_closes: i32,
    pub child_closes: i32,
    pub child_dups: i32,
    pub child_target: i32,
}

/// The plan for a pipe with ends `read_fd` and `write_fd`: for `"r"` the
/// parent reads what the child writes to its standard output; for `"w"`
/// the child reads on its standard input what the parent writes; any other
/// mode has none.
pub fn popen_plan(mode: &str, read_fd: i32, write_fd: i32) -> (r: Option<PipePlan>)
    ensures
        mode@ == "r"@ ==> r == Some(
            PipePlan {
                parent_keeps: read_fd,
                parent_closes: write_fd,
                child_closes: read_fd,
                child_dups: write_fd,
                child_target: 1,
            },
        ),
        mode@ == "w"@ ==> r == Some(
            PipePlan {
                parent_keeps: write_fd,
                parent_closes: read_fd,
                child_closes: write_fd,
                child_dups: read_fd,
                child_target: 0,
            },
        ),
        mode@ != "r"@ && mode@ != "w"@ ==> r is None,
{
    match popen_ends(mode) {
        None => None,
        Some((parent_end, child_end)) => {
            let (keeps, closes) = if child_end == 1 {
                (read_fd, write_fd)
            } else {
                (write_fd, read_fd)
            };
            let (child_closes, child_dups) = if parent_end == 0 {
                (read_fd, write_fd)
            } else {
                (write_fd, read_fd)
            };
            Some(
                PipePlan {
                    parent_keeps: keeps,
                    parent_closes: closes,
                    child_closes,
                    child_dups,
                    child_target: child_end,
                },
            )
        },
    }
}

} // verus!
