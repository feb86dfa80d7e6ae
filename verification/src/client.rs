//! The license clients: what they ask the ticket server and what they make
//! of its replies.  Sending and receiving stay with the caller; each step
//! here takes the reply that came back and returns what to do next.

use vstd::prelude::*;
use vstd::utf8::{decode_utf8, encode_utf8, valid_utf8};

use crate::text::{
    boundary_at, char_boundary, dec_int, from_byte, lemma_encode_concat, lemma_from_byte_encoding,
    push_char, push_dec_i64, push_str, starts_with, str_starts_with,
};
use crate::remote::{from_utf8_lossy, utf8_lossy};

verus! {

/// The size of a message, and of the buffer that holds a ticket.
pub const MSGLEN: usize = 128;

/// The number of bytes of the UTF-8 encoding of `s`.
pub open spec fn byte_len(s: Seq<char>) -> nat {
    encode_utf8(s).len()
}

/// How a reply reads: the expected word, a refusal (`FAIL`), or something
/// else.
pub enum ReplyKind {
    Accepted,
    Refused,
    Unknown,
}

/// The kind of `reply` when `word` is the expected answer.
pub open spec fn reply_kind(reply: Seq<char>, word: Seq<char>) -> ReplyKind {
    if starts_with(reply, word) {
        ReplyKind::Accepted
    } else if starts_with(reply, "FAIL"@) {
        ReplyKind::Refused
    } else {
        ReplyKind::Unknown
    }
}

fn kind_of(reply: &str, word: &str) -> (r: ReplyKind)
    ensures
        r == reply_kind(reply@, word@),
{
    if str_starts_with(reply, word) {
        ReplyKind::Accepted
    } else if str_starts_with(reply, "FAIL") {
        ReplyKind::Refused
    } else {
        ReplyKind::Unknown
    }
}

/// `HELO pid`.
pub open spec fn hello_text(pid: i32) -> Seq<char> {
    "HELO "@ + dec_int(pid as int)
}

fn hello_message(pid: i32) -> (r: String)
    ensures
        r@ == hello_text(pid),
{
    let mut s = String::new();
    push_str(&mut s, "HELO ");
    push_dec_i64(&mut s, pid as i64);
    s
}

/// `n` NUL characters.
pub open spec fn nuls(n: nat) -> Seq<char> {
    Seq::new(n, |i: int| '\0')
}

/// The first client.  It keeps the whole `TICK` reply in its ticket
/// buffer, padded with NUL bytes, and sends the buffer back when it is
/// done.
pub struct SimpleClient {
    pid: i32,
    have_ticket: bool,
    ticket: String,
}

impl SimpleClient {
    /// The client's process id.
    pub closed spec fn pid(&self) -> i32 {
        self.pid
    }

    /// Whether it holds a ticket.
    pub closed spec fn has_ticket(&self) -> bool {
        self.have_ticket
    }

    /// The text in its ticket buffer, before the padding.
    pub closed spec fn ticket(&self) -> Seq<char> {
        self.ticket@
    }

    /// The ticket fits in the buffer.
    pub closed spec fn wf(&self) -> bool {
        byte_len(self.ticket@) <= MSGLEN
    }

    /// A client without a ticket.
    pub fn new(pid: i32) -> (r: SimpleClient)
        ensures
            r.wf(),
            r.pid() == pid,
            !r.has_ticket(),
            r.ticket() == Seq::<char>::empty(),
    {
        SimpleClient { pid, have_ticket: false, ticket: String::new() }
    }

    /// Whether it holds a ticket.
    pub fn have_ticket(&self) -> (r: bool)
        ensures
            r == self.has_ticket(),
    {
        self.have_ticket
    }

    /// The request that asks for a ticket; `None` when it holds one
    /// already (and then nothing is sent).
    pub fn hello_request(&self) -> (r: Option<String>)
        ensures
            match r {
                Some(m) => !self.has_ticket() && m@ == hello_text(self.pid()),
                None => self.has_ticket(),
            },
    {
        if self.have_ticket {
            None
        } else {
            Some(hello_message(self.pid))
        }
    }

    /// Whether `take_hello_reply` can take `reply`.
    pub fn hello_reply_ok(reply: &str) -> (r: bool)
        ensures
            r == ((reply_kind(reply@, "TICK"@) !is Unknown ==> boundary_at(reply@, 5)) && (
            reply_kind(reply@, "TICK"@) is Accepted ==> byte_len(reply@) <= MSGLEN)),
    {
        match kind_of(reply, "TICK") {
            ReplyKind::Accepted => char_boundary(reply, 5) && reply.as_bytes().len() <= MSGLEN,
            ReplyKind::Refused => char_boundary(reply, 5),
            ReplyKind::Unknown => true,
        }
    }

    /// Whether `take_goodbye_reply` can take `reply`.
    pub fn goodbye_reply_ok(reply: &str) -> (r: bool)
        ensures
            r == (reply_kind(reply@, "THNX"@) is Refused ==> boundary_at(reply@, 5)),
    {
        match kind_of(reply, "THNX") {
            ReplyKind::Refused => char_boundary(reply, 5),
            _ => true,
        }
    }

    /// Takes the reply to `HELO`.  A `TICK` reply is kept as the ticket.
    /// The caller reports the text after the reply's first five bytes for
    /// `TICK` and `FAIL`, so those replies must be that long.
    pub fn take_hello_reply(&mut self, reply: &str) -> (r: ReplyKind)
        requires
            old(self).wf(),
            reply_kind(reply@, "TICK"@) !is Unknown ==> boundary_at(reply@, 5),
            reply_kind(reply@, "TICK"@) is Accepted ==> byte_len(reply@) <= MSGLEN,
        ensures
            final(self).wf(),
            r == reply_kind(reply@, "TICK"@),
            final(self).pid() == old(self).pid(),
            r is Accepted ==> final(self).has_ticket() && final(self).ticket() == reply@,
            !(r is Accepted) ==> *final(self) == *old(self),
    {
        let k = kind_of(reply, "TICK");
        if let ReplyKind::Accepted = k {
            let mut t = String::new();
            push_str(&mut t, reply);
            self.ticket = t;
            self.have_ticket = true;
        }
        k
    }

    /// The request that gives the ticket back: `GBYE`, then the ticket
    /// buffer read as text, NUL padding included; `None` when it holds no
    /// ticket.
    pub fn goodbye_request(&self) -> (r: Option<String>)
        requires
            self.wf(),
        ensures
            match r {
                Some(m) => self.has_ticket() && m@ == "GBYE "@ + self.ticket() + nuls(
                    (MSGLEN - byte_len(self.ticket())) as nat,
                ),
                None => !self.has_ticket(),
            },
    {
        if !self.have_ticket {
            return None;
        }
        let mut s = String::new();
        push_str(&mut s, "GBYE ");
        push_str(&mut s, self.ticket.as_str());
        let used = self.ticket.as_str().len();
        let ghost start = s@;
        let mut i: usize = used;
        while i < MSGLEN
            invariant
                used <= i <= MSGLEN,
                s@ == start + nuls((i - used) as nat),
            decreases MSGLEN - i,
        {
            push_char(&mut s, '\0');
            assert(nuls((i + 1 - used) as nat) == nuls((i - used) as nat).push('\0'));
            i = i + 1;
        }
        Some(s)
    }

    /// Takes the reply to `GBYE`.  The caller reports the text after a
    /// `FAIL` reply's first five bytes, so such a reply must be that long.
    pub fn take_goodbye_reply(&self, reply: &str) -> (r: ReplyKind)
        requires
            reply_kind(reply@, "THNX"@) is Refused ==> boundary_at(reply@, 5),
        ensures
            r == reply_kind(reply@, "THNX"@),
    {
        kind_of(reply, "THNX")
    }
}

/// `n` zero bytes.
pub open spec fn zeros(n: nat) -> Seq<u8> {
    Seq::new(n, |i: int| 0u8)
}

/// The second client.  It keeps what follows `TICK ` in its ticket buffer,
/// over whatever the buffer held, can ask the server whether its ticket is
/// still good, and forgets it when the server says it is not.
pub struct LicenseClient {
    pid: i32,
    have_ticket: bool,
    ticket_buf: Vec<u8>,
}

impl LicenseClient {
    /// The client's process id.
    pub closed spec fn pid(&self) -> i32 {
        self.pid
    }

    /// Whether it holds a ticket.
    pub closed spec fn has_ticket(&self) -> bool {
        self.have_ticket
    }

    /// The ticket buffer.
    pub closed spec fn buffer(&self) -> Seq<u8> {
        self.ticket_buf@
    }

    /// The buffer is `MSGLEN` bytes long.
    pub closed spec fn wf(&self) -> bool {
        self.ticket_buf@.len() == MSGLEN
    }

    /// A client without a ticket, its buffer all zero bytes.
    pub fn new(pid: i32) -> (r: LicenseClient)
        ensures
            r.wf(),
            r.pid() == pid,
            !r.has_ticket(),
            r.buffer() == zeros(MSGLEN as nat),
    {
        let mut b: Vec<u8> = Vec::new();
        let mut i: usize = 0;
        while i < MSGLEN
            invariant
                i <= MSGLEN,
                b@ == zeros(i as nat),
            decreases MSGLEN - i,
        {
            b.push(0u8);
            assert(b@ == zeros((i + 1) as nat));
            i = i + 1;
        }
        LicenseClient { pid, have_ticket: false, ticket_buf: b }
    }

    /// Whether it holds a ticket.
    pub fn have_ticket(&self) -> (r: bool)
        ensures
            r == self.has_ticket(),
    {
        self.have_ticket
    }

    /// The request that asks for a ticket; `None` when it holds one.
    pub fn hello_request(&self) -> (r: Option<String>)
        ensures
            match r {
                Some(m) => !self.has_ticket() && m@ == hello_text(self.pid()),
                None => self.has_ticket(),
            },
    {
        if self.have_ticket {
            None
        } else {
            Some(hello_message(self.pid))
        }
    }

    /// Whether `take_hello_reply` can take `reply`.
    pub fn hello_reply_ok(reply: &str) -> (r: bool)
        ensures
            r == (starts_with(reply@, "TICK"@) ==> boundary_at(reply@, 5) && byte_len(reply@)
                <= MSGLEN + 5),
    {
        !str_starts_with(reply, "TICK") || (char_boundary(reply, 5) && reply.as_bytes().len() <= MSGLEN + 5)
    }

    /// Whether `take_goodbye_reply` can take `reply`.
    pub fn goodbye_reply_ok(reply: &str) -> (r: bool)
        ensures
            r == (!starts_with(reply@, "THNX"@) ==> boundary_at(reply@, 5)),
    {
        str_starts_with(reply, "THNX") || char_boundary(reply, 5)
    }

    /// Takes the reply to `HELO`: a `TICK` reply's bytes after the first
    /// five are copied to the front of the buffer and the client holds a
    /// ticket.  Such a reply must be at least five bytes long, split there
    /// on a character boundary, and fit in the buffer after those five.
    pub fn take_hello_reply(&mut self, reply: &str) -> (r: bool)
        requires
            old(self).wf(),
            starts_with(reply@, "TICK"@) ==> boundary_at(reply@, 5) && byte_len(reply@) <= MSGLEN
                + 5,
        ensures
            final(self).wf(),
            r == starts_with(reply@, "TICK"@),
            final(self).pid() == old(self).pid(),
            r ==> final(self).has_ticket() && final(self).buffer() == encode_utf8(reply@).skip(5)
                + old(self).buffer().skip(byte_len(reply@) - 5),
            !r ==> *final(self) == *old(self),
    {
        if !str_starts_with(reply, "TICK") {
            return false;
        }
        let bytes = reply.as_bytes();
        let n = bytes.len();
        proof {
            reveal_boundary_len(reply@);
        }
        let ghost old_buf = self.ticket_buf@;
        let ghost src = encode_utf8(reply@).skip(5);
        let mut i: usize = 5;
        while i < n
            invariant
                5 <= i <= n,
                n <= MSGLEN + 5,
                bytes@ == encode_utf8(reply@),
                n == bytes@.len(),
                src == bytes@.skip(5),
                self.ticket_buf@.len() == MSGLEN,
                self.pid == old(self).pid,
                old_buf.len() == MSGLEN,
                forall|j: int| 0 <= j < i - 5 ==> self.ticket_buf@[j] == src[j],
                forall|j: int| i - 5 <= j < MSGLEN ==> self.ticket_buf@[j] == old_buf[j],
            decreases n - i,
        {
            self.ticket_buf.set(i - 5, bytes[i]);
            i = i + 1;
        }
        self.have_ticket = true;
        assert(self.ticket_buf@ =~= src + old_buf.skip(n - 5));
        true
    }

    /// The buffer read as text (`String::from_utf8_lossy`).
    fn buffer_text(&self) -> (r: String)
        ensures
            r@ == utf8_lossy(self.buffer()),
            valid_utf8(self.buffer()) ==> r@ == decode_utf8(self.buffer()),
    {
        from_utf8_lossy(self.ticket_buf.as_slice())
    }

    /// The request that gives the ticket back: `GBYE` and the buffer as
    /// text; `None` when it holds no ticket.
    pub fn goodbye_request(&self) -> (r: Option<String>)
        ensures
            match r {
                Some(m) => self.has_ticket() && m@ == "GBYE "@ + utf8_lossy(self.buffer()) && (
                valid_utf8(self.buffer()) ==> m@ == "GBYE "@ + decode_utf8(self.buffer())),
                None => !self.has_ticket(),
            },
    {
        if !self.have_ticket {
            return None;
        }
        let mut s = String::new();
        push_str(&mut s, "GBYE ");
        push_str(&mut s, self.buffer_text().as_str());
        Some(s)
    }

    /// Takes the reply to `GBYE`: whether it is `THNX`.  The caller reports
    /// the text after any other reply's first five bytes, so such a reply
    /// must be that long.
    pub fn take_goodbye_reply(&self, reply: &str) -> (r: bool)
        requires
            !starts_with(reply@, "THNX"@) ==> boundary_at(reply@, 5),
        ensures
            r == starts_with(reply@, "THNX"@),
    {
        str_starts_with(reply, "THNX")
    }

    /// The request that asks whether the ticket is still good: `VALD` and
    /// the buffer as text; `None` when it holds no ticket.
    pub fn validate_request(&self) -> (r: Option<String>)
        ensures
            match r {
                Some(m) => self.has_ticket() && m@ == "VALD "@ + utf8_lossy(self.buffer()) && (
                valid_utf8(self.buffer()) ==> m@ == "VALD "@ + decode_utf8(self.buffer())),
                None => !self.has_ticket(),
            },
    {
        if !self.have_ticket {
            return None;
        }
        let mut s = String::new();
        push_str(&mut s, "VALD ");
        push_str(&mut s, self.buffer_text().as_str());
        Some(s)
    }

    /// Takes the reply to `VALD`: the ticket is good on `GOOD`; on any
    /// other reply the client forgets it.
    pub fn take_validate_reply(&mut self, reply: &str) -> (r: bool)
        ensures
            r == starts_with(reply@, "GOOD"@),
            final(self).pid() == old(self).pid(),
            final(self).buffer() == old(self).buffer(),
            final(self).wf() == old(self).wf(),
            final(self).has_ticket() == (old(self).has_ticket() && r),
    {
        if str_starts_with(reply, "GOOD") {
            true
        } else {
            self.have_ticket = false;
            false
        }
    }
}

/// A client that starts with an empty buffer sends back what it was given:
/// after a `TICK` reply its buffer is valid UTF-8 and reads as the text
/// after `TICK ` followed by NUL padding, which is what its `GBYE` and
/// `VALD` requests carry.
pub proof fn law_fresh_client_sends_back_its_ticket(reply: Seq<char>)
    requires
        starts_with(reply, "TICK"@),
        boundary_at(reply, 5),
        byte_len(reply) <= MSGLEN + 5,
    ensures
        ({
            let buf = encode_utf8(reply).skip(5) + zeros(MSGLEN as nat).skip(byte_len(reply) - 5);
            &&& valid_utf8(buf)
            &&& decode_utf8(buf) == from_byte(reply, 5) + nuls((MSGLEN + 5 - byte_len(reply)) as nat)
        }),
{
    broadcast use vstd::utf8::encode_utf8_valid_utf8, vstd::utf8::encode_utf8_decode_utf8;

    let n = byte_len(reply);
    let t = from_byte(reply, 5);
    let pad = nuls((MSGLEN + 5 - n) as nat);
    lemma_from_byte_encoding(reply, 5);
    assert(vstd::utf8::is_ascii_chars(pad));
    vstd::utf8::is_ascii_chars_encode_utf8(pad);
    assert(encode_utf8(pad) =~= zeros(MSGLEN as nat).skip(n - 5));
    lemma_encode_concat(t, pad);
    assert(encode_utf8(reply).skip(5) + zeros(MSGLEN as nat).skip(n - 5) == encode_utf8(t + pad));
}

/// A boundary at byte 5 lies within the text.
proof fn reveal_boundary_len(s: Seq<char>)
    requires
        boundary_at(s, 5),
    ensures
        5 <= byte_len(s),
{
    crate::text::lemma_boundary_within(s, 5);
}

} // verus!
