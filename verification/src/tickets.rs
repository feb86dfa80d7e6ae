//! The license server: a fixed table of tickets handed out to client
//! processes, and its request/reply protocol (`HELO pid`, `GBYE pid.slot`,
//! `VALD pid.slot`).

use vstd::prelude::*;
use crate::text::{
    all_digits, boundary_at, char_boundary, chars_of, dec_int, dec_nat, find_char, first_index,
    from_byte, index_of_first, is_ws, law_parse_i32_undoes_format, law_parse_usize_undoes_format,
    lemma_from_byte_after_ascii, lemma_index_of_first, lemma_index_of_first_is, lemma_trim_end,
    lemma_trim_start, parse_i32, parse_i32_spec, parse_usize, parse_usize_spec, push_dec_i64,
    push_dec_u64, push_str, slice_from, starts_with, str_starts_with, sub_chars, trim, trim_chars,
};

verus! {

/// The number of tickets.
pub const MAXUSERS: usize = 3;

/// The value of a free ticket slot.
pub const TICKET_AVAIL: i32 = 0;

/// The ticket table: for each slot, the pid holding it or `TICKET_AVAIL`.
pub struct Tickets {
    slots: [i32; MAXUSERS],
}

/// The number of slots of `t` that are held.
pub open spec fn taken_count(t: Seq<i32>) -> nat
    decreases t.len(),
{
    if t.len() == 0 {
        0
    } else {
        taken_count(t.drop_last()) + if t.last() != TICKET_AVAIL {
            1nat
        } else {
            0nat
        }
    }
}

/// The lowest free slot of `t`, if there is one.
pub open spec fn first_free(t: Seq<i32>) -> Option<int> {
    index_of_first(t, TICKET_AVAIL)
}

/// The argument of a request: what follows its first five bytes, trimmed.
pub open spec fn request_arg(req: Seq<char>) -> Seq<char> {
    trim(from_byte(req, 5))
}

/// The pid that `HELO pid` asks a ticket for; `-1` when it does not parse.
pub open spec fn hello_pid(req: Seq<char>) -> i32 {
    match parse_i32_spec(request_arg(req)) {
        Some(p) => p,
        None => -1i32,
    }
}

/// `a` split at its only `.`; `None` unless it holds exactly one.
pub open spec fn split_one_dot(a: Seq<char>) -> Option<(Seq<char>, Seq<char>)> {
    match first_index(a, '.') {
        Some(i) => if first_index(a.skip(i + 1), '.') is None {
            Some((a.take(i), a.skip(i + 1)))
        } else {
            None
        },
        None => None,
    }
}

/// The (pid, slot) of a ticket argument `pid.slot`; a pid that does not
/// parse reads as `-1`, a slot that does not parse as `MAXUSERS`.
pub open spec fn ticket_of(req: Seq<char>) -> Option<(i32, usize)> {
    match split_one_dot(request_arg(req)) {
        Some((p, s)) => Some(
            (
                match parse_i32_spec(p) {
                    Some(v) => v,
                    None => -1i32,
                },
                match parse_usize_spec(s) {
                    Some(v) => v,
                    None => MAXUSERS,
                },
            ),
        ),
        None => None,
    }
}

/// The text of a ticket for `pid` in `slot`.
pub open spec fn ticket_text(pid: i32, slot: int) -> Seq<char> {
    dec_int(pid as int) + "."@ + dec_int(slot)
}

/// The table and the reply after `HELO`.
pub open spec fn hello_spec(t: Seq<i32>, req: Seq<char>) -> (Seq<i32>, Seq<char>) {
    if taken_count(t) >= MAXUSERS {
        (t, "FAIL no tickets available"@)
    } else {
        match first_free(t) {
            Some(i) => (t.update(i, hello_pid(req)), "TICK "@ + ticket_text(hello_pid(req), i)),
            None => (t, "FAIL database corrupt"@),
        }
    }
}

/// The table and the reply after `GBYE`.
pub open spec fn goodbye_spec(t: Seq<i32>, req: Seq<char>) -> (Seq<i32>, Seq<char>) {
    match ticket_of(req) {
        Some((pid, slot)) => if slot >= MAXUSERS || t[slot as int] != pid {
            (t, "FAIL invalid ticket"@)
        } else {
            (t.update(slot as int, TICKET_AVAIL), "THNX See ya!"@)
        },
        None => (t, "FAIL invalid ticket"@),
    }
}

/// The reply to `VALD`.
pub open spec fn validate_spec(t: Seq<i32>, req: Seq<char>) -> Seq<char> {
    match ticket_of(req) {
        Some((pid, slot)) => if slot < MAXUSERS && t[slot as int] == pid {
            "GOOD Valid ticket"@
        } else {
            "FAIL invalid ticket"@
        },
        None => "FAIL invalid ticket"@,
    }
}

impl Tickets {
    /// The pid in each slot (`TICKET_AVAIL` for a free one).
    pub closed spec fn view(&self) -> Seq<i32> {
        self.slots@
    }

    /// The table always has `MAXUSERS` slots.
    pub fn len(&self) -> (r: usize)
        ensures
            r == self@.len(),
            r == MAXUSERS,
    {
        MAXUSERS
    }

    /// A table with every ticket free.
    pub fn new() -> (r: Tickets)
        ensures
            r@ == Seq::new(MAXUSERS as nat, |i: int| TICKET_AVAIL),
    {
        let r = Tickets { slots: [TICKET_AVAIL, TICKET_AVAIL, TICKET_AVAIL] };
        assert(r@ =~= Seq::new(MAXUSERS as nat, |i: int| TICKET_AVAIL));
        r
    }

    /// The pid in `slot`.
    pub fn get(&self, slot: usize) -> (r: i32)
        requires
            slot < MAXUSERS,
        ensures
            r == self@[slot as int],
    {
        self.slots[slot]
    }

    pub(crate) fn set(&mut self, slot: usize, pid: i32)
        requires
            slot < MAXUSERS,
        ensures
            final(self)@ == old(self)@.update(slot as int, pid),
    {
        self.slots[slot] = pid;
        assert(self.slots@ =~= old(self).slots@.update(slot as int, pid));
    }

    /// Frees every ticket.
    pub fn free_all(&mut self)
        ensures
            final(self)@ == Seq::new(MAXUSERS as nat, |i: int| TICKET_AVAIL),
    {
        let mut i: usize = 0;
        while i < MAXUSERS
            invariant
                i <= MAXUSERS,
                self@.len() == MAXUSERS,
                forall|j: int| 0 <= j < i ==> self@[j] == TICKET_AVAIL,
            decreases MAXUSERS - i,
        {
            self.set(i, TICKET_AVAIL);
            i = i + 1;
        }
        assert(self@ =~= Seq::new(MAXUSERS as nat, |i: int| TICKET_AVAIL));
    }
}

/// The number of held tickets.
fn count_taken(t: &Tickets) -> (r: usize)
    ensures
        r == taken_count(t@),
        r <= MAXUSERS,
{
    let n = t.len();
    let mut c: usize = 0;
    let mut i: usize = 0;
    while i < n
        invariant
            i <= n == MAXUSERS == t@.len(),
            c == taken_count(t@.take(i as int)),
            c <= i,
        decreases n - i,
    {
        assert(t@.take(i + 1).drop_last() == t@.take(i as int));
        if t.get(i) != TICKET_AVAIL {
            c = c + 1;
        }
        i = i + 1;
    }
    assert(t@.take(n as int) == t@);
    c
}

/// The lowest free slot.
pub(crate) fn find_free(t: &Tickets) -> (r: Option<usize>)
    ensures
        match r {
            Some(i) => first_free(t@) == Some(i as int) && i < MAXUSERS,
            None => first_free(t@) is None,
        },
{
    let n = t.len();
    let mut i: usize = 0;
    while i < n
        invariant
            i <= n == MAXUSERS == t@.len(),
            forall|j: int| 0 <= j < i ==> t@[j] != TICKET_AVAIL,
        decreases n - i,
    {
        if t.get(i) == TICKET_AVAIL {
            proof {
                lemma_index_of_first_is(t@, TICKET_AVAIL, i as int);
            }
            return Some(i);
        }
        i = i + 1;
    }
    proof {
        lemma_index_of_first(t@, TICKET_AVAIL);
    }
    None
}

/// The argument of `req`: its text after the first five bytes, trimmed.
pub(crate) fn arg_chars(req: &str) -> (r: Vec<char>)
    requires
        boundary_at(req@, 5),
    ensures
        r@ == request_arg(req@),
{
    let rest = slice_from(req, 5);
    let v = chars_of(rest.as_str());
    trim_chars(&v)
}

/// Parses a ticket argument `pid.slot` as the server does.
fn parse_ticket(a: &Vec<char>) -> (r: Option<(i32, usize)>)
    ensures
        r == match split_one_dot(a@) {
            Some((p, s)) => Some(
                (
                    match parse_i32_spec(p) {
                        Some(v) => v,
                        None => -1i32,
                    },
                    match parse_usize_spec(s) {
                        Some(v) => v,
                        None => MAXUSERS,
                    },
                ),
            ),
            None => None,
        },
{
    match find_char(a, '.') {
        None => None,
        Some(i) => {
            let rest = sub_chars(a, i + 1, a.len());
            assert(rest@ == a@.skip(i + 1));
            match find_char(&rest, '.') {
                Some(_) => None,
                None => {
                    let p = sub_chars(a, 0, i);
                    assert(p@ == a@.take(i as int));
                    let pid = match parse_i32(&p) {
                        Some(v) => v,
                        None => -1i32,
                    };
                    let slot = match parse_usize(&rest) {
                        Some(v) => v,
                        None => MAXUSERS,
                    };
                    Some((pid, slot))
                },
            }
        },
    }
}

/// Answers `HELO pid`: hands out the lowest free ticket to `pid`, or fails
/// when all are held.
pub fn do_hello(req: &str, tickets: &mut Tickets) -> (r: String)
    requires
        boundary_at(req@, 5),
    ensures
        (final(tickets)@, r@) == hello_spec(old(tickets)@, req@),
{
    let a = arg_chars(req);
    let pid: i32 = match parse_i32(&a) {
        Some(p) => p,
        None => -1i32,
    };
    let mut out = String::new();
    if count_taken(tickets) >= MAXUSERS {
        push_str(&mut out, "FAIL no tickets available");
        return out;
    }
    match find_free(tickets) {
        Some(i) => {
            tickets.set(i, pid);
            push_str(&mut out, "TICK ");
            push_dec_i64(&mut out, pid as i64);
            push_str(&mut out, ".");
            push_dec_u64(&mut out, i as u64);
            assert(out@ == "TICK "@ + ticket_text(pid, i as int));
            out
        },
        None => {
            push_str(&mut out, "FAIL database corrupt");
            out
        },
    }
}

/// Answers `GBYE pid.slot`: frees the slot if `pid` holds it.
pub fn do_goodbye(req: &str, tickets: &mut Tickets) -> (r: String)
    requires
        boundary_at(req@, 5),
    ensures
        (final(tickets)@, r@) == goodbye_spec(old(tickets)@, req@),
{
    let a = arg_chars(req);
    let mut out = String::new();
    match parse_ticket(&a) {
        None => {
            push_str(&mut out, "FAIL invalid ticket");
            out
        },
        Some((pid, slot)) => {
            if slot >= MAXUSERS || tickets.get(slot) != pid {
                push_str(&mut out, "FAIL invalid ticket");
                out
            } else {
                tickets.set(slot, TICKET_AVAIL);
                push_str(&mut out, "THNX See ya!");
                out
            }
        },
    }
}

/// Answers `VALD pid.slot`: whether `pid` holds the slot.
pub fn do_validate(req: &str, tickets: &Tickets) -> (r: String)
    requires
        boundary_at(req@, 5),
    ensures
        r@ == validate_spec(tickets@, req@),
{
    let a = arg_chars(req);
    let mut out = String::new();
    match parse_ticket(&a) {
        Some((pid, slot)) => {
            if slot < MAXUSERS && tickets.get(slot) == pid {
                push_str(&mut out, "GOOD Valid ticket");
            } else {
                push_str(&mut out, "FAIL invalid ticket");
            }
        },
        None => {
            push_str(&mut out, "FAIL invalid ticket");
        },
    }
    out
}

/// The reply to any request, and the table after it.
pub open spec fn handle_spec(t: Seq<i32>, req: Seq<char>) -> (Seq<i32>, Seq<char>) {
    if starts_with(req, "HELO"@) {
        hello_spec(t, req)
    } else if starts_with(req, "GBYE"@) {
        goodbye_spec(t, req)
    } else if starts_with(req, "VALD"@) {
        (t, validate_spec(t, req))
    } else {
        (t, "FAIL invalid request"@)
    }
}

/// A request the server can take without panicking: one whose command word
/// is known is long enough to be sliced after its first five bytes.
pub open spec fn request_ok(req: Seq<char>) -> bool {
    (starts_with(req, "HELO"@) || starts_with(req, "GBYE"@) || starts_with(req, "VALD"@))
        ==> boundary_at(req, 5)
}

/// Whether the server can take `req` (see `request_ok`).
pub fn request_is_readable(req: &str) -> (r: bool)
    ensures
        r == request_ok(req@),
{
    if str_starts_with(req, "HELO") || str_starts_with(req, "GBYE") || str_starts_with(req, "VALD") {
        char_boundary(req, 5)
    } else {
        true
    }
}

/// Answers one request: `HELO`, `GBYE` and `VALD` go to their handlers,
/// anything else is refused.
pub fn handle_request(req: &str, tickets: &mut Tickets) -> (r: String)
    requires
        request_ok(req@),
    ensures
        (final(tickets)@, r@) == handle_spec(old(tickets)@, req@),
{
    if str_starts_with(req, "HELO") {
        do_hello(req, tickets)
    } else if str_starts_with(req, "GBYE") {
        do_goodbye(req, tickets)
    } else if str_starts_with(req, "VALD") {
        do_validate(req, tickets)
    } else {
        let mut out = String::new();
        push_str(&mut out, "FAIL invalid request");
        out
    }
}

/// What the kernel said when asked whether a process exists.
pub enum Probe {
    /// The process exists (or exists and may not be signalled).
    Exists,
    /// There is no such process.
    NoSuchProcess,
    /// The kernel refused the question for another reason.
    Failed,
}

/// Asks the kernel whether process `pid` exists: `nix::sys::signal::kill`
/// with no signal. Returns the pid asked about and the answer:
/// `NoSuchProcess` is the `ESRCH` error, `Exists` success, `Failed` any
/// other error. Nothing is claimed of the answer: it depends on the
/// processes running at the time.
#[verifier::external_body]
fn probe_process(pid: i32) -> (r: (i32, Probe))
    ensures
        r.0 == pid,
{
    match nix::sys::signal::kill(nix::unistd::Pid::from_raw(pid), None) {
        Ok(()) => (pid, Probe::Exists),
        Err(nix::errno::Errno::ESRCH) => (pid, Probe::NoSuchProcess),
        Err(_) => (pid, Probe::Failed),
    }
}

/// Frees every held slot whose holder is gone (`gone[i]`), and returns the
/// freed slots in increasing order.
pub fn reclaim_gone(tickets: &mut Tickets, gone: &Vec<bool>) -> (r: Vec<usize>)
    requires
        gone.len() == MAXUSERS,
    ensures
        forall|i: int|
            0 <= i < MAXUSERS ==> #[trigger] final(tickets)@[i] == if old(tickets)@[i]
                != TICKET_AVAIL && gone@[i] {
                TICKET_AVAIL
            } else {
                old(tickets)@[i]
            },
        final(tickets)@.len() == MAXUSERS,
        r@ == Seq::new(MAXUSERS as nat, |i: int| i as usize).filter(
            |i: usize| old(tickets)@[i as int] != TICKET_AVAIL && gone@[i as int],
        ),
{
    let ghost pred = |i: usize| old(tickets)@[i as int] != TICKET_AVAIL && gone@[i as int];
    let ghost all = Seq::new(MAXUSERS as nat, |i: int| i as usize);
    let mut freed: Vec<usize> = Vec::new();
    let mut i: usize = 0;
    while i < MAXUSERS
        invariant
            i <= MAXUSERS,
            gone.len() == MAXUSERS,
            tickets@.len() == MAXUSERS,
            old(tickets)@.len() == MAXUSERS,
            forall|j: int|
                0 <= j < i ==> #[trigger] tickets@[j] == if old(tickets)@[j] != TICKET_AVAIL
                    && gone@[j] {
                    TICKET_AVAIL
                } else {
                    old(tickets)@[j]
                },
            forall|j: int| i <= j < MAXUSERS ==> #[trigger] tickets@[j] == old(tickets)@[j],
            pred == (|i: usize| old(tickets)@[i as int] != TICKET_AVAIL && gone@[i as int]),
            all == Seq::new(MAXUSERS as nat, |i: int| i as usize),
            freed@ == all.take(i as int).filter(pred),
        decreases MAXUSERS - i,
    {
        assert(all.take(i + 1).drop_last() == all.take(i as int));
        assert(all.take(i + 1).last() == i);
        reveal_with_fuel(Seq::filter, 1);
        if tickets.get(i) != TICKET_AVAIL && gone[i] {
            tickets.set(i, TICKET_AVAIL);
            freed.push(i);
        }
        i = i + 1;
    }
    assert(all.take(MAXUSERS as int) == all);
    freed
}

/// Filtering with two tests that agree on every element gives the same.
proof fn lemma_filter_agree(s: Seq<usize>, p: spec_fn(usize) -> bool, q: spec_fn(usize) -> bool)
    requires
        forall|k: int| 0 <= k < s.len() ==> #[trigger] p(s[k]) == q(s[k]),
    ensures
        s.filter(p) == s.filter(q),
    decreases s.len(),
{
    reveal_with_fuel(Seq::filter, 1);
    if s.len() > 0 {
        let t = s.drop_last();
        assert forall|k: int| 0 <= k < t.len() implies #[trigger] p(t[k]) == q(t[k]) by {
            assert(t[k] == s[k]);
        }
        lemma_filter_agree(t, p, q);
        assert(p(s[s.len() - 1]) == q(s[s.len() - 1]));
    }
}

/// Whether the answer for a slot is the kernel's answer about `pid`.
pub open spec fn asked_about(a: Option<(i32, Probe)>, pid: i32) -> bool {
    a matches Some((p, _)) && p == pid
}

/// Whether the kernel's answer for a slot says its holder is gone.
pub open spec fn reported_gone(a: Option<(i32, Probe)>) -> bool {
    a matches Some((_, Probe::NoSuchProcess))
}

/// Frees the tickets of processes that no longer exist. For each held
/// slot it asks the kernel about the pid holding it; a free slot is not
/// asked about. Returns the freed slots in increasing order and, slot by
/// slot, what was asked and answered (`None` for a free slot). A slot is
/// freed exactly when the kernel said its holder does not exist; every
/// other slot keeps its holder.
pub fn ticket_reclaim(tickets: &mut Tickets) -> (r: (Vec<usize>, Vec<Option<(i32, Probe)>>))
    ensures
        r.1.len() == MAXUSERS,
        forall|i: int|
            0 <= i < MAXUSERS ==> (old(tickets)@[i] == TICKET_AVAIL ==> #[trigger] r.1@[i] is None)
                && (old(tickets)@[i] != TICKET_AVAIL ==> asked_about(r.1@[i], old(tickets)@[i])),
        final(tickets)@.len() == MAXUSERS,
        forall|i: int|
            0 <= i < MAXUSERS ==> #[trigger] final(tickets)@[i] == if reported_gone(r.1@[i]) {
                TICKET_AVAIL
            } else {
                old(tickets)@[i]
            },
        r.0@ == Seq::new(MAXUSERS as nat, |i: int| i as usize).filter(
            |i: usize| reported_gone(r.1@[i as int]),
        ),
{
    let mut answers: Vec<Option<(i32, Probe)>> = Vec::new();
    let mut gone: Vec<bool> = Vec::new();
    let mut i: usize = 0;
    while i < MAXUSERS
        invariant
            i <= MAXUSERS,
            gone.len() == i,
            answers.len() == i,
            tickets@.len() == MAXUSERS,
            forall|j: int|
                0 <= j < i ==> (tickets@[j] == TICKET_AVAIL ==> #[trigger] answers@[j] is None)
                    && (tickets@[j] != TICKET_AVAIL ==> asked_about(answers@[j], tickets@[j])),
            forall|j: int| 0 <= j < i ==> #[trigger] gone@[j] == reported_gone(answers@[j]),
        decreases MAXUSERS - i,
    {
        let pid = tickets.get(i);
        let a = if pid != TICKET_AVAIL {
            Some(probe_process(pid))
        } else {
            None
        };
        let g = match &a {
            Some((_, Probe::NoSuchProcess)) => true,
            _ => false,
        };
        answers.push(a);
        gone.push(g);
        i = i + 1;
    }
    let ghost before = tickets@;
    let freed = reclaim_gone(tickets, &gone);
    proof {
        let pred = |i: usize| before[i as int] != TICKET_AVAIL && gone@[i as int];
        let pred2 = |i: usize| reported_gone(answers@[i as int]);
        let all = Seq::new(MAXUSERS as nat, |i: int| i as usize);
        assert forall|k: int| 0 <= k < all.len() implies #[trigger] pred(all[k]) == pred2(all[k]) by {
            assert(gone@[k] == reported_gone(answers@[k]));
        }
        lemma_filter_agree(all, pred, pred2);
        assert forall|i: int| 0 <= i < MAXUSERS implies #[trigger] tickets@[i] == if reported_gone(
            answers@[i],
        ) {
            TICKET_AVAIL
        } else {
            before[i]
        } by {
            assert(gone@[i] == reported_gone(answers@[i]));
        }
    }
    (freed, answers)
}

/// `dec_int(x)`: non-empty, no whitespace or `.` in it, and it neither starts
/// nor ends with whitespace.
proof fn lemma_dec_int_chars(x: int)
    ensures
        dec_int(x).len() > 0,
        forall|j: int| 0 <= j < dec_int(x).len() ==> !is_ws(#[trigger] dec_int(x)[j]) && dec_int(x)[j] != '.',
{
    let m: nat = if x < 0 {
        (-x) as nat
    } else {
        x as nat
    };
    law_parse_usize_undoes_format(0);
    lemma_dec_nat_all_digits(m);
    if x < 0 {
        assert forall|j: int| 0 <= j < dec_int(x).len() implies !is_ws(#[trigger] dec_int(x)[j])
            && dec_int(x)[j] != '.' by {
            if j > 0 {
                assert(dec_int(x)[j] == dec_nat(m)[j - 1]);
            }
        }
    }
}

proof fn lemma_dec_nat_all_digits(n: nat)
    ensures
        all_digits(dec_nat(n)),
    decreases n,
{
    if n >= 10 {
        lemma_dec_nat_all_digits(n / 10);
        assert(dec_nat(n).drop_last() == dec_nat(n / 10));
    }
}

proof fn lemma_no_dot(a: Seq<char>)
    requires
        forall|j: int| 0 <= j < a.len() ==> a[j] != '.',
    ensures
        first_index(a, '.') is None,
{
    lemma_index_of_first(a, '.');
}

/// `trim`, the `.` split and the number parsing read a ticket text back as
/// the pid and slot it was made of.
pub(crate) proof fn lemma_ticket_reads_back(pid: i32, slot: usize)
    ensures
        trim(ticket_text(pid, slot as int)) == ticket_text(pid, slot as int),
        split_one_dot(ticket_text(pid, slot as int)) == Some(
            (dec_int(pid as int), dec_int(slot as int)),
        ),
{
    let a = dec_int(pid as int);
    let b = dec_int(slot as int);
    let tk = ticket_text(pid, slot as int);
    lemma_dec_int_chars(pid as int);
    lemma_dec_int_chars(slot as int);
    assert(tk == a + "."@ + b);
    reveal_strlit(".");
    assert(tk[0] == a[0]);
    assert(tk[tk.len() - 1] == b[b.len() - 1]);
    lemma_trim_start(tk, 0);
    assert(tk.skip(0) == tk);
    assert forall|j: int| tk.len() <= j < tk.len() implies is_ws(#[trigger] tk[j]) by {}
    lemma_trim_end(tk, tk.len() as int);
    assert(tk.take(tk.len() as int) == tk);
    let i = a.len() as int;
    assert(tk[i] == '.');
    assert forall|j: int| 0 <= j < i implies tk[j] != '.' by {
        assert(tk[j] == a[j]);
    }
    lemma_index_of_first_is(tk, '.', i);
    assert(tk.skip(i + 1) == b);
    assert(tk.take(i) == a);
    lemma_no_dot(b);
}

proof fn lemma_free_slot_exists(t: Seq<i32>)
    ensures
        taken_count(t) <= t.len(),
        taken_count(t) < t.len() ==> exists|i: int| 0 <= i < t.len() && t[i] == TICKET_AVAIL,
    decreases t.len(),
{
    if t.len() > 0 {
        lemma_free_slot_exists(t.drop_last());
        if taken_count(t) < t.len() && t.last() != TICKET_AVAIL {
            let i = choose|i: int| 0 <= i < t.drop_last().len() && t.drop_last()[i] == TICKET_AVAIL;
            assert(t[i] == TICKET_AVAIL);
        }
    }
}

/// A request made of a five-character ASCII command and a ticket text is
/// read back as that ticket.
pub(crate) proof fn lemma_ticket_request(cmd: Seq<char>, pid: i32, slot: usize)
    requires
        cmd.len() == 5,
        vstd::utf8::is_ascii_chars(cmd),
    ensures
        boundary_at(cmd + ticket_text(pid, slot as int), 5),
        request_arg(cmd + ticket_text(pid, slot as int)) == ticket_text(pid, slot as int),
        ticket_of(cmd + ticket_text(pid, slot as int)) == Some((pid, slot)),
{
    let tk = ticket_text(pid, slot as int);
    lemma_from_byte_after_ascii(cmd, tk);
    lemma_ticket_reads_back(pid, slot);
    law_parse_i32_undoes_format(pid);
    law_parse_usize_undoes_format(slot);
}

/// A ticket the server hands out is valid: after `HELO` is answered
/// `TICK pid.slot`, the request `VALD pid.slot` is answered
/// `GOOD Valid ticket`.
pub proof fn law_issued_ticket_validates(t: Seq<i32>, req: Seq<char>)
    requires
        t.len() == MAXUSERS,
        first_free(t) is Some,
        taken_count(t) < MAXUSERS,
    ensures
        ({
            let i = first_free(t)->0;
            let tk = ticket_text(hello_pid(req), i);
            let (after, reply) = hello_spec(t, req);
            &&& reply == "TICK "@ + tk
            &&& request_ok("VALD "@ + tk)
            &&& handle_spec(after, "VALD "@ + tk) == (after, "GOOD Valid ticket"@)
        }),
{
    let i = first_free(t)->0;
    let pid = hello_pid(req);
    let tk = ticket_text(pid, i);
    let v = "VALD "@ + tk;
    let after = hello_spec(t, req).0;
    lemma_index_of_first(t, TICKET_AVAIL);
    assert(handle_spec(after, v) == (after, validate_spec(after, v))) by {
        reveal_strlit("VALD ");
        reveal_strlit("VALD");
        reveal_strlit("HELO");
        reveal_strlit("GBYE");
        assert(!starts_with(v, "HELO"@)) by {
            assert(v.take(4)[0] == 'V');
        }
        assert(!starts_with(v, "GBYE"@)) by {
            assert(v.take(4)[0] == 'V');
        }
        assert(starts_with(v, "VALD"@)) by {
            assert(v.take(4) =~= "VALD"@);
        }
    }
    assert(validate_spec(after, v) == "GOOD Valid ticket"@ && boundary_at(v, 5)) by {
        reveal_strlit("VALD ");
        lemma_ticket_request("VALD "@, pid, i as usize);
    }
}

/// Giving back a ticket just handed out undoes the hand-out: when a ticket
/// is left, `HELO` is answered `TICK pid.slot`, and `GBYE pid.slot` is then
/// answered `THNX See ya!` and leaves the table as it was before the `HELO`.
pub proof fn law_return_undoes_hello(t: Seq<i32>, req: Seq<char>)
    requires
        t.len() == MAXUSERS,
        taken_count(t) < MAXUSERS,
    ensures
        first_free(t) is Some,
        ({
            let tk = ticket_text(hello_pid(req), first_free(t)->0);
            let (after, reply) = hello_spec(t, req);
            &&& reply == "TICK "@ + tk
            &&& request_ok("GBYE "@ + tk)
            &&& handle_spec(after, "GBYE "@ + tk) == (t, "THNX See ya!"@)
        }),
{
    lemma_free_slot_exists(t);
    lemma_index_of_first(t, TICKET_AVAIL);
    let i = first_free(t)->0;
    let pid = hello_pid(req);
    let tk = ticket_text(pid, i);
    let g = "GBYE "@ + tk;
    let after = t.update(i, pid);
    assert(hello_spec(t, req) == (after, "TICK "@ + tk));
    assert(handle_spec(after, g) == goodbye_spec(after, g)) by {
        reveal_strlit("GBYE ");
        reveal_strlit("HELO");
        reveal_strlit("GBYE");
        assert(!starts_with(g, "HELO"@)) by {
            assert(g.take(4)[0] == 'G');
        }
        assert(starts_with(g, "GBYE"@)) by {
            assert(g.take(4) =~= "GBYE"@);
        }
    }
    assert(boundary_at(g, 5) && ticket_of(g) == Some((pid, i as usize))) by {
        reveal_strlit("GBYE ");
        lemma_ticket_request("GBYE "@, pid, i as usize);
    }
    assert(after.update(i, TICKET_AVAIL) =~= t);
}

/// A ticket given back is no longer valid: when slot `slot` holds `pid`
/// (not `TICKET_AVAIL`), `GBYE pid.slot` frees it with `THNX See ya!`, and
/// `VALD pid.slot` is then refused.
pub proof fn law_returned_ticket_is_invalid(t: Seq<i32>, pid: i32, slot: usize)
    requires
        t.len() == MAXUSERS,
        slot < MAXUSERS,
        t[slot as int] == pid,
        pid != TICKET_AVAIL,
    ensures
        ({
            let tk = ticket_text(pid, slot as int);
            let (after, reply) = handle_spec(t, "GBYE "@ + tk);
            &&& request_ok("GBYE "@ + tk)
            &&& after == t.update(slot as int, TICKET_AVAIL)
            &&& reply == "THNX See ya!"@
            &&& handle_spec(after, "VALD "@ + tk) == (after, "FAIL invalid ticket"@)
        }),
{
    let tk = ticket_text(pid, slot as int);
    let g = "GBYE "@ + tk;
    let v = "VALD "@ + tk;
    let after = t.update(slot as int, TICKET_AVAIL);
    assert(handle_spec(t, g) == goodbye_spec(t, g)) by {
        reveal_strlit("GBYE ");
        reveal_strlit("HELO");
        reveal_strlit("GBYE");
        assert(!starts_with(g, "HELO"@)) by {
            assert(g.take(4)[0] == 'G');
        }
        assert(starts_with(g, "GBYE"@)) by {
            assert(g.take(4) =~= "GBYE"@);
        }
    }
    assert(goodbye_spec(t, g) == (after, "THNX See ya!"@) && boundary_at(g, 5)) by {
        reveal_strlit("GBYE ");
        lemma_ticket_request("GBYE "@, pid, slot);
    }
    assert(handle_spec(after, v) == (after, validate_spec(after, v))) by {
        reveal_strlit("VALD ");
        reveal_strlit("VALD");
        reveal_strlit("HELO");
        reveal_strlit("GBYE");
        assert(!starts_with(v, "HELO"@)) by {
            assert(v.take(4)[0] == 'V');
        }
        assert(!starts_with(v, "GBYE"@)) by {
            assert(v.take(4)[0] == 'V');
        }
        assert(starts_with(v, "VALD"@)) by {
            assert(v.take(4) =~= "VALD"@);
        }
    }
    assert(validate_spec(after, v) == "FAIL invalid ticket"@) by {
        reveal_strlit("VALD ");
        lemma_ticket_request("VALD "@, pid, slot);
    }
}

/// `HELO` is refused with `FAIL no tickets available` exactly when every
/// ticket is held, and then the table does not change; otherwise it is
/// answered with a ticket.
pub proof fn law_hello_refused_iff_full(t: Seq<i32>, req: Seq<char>)
    requires
        t.len() == MAXUSERS,
    ensures
        taken_count(t) <= MAXUSERS,
        (hello_spec(t, req).1 == "FAIL no tickets available"@) <==> taken_count(t) >= MAXUSERS,
        taken_count(t) >= MAXUSERS ==> hello_spec(t, req).0 == t,
        taken_count(t) < MAXUSERS ==> starts_with(hello_spec(t, req).1, "TICK "@),
{
    lemma_free_slot_exists(t);
    reveal_strlit("FAIL no tickets available");
    reveal_strlit("TICK ");
    lemma_index_of_first(t, TICKET_AVAIL);
    if taken_count(t) < MAXUSERS {
        let i = choose|i: int| 0 <= i < t.len() && t[i] == TICKET_AVAIL;
        assert(first_free(t) is Some);
        let r = hello_spec(t, req).1;
        assert(r[0] == 'T');
        assert(r.take(5) =~= "TICK "@);
    }
}

} // verus!
