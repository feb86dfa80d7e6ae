//! The first license server: the same ticket table as `tickets`, with a
//! count of the tickets handed out, and only `HELO` and `GBYE`.  It trusts
//! its clients: a request it cannot read makes it stop, so its handlers
//! state in `requires` which requests they take.

use vstd::prelude::*;
use crate::text::{
    boundary_at, char_boundary, find_char, first_index, law_parse_i32_undoes_format,
    law_parse_usize_undoes_format, lemma_index_of_first, parse_i32, parse_i32_spec, parse_usize,
    parse_usize_spec, push_dec_i64, push_dec_u64, push_str, starts_with, str_starts_with, sub_chars,
};
use crate::tickets::{taken_count, 
    arg_chars, find_free, first_free, lemma_ticket_reads_back, lemma_ticket_request, request_arg,
    split_one_dot, ticket_text, MAXUSERS, TICKET_AVAIL, Tickets,
};

verus! {

/// The first two `.`-separated fields of `a` (what follows a second `.` is
/// ignored); `None` when `a` has no `.`.
pub open spec fn two_fields(a: Seq<char>) -> Option<(Seq<char>, Seq<char>)> {
    match first_index(a, '.') {
        Some(i) => {
            let rest = a.skip(i + 1);
            Some(
                (
                    a.take(i),
                    match first_index(rest, '.') {
                        Some(j) => rest.take(j),
                        None => rest,
                    },
                ),
            )
        },
        None => None,
    }
}

/// The pid and slot of a `GBYE` request, when both parse.
pub open spec fn goodbye_ticket(req: Seq<char>) -> Option<(i32, usize)> {
    match two_fields(request_arg(req)) {
        Some((p, s)) => match (parse_i32_spec(p), parse_usize_spec(s)) {
            (Some(pid), Some(slot)) => Some((pid, slot)),
            _ => None,
        },
        None => None,
    }
}

/// Whether the server can answer `HELO` in this state without stopping:
/// when a ticket is left, a slot is free and the pid parses.
pub open spec fn hello_ok(t: Seq<i32>, out: int, req: Seq<char>) -> bool {
    out < MAXUSERS ==> {
        &&& first_free(t) is Some
        &&& boundary_at(req, 5)
        &&& parse_i32_spec(request_arg(req)) is Some
    }
}

/// The table, the count and the reply after `HELO`.
pub open spec fn counted_hello(t: Seq<i32>, out: int, req: Seq<char>) -> (Seq<i32>, int, Seq<char>) {
    if out >= MAXUSERS {
        (t, out, "FAIL no tickets available"@)
    } else {
        let i = first_free(t)->0;
        let pid = parse_i32_spec(request_arg(req))->0;
        (t.update(i, pid), out + 1, "TICK "@ + ticket_text(pid, i))
    }
}

/// Whether the server can answer `GBYE` without stopping: the request holds
/// a pid and a slot that parse, the slot exists, and the count can go down.
pub open spec fn goodbye_ok(t: Seq<i32>, out: int, req: Seq<char>) -> bool {
    &&& boundary_at(req, 5)
    &&& goodbye_ticket(req) matches Some((pid, slot)) && slot < MAXUSERS && (t[slot as int] == pid
        ==> out > i32::MIN)
}

/// The table, the count and the reply after `GBYE`.
pub open spec fn counted_goodbye(t: Seq<i32>, out: int, req: Seq<char>) -> (Seq<i32>, int, Seq<char>) {
    let (pid, slot) = goodbye_ticket(req)->0;
    if t[slot as int] != pid {
        (t, out, "FAIL invalid ticket"@)
    } else {
        (t.update(slot as int, TICKET_AVAIL), out - 1, "THNX See ya!"@)
    }
}

/// Whether the server can answer `req` without stopping.
pub open spec fn counted_request_ok(t: Seq<i32>, out: int, req: Seq<char>) -> bool {
    &&& starts_with(req, "HELO"@) ==> hello_ok(t, out, req)
    &&& !starts_with(req, "HELO"@) && starts_with(req, "GBYE"@) ==> goodbye_ok(t, out, req)
}

/// The table, the count and the reply after any request.
pub open spec fn counted_handle(t: Seq<i32>, out: int, req: Seq<char>) -> (Seq<i32>, int, Seq<char>) {
    if starts_with(req, "HELO"@) {
        counted_hello(t, out, req)
    } else if starts_with(req, "GBYE"@) {
        counted_goodbye(t, out, req)
    } else {
        (t, out, "FAIL invalid request"@)
    }
}

/// The ticket table and the number of tickets handed out.
pub struct CountedTickets {
    table: Tickets,
    num_out: i32,
}

impl CountedTickets {
    /// The pid in each slot.
    pub closed spec fn slots(&self) -> Seq<i32> {
        self.table@
    }

    /// The number of tickets handed out and not given back.
    pub closed spec fn out(&self) -> int {
        self.num_out as int
    }

    /// The table has `MAXUSERS` slots.
    pub closed spec fn wf(&self) -> bool {
        self.table@.len() == MAXUSERS
    }

    /// A server with every ticket free and none handed out.
    pub fn new() -> (r: CountedTickets)
        ensures
            r.wf(),
            r.slots() == Seq::new(MAXUSERS as nat, |i: int| TICKET_AVAIL),
            r.out() == 0,
    {
        CountedTickets { table: Tickets::new(), num_out: 0 }
    }

    /// The number of tickets handed out.
    pub fn num_out(&self) -> (r: i32)
        ensures
            r == self.out(),
    {
        self.num_out
    }

    /// Frees every slot; the count is left as it is.
    pub fn free_all_tickets(&mut self)
        ensures
            final(self).wf(),
            final(self).slots() == Seq::new(MAXUSERS as nat, |i: int| TICKET_AVAIL),
            final(self).out() == old(self).out(),
    {
        self.table.free_all();
    }

    /// Answers `HELO pid`: refused when all tickets are out, else the lowest
    /// free slot goes to `pid` and the count goes up.
    pub fn do_hello(&mut self, req: &str) -> (r: String)
        requires
            old(self).wf(),
            hello_ok(old(self).slots(), old(self).out(), req@),
        ensures
            final(self).wf(),
            (final(self).slots(), final(self).out(), r@) == counted_hello(
                old(self).slots(),
                old(self).out(),
                req@,
            ),
    {
        let mut out = String::new();
        if self.num_out >= MAXUSERS as i32 {
            push_str(&mut out, "FAIL no tickets available");
            return out;
        }
        let x = match find_free(&self.table) {
            Some(i) => i,
            None => {
                assert(false);
                0
            },
        };
        let a = arg_chars(req);
        let pid = match parse_i32(&a) {
            Some(p) => p,
            None => {
                assert(false);
                0
            },
        };
        self.table.set(x, pid);
        self.num_out = self.num_out + 1;
        push_str(&mut out, "TICK ");
        push_dec_i64(&mut out, pid as i64);
        push_str(&mut out, ".");
        push_dec_u64(&mut out, x as u64);
        assert(out@ == "TICK "@ + ticket_text(pid, x as int));
        out
    }

    /// Answers `GBYE pid.slot`: frees the slot and counts the ticket back
    /// when `pid` holds it, else refuses.
    pub fn do_goodbye(&mut self, req: &str) -> (r: String)
        requires
            old(self).wf(),
            goodbye_ok(old(self).slots(), old(self).out(), req@),
        ensures
            final(self).wf(),
            (final(self).slots(), final(self).out(), r@) == counted_goodbye(
                old(self).slots(),
                old(self).out(),
                req@,
            ),
    {
        let a = arg_chars(req);
        let (p, s) = match first_two_fields(&a) {
            Some(f) => f,
            None => {
                assert(false);
                (Vec::new(), Vec::new())
            },
        };
        let pid = match parse_i32(&p) {
            Some(v) => v,
            None => {
                assert(false);
                0
            },
        };
        let slot = match parse_usize(&s) {
            Some(v) => v,
            None => {
                assert(false);
                0
            },
        };
        let mut out = String::new();
        if self.table.get(slot) != pid {
            push_str(&mut out, "FAIL invalid ticket");
            return out;
        }
        self.table.set(slot, TICKET_AVAIL);
        self.num_out = self.num_out - 1;
        push_str(&mut out, "THNX See ya!");
        out
    }

    /// The pid in `slot`.
    pub fn holder(&self, slot: usize) -> (r: i32)
        requires
            self.wf(),
            slot < MAXUSERS,
        ensures
            r == self.slots()[slot as int],
    {
        self.table.get(slot)
    }

    /// Whether the server can answer `req` without stopping (see
    /// `counted_request_ok`).
    pub fn can_answer(&self, req: &str) -> (r: bool)
        requires
            self.wf(),
        ensures
            r == counted_request_ok(self.slots(), self.out(), req@),
    {
        if str_starts_with(req, "HELO") {
            if self.num_out >= MAXUSERS as i32 {
                return true;
            }
            if find_free(&self.table).is_none() || !char_boundary(req, 5) {
                return false;
            }
            let a = arg_chars(req);
            parse_i32(&a).is_some()
        } else if str_starts_with(req, "GBYE") {
            if !char_boundary(req, 5) {
                return false;
            }
            let a = arg_chars(req);
            match first_two_fields(&a) {
                None => false,
                Some((p, s)) => match (parse_i32(&p), parse_usize(&s)) {
                    (Some(pid), Some(slot)) => {
                        if slot >= MAXUSERS {
                            false
                        } else {
                            self.table.get(slot) != pid || self.num_out > i32::MIN
                        }
                    },
                    _ => false,
                },
            }
        } else {
            true
        }
    }

    /// Answers one request: `HELO` and `GBYE` go to their handlers,
    /// anything else is refused.
    pub fn handle_request(&mut self, req: &str) -> (r: String)
        requires
            old(self).wf(),
            counted_request_ok(old(self).slots(), old(self).out(), req@),
        ensures
            final(self).wf(),
            (final(self).slots(), final(self).out(), r@) == counted_handle(
                old(self).slots(),
                old(self).out(),
                req@,
            ),
    {
        if str_starts_with(req, "HELO") {
            self.do_hello(req)
        } else if str_starts_with(req, "GBYE") {
            self.do_goodbye(req)
        } else {
            let mut out = String::new();
            push_str(&mut out, "FAIL invalid request");
            out
        }
    }
}

/// Splits `a` into its first two `.`-separated fields.
fn first_two_fields(a: &Vec<char>) -> (r: Option<(Vec<char>, Vec<char>)>)
    ensures
        match r {
            Some((p, s)) => two_fields(a@) == Some((p@, s@)),
            None => two_fields(a@) is None,
        },
{
    match find_char(a, '.') {
        None => None,
        Some(i) => {
            let p = sub_chars(a, 0, i);
            let rest = sub_chars(a, i + 1, a.len());
            assert(p@ == a@.take(i as int));
            assert(rest@ == a@.skip(i + 1));
            match find_char(&rest, '.') {
                Some(j) => {
                    let s = sub_chars(&rest, 0, j);
                    assert(s@ == rest@.take(j as int));
                    Some((p, s))
                },
                None => Some((p, rest)),
            }
        },
    }
}

/// With a single `.`, the first two fields are the two sides of it.
proof fn lemma_two_fields_of_one_dot(a: Seq<char>)
    requires
        split_one_dot(a) is Some,
    ensures
        two_fields(a) == split_one_dot(a),
{
}

/// A ticket handed out can be given back, and giving it back undoes the
/// hand-out: after `HELO` is answered `TICK pid.slot`, `GBYE pid.slot` is
/// answered `THNX See ya!` and leaves the table and the count as they were
/// before the `HELO`.
pub proof fn law_return_undoes_issue(t: Seq<i32>, out: int, req: Seq<char>)
    requires
        t.len() == MAXUSERS,
        i32::MIN <= out < MAXUSERS,
        hello_ok(t, out, req),
    ensures
        ({
            let (t1, out1, reply) = counted_hello(t, out, req);
            let tk = ticket_text(parse_i32_spec(request_arg(req))->0, first_free(t)->0);
            &&& reply == "TICK "@ + tk
            &&& counted_request_ok(t1, out1, "GBYE "@ + tk)
            &&& counted_handle(t1, out1, "GBYE "@ + tk) == (t, out, "THNX See ya!"@)
        }),
{
    let i = first_free(t)->0;
    let pid = parse_i32_spec(request_arg(req))->0;
    let tk = ticket_text(pid, i);
    let g = "GBYE "@ + tk;
    let t1 = t.update(i, pid);
    lemma_index_of_first(t, TICKET_AVAIL);
    reveal_strlit("GBYE ");
    reveal_strlit("HELO");
    reveal_strlit("GBYE");
    assert(!starts_with(g, "HELO"@)) by {
        assert(g.take(4)[0] == 'G');
    }
    assert(starts_with(g, "GBYE"@)) by {
        assert(g.take(4) =~= "GBYE"@);
    }
    lemma_ticket_request("GBYE "@, pid, i as usize);
    lemma_ticket_reads_back(pid, i as usize);
    lemma_two_fields_of_one_dot(tk);
    law_parse_i32_undoes_format(pid);
    law_parse_usize_undoes_format(i as usize);
    assert(goodbye_ticket(g) == Some((pid, i as usize)));
    assert(t1.update(i, TICKET_AVAIL) =~= t);
}

/// Changing one slot changes the number of held slots by what the slot
/// held and what it holds now.
proof fn lemma_taken_count_update(t: Seq<i32>, i: int, v: i32)
    requires
        0 <= i < t.len(),
    ensures
        taken_count(t.update(i, v)) + (if t[i] != TICKET_AVAIL {
            1int
        } else {
            0int
        }) == taken_count(t) + (if v != TICKET_AVAIL {
            1int
        } else {
            0int
        }),
    decreases t.len(),
{
    let u = t.update(i, v);
    if i == t.len() - 1 {
        assert(u.drop_last() =~= t.drop_last());
    } else {
        assert(u.drop_last() =~= t.drop_last().update(i, v));
        lemma_taken_count_update(t.drop_last(), i, v);
    }
}

/// Whether the ticket a request hands out or gives back names a process
/// (a pid other than `TICKET_AVAIL`), when the request changes the table.
pub open spec fn names_a_process(out: int, req: Seq<char>) -> bool {
    &&& starts_with(req, "HELO"@) && out < MAXUSERS ==> parse_i32_spec(request_arg(req))->0
        != TICKET_AVAIL
    &&& !starts_with(req, "HELO"@) && starts_with(req, "GBYE"@) ==> (goodbye_ticket(req)->0).0
        != TICKET_AVAIL
}

/// The count of tickets handed out is the number of held slots: when it is
/// so before a request that the server can answer and whose ticket names a
/// process, it is so after it. (A request for pid `TICKET_AVAIL` breaks it:
/// `HELO 0` counts a ticket whose slot still reads free.)
pub proof fn law_count_is_held_slots(t: Seq<i32>, out: int, req: Seq<char>)
    requires
        t.len() == MAXUSERS,
        out == taken_count(t),
        counted_request_ok(t, out, req),
        names_a_process(out, req),
    ensures
        ({
            let (t2, out2, _) = counted_handle(t, out, req);
            &&& t2.len() == MAXUSERS
            &&& out2 == taken_count(t2)
        }),
{
    if starts_with(req, "HELO"@) {
        if out < MAXUSERS {
            let i = first_free(t)->0;
            lemma_index_of_first(t, TICKET_AVAIL);
            lemma_taken_count_update(t, i, parse_i32_spec(request_arg(req))->0);
        }
    } else if starts_with(req, "GBYE"@) {
        let (pid, slot) = goodbye_ticket(req)->0;
        if t[slot as int] == pid {
            lemma_taken_count_update(t, slot as int, TICKET_AVAIL);
        }
    }
}

} // verus!
