//! The prompting shell: it asks for a command one argument per line and
//! runs the command when an empty line ends the list.  Also the listing of
//! a program's arguments.

use vstd::prelude::*;
use crate::text::{dec_int, push_dec_u64, push_str, trim};
use crate::shell::makestring;

verus! {

/// The most arguments one command can have; the shell stops when a list
/// reaches it.
pub const MAXARGS: usize = 20;

/// The arguments read so far for the next command.
pub struct ArgList {
    args: Vec<String>,
}

impl ArgList {
    /// The arguments read so far, in order.
    pub closed spec fn view(&self) -> Seq<Seq<char>> {
        self.args.deep_view()
    }

    /// An empty list.
    pub fn new() -> (r: ArgList)
        ensures
            r@ == Seq::<Seq<char>>::empty(),
    {
        ArgList { args: Vec::new() }
    }

    /// The number of arguments read so far.
    pub fn len(&self) -> (r: usize)
        ensures
            r == self@.len(),
    {
        self.args.len()
    }

    /// Whether the list is full, which ends the shell.
    pub fn is_full(&self) -> (r: bool)
        ensures
            r == (self@.len() >= MAXARGS),
    {
        self.args.len() >= MAXARGS
    }

    /// The prompt for the next argument: `Arg[n]? `.
    pub fn prompt(&self) -> (r: String)
        ensures
            r@ == "Arg["@ + dec_int(self@.len() as int) + "]? "@,
    {
        let mut s = String::new();
        push_str(&mut s, "Arg[");
        push_dec_u64(&mut s, self.args.len() as u64);
        push_str(&mut s, "]? ");
        proof {
            reveal_strlit("Arg[");
            reveal_strlit("]? ");
        }
        s
    }

    /// Takes one line.  A line with text adds that text, trimmed, as the
    /// next argument.  An empty (or blank) line ends the list: when the
    /// list has arguments, they are returned with an empty string after
    /// them, ready to run, and the list starts over; a blank line with no
    /// arguments before it is ignored.
    pub fn take_line(&mut self, line: String) -> (r: Option<Vec<String>>)
        ensures
            trim(line@).len() > 0 ==> r is None && final(self)@ == old(self)@.push(trim(line@)),
            trim(line@).len() == 0 && old(self)@.len() > 0 ==> r is Some && r->0.deep_view()
                == old(self)@.push(Seq::<char>::empty()) && final(self)@ == Seq::<
                Seq<char>,
            >::empty(),
            trim(line@).len() == 0 && old(self)@.len() == 0 ==> r is None && final(self)@ == old(
                self,
            )@,
    {
        let arg = makestring(line);
        if arg.as_str().is_empty() {
            if self.args.len() > 0 {
                let mut cmd = Vec::new();
                std::mem::swap(&mut cmd, &mut self.args);
                let ghost before = cmd.deep_view();
                cmd.push(String::new());
                assert(cmd.deep_view() =~= before.push(Seq::<char>::empty()));
                assert(self.args.deep_view() =~= Seq::<Seq<char>>::empty());
                Some(cmd)
            } else {
                None
            }
        } else {
            let ghost before = self.args.deep_view();
            self.args.push(arg);
            assert(self.args.deep_view() =~= before.push(trim(line@)));
            None
        }
    }
}

/// The lines that list a program's arguments: the count, then each
/// argument with its index.
pub open spec fn arg_listing(args: Seq<Seq<char>>) -> Seq<Seq<char>> {
    seq!["Number of args: "@ + dec_int(args.len() as int) + ", Args are:"@] + Seq::new(
        args.len(),
        |i: int| "args["@ + dec_int(i) + "] "@ + args[i],
    )
}

/// Lists a program's arguments.
pub fn listargs_lines(args: &Vec<String>) -> (r: Vec<String>)
    ensures
        r.deep_view() == arg_listing(args.deep_view()),
{
    let mut out: Vec<String> = Vec::new();
    let mut first = String::new();
    push_str(&mut first, "Number of args: ");
    push_dec_u64(&mut first, args.len() as u64);
    push_str(&mut first, ", Args are:");
    out.push(first);
    let ghost head = seq!["Number of args: "@ + dec_int(args.len() as int) + ", Args are:"@];
    assert(out.deep_view() =~= head);
    let ghost lines = Seq::new(
        args.len() as nat,
        |i: int| "args["@ + dec_int(i) + "] "@ + args.deep_view()[i],
    );
    let mut i: usize = 0;
    while i < args.len()
        invariant
            i <= args.len(),
            lines == Seq::new(
                args.len() as nat,
                |i: int| "args["@ + dec_int(i) + "] "@ + args.deep_view()[i],
            ),
            out.deep_view() == head + lines.take(i as int),
        decreases args.len() - i,
    {
        let mut line = String::new();
        push_str(&mut line, "args[");
        push_dec_u64(&mut line, i as u64);
        push_str(&mut line, "] ");
        push_str(&mut line, args[i].as_str());
        let ghost before = out.deep_view();
        out.push(line);
        assert(lines.take(i + 1) =~= lines.take(i as int).push(lines[i as int]));
        assert(out.deep_view() =~= before.push(lines[i as int]));
        i = i + 1;
    }
    assert(lines.take(args.len() as int) =~= lines);
    out
}

} // verus!
