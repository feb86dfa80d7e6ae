//! The small shell: its table of variables, the splitting of a command
//! line into words, and the decisions it takes on a parsed command.

use vstd::prelude::*;
use crate::text::{
    chars_of, find_char, first_index, push_str, split_words, str_eq, string_of, sub_chars, trim,
    trim_chars, words,
};

verus! {

/// A shell variable: its value and whether it is exported to the
/// environment of commands the shell runs.
pub struct Var {
    pub value: String,
    pub global: bool,
}

/// The shell's table of variables.
pub struct VarLib {
    vars: Vec<(String, Var)>,
}

/// One entry of the table as plain values: name, value, exported.
pub type Entry = (Seq<char>, Seq<char>, bool);

/// The names in `s` are pairwise distinct.
pub open spec fn distinct_names(s: Seq<Entry>) -> bool {
    forall|i: int, j: int| 0 <= i < s.len() && 0 <= j < s.len() && i != j ==> s[i].0 != s[j].0
}

/// The map from name to (value, exported) that a list of entries with
/// distinct names stands for.
pub open spec fn entries_map(s: Seq<Entry>) -> Map<Seq<char>, (Seq<char>, bool)> {
    Map::new(
        |k: Seq<char>| exists|i: int| 0 <= i < s.len() && s[i].0 == k,
        |k: Seq<char>|
            {
                let i = choose|i: int| 0 <= i < s.len() && s[i].0 == k;
                (s[i].1, s[i].2)
            },
    )
}

/// In a list with distinct names, the entry at `i` is what the map holds
/// for its name.
pub proof fn lemma_entries_map_at(s: Seq<Entry>, i: int)
    requires
        distinct_names(s),
        0 <= i < s.len(),
    ensures
        entries_map(s).contains_key(s[i].0),
        entries_map(s)[s[i].0] == (s[i].1, s[i].2),
{
    let k = s[i].0;
    assert(exists|j: int| 0 <= j < s.len() && s[j].0 == k);
    let j = choose|j: int| 0 <= j < s.len() && s[j].0 == k;
    assert(j == i);
}

/// The line that `set` prints for one variable.
pub open spec fn list_line(e: Entry) -> Seq<char> {
    if e.2 {
        "  * "@ + e.0 + "="@ + e.1
    } else {
        "    "@ + e.0 + "="@ + e.1
    }
}

/// The `name=value` string of one variable.
pub open spec fn environ_string(e: Entry) -> Seq<char> {
    e.0 + "="@ + e.1
}

impl VarLib {
    /// The entries of the table in the order they were first stored.
    pub closed spec fn entries(&self) -> Seq<Entry> {
        self.vars@.map_values(|e: (String, Var)| (e.0@, e.1.value@, e.1.global))
    }

    /// Well-formed: no two entries share a name.
    pub open spec fn wf(&self) -> bool {
        distinct_names(self.entries())
    }

    /// The table as a map from name to (value, exported).
    pub open spec fn view(&self) -> Map<Seq<char>, (Seq<char>, bool)> {
        entries_map(self.entries())
    }

    /// An empty table.
    pub fn new() -> (r: VarLib)
        ensures
            r.wf(),
            r.entries() == Seq::<Entry>::empty(),
            r.view() == Map::<Seq<char>, (Seq<char>, bool)>::empty(),
    {
        let r = VarLib { vars: Vec::new() };
        assert(r.entries() =~= Seq::<Entry>::empty());
        assert(r.view() =~= Map::<Seq<char>, (Seq<char>, bool)>::empty());
        r
    }

    /// The index of the variable called `name`, if there is one.
    fn find(&self, name: &String) -> (r: Option<usize>)
        ensures
            match r {
                Some(i) => i < self.entries().len() && self.entries()[i as int].0 == name@,
                None => forall|i: int|
                    0 <= i < self.entries().len() ==> self.entries()[i].0 != name@,
            },
    {
        let mut i: usize = 0;
        while i < self.vars.len()
            invariant
                i <= self.vars.len(),
                self.entries().len() == self.vars.len(),
                forall|j: int| 0 <= j < i ==> self.entries()[j].0 != name@,
            decreases self.vars.len() - i,
        {
            if self.vars[i].0 == *name {
                return Some(i);
            }
            i = i + 1;
        }
        None
    }

    /// Sets the variable `name` to `val`, not exported (an exported
    /// variable of that name stops being exported). Always succeeds.
    pub fn store(&mut self, name: &str, val: &str) -> (r: Result<(), &'static str>)
        requires
            old(self).wf(),
        ensures
            final(self).wf(),
            r is Ok,
            final(self)@ == old(self)@.insert(name@, (val@, false)),
            final(self)@ == apply_op(old(self)@, VarOp::Store(name@, val@)),
            ({
                let (o, f) = (old(self).entries(), final(self).entries());
                match find_index(o, name@) {
                    Some(i) => f == o.update(i, (name@, val@, false)),
                    None => f == o.push((name@, val@, false)),
                }
            }),
    {
        let key = name.to_owned();
        let var = Var { value: val.to_owned(), global: false };
        let ghost o = self.entries();
        match self.find(&key) {
            Some(i) => {
                proof {
                    lemma_find_index_unique(o, name@, i as int);
                }
                let mut vars: Vec<(String, Var)> = Vec::new();
                std::mem::swap(&mut vars, &mut self.vars);
                vars.set(i, (key, var));
                self.vars = vars;
                let ghost f = self.entries();
                assert(f =~= o.update(i as int, (name@, val@, false)));
                proof {
                    assert(distinct_names(f));
                    lemma_update_map(o, i as int, val@, false);
                }
            },
            None => {
                proof {
                    lemma_find_index_none(o, name@);
                }
                let mut vars: Vec<(String, Var)> = Vec::new();
                std::mem::swap(&mut vars, &mut self.vars);
                vars.push((key, var));
                self.vars = vars;
                let ghost f = self.entries();
                assert(f =~= o.push((name@, val@, false)));
                proof {
                    lemma_push_map(o, name@, val@, false);
                }
            },
        }
        Ok(())
    }

    /// The value of the variable called `name`, if there is one.
    pub fn lookup(&self, name: &str) -> (r: Option<&str>)
        requires
            self.wf(),
        ensures
            match r {
                Some(v) => self@.contains_key(name@) && v@ == self@[name@].0,
                None => !self@.contains_key(name@),
            },
            match r {
                Some(v) => looked_up(self@, name@) == Some(v@),
                None => looked_up(self@, name@) is None,
            },
    {
        let key = name.to_owned();
        match self.find(&key) {
            Some(i) => {
                proof {
                    lemma_entries_map_at(self.entries(), i as int);
                }
                Some(self.vars[i].1.value.as_str())
            },
            None => None,
        }
    }

    /// The lines that `set` prints: one per variable, `  * name=value` for
    /// an exported one and `    name=value` for another.
    pub fn list(&self) -> (r: Vec<String>)
        ensures
            r.deep_view() == self.entries().map_values(|e: Entry| list_line(e)),
    {
        let mut out: Vec<String> = Vec::new();
        let mut i: usize = 0;
        while i < self.vars.len()
            invariant
                i <= self.vars.len(),
                self.entries().len() == self.vars.len(),
                out.deep_view() == self.entries().take(i as int).map_values(
                    |e: Entry| list_line(e),
                ),
            decreases self.vars.len() - i,
        {
            let mut line = String::new();
            if self.vars[i].1.global {
                push_str(&mut line, "  * ");
            } else {
                push_str(&mut line, "    ");
            }
            push_str(&mut line, self.vars[i].0.as_str());
            push_str(&mut line, "=");
            push_str(&mut line, self.vars[i].1.value.as_str());
            let ghost e = self.entries()[i as int];
            assert(line@ == list_line(e));
            let ghost before = out.deep_view();
            out.push(line);
            assert(out.deep_view() =~= before.push(list_line(e)));
            assert(self.entries().take(i + 1) =~= self.entries().take(i as int).push(e));
            i = i + 1;
        }
        assert(self.entries().take(self.vars.len() as int) =~= self.entries());
        out
    }

    /// Marks the variable called `name` as exported; one that does not
    /// exist yet is first stored with an empty value. Always succeeds.
    pub fn export(&mut self, name: &str) -> (r: Result<(), &'static str>)
        requires
            old(self).wf(),
        ensures
            final(self).wf(),
            r is Ok,
            old(self)@.contains_key(name@) ==> final(self)@ == old(self)@.insert(
                name@,
                (old(self)@[name@].0, true),
            ),
            !old(self)@.contains_key(name@) ==> final(self)@ == old(self)@.insert(
                name@,
                (Seq::empty(), true),
            ),
            final(self)@ == apply_op(old(self)@, VarOp::Export(name@)),
            final(self).entries().len() == old(self).entries().len() + if old(
                self,
            )@.contains_key(name@) {
                0int
            } else {
                1int
            },
    {
        let key = name.to_owned();
        match self.find(&key) {
            Some(i) => {
                self.export_at(i);
            },
            None => {
                let ghost o = self.entries();
                proof {
                    lemma_find_index_none(o, name@);
                }
                let _ = self.store(name, "");
                proof {
                    reveal_strlit("");
                    assert(""@ =~= Seq::<char>::empty());
                }
                let ghost f = self.entries();
                assert(f == o.push((name@, Seq::<char>::empty(), false)));
                let n = self.vars.len() - 1;
                self.export_at(n);
            },
        }
        Ok(())
    }

    /// Marks the entry at `i` as exported.
    fn export_at(&mut self, i: usize)
        requires
            old(self).wf(),
            i < old(self).entries().len(),
        ensures
            final(self).wf(),
            final(self).entries() == old(self).entries().update(
                i as int,
                (old(self).entries()[i as int].0, old(self).entries()[i as int].1, true),
            ),
            final(self)@ == old(self)@.insert(
                old(self).entries()[i as int].0,
                (old(self).entries()[i as int].1, true),
            ),
    {
        let ghost o = self.entries();
        let mut vars: Vec<(String, Var)> = Vec::new();
        std::mem::swap(&mut vars, &mut self.vars);
        vars[i].1.global = true;
        self.vars = vars;
        let ghost f = self.entries();
        assert(f =~= o.update(i as int, (o[i as int].0, o[i as int].1, true)));
        proof {
            lemma_update_map(o, i as int, o[i as int].1, true);
        }
    }

    /// Stores each `(name, value)` pair of `environ` in turn. Always
    /// succeeds.
    pub fn environ_to_table(&mut self, environ: &Vec<(String, String)>) -> (r: Result<
        (),
        &'static str,
    >)
        requires
            old(self).wf(),
        ensures
            final(self).wf(),
            r is Ok,
            final(self)@ == store_all(old(self)@, environ.deep_view()),
    {
        let mut i: usize = 0;
        while i < environ.len()
            invariant
                i <= environ.len(),
                self.wf(),
                self@ == store_all(old(self)@, environ.deep_view().take(i as int)),
            decreases environ.len() - i,
        {
            let _ = self.store(environ[i].0.as_str(), environ[i].1.as_str());
            assert(environ.deep_view().take(i + 1).drop_last() =~= environ.deep_view().take(
                i as int,
            ));
            i = i + 1;
        }
        assert(environ.deep_view().take(environ.len() as int) =~= environ.deep_view());
        Ok(())
    }

    /// The `name=value` strings of the exported variables, in table order.
    pub fn table_to_environ(&self) -> (r: Vec<String>)
        ensures
            r.deep_view() == exported_strings(self.entries()),
    {
        let mut out: Vec<String> = Vec::new();
        let mut i: usize = 0;
        while i < self.vars.len()
            invariant
                i <= self.vars.len(),
                self.entries().len() == self.vars.len(),
                out.deep_view() == exported_strings(self.entries().take(i as int)),
            decreases self.vars.len() - i,
        {
            let ghost e = self.entries()[i as int];
            let ghost before = out.deep_view();
            assert(self.entries().take(i + 1) =~= self.entries().take(i as int).push(e));
            assert(self.entries().take(i + 1).drop_last() == self.entries().take(i as int));
            if self.vars[i].1.global {
                let mut line = String::new();
                push_str(&mut line, self.vars[i].0.as_str());
                push_str(&mut line, "=");
                push_str(&mut line, self.vars[i].1.value.as_str());
                out.push(line);
                assert(out.deep_view() =~= before.push(environ_string(e)));
            }
            i = i + 1;
        }
        assert(self.entries().take(self.vars.len() as int) =~= self.entries());
        out
    }
}

/// The `name=value` strings of the exported entries of `s`, in order.
pub open spec fn exported_strings(s: Seq<Entry>) -> Seq<Seq<char>>
    decreases s.len(),
{
    if s.len() == 0 {
        seq![]
    } else if s.last().2 {
        exported_strings(s.drop_last()).push(environ_string(s.last()))
    } else {
        exported_strings(s.drop_last())
    }
}

/// The index of the first entry called `k`, if there is one.
pub open spec fn find_index(s: Seq<Entry>, k: Seq<char>) -> Option<int> {
    if exists|i: int| 0 <= i < s.len() && s[i].0 == k {
        Some(choose|i: int| 0 <= i < s.len() && s[i].0 == k)
    } else {
        None
    }
}

proof fn lemma_find_index_unique(s: Seq<Entry>, k: Seq<char>, i: int)
    requires
        distinct_names(s),
        0 <= i < s.len(),
        s[i].0 == k,
    ensures
        find_index(s, k) == Some(i),
{
    let j = choose|j: int| 0 <= j < s.len() && s[j].0 == k;
    assert(j == i);
}

proof fn lemma_find_index_none(s: Seq<Entry>, k: Seq<char>)
    requires
        forall|i: int| 0 <= i < s.len() ==> s[i].0 != k,
    ensures
        find_index(s, k) is None,
        !entries_map(s).contains_key(k),
{
}

proof fn lemma_update_map(s: Seq<Entry>, i: int, v: Seq<char>, g: bool)
    requires
        distinct_names(s),
        0 <= i < s.len(),
    ensures
        distinct_names(s.update(i, (s[i].0, v, g))),
        entries_map(s.update(i, (s[i].0, v, g))) == entries_map(s).insert(s[i].0, (v, g)),
{
    let t = s.update(i, (s[i].0, v, g));
    assert forall|a: int, b: int|
        0 <= a < t.len() && 0 <= b < t.len() && a != b implies t[a].0 != t[b].0 by {
        assert(t[a].0 == s[a].0);
        assert(t[b].0 == s[b].0);
    }
    let m = entries_map(s).insert(s[i].0, (v, g));
    assert forall|k: Seq<char>| #[trigger] entries_map(t).contains_key(k) <==> m.contains_key(k) by {
        if entries_map(t).contains_key(k) {
            let j = choose|j: int| 0 <= j < t.len() && t[j].0 == k;
            assert(s[j].0 == k);
        }
        if m.contains_key(k) && k != s[i].0 {
            let j = choose|j: int| 0 <= j < s.len() && s[j].0 == k;
            assert(t[j].0 == k);
        }
        if k == s[i].0 {
            assert(t[i].0 == k);
        }
    }
    assert forall|k: Seq<char>| #[trigger] entries_map(t).contains_key(k) implies entries_map(t)[k]
        == m[k] by {
        let j = choose|j: int| 0 <= j < t.len() && t[j].0 == k;
        lemma_entries_map_at(t, j);
        if j != i {
            lemma_entries_map_at(s, j);
        }
    }
    assert(entries_map(t) =~= m);
}

proof fn lemma_push_map(s: Seq<Entry>, k: Seq<char>, v: Seq<char>, g: bool)
    requires
        distinct_names(s),
        forall|i: int| 0 <= i < s.len() ==> s[i].0 != k,
    ensures
        distinct_names(s.push((k, v, g))),
        entries_map(s.push((k, v, g))) == entries_map(s).insert(k, (v, g)),
{
    let t = s.push((k, v, g));
    assert forall|a: int, b: int|
        0 <= a < t.len() && 0 <= b < t.len() && a != b implies t[a].0 != t[b].0 by {
        if a < s.len() {
            assert(t[a] == s[a]);
        }
        if b < s.len() {
            assert(t[b] == s[b]);
        }
    }
    let m = entries_map(s).insert(k, (v, g));
    assert forall|q: Seq<char>| #[trigger] entries_map(t).contains_key(q) <==> m.contains_key(q) by {
        if entries_map(t).contains_key(q) && q != k {
            let j = choose|j: int| 0 <= j < t.len() && t[j].0 == q;
            assert(j < s.len());
            assert(s[j].0 == q);
        }
        if m.contains_key(q) && q != k {
            let j = choose|j: int| 0 <= j < s.len() && s[j].0 == q;
            assert(t[j].0 == q);
        }
        if q == k {
            assert(t[s.len() as int].0 == k);
        }
    }
    assert forall|q: Seq<char>| #[trigger] entries_map(t).contains_key(q) implies entries_map(t)[q]
        == m[q] by {
        let j = choose|j: int| 0 <= j < t.len() && t[j].0 == q;
        lemma_entries_map_at(t, j);
        if j < s.len() {
            assert(t[j] == s[j]);
            lemma_entries_map_at(s, j);
        }
    }
    assert(entries_map(t) =~= m);
}

/// An exported entry of a list is among its `name=value` strings.
proof fn lemma_exported_entry_listed(s: Seq<Entry>, i: int)
    requires
        0 <= i < s.len(),
        s[i].2,
    ensures
        exported_strings(s).contains(environ_string(s[i])),
    decreases s.len(),
{
    if i == s.len() - 1 {
        assert(exported_strings(s).last() == environ_string(s[i]));
    } else {
        assert(s.drop_last()[i] == s[i]);
        lemma_exported_entry_listed(s.drop_last(), i);
        let e = exported_strings(s.drop_last());
        let j = choose|j: int| 0 <= j < e.len() && e[j] == environ_string(s[i]);
        if s.last().2 {
            assert(exported_strings(s)[j] == e[j]);
        }
    }
}

/// One change made to the variable table: `store` of a name and a value,
/// or `export` of a name.
pub enum VarOp {
    Store(Seq<char>, Seq<char>),
    Export(Seq<char>),
}

/// The table after one change, as the contracts of `store` and `export`
/// give it: a store sets the value and clears the export mark; an export
/// sets the mark, keeping the value (empty for a new name).
pub open spec fn apply_op(m: Map<Seq<char>, (Seq<char>, bool)>, op: VarOp) -> Map<
    Seq<char>,
    (Seq<char>, bool),
> {
    match op {
        VarOp::Store(n, v) => m.insert(n, (v, false)),
        VarOp::Export(n) => if m.contains_key(n) {
            m.insert(n, (m[n].0, true))
        } else {
            m.insert(n, (Seq::empty(), true))
        },
    }
}

/// The table after the changes `ops`, in order.
pub open spec fn apply_ops(m: Map<Seq<char>, (Seq<char>, bool)>, ops: Seq<VarOp>) -> Map<
    Seq<char>,
    (Seq<char>, bool),
>
    decreases ops.len(),
{
    if ops.len() == 0 {
        m
    } else {
        apply_op(apply_ops(m, ops.drop_last()), ops.last())
    }
}

/// What `lookup` of `n` gives on the table `m`.
pub open spec fn looked_up(m: Map<Seq<char>, (Seq<char>, bool)>, n: Seq<char>) -> Option<
    Seq<char>,
> {
    if m.contains_key(n) {
        Some(m[n].0)
    } else {
        None
    }
}

/// Whether `op` stores into `n`.
pub open spec fn stores_into(op: VarOp, n: Seq<char>) -> bool {
    op matches VarOp::Store(k, _) && k == n
}

/// The value a store puts.
pub open spec fn stored_value(op: VarOp) -> Seq<char> {
    match op {
        VarOp::Store(_, v) => v,
        VarOp::Export(_) => Seq::empty(),
    }
}

/// The index of the last store into `n` among `ops`, if there is one.
pub open spec fn last_store(ops: Seq<VarOp>, n: Seq<char>) -> Option<int>
    decreases ops.len(),
{
    if ops.len() == 0 {
        None
    } else if stores_into(ops.last(), n) {
        Some(ops.len() - 1)
    } else {
        last_store(ops.drop_last(), n)
    }
}

/// Whether some change of `ops` at index `from` or later exports `n`.
pub open spec fn exported_from(ops: Seq<VarOp>, n: Seq<char>, from: int) -> bool {
    exists|j: int| 0 <= j < ops.len() && from <= j && #[trigger] ops[j] == VarOp::Export(n)
}

/// A variable reads back as what was last stored in it. After any
/// sequence of stores and exports on a table `m` (`VarLib::new` starts from
/// the empty one):
/// - when the name was stored, `lookup` gives the value of the last store,
///   and the name is exported exactly when an export of it came after that
///   store;
/// - when it was only exported, it reads as the value it had in `m`, or as
///   empty if `m` did not hold it, and it is exported;
/// - when it was neither, its entry is as in `m` (so a name never stored or
///   exported on the empty table reads `None`).
pub proof fn law_variables_read_back(
    m: Map<Seq<char>, (Seq<char>, bool)>,
    ops: Seq<VarOp>,
    n: Seq<char>,
)
    ensures
        ({
            let t = apply_ops(m, ops);
            match last_store(ops, n) {
                Some(i) => {
                    &&& 0 <= i < ops.len()
                    &&& looked_up(t, n) == Some(stored_value(ops[i]))
                    &&& t[n].1 == exported_from(ops, n, i + 1)
                },
                None => if exported_from(ops, n, 0) {
                    &&& looked_up(t, n) == Some(
                        if m.contains_key(n) {
                            m[n].0
                        } else {
                            Seq::<char>::empty()
                        },
                    )
                    &&& t[n].1
                } else {
                    &&& looked_up(t, n) == looked_up(m, n)
                    &&& m.contains_key(n) ==> t[n] == m[n]
                },
            }
        }),
    decreases ops.len(),
{
    if ops.len() > 0 {
        let p = ops.drop_last();
        let o = ops.last();
        let k = ops.len() - 1;
        law_variables_read_back(m, p, n);
        assert forall|from: int| from <= k && #[trigger] exported_from(p, n, from) implies exported_from(
            ops,
            n,
            from,
        ) by {
            let j = choose|j: int| 0 <= j < p.len() && from <= j && #[trigger] p[j] == VarOp::Export(n);
            assert(ops[j] == p[j]);
        }
        if o != VarOp::Export(n) {
            assert forall|from: int| #[trigger] exported_from(ops, n, from) implies exported_from(
                p,
                n,
                from,
            ) by {
                let j = choose|j: int| 0 <= j < ops.len() && from <= j && #[trigger] ops[j] == VarOp::Export(n);
                assert(j != k);
                assert(p[j] == ops[j]);
            }
        } else {
            assert(ops[k] == VarOp::Export(n));
            assert(exported_from(ops, n, 0));
            match last_store(ops, n) {
                Some(i) => {
                    assert(exported_from(ops, n, i + 1));
                },
                None => {},
            }
        }
        match last_store(p, n) {
            Some(i) => {
                assert(ops[i] == p[i]);
            },
            None => {},
        }
        if stores_into(o, n) {
            assert(!exported_from(ops, n, k + 1));
        }
    }
}

/// Exported variables reach the environment of the commands the shell
/// runs: when the table holds `name` exported, the strings that
/// `table_to_environ` returns include `name=value`.
pub proof fn law_exported_variables_reach_environment(v: &VarLib, name: Seq<char>)
    requires
        v.wf(),
        v@.contains_key(name),
        v@[name].1,
    ensures
        exported_strings(v.entries()).contains(name + "="@ + v@[name].0),
{
    let s = v.entries();
    let i = choose|i: int| 0 <= i < s.len() && s[i].0 == name;
    lemma_entries_map_at(s, i);
    lemma_exported_entry_listed(s, i);
}

/// The table after storing each pair of `env` in turn, unexported.
pub open spec fn store_all(
    m: Map<Seq<char>, (Seq<char>, bool)>,
    env: Seq<(Seq<char>, Seq<char>)>,
) -> Map<Seq<char>, (Seq<char>, bool)>
    decreases env.len(),
{
    if env.len() == 0 {
        m
    } else {
        store_all(m, env.drop_last()).insert(env.last().0, (env.last().1, false))
    }
}

/// Splits a command line into its whitespace-separated words.
pub fn splitline(line: &str) -> (r: Vec<String>)
    ensures
        r.deep_view() == words(line@),
{
    let v = chars_of(line);
    split_words(&v)
}

/// Whether `cmd` is one of the control words `if`, `then`, `fi`.
pub open spec fn is_control_word(cmd: Seq<char>) -> bool {
    cmd == "if"@ || cmd == "then"@ || cmd == "fi"@
}

/// Whether `cmd` is one of the control words `if`, `then`, `fi`.
pub fn is_control_command(cmd: &str) -> (r: bool)
    ensures
        r == is_control_word(cmd@),
{
    str_eq(cmd, "if") || str_eq(cmd, "then") || str_eq(cmd, "fi")
}

/// The message of the fatal error for an unknown control word.
pub open spec fn control_error(cmd: Seq<char>) -> Seq<char> {
    "Error: internal error processing, "@ + cmd
}

/// Runs a control command. `if`, `then` and `fi` give status 0; any other
/// word is a fatal error, returned with its message (the shell prints it and
/// exits with status 2).
pub fn do_control_command(args: &Vec<String>) -> (r: Result<i32, String>)
    requires
        args.len() > 0,
    ensures
        is_control_word(args[0]@) ==> r == Ok::<i32, String>(0),
        !is_control_word(args[0]@) ==> (r matches Err(m) && m@ == control_error(args[0]@)),
{
    if is_control_command(args[0].as_str()) {
        Ok(0)
    } else {
        let mut m = String::new();
        push_str(&mut m, "Error: internal error processing, ");
        push_str(&mut m, args[0].as_str());
        Err(m)
    }
}

/// Whether the shell may run commands now: always.
pub fn ok_to_execute() -> (r: bool)
    ensures
        r,
{
    true
}

/// Splits `arg` at its first `=`: the name before it and the value after.
pub open spec fn split_assignment(arg: Seq<char>) -> Option<(Seq<char>, Seq<char>)> {
    match first_index(arg, '=') {
        Some(i) => Some((arg.take(i), arg.skip(i + 1))),
        None => None,
    }
}

/// Runs `name=value`: stores `value` under `name` (split at the first `=`).
/// Returns whether `arg` holds a `=`; without one nothing changes.
pub fn assign(arg: &str, varlib: &mut VarLib) -> (r: bool)
    requires
        old(varlib).wf(),
    ensures
        final(varlib).wf(),
        r == split_assignment(arg@) is Some,
        match split_assignment(arg@) {
            Some((n, v)) => final(varlib)@ == old(varlib)@.insert(n, (v, false)),
            None => *final(varlib) == *old(varlib),
        },
{
    let v = chars_of(arg);
    match find_char(&v, '=') {
        Some(i) => {
            let name = string_of(&sub_chars(&v, 0, i));
            let value = string_of(&sub_chars(&v, i + 1, v.len()));
            assert(v@.subrange(0, i as int) == v@.take(i as int));
            assert(v@.subrange(i + 1, v.len() as int) == v@.skip(i + 1));
            let _ = varlib.store(name.as_str(), value.as_str());
            true
        },
        None => false,
    }
}

/// What a built-in command did: whether the command was a built-in, and the
/// lines it has to print.
pub open spec fn builtin_effect(
    args: Seq<Seq<char>>,
    before: VarLib,
    after: VarLib,
    handled: bool,
    lines: Seq<Seq<char>>,
) -> bool {
    if args[0] == "set"@ {
        handled && after == before && lines == before.entries().map_values(
            |e: Entry| list_line(e),
        )
    } else if split_assignment(args[0]) is Some {
        let (n, v) = split_assignment(args[0])->0;
        handled && lines.len() == 0 && after@ == before@.insert(n, (v, false))
    } else if args[0] == "export"@ {
        handled && lines.len() == 0 && if args.len() > 1 {
            let n = args[1];
            if before@.contains_key(n) {
                after@ == before@.insert(n, (before@[n].0, true))
            } else {
                after@ == before@.insert(n, (Seq::empty(), true))
            }
        } else {
            after == before
        }
    } else {
        !handled && lines.len() == 0 && after == before
    }
}

/// Runs `args` if it is a built-in: `set` lists the variables, `name=value`
/// assigns, `export name` exports. Returns whether it was one, and the
/// lines to print.
pub fn builtin_command(args: &Vec<String>, varlib: &mut VarLib) -> (r: (bool, Vec<String>))
    requires
        args.len() > 0,
        old(varlib).wf(),
    ensures
        final(varlib).wf(),
        builtin_effect(args.deep_view(), *old(varlib), *final(varlib), r.0, r.1.deep_view()),
{
    let ghost a = args.deep_view();
    assert(a[0] == args[0]@);
    if str_eq(args[0].as_str(), "set") {
        let lines = varlib.list();
        (true, lines)
    } else {
        let v = chars_of(args[0].as_str());
        if find_char(&v, '=').is_some() {
            let ok = assign(args[0].as_str(), varlib);
            (ok, Vec::new())
        } else if str_eq(args[0].as_str(), "export") {
            if args.len() > 1 {
                assert(a[1] == args[1]@);
                let _ = varlib.export(args[1].as_str());
            }
            (true, Vec::new())
        } else {
            (false, Vec::new())
        }
    }
}

/// What the shell does with one parsed command line.
pub enum Action {
    /// Nothing to do (an empty line).
    Nothing,
    /// Leave the shell with status 0 (`exit` or `quit`).
    Exit,
    /// A control word was run, with its status or its fatal error.
    Control(Result<i32, String>),
    /// A built-in ran; these lines are to be printed.
    Builtin(Vec<String>),
    /// Run the command as a program.
    Execute,
}

/// Whether `cmd` is `exit` or `quit`.
pub open spec fn is_exit_word(cmd: Seq<char>) -> bool {
    cmd == "exit"@ || cmd == "quit"@
}

/// Decides what to do with one command line and runs the parts that touch
/// only the variable table.
pub fn process(args: &Vec<String>, varlib: &mut VarLib) -> (r: Action)
    requires
        old(varlib).wf(),
    ensures
        final(varlib).wf(),
        args.len() == 0 ==> (r is Nothing) && *final(varlib) == *old(varlib),
        args.len() > 0 && is_exit_word(args[0]@) ==> (r is Exit) && *final(varlib) == *old(varlib),
        args.len() > 0 && !is_exit_word(args[0]@) && is_control_word(args[0]@) ==> r
            == Action::Control(Ok(0)) && *final(varlib) == *old(varlib),
        args.len() > 0 && !is_exit_word(args[0]@) && !is_control_word(args[0]@) ==> exists|
            handled: bool,
            lines: Seq<Seq<char>>,
        |
            builtin_effect(args.deep_view(), *old(varlib), *final(varlib), handled, lines) && (if handled {
                (r matches Action::Builtin(out) && out.deep_view() == lines)
            } else {
                r is Execute
            }),
{
    if args.len() == 0 {
        return Action::Nothing;
    }
    if str_eq(args[0].as_str(), "exit") || str_eq(args[0].as_str(), "quit") {
        return Action::Exit;
    }
    if is_control_command(args[0].as_str()) {
        Action::Control(do_control_command(args))
    } else if ok_to_execute() {
        let (handled, lines) = builtin_command(args, varlib);
        if handled {
            Action::Builtin(lines)
        } else {
            Action::Execute
        }
    } else {
        Action::Execute
    }
}

/// `buf` without leading and trailing whitespace.
pub fn makestring(buf: String) -> (r: String)
    ensures
        r@ == trim(buf@),
{
    let v = chars_of(buf.as_str());
    string_of(&trim_chars(&v))
}

} // verus!
