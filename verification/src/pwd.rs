//! The working-directory printer: finding a directory's name by its inode
//! in its parent, and assembling the path on the way back to the root.

use vstd::prelude::*;
use crate::text::{chars_of, dec_nat, push_dec_u64, push_str, string_of};

verus! {

/// The name of the first entry whose inode is `ino`, if there is one.
pub open spec fn name_of_inode(entries: Seq<(u64, Seq<char>)>, ino: u64) -> Option<Seq<char>>
    decreases entries.len(),
{
    if entries.len() == 0 {
        None
    } else if entries[0].0 == ino {
        Some(entries[0].1)
    } else {
        name_of_inode(entries.drop_first(), ino)
    }
}

/// Finds the name of the entry with inode `inode_to_find` among the entries
/// (inode, name) of a directory, in their order; the error says which inode
/// was not found.
pub fn inum_to_name(entries: &Vec<(u64, String)>, inode_to_find: u64) -> (r: Result<String, String>)
    ensures
        match name_of_inode(entries.deep_view(), inode_to_find) {
            Some(n) => r matches Ok(s) && s@ == n,
            None => r matches Err(m) && m@ == "Inode "@ + dec_nat(inode_to_find as nat)
                + " not found"@,
        },
{
    let ghost all = entries.deep_view();
    let mut i: usize = 0;
    assert(all.skip(0) == all);
    while i < entries.len()
        invariant
            i <= entries.len(),
            all == entries.deep_view(),
            name_of_inode(all, inode_to_find) == name_of_inode(all.skip(i as int), inode_to_find),
        decreases entries.len() - i,
    {
        assert(all.skip(i as int)[0] == all[i as int]);
        assert(all[i as int].0 == entries@[i as int].0);
        if entries[i].0 == inode_to_find {
            assert(all[i as int].1 == entries@[i as int].1@);
            return Ok(string_of(&chars_of(entries[i].1.as_str())));
        }
        assert(all.skip(i as int).drop_first() == all.skip(i + 1));
        i = i + 1;
    }
    let mut m = String::new();
    push_str(&mut m, "Inode ");
    push_dec_u64(&mut m, inode_to_find);
    push_str(&mut m, " not found");
    Err(m)
}

/// Whether the walk towards the root goes on from a directory: it stops at
/// the root, whose parent is itself.
pub fn pwd_continues(this_inode: u64, parent_inode: u64) -> (r: bool)
    ensures
        r == (this_inode != parent_inode),
{
    this_inode != parent_inode
}

/// The path made of directory names, given from the working directory up
/// to the root: `/` and each name, from the root down.
pub open spec fn path_of(names_up: Seq<Seq<char>>) -> Seq<char>
    decreases names_up.len(),
{
    if names_up.len() == 0 {
        seq![]
    } else {
        path_of(names_up.drop_first()) + "/"@ + names_up[0]
    }
}

/// Prints the path: the names found on the way up, in reverse, each after
/// a `/`.
pub fn printpathto(names_up: &Vec<String>) -> (r: String)
    ensures
        r@ == path_of(names_up.deep_view()),
{
    let ghost all = names_up.deep_view();
    let mut out = String::new();
    let mut i: usize = names_up.len();
    assert(all.skip(all.len() as int) =~= Seq::<Seq<char>>::empty());
    while i > 0
        invariant
            i <= names_up.len(),
            all == names_up.deep_view(),
            out@ == path_of(all.skip(i as int)),
        decreases i,
    {
        let ghost t = all.skip(i - 1);
        assert(t.drop_first() == all.skip(i as int));
        assert(t[0] == names_up@[i - 1]@);
        push_str(&mut out, "/");
        push_str(&mut out, names_up[i - 1].as_str());
        i = i - 1;
    }
    assert(all.skip(0) == all);
    out
}

/// A directory is found by its inode whatever its name: the lookup
/// succeeds exactly when some entry has the inode, and then gives the name
/// of the first such entry.
pub proof fn law_inode_lookup_finds_first(entries: Seq<(u64, Seq<char>)>, ino: u64)
    ensures
        (name_of_inode(entries, ino) is Some) <==> exists|i: int|
            0 <= i < entries.len() && #[trigger] entries[i].0 == ino,
        name_of_inode(entries, ino) matches Some(n) ==> exists|i: int|
            0 <= i < entries.len() && #[trigger] entries[i].0 == ino && entries[i].1 == n && forall|
                j: int,
            |
                0 <= j < i ==> entries[j].0 != ino,
    decreases entries.len(),
{
    if entries.len() > 0 {
        let t = entries.drop_first();
        law_inode_lookup_finds_first(t, ino);
        if entries[0].0 != ino {
            assert forall|i: int| 0 <= i < t.len() implies t[i] == entries[i + 1] by {}
            if exists|i: int| 0 <= i < entries.len() && #[trigger] entries[i].0 == ino {
                let i = choose|i: int| 0 <= i < entries.len() && #[trigger] entries[i].0 == ino;
                assert(t[i - 1].0 == ino);
            }
            if name_of_inode(entries, ino) is Some {
                let n = name_of_inode(entries, ino)->0;
                let k = choose|k: int|
                    0 <= k < t.len() && #[trigger] t[k].0 == ino && t[k].1 == n && forall|j: int|
                        0 <= j < k ==> t[j].0 != ino;
                assert(entries[k + 1].0 == ino && entries[k + 1].1 == n);
                assert forall|j: int| 0 <= j < k + 1 implies entries[j].0 != ino by {
                    if j > 0 {
                        assert(entries[j] == t[j - 1]);
                    }
                }
            }
        } else {
            assert(entries[0].0 == ino);
        }
    }
}

} // verus!
