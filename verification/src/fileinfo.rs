//! The file information printer: the fields of a file's status, one per
//! line.

use vstd::prelude::*;
use crate::text::{dec_nat, oct_nat, push_dec_u64, push_oct_u64, push_str};

verus! {

/// The lines printed for a file: mode in octal, links, owner and group ids,
/// size, modification time (when known) and name.
pub open spec fn info_lines(
    mode: u32,
    nlink: u64,
    uid: u32,
    gid: u32,
    size: u64,
    modtime: Option<u64>,
    name: Seq<char>,
) -> Seq<Seq<char>> {
    let head = seq![
        "   mode: "@ + oct_nat(mode as nat),
        "  links: "@ + dec_nat(nlink as nat),
        "   user: "@ + dec_nat(uid as nat),
        "  group: "@ + dec_nat(gid as nat),
        "   size: "@ + dec_nat(size as nat),
    ];
    let mid = match modtime {
        Some(t) => seq!["modtime: "@ + dec_nat(t as nat)],
        None => Seq::<Seq<char>>::empty(),
    };
    head + mid + seq!["   name: "@ + name]
}

fn line_dec(label: &str, n: u64) -> (r: String)
    ensures
        r@ == label@ + dec_nat(n as nat),
{
    let mut s = String::new();
    push_str(&mut s, label);
    push_dec_u64(&mut s, n);
    s
}

/// The lines printed for a file, from the fields of its status.
pub fn show_stat_info(
    filename: &str,
    mode: u32,
    nlink: u64,
    uid: u32,
    gid: u32,
    size: u64,
    modtime: Option<u64>,
) -> (r: Vec<String>)
    ensures
        r.deep_view() == info_lines(mode, nlink, uid, gid, size, modtime, filename@),
{
    let mut out: Vec<String> = Vec::new();
    let mut m = String::new();
    push_str(&mut m, "   mode: ");
    push_oct_u64(&mut m, mode as u64);
    out.push(m);
    out.push(line_dec("  links: ", nlink));
    out.push(line_dec("   user: ", uid as u64));
    out.push(line_dec("  group: ", gid as u64));
    out.push(line_dec("   size: ", size));
    match modtime {
        Some(t) => {
            out.push(line_dec("modtime: ", t));
        },
        None => {},
    }
    let mut n = String::new();
    push_str(&mut n, "   name: ");
    push_str(&mut n, filename);
    out.push(n);
    assert(out.deep_view() =~= info_lines(mode, nlink, uid, gid, size, modtime, filename@));
    out
}

} // verus!
