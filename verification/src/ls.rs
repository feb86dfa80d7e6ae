//! The directory lister: file modes as letters, the long listing line, and
//! the choice and order of the entries it shows.

use vstd::prelude::*;
use vstd::utf8::{encode_utf8, is_ascii_chars, valid_utf8, decode_utf8};
use crate::remote::from_utf8_lossy;

use crate::text::{chars_of, dec_int, push_char, push_chars, push_dec_i64, push_str, string_of};

verus! {

/// Mask of the file-type bits of a mode (`S_IFMT`).
pub const S_IFMT: u32 = 0o170000;
/// Directory (`S_IFDIR`).
pub const S_IFDIR: u32 = 0o040000;
/// Character device (`S_IFCHR`).
pub const S_IFCHR: u32 = 0o020000;
/// Block device (`S_IFBLK`).
pub const S_IFBLK: u32 = 0o060000;
/// Owner may read (`S_IRUSR`).
pub const S_IRUSR: u32 = 0o400;
/// Owner may write (`S_IWUSR`).
pub const S_IWUSR: u32 = 0o200;
/// Owner may execute (`S_IXUSR`).
pub const S_IXUSR: u32 = 0o100;
/// Group may read (`S_IRGRP`).
pub const S_IRGRP: u32 = 0o040;
/// Group may write (`S_IWGRP`).
pub const S_IWGRP: u32 = 0o020;
/// Group may execute (`S_IXGRP`).
pub const S_IXGRP: u32 = 0o010;
/// Others may read (`S_IROTH`).
pub const S_IROTH: u32 = 0o004;
/// Others may write (`S_IWOTH`).
pub const S_IWOTH: u32 = 0o002;
/// Others may execute (`S_IXOTH`).
pub const S_IXOTH: u32 = 0o001;

/// Whether every character of `s` is ASCII.
pub open spec fn all_ascii(s: Seq<char>) -> bool {
    forall|i: int| 0 <= i < s.len() ==> (#[trigger] s[i] as u32) < 128
}

/// A character whose code is below 128 lies between NUL and DEL.
proof fn lemma_ascii_char(x: char)
    requires
        (x as u32) < 128,
    ensures
        '\0' <= x <= '\u{7f}',
{
    assert(x as u32 == x as int);
}

/// The UTF-8 encoding of an ASCII text is its characters, one byte each.
proof fn lemma_ascii_encoding(s: Seq<char>)
    requires
        all_ascii(s),
    ensures
        encode_utf8(s).len() == s.len(),
        forall|i: int| 0 <= i < s.len() ==> #[trigger] encode_utf8(s)[i] == s[i] as u8,
        forall|i: int| 0 <= i < s.len() ==> #[trigger] encode_utf8(s)[i] < 128,
{
    assert(is_ascii_chars(s)) by {
        assert forall|i: int| 0 <= i < s.len() implies '\0' <= #[trigger] s[i] <= '\u{7f}' by {
            lemma_ascii_char(s[i]);
        }
    }
    vstd::utf8::is_ascii_chars_encode_utf8(s);
    assert forall|i: int| 0 <= i < s.len() implies #[trigger] encode_utf8(s)[i] < 128 by {
        assert((s[i] as u32) < 128);
        assert(encode_utf8(s)[i] == s[i] as u8);
    }
}

/// Overwrites the byte at byte offset `idx` of a string with the ASCII byte
/// `c`. The byte there must be ASCII too, so the text stays valid UTF-8
/// and only the character that byte encodes changes.
pub fn set_by_index(s: &mut String, idx: usize, c: u8)
    requires
        c < 128,
        idx < encode_utf8(old(s)@).len(),
        encode_utf8(old(s)@)[idx as int] < 128,
    ensures
        encode_utf8(final(s)@) == encode_utf8(old(s)@).update(idx as int, c),
        all_ascii(old(s)@) ==> final(s)@ == old(s)@.update(idx as int, c as char),
        all_ascii(old(s)@) ==> all_ascii(final(s)@),
{
    broadcast use vstd::utf8::encode_utf8_valid_utf8, vstd::utf8::encode_utf8_decode_utf8;

    let ghost e = encode_utf8(s@);
    let bytes = s.as_str().as_bytes();
    let mut v: Vec<u8> = Vec::new();
    let mut i: usize = 0;
    while i < bytes.len()
        invariant
            i <= bytes.len(),
            bytes@ == e,
            v@ == e.take(i as int),
        decreases bytes.len() - i,
    {
        v.push(bytes[i]);
        assert(e.take(i + 1) == e.take(i as int).push(e[i as int]));
        i = i + 1;
    }
    assert(e.take(e.len() as int) == e);
    v.set(idx, c);
    proof {
        let n = e.len() as int;
        let k = idx as int;
        let a = e.subrange(0, k);
        let rest = e.subrange(k, n);
        vstd::utf8::is_char_boundary_iff_not_is_continuation_byte(e, k);
        vstd::utf8::valid_utf8_split(e, k);
        assert(rest[0] == e[k]);
        assert(vstd::utf8::is_leading_byte_width_1(rest[0]));
        assert(vstd::utf8::length_of_first_scalar(rest) == 1);
        let tail = e.subrange(k + 1, n);
        assert(vstd::utf8::pop_first_scalar(rest) =~= tail);
        assert(valid_utf8(tail));
        let one = seq![c as char];
        assert(is_ascii_chars(one));
        vstd::utf8::is_ascii_chars_encode_utf8(one);
        assert(encode_utf8(one) =~= seq![c]);
        vstd::utf8::valid_utf8_concat(a, seq![c]);
        vstd::utf8::valid_utf8_concat(a + seq![c], tail);
        assert(v@ =~= a + seq![c] + tail);
        assert(valid_utf8(v@));
    }
    let r = from_utf8_lossy(v.as_slice());
    proof {
        vstd::utf8::decode_utf8_encode_utf8(v@);
    }
    *s = r;
    proof {
        if all_ascii(old(s)@) {
            let t = old(s)@.update(idx as int, c as char);
            lemma_ascii_encoding(old(s)@);
            assert forall|i: int| 0 <= i < t.len() implies (#[trigger] t[i] as u32) < 128 by {
                if i != idx {
                    assert(t[i] == old(s)@[i]);
                }
            }
            lemma_ascii_encoding(t);
            assert(encode_utf8(t) =~= e.update(idx as int, c));
            assert(s@ == decode_utf8(encode_utf8(s@)));
            assert(t == decode_utf8(encode_utf8(t)));
        }
    }
}

/// The letter for the file type of a mode: `d`, `c`, `b` or `-`.
pub open spec fn type_letter(mode: u32) -> char {
    if mode & S_IFMT == S_IFDIR {
        'd'
    } else if mode & S_IFMT == S_IFCHR {
        'c'
    } else if mode & S_IFMT == S_IFBLK {
        'b'
    } else {
        '-'
    }
}

/// `l` when the bit is set in the mode, `-` otherwise.
pub open spec fn bit_letter(mode: u32, bit: u32, l: char) -> char {
    if mode & bit != 0 {
        l
    } else {
        '-'
    }
}

/// The ten letters `ls -l` shows for a mode, such as `drwxr-xr-x`.
pub open spec fn mode_letters(mode: u32) -> Seq<char> {
    seq![
        type_letter(mode),
        bit_letter(mode, S_IRUSR, 'r'),
        bit_letter(mode, S_IWUSR, 'w'),
        bit_letter(mode, S_IXUSR, 'x'),
        bit_letter(mode, S_IRGRP, 'r'),
        bit_letter(mode, S_IWGRP, 'w'),
        bit_letter(mode, S_IXGRP, 'x'),
        bit_letter(mode, S_IROTH, 'r'),
        bit_letter(mode, S_IWOTH, 'w'),
        bit_letter(mode, S_IXOTH, 'x'),
    ]
}

/// Puts letter `l` at `idx` when `bit` is set in `mode`.
fn mark_bit(s: &mut String, mode: u32, bit: u32, idx: usize, l: u8)
    requires
        all_ascii(old(s)@),
        idx < old(s)@.len(),
        old(s)@[idx as int] == '-',
        l < 128,
    ensures
        final(s)@ == old(s)@.update(idx as int, bit_letter(mode, bit, l as char)),
        all_ascii(final(s)@),
{
    if mode & bit != 0 {
        proof {
            lemma_ascii_encoding(s@);
        }
        set_by_index(s, idx, l);
    } else {
        assert(s@ =~= old(s)@.update(idx as int, '-'));
    }
}

/// The ten letters `ls -l` shows for a mode, such as `drwxr-xr-x`.
pub fn mode_to_letters(mode: u32) -> (r: String)
    ensures
        r@ == mode_letters(mode),
{
    let mut str = String::new();
    push_str(&mut str, "----------");
    proof {
        reveal_strlit("----------");
        assert(all_ascii(str@));
    }
    let ghost dashes = str@;
    if mode & S_IFMT == S_IFDIR {
        proof {
            lemma_ascii_encoding(str@);
        }
        set_by_index(&mut str, 0, 100u8);
    }
    if mode & S_IFMT == S_IFCHR {
        proof {
            lemma_ascii_encoding(str@);
        }
        set_by_index(&mut str, 0, 99u8);
    }
    if mode & S_IFMT == S_IFBLK {
        proof {
            lemma_ascii_encoding(str@);
        }
        set_by_index(&mut str, 0, 98u8);
    }
    assert(str@ == dashes.update(0, type_letter(mode)));
    mark_bit(&mut str, mode, S_IRUSR, 1, 114u8);
    mark_bit(&mut str, mode, S_IWUSR, 2, 119u8);
    mark_bit(&mut str, mode, S_IXUSR, 3, 120u8);
    mark_bit(&mut str, mode, S_IRGRP, 4, 114u8);
    mark_bit(&mut str, mode, S_IWGRP, 5, 119u8);
    mark_bit(&mut str, mode, S_IXGRP, 6, 120u8);
    mark_bit(&mut str, mode, S_IROTH, 7, 114u8);
    mark_bit(&mut str, mode, S_IWOTH, 8, 119u8);
    mark_bit(&mut str, mode, S_IXOTH, 9, 120u8);
    assert(str@ =~= mode_letters(mode));
    str
}

/// `s` with spaces in front to make it `w` characters wide (what `{:w}`
/// does to a number).
pub open spec fn pad_left(s: Seq<char>, w: nat) -> Seq<char> {
    if s.len() >= w {
        s
    } else {
        Seq::new((w - s.len()) as nat, |i: int| ' ') + s
    }
}

/// `s` with spaces after it to make it `w` characters wide (what `{:w}`
/// does to a string).
pub open spec fn pad_right(s: Seq<char>, w: nat) -> Seq<char> {
    if s.len() >= w {
        s
    } else {
        s + Seq::new((w - s.len()) as nat, |i: int| ' ')
    }
}

fn push_spaces(s: &mut String, n: usize)
    ensures
        final(s)@ == old(s)@ + Seq::new(n as nat, |i: int| ' '),
{
    let mut i: usize = 0;
    while i < n
        invariant
            i <= n,
            s@ == old(s)@ + Seq::new(i as nat, |j: int| ' '),
        decreases n - i,
    {
        push_char(s, ' ');
        assert(Seq::new((i + 1) as nat, |j: int| ' ') =~= Seq::new(i as nat, |j: int| ' ').push(' '));
        i = i + 1;
    }
}

/// Appends `t` padded on the left to width `w`.
pub(crate) fn push_pad_left(s: &mut String, t: &Vec<char>, w: usize)
    ensures
        final(s)@ == old(s)@ + pad_left(t@, w as nat),
{
    if t.len() < w {
        push_spaces(s, w - t.len());
    }
    push_chars(s, t);
}

/// Appends `t` padded on the right to width `w`.
fn push_pad_right(s: &mut String, t: &Vec<char>, w: usize)
    ensures
        final(s)@ == old(s)@ + pad_right(t@, w as nat),
{
    push_chars(s, t);
    if t.len() < w {
        push_spaces(s, w - t.len());
    }
}

pub(crate) fn dec_chars(n: i64) -> (r: Vec<char>)
    ensures
        r@ == dec_int(n as int),
{
    let mut s = String::new();
    push_dec_i64(&mut s, n);
    chars_of(s.as_str())
}

/// The long listing line of a file: its mode letters, link count, owner,
/// group, size, modification time and name, in `ls -l` columns.
pub open spec fn stat_line(
    mode: u32,
    nlink: i32,
    user: Seq<char>,
    group: Seq<char>,
    size: i64,
    time: Seq<char>,
    name: Seq<char>,
) -> Seq<char> {
    mode_letters(mode) + pad_left(dec_int(nlink as int), 4) + " "@ + pad_right(user, 8) + " "@
        + pad_right(group, 8) + " "@ + pad_left(dec_int(size as int), 8) + " "@ + pad_right(time, 8)
        + " "@ + name
}

/// The long listing line of a file, from what `stat` said of it, the names
/// of its owner and group, and its formatted modification time.
pub fn show_stat_info(
    mode: u32,
    nlink: i32,
    user: &str,
    group: &str,
    size: i64,
    time: &str,
    name: &str,
) -> (r: String)
    ensures
        r@ == stat_line(mode, nlink, user@, group@, size, time@, name@),
{
    let mut out = mode_to_letters(mode);
    push_pad_left(&mut out, &dec_chars(nlink as i64), 4);
    push_str(&mut out, " ");
    push_pad_right(&mut out, &chars_of(user), 8);
    push_str(&mut out, " ");
    push_pad_right(&mut out, &chars_of(group), 8);
    push_str(&mut out, " ");
    push_pad_left(&mut out, &dec_chars(size), 8);
    push_str(&mut out, " ");
    push_pad_right(&mut out, &chars_of(time), 8);
    push_str(&mut out, " ");
    push_str(&mut out, name);
    out
}

/// The mode letters are ten characters: the type letter and, for each of
/// the nine permission bits in order, its letter or `-`.
pub proof fn law_mode_letters_shape(mode: u32)
    ensures
        mode_letters(mode).len() == 10,
        mode & S_IFMT == S_IFDIR <==> mode_letters(mode)[0] == 'd',
        forall|i: int| 1 <= i < 10 ==> (#[trigger] mode_letters(mode)[i] == '-' || mode_letters(mode)[i]
            == "rwx"@[(i - 1) % 3]),
{
    reveal_strlit("rwx");
}

/// One directory entry as the lister collects it: its name, whether it is
/// a directory, and its path.
pub struct DirEntry {
    pub name: String,
    pub is_dir: bool,
    pub path: String,
}

/// A directory entry as plain values.
pub type EntryView = (Seq<char>, bool, Seq<char>);

/// The plain values of a directory entry.
pub open spec fn ev(e: DirEntry) -> EntryView {
    (e.name@, e.is_dir, e.path@)
}

/// Strict lexicographic order of character sequences by code point (the
/// order of `String`'s `Ord`, since UTF-8 keeps code point order).
pub open spec fn chars_lt(a: Seq<char>, b: Seq<char>) -> bool
    decreases a.len(),
{
    if a.len() == 0 {
        b.len() > 0
    } else if b.len() == 0 {
        false
    } else if a[0] != b[0] {
        (a[0] as u32) < (b[0] as u32)
    } else {
        chars_lt(a.drop_first(), b.drop_first())
    }
}

/// The order of the tuples (name, is a directory, path) that the lister
/// sorts.
pub open spec fn entry_lt(x: EntryView, y: EntryView) -> bool {
    ||| chars_lt(x.0, y.0)
    ||| (x.0 == y.0 && !x.1 && y.1)
    ||| (x.0 == y.0 && x.1 == y.1 && chars_lt(x.2, y.2))
}

/// No entry comes after one it is less than.
pub open spec fn sorted_entries(s: Seq<EntryView>) -> bool {
    forall|i: int, j: int| 0 <= i < j < s.len() ==> !entry_lt(#[trigger] s[j], #[trigger] s[i])
}

/// Whether the lister shows an entry: all with `-a` (bit 1 of `ops`),
/// otherwise those whose name does not start with `.`.
pub open spec fn shown(e: EntryView, ops: i32) -> bool {
    ops & 1 == 1 || e.0[0] != '.'
}

/// The entries of `s` that are shown, in order.
pub open spec fn shown_entries(s: Seq<EntryView>, ops: i32) -> Seq<EntryView>
    decreases s.len(),
{
    if s.len() == 0 {
        seq![]
    } else if shown(s.last(), ops) {
        shown_entries(s.drop_last(), ops).push(s.last())
    } else {
        shown_entries(s.drop_last(), ops)
    }
}

proof fn lemma_chars_lt_irrefl(a: Seq<char>)
    ensures
        !chars_lt(a, a),
    decreases a.len(),
{
    if a.len() > 0 {
        lemma_chars_lt_irrefl(a.drop_first());
    }
}

proof fn lemma_chars_lt_trans(a: Seq<char>, b: Seq<char>, c: Seq<char>)
    requires
        chars_lt(a, b),
        chars_lt(b, c),
    ensures
        chars_lt(a, c),
    decreases a.len(),
{
    if a.len() > 0 && b.len() > 0 && c.len() > 0 && a[0] == b[0] && b[0] == c[0] {
        lemma_chars_lt_trans(a.drop_first(), b.drop_first(), c.drop_first());
    }
}

proof fn lemma_chars_lt_total(a: Seq<char>, b: Seq<char>)
    ensures
        a == b || chars_lt(a, b) || chars_lt(b, a),
        !(chars_lt(a, b) && chars_lt(b, a)),
    decreases a.len(),
{
    if a.len() > 0 && b.len() > 0 && a[0] == b[0] {
        lemma_chars_lt_total(a.drop_first(), b.drop_first());
        if a.drop_first() == b.drop_first() {
            assert forall|k: int| 0 <= k < a.len() implies a[k] == b[k] by {
                if k > 0 {
                    assert(a[k] == a.drop_first()[k - 1]);
                    assert(b[k] == b.drop_first()[k - 1]);
                }
            }
            assert(a =~= b);
        }
    } else if a.len() == 0 && b.len() == 0 {
        assert(a =~= b);
    } else if a.len() > 0 && b.len() > 0 {
        let (x, y) = (a[0], b[0]);
        if (x as u32) == (y as u32) {
            vstd::utf8::char_u32_cast(x, x as u32);
            vstd::utf8::char_u32_cast(y, y as u32);
        }
    }
}

/// The entry order is a strict total order.
pub proof fn law_entry_order_is_total(x: EntryView, y: EntryView, z: EntryView)
    ensures
        !entry_lt(x, x),
        entry_lt(x, y) && entry_lt(y, z) ==> entry_lt(x, z),
        x == y || entry_lt(x, y) || entry_lt(y, x),
        !(entry_lt(x, y) && entry_lt(y, x)),
{
    lemma_chars_lt_irrefl(x.0);
    lemma_chars_lt_irrefl(x.2);
    lemma_chars_lt_total(x.0, y.0);
    lemma_chars_lt_total(x.2, y.2);
    lemma_chars_lt_total(y.0, z.0);
    lemma_chars_lt_total(x.0, z.0);
    if entry_lt(x, y) && entry_lt(y, z) {
        if chars_lt(x.0, y.0) && chars_lt(y.0, z.0) {
            lemma_chars_lt_trans(x.0, y.0, z.0);
        }
        if x.0 == y.0 && y.0 == z.0 && x.1 == y.1 && y.1 == z.1 && chars_lt(x.2, y.2) && chars_lt(
            y.2,
            z.2,
        ) {
            lemma_chars_lt_trans(x.2, y.2, z.2);
        }
    }
}

/// Whether `a` comes strictly before `b`.
fn chars_less(a: &Vec<char>, b: &Vec<char>) -> (r: bool)
    ensures
        r == chars_lt(a@, b@),
{
    let mut i: usize = 0;
    assert(a@.skip(0) == a@);
    assert(b@.skip(0) == b@);
    while i < a.len() && i < b.len() && a[i] == b[i]
        invariant
            i <= a.len(),
            i <= b.len(),
            chars_lt(a@, b@) == chars_lt(a@.skip(i as int), b@.skip(i as int)),
        decreases a.len() - i,
    {
        assert(a@.skip(i as int).drop_first() == a@.skip(i + 1));
        assert(b@.skip(i as int).drop_first() == b@.skip(i + 1));
        assert(a@.skip(i as int)[0] == a@[i as int]);
        assert(b@.skip(i as int)[0] == b@[i as int]);
        i = i + 1;
    }
    if i == a.len() {
        i < b.len()
    } else if i == b.len() {
        false
    } else {
        assert(a@.skip(i as int)[0] == a@[i as int]);
        assert(b@.skip(i as int)[0] == b@[i as int]);
        (a[i] as u32) < (b[i] as u32)
    }
}

/// Whether entry `x` comes strictly before entry `y`.
fn entry_less(x: &DirEntry, y: &DirEntry) -> (r: bool)
    ensures
        r == entry_lt(ev(*x), ev(*y)),
{
    let xn = chars_of(x.name.as_str());
    let yn = chars_of(y.name.as_str());
    if chars_less(&xn, &yn) {
        return true;
    }
    if !crate::text::chars_eq(&xn, &yn) {
        return false;
    }
    if !x.is_dir && y.is_dir {
        return true;
    }
    if x.is_dir != y.is_dir {
        return false;
    }
    chars_less(&chars_of(x.path.as_str()), &chars_of(y.path.as_str()))
}

proof fn lemma_multiset_insert<A>(s: Seq<A>, p: int, x: A)
    requires
        0 <= p <= s.len(),
    ensures
        s.insert(p, x).to_multiset() == s.to_multiset().insert(x),
{
    broadcast use vstd::seq_lib::group_to_multiset_ensures;
    broadcast use vstd::multiset::group_multiset_axioms;

    let t = s.insert(p, x);
    assert(t.remove(p) =~= s);
    assert(t.remove(p).to_multiset() =~= t.to_multiset().remove(t[p]));
    assert(t.contains(x)) by {
        assert(t[p] == x);
    }
    assert(t.to_multiset().count(x) > 0);
    assert(t.to_multiset() =~= s.to_multiset().insert(x));
}

/// Inserts `x` into the sorted `out` after every entry it is not less than.
fn insert_sorted(out: &mut Vec<DirEntry>, x: DirEntry)
    requires
        sorted_entries(old(out)@.map_values(|e: DirEntry| ev(e))),
    ensures
        sorted_entries(final(out)@.map_values(|e: DirEntry| ev(e))),
        final(out)@.map_values(|e: DirEntry| ev(e)).to_multiset() == old(out)@.map_values(
            |e: DirEntry| ev(e),
        ).to_multiset().insert(ev(x)),
{
    let ghost v = out@.map_values(|e: DirEntry| ev(e));
    let mut p: usize = 0;
    while p < out.len() && !entry_less(&x, &out[p])
        invariant
            p <= out.len(),
            v == out@.map_values(|e: DirEntry| ev(e)),
            forall|i: int| 0 <= i < p ==> !entry_lt(ev(x), #[trigger] v[i]),
        decreases out.len() - p,
    {
        p = p + 1;
    }
    let ghost xv = ev(x);
    out.insert(p, x);
    let ghost t = out@.map_values(|e: DirEntry| ev(e));
    assert(t =~= v.insert(p as int, xv));
    proof {
        lemma_multiset_insert(v, p as int, xv);
        assert forall|i: int, j: int| 0 <= i < j < t.len() implies !entry_lt(
            #[trigger] t[j],
            #[trigger] t[i],
        ) by {
            if i == p {
                let k = j - 1;
                assert(t[j] == v[k]);
                assert(p < v.len());
                assert(entry_lt(xv, v[p as int]));
                if entry_lt(v[k], xv) {
                    law_entry_order_is_total(v[k], xv, v[p as int]);
                    if k > p {
                        assert(!entry_lt(v[k], v[p as int]));
                    }
                }
            } else if j == p {
                assert(t[i] == v[i]);
            } else {
                let ii = if i < p {
                    i
                } else {
                    i - 1
                };
                let jj = if j < p {
                    j
                } else {
                    j - 1
                };
                assert(t[i] == v[ii]);
                assert(t[j] == v[jj]);
            }
        }
    }
}

/// The entries the lister shows, sorted: with `-a` (bit 1 of `ops`) all of
/// them, otherwise those whose name does not start with `.`.
pub fn select_entries(entries: Vec<DirEntry>, ops: i32) -> (r: Vec<DirEntry>)
    requires
        forall|i: int|
            0 <= i < entries.len() ==> ops & 1 == 1 || #[trigger] entries@[i].name@.len() > 0,
    ensures
        sorted_entries(r@.map_values(|e: DirEntry| ev(e))),
        r@.map_values(|e: DirEntry| ev(e)).to_multiset() == shown_entries(
            entries@.map_values(|e: DirEntry| ev(e)),
            ops,
        ).to_multiset(),
{
    let ghost all = entries@.map_values(|e: DirEntry| ev(e));
    let mut out: Vec<DirEntry> = Vec::new();
    let mut rest = entries;
    let ghost n = all.len();
    assert(n == rest.len());
    assert(out@.map_values(|e: DirEntry| ev(e)) =~= Seq::<EntryView>::empty());
    let mut i: usize = 0;
    while rest.len() > 0
        invariant
            i + rest.len() == n,
            n == all.len(),
            n <= usize::MAX,
            forall|k: int| 0 <= k < rest.len() ==> ev(#[trigger] rest@[k]) == all[i + k],
            forall|k: int| 0 <= k < n ==> ops & 1 == 1 || (#[trigger] all[k]).0.len() > 0,
            sorted_entries(out@.map_values(|e: DirEntry| ev(e))),
            out@.map_values(|e: DirEntry| ev(e)).to_multiset() == shown_entries(
                all.take(i as int),
                ops,
            ).to_multiset(),
        decreases rest.len(),
    {
        let e = rest.remove(0);
        assert(ev(e) == all[i as int]);
        assert(all.take(i + 1).drop_last() =~= all.take(i as int));
        assert(all.take(i + 1).last() == all[i as int]);
        let show = (ops & 1 == 1) || {
            let c = chars_of(e.name.as_str());
            c[0] != '.'
        };
        proof {
            broadcast use vstd::seq_lib::group_to_multiset_ensures;

        }
        if show {
            insert_sorted(&mut out, e);
        }
        i = i + 1;
    }
    assert(all.take(n as int) =~= all);
    out
}

/// `ansi_term::Color::Blue.paint(s)` as text: the escape code for a blue
/// foreground, `s`, and the reset code (what the crate's `Display` for an
/// `ANSIString` writes).
#[verifier::external_body]
fn paint_blue(s: &str) -> (r: String)
    ensures
        r@ == "\u{1b}[34m"@ + s@ + "\u{1b}[0m"@,
{
    format!("{}", ansi_term::Color::Blue.paint(s))
}

/// How a short listing shows one entry: a directory's name painted blue, a
/// file's name padded to four characters, then a space.
pub fn short_entry(name: &str, is_dir: bool) -> (r: String)
    ensures
        is_dir ==> r@ == "\u{1b}[34m"@ + name@ + "\u{1b}[0m"@ + " "@,
        !is_dir ==> r@ == pad_right(name@, 4) + " "@,
{
    if is_dir {
        let mut out = paint_blue(name);
        push_str(&mut out, " ");
        out
    } else {
        let mut out = String::new();
        push_pad_right(&mut out, &chars_of(name), 4);
        push_str(&mut out, " ");
        out
    }
}

/// The option bit of a command-line argument of the lister: `-a` is 1,
/// `-l` is 2, anything else (a path) none.
pub fn ls_option(arg: &str) -> (r: Option<i32>)
    ensures
        arg@ == "-a"@ ==> r == Some(1i32),
        arg@ == "-l"@ ==> r == Some(2i32),
        arg@ != "-a"@ && arg@ != "-l"@ ==> r is None,
{
    proof {
        reveal_strlit("-a");
        reveal_strlit("-l");
        assert("-a"@[1] != "-l"@[1]);
    }
    if crate::text::str_eq(arg, "-a") {
        Some(1)
    } else if crate::text::str_eq(arg, "-l") {
        Some(2)
    } else {
        None
    }
}

/// Each of the mode letters follows its own bit: the first letter is `d`,
/// `c` or `b` for a directory, character device or block device and `-`
/// otherwise, and letter `k + 1` is `r`, `w` or `x` (by `k % 3`) exactly
/// when permission bit `0o400 >> k` is set, whatever the other bits are.
pub proof fn law_mode_letters_follow_bits(mode: u32)
    ensures
        mode_letters(mode)[0] == if mode & 0o170000 == 0o040000 {
            'd'
        } else if mode & 0o170000 == 0o020000 {
            'c'
        } else if mode & 0o170000 == 0o060000 {
            'b'
        } else {
            '-'
        },
        mode_letters(mode)[1] == if mode & 0o400 != 0 { 'r' } else { '-' },
        mode_letters(mode)[2] == if mode & 0o200 != 0 { 'w' } else { '-' },
        mode_letters(mode)[3] == if mode & 0o100 != 0 { 'x' } else { '-' },
        mode_letters(mode)[4] == if mode & 0o040 != 0 { 'r' } else { '-' },
        mode_letters(mode)[5] == if mode & 0o020 != 0 { 'w' } else { '-' },
        mode_letters(mode)[6] == if mode & 0o010 != 0 { 'x' } else { '-' },
        mode_letters(mode)[7] == if mode & 0o004 != 0 { 'r' } else { '-' },
        mode_letters(mode)[8] == if mode & 0o002 != 0 { 'w' } else { '-' },
        mode_letters(mode)[9] == if mode & 0o001 != 0 { 'x' } else { '-' },
{
}

/// Dot files are shown exactly with `-a`: an entry whose name starts with
/// `.` is among the shown entries exactly when bit 1 of `ops` is set, any
/// other entry always is, and the other bits of `ops` (such as `-l`)
/// change nothing.
pub proof fn law_hidden_entries_need_all_flag(s: Seq<EntryView>, ops: i32, e: EntryView)
    requires
        s.contains(e),
    ensures
        shown_entries(s, ops).contains(e) <==> (ops & 1 == 1 || e.0[0] != '.'),
        shown_entries(s, ops) == shown_entries(s, ops & 1),
    decreases s.len(),
{
    assert((ops & 1) & 1 == ops & 1) by (bit_vector);
    lemma_shown_entries_low_bit(s, ops);
    lemma_shown_entries_contains(s, ops, e);
}

proof fn lemma_shown_entries_low_bit(s: Seq<EntryView>, ops: i32)
    ensures
        shown_entries(s, ops) == shown_entries(s, ops & 1),
    decreases s.len(),
{
    assert((ops & 1) & 1 == ops & 1) by (bit_vector);
    if s.len() > 0 {
        lemma_shown_entries_low_bit(s.drop_last(), ops);
    }
}

proof fn lemma_shown_entries_contains(s: Seq<EntryView>, ops: i32, e: EntryView)
    requires
        s.contains(e),
    ensures
        shown_entries(s, ops).contains(e) <==> shown(e, ops),
    decreases s.len(),
{
    let t = s.drop_last();
    let u = shown_entries(t, ops);
    let w = shown_entries(s, ops);
    lemma_shown_entries_subset(s, ops);
    if w.contains(e) {
        let j = choose|j: int| 0 <= j < w.len() && w[j] == e;
        assert(shown(w[j], ops));
    }
    if shown(e, ops) {
        if s.last() == e {
            assert(w.last() == e);
            assert(w[w.len() - 1] == e);
        } else {
            let k = choose|k: int| 0 <= k < s.len() && s[k] == e;
            assert(k != s.len() - 1);
            assert(t[k] == e);
            lemma_shown_entries_contains(t, ops, e);
            let j = choose|j: int| 0 <= j < u.len() && u[j] == e;
            if shown(s.last(), ops) {
                assert(w[j] == e);
            } else {
                assert(w == u);
            }
        }
    }
}

proof fn lemma_shown_entries_subset(s: Seq<EntryView>, ops: i32)
    ensures
        forall|j: int|
            0 <= j < shown_entries(s, ops).len() ==> s.contains(#[trigger] shown_entries(s, ops)[j])
                && shown(shown_entries(s, ops)[j], ops),
    decreases s.len(),
{
    if s.len() > 0 {
        let t = s.drop_last();
        lemma_shown_entries_subset(t, ops);
        let u = shown_entries(s, ops);
        assert forall|j: int| 0 <= j < u.len() implies s.contains(#[trigger] u[j]) && shown(u[j], ops) by {
            if j < shown_entries(t, ops).len() {
                assert(u[j] == shown_entries(t, ops)[j]);
                let k = choose|k: int| 0 <= k < t.len() && t[k] == u[j];
                assert(s[k] == u[j]);
            } else {
                assert(u[j] == s.last());
                assert(s[s.len() - 1] == u[j]);
            }
        }
    }
}

} // verus!
