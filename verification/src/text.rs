//! Character and string utilities with exact specifications: whitespace,
//! trimming, splitting into words, decimal formatting and parsing.

use vstd::prelude::*;
use vstd::utf8::{
    decode_utf8, encode_scalar, encode_utf8, encode_utf8_first_scalar, is_ascii_chars,
    is_char_boundary, length_of_first_scalar, pop_first_scalar,
};
use vstd::string::StringSliceAdditionalSpecFns;

verus! {

/// Appends one character to a `String` (std `String::push`).
#[verifier::external_body]
pub(crate) fn push_char(s: &mut String, c: char)
    ensures
        final(s)@ == old(s)@.push(c),
{
    s.push(c);
}

/// The characters of `s`, in order.
pub fn chars_of(s: &str) -> (v: Vec<char>)
    ensures
        v@ == s@,
{
    let mut v: Vec<char> = Vec::new();
    for c in it: s.chars()
        invariant
            v@ == it.seq().take(it.index() as int),
            it.seq() == s@,
    {
        v.push(c);
    }
    v
}

/// The string whose characters are `v`.
pub fn string_of(v: &Vec<char>) -> (s: String)
    ensures
        s@ == v@,
{
    let mut s = String::new();
    let mut i: usize = 0;
    while i < v.len()
        invariant
            i <= v.len(),
            s@ == v@.take(i as int),
        decreases v.len() - i,
    {
        push_char(&mut s, v[i]);
        assert(v@.take(i + 1) == v@.take(i as int).push(v@[i as int]));
        i = i + 1;
    }
    assert(v@.take(v.len() as int) == v@);
    s
}

/// Appends the characters of `t` to `s`.
pub fn push_str(s: &mut String, t: &str)
    ensures
        final(s)@ == old(s)@ + t@,
{
    let v = chars_of(t);
    let mut i: usize = 0;
    while i < v.len()
        invariant
            i <= v.len(),
            v@ == t@,
            s@ == old(s)@ + v@.take(i as int),
        decreases v.len() - i,
    {
        push_char(s, v[i]);
        assert(v@.take(i + 1) == v@.take(i as int).push(v@[i as int]));
        i = i + 1;
    }
    assert(v@.take(v.len() as int) == v@);
}

/// Appends the characters of `v` to `s`.
pub fn push_chars(s: &mut String, v: &Vec<char>)
    ensures
        final(s)@ == old(s)@ + v@,
{
    let mut i: usize = 0;
    while i < v.len()
        invariant
            i <= v.len(),
            s@ == old(s)@ + v@.take(i as int),
        decreases v.len() - i,
    {
        push_char(s, v[i]);
        assert(v@.take(i + 1) == v@.take(i as int).push(v@[i as int]));
        i = i + 1;
    }
    assert(v@.take(v.len() as int) == v@);
}

/// The Unicode `White_Space` property, which is what `char::is_whitespace`
/// tests.
pub open spec fn is_ws(c: char) -> bool {
    let u = c as u32;
    ||| (0x09 <= u <= 0x0d)
    ||| u == 0x20
    ||| u == 0x85
    ||| u == 0xa0
    ||| u == 0x1680
    ||| (0x2000 <= u <= 0x200a)
    ||| u == 0x2028
    ||| u == 0x2029
    ||| u == 0x202f
    ||| u == 0x205f
    ||| u == 0x3000
}

/// Whether `c` is a whitespace character (`char::is_whitespace`).
pub fn is_whitespace(c: char) -> (b: bool)
    ensures
        b == is_ws(c),
{
    let u = c as u32;
    (0x09 <= u && u <= 0x0d) || u == 0x20 || u == 0x85 || u == 0xa0 || u == 0x1680 || (0x2000
        <= u && u <= 0x200a) || u == 0x2028 || u == 0x2029 || u == 0x202f || u == 0x205f || u
        == 0x3000
}

/// `s` without its leading whitespace.
pub open spec fn trim_start(s: Seq<char>) -> Seq<char>
    decreases s.len(),
{
    if s.len() > 0 && is_ws(s[0]) {
        trim_start(s.drop_first())
    } else {
        s
    }
}

/// `s` without its trailing whitespace.
pub open spec fn trim_end(s: Seq<char>) -> Seq<char>
    decreases s.len(),
{
    if s.len() > 0 && is_ws(s.last()) {
        trim_end(s.drop_last())
    } else {
        s
    }
}

/// `s` without trailing whitespace (`str::trim_end`).
pub fn trim_end_str(s: &str) -> (r: String)
    ensures
        r@ == trim_end(s@),
{
    let v = chars_of(s);
    let n = v.len();
    let mut k: usize = n;
    while k > 0 && is_whitespace(v[k - 1])
        invariant
            k <= n,
            n == v.len(),
            forall|j: int| k <= j < n ==> is_ws(#[trigger] v@[j]),
        decreases k,
    {
        k = k - 1;
    }
    proof {
        lemma_trim_end(v@, k as int);
    }
    let t = sub_chars(&v, 0, k);
    assert(t@ == v@.take(k as int));
    string_of(&t)
}

/// `s` without leading and trailing whitespace (`str::trim`).
pub open spec fn trim(s: Seq<char>) -> Seq<char> {
    trim_end(trim_start(s))
}

/// `trim_start(s)` is the suffix of `s` that starts at the first
/// non-whitespace character.
pub proof fn lemma_trim_start(s: Seq<char>, i: int)
    requires
        0 <= i <= s.len(),
        forall|j: int| 0 <= j < i ==> is_ws(#[trigger] s[j]),
        i == s.len() || !is_ws(s[i]),
    ensures
        trim_start(s) == s.skip(i),
    decreases i,
{
    if i > 0 {
        assert forall|j: int| 0 <= j < i - 1 implies is_ws(#[trigger] s.drop_first()[j]) by {
            assert(s.drop_first()[j] == s[j + 1]);
        }
        lemma_trim_start(s.drop_first(), i - 1);
        assert(s.drop_first().skip(i - 1) == s.skip(i));
    } else {
        assert(s.skip(0) == s);
    }
}

/// `trim_end(s)` is the prefix of `s` that ends at the last non-whitespace
/// character.
pub proof fn lemma_trim_end(s: Seq<char>, k: int)
    requires
        0 <= k <= s.len(),
        forall|j: int| k <= j < s.len() ==> is_ws(#[trigger] s[j]),
        k == 0 || !is_ws(s[k - 1]),
    ensures
        trim_end(s) == s.take(k),
    decreases s.len() - k,
{
    if k < s.len() {
        assert forall|j: int| k <= j < s.drop_last().len() implies is_ws(
            #[trigger] s.drop_last()[j],
        ) by {
            assert(s.drop_last()[j] == s[j]);
        }
        lemma_trim_end(s.drop_last(), k);
        assert(s.drop_last().take(k) == s.take(k));
    } else {
        assert(s.take(k) == s);
    }
}

/// The characters of `s` without leading and trailing whitespace.
pub fn trim_chars(s: &Vec<char>) -> (r: Vec<char>)
    ensures
        r@ == trim(s@),
{
    let n = s.len();
    let mut i: usize = 0;
    while i < n && is_whitespace(s[i])
        invariant
            i <= n,
            n == s.len(),
            forall|j: int| 0 <= j < i ==> is_ws(#[trigger] s@[j]),
        decreases n - i,
    {
        i = i + 1;
    }
    proof {
        lemma_trim_start(s@, i as int);
    }
    let mut k: usize = n;
    while k > i && is_whitespace(s[k - 1])
        invariant
            i <= k <= n,
            n == s.len(),
            forall|j: int| k <= j < n ==> is_ws(#[trigger] s@[j]),
        decreases k,
    {
        k = k - 1;
    }
    let ghost t = s@.skip(i as int);
    proof {
        assert forall|j: int| k - i <= j < t.len() implies is_ws(#[trigger] t[j]) by {
            assert(t[j] == s@[j + i]);
        }
        if k > i {
            assert(t[k - i - 1] == s@[k - 1]);
        }
        lemma_trim_end(t, k - i);
    }
    let mut r: Vec<char> = Vec::new();
    let mut j: usize = i;
    while j < k
        invariant
            i <= j <= k <= n,
            n == s.len(),
            r@ == s@.subrange(i as int, j as int),
        decreases k - j,
    {
        r.push(s[j]);
        assert(s@.subrange(i as int, j + 1) == s@.subrange(i as int, j as int).push(s@[j as int]));
        j = j + 1;
    }
    assert(r@ == t.take(k - i));
    r
}

/// `s` without leading and trailing whitespace (`str::trim`).
pub fn trim_str(s: &str) -> (r: String)
    ensures
        r@ == trim(s@),
{
    let v = chars_of(s);
    let t = trim_chars(&v);
    string_of(&t)
}

/// The whitespace-separated words of `s`, in order (`str::split_whitespace`).
pub open spec fn words(s: Seq<char>) -> Seq<Seq<char>>
    decreases s.len(),
{
    if s.len() == 0 {
        seq![]
    } else {
        let w = words(s.drop_last());
        let c = s.last();
        if is_ws(c) {
            w
        } else if s.len() >= 2 && !is_ws(s[s.len() - 2]) {
            w.update(w.len() - 1, w.last().push(c))
        } else {
            w.push(seq![c])
        }
    }
}

/// Splits `s` into its whitespace-separated words.
pub fn split_words(s: &Vec<char>) -> (r: Vec<String>)
    ensures
        r.deep_view() == words(s@),
{
    let mut out: Vec<String> = Vec::new();
    let mut cur: Vec<char> = Vec::new();
    let mut in_word = false;
    let mut i: usize = 0;
    while i < s.len()
        invariant
            i <= s.len(),
            in_word == (i > 0 && !is_ws(s@[i - 1])),
            in_word ==> words(s@.take(i as int)) == out.deep_view().push(cur@),
            !in_word ==> words(s@.take(i as int)) == out.deep_view(),
        decreases s.len() - i,
    {
        let c = s[i];
        let ghost t = s@.take(i + 1);
        assert(t.drop_last() == s@.take(i as int));
        assert(t.last() == c);
        if is_whitespace(c) {
            if in_word {
                let w = string_of(&cur);
                let ghost before = out.deep_view();
                out.push(w);
                assert(out.deep_view().len() == before.len() + 1);
                assert forall|k: int| 0 <= k < out.deep_view().len() implies out.deep_view()[k]
                    == before.push(cur@)[k] by {}
                assert(out.deep_view() == before.push(cur@));
                cur = Vec::new();
            }
            in_word = false;
        } else {
            if in_word {
                assert(t.len() >= 2 && t[t.len() - 2] == s@[i - 1]);
                cur.push(c);
            } else {
                cur = Vec::new();
                cur.push(c);
                assert(cur@ == seq![c]);
            }
            in_word = true;
        }
        i = i + 1;
    }
    assert(s@.take(s.len() as int) == s@);
    if in_word {
        let w = string_of(&cur);
        let ghost before = out.deep_view();
        out.push(w);
        assert(out.deep_view().len() == before.len() + 1);
        assert forall|k: int| 0 <= k < out.deep_view().len() implies out.deep_view()[k]
            == before.push(cur@)[k] by {}
        assert(out.deep_view() == before.push(cur@));
    }
    out
}

/// The decimal digit character for `d < 10`.
pub open spec fn digit_char(d: nat) -> char {
    (d + 48) as char
}

/// The decimal representation of a natural number, without leading zeros.
pub open spec fn dec_nat(n: nat) -> Seq<char>
    decreases n,
{
    if n < 10 {
        seq![digit_char(n)]
    } else {
        dec_nat(n / 10).push(digit_char(n % 10))
    }
}

/// The decimal representation of an integer, with `-` before a negative one
/// (what `{}` prints for an integer).
pub open spec fn dec_int(i: int) -> Seq<char> {
    if i < 0 {
        seq!['-'] + dec_nat((-i) as nat)
    } else {
        dec_nat(i as nat)
    }
}

fn digit(d: u64) -> (c: char)
    requires
        d < 10,
    ensures
        c == digit_char(d as nat),
{
    let b: u8 = 48u8 + d as u8;
    b as char
}

/// Appends the decimal representation of `n` to `s`.
pub fn push_dec_u64(s: &mut String, n: u64)
    ensures
        final(s)@ == old(s)@ + dec_nat(n as nat),
    decreases n,
{
    if n >= 10 {
        push_dec_u64(s, n / 10);
    }
    push_char(s, digit(n % 10));
}

/// Appends the decimal representation of `n` to `s`, with `-` before a
/// negative number.
pub fn push_dec_i64(s: &mut String, n: i64)
    ensures
        final(s)@ == old(s)@ + dec_int(n as int),
{
    if n < 0 {
        push_char(s, '-');
        let m: u64 = if n == i64::MIN {
            0x8000_0000_0000_0000u64
        } else {
            (-n) as u64
        };
        push_dec_u64(s, m);
        assert(s@ == old(s)@ + (seq!['-'] + dec_nat((-n) as nat)));
    } else {
        push_dec_u64(s, n as u64);
    }
}

/// Whether `c` is an ASCII decimal digit.
pub open spec fn is_digit(c: char) -> bool {
    '0' <= c <= '9'
}

/// A non-empty sequence of ASCII decimal digits.
pub open spec fn all_digits(s: Seq<char>) -> bool {
    s.len() > 0 && forall|i: int| 0 <= i < s.len() ==> is_digit(#[trigger] s[i])
}

/// The value of a sequence of decimal digits.
pub open spec fn digits_val(s: Seq<char>) -> nat
    decreases s.len(),
{
    if s.len() == 0 {
        0
    } else {
        digits_val(s.drop_last()) * 10 + (s.last() as nat - 48) as nat
    }
}

/// The value written by `s` as an optionally signed decimal integer, as
/// Rust's `FromStr` for signed integers reads it: an optional `+` or `-`
/// followed by one or more ASCII digits; `None` when `s` is not of that form.
pub open spec fn signed_value(s: Seq<char>) -> Option<int> {
    if s.len() > 0 && (s[0] == '-' || s[0] == '+') {
        if all_digits(s.drop_first()) {
            if s[0] == '-' {
                Some(-digits_val(s.drop_first()))
            } else {
                Some(digits_val(s.drop_first()) as int)
            }
        } else {
            None
        }
    } else if all_digits(s) {
        Some(digits_val(s) as int)
    } else {
        None
    }
}

/// The value written by `s` as an unsigned decimal integer, as Rust's
/// `FromStr` for unsigned integers reads it: an optional `+` followed by
/// one or more ASCII digits.
pub open spec fn unsigned_value(s: Seq<char>) -> Option<nat> {
    if s.len() > 0 && s[0] == '+' {
        if all_digits(s.drop_first()) {
            Some(digits_val(s.drop_first()))
        } else {
            None
        }
    } else if all_digits(s) {
        Some(digits_val(s))
    } else {
        None
    }
}

/// What `s.parse::<i32>().ok()` gives.
pub open spec fn parse_i32_spec(s: Seq<char>) -> Option<i32> {
    match signed_value(s) {
        Some(v) => if i32::MIN <= v <= i32::MAX {
            Some(v as i32)
        } else {
            None
        },
        None => None,
    }
}

/// What `s.parse::<usize>().ok()` gives.
pub open spec fn parse_usize_spec(s: Seq<char>) -> Option<usize> {
    match unsigned_value(s) {
        Some(v) => if v <= usize::MAX {
            Some(v as usize)
        } else {
            None
        },
        None => None,
    }
}

proof fn lemma_digits_val_grows(s: Seq<char>, k: int)
    requires
        0 <= k <= s.len(),
        forall|i: int| 0 <= i < s.len() ==> is_digit(#[trigger] s[i]),
    ensures
        digits_val(s.take(k)) <= digits_val(s),
    decreases s.len() - k,
{
    if k < s.len() {
        assert(s.drop_last().take(k) == s.take(k));
        lemma_digits_val_grows(s.drop_last(), k);
    } else {
        assert(s.take(k) == s);
    }
}

const DIGITS_CAP: u128 = 0x1_0000_0000_0000_0000_0000;

/// Reads `v[start..]` as a non-empty run of ASCII digits. Returns whether it
/// is one, and its value capped at `DIGITS_CAP`.
fn read_digits(v: &Vec<char>, start: usize) -> (r: (bool, u128))
    requires
        start <= v.len(),
    ensures
        r.0 == all_digits(v@.skip(start as int)),
        r.0 ==> r.1 as nat == if digits_val(v@.skip(start as int)) < DIGITS_CAP as nat {
            digits_val(v@.skip(start as int))
        } else {
            DIGITS_CAP as nat
        },
{
    let ghost t = v@.skip(start as int);
    if start == v.len() {
        return (false, 0);
    }
    let mut acc: u128 = 0;
    let mut i: usize = start;
    while i < v.len()
        invariant
            start <= i <= v.len(),
            t == v@.skip(start as int),
            forall|j: int| 0 <= j < i - start ==> is_digit(#[trigger] t[j]),
            acc as nat == if digits_val(t.take(i - start)) < DIGITS_CAP as nat {
                digits_val(t.take(i - start))
            } else {
                DIGITS_CAP as nat
            },
        decreases v.len() - i,
    {
        let c = v[i];
        assert(t[i - start] == c);
        if !('0' <= c && c <= '9') {
            assert(!is_digit(t[i - start]));
            return (false, 0);
        }
        let d: u128 = (c as u32 - 48) as u128;
        let ghost p = t.take(i - start);
        let ghost q = t.take(i - start + 1);
        assert(q.drop_last() == p);
        assert(q.last() == c);
        assert(digits_val(q) == digits_val(p) * 10 + d);
        acc = acc * 10 + d;
        if acc > DIGITS_CAP {
            acc = DIGITS_CAP;
        }
        i = i + 1;
    }
    assert(t.take(t.len() as int) == t);
    (true, acc)
}

/// Parses `s` as Rust's `str::parse::<i32>` does; `None` where it fails.
pub fn parse_i32(s: &Vec<char>) -> (r: Option<i32>)
    ensures
        r == parse_i32_spec(s@),
{
    if s.len() > 0 && (s[0] == '-' || s[0] == '+') {
        let (ok, val) = read_digits(s, 1);
        assert(s@.skip(1) == s@.drop_first());
        if !ok {
            return None;
        }
        if s[0] == '-' {
            if val <= 0x8000_0000 {
                let m: i64 = -(val as i64);
                Some(m as i32)
            } else {
                None
            }
        } else {
            if val <= 0x7fff_ffff {
                Some(val as i32)
            } else {
                None
            }
        }
    } else {
        let (ok, val) = read_digits(s, 0);
        assert(s@.skip(0) == s@);
        if !ok {
            return None;
        }
        if val <= 0x7fff_ffff {
            Some(val as i32)
        } else {
            None
        }
    }
}

/// Parses `s` as Rust's `str::parse::<usize>` does; `None` where it fails.
pub fn parse_usize(s: &Vec<char>) -> (r: Option<usize>)
    ensures
        r == parse_usize_spec(s@),
{
    let start: usize = if s.len() > 0 && s[0] == '+' {
        1
    } else {
        0
    };
    let (ok, val) = read_digits(s, start);
    assert(s@.skip(1) == s@.drop_first());
    assert(s@.skip(0) == s@);
    if !ok {
        return None;
    }
    if val < DIGITS_CAP && val as u128 <= usize::MAX as u128 {
        Some(val as usize)
    } else {
        proof {
            assert(usize::MAX < DIGITS_CAP);
        }
        None
    }
}

proof fn lemma_dec_nat_digits(n: nat)
    ensures
        all_digits(dec_nat(n)),
        digits_val(dec_nat(n)) == n,
        dec_nat(n)[0] != '-' && dec_nat(n)[0] != '+',
    decreases n,
{
    assert((digit_char(n % 10) as nat) == n % 10 + 48);
    if n >= 10 {
        lemma_dec_nat_digits(n / 10);
        let d = dec_nat(n);
        assert(d.last() == digit_char(n % 10));
        assert(n == (n / 10) * 10 + n % 10);
        assert(d.drop_last() == dec_nat(n / 10));
        assert(d[0] == dec_nat(n / 10)[0]);
        assert(digits_val(d) == digits_val(d.drop_last()) * 10 + (d.last() as nat - 48) as nat);
    } else {
        let d = dec_nat(n);
        assert(d.drop_last() =~= Seq::<char>::empty());
        assert(digits_val(d) == digits_val(d.drop_last()) * 10 + (d.last() as nat - 48) as nat);
    }
}

/// Reading back what `{}` prints for an `i32` gives the same number:
/// `parse::<i32>()` undoes decimal formatting.
pub proof fn law_parse_i32_undoes_format(n: i32)
    ensures
        parse_i32_spec(dec_int(n as int)) == Some(n),
{
    if n < 0 {
        let m: nat = (-n) as nat;
        lemma_dec_nat_digits(m);
        let s = dec_int(n as int);
        assert(s.drop_first() == dec_nat(m));
        assert(s[0] == '-');
    } else {
        lemma_dec_nat_digits(n as nat);
    }
}

/// Reading back what `{}` prints for a `usize` gives the same number.
pub proof fn law_parse_usize_undoes_format(n: usize)
    ensures
        parse_usize_spec(dec_int(n as int)) == Some(n),
{
    lemma_dec_nat_digits(n as nat);
}

/// Every word of `s` is non-empty and holds no whitespace.
pub proof fn law_words_are_words(s: Seq<char>)
    ensures
        forall|k: int|
            0 <= k < words(s).len() ==> #[trigger] words(s)[k].len() > 0 && forall|j: int|
                0 <= j < words(s)[k].len() ==> !is_ws(#[trigger] words(s)[k][j]),
        s.len() > 0 && !is_ws(s.last()) ==> words(s).len() > 0 && words(s).last().last()
            == s.last(),
    decreases s.len(),
{
    if s.len() > 0 {
        law_words_are_words(s.drop_last());
        let w = words(s.drop_last());
        let c = s.last();
        if !is_ws(c) && s.len() >= 2 && !is_ws(s[s.len() - 2]) {
            assert(s.drop_last().last() == s[s.len() - 2]);
            let nw = w.update(w.len() - 1, w.last().push(c));
            assert forall|k: int| 0 <= k < nw.len() implies #[trigger] nw[k].len() > 0
                && forall|j: int| 0 <= j < nw[k].len() ==> !is_ws(#[trigger] nw[k][j]) by {
                if k == w.len() - 1 {
                    assert forall|j: int| 0 <= j < nw[k].len() implies !is_ws(
                        #[trigger] nw[k][j],
                    ) by {
                        if j < w.last().len() {
                            assert(nw[k][j] == w[k][j]);
                        }
                    }
                }
            }
        }
    }
}

/// Whether two character vectors are equal.
pub fn chars_eq(a: &Vec<char>, b: &Vec<char>) -> (r: bool)
    ensures
        r == (a@ == b@),
{
    if a.len() != b.len() {
        return false;
    }
    let mut i: usize = 0;
    while i < a.len()
        invariant
            i <= a.len() == b.len(),
            forall|j: int| 0 <= j < i ==> a@[j] == b@[j],
        decreases a.len() - i,
    {
        if a[i] != b[i] {
            return false;
        }
        i = i + 1;
    }
    assert(a@ =~= b@);
    true
}

/// Whether two strings hold the same characters.
pub fn str_eq(a: &str, b: &str) -> (r: bool)
    ensures
        r == (a@ == b@),
{
    let va = chars_of(a);
    let vb = chars_of(b);
    chars_eq(&va, &vb)
}

/// Whether `p` is a prefix of `s`.
pub open spec fn starts_with(s: Seq<char>, p: Seq<char>) -> bool {
    p.len() <= s.len() && s.take(p.len() as int) == p
}

/// Whether `p` is a prefix of `s` (`str::starts_with` with a `&str` pattern).
pub fn str_starts_with(s: &str, p: &str) -> (r: bool)
    ensures
        r == starts_with(s@, p@),
{
    let vs = chars_of(s);
    let vp = chars_of(p);
    if vp.len() > vs.len() {
        return false;
    }
    let mut i: usize = 0;
    while i < vp.len()
        invariant
            i <= vp.len() <= vs.len(),
            vs@ == s@,
            vp@ == p@,
            forall|j: int| 0 <= j < i ==> vs@[j] == vp@[j],
        decreases vp.len() - i,
    {
        if vs[i] != vp[i] {
            assert(vs@.take(vp@.len() as int)[i as int] == vs@[i as int]);
            return false;
        }
        i = i + 1;
    }
    assert(vs@.take(vp@.len() as int) =~= vp@);
    true
}

/// The index of the first `x` in `s`, if there is one.
pub open spec fn index_of_first<A>(s: Seq<A>, x: A) -> Option<int>
    decreases s.len(),
{
    if s.len() == 0 {
        None
    } else if s[0] == x {
        Some(0)
    } else {
        match index_of_first(s.drop_first(), x) {
            Some(i) => Some(i + 1),
            None => None,
        }
    }
}

/// `index_of_first` is the lowest index holding `x`.
pub proof fn lemma_index_of_first<A>(s: Seq<A>, x: A)
    ensures
        match index_of_first(s, x) {
            Some(i) => 0 <= i < s.len() && s[i] == x && forall|j: int| 0 <= j < i ==> s[j] != x,
            None => forall|j: int| 0 <= j < s.len() ==> s[j] != x,
        },
    decreases s.len(),
{
    if s.len() > 0 && s[0] != x {
        lemma_index_of_first(s.drop_first(), x);
        assert forall|j: int| 1 <= j < s.len() implies s[j] == s.drop_first()[j - 1] by {}
    }
}

/// The index of the lowest `x` in `s` is `i` when `s[i] == x` and no `x`
/// comes before it.
pub proof fn lemma_index_of_first_is<A>(s: Seq<A>, x: A, i: int)
    requires
        0 <= i < s.len(),
        s[i] == x,
        forall|j: int| 0 <= j < i ==> s[j] != x,
    ensures
        index_of_first(s, x) == Some(i),
{
    lemma_index_of_first(s, x);
}

/// The index of the first `c` in `s`, if there is one.
pub open spec fn first_index(s: Seq<char>, c: char) -> Option<int> {
    index_of_first(s, c)
}

/// The index of the last `x` in `s`, if there is one.
pub open spec fn index_of_last<A>(s: Seq<A>, x: A) -> Option<int>
    decreases s.len(),
{
    if s.len() == 0 {
        None
    } else if s.last() == x {
        Some(s.len() - 1)
    } else {
        index_of_last(s.drop_last(), x)
    }
}

/// `index_of_last` is the highest index holding `x`.
pub proof fn lemma_index_of_last<A>(s: Seq<A>, x: A)
    ensures
        match index_of_last(s, x) {
            Some(i) => 0 <= i < s.len() && s[i] == x && forall|j: int| i < j < s.len() ==> s[j] != x,
            None => forall|j: int| 0 <= j < s.len() ==> s[j] != x,
        },
    decreases s.len(),
{
    if s.len() > 0 && s.last() != x {
        lemma_index_of_last(s.drop_last(), x);
        assert forall|j: int| 0 <= j < s.len() - 1 implies s[j] == s.drop_last()[j] by {}
    }
}

/// The index of the highest `x` in `s` is `i` when `s[i] == x` and no `x`
/// comes after it.
pub proof fn lemma_index_of_last_is<A>(s: Seq<A>, x: A, i: int)
    requires
        0 <= i < s.len(),
        s[i] == x,
        forall|j: int| i < j < s.len() ==> s[j] != x,
    ensures
        index_of_last(s, x) == Some(i),
    decreases s.len(),
{
    if i < s.len() - 1 {
        assert(s.last() != x);
        lemma_index_of_last_is(s.drop_last(), x, i);
    }
}

/// Finds the first `c` in `v`.
pub fn find_char(v: &Vec<char>, c: char) -> (r: Option<usize>)
    ensures
        match r {
            Some(i) => i < v.len() && v@[i as int] == c && forall|j: int| 0 <= j < i ==> v@[j] != c,
            None => forall|j: int| 0 <= j < v.len() ==> v@[j] != c,
        },
        r matches Some(i) ==> first_index(v@, c) == Some(i as int),
        r is None ==> first_index(v@, c) is None,
{
    let mut i: usize = 0;
    while i < v.len()
        invariant
            i <= v.len(),
            forall|j: int| 0 <= j < i ==> v@[j] != c,
        decreases v.len() - i,
    {
        if v[i] == c {
            proof {
                lemma_index_of_first_is(v@, c, i as int);
            }
            return Some(i);
        }
        i = i + 1;
    }
    proof {
        lemma_index_of_first(v@, c);
    }
    None
}

/// The characters of `v` from `a` up to `b`.
pub fn sub_chars(v: &Vec<char>, a: usize, b: usize) -> (r: Vec<char>)
    requires
        a <= b <= v.len(),
    ensures
        r@ == v@.subrange(a as int, b as int),
{
    let mut r: Vec<char> = Vec::new();
    let mut j: usize = a;
    while j < b
        invariant
            a <= j <= b <= v.len(),
            r@ == v@.subrange(a as int, j as int),
        decreases b - j,
    {
        r.push(v[j]);
        assert(v@.subrange(a as int, j + 1) == v@.subrange(a as int, j as int).push(v@[j as int]));
        j = j + 1;
    }
    r
}

/// Whether byte offset `k` of the UTF-8 encoding of `s` falls on a character
/// boundary (so that slicing `s` there does not panic).
pub closed spec fn boundary_at(s: Seq<char>, k: int) -> bool {
    is_char_boundary(encode_utf8(s), k)
}

/// A character boundary lies within the encoding.
pub proof fn lemma_boundary_within(s: Seq<char>, k: int)
    requires
        boundary_at(s, k),
    ensures
        0 <= k <= encode_utf8(s).len(),
{
    broadcast use vstd::utf8::encode_utf8_valid_utf8;

}

/// What `s.parse::<u16>().ok()` gives.
pub open spec fn parse_u16_spec(s: Seq<char>) -> Option<u16> {
    match unsigned_value(s) {
        Some(v) => if v <= u16::MAX {
            Some(v as u16)
        } else {
            None
        },
        None => None,
    }
}

/// Parses a port number as `str::parse::<u16>` does; `None` where it fails.
pub fn parse_u16(s: &str) -> (r: Option<u16>)
    ensures
        r == parse_u16_spec(s@),
{
    let v = chars_of(s);
    match parse_usize(&v) {
        Some(n) => if n <= 65535 {
            Some(n as u16)
        } else {
            None
        },
        None => {
            proof {
                if unsigned_value(s@) is Some {
                    assert(unsigned_value(s@)->0 > usize::MAX);
                }
            }
            None
        },
    }
}

/// The characters of `s` from byte offset `k` on (`&s[k..]`).
pub closed spec fn from_byte(s: Seq<char>, k: int) -> Seq<char> {
    decode_utf8(encode_utf8(s).subrange(k, encode_utf8(s).len() as int))
}

/// Whether byte offset `k` of `s` is on a character boundary.
pub fn char_boundary(s: &str, k: usize) -> (r: bool)
    ensures
        r == boundary_at(s@, k as int),
{
    s.is_char_boundary(k)
}

/// The text from a character boundary on is encoded by the bytes from that
/// offset on.
pub proof fn lemma_from_byte_encoding(s: Seq<char>, k: int)
    requires
        boundary_at(s, k),
    ensures
        0 <= k <= encode_utf8(s).len(),
        encode_utf8(from_byte(s, k)) == encode_utf8(s).skip(k),
{
    broadcast use vstd::utf8::encode_utf8_valid_utf8;

    lemma_boundary_within(s, k);
    let e = encode_utf8(s);
    vstd::utf8::valid_utf8_split(e, k);
    vstd::utf8::decode_utf8_encode_utf8(e.subrange(k, e.len() as int));
    assert(e.skip(k) == e.subrange(k, e.len() as int));
}

/// `&s[k..]` as an owned string.
pub fn slice_from(s: &str, k: usize) -> (r: String)
    requires
        boundary_at(s@, k as int),
    ensures
        r@ == from_byte(s@, k as int),
{
    proof {
        broadcast use vstd::utf8::encode_utf8_decode_utf8;
    }
    let (_, rest) = s.split_at(k);
    proof {
        broadcast use vstd::utf8::encode_utf8_decode_utf8;
        assert(rest.spec_bytes() == encode_utf8(rest@));
        assert(decode_utf8(encode_utf8(rest@)) == rest@);
    }
    rest.to_owned()
}

pub(crate) proof fn lemma_encode_concat(a: Seq<char>, b: Seq<char>)
    ensures
        encode_utf8(a + b) == encode_utf8(a) + encode_utf8(b),
    decreases a.len(),
{
    if a.len() > 0 {
        assert((a + b).drop_first() == a.drop_first() + b);
        assert((a + b)[0] == a[0]);
        lemma_encode_concat(a.drop_first(), b);
        assert(encode_utf8(a + b) == encode_scalar(a[0] as u32) + encode_utf8(a.drop_first() + b));
        assert(encode_scalar(a[0] as u32) + (encode_utf8(a.drop_first()) + encode_utf8(b))
            == (encode_scalar(a[0] as u32) + encode_utf8(a.drop_first())) + encode_utf8(b));
    } else {
        assert(a + b == b);
        assert(encode_utf8(a) + encode_utf8(b) == encode_utf8(b));
    }
}

proof fn lemma_boundary_after_ascii(p: Seq<char>, x: Seq<char>)
    requires
        is_ascii_chars(p),
    ensures
        boundary_at(p + x, p.len() as int),
    decreases p.len(),
{
    broadcast use vstd::utf8::encode_utf8_valid_utf8;

    let s = p + x;
    if p.len() > 0 {
        assert(s[0] == p[0]);
        assert(s.drop_first() == p.drop_first() + x);
        assert(is_ascii_chars(p.drop_first())) by {
            assert forall|i: int| 0 <= i < p.drop_first().len() implies '\0' <= #[trigger] p.drop_first()[i]
                <= '\u{7f}' by {
                assert(p.drop_first()[i] == p[i + 1]);
            }
        }
        lemma_boundary_after_ascii(p.drop_first(), x);
        let e = encode_utf8(s);
        encode_utf8_first_scalar(s);
        assert(pop_first_scalar(e) =~= encode_utf8(s.drop_first()));
        assert('\0' <= p[0] <= '\u{7f}');
        assert(encode_scalar(s[0] as u32).len() == 1);
        assert(length_of_first_scalar(e) == 1);
        assert(is_char_boundary(e, p.len() as int) == is_char_boundary(
            pop_first_scalar(e),
            p.len() - 1,
        ));
    }
}

/// Slicing `p + x` at the byte length of an ASCII prefix `p` is allowed and
/// gives `x`.
pub proof fn lemma_from_byte_after_ascii(p: Seq<char>, x: Seq<char>)
    requires
        is_ascii_chars(p),
    ensures
        boundary_at(p + x, p.len() as int),
        from_byte(p + x, p.len() as int) == x,
{
    broadcast use vstd::utf8::encode_utf8_decode_utf8;
    broadcast use vstd::utf8::is_ascii_chars_encode_utf8;

    lemma_boundary_after_ascii(p, x);
    lemma_encode_concat(p, x);
    let e = encode_utf8(p + x);
    assert(encode_utf8(p).len() == p.len());
    assert(e.subrange(p.len() as int, e.len() as int) =~= encode_utf8(x));
}

/// The octal representation of a natural number, without leading zeros
/// (what `{:o}` prints).
pub open spec fn oct_nat(n: nat) -> Seq<char>
    decreases n,
{
    if n < 8 {
        seq![digit_char(n)]
    } else {
        oct_nat(n / 8).push(digit_char(n % 8))
    }
}

/// Appends the octal representation of `n` to `s`.
pub fn push_oct_u64(s: &mut String, n: u64)
    ensures
        final(s)@ == old(s)@ + oct_nat(n as nat),
    decreases n,
{
    if n >= 8 {
        push_oct_u64(s, n / 8);
    }
    push_char(s, digit(n % 8));
}

} // verus!
