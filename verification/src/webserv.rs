//! The tiny web server: reading the request line, choosing the reply, and
//! the texts of its reply headers.

use vstd::prelude::*;
use crate::text::{is_ws, 
    chars_of, index_of_last, lemma_index_of_last, lemma_index_of_last_is, push_str, str_eq,
    string_of, sub_chars,
};

verus! {

/// What the `regex` crate gives for `Regex::new(pattern)` followed by
/// `captures(text)`: `None` when the pattern does not compile or does not
/// match; otherwise every group of the pattern, group 0 being the whole
/// match, each `None` when it took no part in the match.
pub uninterp spec fn regex_captures_of(
    pattern: Seq<char>,
    text: Seq<char>,
) -> Option<Seq<Option<Seq<char>>>>;

/// The number of leading characters of `s` that are whitespace (`ws`) or
/// that are not (`!ws`).
pub open spec fn run_len(s: Seq<char>, ws: bool) -> nat
    decreases s.len(),
{
    if s.len() > 0 && is_ws(s[0]) == ws {
        1 + run_len(s.drop_first(), ws)
    } else {
        0
    }
}

/// The capture groups of `^(\S+)\s+(\S+)` on `t`: the leading run of
/// non-whitespace, then (after a run of whitespace) the next run of
/// non-whitespace, group 0 being all of it; `None` when one of the three
/// runs is empty.
pub open spec fn request_captures(t: Seq<char>) -> Option<Seq<Option<Seq<char>>>> {
    let a: int = run_len(t, false) as int;
    let b: int = run_len(t.skip(a), true) as int;
    let c: int = run_len(t.skip(a + b), false) as int;
    if a > 0 && b > 0 && c > 0 {
        Some(seq![Some(t.take(a + b + c)), Some(t.take(a)), Some(t.skip(a + b).take(c))])
    } else {
        None
    }
}

/// The capture groups of the first match of `pattern` in `text`
/// (`regex::Regex::new` and `Regex::captures`). The result is named by
/// `regex_captures_of`. For the request pattern `^(\S+)\s+(\S+)` it is
/// stated: the crate's `\s` is Unicode `White_Space` (what `is_ws`
/// tests), `\S` its complement, `^` the start of the text, and its
/// leftmost-first, greedy matching takes each run whole, so the groups are
/// the three runs of `request_captures`.
#[verifier::external_body]
fn regex_captures(pattern: &str, text: &str) -> (r: Option<Vec<Option<String>>>)
    ensures
        r.deep_view() == regex_captures_of(pattern@, text@),
        pattern@ == request_pattern() ==> r.deep_view() == request_captures(text@),
{
    let re = regex::Regex::new(pattern).ok()?;
    let caps = re.captures(text)?;
    Some(caps.iter().map(|m| m.map(|m| m.as_str().to_string())).collect())
}

/// The pattern of a request line: a method, white space, a path.
pub open spec fn request_pattern() -> Seq<char> {
    "^(\\S+)\\s+(\\S+)"@
}

/// The (method, `./`path) of a request, given the capture groups of the
/// request pattern; `None` when there was no match (or a group is missing).
pub open spec fn request_from(caps: Option<Seq<Option<Seq<char>>>>) -> Option<(Seq<char>, Seq<char>)> {
    match caps {
        Some(g) => if g.len() >= 3 && g[1] is Some && g[2] is Some {
            Some((g[1]->0, "./"@ + g[2]->0))
        } else {
            None
        },
        None => None,
    }
}

/// Turns the capture groups of a request line into (method, `./`path).
pub fn request_from_captures(caps: Option<Vec<Option<String>>>) -> (r: Option<(String, String)>)
    ensures
        r.deep_view() == request_from(caps.deep_view()),
{
    match caps {
        Some(g) => {
            if g.len() >= 3 {
                let ghost gv = g.deep_view();
                assert(gv[1] == g@[1].deep_view());
                assert(gv[2] == g@[2].deep_view());
                match (&g[1], &g[2]) {
                    (Some(cmd), Some(path)) => {
                        let mut arg = String::new();
                        push_str(&mut arg, "./");
                        push_str(&mut arg, path.as_str());
                        let c = string_of(&chars_of(cmd.as_str()));
                        Some((c, arg))
                    },
                    _ => None,
                }
            } else {
                None
            }
        },
        None => None,
    }
}

/// Reads a request line: its method and the requested item, `./` put in
/// front of the path. `None` when the line does not have the form
/// `method path ...`.
pub fn process_rq(request: &str) -> (r: Option<(String, String)>)
    ensures
        r.deep_view() == request_from(regex_captures_of(request_pattern(), request@)),
        r.deep_view() == request_from(request_captures(request@)),
{
    let caps = regex_captures("^(\\S+)\\s+(\\S+)", request);
    request_from_captures(caps)
}

/// The reply the server chooses for a request.
pub enum Reply {
    /// The method is not `GET`.
    CannotDo,
    /// The item does not exist.
    NotFound(String),
    /// The item is a directory: list it.
    Listing(String),
    /// The item is a program (`.cgi`): run it.
    Exec(String),
    /// Send the item's contents.
    Cat(String),
}

/// The text after the last `.` of `f`, or all of `f` when it has no `.`
/// (`f.split('.').last()`).
pub open spec fn file_type_of(f: Seq<char>) -> Seq<char> {
    match last_index(f, '.') {
        Some(i) => f.skip(i + 1),
        None => f,
    }
}

/// The index of the last `c` in `s`, if there is one.
pub open spec fn last_index(s: Seq<char>, c: char) -> Option<int> {
    index_of_last(s, c)
}

/// The text after the last `.` of `f`, or all of `f` when it has none.
pub fn file_type(f: &str) -> (r: String)
    ensures
        r@ == file_type_of(f@),
{
    let v = chars_of(f);
    let mut i: usize = v.len();
    while i > 0
        invariant
            i <= v.len(),
            v@ == f@,
            forall|j: int| i <= j < v.len() ==> v@[j] != '.',
        decreases i,
    {
        if v[i - 1] == '.' {
            proof {
                lemma_index_of_last_is(v@, '.', i - 1);
            }
            let t = sub_chars(&v, i, v.len());
            assert(t@ == v@.skip(i as int));
            assert(last_index(f@, '.') == Some((i - 1) as int));
            assert(file_type_of(f@) == f@.skip(i as int));
            return string_of(&t);
        }
        i = i - 1;
    }
    proof {
        lemma_index_of_last(v@, '.');
    }
    string_of(&v)
}

/// Whether `f` ends with `.cgi`.
pub open spec fn is_cgi(f: Seq<char>) -> bool {
    f.len() >= 4 && f.skip(f.len() - 4) == ".cgi"@
}

/// Whether `f` ends with `.cgi`.
pub fn ends_in_cgi(f: &str) -> (r: bool)
    ensures
        r == is_cgi(f@),
{
    let v = chars_of(f);
    if v.len() < 4 {
        return false;
    }
    let t = sub_chars(&v, v.len() - 4, v.len());
    assert(t@ == v@.skip(v.len() - 4));
    let suffix = string_of(&t);
    str_eq(suffix.as_str(), ".cgi")
}

/// Chooses the reply to a request for method `cmd` and item `arg`, given
/// whether the item exists and whether it is a directory.
pub fn route(cmd: &str, arg: &str, exists: bool, is_dir: bool) -> (r: Reply)
    ensures
        cmd@ != "GET"@ ==> r is CannotDo,
        cmd@ == "GET"@ && !exists ==> (r matches Reply::NotFound(a) && a@ == arg@),
        cmd@ == "GET"@ && exists && is_dir ==> (r matches Reply::Listing(a) && a@ == arg@),
        cmd@ == "GET"@ && exists && !is_dir && is_cgi(arg@) ==> (r matches Reply::Exec(a) && a@
            == arg@),
        cmd@ == "GET"@ && exists && !is_dir && !is_cgi(arg@) ==> (r matches Reply::Cat(a) && a@
            == arg@),
{
    let a = string_of(&chars_of(arg));
    if !str_eq(cmd, "GET") {
        Reply::CannotDo
    } else if !exists {
        Reply::NotFound(a)
    } else if is_dir {
        Reply::Listing(a)
    } else if ends_in_cgi(arg) {
        Reply::Exec(a)
    } else {
        Reply::Cat(a)
    }
}

/// The content type the server announces for a file, by its type.
pub open spec fn content_type_of(f: Seq<char>) -> Seq<char> {
    let t = file_type_of(f);
    if t == "html"@ {
        "text/html"@
    } else if t == "gif"@ {
        "image/gif"@
    } else if t == "jpg"@ || t == "jpeg"@ {
        "image/jpeg"@
    } else {
        "text/plain"@
    }
}

/// The content type the server announces for a file.
pub fn content_type(f: &str) -> (r: &'static str)
    ensures
        r@ == content_type_of(f@),
{
    let t = file_type(f);
    if str_eq(t.as_str(), "html") {
        "text/html"
    } else if str_eq(t.as_str(), "gif") {
        "image/gif"
    } else if str_eq(t.as_str(), "jpg") || str_eq(t.as_str(), "jpeg") {
        "image/jpeg"
    } else {
        "text/plain"
    }
}

/// The reply to a method other than `GET`.
pub fn cannot_do() -> (r: String)
    ensures
        r@ == "HTTP/1.0 501 Not Implemented\r\nContent-type: text/plain\r\n\r\nThat command is not yet implemented\r\n\n"@,
{
    let mut out = String::new();
    push_str(
        &mut out,
        "HTTP/1.0 501 Not Implemented\r\nContent-type: text/plain\r\n\r\nThat command is not yet implemented\r\n\n",
    );
    out
}

/// The reply for an item that does not exist.
pub fn do_404(item: &str) -> (r: String)
    ensures
        r@ == "HTTP/1.0 404 Not Found\r\nContent-type: text/plain\r\n\r\nThe item you requested: "@
            + item@ + " is not found\r\n\n"@,
{
    let mut out = String::new();
    push_str(&mut out, "HTTP/1.0 404 Not Found\r\nContent-type: text/plain\r\n\r\nThe item you requested: ");
    push_str(&mut out, item);
    push_str(&mut out, " is not found\r\n\n");
    out
}

/// The header sent before a directory listing.
pub fn do_ls_header() -> (r: String)
    ensures
        r@ == "HTTP/1.0 200 OK\r\nContent-type: text/plain\r\n\r\n\n"@,
{
    let mut out = String::new();
    push_str(&mut out, "HTTP/1.0 200 OK\r\nContent-type: text/plain\r\n\r\n\n");
    out
}

/// The header sent before the output of a program.
pub fn do_exec_header() -> (r: String)
    ensures
        r@ == "HTTP/1.0 200 OK\r\n\n"@,
{
    let mut out = String::new();
    push_str(&mut out, "HTTP/1.0 200 OK\r\n\n");
    out
}

/// The header sent before the contents of a file, with its content type.
pub fn do_cat_header(f: &str) -> (r: String)
    ensures
        r@ == "HTTP/1.0 200 OK\r\nContent-type: "@ + content_type_of(f@) + "\r\n\r\n\n"@,
{
    let mut out = String::new();
    push_str(&mut out, "HTTP/1.0 200 OK\r\nContent-type: ");
    push_str(&mut out, content_type(f));
    push_str(&mut out, "\r\n\r\n\n");
    out
}

/// Whether reading the request's header lines stops: at the end of input
/// (`n == 0` bytes read) or at the blank line `\r\n`.
pub fn read_til_crnl_done(n: usize, line: &str) -> (r: bool)
    ensures
        r == (n == 0 || line@ == "\r\n"@),
{
    n == 0 || str_eq(line, "\r\n")
}

/// The file type is what follows the last `.`: it holds no `.`, and
/// putting it back after the `.` gives the name again.
pub proof fn law_file_type_is_last_segment(f: Seq<char>)
    ensures
        forall|j: int| 0 <= j < file_type_of(f).len() ==> file_type_of(f)[j] != '.',
        last_index(f, '.') matches Some(i) ==> f == f.take(i) + "."@ + file_type_of(f),
        last_index(f, '.') is None ==> file_type_of(f) == f,
{
    reveal_strlit(".");
    lemma_index_of_last(f, '.');
    match last_index(f, '.') {
        Some(i) => {
            assert forall|j: int| 0 <= j < file_type_of(f).len() implies file_type_of(f)[j] != '.' by {
                assert(file_type_of(f)[j] == f[i + 1 + j]);
            }
            assert(f =~= f.take(i) + "."@ + f.skip(i + 1));
        },
        None => {},
    }
}

} // verus!
