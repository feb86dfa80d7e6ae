use uulp::webserv::{
    cannot_do, content_type, do_404, do_cat_header, ends_in_cgi, file_type, process_rq,
    read_til_crnl_done, route, Reply,
};

#[test]
fn request_line_is_parsed() {
    assert_eq!(
        process_rq("GET /index.html HTTP/1.0\r\n"),
        Some(("GET".to_string(), ".//index.html".to_string()))
    );
    assert_eq!(process_rq("GET"), None);
    assert_eq!(process_rq(" GET /x"), None);
}

#[test]
fn file_types() {
    assert_eq!(file_type("./a/b.html"), "html");
    assert_eq!(file_type("./a.tar.gz"), "gz");
    assert_eq!(file_type("noext"), "noext");
    assert_eq!(file_type("dot."), "");
    assert!(ends_in_cgi("./x.cgi"));
    assert!(!ends_in_cgi("./x.cgi.txt"));
    assert_eq!(content_type("./p.jpeg"), "image/jpeg");
    assert_eq!(content_type("./p.jpg"), "image/jpeg");
    assert_eq!(content_type("./p.gif"), "image/gif");
    assert_eq!(content_type("./p.html"), "text/html");
    assert_eq!(content_type("./p.c"), "text/plain");
}

#[test]
fn routing() {
    assert!(matches!(route("POST", "./x", true, false), Reply::CannotDo));
    assert!(matches!(route("GET", "./x", false, false), Reply::NotFound(ref a) if a == "./x"));
    assert!(matches!(route("GET", "./d", true, true), Reply::Listing(_)));
    assert!(matches!(route("GET", "./s.cgi", true, false), Reply::Exec(_)));
    assert!(matches!(route("GET", "./f.txt", true, false), Reply::Cat(_)));
}

#[test]
fn reply_texts() {
    assert_eq!(
        cannot_do(),
        "HTTP/1.0 501 Not Implemented\r\nContent-type: text/plain\r\n\r\nThat command is not yet implemented\r\n\n"
    );
    assert_eq!(
        do_404("./nope"),
        "HTTP/1.0 404 Not Found\r\nContent-type: text/plain\r\n\r\nThe item you requested: ./nope is not found\r\n\n"
    );
    assert_eq!(do_cat_header("./a.gif"), "HTTP/1.0 200 OK\r\nContent-type: image/gif\r\n\r\n\n");
    assert!(read_til_crnl_done(2, "\r\n"));
    assert!(read_til_crnl_done(0, "x"));
    assert!(!read_til_crnl_done(5, "Host: x\r\n"));
}

/// The three runs of a request line, computed directly.
fn runs(t: &str) -> Option<(String, String)> {
    let cs: Vec<char> = t.chars().collect();
    let a = cs.iter().take_while(|c| !c.is_whitespace()).count();
    let b = cs[a..].iter().take_while(|c| c.is_whitespace()).count();
    let c = cs[a + b..].iter().take_while(|c| !c.is_whitespace()).count();
    if a > 0 && b > 0 && c > 0 {
        let g1: String = cs[..a].iter().collect();
        let g2: String = cs[a + b..a + b + c].iter().collect();
        Some((g1, format!("./{}", g2)))
    } else {
        None
    }
}

#[test]
fn request_line_groups_are_the_whitespace_runs() {
    for t in [
        "GET /index.html HTTP/1.0\r\n",
        "GET\t\t/a",
        "GET\u{3000}/wide",
        "GET\u{a0}/nbsp x",
        " GET /x",
        "GET",
        "GET ",
        "GET  \n",
        "POST /x?y=1 HTTP/1.1",
        "é ü",
        "",
    ] {
        assert_eq!(process_rq(t), runs(t), "input {:?}", t);
    }
}
