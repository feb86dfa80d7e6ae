use uulp::remote::log_line;
use uulp::text::{parse_u16, trim_end_str};
use uulp::tickets::{do_hello, request_is_readable, ticket_reclaim, Tickets, TICKET_AVAIL};
use uulp::counted::CountedTickets;
use uulp::client::{LicenseClient, SimpleClient};

#[test]
fn log_lines() {
    assert_eq!(log_line(3, "1.5s", "hello"), "[    3] 1.5s hello");
    assert_eq!(log_line(123456, "t", ""), "[123456] t ");
}

#[test]
fn port_numbers() {
    assert_eq!(parse_u16("8080"), Some(8080));
    assert_eq!(parse_u16("+1"), Some(1));
    assert_eq!(parse_u16("65535"), Some(65535));
    assert_eq!(parse_u16("65536"), None);
    assert_eq!(parse_u16("-1"), None);
    assert_eq!(parse_u16(""), None);
    assert_eq!(parse_u16("80 "), None);
}

#[test]
fn trailing_whitespace() {
    assert_eq!(trim_end_str("  ab \n"), "  ab");
    assert_eq!(trim_end_str(" \t"), "");
}

#[test]
fn reclaim_frees_a_vanished_holder() {
    let mut t = Tickets::new();
    assert_eq!(do_hello("HELO 2147483647", &mut t), "TICK 2147483647.0");
    do_hello("HELO 1", &mut t);
    let (freed, answers) = ticket_reclaim(&mut t);
    assert_eq!(freed, vec![0]);
    assert!(matches!(answers[0], Some((2147483647, uulp::tickets::Probe::NoSuchProcess))));
    assert!(matches!(answers[1], Some((1, uulp::tickets::Probe::Exists))));
    assert!(answers[2].is_none());
    assert_eq!(t.get(0), TICKET_AVAIL);
    assert_eq!(t.get(1), 1);
}

#[test]
fn numbered_lines() {
    assert_eq!(uulp::remote::numbered_line(0, "alice tty1"), "  0 alice tty1");
    assert_eq!(uulp::remote::numbered_line(1234, "x"), "1234 x");
}

#[test]
fn readable_requests() {
    assert!(request_is_readable("HELO 1"));
    assert!(request_is_readable("HELO "));
    assert!(!request_is_readable("HELO"));
    assert!(!request_is_readable("GBYEé1"));
    assert!(request_is_readable("PING"));
}

#[test]
fn counted_server_knows_what_it_can_answer() {
    let mut s = CountedTickets::new();
    assert!(s.can_answer("HELO 12"));
    assert!(!s.can_answer("HELO x"));
    assert!(!s.can_answer("HELO"));
    assert!(!s.can_answer("GBYE 12"));
    assert!(!s.can_answer("GBYE 12.7"));
    assert!(s.can_answer("GBYE 12.0"));
    assert!(s.can_answer("VALD"));
    s.do_hello("HELO 1");
    s.do_hello("HELO 2");
    s.do_hello("HELO 3");
    assert_eq!(s.holder(2), 3);
    assert!(s.can_answer("HELO x"));
    assert_eq!(s.handle_request("HELO x"), "FAIL no tickets available");
}

#[test]
fn clients_know_which_replies_they_can_take() {
    assert!(SimpleClient::hello_reply_ok("TICK 1.0"));
    assert!(!SimpleClient::hello_reply_ok("TICK"));
    assert!(!SimpleClient::hello_reply_ok("FAIL"));
    assert!(SimpleClient::hello_reply_ok("OOPS"));
    assert!(SimpleClient::goodbye_reply_ok("THNX"));
    assert!(!SimpleClient::goodbye_reply_ok("FAIL"));
    assert!(LicenseClient::hello_reply_ok("TICK 1.0"));
    assert!(!LicenseClient::hello_reply_ok("TICK"));
    assert!(LicenseClient::hello_reply_ok("FAIL"));
    assert!(!LicenseClient::goodbye_reply_ok("FAIL"));
    assert!(LicenseClient::goodbye_reply_ok("THNX"));
}

#[test]
fn sanitizing_twice_changes_nothing() {
    for s in ["/tmp; rm -rf /", "a b\tc/é..", "", "///", "x$(y)"] {
        let once = uulp::remote::sanitize(s);
        assert_eq!(uulp::remote::sanitize(&once), once);
        assert!(once.chars().all(|c| c.is_alphanumeric() || c == '/'));
    }
}

#[test]
fn formatted_numbers_parse_back() {
    for n in [0i32, 7, -7, 2147483647, -2147483648, 1000] {
        let mut s = String::new();
        uulp::text::push_dec_i64(&mut s, n as i64);
        assert_eq!(uulp::text::parse_i32(&uulp::text::chars_of(&s)), Some(n));
    }
    for n in [0usize, 42, usize::MAX] {
        let mut s = String::new();
        uulp::text::push_dec_u64(&mut s, n as u64);
        assert_eq!(uulp::text::parse_usize(&uulp::text::chars_of(&s)), Some(n));
    }
}

#[test]
fn set_by_index_on_text_with_wide_characters() {
    let mut s = "é-x".to_string();
    uulp::ls::set_by_index(&mut s, 2, b'y');
    assert_eq!(s, "éyx");
    let mut t = "----------".to_string();
    uulp::ls::set_by_index(&mut t, 0, b'd');
    assert_eq!(t, "d---------");
}

#[test]
fn moving_message_column_wraps() {
    assert_eq!(uulp::bounce::move_msg(i32::MIN, -1, 80), (i32::MAX, -1));
    assert_eq!(uulp::bounce::move_msg(3, 1, 80), (4, 1));
}

#[test]
fn sanitize_drops_shell_metacharacters() {
    assert_eq!(uulp::remote::sanitize("/tmp; rm -rf *"), "/tmprmrf");
    assert_eq!(uulp::remote::sanitize("../etc"), "/etc");
    assert_eq!(uulp::remote::sanitize("docs/2024"), "docs/2024");
    assert_eq!(uulp::remote::sanitize("a'b\"c`d|e&f"), "abcdef");
}

#[test]
fn variables_read_back_after_a_sequence_of_changes() {
    let mut t = uulp::shell::VarLib::new();
    t.store("a", "1").unwrap();
    t.export("a").unwrap();
    t.store("b", "2").unwrap();
    t.export("c").unwrap();
    assert_eq!(t.lookup("a"), Some("1"));
    assert_eq!(t.lookup("b"), Some("2"));
    assert_eq!(t.lookup("c"), Some(""));
    assert_eq!(t.lookup("d"), None);
    assert_eq!(t.table_to_environ(), vec!["a=1", "c="]);
    t.store("a", "3").unwrap();
    assert_eq!(t.lookup("a"), Some("3"));
    assert_eq!(t.table_to_environ(), vec!["c="]);
}

#[test]
fn second_server_return_restores_the_table() {
    let mut t = Tickets::new();
    do_hello("HELO 5", &mut t);
    let before: Vec<i32> = (0..3).map(|i| t.get(i)).collect();
    let tick = do_hello("HELO 77", &mut t);
    assert_eq!(tick, "TICK 77.1");
    assert_eq!(uulp::tickets::handle_request(&format!("GBYE {}", &tick[5..]), &mut t), "THNX See ya!");
    let after: Vec<i32> = (0..3).map(|i| t.get(i)).collect();
    assert_eq!(before, after);
}

#[test]
fn first_server_count_is_the_held_slots() {
    let mut s = CountedTickets::new();
    let held = |s: &CountedTickets| (0..3).filter(|&i| s.holder(i) != TICKET_AVAIL).count() as i32;
    for req in ["HELO 4", "HELO 9", "GBYE 4.0", "GBYE 9.0", "HELO 1", "HELO 2", "HELO 3", "HELO 8", "GBYE 2.1"] {
        s.handle_request(req);
        assert_eq!(s.num_out(), held(&s), "after {}", req);
    }
}

#[test]
fn popen_pipe_plans() {
    let r = uulp::remote::popen_plan("r", 3, 4).unwrap();
    assert_eq!((r.parent_keeps, r.parent_closes, r.child_closes, r.child_dups, r.child_target), (3, 4, 3, 4, 1));
    let w = uulp::remote::popen_plan("w", 3, 4).unwrap();
    assert_eq!((w.parent_keeps, w.parent_closes, w.child_closes, w.child_dups, w.child_target), (4, 3, 4, 3, 0));
    assert!(uulp::remote::popen_plan("rw", 3, 4).is_none());
}

#[test]
fn ball_stays_on_screen() {
    let (lines, cols) = (5, 7);
    let mut b = uulp::bounce::Ball { y_pos: 2, x_pos: 3, y_ttg: 1, y_ttm: 1, x_ttg: 2, x_ttm: 2, y_dir: 1, x_dir: -1 };
    for _ in 0..500 {
        uulp::bounce::ball_move(&mut b, lines, cols);
        assert!(0 <= b.y_pos && b.y_pos <= lines - 1 && 0 <= b.x_pos && b.x_pos <= cols - 1);
    }
}
