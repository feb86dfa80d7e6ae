use uulp::counted::CountedTickets;
use uulp::tickets::TICKET_AVAIL;

#[test]
fn hands_out_and_counts() {
    let mut s = CountedTickets::new();
    assert_eq!(s.num_out(), 0);
    assert_eq!(s.handle_request("HELO 100"), "TICK 100.0");
    assert_eq!(s.handle_request("HELO 200\n"), "TICK 200.1");
    assert_eq!(s.handle_request("HELO 300"), "TICK 300.2");
    assert_eq!(s.num_out(), 3);
    assert_eq!(s.handle_request("HELO 400"), "FAIL no tickets available");
    assert_eq!(s.num_out(), 3);
}

#[test]
fn returned_ticket_restores_the_count() {
    let mut s = CountedTickets::new();
    let tick = s.do_hello("HELO 42");
    assert_eq!(tick, "TICK 42.0");
    assert_eq!(s.do_goodbye(&format!("GBYE {}", &tick[5..])), "THNX See ya!");
    assert_eq!(s.num_out(), 0);
    assert_eq!(s.do_hello("HELO 43"), "TICK 43.0");
}

#[test]
fn goodbye_checks_the_holder() {
    let mut s = CountedTickets::new();
    s.do_hello("HELO 42");
    assert_eq!(s.do_goodbye("GBYE 41.0"), "FAIL invalid ticket");
    assert_eq!(s.do_goodbye("GBYE 42.1"), "FAIL invalid ticket");
    assert_eq!(s.num_out(), 1);
    assert_eq!(s.do_goodbye("GBYE 42.0.9"), "THNX See ya!");
    assert_eq!(s.num_out(), 0);
}

#[test]
fn other_requests_are_refused() {
    let mut s = CountedTickets::new();
    assert_eq!(s.handle_request("VALD 1.0"), "FAIL invalid request");
    assert_eq!(s.handle_request("PING"), "FAIL invalid request");
}

#[test]
fn freeing_all_keeps_the_count() {
    let mut s = CountedTickets::new();
    s.do_hello("HELO 1");
    s.do_hello("HELO 2");
    s.free_all_tickets();
    assert_eq!(s.num_out(), 2);
    assert_eq!(s.do_goodbye("GBYE 1.0"), "FAIL invalid ticket");
    assert_eq!(s.do_goodbye(&format!("GBYE {}.0", TICKET_AVAIL)), "THNX See ya!");
    assert_eq!(s.num_out(), 1);
}
