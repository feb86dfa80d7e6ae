use uulp::tickets::{
    do_goodbye, do_hello, do_validate, handle_request, reclaim_gone, ticket_reclaim, Tickets,
    MAXUSERS, TICKET_AVAIL,
};

#[test]
fn hello_hands_out_lowest_free_tickets() {
    let mut t = Tickets::new();
    assert_eq!(do_hello("HELO 100", &mut t), "TICK 100.0");
    assert_eq!(do_hello("HELO 200\n", &mut t), "TICK 200.1");
    assert_eq!(do_hello("HELO 300", &mut t), "TICK 300.2");
    assert_eq!(do_hello("HELO 400", &mut t), "FAIL no tickets available");
    assert_eq!(t.get(0), 100);
    assert_eq!(t.get(2), 300);
}

#[test]
fn unparsable_pid_becomes_minus_one() {
    let mut t = Tickets::new();
    assert_eq!(do_hello("HELO abc", &mut t), "TICK -1.0");
}

#[test]
fn validate_and_goodbye() {
    let mut t = Tickets::new();
    let tick = do_hello("HELO 77", &mut t);
    let ticket = &tick[5..];
    assert_eq!(do_validate(&format!("VALD {}", ticket), &t), "GOOD Valid ticket");
    assert_eq!(do_validate("VALD 78.0", &t), "FAIL invalid ticket");
    assert_eq!(do_validate("VALD 77.9", &t), "FAIL invalid ticket");
    assert_eq!(do_validate("VALD 77", &t), "FAIL invalid ticket");
    assert_eq!(do_validate("VALD 7.7.0", &t), "FAIL invalid ticket");
    assert_eq!(do_goodbye("GBYE 78.0", &mut t), "FAIL invalid ticket");
    assert_eq!(do_goodbye(&format!("GBYE {}", ticket), &mut t), "THNX See ya!");
    assert_eq!(t.get(0), TICKET_AVAIL);
    assert_eq!(do_validate(&format!("VALD {}", ticket), &t), "FAIL invalid ticket");
}

#[test]
fn handle_request_dispatches() {
    let mut t = Tickets::new();
    assert_eq!(handle_request("HELO 5", &mut t), "TICK 5.0");
    assert_eq!(handle_request("VALD 5.0", &mut t), "GOOD Valid ticket");
    assert_eq!(handle_request("GBYE 5.0", &mut t), "THNX See ya!");
    assert_eq!(handle_request("PING", &mut t), "FAIL invalid request");
}

#[test]
fn reclaim_frees_only_gone_holders() {
    let mut t = Tickets::new();
    do_hello("HELO 11", &mut t);
    do_hello("HELO 22", &mut t);
    let freed = reclaim_gone(&mut t, &vec![true, false, true]);
    assert_eq!(freed, vec![0]);
    assert_eq!(t.get(0), TICKET_AVAIL);
    assert_eq!(t.get(1), 22);
    assert_eq!(t.len(), MAXUSERS);
}

#[test]
fn reclaim_keeps_live_process() {
    let mut t = Tickets::new();
    do_hello("HELO 1", &mut t);
    let (freed, answers) = ticket_reclaim(&mut t);
    assert!(freed.is_empty());
    assert_eq!(t.get(0), 1);
    assert_eq!(answers.len(), MAXUSERS);
    assert!(matches!(answers[0], Some((1, uulp::tickets::Probe::Exists))));
    assert!(answers[1].is_none() && answers[2].is_none());
}
