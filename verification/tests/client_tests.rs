use uulp::client::{LicenseClient, ReplyKind, SimpleClient, MSGLEN};

#[test]
fn simple_client_round_trip() {
    let mut c = SimpleClient::new(42);
    assert_eq!(c.hello_request(), Some("HELO 42".to_string()));
    assert!(c.goodbye_request().is_none());
    assert!(matches!(c.take_hello_reply("TICK 42.0"), ReplyKind::Accepted));
    assert!(c.have_ticket());
    assert!(c.hello_request().is_none());
    let bye = c.goodbye_request().unwrap();
    assert_eq!(bye, format!("GBYE TICK 42.0{}", "\0".repeat(MSGLEN - 9)));
    assert!(matches!(c.take_goodbye_reply("THNX See ya!"), ReplyKind::Accepted));
    assert!(matches!(c.take_goodbye_reply("FAIL invalid ticket"), ReplyKind::Refused));
    assert!(matches!(c.take_goodbye_reply("???"), ReplyKind::Unknown));
}

#[test]
fn simple_client_refused() {
    let mut c = SimpleClient::new(7);
    assert!(matches!(c.take_hello_reply("FAIL no tickets available"), ReplyKind::Refused));
    assert!(!c.have_ticket());
    assert!(matches!(c.take_hello_reply("HUH"), ReplyKind::Unknown));
    assert!(!c.have_ticket());
    assert_eq!(c.hello_request(), Some("HELO 7".to_string()));
}

#[test]
fn license_client_round_trip() {
    let mut c = LicenseClient::new(7);
    assert_eq!(c.hello_request(), Some("HELO 7".to_string()));
    assert!(c.validate_request().is_none());
    assert!(c.take_hello_reply("TICK 7.1"));
    assert!(c.have_ticket());
    let pad = "\0".repeat(MSGLEN - 3);
    assert_eq!(c.validate_request(), Some(format!("VALD 7.1{}", pad)));
    assert!(c.take_validate_reply("GOOD Valid ticket"));
    assert!(c.have_ticket());
    assert_eq!(c.goodbye_request(), Some(format!("GBYE 7.1{}", pad)));
    assert!(c.take_goodbye_reply("THNX See ya!"));
    assert!(!c.take_goodbye_reply("FAIL invalid ticket"));
}

#[test]
fn license_client_forgets_a_bad_ticket() {
    let mut c = LicenseClient::new(9);
    assert!(!c.take_hello_reply("FAIL no tickets available"));
    assert!(!c.have_ticket());
    assert!(c.take_hello_reply("TICK 123.2"));
    assert!(!c.take_validate_reply("FAIL invalid ticket"));
    assert!(!c.have_ticket());
    assert_eq!(c.hello_request(), Some("HELO 9".to_string()));
    assert!(c.take_hello_reply("TICK 7.1"));
    let pad = "\0".repeat(MSGLEN - 5);
    assert_eq!(c.goodbye_request(), Some(format!("GBYE 7.1.2{}", pad)));
}
