use uulp::remote::{
    from_utf8_lossy, hostname_from_buf, ls_command, popen_ends, reply_text, sanitize, say_who_called,
    time_message,
};

#[test]
fn sanitize_keeps_letters_digits_slash() {
    assert_eq!(sanitize("/tmp; rm -rf /"), "/tmprmrf/");
    assert_eq!(sanitize("dir_1/é"), "dir1/é");
    assert_eq!(ls_command("  /etc/x$y \n"), "ls /etc/xy");
}

#[test]
fn hostname_stops_at_nul() {
    let mut buf = b"host1".to_vec();
    buf.extend_from_slice(&[0, b'z', 0]);
    assert_eq!(hostname_from_buf(&buf), "host1");
    assert_eq!(hostname_from_buf(&b"full".to_vec()), "full");
    assert_eq!(from_utf8_lossy(&[0x66, 0xff]), "f\u{fffd}");
}

#[test]
fn messages() {
    assert_eq!(time_message(1700000000), "The time here is .. 1700000000\n");
    assert_eq!(reply_text("hé"), "Thanks for your 3 char message\n");
    assert_eq!(say_who_called("127.0.0.1", 4000), "  from: 127.0.0.1:4000");
    assert_eq!(popen_ends("r"), Some((0, 1)));
    assert_eq!(popen_ends("w"), Some((1, 0)));
    assert_eq!(popen_ends("rw"), None);
}
