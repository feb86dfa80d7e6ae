use uulp::fileinfo;
use uulp::pwd::{inum_to_name, printpathto, pwd_continues};
use uulp::tty::{control_char_line, show_baud, show_flagset, FlagInfo, B1200, B1800, B2400, B300, B4800, B600, B9600};
use uulp::wait::{command_result, decode_status, status_report};

#[test]
fn file_status_lines() {
    let lines = fileinfo::show_stat_info("notes.txt", 0o100644, 1, 1000, 100, 42, Some(1700000000));
    assert_eq!(
        lines,
        vec![
            "   mode: 100644",
            "  links: 1",
            "   user: 1000",
            "  group: 100",
            "   size: 42",
            "modtime: 1700000000",
            "   name: notes.txt",
        ]
    );
    let lines = fileinfo::show_stat_info("d", 0o40755, 2, 0, 0, 4096, None);
    assert_eq!(lines.len(), 6);
    assert_eq!(lines[0], "   mode: 40755");
    assert_eq!(lines[5], "   name: d");
}

#[test]
fn directory_name_by_inode() {
    let entries = vec![(5u64, "a".to_string()), (7, "b".to_string()), (7, "c".to_string())];
    assert_eq!(inum_to_name(&entries, 7), Ok("b".to_string()));
    assert_eq!(inum_to_name(&entries, 9), Err("Inode 9 not found".to_string()));
    assert_eq!(inum_to_name(&vec![], 1), Err("Inode 1 not found".to_string()));
}

#[test]
fn path_from_names() {
    let up = vec!["c".to_string(), "b".to_string(), "a".to_string()];
    assert_eq!(printpathto(&up), "/a/b/c");
    assert_eq!(printpathto(&vec![]), "");
    assert!(pwd_continues(10, 2));
    assert!(!pwd_continues(2, 2));
}

#[test]
fn baud_constants_are_the_system_ones() {
    assert_eq!(B300, termios::B300);
    assert_eq!(B600, termios::B600);
    assert_eq!(B1200, termios::B1200);
    assert_eq!(B1800, termios::B1800);
    assert_eq!(B2400, termios::B2400);
    assert_eq!(B4800, termios::B4800);
    assert_eq!(B9600, termios::B9600);
}

#[test]
fn baud_names() {
    assert_eq!(show_baud(termios::B9600), "the baud rate is 9600");
    assert_eq!(show_baud(termios::B300), "the baud rate is 300");
    assert_eq!(show_baud(termios::B38400), "the baud rate is Fast");
}

#[test]
fn control_characters() {
    assert_eq!(control_char_line("erase", 8), "The erase character is ascii 8, Ctrl - H");
    assert_eq!(control_char_line("line kill", 21), "The line kill character is ascii 21, Ctrl - U");
    assert_eq!(control_char_line("erase", 127), "The erase character is ascii 127, Ctrl - \u{bf}");
}

#[test]
fn flag_lines() {
    let flags = vec![
        FlagInfo { fl_value: libc::ICRNL as i32, fl_name: "Map CR to NL on input".to_string() },
        FlagInfo { fl_value: libc::IXON as i32, fl_name: "Enable start/stop output control".to_string() },
    ];
    let value = libc::ICRNL as u32;
    assert_eq!(
        show_flagset(value, &flags),
        vec!["Map CR to NL on input is ON", "Enable start/stop output control is OFF"]
    );
    assert!(show_flagset(0, &vec![]).is_empty());
}

#[test]
fn status_words() {
    assert_eq!(decode_status(0x0100), (1, 0, 0));
    assert_eq!(decode_status(0x0009), (0, 9, 0));
    assert_eq!(decode_status(0x0089), (0, 9, 1));
    assert_eq!(decode_status(0x2a00), (42, 0, 0));
    let (e, s, c) = decode_status(0x1234);
    assert_eq!(e * 256 + c * 128 + s, 0x1234);
    assert_eq!(
        status_report(4321, 0x0200),
        vec!["done waiting for 4321. Wait returned: 512", "status: exit=2, sig=0, core=0"]
    );
    assert_eq!(command_result(0x0200), 2);
    assert_eq!(command_result(0x0009), -1);
    assert_eq!(command_result(0), 0);
}
