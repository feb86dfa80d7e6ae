use uulp::psh::{listargs_lines, ArgList, MAXARGS};

#[test]
fn collects_arguments_until_a_blank_line() {
    let mut a = ArgList::new();
    assert_eq!(a.prompt(), "Arg[0]? ");
    assert!(a.take_line("ls\n".to_string()).is_none());
    assert!(a.take_line("  -l \n".to_string()).is_none());
    assert_eq!(a.prompt(), "Arg[2]? ");
    assert_eq!(a.len(), 2);
    let cmd = a.take_line("\n".to_string()).unwrap();
    assert_eq!(cmd, vec!["ls", "-l", ""]);
    assert_eq!(a.len(), 0);
    assert!(a.take_line("   \n".to_string()).is_none());
    assert_eq!(a.len(), 0);
}

#[test]
fn list_fills_up() {
    let mut a = ArgList::new();
    for i in 0..MAXARGS {
        assert!(!a.is_full());
        assert!(a.take_line(format!("arg{}\n", i)).is_none());
    }
    assert!(a.is_full());
}

#[test]
fn argument_listing() {
    let args = vec!["prog".to_string(), "a b".to_string()];
    assert_eq!(
        listargs_lines(&args),
        vec!["Number of args: 2, Args are:", "args[0] prog", "args[1] a b"]
    );
    assert_eq!(listargs_lines(&vec![]), vec!["Number of args: 0, Args are:"]);
}
