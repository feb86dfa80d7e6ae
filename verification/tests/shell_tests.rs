use uulp::shell::{
    assign, builtin_command, do_control_command, is_control_command, makestring, ok_to_execute,
    process, splitline, Action, VarLib,
};

fn args(v: &[&str]) -> Vec<String> {
    v.iter().map(|s| s.to_string()).collect()
}

#[test]
fn store_then_lookup() {
    let mut t = VarLib::new();
    assert_eq!(t.lookup("HOME"), None);
    t.store("HOME", "/root").unwrap();
    assert_eq!(t.lookup("HOME"), Some("/root"));
    t.store("HOME", "/tmp").unwrap();
    assert_eq!(t.lookup("HOME"), Some("/tmp"));
    assert_eq!(t.list(), vec!["    HOME=/tmp"]);
}

#[test]
fn export_marks_global_and_store_unexports() {
    let mut t = VarLib::new();
    t.store("A", "1").unwrap();
    t.export("A").unwrap();
    t.export("B").unwrap();
    assert_eq!(t.list(), vec!["  * A=1", "  * B="]);
    assert_eq!(t.table_to_environ(), vec!["A=1", "B="]);
    t.store("A", "2").unwrap();
    assert_eq!(t.table_to_environ(), vec!["B="]);
    assert_eq!(t.lookup("A"), Some("2"));
}

#[test]
fn environ_to_table_stores_each() {
    let mut t = VarLib::new();
    let env = vec![("X".to_string(), "1".to_string()), ("Y".to_string(), "2".to_string())];
    t.environ_to_table(&env).unwrap();
    assert_eq!(t.lookup("X"), Some("1"));
    assert_eq!(t.lookup("Y"), Some("2"));
    assert!(t.table_to_environ().is_empty());
}

#[test]
fn splitline_words() {
    assert_eq!(splitline("  echo  hi there "), vec!["echo", "hi", "there"]);
}

#[test]
fn control_words() {
    assert!(is_control_command("if"));
    assert!(is_control_command("then"));
    assert!(is_control_command("fi"));
    assert!(!is_control_command("else"));
    assert_eq!(do_control_command(&args(&["fi"])), Ok(0));
    assert_eq!(
        do_control_command(&args(&["while"])),
        Err("Error: internal error processing, while".to_string())
    );
    assert!(ok_to_execute());
}

#[test]
fn assign_splits_at_first_equals() {
    let mut t = VarLib::new();
    assert!(assign("x=a=b", &mut t));
    assert_eq!(t.lookup("x"), Some("a=b"));
    assert!(!assign("noequals", &mut t));
    assert!(assign("=v", &mut t));
    assert_eq!(t.lookup(""), Some("v"));
}

#[test]
fn builtins() {
    let mut t = VarLib::new();
    let (h, out) = builtin_command(&args(&["y=2"]), &mut t);
    assert!(h && out.is_empty());
    let (h, out) = builtin_command(&args(&["set"]), &mut t);
    assert!(h);
    assert_eq!(out, vec!["    y=2"]);
    let (h, _) = builtin_command(&args(&["export", "y"]), &mut t);
    assert!(h);
    assert_eq!(t.table_to_environ(), vec!["y=2"]);
    let (h, _) = builtin_command(&args(&["export"]), &mut t);
    assert!(h);
    let (h, _) = builtin_command(&args(&["ls", "-l"]), &mut t);
    assert!(!h);
}

#[test]
fn process_decides() {
    let mut t = VarLib::new();
    assert!(matches!(process(&args(&[]), &mut t), Action::Nothing));
    assert!(matches!(process(&args(&["exit"]), &mut t), Action::Exit));
    assert!(matches!(process(&args(&["quit", "now"]), &mut t), Action::Exit));
    assert!(matches!(process(&args(&["if"]), &mut t), Action::Control(Ok(0))));
    assert!(matches!(process(&args(&["ls"]), &mut t), Action::Execute));
    match process(&args(&["set"]), &mut t) {
        Action::Builtin(lines) => assert!(lines.is_empty()),
        _ => panic!("set is a built-in"),
    }
}

#[test]
fn makestring_trims() {
    assert_eq!(makestring("  ls \n".to_string()), "ls");
}
