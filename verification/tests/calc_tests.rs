use uulp::calc::{bc_answer, bc_parse, dc_request, BcProblem};

#[test]
fn reads_problems() {
    let p = bc_parse("2 + 3\n").unwrap();
    assert_eq!((p.num1, p.op, p.num2, p.bad_numbers), (2, '+', 3, 0));
    let p = bc_parse("  10 /  -3 extra words").unwrap();
    assert_eq!((p.num1, p.op, p.num2, p.bad_numbers), (10, '/', -3, 0));
    let p = bc_parse("x ** 4").unwrap();
    assert_eq!((p.num1, p.op, p.num2, p.bad_numbers), (0, '*', 4, 1));
    let p = bc_parse("x ^ 99999999999").unwrap();
    assert_eq!((p.num1, p.op, p.num2, p.bad_numbers), (0, '^', 0, 2));
}

#[test]
fn short_lines_are_syntax_errors() {
    assert!(bc_parse("2 +").is_none());
    assert!(bc_parse("").is_none());
    assert!(bc_parse("   \n").is_none());
}

#[test]
fn talks_to_dc() {
    let p = BcProblem { num1: 2, op: '+', num2: 3, bad_numbers: 0 };
    assert_eq!(dc_request(&p), "2\n3\n+\np\n");
    assert_eq!(bc_answer(&p, "5\n"), "2 + 3 = 5");
    let q = BcProblem { num1: -7, op: '/', num2: 2, bad_numbers: 0 };
    assert_eq!(dc_request(&q), "-7\n2\n/\np\n");
    assert_eq!(bc_answer(&q, "  -3 \n"), "-7 / 2 = -3");
}
