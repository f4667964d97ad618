use flowrs::dump::ast_dump;
use flowrs::flow::Stmt;

#[test]
fn dump_of_minimal_program() {
    let prog = vec![Stmt::Step("test".to_string())];
    assert_eq!(ast_dump(&prog), "all:\n  process:\n    step:\n      expression: \"test\"\n");
}

#[test]
fn dump_of_empty_program() {
    assert_eq!(ast_dump(&vec![]), "all:\n  process:\n");
}

#[test]
fn dump_of_nested_program() {
    let prog = vec![
        Stmt::If(
            "c".to_string(),
            vec![Stmt::Exit],
            Some(vec![Stmt::While("w".to_string(), vec![Stmt::Step("s".to_string())])]),
        ),
    ];
    let expected = "all:
  process:
    if_branch:
      condition:
        expression: \"c\"
      process:
        step:
          EXIT
      else_branch:
        process:
          while_loop:
            condition:
              expression: \"w\"
            process:
              step:
                expression: \"s\"
";
    assert_eq!(ast_dump(&prog), expected);
}
