use potato_lang::ast::{InputKind, Statement};
use potato_lang::compile::{
    next_step, starter_script, transpile_source, BuildAction, BuildEvent, BuildState,
};
use potato_lang::emit::transpile;
use potato_lang::parse::{lex, BlockKind, Diagnostic, DiagnosticKind, Parsed, UnterminatedBlock};

const PRELUDE: &str = "use std::io;\nuse std::thread::sleep;\nuse std::time::Duration;\nfn main() {\n";

fn s(t: &str) -> String {
    t.to_string()
}

fn parse_ok(input: &str) -> Parsed {
    match lex(input) {
        Ok(p) => p,
        Err(e) => panic!("unexpected parse failure: {:?}", e),
    }
}

fn program(main_body: &str, functions: &str) -> String {
    format!("{}{}}}\n{}", PRELUDE, main_body, functions)
}

#[test]
fn hello_world_prints_the_literal() {
    let p = parse_ok("print to terminal \"Hello, World\"");
    assert_eq!(p.statements, vec![Statement::Print(s("\"Hello, World\""))]);
    assert!(p.diagnostics.is_empty());
    assert_eq!(transpile(&p.statements), program("  println!(\"Hello, World\");\n", ""));
}

#[test]
fn print_without_marker_is_skipped() {
    let p = parse_ok("print \"Hello, World\"");
    assert!(p.statements.is_empty());
    assert_eq!(p.diagnostics, vec![Diagnostic { kind: DiagnosticKind::InvalidPrint, line: 1 }]);
}

#[test]
fn binding_then_interpolated_print() {
    let p = parse_ok("new var x = 5\nprint to terminal x");
    assert_eq!(
        p.statements,
        vec![Statement::VarDecl(s("x"), s("5")), Statement::Print(s("x"))]
    );
    assert_eq!(
        transpile(&p.statements),
        program("  let mut x = 5;\n  println!(\"{}\", x);\n", "")
    );
}

#[test]
fn loop_body_closed_by_quit_loop() {
    let p = parse_ok("loop do\nprint to terminal \"hi\"\nquit_loop");
    assert_eq!(p.statements, vec![Statement::Loop(vec![Statement::Print(s("\"hi\""))])]);
    assert_eq!(
        transpile(&p.statements),
        program("  loop {\n    println!(\"hi\");\n  }\n", "")
    );
}

#[test]
fn while_condition_keeps_brace() {
    let p = parse_ok("while x < 10 {\nnew var x = x + 1\n}");
    assert_eq!(
        p.statements,
        vec![Statement::While(s("x < 10 {"), vec![Statement::VarDecl(s("x"), s("x + 1"))])]
    );
    assert_eq!(
        transpile(&p.statements),
        program("  while x < 10 { {\n    let mut x = x + 1;\n  }\n", "")
    );
}

#[test]
fn unterminated_func_fails() {
    let r = lex("func f a,b\nprint to terminal \"x\"");
    assert_eq!(r, Err(UnterminatedBlock { kind: BlockKind::Func, line: 1 }));
    assert_eq!(
        transpile_source("func f a,b\nprint to terminal \"x\""),
        Err(UnterminatedBlock { kind: BlockKind::Func, line: 1 })
    );
}

#[test]
fn unterminated_inner_block_fails() {
    let r = lex("new var y = 1\nwhile x {\nif y {\n}");
    assert_eq!(r, Err(UnterminatedBlock { kind: BlockKind::If, line: 3 }));
}

#[test]
fn unterminated_loop_fails() {
    assert_eq!(
        lex("loop do\nprint to terminal x"),
        Err(UnterminatedBlock { kind: BlockKind::Loop, line: 1 })
    );
}

#[test]
fn top_level_count_ignores_bodies() {
    let input = "new var a = 1\n\nwhile a < 3 {\nprint to terminal a\nnew var a = a + 1\n}\nbogus line\nfunc f x\ncall g\nendfunc\nsleep 10";
    let p = parse_ok(input);
    assert_eq!(p.statements.len(), 4);
    assert_eq!(p.diagnostics, vec![Diagnostic { kind: DiagnosticKind::UnknownCommand, line: 7 }]);
}

#[test]
fn quit_loop_outside_loop_is_a_statement() {
    let p = parse_ok("print to terminal a\nquit_loop");
    assert_eq!(p.statements, vec![Statement::Print(s("a")), Statement::QuitLoop]);
    assert_eq!(
        transpile(&p.statements),
        program("  println!(\"{}\", a);\n  break;\n", "")
    );
}

#[test]
fn quit_loop_in_while_body_breaks() {
    let p = parse_ok("while true {\nquit_loop\n}");
    assert_eq!(p.statements, vec![Statement::While(s("true {"), vec![Statement::QuitLoop])]);
    assert_eq!(transpile(&p.statements), program("  while true { {\n    break;\n  }\n", ""));
}

#[test]
fn output_is_fixed_for_a_fixed_script() {
    let input = "new var n = 3\nfunc show n\nprint to terminal n\nendfunc\ncall show";
    let first = transpile_source(input);
    let second = transpile_source(input);
    assert_eq!(first, second);
}

#[test]
fn emitting_twice_gives_same_text() {
    let p = parse_ok("loop do\nsleep 5\nif a {\nprint to terminal a\n}\nquit_loop");
    assert_eq!(transpile(&p.statements), transpile(&p.statements));
}

#[test]
fn empty_script() {
    let p = parse_ok("");
    assert!(p.statements.is_empty());
    assert!(p.diagnostics.is_empty());
    assert_eq!(transpile(&p.statements), program("", ""));
    let p = parse_ok("\n   \n\t\n");
    assert!(p.statements.is_empty());
    assert!(p.diagnostics.is_empty());
}

#[test]
fn each_diagnostic_kind() {
    let input = "print hi\nnew x = 5\nfunc f\ncall\nin keyboard x int\nloop forever\nsleep\njump 3";
    let p = parse_ok(input);
    assert!(p.statements.is_empty());
    let kinds: Vec<DiagnosticKind> = p.diagnostics.iter().map(|d| d.kind).collect();
    assert_eq!(
        kinds,
        vec![
            DiagnosticKind::InvalidPrint,
            DiagnosticKind::InvalidVar,
            DiagnosticKind::InvalidFunc,
            DiagnosticKind::InvalidCall,
            DiagnosticKind::InvalidInput,
            DiagnosticKind::InvalidLoop,
            DiagnosticKind::InvalidSleep,
            DiagnosticKind::UnknownCommand,
        ]
    );
    let lines: Vec<usize> = p.diagnostics.iter().map(|d| d.line).collect();
    assert_eq!(lines, vec![1, 2, 3, 4, 5, 6, 7, 8]);
}

#[test]
fn diagnostic_messages() {
    assert_eq!(
        DiagnosticKind::InvalidPrint.message(),
        "Invalid print syntax. Use 'print to terminal <text>'"
    );
    assert_eq!(DiagnosticKind::UnknownCommand.message(), "Unknown command");
}

#[test]
fn input_kinds() {
    let p = parse_ok("in con a int\nin console b str\nin con c float");
    assert_eq!(
        p.statements,
        vec![
            Statement::Input(s("a"), InputKind::Int),
            Statement::Input(s("b"), InputKind::Str),
            Statement::Input(s("c"), InputKind::Other),
        ]
    );
    let expected = [
        "  let mut a = String::new();\n",
        "  println!(\"Enter input: \");\n",
        "  io::stdin().read_line(&mut a).expect(\"Failed to read line\");\n",
        "  let a: i32 = a.trim().parse().expect(\"Please type a number!\");\n",
        "  let mut b = String::new();\n",
        "  println!(\"Enter input: \");\n",
        "  io::stdin().read_line(&mut b).expect(\"Failed to read line\");\n",
        "  let b = b.trim().to_string();\n",
        "  let mut c = String::new();\n",
        "  println!(\"Enter input: \");\n",
        "  io::stdin().read_line(&mut c).expect(\"Failed to read line\");\n",
        "  let c = c;\n",
    ]
    .concat();
    assert_eq!(transpile(&p.statements), program(&expected, ""));
}

#[test]
fn functions_are_hoisted_after_main() {
    let input = "func add a,b\nprint to terminal a\nendfunc\ncall add\nfunc zero\nsleep 1\n  endfunc  ";
    let p = parse_ok(input);
    assert_eq!(
        p.statements,
        vec![
            Statement::FuncDecl(s("add"), vec![s("a"), s("b")], vec![Statement::Print(s("a"))]),
            Statement::Call(s("add")),
            Statement::Sleep(s("1")),
        ]
    );
    assert_eq!(
        p.diagnostics,
        vec![
            Diagnostic { kind: DiagnosticKind::InvalidFunc, line: 5 },
            Diagnostic { kind: DiagnosticKind::UnknownCommand, line: 7 },
        ]
    );
    assert_eq!(
        transpile(&p.statements),
        program(
            "  add();\n  sleep(Duration::from_millis(1));\n",
            "fn add(a: i32, b: i32) {\n  println!(\"{}\", a);\n}\n"
        )
    );
}

#[test]
fn function_routines_in_declaration_order() {
    let input = "func one x\ncall two\nendfunc\nloop do\nfunc two a,b,c\nsleep a\nendfunc\nquit_loop\ncall one";
    let p = parse_ok(input);
    let main_body = "  loop {\n  }\n  one();\n";
    let functions = [
        "fn one(x: i32) {\n",
        "  two();\n",
        "}\n",
        "fn two(a: i32, b: i32, c: i32) {\n",
        "  sleep(Duration::from_millis(a));\n",
        "}\n",
    ]
    .concat();
    assert_eq!(transpile(&p.statements), program(main_body, &functions));
}

#[test]
fn empty_parameter_pieces_are_kept() {
    let p = parse_ok("func f a,,b\nendfunc");
    assert_eq!(
        p.statements,
        vec![Statement::FuncDecl(s("f"), vec![s("a"), s(""), s("b")], vec![])]
    );
    assert_eq!(transpile(&p.statements), program("", "fn f(a: i32, : i32, b: i32) {\n}\n"));
}

#[test]
fn newline_escape_is_expanded() {
    let p = parse_ok("print to terminal \"a\\nb\"   \\n");
    assert_eq!(p.statements, vec![Statement::Print(s("\"a\nb\" \n"))]);
    assert_eq!(transpile(&p.statements), program("  println!(\"{}\", \"a\nb\" \n);\n", ""));
}

#[test]
fn words_are_joined_with_single_spaces() {
    let p = parse_ok("   print   to terminal  \"a     b\"  \r\nnew var y =  x   +  1\r\n");
    assert_eq!(
        p.statements,
        vec![Statement::Print(s("\"a b\"")), Statement::VarDecl(s("y"), s("x + 1"))]
    );
}

#[test]
fn sleep_call_and_if() {
    let p = parse_ok("sleep 1000\ncall f\nif a == 1 {\ncall g\n}");
    assert_eq!(
        transpile(&p.statements),
        program(
            "  sleep(Duration::from_millis(1000));\n  f();\n  if a == 1 { {\n    g();\n  }\n",
            ""
        )
    );
}

#[test]
fn nested_blocks_indent_deeper() {
    let p = parse_ok("loop do\nwhile a {\nprint to terminal \"x\"\n}\nquit_loop");
    assert_eq!(
        transpile(&p.statements),
        program("  loop {\n    while a { {\n      println!(\"x\");\n    }\n  }\n", "")
    );
}

#[test]
fn transpile_source_reports_diagnostics() {
    let t = transpile_source("print to terminal \"hi\"\nwhat").unwrap();
    assert_eq!(t.code, program("  println!(\"hi\");\n", ""));
    assert_eq!(t.diagnostics, vec![Diagnostic { kind: DiagnosticKind::UnknownCommand, line: 2 }]);
}

#[test]
fn starter_script_parses() {
    let p = parse_ok(starter_script());
    assert_eq!(
        p.statements,
        vec![
            Statement::Print(s("\"Hello, World\"")),
            Statement::Sleep(s("1000")),
            Statement::Print(s("\"After 1 second\"")),
        ]
    );
}

#[test]
fn build_runs_only_after_successful_compile() {
    assert_eq!(
        next_step(BuildState::Compiling, BuildEvent::Compiled { success: true }),
        (BuildState::Running, BuildAction::Run)
    );
    assert_eq!(
        next_step(BuildState::Compiling, BuildEvent::Compiled { success: false }),
        (BuildState::Finished, BuildAction::ReportCompileFailure)
    );
    assert_eq!(
        next_step(BuildState::Running, BuildEvent::Ran),
        (BuildState::Finished, BuildAction::ReportOutput)
    );
    assert_eq!(
        next_step(BuildState::Finished, BuildEvent::Ran),
        (BuildState::Finished, BuildAction::Ignore)
    );
}
