use hul::ast::BinaryOp;
use hul::interpreter::{HostCall, HostReply, Interpreter};
use hul::parser::Parser;
use hul::value::Value;

/// Doubles for the interpreter: IEEE 754 arithmetic on the bit patterns.
fn double_host(call: HostCall) -> HostReply {
    match call {
        HostCall::Parse(text) => HostReply::Number(text.parse::<f64>().unwrap().to_bits()),
        HostCall::Binary(op, a, b) => {
            let (x, y) = (f64::from_bits(a), f64::from_bits(b));
            match op {
                BinaryOp::Add => HostReply::Number((x + y).to_bits()),
                BinaryOp::Sub => HostReply::Number((x - y).to_bits()),
                BinaryOp::Mul => HostReply::Number((x * y).to_bits()),
                BinaryOp::Div => HostReply::Number((x / y).to_bits()),
                BinaryOp::Mod => HostReply::Number((x % y).to_bits()),
                BinaryOp::Equal => HostReply::Boolean(x == y),
                BinaryOp::NotEqual => HostReply::Boolean(x != y),
                BinaryOp::Less => HostReply::Boolean(x < y),
                BinaryOp::LessEqual => HostReply::Boolean(x <= y),
                BinaryOp::Greater => HostReply::Boolean(x > y),
                BinaryOp::GreaterEqual => HostReply::Boolean(x >= y),
            }
        }
        HostCall::Negate(a) => HostReply::Number((-f64::from_bits(a)).to_bits()),
        HostCall::Format(a) => HostReply::Text(format!("{}", f64::from_bits(a))),
        HostCall::Print(_) => HostReply::Done,
    }
}

/// Runs a program and returns the values of the global variables `names`.
fn run_program(source: &str, names: &[&str]) -> Result<Vec<Value>, String> {
    let mut parser = Parser::new(source)?;
    let stmts = parser.parse_program()?;
    let mut interp = Interpreter::new();
    interp.interpret(&stmts, &double_host)?;
    Ok(names.iter().map(|n| interp.get(n).unwrap()).collect())
}

/// Runs a source text and returns what it printed and how it ended.
fn run_output(source: &str) -> (Vec<String>, Result<(), String>) {
    let out = std::cell::RefCell::new(Vec::new());
    let host = |call: HostCall| match call {
        HostCall::Print(line) => {
            out.borrow_mut().push(line);
            HostReply::Done
        }
        other => double_host(other),
    };
    let r = hul::run(source, &host).0;
    (out.into_inner(), r)
}

fn number(x: f64) -> Value {
    Value::Number(x.to_bits())
}

fn string(s: &str) -> Value {
    Value::String(s.to_string())
}

fn lines(ls: &[&str]) -> Vec<String> {
    ls.iter().map(|l| l.to_string()).collect()
}

#[test]
fn evaluate_chain_assignment() {
    let vals = run_program("let a = 0; let b = 0; a = b = 3;", &["a", "b"]).unwrap();
    assert_eq!(vals[0], number(3.0));
    assert_eq!(vals[1], number(3.0));
}

#[test]
fn function_definition_and_call() {
    let vals = run_program("fn add(a, b) { return a + b; } let x = add(2, 3);", &["x"]).unwrap();
    assert_eq!(vals[0], number(5.0));
}

#[test]
fn truthiness_rules() {
    // 0, nil, false and the empty string are false
    let vals = run_program(
        r#"
        let r0 = 0;   let r1 = 1;
        let s0 = "";  let s1 = "hi";
        let b0 = false; let b1 = true;
        let n  = nil;
        if (r0) { r0 = 999; }
        if (r1) { r1 = 1; }
        if (s0) { s0 = "x"; }
        if (s1) { s1 = "hi"; }
        if (b0) { b0 = true; }
        if (b1) { b1 = true; }
        if (n)  { n  = 1; }
    "#,
        &["r0", "r1", "s0", "s1", "b0", "b1", "n"],
    )
    .unwrap();
    assert_eq!(vals[0], number(0.0));
    assert_eq!(vals[1], number(1.0));
    assert_eq!(vals[2], string(""));
    assert_eq!(vals[3], string("hi"));
    assert_eq!(vals[4], Value::Boolean(false));
    assert_eq!(vals[5], Value::Boolean(true));
    assert_eq!(vals[6], Value::Nil);
}

#[test]
fn string_concatenation() {
    let vals = run_program(
        r#"
        let s1 = "hello" + " " + "world";
        let s2 = "value=" + 42;
        let s3 = 100 + "%";
    "#,
        &["s1", "s2", "s3"],
    )
    .unwrap();
    assert_eq!(vals[0], string("hello world"));
    assert_eq!(vals[1], string("value=42"));
    assert_eq!(vals[2], string("100%"));
}

#[test]
fn for_loop_sum() {
    let vals = run_program(
        r#"
        let sum = 0;
        for (let i = 1; i <= 10; i = i + 1) {
            sum = sum + i;
        }
    "#,
        &["sum"],
    )
    .unwrap();
    assert_eq!(vals[0], number(55.0));
}

#[test]
fn for_loop_scope() {
    // a variable declared in the body lives for one round
    let vals = run_program(
        r#"
        let result = 0;
        for (let i = 0; i < 5; i = i + 1) {
            let local = i * 2;
            result = result + local;
        }
    "#,
        &["result"],
    )
    .unwrap();
    // 0 + 2 + 4 + 6 + 8 = 20
    assert_eq!(vals[0], number(20.0));
}

#[test]
fn for_loop_no_initializer() {
    let vals = run_program(
        r#"
        let i = 0;
        let count = 0;
        for (; i < 3; i = i + 1) {
            count = count + 1;
        }
    "#,
        &["count"],
    )
    .unwrap();
    assert_eq!(vals[0], number(3.0));
}

#[test]
fn break_in_while() {
    let vals = run_program(
        r#"
        let sum = 0;
        let i = 0;
        while (true) {
            if (i >= 5) { break; }
            sum = sum + i;
            i = i + 1;
        }
    "#,
        &["sum"],
    )
    .unwrap();
    // 0+1+2+3+4 = 10
    assert_eq!(vals[0], number(10.0));
}

#[test]
fn continue_in_while() {
    let vals = run_program(
        r#"
        let sum = 0;
        let i = 0;
        while (i < 5) {
            i = i + 1;
            if (i == 3) { continue; }
            sum = sum + i;
        }
    "#,
        &["sum"],
    )
    .unwrap();
    // 1+2+4+5 = 12, 3 skipped
    assert_eq!(vals[0], number(12.0));
}

#[test]
fn break_in_for() {
    let vals = run_program(
        r#"
        let sum = 0;
        for (let i = 0; i < 100; i = i + 1) {
            if (i == 5) { break; }
            sum = sum + i;
        }
    "#,
        &["sum"],
    )
    .unwrap();
    // 0+1+2+3+4 = 10
    assert_eq!(vals[0], number(10.0));
}

#[test]
fn continue_in_for() {
    let vals = run_program(
        r#"
        let sum = 0;
        for (let i = 0; i < 5; i = i + 1) {
            if (i == 2) { continue; }
            sum = sum + i;
        }
    "#,
        &["sum"],
    )
    .unwrap();
    // 0+1+3+4 = 8, 2 skipped
    assert_eq!(vals[0], number(8.0));
}

#[test]
fn break_nested_loops() {
    // break leaves the innermost loop only
    let vals = run_program(
        r#"
        let count = 0;
        for (let i = 0; i < 3; i = i + 1) {
            for (let j = 0; j < 3; j = j + 1) {
                if (j == 1) { break; }
                count = count + 1;
            }
        }
    "#,
        &["count"],
    )
    .unwrap();
    // three outer rounds, each counting j = 0 only
    assert_eq!(vals[0], number(3.0));
}

// ---- output ----

#[test]
fn print_arithmetic() {
    let (out, r) = run_output("print 10 + 3; print 10 - 3; print 10 * 3; print 10 / 4; print 10 % 3; print -5; print 1 + 2 * 3; print (1 + 2) * 3;");
    assert_eq!(r, Ok(()));
    assert_eq!(out, lines(&["13", "7", "30", "2.5", "1", "-5", "7", "9"]));
}

#[test]
fn print_values() {
    let (out, r) = run_output("print 42; print \"hello\"; print true; print false; print nil; print 3.14;");
    assert_eq!(r, Ok(()));
    assert_eq!(out, lines(&["42", "hello", "true", "false", "nil", "3.14"]));
}

#[test]
fn print_comparisons() {
    let (out, r) = run_output(
        "print 1 == 1; print 1 != 2; print 3 < 5; print 3 <= 3; print 5 > 3; print 5 >= 5; print true == true; print nil == nil; print nil == false; print \"a\" == \"a\"; print 1 == \"1\";",
    );
    assert_eq!(r, Ok(()));
    assert_eq!(out, lines(&["true", "true", "true", "true", "true", "true", "true", "true", "false", "true", "false"]));
}

#[test]
fn print_logic() {
    let (out, r) = run_output("print true and true; print true and false; print false and true; print true or false; print false or false; print not true; print not false;");
    assert_eq!(r, Ok(()));
    assert_eq!(out, lines(&["true", "false", "false", "true", "false", "false", "true"]));
}

#[test]
fn logical_operators_return_operands() {
    let vals = run_program("let a = 0 or 42; let b = 1 or 42; let c = 0 and 42; let d = 1 and 42;", &["a", "b", "c", "d"]).unwrap();
    assert_eq!(vals, vec![number(42.0), number(1.0), number(0.0), number(42.0)]);
}

#[test]
fn short_circuit_skips_the_right_side() {
    let (out, r) = run_output("fn f() { print \"called\"; return true; } let x = false and f(); let y = true or f(); print x; print y;");
    assert_eq!(r, Ok(()));
    assert_eq!(out, lines(&["false", "true"]));
}

#[test]
fn string_concatenation_converts_the_other_side() {
    let (out, r) = run_output("print \"hello\" + \" \" + \"world\"; print \"result=\" + 42; print 100 + \"%\"; print \"x\" + true; print \"v\" + nil;");
    assert_eq!(r, Ok(()));
    assert_eq!(out, lines(&["hello world", "result=42", "100%", "xtrue", "vnil"]));
}

#[test]
fn string_escapes_reach_the_output() {
    let (out, r) = run_output("print \"C:\\\\Users\\\\test\"; print \"say \\\"hi\\\"\"; print \"a\\tb\";");
    assert_eq!(r, Ok(()));
    assert_eq!(out, lines(&["C:\\Users\\test", "say \"hi\"", "a\tb"]));
}

#[test]
fn assignment_is_an_expression() {
    let (out, r) = run_output("let x; print x = 10; print x;");
    assert_eq!(r, Ok(()));
    assert_eq!(out, lines(&["10", "10"]));
}

// ---- scopes ----

#[test]
fn block_let_shadows_outer_variable() {
    let (out, r) = run_output("let x = 1; { let x = 2; print x; } print x;");
    assert_eq!(r, Ok(()));
    assert_eq!(out, lines(&["2", "1"]));
}

#[test]
fn block_assignment_changes_outer_variable() {
    let (out, r) = run_output("let x = 1; { x = 2; } print x;");
    assert_eq!(r, Ok(()));
    assert_eq!(out, lines(&["2"]));
}

#[test]
fn nested_blocks_see_outer_variables() {
    let (out, r) = run_output("{ let a = 1; { let b = 2; { let c = 3; print a + b + c; } } }");
    assert_eq!(r, Ok(()));
    assert_eq!(out, lines(&["6"]));
}

#[test]
fn block_variable_not_visible_outside() {
    let (out, r) = run_output("{ let y = 2; print y; } print y;");
    assert_eq!(out, lines(&["2"]));
    assert_eq!(r, Err("Undefined variable 'y'".to_string()));
}

#[test]
fn for_variable_not_visible_after_loop() {
    let (out, r) = run_output("for (let i = 0; i < 2; i = i + 1) { print i; } print i;");
    assert_eq!(out, lines(&["0", "1"]));
    assert_eq!(r, Err("Undefined variable 'i'".to_string()));
}

#[test]
fn let_without_initializer_is_nil() {
    let vals = run_program("let y;", &["y"]).unwrap();
    assert_eq!(vals[0], Value::Nil);
}

// ---- functions ----

#[test]
fn function_without_return_gives_nil() {
    let (out, r) = run_output("fn greet(name) { print \"hello \" + name; } print greet(\"hul\");");
    assert_eq!(r, Ok(()));
    assert_eq!(out, lines(&["hello hul", "nil"]));
}

#[test]
fn functions_are_values() {
    let (out, r) = run_output("fn add(a, b) { return a + b; } let f = add; print f(3, 4); print add(add(1, 2), 3); print add;");
    assert_eq!(r, Ok(()));
    assert_eq!(out, lines(&["7", "6", "<fn add>"]));
}

#[test]
fn closures_see_their_defining_scope() {
    let (out, r) = run_output("let base = 10; { let base = 20; fn get() { return base; } print get(); } fn get2() { return base; } print get2();");
    assert_eq!(r, Ok(()));
    assert_eq!(out, lines(&["20", "10"]));
}

#[test]
fn factorial_example() {
    let (out, r) = run_output(
        r#"
        fn factorial(n) {
            if (n <= 1) { return 1; }
            return n * factorial(n - 1);
        }
        for (let i = 1; i <= 10; i = i + 1) {
            print i + "! = " + factorial(i);
        }
    "#,
    );
    assert_eq!(r, Ok(()));
    assert_eq!(
        out,
        lines(&["1! = 1", "2! = 2", "3! = 6", "4! = 24", "5! = 120", "6! = 720", "7! = 5040", "8! = 40320", "9! = 362880", "10! = 3628800"])
    );
}

#[test]
fn fibonacci_example() {
    let (out, r) = run_output(
        r#"
        fn fib(n) {
            if (n <= 1) { return n; }
            return fib(n - 1) + fib(n - 2);
        }
        for (let i = 0; i < 10; i = i + 1) {
            print "fib(" + i + ") = " + fib(i);
        }
    "#,
    );
    assert_eq!(r, Ok(()));
    assert_eq!(out[9], "fib(9) = 34");
    assert_eq!(out.len(), 10);
}

#[test]
fn primes_example() {
    let (out, r) = run_output(
        r#"
        fn is_prime(n) {
            if (n < 2) { return false; }
            let i = 2;
            while (i * i <= n) {
                if (n % i == 0) { return false; }
                i = i + 1;
            }
            return true;
        }
        for (let n = 2; n < 30; n = n + 1) {
            if (is_prime(n)) { print n; }
        }
    "#,
    );
    assert_eq!(r, Ok(()));
    assert_eq!(out, lines(&["2", "3", "5", "7", "11", "13", "17", "19", "23", "29"]));
}

#[test]
fn fizzbuzz_example() {
    let (out, r) = run_output(
        r#"
        for (let i = 1; i <= 15; i = i + 1) {
            if (i % 15 == 0) {
                print "FizzBuzz";
            } else if (i % 3 == 0) {
                print "Fizz";
            } else if (i % 5 == 0) {
                print "Buzz";
            } else {
                print i;
            }
        }
    "#,
    );
    assert_eq!(r, Ok(()));
    assert_eq!(
        out,
        lines(&["1", "2", "Fizz", "4", "Buzz", "Fizz", "7", "8", "Fizz", "Buzz", "11", "Fizz", "13", "14", "FizzBuzz"])
    );
}

#[test]
fn while_and_for_variants() {
    let (out, r) = run_output(
        r#"
        let i = 0;
        while (i < 3) { print i; i = i + 1; }
        for (let j = 0; j < 2;) { print j; j = j + 1; }
        for (let k = 0;; k = k + 1) { if (k >= 2) { break; } print k; }
        let running = true;
        for (;;) { if (not running) { break; } running = false; print "once"; }
    "#,
    );
    assert_eq!(r, Ok(()));
    assert_eq!(out, lines(&["0", "1", "2", "0", "1", "0", "1", "once"]));
}

#[test]
fn single_statement_bodies() {
    let (out, r) = run_output("let x = 5; if (x > 0) print x; else print 0; let n = 0; while (n < 2) n = n + 1; print n;");
    assert_eq!(r, Ok(()));
    assert_eq!(out, lines(&["5", "2"]));
}

// ---- runtime errors ----

#[test]
fn undefined_variable_error() {
    assert_eq!(run_output("print x;").1, Err("Undefined variable 'x'".to_string()));
    assert_eq!(run_output("y = 10;").1, Err("Undefined variable 'y'".to_string()));
}

#[test]
fn operand_type_errors() {
    assert_eq!(run_output("print true + false;").1, Err("Operands for '+' must be numbers or strings".to_string()));
    assert_eq!(run_output("print \"a\" < \"b\";").1, Err("Operands for '<' must be numbers".to_string()));
    assert_eq!(run_output("print \"hello\" - 1;").1, Err("Operands for '-' must be numbers".to_string()));
    assert_eq!(run_output("print nil * 2;").1, Err("Operands for '*' must be numbers".to_string()));
    assert_eq!(run_output("print -\"a\";").1, Err("Negation requires number".to_string()));
}

#[test]
fn jump_outside_its_construct_errors() {
    assert_eq!(run_output("break;").1, Err("'break' outside of loop".to_string()));
    assert_eq!(run_output("continue;").1, Err("'continue' outside of loop".to_string()));
    assert_eq!(run_output("return 1;").1, Err("Unexpected return outside function".to_string()));
    assert_eq!(run_output("fn f() { break; } while (true) { f(); }").1, Err("'break' outside of loop".to_string()));
}

#[test]
fn call_errors() {
    assert_eq!(run_output("fn add(a, b) { return a + b; } add(1);").1, Err("Expected 2 arguments but got 1".to_string()));
    assert_eq!(run_output("let x = 1; x();").1, Err("Can only call functions".to_string()));
}

#[test]
fn output_before_an_error_is_kept() {
    let (out, r) = run_output("print 1; print 2; print z; print 3;");
    assert_eq!(out, lines(&["1", "2"]));
    assert_eq!(r, Err("Undefined variable 'z'".to_string()));
}

// ---- syntax and lexical errors ----

#[test]
fn syntax_errors_are_all_reported() {
    let source = "let a = 1;\nlet = ;\nlet b = 2;\n+ 3;";
    let (out, r) = run_output(source);
    assert!(out.is_empty());
    assert_eq!(r, Err("Expected variable name\nUnexpected token Plus at 4:1".to_string()));
}

#[test]
fn invalid_assignment_target() {
    assert_eq!(run_output("1 + 2 = 3;").1, Err("Invalid assignment target".to_string()));
}

#[test]
fn missing_semicolon() {
    assert_eq!(run_output("let x = 1").1, Err("Expected ';' after let at end of input".to_string()));
}

#[test]
fn unknown_escape_error() {
    assert_eq!(run_output("print \"\\q\";").1, Err("Unknown escape '\\q' at 1:10".to_string()));
}

#[test]
fn long_loops_run() {
    let vals = run_program("let sum = 0; let i = 1; while (i <= 100000) { let step = i; sum = sum + step; i = i + 1; }", &["sum"]).unwrap();
    assert_eq!(vals[0], number(5000050000.0));
}

#[test]
fn functions_made_in_a_loop_keep_their_scope() {
    let (out, r) = run_output("let f = nil; for (let i = 0; i < 3; i = i + 1) { let j = i * 10; fn g() { return j; } f = g; } print f();");
    assert_eq!(r, Ok(()));
    assert_eq!(out, lines(&["20"]));
}

#[test]
fn recursion_goes_deep() {
    let (out, r) = run_output("fn fib(n) { if (n <= 1) { return n; } return fib(n - 1) + fib(n - 2); } print fib(20);");
    assert_eq!(r, Ok(()));
    assert_eq!(out, lines(&["6765"]));
}

#[test]
fn nested_block_comments_do_not_nest() {
    assert_eq!(run_output("/* /* inner */ */").1, Err("Unexpected token Star at 1:16".to_string()));
}

#[test]
fn closures_keep_their_variables_alive() {
    let (out, r) = run_output(
        r#"
        fn make_counter() {
            let count = 0;
            fn increment() {
                count = count + 1;
                return count;
            }
            return increment;
        }
        let counter = make_counter();
        print counter();
        print counter();
    "#,
    );
    assert_eq!(r, Ok(()));
    assert_eq!(out, lines(&["1", "2"]));
}

#[test]
fn variables_hold_copies() {
    let (out, r) = run_output("let a = 42; let b = a; a = 100; print b;");
    assert_eq!(r, Ok(()));
    assert_eq!(out, lines(&["42"]));
}

#[test]
fn missing_semicolon_after_expression() {
    assert_eq!(run_output("x = 1 print x;").1, Err("Expected ';' after expression at Print (1:7)".to_string()));
}

#[test]
fn one_interpreter_keeps_bindings_across_programs() {
    let first = Parser::new("let x = 1; fn inc(n) { return n + 1; }").unwrap().parse_program().unwrap();
    let second = Parser::new("x = inc(x);").unwrap().parse_program().unwrap();
    let mut interp = Interpreter::new();
    interp.interpret(&first, &double_host).unwrap();
    interp.interpret(&second, &double_host).unwrap();
    assert_eq!(interp.get("x"), Ok(number(2.0)));
}
