//! End-to-end evaluation tests: source text through the lexer, the parser
//! and the evaluator, checking the printed lines and the reported errors.

use lox_interpreter::lexer::tokenize;
use lox_interpreter::{Interp, Parser, RuntimeError};

fn run_with_fuel(src: &str, fuel: u64) -> (Vec<String>, Result<(), RuntimeError>) {
    let tokens = tokenize(src).expect("lexing failed");
    let mut parser = Parser::new(&tokens);
    let stmts = parser.parse();
    assert!(
        parser.errors.is_empty(),
        "unexpected parse errors: {:?}",
        parser.errors
    );
    let mut it = Interp::new();
    let r = it.run(&stmts, fuel);
    (it.output().clone(), r)
}

fn run_src(src: &str) -> (Vec<String>, Result<(), RuntimeError>) {
    run_with_fuel(src, 10_000)
}

fn lines(src: &str) -> Vec<String> {
    let (out, r) = run_src(src);
    assert_eq!(r, Ok(()), "program failed: {:?}", r);
    out
}

#[test]
fn closure_captures_by_reference() {
    // the closure sees and mutates the variable of its defining scope,
    // so repeated calls keep counting
    let out = lines(
        "fun make() { var x = 1; fun inc() { x = x + 1; return x; } return inc; } \
         var f = make(); print f(); print f();",
    );
    assert_eq!(out, vec!["2".to_string(), "3".to_string()]);
}

#[test]
fn block_shadowing_is_local() {
    let out = lines("var x = 1; { var x = 2; } print x;");
    assert_eq!(out, vec!["1".to_string()]);
}

#[test]
fn zero_is_truthy() {
    let out = lines("if (0) print \"a\"; else print \"b\";");
    assert_eq!(out, vec!["a".to_string()]);
}

#[test]
fn only_false_is_falsy() {
    let out = lines(
        "if (nil) print \"t\"; else print \"f\"; \
         if (\"\") print \"t\"; else print \"f\"; \
         if (false) print \"t\"; else print \"f\"; \
         if (true) print \"t\"; else print \"f\";",
    );
    assert_eq!(out, vec!["t", "t", "f", "t"]);
}

#[test]
fn inheritance_and_super() {
    // A's body runs with the B instance bound as `this`, so it reads the
    // field that B's init set
    let out = lines(
        "class A { greet() { return \"hi \" + this.who; } } \
         class B < A { init() { this.who = \"b\"; } greet() { return super.greet() + \"!\"; } } \
         var x = B(); print x.greet();",
    );
    assert_eq!(out, vec!["hi b!".to_string()]);
}

#[test]
fn per_class_member_keying() {
    // the member registered during the superclass's init lives under the
    // superclass's key and stays reachable through `super`, even after the
    // subclass registers a same-named member under its own key
    let out = lines(
        "class A { init() { fun data() { return \"from A\"; } } } \
         class B < A { poke() { fun data() { return \"from B\"; } } \
                       viasuper() { return super.data(); } \
                       mine() { return this.data(); } } \
         var b = B(); b.poke(); print b.viasuper(); print b.mine();",
    );
    assert_eq!(out, vec!["from A".to_string(), "from B".to_string()]);
}

#[test]
fn division_by_zero_is_reported() {
    let (out, r) = run_src("print 1; print 1 / 0;");
    assert_eq!(out, vec!["1".to_string()]);
    assert_eq!(r, Err(RuntimeError::DivideByZero));
}

#[test]
fn adding_number_and_bool_is_reported() {
    let (out, r) = run_src("print 1 + true;");
    assert!(out.is_empty());
    assert_eq!(r, Err(RuntimeError::TypeError));
}

#[test]
fn negating_a_string_is_reported() {
    let (_, r) = run_src("print -\"x\";");
    assert_eq!(r, Err(RuntimeError::TypeError));
}

#[test]
fn comparing_strings_is_reported() {
    let (_, r) = run_src("print \"a\" < \"b\";");
    assert_eq!(r, Err(RuntimeError::TypeError));
}

#[test]
fn calling_a_number_is_reported() {
    let (_, r) = run_src("var x = 5; x();");
    assert_eq!(r, Err(RuntimeError::TypeError));
}

#[test]
fn arity_mismatch_is_reported() {
    let (_, r) = run_src("fun f(a) { return a; } print f();");
    assert_eq!(r, Err(RuntimeError::ArityError { expected: 1, got: 0 }));
}

#[test]
fn reading_an_undeclared_name_is_reported() {
    let (_, r) = run_src("print y;");
    assert_eq!(r, Err(RuntimeError::NameError("y".to_string())));
}

#[test]
fn assigning_an_undeclared_name_is_reported() {
    // assignment never creates a binding: an undeclared target is an error
    let (_, r) = run_src("x = 1;");
    assert_eq!(r, Err(RuntimeError::NameError("x".to_string())));
}

#[test]
fn missing_field_is_reported() {
    let (_, r) = run_src("class A { } var a = A(); print a.missing;");
    assert_eq!(r, Err(RuntimeError::FieldError("missing".to_string())));
}

#[test]
fn undefined_superclass_is_reported() {
    let (_, r) = run_src("class B < Missing { }");
    assert_eq!(r, Err(RuntimeError::NameError("Missing".to_string())));
}

#[test]
fn non_class_superclass_is_reported() {
    let (_, r) = run_src("var x = 1; class B < x { }");
    assert_eq!(r, Err(RuntimeError::TypeError));
}

#[test]
fn endless_loop_exhausts_the_budget() {
    let (_, r) = run_with_fuel("var i = 0; while (true) i = i + 1;", 50);
    assert_eq!(r, Err(RuntimeError::StepLimit));
}

#[test]
fn bare_return_prints_nil() {
    let out = lines("fun f() { return; } print f();");
    assert_eq!(out, vec!["nil".to_string()]);
}

#[test]
fn falling_off_a_function_yields_nil() {
    let out = lines("fun f() { 1 + 1; } print f();");
    assert_eq!(out, vec!["nil".to_string()]);
}

#[test]
fn while_loop_sums() {
    let out = lines("var i = 0; var s = 0; while (i < 5) { s = s + i; i = i + 1; } print s;");
    assert_eq!(out, vec!["10".to_string()]);
}

#[test]
fn for_loop_counts() {
    let out = lines("for (var i = 0; i < 3; i = i + 1) print i;");
    assert_eq!(out, vec!["0", "1", "2"]);
}

#[test]
fn string_concatenation() {
    let out = lines("print \"con\" + \"cat\";");
    assert_eq!(out, vec!["concat".to_string()]);
}

#[test]
fn logical_operators_short_circuit() {
    let out = lines(
        "var x = 1; false and (x = 2); print x; \
         var y = 1; true or (y = 3); print y; \
         var z = 1; true and (z = 4); print z;",
    );
    assert_eq!(out, vec!["1", "1", "4"]);
}

#[test]
fn logical_operators_yield_operands() {
    let out = lines("print 0 or 2; print false or 3; print 4 and 5; print false and 6;");
    assert_eq!(out, vec!["0", "3", "5", "false"]);
}

#[test]
fn equality_is_structural_and_never_coerces() {
    let out = lines(
        "print 1 == 1; print 1 == 2; print \"1\" == 1; print nil == nil; \
         print true == true; print 1 != \"1\";",
    );
    assert_eq!(out, vec!["true", "false", "false", "true", "true", "true"]);
}

#[test]
fn unary_operators() {
    let out = lines("print -5; print !false; print !0; print !nil;");
    assert_eq!(out, vec!["-5", "true", "false", "false"]);
}

#[test]
fn precedence_and_grouping() {
    let out = lines("print 2 * 3 + 4; print 2 * (3 + 4); print 10 - 2 - 3;");
    assert_eq!(out, vec!["10", "14", "5"]);
}

#[test]
fn division_truncates_toward_zero() {
    let out = lines("print 7 / 2; print 0 - 7 / 2; print (0 - 7) / 2;");
    assert_eq!(out, vec!["3", "-3", "-3"]);
}

#[test]
fn variable_declaration_without_initializer_is_nil() {
    let out = lines("var x; print x;");
    assert_eq!(out, vec!["nil".to_string()]);
}

#[test]
fn assignment_yields_the_value() {
    let out = lines("var x = 1; print x = 5; print x;");
    assert_eq!(out, vec!["5", "5"]);
}

#[test]
fn methods_run_with_their_instance() {
    let out = lines(
        "class Counter { init() { this.n = 0; } bump() { this.n = this.n + 1; return this.n; } } \
         var c = Counter(); c.bump(); c.bump(); print c.bump(); print c.n;",
    );
    assert_eq!(out, vec!["3", "3"]);
}

#[test]
fn instances_share_state_through_references() {
    let out = lines(
        "class Box { } var a = Box(); var b = a; a.val = 7; print b.val;",
    );
    assert_eq!(out, vec!["7".to_string()]);
}

#[test]
fn constructor_yields_the_instance_and_discards_init_result() {
    let out = lines(
        "class A { init() { this.x = 1; return; } get() { return this.x; } } \
         var a = A(); print a.get();",
    );
    assert_eq!(out, vec!["1".to_string()]);
}

#[test]
fn constructor_arguments_reach_init() {
    let out = lines(
        "class P { init(x, y) { this.x = x; this.y = y; } sum() { return this.x + this.y; } } \
         print P(3, 4).sum();",
    );
    assert_eq!(out, vec!["7".to_string()]);
}

#[test]
fn constructor_without_init_rejects_arguments() {
    let (_, r) = run_src("class A { } var a = A(1);");
    assert_eq!(r, Err(RuntimeError::ArityError { expected: 0, got: 1 }));
}

#[test]
fn method_inherited_from_grandparent() {
    let out = lines(
        "class A { hi() { return \"a\"; } } class B < A { } class C < B { } \
         var c = C(); print c.hi();",
    );
    assert_eq!(out, vec!["a".to_string()]);
}

#[test]
fn number_overflow_wraps() {
    let out = lines("print 9223372036854775807 + 1;");
    assert_eq!(out, vec!["-9223372036854775808".to_string()]);
}

#[test]
fn printing_functions_and_classes() {
    let out = lines("fun f() { } class A { } var a = A(); print f; print A; print a;");
    assert_eq!(out, vec!["<fn>", "<class>", "<instance>"]);
}

#[test]
fn recursive_functions_work() {
    let out = lines(
        "fun fib(n) { if (n < 2) return n; return fib(n - 1) + fib(n - 2); } print fib(10);",
    );
    assert_eq!(out, vec!["55".to_string()]);
}

#[test]
fn scoping_is_lexical_not_dynamic() {
    // the closure resolves names in the scope where it was defined, not in
    // the scope it is called from
    let out = lines("var x = 1; fun f() { return x; } { var x = 2; print f(); }");
    assert_eq!(out, vec!["1".to_string()]);
}

#[test]
fn later_declaration_shadows_in_the_same_frame() {
    let out = lines("var x = 1; var x = 2; print x;");
    assert_eq!(out, vec!["2".to_string()]);
}

#[test]
fn nested_closures_reach_all_enclosing_scopes() {
    let out = lines(
        "fun outer() { var a = 1; fun middle() { var b = 2; fun inner() { return a + b; } \
         return inner; } return middle(); } print outer()();",
    );
    assert_eq!(out, vec!["3".to_string()]);
}

#[test]
fn two_closures_share_one_captured_variable() {
    let out = lines(
        "var n = 0; fun bump() { n = n + 1; } fun read() { return n; } \
         bump(); bump(); print read();",
    );
    assert_eq!(out, vec!["2".to_string()]);
}
