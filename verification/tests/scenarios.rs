use femscript::run;
use femscript::NoHost;
use femscript::Scope;
use femscript::Token;
use femscript::TokenType;
use femscript::SCALE;

fn eval(code: &str) -> Token {
    let mut scope = Scope::new();
    let mut host = NoHost::new();
    run(code, &mut scope, &mut host)
}

#[test]
fn assignment_and_compound_add() {
    let r = eval("x = 1; x += 2; return x;");
    assert_eq!(r.kind, TokenType::Int);
    assert_eq!(r.number, 3 * SCALE);
}

#[test]
fn user_function_call() {
    let r = eval("fn add(a, b) { return a + b; } return add(2, 3);");
    assert_eq!(r.kind, TokenType::Int);
    assert_eq!(r.number, 5 * SCALE);
}

#[test]
fn if_else_takes_the_true_branch() {
    let r = eval("if 1 == 1 { return \"yes\"; } else { return \"no\"; }");
    assert_eq!(r.kind, TokenType::Str);
    assert_eq!(r.value, "yes");
}

#[test]
fn if_else_takes_the_false_branch() {
    let r = eval("if 1 == 2 { return \"yes\"; } else { return \"no\"; }");
    assert_eq!(r.kind, TokenType::Str);
    assert_eq!(r.value, "no");
}

#[test]
fn scope_bleed_back_of_function_locals() {
    let r = eval("fn f() { y = 9; } f(); return y;");
    assert_eq!(r.kind, TokenType::Int);
    assert_eq!(r.number, 9 * SCALE);
}

#[test]
fn compound_assign_type_mismatch_is_type_error() {
    let r = eval("x = 1; x += \"a\"; return x;");
    assert_eq!(r.kind, TokenType::TypeError);
}

#[test]
fn boolean_compound_add_applies_numerically() {
    let r = eval("x = true; x += true; return x;");
    assert_eq!(r.kind, TokenType::Bool);
    assert_eq!(r.number, 2 * SCALE);
}

#[test]
fn list_push_appends_one_element() {
    let r = eval("x = []; x += 5; return len(x);");
    assert_eq!(r.kind, TokenType::Int);
    assert_eq!(r.number, 1 * SCALE);
}

#[test]
fn list_push_is_not_concatenation() {
    let r = eval("x = []; x += [1, 2]; return len(x);");
    assert_eq!(r.kind, TokenType::Int);
    assert_eq!(r.number, 1 * SCALE);
}

#[test]
fn recursion_ceiling_is_a_recursion_error() {
    let r = eval("fn f() { return f(); } return f();");
    assert_eq!(r.kind, TokenType::RecursionError);
}

#[test]
fn string_compound_add_concatenates() {
    let r = eval("s = \"ab\"; s += \"cd\"; return s;");
    assert_eq!(r.kind, TokenType::Str);
    assert_eq!(r.value, "abcd");
}

#[test]
fn undefined_variable_is_an_undefined_error() {
    let r = eval("return y;");
    assert_eq!(r.kind, TokenType::Undefined);
}

#[test]
fn first_error_short_circuits_the_sequence() {
    let r = eval("x = 1; y; x = 2; return x;");
    assert_eq!(r.kind, TokenType::Undefined);
}

#[test]
fn operator_chains_nest_on_the_right_operand() {
    let r = eval("return 10 - 2 - 3;");
    assert_eq!(r.kind, TokenType::Int);
    assert_eq!(r.number, 11 * SCALE);
}

#[test]
fn fractional_arithmetic_is_exact() {
    let r = eval("return 1.5 + 2.25;");
    assert_eq!(r.kind, TokenType::Int);
    assert_eq!(r.number, 3 * SCALE + 750_000);
}

#[test]
fn division_gives_fractional_results() {
    let r = eval("return 5 / 2;");
    assert_eq!(r.kind, TokenType::Int);
    assert_eq!(r.number, 2 * SCALE + 500_000);
}

#[test]
fn division_by_zero_is_an_error_value() {
    let r = eval("return 1 / 0;");
    assert_eq!(r.kind, TokenType::Error);
}

#[test]
fn negative_literal_is_fused_by_the_lexer() {
    let r = eval("return -3 + 5;");
    assert_eq!(r.kind, TokenType::Int);
    assert_eq!(r.number, 2 * SCALE);
}

#[test]
fn comparison_of_mismatched_types_is_type_error() {
    let r = eval("return 1 == \"a\";");
    assert_eq!(r.kind, TokenType::TypeError);
}

#[test]
fn string_comparison_is_lexicographic() {
    let r = eval("return \"abc\" < \"abd\";");
    assert_eq!(r.kind, TokenType::Bool);
    assert_eq!(r.number, SCALE);
}

#[test]
fn and_or_are_numeric_truthiness() {
    let t = eval("return 1 and 2;");
    assert_eq!(t.kind, TokenType::Bool);
    assert_eq!(t.number, SCALE);
    let f = eval("return 0 or 0;");
    assert_eq!(f.kind, TokenType::Bool);
    assert_eq!(f.number, 0);
}

#[test]
fn not_inverts_truthiness() {
    let r = eval("return !0;");
    assert_eq!(r.kind, TokenType::Bool);
    assert_eq!(r.number, SCALE);
}

#[test]
fn negative_index_counts_from_the_end() {
    let r = eval("x = [1, 2, 3]; return x.-1;");
    assert_eq!(r.kind, TokenType::Int);
    assert_eq!(r.number, 3 * SCALE);
}

#[test]
fn list_index_out_of_range_is_index_error() {
    let r = eval("x = [1, 2, 3]; return x.5;");
    assert_eq!(r.kind, TokenType::IndexError);
}

#[test]
fn comments_never_reach_the_tree() {
    let r = eval("x = 1; # a note\nreturn x;");
    assert_eq!(r.kind, TokenType::Int);
    assert_eq!(r.number, SCALE);
}

#[test]
fn bare_block_evaluates_to_a_namespace() {
    let r = eval("ns = { a = 7; }; return ns.a;");
    assert_eq!(r.kind, TokenType::Int);
    assert_eq!(r.number, 7 * SCALE);
}

#[test]
fn borrow_copies_a_variable_into_the_block() {
    let r = eval("x = 4; ns = { borrow(x); b = x + 1; }; return ns.b;");
    assert_eq!(r.kind, TokenType::Int);
    assert_eq!(r.number, 5 * SCALE);
}

#[test]
fn borrow_of_a_missing_name_is_undefined() {
    let r = eval("ns = { borrow(zz); b = 1; }; return ns.b;");
    assert_eq!(r.kind, TokenType::Undefined);
}

#[test]
fn borrowed_binding_is_stripped_from_the_namespace() {
    let r = eval("x = 4; ns = { borrow(x); b = 1; }; return ns.x;");
    assert_eq!(r.kind, TokenType::Undefined);
}

#[test]
fn blocks_do_not_see_enclosing_variables_without_borrow() {
    let r = eval("x = 4; ns = { b = x; }; return ns.b;");
    assert_eq!(r.kind, TokenType::Undefined);
}

#[test]
fn function_arity_mismatch_is_type_error() {
    let r = eval("fn add(a, b) { return a + b; } return add(2);");
    assert_eq!(r.kind, TokenType::TypeError);
}

#[test]
fn unterminated_string_is_a_syntax_error() {
    let r = eval("x = \"ab\ncd\"; return x;");
    assert_eq!(r.kind, TokenType::SyntaxError);
}

#[test]
fn unmatched_brace_is_a_syntax_error() {
    let r = eval("if 1 == 1 { return 2;");
    assert_eq!(r.kind, TokenType::SyntaxError);
}

#[test]
fn print_writes_to_the_host_channel() {
    let mut scope = Scope::new();
    let mut host = NoHost::new();
    let r = run("print(\"hi\"); return 1;", &mut scope, &mut host);
    assert_eq!(r.kind, TokenType::Int);
    assert_eq!(host.output.len(), 1);
    assert_eq!(host.output[0], "hi");
}

#[test]
fn seed_variables_are_visible_to_the_program() {
    let mut scope = Scope::new();
    scope.push_variable("seeded", Token::new_int(2 * SCALE));
    let mut host = NoHost::new();
    let r = run("return seeded + 1;", &mut scope, &mut host);
    assert_eq!(r.kind, TokenType::Int);
    assert_eq!(r.number, 3 * SCALE);
}
