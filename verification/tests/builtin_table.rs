use femscript::run;
use femscript::NoHost;
use femscript::Scope;
use femscript::Token;
use femscript::TokenType;
use femscript::SCALE;

fn eval(code: &str) -> Token {
    let mut scope = Scope::new();
    let mut host = NoHost::new();
    run(code, &mut scope, &mut host)
}

#[test]
fn get_returns_the_constructed_element() {
    let r = eval("return get([10, 20, 30], 1);");
    assert_eq!(r.kind, TokenType::Int);
    assert_eq!(r.number, 20 * SCALE);
}

#[test]
fn get_out_of_range_is_index_error() {
    let r = eval("return get([10, 20, 30], 3);");
    assert_eq!(r.kind, TokenType::IndexError);
}

#[test]
fn get_negative_index_is_index_error() {
    let r = eval("return get([10, 20, 30], -1);");
    assert_eq!(r.kind, TokenType::IndexError);
}

#[test]
fn len_of_an_element_is_type_error() {
    let r = eval("return len(get([1, 2, 3], 1));");
    assert_eq!(r.kind, TokenType::TypeError);
}

#[test]
fn len_of_a_list_counts_elements_every_call() {
    for _ in 0..2 {
        let r = eval("return len([1, 2, 3]);");
        assert_eq!(r.kind, TokenType::Int);
        assert_eq!(r.number, 3 * SCALE);
    }
}

#[test]
fn len_of_a_string_counts_characters() {
    let r = eval("return len(\"abcd\");");
    assert_eq!(r.kind, TokenType::Int);
    assert_eq!(r.number, 4 * SCALE);
}

#[test]
fn contains_finds_a_number() {
    let r = eval("return contains([1, 2, 3], 2);");
    assert_eq!(r.kind, TokenType::Bool);
    assert_eq!(r.number, SCALE);
}

#[test]
fn contains_misses_a_string() {
    let r = eval("return contains([\"a\", \"b\"], \"c\");");
    assert_eq!(r.kind, TokenType::Bool);
    assert_eq!(r.number, 0);
}

#[test]
fn hex_parses_base_sixteen() {
    let r = eval("return hex(\"ff\");");
    assert_eq!(r.kind, TokenType::Int);
    assert_eq!(r.number, 255 * SCALE);
}

#[test]
fn hex_of_garbage_is_zero() {
    let r = eval("return hex(\"zz\");");
    assert_eq!(r.kind, TokenType::Int);
    assert_eq!(r.number, 0);
}

#[test]
fn rgb_packs_the_channels() {
    let r = eval("return rgb(1, 2, 3);");
    assert_eq!(r.kind, TokenType::Int);
    assert_eq!(r.number, ((1i64 << 16) | (2 << 8) | 3) * SCALE);
}

#[test]
fn type_names_the_kind() {
    let r = eval("return type(1);");
    assert_eq!(r.kind, TokenType::Str);
    assert_eq!(r.value, "Int");
    let r2 = eval("return type(none);");
    assert_eq!(r2.kind, TokenType::Str);
    assert_eq!(r2.value, "None");
}

#[test]
fn str_renders_numbers_and_booleans() {
    let r = eval("return str(3);");
    assert_eq!(r.kind, TokenType::Str);
    assert_eq!(r.value, "3");
    let r2 = eval("return str(2.5);");
    assert_eq!(r2.value, "2.5");
    let r3 = eval("return str(true);");
    assert_eq!(r3.value, "true");
}

#[test]
fn str_of_a_list_is_unsupported() {
    let r = eval("return str([1]);");
    assert_eq!(r.kind, TokenType::Unsupported);
}

#[test]
fn format_splices_positional_and_named() {
    let r = eval("name = \"sam\"; return format(\"{} and {name}\", \"one\");");
    assert_eq!(r.kind, TokenType::Str);
    assert_eq!(r.value, "one and sam");
}

#[test]
fn format_without_enough_arguments_is_index_error() {
    let r = eval("return format(\"{} {}\", \"one\");");
    assert_eq!(r.kind, TokenType::IndexError);
}

#[test]
fn format_of_an_undefined_name_is_undefined() {
    let r = eval("return format(\"{nope}\");");
    assert_eq!(r.kind, TokenType::Undefined);
}

#[test]
fn debug_renders_structure() {
    let r = eval("return debug([1, \"a\"]);");
    assert_eq!(r.kind, TokenType::Str);
    assert_eq!(r.value, "List[Int(1), Str(\"a\")]");
}

#[test]
fn randint_stays_inside_the_range() {
    for _ in 0..20 {
        let r = eval("return randint(2, 5);");
        assert_eq!(r.kind, TokenType::Int);
        assert!(r.number >= 2 * SCALE);
        assert!(r.number < 5 * SCALE);
        assert_eq!(r.number % SCALE, 0);
    }
}

#[test]
fn randint_fractional_keeps_the_fraction_range() {
    for _ in 0..20 {
        let r = eval("return randint(0, 1, true);");
        assert_eq!(r.kind, TokenType::Int);
        assert!(r.number >= 0);
        assert!(r.number < SCALE);
    }
}

#[test]
fn await_of_a_plain_value_is_type_error() {
    let r = eval("return await(1);");
    assert_eq!(r.kind, TokenType::TypeError);
}

#[test]
fn builtin_arity_errors_name_the_builtin() {
    let r = eval("return get([1]);");
    assert_eq!(r.kind, TokenType::TypeError);
    assert!(r.value.contains("get() takes 2 arguments"));
}
