use femscript::generate_ast;
use femscript::generate_tokens;
use femscript::run;
use femscript::ASTType;
use femscript::HostBridge;
use femscript::NoHost;
use femscript::Scope;
use femscript::Token;
use femscript::TokenType;
use femscript::SCALE;

#[test]
fn tokenizes_operators_with_lookahead() {
    let toks = generate_tokens("+ += == = != ! >= > <= <");
    let kinds: Vec<TokenType> = toks.iter().map(|t| t.kind).collect();
    assert_eq!(
        kinds,
        vec![
            TokenType::Plus,
            TokenType::PlusEqual,
            TokenType::EqualTo,
            TokenType::Equal,
            TokenType::NotEqual,
            TokenType::Not,
            TokenType::GreaterEqual,
            TokenType::Greater,
            TokenType::LessEqual,
            TokenType::Less,
        ]
    );
}

#[test]
fn tokenizes_numbers_with_normalized_fraction() {
    let toks = generate_tokens("7 1.25 -2 -0.5");
    assert_eq!(toks.len(), 4);
    assert_eq!(toks[0].number, 7 * SCALE);
    assert_eq!(toks[1].number, SCALE + 250_000);
    assert_eq!(toks[2].number, -2 * SCALE);
    assert_eq!(toks[3].number, -500_000);
    for t in &toks {
        assert_eq!(t.kind, TokenType::Int);
    }
}

#[test]
fn tokenizes_keywords_and_identifiers() {
    let toks = generate_tokens("fn if else and or return import none zebra");
    let kinds: Vec<TokenType> = toks.iter().map(|t| t.kind).collect();
    assert_eq!(
        kinds,
        vec![
            TokenType::Func,
            TokenType::If,
            TokenType::Else,
            TokenType::And,
            TokenType::Or,
            TokenType::Return,
            TokenType::Import,
            TokenType::NoneValue,
            TokenType::Var,
        ]
    );
    assert_eq!(toks[8].value, "zebra");
}

#[test]
fn tokenizes_string_escapes() {
    let toks = generate_tokens("\"a\\nb\\tc\\\\d\\\"e\"");
    assert_eq!(toks.len(), 1);
    assert_eq!(toks[0].kind, TokenType::Str);
    assert_eq!(toks[0].value, "a\nb\tc\\d\"e");
}

#[test]
fn unknown_character_ends_the_stream() {
    let toks = generate_tokens("1 @ 2");
    assert_eq!(toks.len(), 2);
    assert_eq!(toks[1].kind, TokenType::Error);
    assert!(toks[1].value.contains("is not a valid character"));
}

#[test]
fn comment_is_tokenized_but_not_parsed() {
    let toks = generate_tokens("# note\n1;");
    assert_eq!(toks[0].kind, TokenType::Comment);
    let ast = generate_ast(&toks);
    assert_eq!(ast.len(), 1);
    assert_eq!(ast[0].kind, ASTType::Token);
    assert_eq!(ast[0].token.kind, TokenType::Int);
}

#[test]
fn comment_inside_a_group_produces_no_node() {
    let toks = generate_tokens("(# c\n);");
    let ast = generate_ast(&toks);
    assert_eq!(ast.len(), 1);
    assert_eq!(ast[0].token.kind, TokenType::List);
    assert_eq!(ast[0].children.len(), 0);
    let toks2 = generate_tokens("x = [1, # c\n2];");
    let ast2 = generate_ast(&toks2);
    let items = &ast2[0].children[0].children[0];
    assert_eq!(items.token.kind, TokenType::List);
    assert_eq!(items.children.len(), 2);
}

#[test]
fn parses_statements_by_kind() {
    let toks = generate_tokens("x = 1; if 1 == 1 { return 2; } fn f() { return 3; }");
    let ast = generate_ast(&toks);
    assert_eq!(ast.len(), 3);
    assert_eq!(ast[0].kind, ASTType::Token);
    assert_eq!(ast[0].children[0].kind, ASTType::Assign);
    assert_eq!(ast[1].kind, ASTType::Keyword);
    assert_eq!(ast[1].token.kind, TokenType::If);
    assert_eq!(ast[1].children.len(), 2);
    assert_eq!(ast[2].kind, ASTType::Keyword);
    assert_eq!(ast[2].token.kind, TokenType::Func);
    assert_eq!(ast[2].children.len(), 3);
}

#[test]
fn parses_nested_brackets_inside_calls() {
    let toks = generate_tokens("get([1, 2, 3], 1);");
    let ast = generate_ast(&toks);
    assert_eq!(ast.len(), 1);
    let call_args = &ast[0].children[0];
    assert_eq!(call_args.token.kind, TokenType::List);
    assert_eq!(call_args.children.len(), 2);
    assert_eq!(call_args.children[0].token.kind, TokenType::List);
    assert_eq!(call_args.children[0].children.len(), 3);
}

#[test]
fn unmatched_closer_is_an_error_node() {
    let toks = generate_tokens(") 1;");
    let ast = generate_ast(&toks);
    assert_eq!(ast[0].kind, ASTType::Error);
    assert_eq!(ast[0].token.kind, TokenType::SyntaxError);
}

#[test]
fn display_round_trips_scalar_literals() {
    let cases = vec![
        Token::new_int(3 * SCALE),
        Token::new_int(-2 * SCALE - 500_000),
        Token::new_bool("true".to_owned()),
        Token::new_bool("false".to_owned()),
        Token::new_none(),
        Token::new_string("a\nb".to_owned()),
    ];
    for t in cases {
        let text = t.to_display_string();
        let back = generate_tokens(&text);
        assert_eq!(back.len(), 1, "rendered `{}`", text);
        assert_eq!(back[0].kind, t.kind);
        assert_eq!(back[0].number, t.number);
        if t.kind == TokenType::Str {
            assert_eq!(back[0].value, t.value);
        }
    }
}

#[test]
fn display_renders_lists_bracketed() {
    let t = Token::new_list(vec![Token::new_int(SCALE), Token::new_string("a".to_owned())]);
    assert_eq!(t.to_display_string(), "[1, \"a\"]");
    let back = generate_tokens(&t.to_display_string());
    assert_eq!(back[0].kind, TokenType::LeftBracket);
    assert_eq!(back[1].number, SCALE);
    assert_eq!(back[2].kind, TokenType::Comma);
    assert_eq!(back[3].value, "a");
    assert_eq!(back[4].kind, TokenType::RightBracket);
}

struct RecordingHost {
    calls: Vec<String>,
}

impl HostBridge for RecordingHost {
    fn emit_line(&mut self, text: &String) {
        self.calls.push(format!("out:{}", text));
    }

    fn call_function(&mut self, _handle: u64, name: &String, _payload: &Token, _caller: &Scope) -> Token {
        self.calls.push(format!("fn:{}", name));
        Token::new_int(41 * SCALE)
    }

    fn call_method(&mut self, _hostref: u64, name: &String, _payload: &Token) -> Token {
        self.calls.push(format!("method:{}", name));
        Token::new_int(7 * SCALE)
    }

    fn await_value(&mut self, hostref: u64) -> Token {
        self.calls.push(format!("await:{}", hostref));
        Token::new_string("done".to_owned())
    }
}

#[test]
fn host_registered_function_goes_through_the_bridge() {
    let mut scope = Scope::new();
    scope.push_hostfn("fetch", 9);
    let mut host = RecordingHost { calls: Vec::new() };
    let r = run("return fetch();", &mut scope, &mut host);
    assert_eq!(r.kind, TokenType::Int);
    assert_eq!(r.number, 41 * SCALE);
    assert_eq!(host.calls, vec!["fn:fetch".to_string()]);
}

#[test]
fn host_object_methods_reject_reserved_names() {
    let mut scope = Scope::new();
    let mut obj = Token::new(TokenType::HostObject);
    obj.hostref = Some(3);
    scope.push_variable("thing", obj);
    let mut host = RecordingHost { calls: Vec::new() };
    let r = run("return thing.__class__();", &mut scope, &mut host);
    assert_eq!(r.kind, TokenType::Error);
    assert!(r.value.contains("not safe"));
    assert!(host.calls.is_empty());
}

#[test]
fn host_object_methods_reject_short_reserved_names() {
    let mut scope = Scope::new();
    let mut obj = Token::new(TokenType::HostObject);
    obj.hostref = Some(3);
    scope.push_variable("thing", obj);
    let mut host = RecordingHost { calls: Vec::new() };
    let r = run("return thing.___();", &mut scope, &mut host);
    assert_eq!(r.kind, TokenType::Error);
    assert!(r.value.contains("not safe"));
    assert!(host.calls.is_empty());
}

#[test]
fn host_object_method_call_is_forwarded() {
    let mut scope = Scope::new();
    let mut obj = Token::new(TokenType::HostObject);
    obj.hostref = Some(3);
    scope.push_variable("thing", obj);
    let mut host = RecordingHost { calls: Vec::new() };
    let r = run("return thing.poke();", &mut scope, &mut host);
    assert_eq!(r.kind, TokenType::Int);
    assert_eq!(r.number, 7 * SCALE);
    assert_eq!(host.calls, vec!["method:poke".to_string()]);
}

#[test]
fn await_of_a_host_value_resolves_through_the_bridge() {
    let mut scope = Scope::new();
    let mut obj = Token::new(TokenType::HostObject);
    obj.hostref = Some(11);
    scope.push_variable("pending", obj);
    let mut host = RecordingHost { calls: Vec::new() };
    let r = run("return await(pending);", &mut scope, &mut host);
    assert_eq!(r.kind, TokenType::Str);
    assert_eq!(r.value, "done");
    assert_eq!(host.calls, vec!["await:11".to_string()]);
}

#[test]
fn no_host_rejects_host_calls() {
    let mut scope = Scope::new();
    scope.push_hostfn("fetch", 9);
    let mut host = NoHost::new();
    let r = run("return fetch();", &mut scope, &mut host);
    assert_eq!(r.kind, TokenType::Error);
}
