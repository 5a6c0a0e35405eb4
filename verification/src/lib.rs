//! A small embeddable scripting language: a lexer, a recursive-descent
//! parser, and a tree-walking evaluator with lexical scoping, user-defined
//! and host-provided functions, and a fixed table of builtins. Programs are
//! short pieces of text handed in by an embedding application; the result of
//! a run is a single value, with every error carried as a value of the same
//! tagged type rather than as an unwound exception.
use vstd::prelude::*;

mod builtins;
mod host;
mod interpreter;
mod laws;
mod lexer;
mod numbers;
mod parser;
mod render;
mod scope;
mod value;

pub use builtins::call_builtin;
pub use builtins::get_builtins;
pub use builtins::print;
pub use host::HostBridge;
pub use host::NoHost;
pub use numbers::SCALE;
pub use interpreter::execute_ast;
pub use lexer::generate_tokens;
pub use parser::generate_ast;
pub use scope::get_function;
pub use scope::get_variable;
pub use value::AST;
pub use value::ASTType;
pub use value::Function;
pub use value::Scope;
pub use value::Token;
pub use value::TokenType;
pub use value::Variable;

use crate::builtins::builtin_stub;
use crate::interpreter::eval_stmts;
use crate::interpreter::pure_asts;
use crate::interpreter::pure_funs;
use crate::interpreter::pure_scope_v;
use crate::lexer::lex_spec;
use crate::parser::parse_spec;
use crate::value::tok_new;
use crate::value::FunV;
use crate::value::ScopeV;
use crate::value::TokV;

verus! {

/// The function table a run is seeded with: the caller's functions, the
/// builtin stubs, and the output builtins.
pub open spec fn seeded_functions(funs: Seq<FunV>) -> Seq<FunV> {
    funs + seq![
        builtin_stub("get"@),
        builtin_stub("len"@),
        builtin_stub("contains"@),
        builtin_stub("hex"@),
        builtin_stub("rgb"@),
        builtin_stub("randint"@),
        builtin_stub("format"@),
        builtin_stub("type"@),
        builtin_stub("str"@),
        builtin_stub("await"@),
        builtin_stub("print"@),
        builtin_stub("debug"@),
    ]
}

/// What one whole run computes: the source is tokenized and parsed, the
/// scope is seeded with the builtins, and the statements are evaluated
/// from depth zero.
pub open spec fn run_spec(code: Seq<char>, sc: ScopeV) -> (TokV, ScopeV) {
    let ast = parse_spec(lex_spec(code));
    let seeded = ScopeV { functions: seeded_functions(sc.functions), ..sc };
    eval_stmts(ast, seeded, tok_new(TokenType::Unknown), 0)
}

/// Runs a program: text in, one value out. The caller's scope supplies the
/// seed variables and functions and receives the program's bindings back.
/// For a program and seed scope inside the host-independent fragment the
/// result is exactly `run_spec` of the source text.
pub fn run<B: HostBridge>(code: &str, scope: &mut Scope, bridge: &mut B) -> (r: Token)
    ensures
        pure_asts(parse_spec(lex_spec(code@))) && pure_scope_v(old(scope)@) ==> ({
            let (sr, ss) = run_spec(code@, old(scope)@);
            r@ == sr && final(scope)@ == ss
        }),
{
    let tokens = generate_tokens(code);
    let ast = generate_ast(&tokens);
    let mut builtins = get_builtins();
    let ghost pre = scope@;
    let ghost oldrepr = scope.functions@;
    let ghost brepr = builtins@;
    scope.functions.append(&mut builtins);
    proof {
        crate::value::lemma_view_funs_concat(oldrepr, brepr);
    }
    scope.push_builtin("print");
    scope.push_builtin("debug");
    proof {
        assert(scope@.functions =~= seeded_functions(pre.functions));
        assert(scope@ =~= ScopeV { functions: seeded_functions(pre.functions), ..pre });
        if pure_asts(parse_spec(lex_spec(code@))) && pure_scope_v(pre) {
            crate::interpreter::lemma_pure_funs_all(pre.functions);
            crate::interpreter::lemma_pure_funs_all(scope@.functions);
            assert(pure_funs(scope@.functions)) by {
                assert forall|i: int| 0 <= i < scope@.functions.len() implies
                    crate::interpreter::pure_fun(#[trigger] scope@.functions[i]) by {
                    if i < pre.functions.len() {
                        assert(scope@.functions[i] == pre.functions[i]);
                    }
                }
            }
        }
    }
    execute_ast(&ast, scope, Option::None, 0, bridge)
}

} // verus!
