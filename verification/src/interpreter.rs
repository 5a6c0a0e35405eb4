//! The evaluator: walks statement trees against a scope, threading an
//! ambient context value between siblings, dispatching functions, and
//! propagating the first error-class value it observes.
//!
//! The specification models the host-independent fragment exactly: for
//! a pure tree and a pure scope (no host objects, no host-registered
//! callables, no call of the sampling builtin) the evaluator's result and
//! final scope equal the mathematical evaluation. What a host call returns
//! is never assumed.
use vstd::prelude::*;

use crate::builtins::builtin_spec;
use crate::builtins::is_builtin_name;
use crate::numbers::dec_digits;
use crate::numbers::num_add_spec;
use crate::numbers::num_div_spec;
use crate::numbers::num_mul_spec;
use crate::numbers::num_rem_spec;
use crate::numbers::num_sub_spec;
use crate::numbers::tdiv;
use crate::numbers::SCALE;
use crate::scope::find_fun;
use crate::scope::find_var;
use crate::scope::lookup_var;
use crate::value::check_if_error;
use crate::value::is_error_kind;
use crate::value::is_error_tok;
use crate::value::kind_name_spec;
use crate::value::tok_bool;
use crate::value::tok_error;
use crate::value::tok_int;
use crate::value::tok_list;
use crate::value::tok_new;
use crate::value::tok_scope;
use crate::value::Token;
use crate::value::AST;
use crate::value::ASTType;
use crate::value::AstV;
use crate::value::FunV;
use crate::value::ScopeV;
use crate::value::TokenType;
use crate::value::TokV;
use crate::value::VarV;

verus! {

// ---------------------------------------------------------------------------
// Purity: the host-independent fragment
// ---------------------------------------------------------------------------

/// A value that carries no host object anywhere inside it.
pub open spec fn pure_tok(t: TokV) -> bool
    decreases t,
{
    &&& t.kind != TokenType::HostObject
    &&& t.hostref is None
    &&& pure_toks(t.list)
    &&& match t.scope {
        Option::Some(s) => pure_scope_v(s),
        Option::None => true,
    }
}

pub open spec fn pure_toks(s: Seq<TokV>) -> bool
    decreases s,
{
    s.len() == 0 || (pure_toks(s.drop_last()) && pure_tok(s.last()))
}

pub open spec fn pure_vars(s: Seq<VarV>) -> bool
    decreases s,
{
    s.len() == 0 || (pure_vars(s.drop_last()) && pure_tok(s.last().value))
}

pub open spec fn pure_fun(f: FunV) -> bool
    decreases f,
{
    &&& f.hostfn is None
    &&& match f.body {
        Option::Some(b) => pure_asts(b),
        Option::None => true,
    }
}

pub open spec fn pure_funs(s: Seq<FunV>) -> bool
    decreases s,
{
    s.len() == 0 || (pure_funs(s.drop_last()) && pure_fun(s.last()))
}

/// A scope whose variables and functions stay inside the host-independent
/// fragment.
pub open spec fn pure_scope_v(s: ScopeV) -> bool
    decreases s,
{
    pure_vars(s.variables) && pure_funs(s.functions)
}

/// A tree that neither carries a host value nor names the sampling
/// builtin.
pub open spec fn pure_ast(a: AstV) -> bool
    decreases a,
{
    &&& pure_tok(a.token)
    &&& !(a.token.kind == TokenType::Var && a.token.value == "randint"@)
    &&& pure_asts(a.children)
}

pub open spec fn pure_asts(s: Seq<AstV>) -> bool
    decreases s,
{
    s.len() == 0 || (pure_asts(s.drop_last()) && pure_ast(s.last()))
}

pub broadcast proof fn lemma_pure_toks_all(s: Seq<TokV>)
    ensures
        #[trigger] pure_toks(s) == (forall|i: int| 0 <= i < s.len() ==> pure_tok(#[trigger] s[i])),
    decreases s,
{
    if s.len() > 0 {
        lemma_pure_toks_all(s.drop_last());
        assert forall|i: int| 0 <= i < s.len() - 1 implies s.drop_last()[i] == s[i] by {}
        if pure_toks(s) {
            assert forall|i: int| 0 <= i < s.len() implies pure_tok(s[i]) by {
                if i < s.len() - 1 {
                    assert(s.drop_last()[i] == s[i]);
                } else {
                    assert(s.last() == s[i]);
                }
            }
        }
        if forall|i: int| 0 <= i < s.len() ==> pure_tok(#[trigger] s[i]) {
            assert(pure_tok(s.last()));
        }
    }
}

pub broadcast proof fn lemma_pure_vars_all(s: Seq<VarV>)
    ensures
        #[trigger] pure_vars(s) == (forall|i: int|
            0 <= i < s.len() ==> pure_tok(#[trigger] s[i].value)),
    decreases s,
{
    if s.len() > 0 {
        lemma_pure_vars_all(s.drop_last());
        if pure_vars(s) {
            assert forall|i: int| 0 <= i < s.len() implies pure_tok(s[i].value) by {
                if i < s.len() - 1 {
                    assert(s.drop_last()[i] == s[i]);
                } else {
                    assert(s.last() == s[i]);
                }
            }
        }
        if forall|i: int| 0 <= i < s.len() ==> pure_tok(#[trigger] s[i].value) {
            assert(pure_tok(s.last().value));
        }
    }
}

pub broadcast proof fn lemma_pure_funs_all(s: Seq<FunV>)
    ensures
        #[trigger] pure_funs(s) == (forall|i: int| 0 <= i < s.len() ==> pure_fun(#[trigger] s[i])),
    decreases s,
{
    if s.len() > 0 {
        lemma_pure_funs_all(s.drop_last());
        if pure_funs(s) {
            assert forall|i: int| 0 <= i < s.len() implies pure_fun(s[i]) by {
                if i < s.len() - 1 {
                    assert(s.drop_last()[i] == s[i]);
                } else {
                    assert(s.last() == s[i]);
                }
            }
        }
        if forall|i: int| 0 <= i < s.len() ==> pure_fun(#[trigger] s[i]) {
            assert(pure_fun(s.last()));
        }
    }
}

pub broadcast proof fn lemma_pure_asts_all(s: Seq<AstV>)
    ensures
        #[trigger] pure_asts(s) == (forall|i: int| 0 <= i < s.len() ==> pure_ast(#[trigger] s[i])),
    decreases s,
{
    if s.len() > 0 {
        lemma_pure_asts_all(s.drop_last());
        if pure_asts(s) {
            assert forall|i: int| 0 <= i < s.len() implies pure_ast(s[i]) by {
                if i < s.len() - 1 {
                    assert(s.drop_last()[i] == s[i]);
                } else {
                    assert(s.last() == s[i]);
                }
            }
        }
        if forall|i: int| 0 <= i < s.len() ==> pure_ast(#[trigger] s[i]) {
            assert(pure_ast(s.last()));
        }
    }
}

pub broadcast group group_pure_lemmas {
    lemma_pure_toks_all,
    lemma_pure_vars_all,
    lemma_pure_funs_all,
    lemma_pure_asts_all,
}

// ---------------------------------------------------------------------------
// Scope-operation helpers
// ---------------------------------------------------------------------------

/// Stores a value under a name in a variable list: the first existing
/// binding is overwritten, a missing name is appended.
pub open spec fn svars_store(vars: Seq<VarV>, name: Seq<char>, value: TokV) -> Seq<VarV> {
    match crate::scope::find_var_from(vars, name, 0) {
        Option::Some(i) => vars.update(i, VarV { name, value }),
        Option::None => vars.push(VarV { name, value }),
    }
}

/// Merges a function-local scope back into the caller: every local
/// variable whose name is no parameter overwrites or extends the caller's
/// bindings, in order.
pub open spec fn merge_vars(
    caller: Seq<VarV>,
    locals: Seq<VarV>,
    k: int,
    params: Seq<Seq<char>>,
) -> Seq<VarV>
    decreases locals.len() - k,
{
    if k < 0 || k >= locals.len() {
        caller
    } else {
        let v = locals[k];
        if params.contains(v.name) {
            merge_vars(caller, locals, k + 1, params)
        } else {
            merge_vars(svars_store(caller, v.name, v.value), locals, k + 1, params)
        }
    }
}

/// The builtin entries of a function table, in order.
pub open spec fn builtins_of(s: Seq<FunV>) -> Seq<FunV>
    decreases s,
{
    if s.len() == 0 {
        Seq::empty()
    } else {
        builtins_of(s.drop_last()) + (if s.last().builtin {
            seq![s.last()]
        } else {
            Seq::empty()
        })
    }
}

/// The variable list without the bindings whose names are listed.
pub open spec fn strip_names(vars: Seq<VarV>, names: Seq<Seq<char>>) -> Seq<VarV>
    decreases vars,
{
    if vars.len() == 0 {
        Seq::empty()
    } else {
        strip_names(vars.drop_last(), names) + (if names.contains(vars.last().name) {
            Seq::empty()
        } else {
            seq![vars.last()]
        })
    }
}

/// The text payloads of a list of token nodes: parameter names, borrow
/// names.
pub open spec fn token_names(s: Seq<AstV>) -> Seq<Seq<char>>
    decreases s,
{
    if s.len() == 0 {
        Seq::empty()
    } else {
        token_names(s.drop_last()).push(s.last().token.value)
    }
}

// ---------------------------------------------------------------------------
// String ordering
// ---------------------------------------------------------------------------

/// Lexicographic order on text, by character code.
pub open spec fn str_lt_from(a: Seq<char>, b: Seq<char>, i: int) -> bool
    decreases a.len() - i,
{
    if i < 0 || i >= b.len() {
        false
    } else if i >= a.len() {
        true
    } else if (a[i] as int) < (b[i] as int) {
        true
    } else if (a[i] as int) > (b[i] as int) {
        false
    } else {
        str_lt_from(a, b, i + 1)
    }
}

pub open spec fn str_lt(a: Seq<char>, b: Seq<char>) -> bool {
    str_lt_from(a, b, 0)
}

// ---------------------------------------------------------------------------
// Error values of the evaluator
// ---------------------------------------------------------------------------

pub open spec fn recursion_error() -> TokV {
    tok_error(TokenType::RecursionError, "Maximum recursion depth exceeded"@)
}

pub open spec fn undef_error(name: Seq<char>) -> TokV {
    tok_error(TokenType::Undefined, name + " is not defined"@)
}

pub open spec fn undef_var_error(name: Seq<char>) -> TokV {
    tok_error(TokenType::Undefined, "Variable '"@ + name + "' is not defined"@)
}

pub open spec fn index_error() -> TokV {
    tok_error(TokenType::IndexError, "list index out of range"@)
}

pub open spec fn fn_arity_error(name: Seq<char>, n: int) -> TokV {
    tok_error(TokenType::TypeError, name + "() takes "@ + dec_digits(n) + " arguments"@)
}

pub open spec fn assign_type_error(valk: TokenType, oldk: TokenType) -> TokV {
    tok_error(
        TokenType::TypeError,
        "Cannot assign "@ + kind_name_spec(valk) + " to "@ + kind_name_spec(oldk),
    )
}

pub open spec fn compare_error() -> TokV {
    tok_error(TokenType::TypeError, "Cannot compare types"@)
}

pub open spec fn outside_scope_error() -> TokV {
    tok_error(TokenType::SyntaxError, "Cannot assign to a variable outside of scope"@)
}

pub open spec fn unknown_op_error() -> TokV {
    tok_error(TokenType::SyntaxError, "Unknown operator"@)
}

pub open spec fn payload_error() -> TokV {
    tok_error(TokenType::SyntaxError, "Function payload must be list or scope"@)
}

pub open spec fn invalid_if_error() -> TokV {
    tok_error(TokenType::SyntaxError, "invalid if"@)
}

pub open spec fn invalid_fn_error() -> TokV {
    tok_error(TokenType::SyntaxError, "Invalid function definition"@)
}

pub open spec fn div_zero_error() -> TokV {
    tok_error(TokenType::Error, "division by zero"@)
}

pub open spec fn overflow_err() -> TokV {
    crate::builtins::overflow_error()
}

/// What a host interaction stands for in the model: the model never
/// constrains it, and the evaluator's exact contract excludes it.
pub open spec fn host_marker() -> TokV {
    tok_new(TokenType::Unknown)
}

/// A checked arithmetic outcome as a token: the numeric result, or the
/// matching error value.
pub open spec fn num_op_result(op: TokenType, a: int, b: int) -> TokV {
    let r = if op == TokenType::Plus || op == TokenType::PlusEqual {
        num_add_spec(a, b)
    } else if op == TokenType::Minus || op == TokenType::MinusEqual {
        num_sub_spec(a, b)
    } else if op == TokenType::Multiply || op == TokenType::MultiplyEqual {
        num_mul_spec(a, b)
    } else if op == TokenType::Divide || op == TokenType::DivideEqual {
        num_div_spec(a, b)
    } else {
        num_rem_spec(a, b)
    };
    match r {
        Option::Some(v) => tok_int(v),
        Option::None => {
            if (op == TokenType::Divide || op == TokenType::DivideEqual || op == TokenType::Modulo
                || op == TokenType::ModuloEqual) && b == 0 {
                div_zero_error()
            } else {
                overflow_err()
            }
        },
    }
}

// ---------------------------------------------------------------------------
// Tree size, the structural part of the termination measure
// ---------------------------------------------------------------------------

/// The combined size of the nodes from `k` on: one unit per node plus the
/// size of its subtrees.
pub open spec fn size_from(s: Seq<AstV>, k: int) -> nat
    decreases s, s.len() - k,
{
    if k < 0 || k >= s.len() {
        0
    } else {
        1 + size_from(s[k].children, 0) + size_from(s, k + 1)
    }
}

/// One unfolding step of the size measure, for the termination proofs of
/// the evaluation functions.
pub proof fn lemma_size_from_unfold(s: Seq<AstV>, k: int)
    requires
        0 <= k < s.len(),
    ensures
        size_from(s, k) == 1 + size_from(s[k].children, 0) + size_from(s, k + 1),
{
}

/// The remaining recursion allowance under the depth ceiling.
pub open spec fn budget(depth: int) -> int {
    if depth > 100 {
        0
    } else {
        101 - depth
    }
}

// ---------------------------------------------------------------------------
// The evaluation model
// ---------------------------------------------------------------------------

/// One whole statement-sequence evaluation: the depth ceiling, then the
/// statements in order starting from a fresh ambient result.
pub open spec fn eval_stmts(nodes: Seq<AstV>, sc: ScopeV, ctx: TokV, depth: int) -> (TokV, ScopeV)
    decreases budget(depth), size_from(nodes, 0), 3int,
{
    if depth > 100 {
        (recursion_error(), sc)
    } else {
        eval_seq(nodes, 0, sc, ctx, tok_new(TokenType::Unknown), depth)
    }
}

/// The statements from index `k` on: each node's evaluation either ends
/// the sequence (an error, a `return`, a member access) or hands the next
/// node a new ambient result, context and scope.
pub open spec fn eval_seq(
    nodes: Seq<AstV>,
    k: int,
    sc: ScopeV,
    ctx: TokV,
    res: TokV,
    depth: int,
) -> (TokV, ScopeV)
    decreases budget(depth), size_from(nodes, k), 2int,
        via eval_seq_decreases
{
    if k < 0 || k >= nodes.len() || depth > 100 {
        (res, sc)
    } else {
        let node = nodes[k];
        match node.kind {
            ASTType::Error => (node.token, sc),
            ASTType::Block => {
                if ctx.kind == TokenType::Func || ctx.kind == TokenType::If {
                    let (r2, sc2) = eval_stmts(node.children, sc, node.token, depth);
                    if is_error_tok(r2) {
                        (r2, sc2)
                    } else {
                        eval_seq(nodes, k + 1, sc2, ctx, r2, depth)
                    }
                } else {
                    eval_bare_block(nodes, k, sc, ctx, res, depth)
                }
            },
            ASTType::Token => eval_token_node(nodes, k, sc, ctx, res, depth),
            ASTType::Assign => {
                // the right-hand side gets a fresh context, so that a bare
                // number stays a literal instead of becoming a list index
                let (val, sc2) = eval_stmts(node.children, sc, tok_new(TokenType::Unknown), depth);
                if is_error_tok(val) {
                    (val, sc2)
                } else {
                    match find_var(sc2, ctx.value) {
                        Option::Some(i) => {
                            let old0 = sc2.variables[i].value;
                            let op = node.token.kind;
                            if op == TokenType::Equal {
                                let sc3 = ScopeV {
                                    variables: sc2.variables.update(
                                        i,
                                        VarV { name: sc2.variables[i].name, value: val },
                                    ),
                                    ..sc2
                                };
                                eval_seq(nodes, k + 1, sc3, ctx, res, depth)
                            } else if is_compound_assign(op) {
                                if old0.kind != val.kind && old0.kind != TokenType::List {
                                    (assign_type_error(val.kind, old0.kind), sc2)
                                } else if old0.kind == TokenType::Int || old0.kind
                                    == TokenType::Bool {
                                    let nr = num_op_result(op, old0.number, val.number);
                                    if is_error_tok(nr) {
                                        (nr, sc2)
                                    } else {
                                        let sc3 = ScopeV {
                                            variables: sc2.variables.update(
                                                i,
                                                VarV {
                                                    name: sc2.variables[i].name,
                                                    value: TokV { number: nr.number, ..old0 },
                                                },
                                            ),
                                            ..sc2
                                        };
                                        eval_seq(nodes, k + 1, sc3, ctx, res, depth)
                                    }
                                } else if old0.kind == TokenType::Str {
                                    if op == TokenType::PlusEqual {
                                        let sc3 = ScopeV {
                                            variables: sc2.variables.update(
                                                i,
                                                VarV {
                                                    name: sc2.variables[i].name,
                                                    value: TokV {
                                                        value: old0.value + val.value,
                                                        ..old0
                                                    },
                                                },
                                            ),
                                            ..sc2
                                        };
                                        eval_seq(nodes, k + 1, sc3, ctx, res, depth)
                                    } else {
                                        (assign_type_error(val.kind, old0.kind), sc2)
                                    }
                                } else if old0.kind == TokenType::List {
                                    if op == TokenType::PlusEqual {
                                        let sc3 = ScopeV {
                                            variables: sc2.variables.update(
                                                i,
                                                VarV {
                                                    name: sc2.variables[i].name,
                                                    value: TokV {
                                                        list: old0.list.push(val),
                                                        ..old0
                                                    },
                                                },
                                            ),
                                            ..sc2
                                        };
                                        eval_seq(nodes, k + 1, sc3, ctx, res, depth)
                                    } else {
                                        (assign_type_error(val.kind, old0.kind), sc2)
                                    }
                                } else {
                                    (assign_type_error(val.kind, old0.kind), sc2)
                                }
                            } else {
                                (assign_type_error(val.kind, old0.kind), sc2)
                            }
                        },
                        Option::None => {
                            if res.kind == TokenType::ScopeValue {
                                eval_seq(nodes, k + 1, sc2, ctx, res, depth)
                            } else {
                                let sc3 = ScopeV {
                                    variables: sc2.variables.push(
                                        VarV { name: ctx.value, value: val },
                                    ),
                                    ..sc2
                                };
                                eval_seq(nodes, k + 1, sc3, ctx, res, depth)
                            }
                        },
                    }
                }
            },
            ASTType::Expression => {
                let looked = lookup_var(sc, ctx.value);
                if looked is None && ctx.kind == TokenType::Var {
                    (outside_scope_error(), sc)
                } else {
                    let ctx2 = match looked {
                        Option::Some(v) => v,
                        Option::None => ctx,
                    };
                    let base = tok_int(ctx2.number);
                    let (cres, sc2) = eval_stmts(node.children, sc, base, depth);
                    if is_error_tok(cres) {
                        (cres, sc2)
                    } else {
                        let op = node.token.kind;
                        let opres = expr_op_result(op, ctx2, cres);
                        if is_error_tok(opres) {
                            (opres, sc2)
                        } else {
                            eval_seq(nodes, k + 1, sc2, ctx2, opres, depth)
                        }
                    }
                }
            },
            ASTType::Keyword => {
                let kw = node.token.kind;
                if kw == TokenType::If {
                    if node.children.len() < 2 {
                        (invalid_if_error(), sc)
                    } else {
                        let (cond, sc2) = eval_stmts(
                            nodes[k].children[0].children,
                            sc,
                            tok_new(TokenType::If),
                            depth,
                        );
                        if is_error_tok(cond) {
                            (cond, sc2)
                        } else if cond.number == SCALE as int {
                            let (r2, sc3) = eval_stmts(
                                nodes[k].children[1].children,
                                sc2,
                                tok_new(TokenType::If),
                                depth,
                            );
                            if is_error_tok(r2) {
                                (r2, sc3)
                            } else {
                                eval_seq(nodes, k + 1, sc3, ctx, r2, depth)
                            }
                        } else if node.children.len() == 3 {
                            let (r2, sc3) = eval_stmts(
                                nodes[k].children[2].children,
                                sc2,
                                tok_new(TokenType::If),
                                depth,
                            );
                            if is_error_tok(r2) {
                                (r2, sc3)
                            } else {
                                eval_seq(nodes, k + 1, sc3, ctx, r2, depth)
                            }
                        } else {
                            eval_seq(nodes, k + 1, sc2, ctx, res, depth)
                        }
                    }
                } else if kw == TokenType::Func {
                    if node.children.len() != 3 {
                        (invalid_fn_error(), sc)
                    } else {
                        let f = FunV {
                            name: node.children[0].token.value,
                            args: token_names(node.children[1].children),
                            body: Option::Some(node.children[2].children),
                            builtin: false,
                            hostfn: Option::None,
                        };
                        let sc2 = ScopeV { functions: sc.functions.push(f), ..sc };
                        eval_seq(nodes, k + 1, sc2, ctx, res, depth)
                    }
                } else if kw == TokenType::Return {
                    let (r2, sc2) = eval_stmts(
                        node.children,
                        sc,
                        tok_new(TokenType::Unknown),
                        depth,
                    );
                    (r2, sc2)
                } else {
                    eval_seq(nodes, k + 1, sc, ctx, res, depth)
                }
            },
        }
    }
}

pub open spec fn is_compound_assign(op: TokenType) -> bool {
    ||| op == TokenType::PlusEqual
    ||| op == TokenType::MinusEqual
    ||| op == TokenType::MultiplyEqual
    ||| op == TokenType::DivideEqual
    ||| op == TokenType::ModuloEqual
}

/// The value of a binary or unary operator applied to the resolved left
/// context and the evaluated right operand.
pub open spec fn expr_op_result(op: TokenType, left: TokV, right: TokV) -> TokV {
    if op == TokenType::Plus || op == TokenType::Minus || op == TokenType::Multiply || op
        == TokenType::Divide || op == TokenType::Modulo {
        num_op_result(op, left.number, right.number)
    } else if op == TokenType::EqualTo || op == TokenType::NotEqual || op == TokenType::Greater
        || op == TokenType::Less || op == TokenType::GreaterEqual || op == TokenType::LessEqual {
        if left.kind != right.kind {
            compare_error()
        } else if left.kind == TokenType::Int || left.kind == TokenType::Bool {
            tok_bool(num_compare(op, left.number, right.number))
        } else if left.kind == TokenType::Str {
            tok_bool(text_compare(op, left.value, right.value))
        } else {
            compare_error()
        }
    } else if op == TokenType::Not {
        if right.kind == TokenType::Int || right.kind == TokenType::Bool {
            tok_bool(right.number == 0)
        } else if right.kind == TokenType::Str {
            tok_bool(right.value.len() == 0)
        } else {
            compare_error()
        }
    } else if op == TokenType::And {
        tok_bool(left.number != 0 && right.number != 0)
    } else if op == TokenType::Or {
        tok_bool(left.number != 0 || right.number != 0)
    } else {
        unknown_op_error()
    }
}

pub open spec fn num_compare(op: TokenType, a: int, b: int) -> bool {
    if op == TokenType::EqualTo {
        a == b
    } else if op == TokenType::NotEqual {
        a != b
    } else if op == TokenType::Greater {
        a > b
    } else if op == TokenType::Less {
        a < b
    } else if op == TokenType::GreaterEqual {
        a >= b
    } else {
        a <= b
    }
}

pub open spec fn text_compare(op: TokenType, a: Seq<char>, b: Seq<char>) -> bool {
    if op == TokenType::EqualTo {
        a == b
    } else if op == TokenType::NotEqual {
        a != b
    } else if op == TokenType::Greater {
        str_lt(b, a)
    } else if op == TokenType::Less {
        str_lt(a, b)
    } else if op == TokenType::GreaterEqual {
        !str_lt(a, b)
    } else {
        !str_lt(b, a)
    }
}

/// A bare block: a fresh child scope receives copies of the borrowed
/// variables and the builtin stubs, the body runs inside it, and the body's
/// namespace (with the borrowed copies stripped) becomes the result.
pub open spec fn eval_bare_block(
    nodes: Seq<AstV>,
    k: int,
    sc: ScopeV,
    ctx: TokV,
    res: TokV,
    depth: int,
) -> (TokV, ScopeV)
    decreases budget(depth), size_from(nodes, k), 1int,
        via eval_bare_block_decreases
{
    if !(0 <= k < nodes.len()) || depth > 100 {
        (res, sc)
    } else {
        let node = nodes[k];
        let borrowing = node.children.len() > 0 && node.children[0].token.value == "borrow"@;
        let names: Seq<Seq<char>> = if borrowing && node.children[0].children.len() > 0 {
            token_names(node.children[0].children[0].children)
        } else {
            Seq::empty()
        };
        match borrowed_values(sc, names, 0) {
            Option::None => (undef_error(missing_name(sc, names, 0)), sc),
            Option::Some(borrowed) => {
                let block_scope = ScopeV {
                    variables: borrowed,
                    functions: builtins_of(sc.functions),
                };
                let start: int = if borrowing {
                    1
                } else {
                    0
                };
                let (rb, bsc) = eval_seq(
                    node.children,
                    start,
                    block_scope,
                    tok_new(TokenType::Unknown),
                    tok_new(TokenType::Unknown),
                    depth,
                );
                if is_error_tok(rb) {
                    (rb, sc)
                } else {
                    let wrapped = tok_scope(
                        ScopeV { variables: strip_names(bsc.variables, names), ..bsc },
                    );
                    eval_seq(nodes, k + 1, sc, ctx, wrapped, depth)
                }
            },
        }
    }
}

/// A `Token`-variant node: literals, lists, identifiers and member
/// separators, with the context-driven dispatch that identifiers perform.
pub open spec fn eval_token_node(
    nodes: Seq<AstV>,
    k: int,
    sc: ScopeV,
    ctx: TokV,
    res: TokV,
    depth: int,
) -> (TokV, ScopeV)
    decreases budget(depth), size_from(nodes, k), 1int,
{
    if !(0 <= k < nodes.len()) || depth > 100 {
        (res, sc)
    } else {
        let node = nodes[k];
        let t = node.token;
        if is_error_kind(t.kind) {
            (t, sc)
        } else if t.kind == TokenType::Int || t.kind == TokenType::Str || t.kind == TokenType::Bool
            || t.kind == TokenType::NoneValue {
            let r0 = if ctx.kind == TokenType::Var && t.kind == TokenType::Int {
                match lookup_var(sc, ctx.value) {
                    Option::Some(val) => {
                        if val.kind == TokenType::List {
                            let idx0 = tdiv(t.number, SCALE as int);
                            let idx = if idx0 < 0 {
                                idx0 + val.list.len()
                            } else {
                                idx0
                            };
                            if idx < 0 || idx >= val.list.len() {
                                index_error()
                            } else {
                                val.list[idx]
                            }
                        } else {
                            t
                        }
                    },
                    Option::None => t,
                }
            } else {
                t
            };
            if is_error_tok(r0) {
                (r0, sc)
            } else if node.children.len() == 0 {
                eval_seq(nodes, k + 1, sc, ctx, r0, depth)
            } else {
                let (r2, sc2) = eval_stmts(node.children, sc, r0, depth);
                if is_error_tok(r2) {
                    (r2, sc2)
                } else {
                    eval_seq(nodes, k + 1, sc2, ctx, r2, depth)
                }
            }
        } else if t.kind == TokenType::List {
            if node.children.len() == 0 {
                eval_seq(nodes, k + 1, sc, ctx, t, depth)
            } else {
                let (rl, sc2) = eval_list_items(node.children, 0, sc, t, Seq::empty(), depth);
                if is_error_tok(rl) {
                    (rl, sc2)
                } else {
                    eval_seq(nodes, k + 1, sc2, ctx, rl, depth)
                }
            }
        } else if t.kind == TokenType::Var {
            eval_var_node(nodes, k, sc, ctx, res, depth)
        } else if t.kind == TokenType::Dot {
            let (r2, sc2) = eval_stmts(node.children, sc, ctx, depth);
            if is_error_tok(r2) {
                (r2, sc2)
            } else {
                eval_seq(nodes, k + 1, sc2, ctx, r2, depth)
            }
        } else {
            eval_seq(nodes, k + 1, sc, ctx, t, depth)
        }
    }
}

/// The elements of a list literal, each evaluated independently with the
/// list token as context.
pub open spec fn eval_list_items(
    children: Seq<AstV>,
    k: int,
    sc: ScopeV,
    parent: TokV,
    acc: Seq<TokV>,
    depth: int,
) -> (TokV, ScopeV)
    decreases budget(depth), size_from(children, k), 4int,
        via eval_list_items_decreases
{
    if k < 0 || k >= children.len() || depth > 100 {
        (tok_list(acc), sc)
    } else {
        let (cr, sc2) = eval_stmts(seq![children[k]], sc, parent, depth);
        if is_error_tok(cr) {
            (cr, sc2)
        } else {
            eval_list_items(children, k + 1, sc2, parent, acc.push(cr), depth)
        }
    }
}

/// Identifier resolution: a context that resolves to a host object or a
/// namespace dispatches a member access; otherwise the name is looked up
/// among the variables, then the functions; an unresolved name is an
/// error unless an assignment follows, which declares it.
pub open spec fn eval_var_node(
    nodes: Seq<AstV>,
    k: int,
    sc: ScopeV,
    ctx: TokV,
    res: TokV,
    depth: int,
) -> (TokV, ScopeV)
    decreases budget(depth), size_from(nodes, k), 0int,
{
    if !(0 <= k < nodes.len()) || depth > 100 {
        (res, sc)
    } else {
        let node = nodes[k];
        let name = node.token.value;
        if ctx.kind != TokenType::Unknown && (match lookup_var(sc, ctx.value) {
            Option::Some(_) => true,
            Option::None => ctx.kind == TokenType::ScopeValue,
        }) {
            match lookup_var(sc, ctx.value) {
                Option::Some(ctxval) => {
                    if ctxval.kind == TokenType::HostObject {
                        (host_marker(), sc)
                    } else if ctxval.kind == TokenType::ScopeValue {
                        match ctxval.scope {
                            Option::Some(inner) => match lookup_var(inner, name) {
                                Option::Some(member) => {
                                    if node.children.len() == 0 {
                                        (member, sc)
                                    } else {
                                        let (r2, isc) = eval_stmts(
                                            node.children,
                                            inner,
                                            node.token,
                                            depth,
                                        );
                                        (r2, sc)
                                    }
                                },
                                Option::None => (undef_error(name), sc),
                            },
                            Option::None => (undef_error(name), sc),
                        }
                    } else {
                        (undef_error(ctx.value), sc)
                    }
                },
                Option::None => {
                    // the context is itself a namespace value
                    match ctx.scope {
                        Option::Some(inner) => match lookup_var(inner, name) {
                            Option::Some(member) => {
                                if node.children.len() == 0 {
                                    (member, sc)
                                } else {
                                    eval_stmts(node.children, sc, member, depth)
                                }
                            },
                            Option::None => (undef_error(name), sc),
                        },
                        Option::None => (undef_error(name), sc),
                    }
                },
            }
        } else {
            match lookup_var(sc, name) {
                Option::Some(val) => {
                    if node.children.len() == 0 {
                        eval_seq(nodes, k + 1, sc, ctx, val, depth)
                    } else {
                        let (r2, sc2) = eval_stmts(node.children, sc, node.token, depth);
                        if is_error_tok(r2) {
                            (r2, sc2)
                        } else {
                            eval_seq(nodes, k + 1, sc2, ctx, r2, depth)
                        }
                    }
                },
                Option::None => {
                    match find_fun(sc, name) {
                        Option::Some(fi) => {
                            let f = sc.functions[fi];
                            let (args_res, sc2) = eval_stmts(node.children, sc, node.token, depth);
                            if is_error_tok(args_res) {
                                (args_res, sc2)
                            } else {
                                let args = args_res.list;
                                match f.body {
                                    Option::Some(body) => {
                                        if args.len() != f.args.len() {
                                            (fn_arity_error(f.name, f.args.len() as int), sc2)
                                        } else {
                                            let fscope = ScopeV {
                                                variables: sc2.variables + bindings_of(
                                                    f.args,
                                                    args,
                                                    0,
                                                ),
                                                functions: sc2.functions,
                                            };
                                            let (rb, fsc) = eval_stmts(
                                                body,
                                                fscope,
                                                tok_new(TokenType::Func),
                                                depth + 1,
                                            );
                                            if is_error_tok(rb) {
                                                (rb, sc2)
                                            } else {
                                                let merged = ScopeV {
                                                    variables: merge_vars(
                                                        sc2.variables,
                                                        fsc.variables,
                                                        0,
                                                        f.args,
                                                    ),
                                                    ..sc2
                                                };
                                                eval_seq(nodes, k + 1, merged, ctx, rb, depth)
                                            }
                                        }
                                    },
                                    Option::None => {
                                        if f.hostfn is Some {
                                            if args_res.kind != TokenType::List && args_res.kind
                                                != TokenType::ScopeValue {
                                                (payload_error(), sc2)
                                            } else {
                                                (host_marker(), sc2)
                                            }
                                        } else if is_builtin_name(f.name) {
                                            let br = builtin_spec(f.name, args, sc2);
                                            if is_error_tok(br) {
                                                (br, sc2)
                                            } else {
                                                eval_seq(nodes, k + 1, sc2, ctx, br, depth)
                                            }
                                        } else {
                                            eval_seq(nodes, k + 1, sc2, ctx, res, depth)
                                        }
                                    },
                                }
                            }
                        },
                        Option::None => {
                            if node.children.len() == 0 {
                                (undef_var_error(name), sc)
                            } else if nodes[k].children[0].kind != ASTType::Assign {
                                (undef_var_error(name), sc)
                            } else {
                                let (r2, sc2) = eval_stmts(node.children, sc, node.token, depth);
                                if is_error_tok(r2) {
                                    (r2, sc2)
                                } else {
                                    eval_seq(nodes, k + 1, sc2, ctx, r2, depth)
                                }
                            }
                        },
                    }
                },
            }
        }
    }
}

#[via_fn]
proof fn eval_seq_decreases(
    nodes: Seq<AstV>,
    k: int,
    sc: ScopeV,
    ctx: TokV,
    res: TokV,
    depth: int,
) {
    if 0 <= k < nodes.len() {
        lemma_size_from_unfold(nodes, k);
        let children = nodes[k].children;
        if children.len() > 0 {
            lemma_size_from_unfold(children, 0);
            if children.len() > 1 {
                lemma_size_from_unfold(children, 1);
                if children.len() > 2 {
                    lemma_size_from_unfold(children, 2);
                }
            }
        }
    }
}

#[via_fn]
proof fn eval_list_items_decreases(
    children: Seq<AstV>,
    k: int,
    sc: ScopeV,
    parent: TokV,
    acc: Seq<TokV>,
    depth: int,
) {
    if 0 <= k < children.len() {
        lemma_size_from_unfold(children, k);
        lemma_size_from_unfold(seq![children[k]], 0);
    }
}

/// The parameter bindings of a call, in order.
pub open spec fn bindings_of(params: Seq<Seq<char>>, args: Seq<TokV>, k: int) -> Seq<VarV>
    decreases params.len() - k,
{
    if k < 0 || k >= params.len() || k >= args.len() {
        Seq::empty()
    } else {
        seq![VarV { name: params[k], value: args[k] }] + bindings_of(params, args, k + 1)
    }
}

#[via_fn]
proof fn eval_bare_block_decreases(
    nodes: Seq<AstV>,
    k: int,
    sc: ScopeV,
    ctx: TokV,
    res: TokV,
    depth: int,
) {
    if 0 <= k < nodes.len() {
        lemma_size_from_unfold(nodes, k);
        let children = nodes[k].children;
        if children.len() > 0 {
            lemma_size_from_unfold(children, 0);
        }
    }
}

/// The copies of the named variables taken from the enclosing scope, in
/// order; `None` when some name is not bound.
pub open spec fn borrowed_values(sc: ScopeV, names: Seq<Seq<char>>, k: int) -> Option<Seq<VarV>>
    decreases names.len() - k,
{
    if k < 0 || k >= names.len() {
        Option::Some(Seq::empty())
    } else {
        match lookup_var(sc, names[k]) {
            Option::Some(v) => match borrowed_values(sc, names, k + 1) {
                Option::Some(rest) => Option::Some(
                    seq![VarV { name: names[k], value: v }] + rest,
                ),
                Option::None => Option::None,
            },
            Option::None => Option::None,
        }
    }
}

/// The first name in the list that the scope does not bind.
pub open spec fn missing_name(sc: ScopeV, names: Seq<Seq<char>>, k: int) -> Seq<char>
    decreases names.len() - k,
{
    if k < 0 || k >= names.len() {
        Seq::empty()
    } else if lookup_var(sc, names[k]) is None {
        names[k]
    } else {
        missing_name(sc, names, k + 1)
    }
}

// ---------------------------------------------------------------------------
// Purity is preserved by evaluation
// ---------------------------------------------------------------------------

pub proof fn lemma_lookup_pure(sc: ScopeV, name: Seq<char>)
    requires
        pure_scope_v(sc),
    ensures
        match lookup_var(sc, name) {
            Option::Some(v) => pure_tok(v),
            Option::None => true,
        },
{
    broadcast use group_pure_lemmas;

    crate::scope::lemma_find_var_bound(sc.variables, name, 0);
    assert(pure_vars(sc.variables));
    lemma_pure_vars_all(sc.variables);
    if find_var(sc, name) is Some {
        let i = find_var(sc, name)->0;
        assert(pure_tok(sc.variables[i].value));
    }
}

pub proof fn lemma_store_pure(vars: Seq<VarV>, name: Seq<char>, val: TokV)
    requires
        pure_vars(vars),
        pure_tok(val),
    ensures
        pure_vars(svars_store(vars, name, val)),
{
    broadcast use group_pure_lemmas;

    crate::scope::lemma_find_var_bound(vars, name, 0);
}

pub proof fn lemma_merge_pure(
    caller: Seq<VarV>,
    locals: Seq<VarV>,
    k: int,
    params: Seq<Seq<char>>,
)
    requires
        pure_vars(caller),
        pure_vars(locals),
    ensures
        pure_vars(merge_vars(caller, locals, k, params)),
    decreases locals.len() - k,
{
    broadcast use group_pure_lemmas;

    if 0 <= k < locals.len() {
        let v = locals[k];
        if params.contains(v.name) {
            lemma_merge_pure(caller, locals, k + 1, params);
        } else {
            lemma_store_pure(caller, v.name, v.value);
            lemma_merge_pure(svars_store(caller, v.name, v.value), locals, k + 1, params);
        }
    }
}

pub proof fn lemma_builtins_of_pure(s: Seq<FunV>)
    requires
        pure_funs(s),
    ensures
        pure_funs(builtins_of(s)),
    decreases s,
{
    broadcast use group_pure_lemmas;

    if s.len() > 0 {
        lemma_builtins_of_pure(s.drop_last());
    }
}

pub proof fn lemma_strip_pure(vars: Seq<VarV>, names: Seq<Seq<char>>)
    requires
        pure_vars(vars),
    ensures
        pure_vars(strip_names(vars, names)),
    decreases vars,
{
    broadcast use group_pure_lemmas;

    if vars.len() > 0 {
        lemma_strip_pure(vars.drop_last(), names);
    }
}

pub proof fn lemma_borrowed_pure(sc: ScopeV, names: Seq<Seq<char>>, k: int)
    requires
        pure_scope_v(sc),
    ensures
        match borrowed_values(sc, names, k) {
            Option::Some(vars) => pure_vars(vars),
            Option::None => true,
        },
    decreases names.len() - k,
{
    broadcast use group_pure_lemmas;

    if 0 <= k < names.len() {
        lemma_lookup_pure(sc, names[k]);
        lemma_borrowed_pure(sc, names, k + 1);
    }
}

pub proof fn lemma_bindings_pure(params: Seq<Seq<char>>, args: Seq<TokV>, k: int)
    requires
        pure_toks(args),
    ensures
        pure_vars(bindings_of(params, args, k)),
    decreases params.len() - k,
{
    broadcast use group_pure_lemmas;

    if 0 <= k < params.len() && k < args.len() {
        lemma_bindings_pure(params, args, k + 1);
    }
}

pub proof fn lemma_format_walk_pure(
    tpl: Seq<char>,
    i: int,
    args: Seq<TokV>,
    idx: int,
    sc: ScopeV,
    acc: Seq<char>,
)
    ensures
        pure_tok(crate::builtins::format_walk(tpl, i, args, idx, sc, acc)),
    decreases tpl.len() - i,
{
    broadcast use group_pure_lemmas;

    if 0 <= i < tpl.len() {
        if tpl[i] != '{' {
            lemma_format_walk_pure(tpl, i + 1, args, idx, sc, acc.push(tpl[i]));
        } else if i + 1 < tpl.len() {
            if tpl[i + 1] == '}' {
                if idx < args.len() && args[idx].kind == TokenType::Str {
                    lemma_format_walk_pure(tpl, i + 2, args, idx + 1, sc, acc + args[idx].value);
                }
            } else {
                match crate::builtins::find_close(tpl, i + 1) {
                    Option::Some(kk) => {
                        if i + 1 <= kk < tpl.len() {
                            let nm = tpl.subrange(i + 1, kk);
                            match lookup_var(sc, nm) {
                                Option::Some(v) => {
                                    if v.kind == TokenType::Str {
                                        lemma_format_walk_pure(
                                            tpl,
                                            kk + 1,
                                            args,
                                            idx,
                                            sc,
                                            acc + v.value,
                                        );
                                    }
                                },
                                Option::None => {},
                            }
                        }
                    },
                    Option::None => {},
                }
            }
        }
    }
}

pub proof fn lemma_builtin_spec_pure(name: Seq<char>, args: Seq<TokV>, sc: ScopeV)
    requires
        pure_toks(args),
    ensures
        pure_tok(builtin_spec(name, args, sc)),
{
    broadcast use group_pure_lemmas;

    reveal_strlit("print");
    reveal_strlit("debug");
    reveal_strlit("get");
    reveal_strlit("len");
    reveal_strlit("contains");
    reveal_strlit("hex");
    reveal_strlit("rgb");
    reveal_strlit("randint");
    reveal_strlit("format");
    reveal_strlit("type");
    reveal_strlit("str");
    reveal_strlit("await");
    if name == "get"@ {
        if args.len() == 2 && args[0].kind == TokenType::List && args[1].kind == TokenType::Int {
            let idx = tdiv(args[1].number, SCALE as int);
            if 0 <= idx < args[0].list.len() {
                lemma_pure_toks_all(args);
                assert(pure_tok(args[0]));
                assert(pure_toks(args[0].list));
                lemma_pure_toks_all(args[0].list);
                assert(pure_tok(args[0].list[idx]));
            }
        }
    } else if name == "str"@ {
        if args.len() > 0 {
            assert(pure_tok(args[0]));
        }
    } else if name == "format"@ {
        if args.len() > 0 {
            lemma_format_walk_pure(args[0].value, 0, args, 1, sc, Seq::empty());
        }
    }
}

/// A token with empty payloads is pure.
pub proof fn lemma_fresh_pure(t: TokV)
    requires
        t.list.len() == 0,
        t.scope is None,
        t.hostref is None,
        t.kind != TokenType::HostObject,
    ensures
        pure_tok(t),
{
    assert(pure_toks(t.list));
}

pub proof fn lemma_update_var_pure(vars: Seq<VarV>, i: int, v: VarV)
    requires
        pure_vars(vars),
        0 <= i < vars.len(),
        pure_tok(v.value),
    ensures
        pure_vars(vars.update(i, v)),
{
    lemma_pure_vars_all(vars);
    lemma_pure_vars_all(vars.update(i, v));
    assert forall|j: int| 0 <= j < vars.update(i, v).len() implies pure_tok(
        #[trigger] vars.update(i, v)[j].value,
    ) by {
        if j != i {
            assert(vars.update(i, v)[j] == vars[j]);
        }
    }
}

pub proof fn lemma_push_var_pure(vars: Seq<VarV>, v: VarV)
    requires
        pure_vars(vars),
        pure_tok(v.value),
    ensures
        pure_vars(vars.push(v)),
{
    assert(vars.push(v).drop_last() =~= vars);
}

pub proof fn lemma_push_fun_pure(funs: Seq<FunV>, f: FunV)
    requires
        pure_funs(funs),
        pure_fun(f),
    ensures
        pure_funs(funs.push(f)),
{
    assert(funs.push(f).drop_last() =~= funs);
}

pub proof fn lemma_push_tok_pure(toks: Seq<TokV>, t: TokV)
    requires
        pure_toks(toks),
        pure_tok(t),
    ensures
        pure_toks(toks.push(t)),
{
    assert(toks.push(t).drop_last() =~= toks);
}

pub proof fn lemma_concat_vars_pure(a: Seq<VarV>, b: Seq<VarV>)
    requires
        pure_vars(a),
        pure_vars(b),
    ensures
        pure_vars(a + b),
{
    lemma_pure_vars_all(a);
    lemma_pure_vars_all(b);
    lemma_pure_vars_all(a + b);
    assert forall|j: int| 0 <= j < (a + b).len() implies pure_tok(#[trigger] (a + b)[j].value) by {
        if j < a.len() {
            assert((a + b)[j] == a[j]);
        } else {
            assert((a + b)[j] == b[j - a.len()]);
        }
    }
}

/// Evaluating a pure statement sequence in a pure scope gives a pure
/// result and leaves a pure scope.
pub proof fn lemma_eval_stmts_pure(nodes: Seq<AstV>, sc: ScopeV, ctx: TokV, depth: int)
    requires
        pure_asts(nodes),
        pure_scope_v(sc),
        pure_tok(ctx),
    ensures
        pure_tok(eval_stmts(nodes, sc, ctx, depth).0),
        pure_scope_v(eval_stmts(nodes, sc, ctx, depth).1),
    decreases budget(depth), size_from(nodes, 0), 3int,
{
    if depth > 100 {
        lemma_fresh_pure(recursion_error());
    } else {
        lemma_fresh_pure(tok_new(TokenType::Unknown));
        lemma_eval_seq_pure(nodes, 0, sc, ctx, tok_new(TokenType::Unknown), depth);
    }
}

pub proof fn lemma_eval_seq_pure(
    nodes: Seq<AstV>,
    k: int,
    sc: ScopeV,
    ctx: TokV,
    res: TokV,
    depth: int,
)
    requires
        pure_asts(nodes),
        pure_scope_v(sc),
        pure_tok(ctx),
        pure_tok(res),
    ensures
        pure_tok(eval_seq(nodes, k, sc, ctx, res, depth).0),
        pure_scope_v(eval_seq(nodes, k, sc, ctx, res, depth).1),
    decreases budget(depth), size_from(nodes, k), 2int,
{
    if k < 0 || k >= nodes.len() || depth > 100 {
    } else {
        lemma_size_from_unfold(nodes, k);
        lemma_pure_asts_all(nodes);
        let node = nodes[k];
        assert(pure_ast(node));
        match node.kind {
            ASTType::Error => {},
            ASTType::Block => {
                if ctx.kind == TokenType::Func || ctx.kind == TokenType::If {
                    lemma_eval_stmts_pure(node.children, sc, node.token, depth);
                    let (r2, sc2) = eval_stmts(node.children, sc, node.token, depth);
                    if !is_error_tok(r2) {
                        lemma_eval_seq_pure(nodes, k + 1, sc2, ctx, r2, depth);
                    }
                } else {
                    lemma_eval_bare_pure(nodes, k, sc, ctx, res, depth);
                }
            },
            ASTType::Token => {
                lemma_eval_token_pure(nodes, k, sc, ctx, res, depth);
            },
            ASTType::Assign => {
                lemma_fresh_pure(tok_new(TokenType::Unknown));
                lemma_eval_stmts_pure(node.children, sc, tok_new(TokenType::Unknown), depth);
                let (val, sc2) = eval_stmts(node.children, sc, tok_new(TokenType::Unknown), depth);
                if !is_error_tok(val) {
                    match find_var(sc2, ctx.value) {
                        Option::Some(i) => {
                            crate::scope::lemma_find_var_bound(sc2.variables, ctx.value, 0);
                            lemma_pure_vars_all(sc2.variables);
                            let old0 = sc2.variables[i].value;
                            assert(pure_tok(old0));
                            let op = node.token.kind;
                            if op == TokenType::Equal {
                                lemma_update_var_pure(
                                    sc2.variables,
                                    i,
                                    VarV { name: sc2.variables[i].name, value: val },
                                );
                                let sc3 = ScopeV {
                                    variables: sc2.variables.update(
                                        i,
                                        VarV { name: sc2.variables[i].name, value: val },
                                    ),
                                    ..sc2
                                };
                                lemma_eval_seq_pure(nodes, k + 1, sc3, ctx, res, depth);
                            } else if is_compound_assign(op) {
                                if old0.kind != val.kind && old0.kind != TokenType::List {
                                    lemma_fresh_pure(assign_type_error(val.kind, old0.kind));
                                } else if old0.kind == TokenType::Int || old0.kind
                                    == TokenType::Bool {
                                    let nr = num_op_result(op, old0.number, val.number);
                                    if is_error_tok(nr) {
                                        lemma_fresh_pure(nr);
                                    } else {
                                        let nv = TokV { number: nr.number, ..old0 };
                                        assert(pure_tok(nv));
                                        lemma_update_var_pure(
                                            sc2.variables,
                                            i,
                                            VarV { name: sc2.variables[i].name, value: nv },
                                        );
                                        let sc3 = ScopeV {
                                            variables: sc2.variables.update(
                                                i,
                                                VarV { name: sc2.variables[i].name, value: nv },
                                            ),
                                            ..sc2
                                        };
                                        lemma_eval_seq_pure(nodes, k + 1, sc3, ctx, res, depth);
                                    }
                                } else if old0.kind == TokenType::Str {
                                    if op == TokenType::PlusEqual {
                                        let nv = TokV { value: old0.value + val.value, ..old0 };
                                        assert(pure_tok(nv));
                                        lemma_update_var_pure(
                                            sc2.variables,
                                            i,
                                            VarV { name: sc2.variables[i].name, value: nv },
                                        );
                                        let sc3 = ScopeV {
                                            variables: sc2.variables.update(
                                                i,
                                                VarV { name: sc2.variables[i].name, value: nv },
                                            ),
                                            ..sc2
                                        };
                                        lemma_eval_seq_pure(nodes, k + 1, sc3, ctx, res, depth);
                                    } else {
                                        lemma_fresh_pure(assign_type_error(val.kind, old0.kind));
                                    }
                                } else if old0.kind == TokenType::List {
                                    if op == TokenType::PlusEqual {
                                        lemma_push_tok_pure(old0.list, val);
                                        let nv = TokV { list: old0.list.push(val), ..old0 };
                                        assert(pure_tok(nv));
                                        lemma_update_var_pure(
                                            sc2.variables,
                                            i,
                                            VarV { name: sc2.variables[i].name, value: nv },
                                        );
                                        let sc3 = ScopeV {
                                            variables: sc2.variables.update(
                                                i,
                                                VarV { name: sc2.variables[i].name, value: nv },
                                            ),
                                            ..sc2
                                        };
                                        lemma_eval_seq_pure(nodes, k + 1, sc3, ctx, res, depth);
                                    } else {
                                        lemma_fresh_pure(assign_type_error(val.kind, old0.kind));
                                    }
                                } else {
                                    lemma_fresh_pure(assign_type_error(val.kind, old0.kind));
                                }
                            } else {
                                lemma_fresh_pure(assign_type_error(val.kind, old0.kind));
                            }
                        },
                        Option::None => {
                            if res.kind == TokenType::ScopeValue {
                                lemma_eval_seq_pure(nodes, k + 1, sc2, ctx, res, depth);
                            } else {
                                lemma_push_var_pure(
                                    sc2.variables,
                                    VarV { name: ctx.value, value: val },
                                );
                                let sc3 = ScopeV {
                                    variables: sc2.variables.push(
                                        VarV { name: ctx.value, value: val },
                                    ),
                                    ..sc2
                                };
                                lemma_eval_seq_pure(nodes, k + 1, sc3, ctx, res, depth);
                            }
                        },
                    }
                }
            },
            ASTType::Expression => {
                let looked = lookup_var(sc, ctx.value);
                lemma_lookup_pure(sc, ctx.value);
                if looked is None && ctx.kind == TokenType::Var {
                    lemma_fresh_pure(outside_scope_error());
                } else {
                    let ctx2 = match looked {
                        Option::Some(v) => v,
                        Option::None => ctx,
                    };
                    let base = tok_int(ctx2.number);
                    lemma_fresh_pure(base);
                    lemma_eval_stmts_pure(node.children, sc, base, depth);
                    let (cres, sc2) = eval_stmts(node.children, sc, base, depth);
                    if !is_error_tok(cres) {
                        let op = node.token.kind;
                        let opres = expr_op_result(op, ctx2, cres);
                        lemma_expr_op_pure(op, ctx2, cres);
                        if !is_error_tok(opres) {
                            lemma_eval_seq_pure(nodes, k + 1, sc2, ctx2, opres, depth);
                        }
                    }
                }
            },
            ASTType::Keyword => {
                let kw = node.token.kind;
                if kw == TokenType::If {
                    if node.children.len() < 2 {
                        lemma_fresh_pure(invalid_if_error());
                    } else {
                        lemma_size_from_unfold(node.children, 0);
                        lemma_size_from_unfold(node.children, 1);
                        if node.children.len() > 2 {
                            lemma_size_from_unfold(node.children, 2);
                        }
                        lemma_pure_asts_all(node.children);
                        lemma_fresh_pure(tok_new(TokenType::If));
                        assert(pure_ast(node.children[0]));
                        lemma_eval_stmts_pure(
                            node.children[0].children,
                            sc,
                            tok_new(TokenType::If),
                            depth,
                        );
                        let (cond, sc2) = eval_stmts(
                            node.children[0].children,
                            sc,
                            tok_new(TokenType::If),
                            depth,
                        );
                        if !is_error_tok(cond) {
                            if cond.number == SCALE as int {
                                assert(pure_ast(node.children[1]));
                                lemma_eval_stmts_pure(
                                    node.children[1].children,
                                    sc2,
                                    tok_new(TokenType::If),
                                    depth,
                                );
                                let (r2, sc3) = eval_stmts(
                                    node.children[1].children,
                                    sc2,
                                    tok_new(TokenType::If),
                                    depth,
                                );
                                if !is_error_tok(r2) {
                                    lemma_eval_seq_pure(nodes, k + 1, sc3, ctx, r2, depth);
                                }
                            } else if node.children.len() == 3 {
                                assert(pure_ast(node.children[2]));
                                lemma_eval_stmts_pure(
                                    node.children[2].children,
                                    sc2,
                                    tok_new(TokenType::If),
                                    depth,
                                );
                                let (r2, sc3) = eval_stmts(
                                    node.children[2].children,
                                    sc2,
                                    tok_new(TokenType::If),
                                    depth,
                                );
                                if !is_error_tok(r2) {
                                    lemma_eval_seq_pure(nodes, k + 1, sc3, ctx, r2, depth);
                                }
                            } else {
                                lemma_eval_seq_pure(nodes, k + 1, sc2, ctx, res, depth);
                            }
                        }
                    }
                } else if kw == TokenType::Func {
                    if node.children.len() != 3 {
                        lemma_fresh_pure(invalid_fn_error());
                    } else {
                        lemma_pure_asts_all(node.children);
                        assert(pure_ast(node.children[2]));
                        let f = FunV {
                            name: node.children[0].token.value,
                            args: token_names(node.children[1].children),
                            body: Option::Some(node.children[2].children),
                            builtin: false,
                            hostfn: Option::None,
                        };
                        assert(pure_fun(f));
                        lemma_push_fun_pure(sc.functions, f);
                        let sc2 = ScopeV { functions: sc.functions.push(f), ..sc };
                        lemma_eval_seq_pure(nodes, k + 1, sc2, ctx, res, depth);
                    }
                } else if kw == TokenType::Return {
                    lemma_fresh_pure(tok_new(TokenType::Unknown));
                    lemma_eval_stmts_pure(node.children, sc, tok_new(TokenType::Unknown), depth);
                } else {
                    lemma_eval_seq_pure(nodes, k + 1, sc, ctx, res, depth);
                }
            },
        }
    }
}

pub proof fn lemma_expr_op_pure(op: TokenType, left: TokV, right: TokV)
    ensures
        pure_tok(expr_op_result(op, left, right)),
{
    let r = expr_op_result(op, left, right);
    assert(r.list.len() == 0 && r.scope is None && r.hostref is None && r.kind
        != TokenType::HostObject);
    lemma_fresh_pure(r);
}

pub proof fn lemma_eval_bare_pure(
    nodes: Seq<AstV>,
    k: int,
    sc: ScopeV,
    ctx: TokV,
    res: TokV,
    depth: int,
)
    requires
        pure_asts(nodes),
        pure_scope_v(sc),
        pure_tok(ctx),
        pure_tok(res),
    ensures
        pure_tok(eval_bare_block(nodes, k, sc, ctx, res, depth).0),
        pure_scope_v(eval_bare_block(nodes, k, sc, ctx, res, depth).1),
    decreases budget(depth), size_from(nodes, k), 1int,
{
    if !(0 <= k < nodes.len()) || depth > 100 {
    } else {
        lemma_size_from_unfold(nodes, k);
        lemma_pure_asts_all(nodes);
        let node = nodes[k];
        assert(pure_ast(node));
        if node.children.len() > 0 {
            lemma_size_from_unfold(node.children, 0);
        }
        let borrowing = node.children.len() > 0 && node.children[0].token.value == "borrow"@;
        let names: Seq<Seq<char>> = if borrowing && node.children[0].children.len() > 0 {
            token_names(node.children[0].children[0].children)
        } else {
            Seq::empty()
        };
        lemma_borrowed_pure(sc, names, 0);
        match borrowed_values(sc, names, 0) {
            Option::None => {
                lemma_fresh_pure(undef_error(missing_name(sc, names, 0)));
            },
            Option::Some(borrowed) => {
                lemma_builtins_of_pure(sc.functions);
                let block_scope = ScopeV {
                    variables: borrowed,
                    functions: builtins_of(sc.functions),
                };
                let start: int = if borrowing {
                    1
                } else {
                    0
                };
                lemma_fresh_pure(tok_new(TokenType::Unknown));
                lemma_eval_seq_pure(
                    node.children,
                    start,
                    block_scope,
                    tok_new(TokenType::Unknown),
                    tok_new(TokenType::Unknown),
                    depth,
                );
                let (rb, bsc) = eval_seq(
                    node.children,
                    start,
                    block_scope,
                    tok_new(TokenType::Unknown),
                    tok_new(TokenType::Unknown),
                    depth,
                );
                if !is_error_tok(rb) {
                    lemma_strip_pure(bsc.variables, names);
                    let wrapped = tok_scope(
                        ScopeV { variables: strip_names(bsc.variables, names), ..bsc },
                    );
                    assert(pure_tok(wrapped));
                    lemma_eval_seq_pure(nodes, k + 1, sc, ctx, wrapped, depth);
                }
            },
        }
    }
}

pub proof fn lemma_eval_token_pure(
    nodes: Seq<AstV>,
    k: int,
    sc: ScopeV,
    ctx: TokV,
    res: TokV,
    depth: int,
)
    requires
        pure_asts(nodes),
        pure_scope_v(sc),
        pure_tok(ctx),
        pure_tok(res),
    ensures
        pure_tok(eval_token_node(nodes, k, sc, ctx, res, depth).0),
        pure_scope_v(eval_token_node(nodes, k, sc, ctx, res, depth).1),
    decreases budget(depth), size_from(nodes, k), 1int,
{
    if !(0 <= k < nodes.len()) || depth > 100 {
    } else {
        lemma_size_from_unfold(nodes, k);
        lemma_pure_asts_all(nodes);
        let node = nodes[k];
        assert(pure_ast(node));
        let t = node.token;
        if is_error_kind(t.kind) {
        } else if t.kind == TokenType::Int || t.kind == TokenType::Str || t.kind == TokenType::Bool
            || t.kind == TokenType::NoneValue {
            lemma_lookup_pure(sc, ctx.value);
            let r0 = if ctx.kind == TokenType::Var && t.kind == TokenType::Int {
                match lookup_var(sc, ctx.value) {
                    Option::Some(val) => {
                        if val.kind == TokenType::List {
                            let idx0 = tdiv(t.number, SCALE as int);
                            let idx = if idx0 < 0 {
                                idx0 + val.list.len()
                            } else {
                                idx0
                            };
                            if idx < 0 || idx >= val.list.len() {
                                index_error()
                            } else {
                                val.list[idx]
                            }
                        } else {
                            t
                        }
                    },
                    Option::None => t,
                }
            } else {
                t
            };
            proof_r0_pure(sc, ctx, t, r0);
            if is_error_tok(r0) {
            } else if node.children.len() == 0 {
                lemma_eval_seq_pure(nodes, k + 1, sc, ctx, r0, depth);
            } else {
                lemma_eval_stmts_pure(node.children, sc, r0, depth);
                let (r2, sc2) = eval_stmts(node.children, sc, r0, depth);
                if !is_error_tok(r2) {
                    lemma_eval_seq_pure(nodes, k + 1, sc2, ctx, r2, depth);
                }
            }
        } else if t.kind == TokenType::List {
            if node.children.len() == 0 {
                lemma_eval_seq_pure(nodes, k + 1, sc, ctx, t, depth);
            } else {
                assert(pure_toks(Seq::<TokV>::empty()));
                lemma_eval_list_pure(node.children, 0, sc, t, Seq::empty(), depth);
                let (rl, sc2) = eval_list_items(node.children, 0, sc, t, Seq::empty(), depth);
                if !is_error_tok(rl) {
                    lemma_eval_seq_pure(nodes, k + 1, sc2, ctx, rl, depth);
                }
            }
        } else if t.kind == TokenType::Var {
            lemma_eval_var_pure(nodes, k, sc, ctx, res, depth);
        } else if t.kind == TokenType::Dot {
            lemma_eval_stmts_pure(node.children, sc, ctx, depth);
            let (r2, sc2) = eval_stmts(node.children, sc, ctx, depth);
            if !is_error_tok(r2) {
                lemma_eval_seq_pure(nodes, k + 1, sc2, ctx, r2, depth);
            }
        } else {
            lemma_eval_seq_pure(nodes, k + 1, sc, ctx, t, depth);
        }
    }
}

/// The indexed or literal value of a literal token node is pure.
proof fn proof_r0_pure(sc: ScopeV, ctx: TokV, t: TokV, r0: TokV)
    requires
        pure_scope_v(sc),
        pure_tok(t),
        r0 == (if ctx.kind == TokenType::Var && t.kind == TokenType::Int {
            match lookup_var(sc, ctx.value) {
                Option::Some(val) => {
                    if val.kind == TokenType::List {
                        let idx0 = tdiv(t.number, SCALE as int);
                        let idx = if idx0 < 0 {
                            idx0 + val.list.len()
                        } else {
                            idx0
                        };
                        if idx < 0 || idx >= val.list.len() {
                            index_error()
                        } else {
                            val.list[idx]
                        }
                    } else {
                        t
                    }
                },
                Option::None => t,
            }
        } else {
            t
        }),
    ensures
        pure_tok(r0),
{
    lemma_lookup_pure(sc, ctx.value);
    if ctx.kind == TokenType::Var && t.kind == TokenType::Int {
        match lookup_var(sc, ctx.value) {
            Option::Some(val) => {
                if val.kind == TokenType::List {
                    let idx0 = tdiv(t.number, SCALE as int);
                    let idx = if idx0 < 0 {
                        idx0 + val.list.len()
                    } else {
                        idx0
                    };
                    if idx < 0 || idx >= val.list.len() {
                        lemma_fresh_pure(index_error());
                    } else {
                        lemma_pure_toks_all(val.list);
                        assert(pure_tok(val.list[idx]));
                    }
                }
            },
            Option::None => {},
        }
    }
}

pub proof fn lemma_eval_list_pure(
    children: Seq<AstV>,
    k: int,
    sc: ScopeV,
    parent: TokV,
    acc: Seq<TokV>,
    depth: int,
)
    requires
        pure_asts(children),
        pure_scope_v(sc),
        pure_tok(parent),
        pure_toks(acc),
    ensures
        pure_tok(eval_list_items(children, k, sc, parent, acc, depth).0),
        pure_scope_v(eval_list_items(children, k, sc, parent, acc, depth).1),
    decreases budget(depth), size_from(children, k), 4int,
{
    if k < 0 || k >= children.len() || depth > 100 {
        assert(pure_tok(tok_list(acc)));
    } else {
        lemma_size_from_unfold(children, k);
        lemma_size_from_unfold(seq![children[k]], 0);
        lemma_pure_asts_all(children);
        assert(pure_ast(children[k]));
        assert(pure_asts(seq![children[k]])) by {
            assert(seq![children[k]].drop_last() =~= Seq::<AstV>::empty());
            assert(pure_asts(Seq::<AstV>::empty()));
            assert(seq![children[k]].last() == children[k]);
        }
        lemma_eval_stmts_pure(seq![children[k]], sc, parent, depth);
        let (cr, sc2) = eval_stmts(seq![children[k]], sc, parent, depth);
        if !is_error_tok(cr) {
            lemma_push_tok_pure(acc, cr);
            lemma_eval_list_pure(children, k + 1, sc2, parent, acc.push(cr), depth);
        }
    }
}

pub proof fn lemma_eval_var_pure(
    nodes: Seq<AstV>,
    k: int,
    sc: ScopeV,
    ctx: TokV,
    res: TokV,
    depth: int,
)
    requires
        pure_asts(nodes),
        pure_scope_v(sc),
        pure_tok(ctx),
        pure_tok(res),
    ensures
        pure_tok(eval_var_node(nodes, k, sc, ctx, res, depth).0),
        pure_scope_v(eval_var_node(nodes, k, sc, ctx, res, depth).1),
    decreases budget(depth), size_from(nodes, k), 0int,
{
    if !(0 <= k < nodes.len()) || depth > 100 {
    } else {
        lemma_size_from_unfold(nodes, k);
        lemma_pure_asts_all(nodes);
        let node = nodes[k];
        assert(pure_ast(node));
        let name = node.token.value;
        lemma_lookup_pure(sc, ctx.value);
        lemma_lookup_pure(sc, name);
        if ctx.kind != TokenType::Unknown && (match lookup_var(sc, ctx.value) {
            Option::Some(_) => true,
            Option::None => ctx.kind == TokenType::ScopeValue,
        }) {
            match lookup_var(sc, ctx.value) {
                Option::Some(ctxval) => {
                    if ctxval.kind == TokenType::HostObject {
                        lemma_fresh_pure(host_marker());
                    } else if ctxval.kind == TokenType::ScopeValue {
                        match ctxval.scope {
                            Option::Some(inner) => {
                                lemma_lookup_pure(inner, name);
                                match lookup_var(inner, name) {
                                    Option::Some(member) => {
                                        if node.children.len() > 0 {
                                            lemma_eval_stmts_pure(
                                                node.children,
                                                inner,
                                                node.token,
                                                depth,
                                            );
                                        }
                                    },
                                    Option::None => {
                                        lemma_fresh_pure(undef_error(name));
                                    },
                                }
                            },
                            Option::None => {
                                lemma_fresh_pure(undef_error(name));
                            },
                        }
                    } else {
                        lemma_fresh_pure(undef_error(ctx.value));
                    }
                },
                Option::None => {
                    match ctx.scope {
                        Option::Some(inner) => {
                            lemma_lookup_pure(inner, name);
                            match lookup_var(inner, name) {
                                Option::Some(member) => {
                                    if node.children.len() > 0 {
                                        lemma_eval_stmts_pure(node.children, sc, member, depth);
                                    }
                                },
                                Option::None => {
                                    lemma_fresh_pure(undef_error(name));
                                },
                            }
                        },
                        Option::None => {
                            lemma_fresh_pure(undef_error(name));
                        },
                    }
                },
            }
        } else {
            match lookup_var(sc, name) {
                Option::Some(val) => {
                    if node.children.len() == 0 {
                        lemma_eval_seq_pure(nodes, k + 1, sc, ctx, val, depth);
                    } else {
                        lemma_eval_stmts_pure(node.children, sc, node.token, depth);
                        let (r2, sc2) = eval_stmts(node.children, sc, node.token, depth);
                        if !is_error_tok(r2) {
                            lemma_eval_seq_pure(nodes, k + 1, sc2, ctx, r2, depth);
                        }
                    }
                },
                Option::None => {
                    match find_fun(sc, name) {
                        Option::Some(fi) => {
                            crate::scope::lemma_find_fun_bound(sc.functions, name, 0);
                            lemma_pure_funs_all(sc.functions);
                            let f = sc.functions[fi];
                            assert(pure_fun(f));
                            lemma_eval_stmts_pure(node.children, sc, node.token, depth);
                            let (args_res, sc2) = eval_stmts(node.children, sc, node.token, depth);
                            if !is_error_tok(args_res) {
                                let args = args_res.list;
                                assert(pure_toks(args));
                                match f.body {
                                    Option::Some(body) => {
                                        if args.len() != f.args.len() {
                                            lemma_fresh_pure(
                                                fn_arity_error(f.name, f.args.len() as int),
                                            );
                                        } else {
                                            lemma_bindings_pure(f.args, args, 0);
                                            lemma_concat_vars_pure(
                                                sc2.variables,
                                                bindings_of(f.args, args, 0),
                                            );
                                            let fscope = ScopeV {
                                                variables: sc2.variables + bindings_of(
                                                    f.args,
                                                    args,
                                                    0,
                                                ),
                                                functions: sc2.functions,
                                            };
                                            lemma_fresh_pure(tok_new(TokenType::Func));
                                            lemma_eval_stmts_pure(
                                                body,
                                                fscope,
                                                tok_new(TokenType::Func),
                                                depth + 1,
                                            );
                                            let (rb, fsc) = eval_stmts(
                                                body,
                                                fscope,
                                                tok_new(TokenType::Func),
                                                depth + 1,
                                            );
                                            if !is_error_tok(rb) {
                                                lemma_merge_pure(
                                                    sc2.variables,
                                                    fsc.variables,
                                                    0,
                                                    f.args,
                                                );
                                                let merged = ScopeV {
                                                    variables: merge_vars(
                                                        sc2.variables,
                                                        fsc.variables,
                                                        0,
                                                        f.args,
                                                    ),
                                                    ..sc2
                                                };
                                                lemma_eval_seq_pure(
                                                    nodes,
                                                    k + 1,
                                                    merged,
                                                    ctx,
                                                    rb,
                                                    depth,
                                                );
                                            }
                                        }
                                    },
                                    Option::None => {
                                        if f.hostfn is Some {
                                            lemma_fresh_pure(payload_error());
                                            lemma_fresh_pure(host_marker());
                                        } else if is_builtin_name(f.name) {
                                            lemma_builtin_spec_pure(f.name, args, sc2);
                                            let br = builtin_spec(f.name, args, sc2);
                                            if !is_error_tok(br) {
                                                lemma_eval_seq_pure(
                                                    nodes,
                                                    k + 1,
                                                    sc2,
                                                    ctx,
                                                    br,
                                                    depth,
                                                );
                                            }
                                        } else {
                                            lemma_eval_seq_pure(nodes, k + 1, sc2, ctx, res, depth);
                                        }
                                    },
                                }
                            }
                        },
                        Option::None => {
                            if node.children.len() == 0 {
                                lemma_fresh_pure(undef_var_error(name));
                            } else if nodes[k].children[0].kind != ASTType::Assign {
                                lemma_fresh_pure(undef_var_error(name));
                            } else {
                                lemma_eval_stmts_pure(node.children, sc, node.token, depth);
                                let (r2, sc2) = eval_stmts(node.children, sc, node.token, depth);
                                if !is_error_tok(r2) {
                                    lemma_eval_seq_pure(nodes, k + 1, sc2, ctx, r2, depth);
                                }
                            }
                        },
                    }
                },
            }
        }
    }
}

// ---------------------------------------------------------------------------
// Executable helpers
// ---------------------------------------------------------------------------

fn recursion_error_exec() -> (r: Token)
    ensures
        r@ == recursion_error(),
{
    Token::new_error(TokenType::RecursionError, "Maximum recursion depth exceeded".to_owned())
}

fn undef_error_exec(name: &String) -> (r: Token)
    ensures
        r@ == undef_error(name@),
{
    let mut m = name.clone();
    m.append(" is not defined");
    Token::new_error(TokenType::Undefined, m)
}

fn undef_var_error_exec(name: &String) -> (r: Token)
    ensures
        r@ == undef_var_error(name@),
{
    let mut m = "Variable '".to_owned();
    m.append(name.as_str());
    m.append("' is not defined");
    Token::new_error(TokenType::Undefined, m)
}

fn fn_arity_error_exec(name: &String, n: usize) -> (r: Token)
    ensures
        r@ == fn_arity_error(name@, n as int),
{
    let mut m = name.clone();
    m.append("() takes ");
    crate::numbers::push_digits(&mut m, n as u64);
    m.append(" arguments");
    Token::new_error(TokenType::TypeError, m)
}

fn assign_type_error_exec(valk: TokenType, oldk: TokenType) -> (r: Token)
    ensures
        r@ == assign_type_error(valk, oldk),
{
    let mut m = "Cannot assign ".to_owned();
    m.append(crate::value::kind_name(valk).as_str());
    m.append(" to ");
    m.append(crate::value::kind_name(oldk).as_str());
    Token::new_error(TokenType::TypeError, m)
}

fn syntax_error_exec(text: &str) -> (r: Token)
    ensures
        r@ == tok_error(TokenType::SyntaxError, text@),
{
    Token::new_error(TokenType::SyntaxError, text.to_owned())
}

/// The checked arithmetic of the surface operators.
fn num_op_exec(op: TokenType, a: i64, b: i64) -> (r: Token)
    requires
        op == TokenType::Plus || op == TokenType::PlusEqual || op == TokenType::Minus || op
            == TokenType::MinusEqual || op == TokenType::Multiply || op == TokenType::MultiplyEqual
            || op == TokenType::Divide || op == TokenType::DivideEqual || op == TokenType::Modulo
            || op == TokenType::ModuloEqual,
    ensures
        r@ == num_op_result(op, a as int, b as int),
{
    let v: Option<i64> = if op == TokenType::Plus || op == TokenType::PlusEqual {
        crate::numbers::num_add(a, b)
    } else if op == TokenType::Minus || op == TokenType::MinusEqual {
        crate::numbers::num_sub(a, b)
    } else if op == TokenType::Multiply || op == TokenType::MultiplyEqual {
        crate::numbers::num_mul(a, b)
    } else if op == TokenType::Divide || op == TokenType::DivideEqual {
        crate::numbers::num_div(a, b)
    } else {
        crate::numbers::num_rem(a, b)
    };
    match v {
        Option::Some(n) => Token::new_int(n),
        Option::None => {
            if (op == TokenType::Divide || op == TokenType::DivideEqual || op == TokenType::Modulo
                || op == TokenType::ModuloEqual) && b == 0 {
                Token::new_error(TokenType::Error, "division by zero".to_owned())
            } else {
                Token::new_error(TokenType::Error, "number overflow".to_owned())
            }
        },
    }
}

/// Lexicographic comparison of two texts by character code.
#[verifier::loop_isolation(false)]
fn str_lt_exec(a: &String, b: &String) -> (r: bool)
    ensures
        r == str_lt(a@, b@),
{
    let an = a.as_str().unicode_len();
    let bn = b.as_str().unicode_len();
    let mut i: usize = 0;
    loop
        invariant
            i <= an,
            i <= bn,
            an == a@.len(),
            bn == b@.len(),
            str_lt(a@, b@) == str_lt_from(a@, b@, i as int),
        decreases an - i,
    {
        if i >= bn {
            return false;
        }
        if i >= an {
            return true;
        }
        let ca = a.as_str().get_char(i) as u32;
        let cb = b.as_str().get_char(i) as u32;
        if ca < cb {
            return true;
        }
        if ca > cb {
            return false;
        }
        i += 1;
    }
}

/// The value of a binary or unary operator.
fn expr_op_exec(op: TokenType, left: &Token, right: &Token) -> (r: Token)
    ensures
        r@ == expr_op_result(op, left@, right@),
{
    if op == TokenType::Plus || op == TokenType::Minus || op == TokenType::Multiply || op
        == TokenType::Divide || op == TokenType::Modulo {
        num_op_exec(op, left.number, right.number)
    } else if op == TokenType::EqualTo || op == TokenType::NotEqual || op == TokenType::Greater
        || op == TokenType::Less || op == TokenType::GreaterEqual || op == TokenType::LessEqual {
        if !(left.kind == right.kind) {
            Token::new_error(TokenType::TypeError, "Cannot compare types".to_owned())
        } else if left.kind == TokenType::Int || left.kind == TokenType::Bool {
            let c = if op == TokenType::EqualTo {
                left.number == right.number
            } else if op == TokenType::NotEqual {
                left.number != right.number
            } else if op == TokenType::Greater {
                left.number > right.number
            } else if op == TokenType::Less {
                left.number < right.number
            } else if op == TokenType::GreaterEqual {
                left.number >= right.number
            } else {
                left.number <= right.number
            };
            Token::from_bool(c)
        } else if left.kind == TokenType::Str {
            let c = if op == TokenType::EqualTo {
                crate::value::str_eq_lit(&left.value, right.value.as_str())
            } else if op == TokenType::NotEqual {
                !crate::value::str_eq_lit(&left.value, right.value.as_str())
            } else if op == TokenType::Greater {
                str_lt_exec(&right.value, &left.value)
            } else if op == TokenType::Less {
                str_lt_exec(&left.value, &right.value)
            } else if op == TokenType::GreaterEqual {
                !str_lt_exec(&left.value, &right.value)
            } else {
                !str_lt_exec(&right.value, &left.value)
            };
            Token::from_bool(c)
        } else {
            Token::new_error(TokenType::TypeError, "Cannot compare types".to_owned())
        }
    } else if op == TokenType::Not {
        if right.kind == TokenType::Int || right.kind == TokenType::Bool {
            Token::from_bool(right.number == 0)
        } else if right.kind == TokenType::Str {
            Token::from_bool(right.value.as_str().unicode_len() == 0)
        } else {
            Token::new_error(TokenType::TypeError, "Cannot compare types".to_owned())
        }
    } else if op == TokenType::And {
        Token::from_bool(left.number != 0 && right.number != 0)
    } else if op == TokenType::Or {
        Token::from_bool(left.number != 0 || right.number != 0)
    } else {
        Token::new_error(TokenType::SyntaxError, "Unknown operator".to_owned())
    }
}

/// The builtin entries of a function table, copied in order.
#[verifier::loop_isolation(false)]
fn builtins_of_exec(funs: &Vec<crate::value::Function>) -> (r: Vec<crate::value::Function>)
    ensures
        crate::value::view_funs(r@) == builtins_of(crate::value::view_funs(funs@)),
{
    let ghost fv = crate::value::view_funs(funs@);
    proof {
        crate::value::lemma_view_funs_len(funs@);
    }
    let mut out: Vec<crate::value::Function> = Vec::new();
    let mut i: usize = 0;
    while i < funs.len()
        invariant
            i <= funs@.len(),
            crate::value::view_funs(out@) == builtins_of(fv.subrange(0, i as int)),
        decreases funs@.len() - i,
    {
        proof {
            crate::value::lemma_view_funs_index(funs@, i as int);
            assert(fv.subrange(0, i + 1 as int).drop_last() =~= fv.subrange(0, i as int));
            assert(fv.subrange(0, i + 1 as int).last() == fv[i as int]);
        }
        if funs[i].builtin {
            let ghost prev = out@;
            let f = funs[i].clone();
            out.push(f);
            proof {
                assert(out@.drop_last() =~= prev);
                assert(crate::value::view_funs(out@) =~= builtins_of(fv.subrange(0, i + 1 as int)));
            }
        } else {
            proof {
                assert(crate::value::view_funs(out@) =~= builtins_of(fv.subrange(0, i + 1 as int)));
            }
        }
        i += 1;
    }
    proof {
        assert(fv.subrange(0, fv.len() as int) =~= fv);
    }
    out
}

/// The text payloads of a list of token nodes.
#[verifier::loop_isolation(false)]
fn token_names_exec(items: &Vec<AST>) -> (r: Vec<String>)
    ensures
        crate::value::view_strings(r@) == token_names(crate::value::view_asts(items@)),
{
    let ghost iv = crate::value::view_asts(items@);
    proof {
        crate::value::lemma_view_asts_len(items@);
    }
    let mut out: Vec<String> = Vec::new();
    let mut i: usize = 0;
    while i < items.len()
        invariant
            i <= items@.len(),
            crate::value::view_strings(out@) == token_names(iv.subrange(0, i as int)),
        decreases items@.len() - i,
    {
        proof {
            crate::value::lemma_view_asts_index(items@, i as int);
            assert(iv.subrange(0, i + 1 as int).drop_last() =~= iv.subrange(0, i as int));
            assert(iv.subrange(0, i + 1 as int).last() == iv[i as int]);
        }
        let s = items[i].token.value.clone();
        out.push(s);
        proof {
            assert(crate::value::view_strings(out@) =~= token_names(iv.subrange(0, i + 1 as int)));
        }
        i += 1;
    }
    proof {
        assert(iv.subrange(0, iv.len() as int) =~= iv);
    }
    out
}

/// Whether the name list contains the name.
#[verifier::loop_isolation(false)]
fn names_contain(names: &Vec<String>, name: &String) -> (r: bool)
    ensures
        r == crate::value::view_strings(names@).contains(name@),
{
    let mut i: usize = 0;
    while i < names.len()
        invariant
            i <= names@.len(),
            forall|j: int|
                0 <= j < i ==> crate::value::view_strings(names@)[j] != name@,
        decreases names@.len() - i,
    {
        if crate::value::str_eq_lit(&names[i], name.as_str()) {
            proof {
                assert(crate::value::view_strings(names@)[i as int] == name@);
            }
            return true;
        }
        i += 1;
    }
    proof {
        if crate::value::view_strings(names@).contains(name@) {
            let j = choose|j: int|
                0 <= j < crate::value::view_strings(names@).len() && crate::value::view_strings(
                    names@,
                )[j] == name@;
            assert(false);
        }
    }
    false
}

/// The variable list without the bindings whose names are listed.
#[verifier::loop_isolation(false)]
fn strip_names_exec(vars: &Vec<crate::value::Variable>, names: &Vec<String>) -> (r: Vec<
    crate::value::Variable,
>)
    ensures
        crate::value::view_vars(r@) == strip_names(
            crate::value::view_vars(vars@),
            crate::value::view_strings(names@),
        ),
{
    let ghost vv = crate::value::view_vars(vars@);
    let ghost nv = crate::value::view_strings(names@);
    proof {
        crate::value::lemma_view_vars_len(vars@);
    }
    let mut out: Vec<crate::value::Variable> = Vec::new();
    let mut i: usize = 0;
    while i < vars.len()
        invariant
            i <= vars@.len(),
            crate::value::view_vars(out@) == strip_names(vv.subrange(0, i as int), nv),
        decreases vars@.len() - i,
    {
        proof {
            crate::value::lemma_view_vars_index(vars@, i as int);
            assert(vv.subrange(0, i + 1 as int).drop_last() =~= vv.subrange(0, i as int));
            assert(vv.subrange(0, i + 1 as int).last() == vv[i as int]);
        }
        if !names_contain(names, &vars[i].name) {
            let ghost prev = out@;
            let v = vars[i].clone();
            out.push(v);
            proof {
                assert(out@.drop_last() =~= prev);
                assert(crate::value::view_vars(out@) =~= strip_names(
                    vv.subrange(0, i + 1 as int),
                    nv,
                ));
            }
        } else {
            proof {
                assert(crate::value::view_vars(out@) =~= strip_names(
                    vv.subrange(0, i + 1 as int),
                    nv,
                ));
            }
        }
        i += 1;
    }
    proof {
        assert(vv.subrange(0, vv.len() as int) =~= vv);
    }
    out
}

/// Copies the named variables out of the scope, or reports the first
/// missing name.
#[verifier::loop_isolation(false)]
fn borrowed_values_exec(scope: &crate::value::Scope, names: &Vec<String>) -> (r: Result<
    Vec<crate::value::Variable>,
    Token,
>)
    ensures
        ({
            let nv = crate::value::view_strings(names@);
            match r {
                Result::Ok(vars) => borrowed_values(scope@, nv, 0) == Option::Some(
                    crate::value::view_vars(vars@),
                ),
                Result::Err(e) => borrowed_values(scope@, nv, 0) is None && e@ == undef_error(
                    missing_name(scope@, nv, 0),
                ),
            }
        }),
{
    let ghost nv = crate::value::view_strings(names@);
    let mut out: Vec<crate::value::Variable> = Vec::new();
    let mut i: usize = 0;
    while i < names.len()
        invariant
            i <= names@.len(),
            borrowed_values(scope@, nv, 0) == (match borrowed_values(scope@, nv, i as int) {
                Option::Some(rest) => Option::Some(crate::value::view_vars(out@) + rest),
                Option::None => Option::<Seq<VarV>>::None,
            }),
            missing_name(scope@, nv, 0) == missing_name(scope@, nv, i as int),
        decreases names@.len() - i,
    {
        match crate::scope::get_variable(&names[i], scope) {
            Option::Some(t) => {
                let ghost prev = out@;
                let name = names[i].clone();
                out.push(crate::value::Variable { name, value: t });
                proof {
                    assert(out@.drop_last() =~= prev);
                    assert(crate::value::view_vars(out@) =~= crate::value::view_vars(prev).push(
                        VarV { name: nv[i as int], value: out@.last().value@ },
                    ));
                    assert forall|rest: Seq<VarV>|
                        crate::value::view_vars(prev) + (seq![
                            VarV { name: nv[i as int], value: out@.last().value@ },
                        ] + rest) =~= crate::value::view_vars(out@) + rest by {}
                }
            },
            Option::None => {
                return Result::Err(undef_error_exec(&names[i]));
            },
        }
        i += 1;
    }
    proof {
        assert(crate::value::view_vars(out@) + Seq::<VarV>::empty() =~= crate::value::view_vars(
            out@,
        ));
    }
    Result::Ok(out)
}

/// The parameter bindings of a call, in order.
#[verifier::loop_isolation(false)]
fn bindings_of_exec(params: &Vec<String>, args: &Vec<Token>) -> (r: Vec<crate::value::Variable>)
    ensures
        crate::value::view_vars(r@) == bindings_of(
            crate::value::view_strings(params@),
            crate::value::view_tokens(args@),
            0,
        ),
{
    let ghost pv = crate::value::view_strings(params@);
    let ghost av = crate::value::view_tokens(args@);
    proof {
        crate::value::lemma_view_tokens_len(args@);
    }
    let mut out: Vec<crate::value::Variable> = Vec::new();
    let mut i: usize = 0;
    while i < params.len() && i < args.len()
        invariant
            i <= params@.len(),
            i <= args@.len(),
            bindings_of(pv, av, 0) == crate::value::view_vars(out@) + bindings_of(pv, av, i as int),
        decreases params@.len() - i,
    {
        proof {
            crate::value::lemma_view_tokens_index(args@, i as int);
        }
        let ghost prev = out@;
        let name = params[i].clone();
        let value = crate::value::copy_token(&args[i]);
        out.push(crate::value::Variable { name, value });
        proof {
            assert(out@.drop_last() =~= prev);
            assert(crate::value::view_vars(out@) + bindings_of(pv, av, i + 1 as int)
                =~= crate::value::view_vars(prev) + bindings_of(pv, av, i as int));
        }
        i += 1;
    }
    proof {
        assert(crate::value::view_vars(out@) + Seq::<VarV>::empty() =~= crate::value::view_vars(
            out@,
        ));
    }
    out
}

/// Merges the function-local variables back into the caller's scope.
#[verifier::loop_isolation(false)]
fn merge_back_exec(
    scope: &mut crate::value::Scope,
    locals: &Vec<crate::value::Variable>,
    params: &Vec<String>,
)
    ensures
        final(scope)@.variables == merge_vars(
            old(scope)@.variables,
            crate::value::view_vars(locals@),
            0,
            crate::value::view_strings(params@),
        ),
        final(scope)@.functions == old(scope)@.functions,
{
    let ghost lv = crate::value::view_vars(locals@);
    let ghost pv = crate::value::view_strings(params@);
    proof {
        crate::value::lemma_view_vars_len(locals@);
    }
    let mut i: usize = 0;
    while i < locals.len()
        invariant
            i <= locals@.len(),
            scope@.functions == old(scope)@.functions,
            merge_vars(old(scope)@.variables, lv, 0, pv) == merge_vars(
                scope@.variables,
                lv,
                i as int,
                pv,
            ),
        decreases locals@.len() - i,
    {
        proof {
            crate::value::lemma_view_vars_index(locals@, i as int);
        }
        if !names_contain(params, &locals[i].name) {
            let ghost before = scope@.variables;
            let value = crate::value::copy_token(&locals[i].value);
            crate::scope::set_variable(&locals[i].name, value, scope);
            proof {
                assert(scope@.variables == svars_store(before, lv[i as int].name, lv[i as int].value));
                assert(merge_vars(before, lv, i as int, pv) == merge_vars(
                    scope@.variables,
                    lv,
                    i + 1 as int,
                    pv,
                ));
            }
        }
        i += 1;
    }
}

// ---------------------------------------------------------------------------
// The executable evaluator
// ---------------------------------------------------------------------------

/// The purity hypothesis of one evaluation configuration.
pub open spec fn pure_inputs(nodes: Seq<AstV>, sc: ScopeV, ctx: TokV, res: TokV) -> bool {
    pure_asts(nodes) && pure_scope_v(sc) && pure_tok(ctx) && pure_tok(res)
}

/// Evaluates a statement sequence against the scope: the depth ceiling is
/// enforced, then the statements run in order from a fresh ambient result.
fn eval_stmts_exec<B: crate::host::HostBridge>(
    nodes: &Vec<AST>,
    scope: &mut crate::value::Scope,
    ctx: &Token,
    depth: u32,
    bridge: &mut B,
) -> (r: Token)
    requires
        depth <= 101,
    ensures
        pure_asts(crate::value::view_asts(nodes@)) && pure_scope_v(old(scope)@) && pure_tok(ctx@)
            ==> ({
            let (sr, ss) = eval_stmts(
                crate::value::view_asts(nodes@),
                old(scope)@,
                ctx@,
                depth as int,
            );
            r@ == sr && final(scope)@ == ss
        }),
    decreases budget(depth as int), size_from(crate::value::view_asts(nodes@), 0), 3int,
{
    if depth > 100 {
        return recursion_error_exec();
    }
    let res = Token::new(TokenType::Unknown);
    proof {
        lemma_fresh_pure(res@);
    }
    eval_seq_exec(nodes, 0, scope, ctx, res, depth, bridge)
}

/// Evaluates the statements from index `k` on.
#[verifier::rlimit(100)]
#[verifier::loop_isolation(false)]
fn eval_seq_exec<B: crate::host::HostBridge>(
    nodes: &Vec<AST>,
    k: usize,
    scope: &mut crate::value::Scope,
    ctx: &Token,
    res: Token,
    depth: u32,
    bridge: &mut B,
) -> (r: Token)
    requires
        k <= nodes@.len(),
        depth <= 101,
    ensures
        pure_inputs(crate::value::view_asts(nodes@), old(scope)@, ctx@, res@) ==> ({
            let (sr, ss) = eval_seq(
                crate::value::view_asts(nodes@),
                k as int,
                old(scope)@,
                ctx@,
                res@,
                depth as int,
            );
            r@ == sr && final(scope)@ == ss
        }),
    decreases budget(depth as int), size_from(crate::value::view_asts(nodes@), k as int), 2int,
{
    let ghost nv = crate::value::view_asts(nodes@);
    proof {
        crate::value::lemma_view_asts_len(nodes@);
    }
    if k >= nodes.len() || depth > 100 {
        return res;
    }
    proof {
        crate::value::lemma_view_asts_index(nodes@, k as int);
        crate::value::lemma_view_asts_len(nodes@[k as int].children@);
        lemma_size_from_unfold(nv, k as int);
        if pure_inputs(nv, old(scope)@, ctx@, res@) {
            lemma_pure_asts_all(nv);
            assert(pure_ast(nv[k as int]));
        }
    }
    let node_kind = nodes[k].kind;
    if node_kind == ASTType::Error {
        return crate::value::copy_token(&nodes[k].token);
    }
    if node_kind == ASTType::Block {
        if ctx.kind == TokenType::Func || ctx.kind == TokenType::If {
            let bctx = crate::value::copy_token(&nodes[k].token);
            let r2 = eval_stmts_exec(&nodes[k].children, scope, &bctx, depth, bridge);
            proof {
                if pure_inputs(nv, old(scope)@, ctx@, res@) {
                    lemma_eval_stmts_pure(
                        nv[k as int].children,
                        old(scope)@,
                        nv[k as int].token,
                        depth as int,
                    );
                }
            }
            if check_if_error(&r2) {
                return r2;
            }
            return eval_seq_exec(nodes, k + 1, scope, ctx, r2, depth, bridge);
        }
        return eval_bare_exec(nodes, k, scope, ctx, res, depth, bridge);
    }
    if node_kind == ASTType::Token {
        return eval_token_exec(nodes, k, scope, ctx, res, depth, bridge);
    }
    if node_kind == ASTType::Assign {
        let actx = Token::new(TokenType::Unknown);
        proof {
            lemma_fresh_pure(actx@);
        }
        let val = eval_stmts_exec(&nodes[k].children, scope, &actx, depth, bridge);
        proof {
            if pure_inputs(nv, old(scope)@, ctx@, res@) {
                lemma_eval_stmts_pure(
                    nv[k as int].children,
                    old(scope)@,
                    tok_new(TokenType::Unknown),
                    depth as int,
                );
            }
        }
        if check_if_error(&val) {
            return val;
        }
        match crate::scope::find_variable_index(&ctx.value, scope) {
            Option::Some(i) => {
                proof {
                    crate::scope::lemma_find_var_bound(scope@.variables, ctx@.value, 0);
                    crate::value::lemma_view_vars_index(scope.variables@, i as int);
                    if pure_inputs(nv, old(scope)@, ctx@, res@) {
                        lemma_pure_vars_all(scope@.variables);
                    }
                }
                let op = nodes[k].token.kind;
                let old_kind = scope.variables[i].value.kind;
                if op == TokenType::Equal {
                    let ghost before = scope@;
                    let name = scope.variables[i].name.clone();
                    set_var_at(scope, i, name, val);
                    proof {
                        if pure_inputs(nv, old(scope)@, ctx@, res@) {
                            lemma_update_var_pure(
                                before.variables,
                                i as int,
                                scope@.variables[i as int],
                            );
                        }
                    }
                    return eval_seq_exec(nodes, k + 1, scope, ctx, res, depth, bridge);
                }
                if op == TokenType::PlusEqual || op == TokenType::MinusEqual || op
                    == TokenType::MultiplyEqual || op == TokenType::DivideEqual || op
                    == TokenType::ModuloEqual {
                    if !(old_kind == val.kind) && !(old_kind == TokenType::List) {
                        return assign_type_error_exec(val.kind, old_kind);
                    }
                    if old_kind == TokenType::Int || old_kind == TokenType::Bool {
                        let nr = num_op_exec(op, scope.variables[i].value.number, val.number);
                        if check_if_error(&nr) {
                            return nr;
                        }
                        let ghost before = scope@;
                        let name = scope.variables[i].name.clone();
                        let mut nv2 = crate::value::copy_token(&scope.variables[i].value);
                        nv2.number = nr.number;
                        proof {
                            assert(nv2@ =~= TokV {
                                number: nr@.number,
                                ..before.variables[i as int].value
                            });
                        }
                        set_var_at(scope, i, name, nv2);
                        proof {
                            if pure_inputs(nv, old(scope)@, ctx@, res@) {
                                lemma_update_var_pure(
                                    before.variables,
                                    i as int,
                                    scope@.variables[i as int],
                                );
                            }
                        }
                        return eval_seq_exec(nodes, k + 1, scope, ctx, res, depth, bridge);
                    }
                    if old_kind == TokenType::Str {
                        if op == TokenType::PlusEqual {
                            let ghost before = scope@;
                            let name = scope.variables[i].name.clone();
                            let mut nv2 = crate::value::copy_token(&scope.variables[i].value);
                            nv2.value.append(val.value.as_str());
                            proof {
                                assert(nv2@ =~= TokV {
                                    value: before.variables[i as int].value.value + val@.value,
                                    ..before.variables[i as int].value
                                });
                            }
                            set_var_at(scope, i, name, nv2);
                            proof {
                                if pure_inputs(nv, old(scope)@, ctx@, res@) {
                                    lemma_update_var_pure(
                                        before.variables,
                                        i as int,
                                        scope@.variables[i as int],
                                    );
                                }
                            }
                            return eval_seq_exec(nodes, k + 1, scope, ctx, res, depth, bridge);
                        }
                        return assign_type_error_exec(val.kind, old_kind);
                    }
                    if old_kind == TokenType::List {
                        if op == TokenType::PlusEqual {
                            let ghost before = scope@;
                            let ghost valv = val@;
                            let name = scope.variables[i].name.clone();
                            let mut nv2 = crate::value::copy_token(&scope.variables[i].value);
                            crate::value::push_tok(&mut nv2.list, val);
                            proof {
                                assert(nv2@ =~= TokV {
                                    list: before.variables[i as int].value.list.push(valv),
                                    ..before.variables[i as int].value
                                });
                            }
                            set_var_at(scope, i, name, nv2);
                            proof {
                                if pure_inputs(nv, old(scope)@, ctx@, res@) {
                                    lemma_pure_toks_all(before.variables[i as int].value.list);
                                    lemma_push_tok_pure(
                                        before.variables[i as int].value.list,
                                        valv,
                                    );
                                    lemma_update_var_pure(
                                        before.variables,
                                        i as int,
                                        scope@.variables[i as int],
                                    );
                                }
                            }
                            return eval_seq_exec(nodes, k + 1, scope, ctx, res, depth, bridge);
                        }
                        return assign_type_error_exec(val.kind, old_kind);
                    }
                    return assign_type_error_exec(val.kind, old_kind);
                }
                return assign_type_error_exec(val.kind, old_kind);
            },
            Option::None => {
                if res.kind == TokenType::ScopeValue {
                    return eval_seq_exec(nodes, k + 1, scope, ctx, res, depth, bridge);
                }
                let ghost before = scope@;
                let ghost valv = val@;
                scope.push_variable(ctx.value.as_str(), val);
                proof {
                    assert(scope@ =~= ScopeV {
                        variables: before.variables.push(VarV { name: ctx@.value, value: valv }),
                        ..before
                    });
                    if pure_inputs(nv, old(scope)@, ctx@, res@) {
                        lemma_push_var_pure(
                            before.variables,
                            VarV { name: ctx@.value, value: valv },
                        );
                    }
                }
                return eval_seq_exec(nodes, k + 1, scope, ctx, res, depth, bridge);
            },
        }
    }
    if node_kind == ASTType::Expression {
        let looked = crate::scope::get_variable(&ctx.value, scope);
        if looked.is_none() && ctx.kind == TokenType::Var {
            return syntax_error_exec("Cannot assign to a variable outside of scope");
        }
        let ctx2 = match looked {
            Option::Some(v) => v,
            Option::None => crate::value::copy_token(ctx),
        };
        proof {
            if pure_inputs(nv, old(scope)@, ctx@, res@) {
                lemma_lookup_pure(old(scope)@, ctx@.value);
            }
        }
        let base = Token::new_int(ctx2.number);
        proof {
            lemma_fresh_pure(base@);
        }
        let cres = eval_stmts_exec(&nodes[k].children, scope, &base, depth, bridge);
        proof {
            if pure_inputs(nv, old(scope)@, ctx@, res@) {
                lemma_eval_stmts_pure(
                    nv[k as int].children,
                    old(scope)@,
                    base@,
                    depth as int,
                );
            }
        }
        if check_if_error(&cres) {
            return cres;
        }
        let opres = expr_op_exec(nodes[k].token.kind, &ctx2, &cres);
        proof {
            lemma_expr_op_pure(nv[k as int].token.kind, ctx2@, cres@);
        }
        if check_if_error(&opres) {
            return opres;
        }
        return eval_seq_exec(nodes, k + 1, scope, &ctx2, opres, depth, bridge);
    }
    // Keyword
    let kw = nodes[k].token.kind;
    if kw == TokenType::If {
        if nodes[k].children.len() < 2 {
            return syntax_error_exec("invalid if");
        }
        proof {
            crate::value::lemma_view_asts_index(nodes@[k as int].children@, 0);
            crate::value::lemma_view_asts_index(nodes@[k as int].children@, 1);
            lemma_size_from_unfold(nv[k as int].children, 0);
            lemma_size_from_unfold(nv[k as int].children, 1);
            if nodes@[k as int].children@.len() > 2 {
                crate::value::lemma_view_asts_index(nodes@[k as int].children@, 2);
                lemma_size_from_unfold(nv[k as int].children, 2);
            }
            if pure_inputs(nv, old(scope)@, ctx@, res@) {
                lemma_pure_asts_all(nv[k as int].children);
            }
        }
        let ifctx = Token::new(TokenType::If);
        proof {
            lemma_fresh_pure(ifctx@);
        }
        let cond = eval_stmts_exec(&nodes[k].children[0].children, scope, &ifctx, depth, bridge);
        proof {
            if pure_inputs(nv, old(scope)@, ctx@, res@) {
                lemma_eval_stmts_pure(
                    nv[k as int].children[0].children,
                    old(scope)@,
                    tok_new(TokenType::If),
                    depth as int,
                );
            }
        }
        if check_if_error(&cond) {
            return cond;
        }
        if cond.number == SCALE {
            let ghost mid = scope@;
            let r2 = eval_stmts_exec(&nodes[k].children[1].children, scope, &ifctx, depth, bridge);
            proof {
                if pure_inputs(nv, old(scope)@, ctx@, res@) {
                    lemma_eval_stmts_pure(
                        nv[k as int].children[1].children,
                        mid,
                        tok_new(TokenType::If),
                        depth as int,
                    );
                }
            }
            if check_if_error(&r2) {
                return r2;
            }
            return eval_seq_exec(nodes, k + 1, scope, ctx, r2, depth, bridge);
        }
        if nodes[k].children.len() == 3 {
            let ghost mid = scope@;
            let r2 = eval_stmts_exec(&nodes[k].children[2].children, scope, &ifctx, depth, bridge);
            proof {
                if pure_inputs(nv, old(scope)@, ctx@, res@) {
                    lemma_eval_stmts_pure(
                        nv[k as int].children[2].children,
                        mid,
                        tok_new(TokenType::If),
                        depth as int,
                    );
                }
            }
            if check_if_error(&r2) {
                return r2;
            }
            return eval_seq_exec(nodes, k + 1, scope, ctx, r2, depth, bridge);
        }
        return eval_seq_exec(nodes, k + 1, scope, ctx, res, depth, bridge);
    }
    if kw == TokenType::Func {
        if nodes[k].children.len() != 3 {
            return syntax_error_exec("Invalid function definition");
        }
        proof {
            crate::value::lemma_view_asts_index(nodes@[k as int].children@, 0);
            crate::value::lemma_view_asts_index(nodes@[k as int].children@, 1);
            crate::value::lemma_view_asts_index(nodes@[k as int].children@, 2);
            if pure_inputs(nv, old(scope)@, ctx@, res@) {
                lemma_pure_asts_all(nv[k as int].children);
            }
        }
        let name = nodes[k].children[0].token.value.clone();
        let args = token_names_exec(&nodes[k].children[1].children);
        let body = crate::value::copy_asts(&nodes[k].children[2].children);
        let f = crate::value::Function {
            name,
            args,
            body: Option::Some(body),
            builtin: false,
            hostfn: Option::None,
        };
        proof {
            assert(f@ =~= FunV {
                name: nv[k as int].children[0].token.value,
                args: token_names(nv[k as int].children[1].children),
                body: Option::Some(nv[k as int].children[2].children),
                builtin: false,
                hostfn: Option::None,
            });
        }
        let ghost before = scope@;
        let ghost fv2 = f@;
        scope.functions.push(f);
        proof {
            assert(scope.functions@.drop_last() =~= old(scope).functions@);
            assert(scope@ =~= ScopeV { functions: before.functions.push(fv2), ..before });
            if pure_inputs(nv, old(scope)@, ctx@, res@) {
                assert(pure_fun(fv2));
                lemma_push_fun_pure(before.functions, fv2);
            }
        }
        return eval_seq_exec(nodes, k + 1, scope, ctx, res, depth, bridge);
    }
    if kw == TokenType::Return {
        let rctx = Token::new(TokenType::Unknown);
        proof {
            lemma_fresh_pure(rctx@);
        }
        let r2 = eval_stmts_exec(&nodes[k].children, scope, &rctx, depth, bridge);
        return r2;
    }
    return eval_seq_exec(nodes, k + 1, scope, ctx, res, depth, bridge);
}

/// Replaces the variable at `i`, tracking the scope view.
fn set_var_at(scope: &mut crate::value::Scope, i: usize, name: String, value: Token)
    requires
        i < old(scope).variables@.len(),
    ensures
        final(scope)@ == (ScopeV {
            variables: old(scope)@.variables.update(
                i as int,
                VarV { name: name@, value: value@ },
            ),
            ..old(scope)@
        }),
        final(scope)@.variables[i as int] == (VarV { name: name@, value: value@ }),
{
    proof {
        crate::value::lemma_view_vars_len(scope.variables@);
    }
    let ghost beforevars = scope.variables@;
    scope.variables[i] = crate::value::Variable { name, value };
    proof {
        crate::value::lemma_view_vars_len(scope.variables@);
        assert forall|j: int| 0 <= j < scope.variables@.len() implies crate::value::view_vars(
            scope.variables@,
        )[j] == old(scope)@.variables.update(
            i as int,
            VarV { name: name@, value: value@ },
        )[j] by {
            crate::value::lemma_view_vars_index(scope.variables@, j);
            crate::value::lemma_view_vars_index(beforevars, j);
            if j != i {
                assert(scope.variables@[j] == beforevars[j]);
            }
        }
        assert(crate::value::view_vars(scope.variables@) =~= old(scope)@.variables.update(
            i as int,
            VarV { name: name@, value: value@ },
        ));
        assert(scope@ =~= ScopeV {
            variables: old(scope)@.variables.update(
                i as int,
                VarV { name: name@, value: value@ },
            ),
            ..old(scope)@
        });
    }
}

/// Evaluates a `Token`-variant node at index `k`.
#[verifier::rlimit(100)]
#[verifier::loop_isolation(false)]
fn eval_token_exec<B: crate::host::HostBridge>(
    nodes: &Vec<AST>,
    k: usize,
    scope: &mut crate::value::Scope,
    ctx: &Token,
    res: Token,
    depth: u32,
    bridge: &mut B,
) -> (r: Token)
    requires
        k < nodes@.len(),
        depth <= 100,
    ensures
        pure_inputs(crate::value::view_asts(nodes@), old(scope)@, ctx@, res@) ==> ({
            let (sr, ss) = eval_token_node(
                crate::value::view_asts(nodes@),
                k as int,
                old(scope)@,
                ctx@,
                res@,
                depth as int,
            );
            r@ == sr && final(scope)@ == ss
        }),
    decreases budget(depth as int), size_from(crate::value::view_asts(nodes@), k as int), 1int,
{
    let ghost nv = crate::value::view_asts(nodes@);
    proof {
        crate::value::lemma_view_asts_len(nodes@);
        crate::value::lemma_view_asts_index(nodes@, k as int);
        lemma_size_from_unfold(nv, k as int);
        if pure_inputs(nv, old(scope)@, ctx@, res@) {
            lemma_pure_asts_all(nv);
            assert(pure_ast(nv[k as int]));
        }
    }
    let n = nodes.len();
    let tkind = nodes[k].token.kind;
    if check_if_error(&nodes[k].token) {
        return crate::value::copy_token(&nodes[k].token);
    }
    if tkind == TokenType::Int || tkind == TokenType::Str || tkind == TokenType::Bool || tkind
        == TokenType::NoneValue {
        let r0: Token = if ctx.kind == TokenType::Var && tkind == TokenType::Int {
            match crate::scope::get_variable(&ctx.value, scope) {
                Option::Some(val) => {
                    if val.kind == TokenType::List {
                        proof {
                            crate::value::lemma_view_tokens_len(val.list@);
                        }
                        let idx0 = crate::numbers::num_whole(nodes[k].token.number);
                        let idx: i128 = if idx0 < 0 {
                            idx0 as i128 + val.list.len() as i128
                        } else {
                            idx0 as i128
                        };
                        if idx < 0 || idx >= val.list.len() as i128 {
                            Token::new_error(
                                TokenType::IndexError,
                                "list index out of range".to_owned(),
                            )
                        } else {
                            proof {
                                crate::value::lemma_view_tokens_index(val.list@, idx as int);
                            }
                            crate::value::copy_token(&val.list[idx as usize])
                        }
                    } else {
                        crate::value::copy_token(&nodes[k].token)
                    }
                },
                Option::None => crate::value::copy_token(&nodes[k].token),
            }
        } else {
            crate::value::copy_token(&nodes[k].token)
        };
        proof {
            if pure_inputs(nv, old(scope)@, ctx@, res@) {
                proof_r0_pure(old(scope)@, ctx@, nv[k as int].token, r0@);
            }
        }
        if check_if_error(&r0) {
            return r0;
        }
        if nodes[k].children.len() == 0 {
            return eval_seq_exec(nodes, k + 1, scope, ctx, r0, depth, bridge);
        }
        let r2 = eval_stmts_exec(&nodes[k].children, scope, &r0, depth, bridge);
        proof {
            if pure_inputs(nv, old(scope)@, ctx@, res@) {
                lemma_eval_stmts_pure(nv[k as int].children, old(scope)@, r0@, depth as int);
            }
        }
        if check_if_error(&r2) {
            return r2;
        }
        return eval_seq_exec(nodes, k + 1, scope, ctx, r2, depth, bridge);
    }
    if tkind == TokenType::List {
        if nodes[k].children.len() == 0 {
            let t = crate::value::copy_token(&nodes[k].token);
            return eval_seq_exec(nodes, k + 1, scope, ctx, t, depth, bridge);
        }
        let parent = crate::value::copy_token(&nodes[k].token);
        let acc: Vec<Token> = Vec::new();
        proof {
            assert(crate::value::view_tokens(acc@) =~= Seq::<TokV>::empty());
            assert(pure_toks(Seq::<TokV>::empty()));
        }
        let rl = eval_list_exec(&nodes[k].children, 0, scope, &parent, acc, depth, bridge);
        proof {
            if pure_inputs(nv, old(scope)@, ctx@, res@) {
                lemma_eval_list_pure(
                    nv[k as int].children,
                    0,
                    old(scope)@,
                    nv[k as int].token,
                    Seq::empty(),
                    depth as int,
                );
            }
        }
        if check_if_error(&rl) {
            return rl;
        }
        return eval_seq_exec(nodes, k + 1, scope, ctx, rl, depth, bridge);
    }
    if tkind == TokenType::Var {
        return eval_var_exec(nodes, k, scope, ctx, res, depth, bridge);
    }
    if tkind == TokenType::Dot {
        let dctx = crate::value::copy_token(ctx);
        let r2 = eval_stmts_exec(&nodes[k].children, scope, &dctx, depth, bridge);
        proof {
            if pure_inputs(nv, old(scope)@, ctx@, res@) {
                lemma_eval_stmts_pure(nv[k as int].children, old(scope)@, ctx@, depth as int);
            }
        }
        if check_if_error(&r2) {
            return r2;
        }
        return eval_seq_exec(nodes, k + 1, scope, ctx, r2, depth, bridge);
    }
    let t = crate::value::copy_token(&nodes[k].token);
    return eval_seq_exec(nodes, k + 1, scope, ctx, t, depth, bridge);
}

/// Evaluates the elements of a list literal one by one.
#[verifier::rlimit(100)]
#[verifier::loop_isolation(false)]
fn eval_list_exec<B: crate::host::HostBridge>(
    children: &Vec<AST>,
    k: usize,
    scope: &mut crate::value::Scope,
    parent: &Token,
    acc: Vec<Token>,
    depth: u32,
    bridge: &mut B,
) -> (r: Token)
    requires
        k <= children@.len(),
        depth <= 100,
    ensures
        pure_asts(crate::value::view_asts(children@)) && pure_scope_v(old(scope)@) && pure_tok(
            parent@,
        ) && pure_toks(crate::value::view_tokens(acc@)) ==> ({
            let (sr, ss) = eval_list_items(
                crate::value::view_asts(children@),
                k as int,
                old(scope)@,
                parent@,
                crate::value::view_tokens(acc@),
                depth as int,
            );
            r@ == sr && final(scope)@ == ss
        }),
    decreases budget(depth as int), size_from(crate::value::view_asts(children@), k as int), 4int,
{
    let ghost cv = crate::value::view_asts(children@);
    proof {
        crate::value::lemma_view_asts_len(children@);
    }
    if k >= children.len() {
        return Token::new_list(acc);
    }
    proof {
        crate::value::lemma_view_asts_index(children@, k as int);
        lemma_size_from_unfold(cv, k as int);
        lemma_size_from_unfold(seq![cv[k as int]], 0);
        if pure_asts(cv) {
            lemma_pure_asts_all(cv);
            assert(pure_ast(cv[k as int]));
            assert(pure_asts(seq![cv[k as int]])) by {
                assert(seq![cv[k as int]].drop_last() =~= Seq::<AstV>::empty());
                assert(pure_asts(Seq::<AstV>::empty()));
                assert(seq![cv[k as int]].last() == cv[k as int]);
            }
        }
    }
    let mut one: Vec<AST> = Vec::new();
    let c = crate::value::copy_ast(&children[k]);
    crate::value::push_ast(&mut one, c);
    proof {
        assert(crate::value::view_asts(one@) =~= seq![cv[k as int]]);
    }
    let cr = eval_stmts_exec(&one, scope, parent, depth, bridge);
    proof {
        if pure_asts(cv) && pure_scope_v(old(scope)@) && pure_tok(parent@) && pure_toks(
            crate::value::view_tokens(acc@),
        ) {
            lemma_eval_stmts_pure(seq![cv[k as int]], old(scope)@, parent@, depth as int);
        }
    }
    if check_if_error(&cr) {
        return cr;
    }
    let ghost accv = crate::value::view_tokens(acc@);
    let ghost crv = cr@;
    let mut acc2 = acc;
    crate::value::push_tok(&mut acc2, cr);
    proof {
        if pure_asts(cv) && pure_scope_v(old(scope)@) && pure_tok(parent@) && pure_toks(accv) {
            lemma_push_tok_pure(accv, crv);
        }
    }
    eval_list_exec(children, k + 1, scope, parent, acc2, depth, bridge)
}

/// Evaluates a bare block node at index `k`.
#[verifier::rlimit(100)]
#[verifier::loop_isolation(false)]
fn eval_bare_exec<B: crate::host::HostBridge>(
    nodes: &Vec<AST>,
    k: usize,
    scope: &mut crate::value::Scope,
    ctx: &Token,
    res: Token,
    depth: u32,
    bridge: &mut B,
) -> (r: Token)
    requires
        k < nodes@.len(),
        depth <= 100,
    ensures
        pure_inputs(crate::value::view_asts(nodes@), old(scope)@, ctx@, res@) ==> ({
            let (sr, ss) = eval_bare_block(
                crate::value::view_asts(nodes@),
                k as int,
                old(scope)@,
                ctx@,
                res@,
                depth as int,
            );
            r@ == sr && final(scope)@ == ss
        }),
    decreases budget(depth as int), size_from(crate::value::view_asts(nodes@), k as int), 1int,
{
    let ghost nv = crate::value::view_asts(nodes@);
    proof {
        crate::value::lemma_view_asts_len(nodes@);
        crate::value::lemma_view_asts_index(nodes@, k as int);
        lemma_size_from_unfold(nv, k as int);
        if nodes@[k as int].children@.len() > 0 {
            crate::value::lemma_view_asts_index(nodes@[k as int].children@, 0);
            lemma_size_from_unfold(nv[k as int].children, 0);
        }
        if pure_inputs(nv, old(scope)@, ctx@, res@) {
            lemma_pure_asts_all(nv);
            assert(pure_ast(nv[k as int]));
        }
    }
    let n = nodes.len();
    let borrowing = nodes[k].children.len() > 0 && crate::value::str_eq_lit(
        &nodes[k].children[0].token.value,
        "borrow",
    );
    let names: Vec<String> = if borrowing && nodes[k].children[0].children.len() > 0 {
        proof {
            crate::value::lemma_view_asts_index(nodes@[k as int].children@[0].children@, 0);
        }
        token_names_exec(&nodes[k].children[0].children[0].children)
    } else {
        Vec::new()
    };
    proof {
        if !(borrowing && nodes@[k as int].children@[0].children@.len() > 0) {
            assert(crate::value::view_strings(names@) =~= Seq::<Seq<char>>::empty());
        }
    }
    let borrowed = match borrowed_values_exec(scope, &names) {
        Result::Ok(vars) => vars,
        Result::Err(e) => {
            return e;
        },
    };
    let functions = builtins_of_exec(&scope.functions);
    let mut block_scope = crate::value::Scope { variables: borrowed, functions };
    proof {
        assert(block_scope@ =~= ScopeV {
            variables: crate::value::view_vars(block_scope.variables@),
            functions: builtins_of(old(scope)@.functions),
        });
        if pure_inputs(nv, old(scope)@, ctx@, res@) {
            lemma_borrowed_pure(
                old(scope)@,
                crate::value::view_strings(names@),
                0,
            );
            lemma_builtins_of_pure(old(scope)@.functions);
        }
    }
    let start: usize = if borrowing {
        1
    } else {
        0
    };
    let uctx = Token::new(TokenType::Unknown);
    let ures = Token::new(TokenType::Unknown);
    proof {
        lemma_fresh_pure(uctx@);
        lemma_fresh_pure(ures@);
    }
    let rb = eval_seq_exec(&nodes[k].children, start, &mut block_scope, &uctx, ures, depth, bridge);
    proof {
        if pure_inputs(nv, old(scope)@, ctx@, res@) {
            lemma_eval_seq_pure(
                nv[k as int].children,
                start as int,
                ScopeV {
                    variables: borrowed_values(
                        old(scope)@,
                        crate::value::view_strings(names@),
                        0,
                    )->0,
                    functions: builtins_of(old(scope)@.functions),
                },
                tok_new(TokenType::Unknown),
                tok_new(TokenType::Unknown),
                depth as int,
            );
        }
    }
    if check_if_error(&rb) {
        return rb;
    }
    let stripped = strip_names_exec(&block_scope.variables, &names);
    let wrapped = Token::new_scope(
        crate::value::Scope { variables: stripped, functions: block_scope.functions },
    );
    proof {
        if pure_inputs(nv, old(scope)@, ctx@, res@) {
            let bsc = eval_seq(
                nv[k as int].children,
                start as int,
                ScopeV {
                    variables: borrowed_values(
                        old(scope)@,
                        crate::value::view_strings(names@),
                        0,
                    )->0,
                    functions: builtins_of(old(scope)@.functions),
                },
                tok_new(TokenType::Unknown),
                tok_new(TokenType::Unknown),
                depth as int,
            ).1;
            lemma_strip_pure(bsc.variables, crate::value::view_strings(names@));
            assert(wrapped@ == tok_scope(
                ScopeV {
                    variables: strip_names(
                        bsc.variables,
                        crate::value::view_strings(names@),
                    ),
                    ..bsc
                },
            ));
            assert(pure_tok(wrapped@));
        }
    }
    eval_seq_exec(nodes, k + 1, scope, ctx, wrapped, depth, bridge)
}

/// A member name wrapped in double underscores: the reserved reflective
/// naming convention of the host boundary.
pub open spec fn is_dunder(name: Seq<char>) -> bool {
    &&& name.len() >= 2
    &&& name[0] == '_'
    &&& name[1] == '_'
    &&& name[name.len() - 1] == '_'
    &&& name[name.len() - 2] == '_'
}

/// The error with which a reflective member access is rejected.
pub open spec fn unsafe_member_error(name: Seq<char>) -> TokV {
    tok_error(TokenType::Error, "'"@ + name + "' attribute is not safe"@)
}

fn is_unsafe_name(name: &String) -> (r: bool)
    ensures
        r == is_dunder(name@),
{
    let n = name.as_str().unicode_len();
    if n < 2 {
        return false;
    }
    name.as_str().get_char(0) == '_' && name.as_str().get_char(1) == '_' && name.as_str().get_char(
        n - 1,
    ) == '_' && name.as_str().get_char(n - 2) == '_'
}

/// The safety rule shared by every host call path: a reflective member
/// name is turned into an error, and only a name this gate clears is ever
/// handed to the host bridge.
pub fn reject_unsafe_member(name: &String) -> (r: Option<Token>)
    ensures
        match r {
            Option::Some(e) => is_dunder(name@) && e@ == unsafe_member_error(name@),
            Option::None => !is_dunder(name@),
        },
{
    if is_unsafe_name(name) {
        let mut m = "'".to_owned();
        m.append(name.as_str());
        m.append("' attribute is not safe");
        Option::Some(Token::new_error(TokenType::Error, m))
    } else {
        Option::None
    }
}

/// Evaluates an identifier node at index `k`.
#[verifier::rlimit(100)]
#[verifier::loop_isolation(false)]
fn eval_var_exec<B: crate::host::HostBridge>(
    nodes: &Vec<AST>,
    k: usize,
    scope: &mut crate::value::Scope,
    ctx: &Token,
    res: Token,
    depth: u32,
    bridge: &mut B,
) -> (r: Token)
    requires
        k < nodes@.len(),
        depth <= 100,
        crate::value::view_asts(nodes@)[k as int].token.kind == TokenType::Var,
    ensures
        pure_inputs(crate::value::view_asts(nodes@), old(scope)@, ctx@, res@) ==> ({
            let (sr, ss) = eval_var_node(
                crate::value::view_asts(nodes@),
                k as int,
                old(scope)@,
                ctx@,
                res@,
                depth as int,
            );
            r@ == sr && final(scope)@ == ss
        }),
    decreases budget(depth as int), size_from(crate::value::view_asts(nodes@), k as int), 0int,
{
    let ghost nv = crate::value::view_asts(nodes@);
    proof {
        crate::value::lemma_view_asts_len(nodes@);
        crate::value::lemma_view_asts_index(nodes@, k as int);
        crate::value::lemma_view_asts_len(nodes@[k as int].children@);
        lemma_size_from_unfold(nv, k as int);
        if pure_inputs(nv, old(scope)@, ctx@, res@) {
            lemma_pure_asts_all(nv);
            assert(pure_ast(nv[k as int]));
            lemma_lookup_pure(old(scope)@, ctx@.value);
        }
    }
    let n = nodes.len();
    let ctx_var = crate::scope::get_variable(&ctx.value, scope);
    if ctx.kind != TokenType::Unknown && (ctx_var.is_some() || ctx.kind == TokenType::ScopeValue) {
        match ctx_var {
            Option::Some(ctxval) => {
                if ctxval.kind == TokenType::HostObject {
                    // the call crosses the host boundary: evaluate the
                    // arguments, reject reflective names, and forward
                    let mctx = crate::value::copy_token(&nodes[k].token);
                    let args_result = eval_stmts_exec(
                        &nodes[k].children,
                        scope,
                        &mctx,
                        depth,
                        bridge,
                    );
                    if check_if_error(&args_result) {
                        return args_result;
                    }
                    match reject_unsafe_member(&nodes[k].token.value) {
                        Option::Some(e) => {
                            return e;
                        },
                        Option::None => {},
                    }
                    if !(args_result.kind == TokenType::List || args_result.kind
                        == TokenType::ScopeValue) {
                        return syntax_error_exec("Function payload must be list or scope");
                    }
                    match ctxval.hostref {
                        Option::Some(h) => {
                            return bridge.call_method(h, &nodes[k].token.value, &args_result);
                        },
                        Option::None => {
                            return Token::new_error(
                                TokenType::Error,
                                "host object has no handle".to_owned(),
                            );
                        },
                    }
                } else if ctxval.kind == TokenType::ScopeValue {
                    match ctxval.scope {
                        Option::Some(inner) => {
                            proof {
                                if pure_inputs(nv, old(scope)@, ctx@, res@) {
                                    assert(pure_tok(ctxval@));
                                }
                            }
                            match crate::scope::get_variable(&nodes[k].token.value, &*inner) {
                                Option::Some(member) => {
                                    if nodes[k].children.len() == 0 {
                                        return member;
                                    }
                                    let mut inner_scope = crate::value::copy_scope(&*inner);
                                    let mctx = crate::value::copy_token(&nodes[k].token);
                                    let r2 = eval_stmts_exec(
                                        &nodes[k].children,
                                        &mut inner_scope,
                                        &mctx,
                                        depth,
                                        bridge,
                                    );
                                    return r2;
                                },
                                Option::None => {
                                    return undef_error_exec(&nodes[k].token.value);
                                },
                            }
                        },
                        Option::None => {
                            return undef_error_exec(&nodes[k].token.value);
                        },
                    }
                } else {
                    return undef_error_exec(&ctx.value);
                }
            },
            Option::None => {
                // the context value is itself a namespace
                match &ctx.scope {
                    Option::Some(inner) => {
                        proof {
                            if pure_inputs(nv, old(scope)@, ctx@, res@) {
                                assert(pure_scope_v(inner@));
                            }
                        }
                        match crate::scope::get_variable(&nodes[k].token.value, &**inner) {
                            Option::Some(member) => {
                                if nodes[k].children.len() == 0 {
                                    return member;
                                }
                                proof {
                                    if pure_inputs(nv, old(scope)@, ctx@, res@) {
                                        lemma_lookup_pure(inner@, nv[k as int].token.value);
                                    }
                                }
                                let r2 = eval_stmts_exec(
                                    &nodes[k].children,
                                    scope,
                                    &member,
                                    depth,
                                    bridge,
                                );
                                return r2;
                            },
                            Option::None => {
                                return undef_error_exec(&nodes[k].token.value);
                            },
                        }
                    },
                    Option::None => {
                        return undef_error_exec(&nodes[k].token.value);
                    },
                }
            },
        }
    }
    proof {
        if pure_inputs(nv, old(scope)@, ctx@, res@) {
            lemma_lookup_pure(old(scope)@, nv[k as int].token.value);
        }
    }
    match crate::scope::get_variable(&nodes[k].token.value, scope) {
        Option::Some(val) => {
            if nodes[k].children.len() == 0 {
                return eval_seq_exec(nodes, k + 1, scope, ctx, val, depth, bridge);
            }
            let mctx = crate::value::copy_token(&nodes[k].token);
            let r2 = eval_stmts_exec(&nodes[k].children, scope, &mctx, depth, bridge);
            proof {
                if pure_inputs(nv, old(scope)@, ctx@, res@) {
                    lemma_eval_stmts_pure(
                        nv[k as int].children,
                        old(scope)@,
                        nv[k as int].token,
                        depth as int,
                    );
                }
            }
            if check_if_error(&r2) {
                return r2;
            }
            return eval_seq_exec(nodes, k + 1, scope, ctx, r2, depth, bridge);
        },
        Option::None => {
            match crate::scope::get_function(&nodes[k].token.value, scope) {
                Option::Some(f) => {
                    proof {
                        crate::scope::lemma_find_fun_bound(
                            old(scope)@.functions,
                            nv[k as int].token.value,
                            0,
                        );
                        if pure_inputs(nv, old(scope)@, ctx@, res@) {
                            lemma_pure_funs_all(old(scope)@.functions);
                        }
                    }
                    let mctx = crate::value::copy_token(&nodes[k].token);
                    let args_result = eval_stmts_exec(
                        &nodes[k].children,
                        scope,
                        &mctx,
                        depth,
                        bridge,
                    );
                    proof {
                        if pure_inputs(nv, old(scope)@, ctx@, res@) {
                            lemma_eval_stmts_pure(
                                nv[k as int].children,
                                old(scope)@,
                                nv[k as int].token,
                                depth as int,
                            );
                        }
                    }
                    if check_if_error(&args_result) {
                        return args_result;
                    }
                    proof {
                        crate::value::lemma_view_tokens_len(args_result.list@);
                    }
                    match f.body {
                        Option::Some(body) => {
                            if args_result.list.len() != f.args.len() {
                                return fn_arity_error_exec(&f.name, f.args.len());
                            }
                            let mut fvars = crate::value::copy_vars(&scope.variables);
                            let mut bound = bindings_of_exec(&f.args, &args_result.list);
                            let ghost fr = fvars@;
                            let ghost br = bound@;
                            fvars.append(&mut bound);
                            proof {
                                crate::value::lemma_view_vars_concat(fr, br);
                                assert(fvars@ == fr + br);
                            }
                            let ffuns = crate::value::copy_funs(&scope.functions);
                            let mut fscope = crate::value::Scope {
                                variables: fvars,
                                functions: ffuns,
                            };
                            let fctx = Token::new(TokenType::Func);
                            proof {
                                lemma_fresh_pure(fctx@);
                                if pure_inputs(nv, old(scope)@, ctx@, res@) {
                                    let sc2 = eval_stmts(
                                        nv[k as int].children,
                                        old(scope)@,
                                        nv[k as int].token,
                                        depth as int,
                                    ).1;
                                    lemma_bindings_pure(
                                        crate::value::view_strings(f.args@),
                                        eval_stmts(
                                            nv[k as int].children,
                                            old(scope)@,
                                            nv[k as int].token,
                                            depth as int,
                                        ).0.list,
                                        0,
                                    );
                                    lemma_concat_vars_pure(
                                        sc2.variables,
                                        bindings_of(
                                            crate::value::view_strings(f.args@),
                                            eval_stmts(
                                                nv[k as int].children,
                                                old(scope)@,
                                                nv[k as int].token,
                                                depth as int,
                                            ).0.list,
                                            0,
                                        ),
                                    );
                                }
                            }
                            let rb = eval_stmts_exec(&body, &mut fscope, &fctx, depth + 1, bridge);
                            proof {
                                if pure_inputs(nv, old(scope)@, ctx@, res@) {
                                    lemma_eval_stmts_pure(
                                        crate::value::view_asts(body@),
                                        fscope_spec_of(
                                            nv,
                                            k as int,
                                            old(scope)@,
                                            depth as int,
                                            crate::value::view_strings(f.args@),
                                        ),
                                        tok_new(TokenType::Func),
                                        depth + 1,
                                    );
                                }
                            }
                            if check_if_error(&rb) {
                                return rb;
                            }
                            merge_back_exec(scope, &fscope.variables, &f.args);
                            proof {
                                if pure_inputs(nv, old(scope)@, ctx@, res@) {
                                    let sc2 = eval_stmts(
                                        nv[k as int].children,
                                        old(scope)@,
                                        nv[k as int].token,
                                        depth as int,
                                    ).1;
                                    lemma_merge_pure(
                                        sc2.variables,
                                        crate::value::view_vars(fscope.variables@),
                                        0,
                                        crate::value::view_strings(f.args@),
                                    );
                                }
                            }
                            return eval_seq_exec(nodes, k + 1, scope, ctx, rb, depth, bridge);
                        },
                        Option::None => {
                            match f.hostfn {
                                Option::Some(h) => {
                                    if !(args_result.kind == TokenType::List || args_result.kind
                                        == TokenType::ScopeValue) {
                                        return syntax_error_exec(
                                            "Function payload must be list or scope",
                                        );
                                    }
                                    let snapshot = crate::value::copy_scope(scope);
                                    return bridge.call_function(
                                        h,
                                        &f.name,
                                        &args_result,
                                        &snapshot,
                                    );
                                },
                                Option::None => {
                                    match crate::builtins::call_builtin(
                                        &f.name,
                                        &args_result.list,
                                        scope,
                                        bridge,
                                    ) {
                                        Option::Some(bt) => {
                                            proof {
                                                if pure_inputs(nv, old(scope)@, ctx@, res@) {
                                                    let argsl = eval_stmts(
                                                        nv[k as int].children,
                                                        old(scope)@,
                                                        nv[k as int].token,
                                                        depth as int,
                                                    ).0.list;
                                                    lemma_pure_toks_all(argsl);
                                                    assert(crate::builtins::builtin_det(
                                                        f@.name,
                                                        argsl,
                                                    ));
                                                    let sc2 = eval_stmts(
                                                        nv[k as int].children,
                                                        old(scope)@,
                                                        nv[k as int].token,
                                                        depth as int,
                                                    ).1;
                                                    lemma_builtin_spec_pure(
                                                        f@.name,
                                                        eval_stmts(
                                                            nv[k as int].children,
                                                            old(scope)@,
                                                            nv[k as int].token,
                                                            depth as int,
                                                        ).0.list,
                                                        sc2,
                                                    );
                                                }
                                            }
                                            if check_if_error(&bt) {
                                                return bt;
                                            }
                                            return eval_seq_exec(
                                                nodes,
                                                k + 1,
                                                scope,
                                                ctx,
                                                bt,
                                                depth,
                                                bridge,
                                            );
                                        },
                                        Option::None => {
                                            return eval_seq_exec(
                                                nodes,
                                                k + 1,
                                                scope,
                                                ctx,
                                                res,
                                                depth,
                                                bridge,
                                            );
                                        },
                                    }
                                },
                            }
                        },
                    }
                },
                Option::None => {
                    if nodes[k].children.len() == 0 {
                        return undef_var_error_exec(&nodes[k].token.value);
                    }
                    proof {
                        crate::value::lemma_view_asts_index(nodes@[k as int].children@, 0);
                    }
                    if !(nodes[k].children[0].kind == ASTType::Assign) {
                        return undef_var_error_exec(&nodes[k].token.value);
                    }
                    let mctx = crate::value::copy_token(&nodes[k].token);
                    let r2 = eval_stmts_exec(&nodes[k].children, scope, &mctx, depth, bridge);
                    proof {
                        if pure_inputs(nv, old(scope)@, ctx@, res@) {
                            lemma_eval_stmts_pure(
                                nv[k as int].children,
                                old(scope)@,
                                nv[k as int].token,
                                depth as int,
                            );
                        }
                    }
                    if check_if_error(&r2) {
                        return r2;
                    }
                    return eval_seq_exec(nodes, k + 1, scope, ctx, r2, depth, bridge);
                },
            }
        },
    }
}

/// The function-call scope of the model, named for the proofs above.
pub open spec fn fscope_spec_of(
    nv: Seq<AstV>,
    k: int,
    sc: ScopeV,
    depth: int,
    params: Seq<Seq<char>>,
) -> ScopeV {
    let (args_res, sc2) = eval_stmts(nv[k].children, sc, nv[k].token, depth);
    ScopeV {
        variables: sc2.variables + bindings_of(params, args_res.list, 0),
        functions: sc2.functions,
    }
}

/// The ambient context of an evaluation: the given token, or the unknown
/// token when the caller passes none.
pub open spec fn opt_ctx(context: Option<Token>) -> TokV {
    match context {
        Option::Some(c) => c@,
        Option::None => tok_new(TokenType::Unknown),
    }
}

pub open spec fn pure_opt(context: Option<Token>) -> bool {
    match context {
        Option::Some(c) => pure_tok(c@),
        Option::None => true,
    }
}

/// Walks the statement trees against the scope. `context` is the ambient
/// left-operand value threaded between sibling statements; `depth` is the
/// current nesting under the hard recursion ceiling, and exceeding the
/// ceiling fails with a recursion error carried as a value. For a pure
/// tree, scope and context — nothing of the host in them, no call of the
/// sampling builtin — the result and the final scope are exactly those of
/// the evaluation model.
pub fn execute_ast<B: crate::host::HostBridge>(
    ast: &Vec<AST>,
    scope: &mut crate::value::Scope,
    context: Option<Token>,
    depth: u32,
    bridge: &mut B,
) -> (r: Token)
    ensures
        depth > 100 ==> r@ == recursion_error() && final(scope)@ == old(scope)@,
        pure_asts(crate::value::view_asts(ast@)) && pure_scope_v(old(scope)@) && pure_opt(context)
            ==> ({
            let (sr, ss) = eval_stmts(
                crate::value::view_asts(ast@),
                old(scope)@,
                opt_ctx(context),
                depth as int,
            );
            r@ == sr && final(scope)@ == ss
        }),
{
    if depth > 100 {
        return recursion_error_exec();
    }
    match context {
        Option::Some(c) => eval_stmts_exec(ast, scope, &c, depth, bridge),
        Option::None => {
            let u = Token::new(TokenType::Unknown);
            proof {
                lemma_fresh_pure(u@);
            }
            eval_stmts_exec(ast, scope, &u, depth, bridge)
        },
    }
}

} // verus!
