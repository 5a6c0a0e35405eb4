//! The parser: a flat token sequence to a list of statement trees. The
//! parser never raises; a structural failure becomes an `Error`-typed node
//! that the evaluator detects and propagates.
use vstd::prelude::*;

use crate::value::group_view_lemmas;
use crate::value::is_error_kind;
use crate::value::kind_name_spec;
use crate::value::tok_error;
use crate::value::tok_new;
use crate::value::view_asts;
use crate::value::view_tokens;
use crate::value::AST;
use crate::value::ASTType;
use crate::value::AstV;
use crate::value::Token;
use crate::value::TokenType;
use crate::value::TokV;

verus! {

// ---------------------------------------------------------------------------
// Node shapes
// ---------------------------------------------------------------------------

pub open spec fn ast_node(kind: ASTType, token: TokV, children: Seq<AstV>) -> AstV {
    AstV { kind, token, children }
}

/// A structural failure, carried in the tree as a node.
pub open spec fn err_node(text: Seq<char>) -> AstV {
    ast_node(ASTType::Error, tok_error(TokenType::SyntaxError, text), Seq::empty())
}

/// Operators that head an `Expression` statement.
pub open spec fn is_expr_head(k: TokenType) -> bool {
    ||| k == TokenType::Plus
    ||| k == TokenType::Minus
    ||| k == TokenType::Multiply
    ||| k == TokenType::Divide
    ||| k == TokenType::Modulo
    ||| k == TokenType::EqualTo
    ||| k == TokenType::NotEqual
    ||| k == TokenType::Greater
    ||| k == TokenType::GreaterEqual
    ||| k == TokenType::Less
    ||| k == TokenType::LessEqual
    ||| k == TokenType::And
    ||| k == TokenType::Or
    ||| k == TokenType::Not
}

/// Operators that head an `Assign` statement.
pub open spec fn is_assign_head(k: TokenType) -> bool {
    ||| k == TokenType::Equal
    ||| k == TokenType::PlusEqual
    ||| k == TokenType::MinusEqual
    ||| k == TokenType::MultiplyEqual
    ||| k == TokenType::DivideEqual
    ||| k == TokenType::ModuloEqual
}

/// Tokens that head a `Token` statement: identifiers, member separators and
/// literals.
pub open spec fn is_token_head(k: TokenType) -> bool {
    ||| k == TokenType::Var
    ||| k == TokenType::Dot
    ||| k == TokenType::Int
    ||| k == TokenType::Str
    ||| k == TokenType::Bool
    ||| k == TokenType::NoneValue
}

// ---------------------------------------------------------------------------
// Token collection
// ---------------------------------------------------------------------------

/// Collects the tokens of one statement from `i` on, verbatim, up to the
/// terminating semicolon at brace depth zero (consumed, not collected); the
/// result also carries the position after the statement.
pub open spec fn collect_expr(toks: Seq<TokV>, i: int, depth: int, acc: Seq<TokV>) -> (
    Seq<TokV>,
    int,
)
    decreases toks.len() - i,
{
    if i < 0 || i >= toks.len() {
        (acc, toks.len() as int)
    } else {
        let k = toks[i].kind;
        if depth <= 0 && k == TokenType::Semicolon {
            (acc, i + 1)
        } else {
            let d = if k == TokenType::LeftBrace {
                depth + 1
            } else if k == TokenType::RightBrace {
                depth - 1
            } else {
                depth
            };
            collect_expr(toks, i + 1, d, acc.push(toks[i]))
        }
    }
}

pub proof fn lemma_collect_expr_bounds(toks: Seq<TokV>, i: int, depth: int, acc: Seq<TokV>)
    requires
        0 <= i <= toks.len(),
    ensures
        ({
            let (out, j) = collect_expr(toks, i, depth, acc);
            i <= j <= toks.len() && out.len() - acc.len() <= j - i && (i < toks.len() ==> j > i)
        }),
    decreases toks.len() - i,
{
    if i < toks.len() {
        let k = toks[i].kind;
        if !(depth <= 0 && k == TokenType::Semicolon) {
            let d = if k == TokenType::LeftBrace {
                depth + 1
            } else if k == TokenType::RightBrace {
                depth - 1
            } else {
                depth
            };
            lemma_collect_expr_bounds(toks, i + 1, d, acc.push(toks[i]));
        }
    }
}

/// Collects the body of a brace block from `i` on: every token up to the
/// matching closing brace (which is consumed, not collected), inner braces
/// kept. The flag reports whether the closing brace was found at all.
pub open spec fn collect_block(toks: Seq<TokV>, i: int, depth: int, acc: Seq<TokV>) -> (
    Seq<TokV>,
    int,
    bool,
)
    decreases toks.len() - i,
{
    if i < 0 || i >= toks.len() {
        (acc, toks.len() as int, false)
    } else {
        let k = toks[i].kind;
        if k == TokenType::RightBrace && depth <= 1 {
            (acc, i + 1, true)
        } else {
            let d = if k == TokenType::LeftBrace {
                depth + 1
            } else if k == TokenType::RightBrace {
                depth - 1
            } else {
                depth
            };
            collect_block(toks, i + 1, d, acc.push(toks[i]))
        }
    }
}

pub proof fn lemma_collect_block_bounds(toks: Seq<TokV>, i: int, depth: int, acc: Seq<TokV>)
    requires
        0 <= i <= toks.len(),
    ensures
        ({
            let (out, j, ok) = collect_block(toks, i, depth, acc);
            i <= j <= toks.len() && out.len() - acc.len() <= j - i && (ok ==> out.len()
                - acc.len() <= j - i - 1) && (i < toks.len() ==> j > i)
        }),
    decreases toks.len() - i,
{
    if i < toks.len() {
        let k = toks[i].kind;
        if !(k == TokenType::RightBrace && depth <= 1) {
            let d = if k == TokenType::LeftBrace {
                depth + 1
            } else if k == TokenType::RightBrace {
                depth - 1
            } else {
                depth
            };
            lemma_collect_block_bounds(toks, i + 1, d, acc.push(toks[i]));
        }
    }
}

/// Collects the condition tokens of an `if`: everything up to the brace
/// that opens the first branch. The position points at that brace; the
/// flag reports whether one was found before a semicolon or the end.
pub open spec fn collect_cond(toks: Seq<TokV>, i: int, acc: Seq<TokV>) -> (Seq<TokV>, int, bool)
    decreases toks.len() - i,
{
    if i < 0 || i >= toks.len() {
        (acc, toks.len() as int, false)
    } else {
        let k = toks[i].kind;
        if k == TokenType::LeftBrace {
            (acc, i, true)
        } else if k == TokenType::Semicolon {
            (acc, i + 1, false)
        } else {
            collect_cond(toks, i + 1, acc.push(toks[i]))
        }
    }
}

pub proof fn lemma_collect_cond_bounds(toks: Seq<TokV>, i: int, acc: Seq<TokV>)
    requires
        0 <= i <= toks.len(),
    ensures
        ({
            let (out, j, found) = collect_cond(toks, i, acc);
            i <= j <= toks.len() && out.len() - acc.len() <= j - i && (found ==> j < toks.len()
                && toks[j].kind == TokenType::LeftBrace)
        }),
    decreases toks.len() - i,
{
    if i < toks.len() {
        let k = toks[i].kind;
        if k != TokenType::LeftBrace && k != TokenType::Semicolon {
            lemma_collect_cond_bounds(toks, i + 1, acc.push(toks[i]));
        }
    }
}

/// Collects the parameter names of a function header from `i` on, up to
/// the closing parenthesis; commas separate, and only identifiers may
/// stand as parameters.
pub open spec fn collect_params(toks: Seq<TokV>, i: int, acc: Seq<AstV>) -> (Seq<AstV>, int, bool)
    decreases toks.len() - i,
{
    if i < 0 || i >= toks.len() {
        (acc, toks.len() as int, false)
    } else {
        let k = toks[i].kind;
        if k == TokenType::RightParen {
            (acc, i + 1, true)
        } else if k == TokenType::Comma {
            collect_params(toks, i + 1, acc)
        } else if k == TokenType::Var {
            collect_params(toks, i + 1, acc.push(ast_node(ASTType::Token, toks[i], Seq::empty())))
        } else {
            (acc, i, false)
        }
    }
}

pub proof fn lemma_collect_params_bounds(toks: Seq<TokV>, i: int, acc: Seq<AstV>)
    requires
        0 <= i <= toks.len(),
    ensures
        i <= collect_params(toks, i, acc).1 <= toks.len(),
    decreases toks.len() - i,
{
    if i < toks.len() {
        let k = toks[i].kind;
        if k == TokenType::Comma {
            lemma_collect_params_bounds(toks, i + 1, acc);
        } else if k == TokenType::Var {
            lemma_collect_params_bounds(
                toks,
                i + 1,
                acc.push(ast_node(ASTType::Token, toks[i], Seq::empty())),
            );
        }
    }
}

// ---------------------------------------------------------------------------
// Grouped lists
// ---------------------------------------------------------------------------

/// Parses the comma-separated elements of a group up to its closing token
/// (consumed); the result carries the elements and the position after the
/// group.
pub open spec fn parse_list(toks: Seq<TokV>, i: int, closer: TokenType) -> (Seq<AstV>, int)
    decreases toks.len() - i, 2int,
{
    if i < 0 || i >= toks.len() {
        (Seq::empty(), toks.len() as int)
    } else if toks[i].kind == closer {
        (Seq::empty(), i + 1)
    } else if toks[i].kind == TokenType::Comma || toks[i].kind == TokenType::Comment {
        parse_list(toks, i + 1, closer)
    } else {
        let (node, j) = parse_element(toks, i, closer);
        if i < j <= toks.len() {
            let (rest, j2) = parse_list(toks, j, closer);
            (seq![node] + rest, j2)
        } else {
            (seq![node], toks.len() as int)
        }
    }
}

/// Parses one element of a group: a nested group, or a head token with its
/// trailing postfix chain.
pub open spec fn parse_element(toks: Seq<TokV>, i: int, closer: TokenType) -> (AstV, int)
    decreases toks.len() - i, 0int,
{
    if i < 0 || i >= toks.len() {
        (err_node("missing token"@), toks.len() as int)
    } else {
        let t = toks[i];
        if t.kind == TokenType::LeftParen {
            let (sub, j) = parse_list(toks, i + 1, TokenType::RightParen);
            (ast_node(ASTType::Token, tok_new(TokenType::List), sub), j)
        } else if t.kind == TokenType::LeftBracket {
            let (sub, j) = parse_list(toks, i + 1, TokenType::RightBracket);
            (ast_node(ASTType::Token, tok_new(TokenType::List), sub), j)
        } else if is_error_kind(t.kind) {
            (ast_node(ASTType::Error, t, Seq::empty()), i + 1)
        } else if t.kind == TokenType::Not {
            let (chain, j) = parse_rest(toks, i + 1, closer);
            (ast_node(ASTType::Expression, t, chain), j)
        } else {
            let (chain, j) = parse_rest(toks, i + 1, closer);
            (ast_node(ASTType::Token, t, chain), j)
        }
    }
}

/// Parses the postfix chain of one element, stopping (without consuming)
/// at a comma or at the group's closing token.
pub open spec fn parse_rest(toks: Seq<TokV>, i: int, closer: TokenType) -> (Seq<AstV>, int)
    decreases toks.len() - i, 1int,
{
    if i < 0 || i >= toks.len() {
        (Seq::empty(), toks.len() as int)
    } else if toks[i].kind == closer || toks[i].kind == TokenType::Comma {
        (Seq::empty(), i)
    } else if toks[i].kind == TokenType::Comment {
        parse_rest(toks, i + 1, closer)
    } else {
        let (node, j) = parse_element(toks, i, closer);
        if i < j <= toks.len() {
            let (rest, j2) = parse_rest(toks, j, closer);
            (seq![node] + rest, j2)
        } else {
            (seq![node], toks.len() as int)
        }
    }
}

// ---------------------------------------------------------------------------
// Statements
// ---------------------------------------------------------------------------

/// Parses the statements of the token sequence from `i` on.
pub open spec fn parse_stmts(toks: Seq<TokV>, i: int) -> Seq<AstV>
    decreases toks.len() - i, 4int,
{
    if i < 0 || i >= toks.len() {
        Seq::empty()
    } else {
        let t = toks[i];
        let k = t.kind;
        let remaining = toks.len() - i;
        if is_error_kind(k) {
            seq![ast_node(ASTType::Error, t, Seq::empty())] + parse_tail(toks, i, i + 1)
        } else if k == TokenType::RightParen || k == TokenType::RightBracket || k
            == TokenType::RightBrace {
            seq![err_node("unmatched "@ + kind_name_spec(k))] + parse_tail(toks, i, i + 1)
        } else if is_expr_head(k) {
            let (sub, j) = collect_expr(toks, i + 1, 0, Seq::empty());
            let children = if sub.len() < remaining {
                parse_stmts(sub, 0)
            } else {
                Seq::empty()
            };
            seq![ast_node(ASTType::Expression, t, children)] + parse_tail(toks, i, j)
        } else if is_assign_head(k) {
            let (sub, j) = collect_expr(toks, i + 1, 0, Seq::empty());
            let children = if sub.len() < remaining {
                parse_stmts(sub, 0)
            } else {
                Seq::empty()
            };
            seq![ast_node(ASTType::Assign, t, children)] + parse_tail(toks, i, j)
        } else if is_token_head(k) {
            let (sub, j) = collect_expr(toks, i + 1, 0, Seq::empty());
            let children = if sub.len() < remaining {
                parse_stmts(sub, 0)
            } else {
                Seq::empty()
            };
            seq![ast_node(ASTType::Token, t, children)] + parse_tail(toks, i, j)
        } else if k == TokenType::Return {
            let (sub, j) = collect_expr(toks, i + 1, 0, Seq::empty());
            let children = if sub.len() < remaining {
                parse_stmts(sub, 0)
            } else {
                Seq::empty()
            };
            seq![ast_node(ASTType::Keyword, t, children)] + parse_tail(toks, i, j)
        } else if k == TokenType::If {
            let (node, j) = parse_if(toks, i);
            seq![node] + parse_tail(toks, i, j)
        } else if k == TokenType::Func {
            let (node, j) = parse_fn(toks, i);
            seq![node] + parse_tail(toks, i, j)
        } else if k == TokenType::LeftParen {
            let (items, j) = parse_list(toks, i + 1, TokenType::RightParen);
            seq![ast_node(ASTType::Token, tok_new(TokenType::List), items)] + parse_tail(toks, i, j)
        } else if k == TokenType::LeftBracket {
            let (items, j) = parse_list(toks, i + 1, TokenType::RightBracket);
            seq![ast_node(ASTType::Token, tok_new(TokenType::List), items)] + parse_tail(toks, i, j)
        } else if k == TokenType::LeftBrace {
            let (content, j, ok) = collect_block(toks, i + 1, 1, Seq::empty());
            if !ok {
                seq![err_node("missing RightBrace"@)] + parse_tail(toks, i, j)
            } else {
                let children = if content.len() < remaining {
                    parse_stmts(content, 0)
                } else {
                    Seq::empty()
                };
                seq![ast_node(ASTType::Block, tok_new(TokenType::Unknown), children)] + parse_tail(
                    toks,
                    i,
                    j,
                )
            }
        } else {
            parse_tail(toks, i, i + 1)
        }
    }
}

/// The statements after position `j`, guarded so that every caller makes
/// progress past `i`.
pub open spec fn parse_tail(toks: Seq<TokV>, i: int, j: int) -> Seq<AstV>
    decreases toks.len() - i, 3int,
{
    if i < j <= toks.len() {
        parse_stmts(toks, j)
    } else {
        Seq::empty()
    }
}

/// Parses an `if` statement at `i`: the condition block, the mandatory
/// then-block, and an optional else-block.
pub open spec fn parse_if(toks: Seq<TokV>, i: int) -> (AstV, int)
    decreases toks.len() - i, 2int,
{
    let remaining = toks.len() - i;
    let t = toks[i];
    let (cond, jlb, found) = collect_cond(toks, i + 1, Seq::empty());
    if !found {
        (err_node("if without a block"@), jlb)
    } else {
        let cond_children = if cond.len() < remaining {
            parse_stmts(cond, 0)
        } else {
            Seq::empty()
        };
        let cond_node = ast_node(ASTType::Block, tok_new(TokenType::Unknown), cond_children);
        let (body, j2, ok) = collect_block(toks, jlb + 1, 1, Seq::empty());
        if !ok {
            (err_node("missing RightBrace"@), j2)
        } else {
            let body_children = if body.len() < remaining {
                parse_stmts(body, 0)
            } else {
                Seq::empty()
            };
            let body_node = ast_node(ASTType::Block, tok_new(TokenType::Unknown), body_children);
            if j2 < toks.len() && toks[j2].kind == TokenType::Else {
                if j2 + 1 < toks.len() && toks[j2 + 1].kind == TokenType::LeftBrace {
                    let (els, j3, ok3) = collect_block(toks, j2 + 2, 1, Seq::empty());
                    if !ok3 {
                        (err_node("missing RightBrace"@), j3)
                    } else {
                        let els_children = if els.len() < remaining {
                            parse_stmts(els, 0)
                        } else {
                            Seq::empty()
                        };
                        let els_node = ast_node(
                            ASTType::Block,
                            tok_new(TokenType::Unknown),
                            els_children,
                        );
                        (
                            ast_node(
                                ASTType::Keyword,
                                t,
                                seq![cond_node, body_node, els_node],
                            ),
                            j3,
                        )
                    }
                } else {
                    (err_node("else without a block"@), j2 + 1)
                }
            } else {
                (ast_node(ASTType::Keyword, t, seq![cond_node, body_node]), j2)
            }
        }
    }
}

/// Parses a function definition at `i`: the name, the parenthesized
/// parameter names, and the body block. Any other shape is a structural
/// error that ends the parse of the remaining input.
pub open spec fn parse_fn(toks: Seq<TokV>, i: int) -> (AstV, int)
    decreases toks.len() - i, 2int,
{
    let remaining = toks.len() - i;
    let t = toks[i];
    if i + 2 >= toks.len() || toks[i + 1].kind != TokenType::Var || toks[i + 2].kind
        != TokenType::LeftParen {
        (err_node("invalid function definition"@), toks.len() as int)
    } else {
        let name_node = ast_node(ASTType::Token, toks[i + 1], Seq::empty());
        let (params, jp, okp) = collect_params(toks, i + 3, Seq::empty());
        if !okp {
            (err_node("invalid function definition"@), toks.len() as int)
        } else {
            let params_node = ast_node(ASTType::Token, tok_new(TokenType::List), params);
            if jp < toks.len() && toks[jp].kind == TokenType::LeftBrace {
                let (body, jb, okb) = collect_block(toks, jp + 1, 1, Seq::empty());
                if !okb {
                    (err_node("missing RightBrace"@), jb)
                } else {
                    let body_children = if body.len() < remaining {
                        parse_stmts(body, 0)
                    } else {
                        Seq::empty()
                    };
                    let body_node = ast_node(
                        ASTType::Block,
                        tok_new(TokenType::Unknown),
                        body_children,
                    );
                    (
                        ast_node(
                            ASTType::Keyword,
                            t,
                            seq![name_node, params_node, body_node],
                        ),
                        jb,
                    )
                }
            } else {
                (err_node("invalid function definition"@), toks.len() as int)
            }
        }
    }
}

/// The statement trees of a whole token sequence.
pub open spec fn parse_spec(toks: Seq<TokV>) -> Seq<AstV> {
    parse_stmts(toks, 0)
}

// ---------------------------------------------------------------------------
// Bounds of the grouped-list parse
// ---------------------------------------------------------------------------

pub proof fn lemma_parse_list_bounds(toks: Seq<TokV>, i: int, closer: TokenType)
    requires
        0 <= i <= toks.len(),
    ensures
        i <= parse_list(toks, i, closer).1 <= toks.len(),
    decreases toks.len() - i, 2int,
{
    if i < toks.len() {
        if toks[i].kind == closer {
        } else if toks[i].kind == TokenType::Comma || toks[i].kind == TokenType::Comment {
            lemma_parse_list_bounds(toks, i + 1, closer);
        } else {
            lemma_parse_element_bounds(toks, i, closer);
            let (node, j) = parse_element(toks, i, closer);
            if i < j <= toks.len() {
                lemma_parse_list_bounds(toks, j, closer);
            }
        }
    }
}

pub proof fn lemma_parse_element_bounds(toks: Seq<TokV>, i: int, closer: TokenType)
    requires
        0 <= i <= toks.len(),
    ensures
        i <= parse_element(toks, i, closer).1 <= toks.len(),
        i < toks.len() ==> parse_element(toks, i, closer).1 > i,
    decreases toks.len() - i, 0int,
{
    if i < toks.len() {
        let t = toks[i];
        if t.kind == TokenType::LeftParen {
            lemma_parse_list_bounds(toks, i + 1, TokenType::RightParen);
        } else if t.kind == TokenType::LeftBracket {
            lemma_parse_list_bounds(toks, i + 1, TokenType::RightBracket);
        } else if is_error_kind(t.kind) {
        } else {
            lemma_parse_rest_bounds(toks, i + 1, closer);
        }
    }
}

pub proof fn lemma_parse_rest_bounds(toks: Seq<TokV>, i: int, closer: TokenType)
    requires
        0 <= i <= toks.len(),
    ensures
        i <= parse_rest(toks, i, closer).1 <= toks.len(),
    decreases toks.len() - i, 1int,
{
    if i < toks.len() {
        if toks[i].kind == closer || toks[i].kind == TokenType::Comma {
        } else if toks[i].kind == TokenType::Comment {
            lemma_parse_rest_bounds(toks, i + 1, closer);
        } else {
            lemma_parse_element_bounds(toks, i, closer);
            let (node, j) = parse_element(toks, i, closer);
            if i < j <= toks.len() {
                lemma_parse_rest_bounds(toks, j, closer);
            }
        }
    }
}

// ---------------------------------------------------------------------------
// Executable collection
// ---------------------------------------------------------------------------

#[verifier::loop_isolation(false)]
fn collect_expr_exec(v: &Vec<Token>, i: usize) -> (r: (Vec<Token>, usize))
    requires
        i <= v@.len(),
    ensures
        ({
            let (out, j) = collect_expr(view_tokens(v@), i as int, 0, Seq::empty());
            view_tokens(r.0@) == out && r.1 as int == j && i <= r.1 <= v@.len() && r.0@.len() as int
                <= j - i
        }),
{
    broadcast use group_view_lemmas;

    let ghost vv = view_tokens(v@);
    proof {
        crate::value::lemma_view_tokens_len(v@);
        lemma_collect_expr_bounds(vv, i as int, 0, Seq::empty());
    }
    let mut out: Vec<Token> = Vec::new();
    let mut k = i;
    let mut depth: i128 = 0;
    while k < v.len()
        invariant
            i <= k <= v@.len(),
            out@.len() <= k - i,
            -(k - i as int) <= depth as int <= k - i as int,
            collect_expr(vv, i as int, 0, Seq::empty()) == collect_expr(
                vv,
                k as int,
                depth as int,
                view_tokens(out@),
            ),
        decreases v@.len() - k,
    {
        proof {
            crate::value::lemma_view_tokens_index(v@, k as int);
        }
        let kd = v[k].kind;
        if depth <= 0 && kd == TokenType::Semicolon {
            return (out, k + 1);
        }
        let d: i128 = if kd == TokenType::LeftBrace {
            depth + 1
        } else if kd == TokenType::RightBrace {
            depth - 1
        } else {
            depth
        };
        let t = crate::value::copy_token(&v[k]);
        crate::value::push_tok(&mut out, t);
        depth = d;
        k += 1;
    }
    (out, v.len())
}

#[verifier::loop_isolation(false)]
fn collect_block_exec(v: &Vec<Token>, i: usize) -> (r: (Vec<Token>, usize, bool))
    requires
        i <= v@.len(),
    ensures
        ({
            let (out, j, ok) = collect_block(view_tokens(v@), i as int, 1, Seq::empty());
            view_tokens(r.0@) == out && r.1 as int == j && r.2 == ok && i <= r.1 <= v@.len()
                && r.0@.len() as int <= j - i
        }),
{
    broadcast use group_view_lemmas;

    let ghost vv = view_tokens(v@);
    proof {
        crate::value::lemma_view_tokens_len(v@);
        lemma_collect_block_bounds(vv, i as int, 1, Seq::empty());
    }
    let mut out: Vec<Token> = Vec::new();
    let mut k = i;
    let mut depth: i128 = 1;
    while k < v.len()
        invariant
            i <= k <= v@.len(),
            out@.len() <= k - i,
            1 - (k - i as int) <= depth as int <= 1 + (k - i as int),
            collect_block(vv, i as int, 1, Seq::empty()) == collect_block(
                vv,
                k as int,
                depth as int,
                view_tokens(out@),
            ),
        decreases v@.len() - k,
    {
        proof {
            crate::value::lemma_view_tokens_index(v@, k as int);
        }
        let kd = v[k].kind;
        if kd == TokenType::RightBrace && depth <= 1 {
            return (out, k + 1, true);
        }
        let d: i128 = if kd == TokenType::LeftBrace {
            depth + 1
        } else if kd == TokenType::RightBrace {
            depth - 1
        } else {
            depth
        };
        let t = crate::value::copy_token(&v[k]);
        crate::value::push_tok(&mut out, t);
        depth = d;
        k += 1;
    }
    (out, v.len(), false)
}

#[verifier::loop_isolation(false)]
fn collect_cond_exec(v: &Vec<Token>, i: usize) -> (r: (Vec<Token>, usize, bool))
    requires
        i <= v@.len(),
    ensures
        ({
            let (out, j, found) = collect_cond(view_tokens(v@), i as int, Seq::empty());
            view_tokens(r.0@) == out && r.1 as int == j && r.2 == found && i <= r.1 <= v@.len()
                && r.0@.len() as int <= j - i
        }),
{
    broadcast use group_view_lemmas;

    let ghost vv = view_tokens(v@);
    proof {
        crate::value::lemma_view_tokens_len(v@);
        lemma_collect_cond_bounds(vv, i as int, Seq::empty());
    }
    let mut out: Vec<Token> = Vec::new();
    let mut k = i;
    while k < v.len()
        invariant
            i <= k <= v@.len(),
            out@.len() <= k - i,
            collect_cond(vv, i as int, Seq::empty()) == collect_cond(
                vv,
                k as int,
                view_tokens(out@),
            ),
        decreases v@.len() - k,
    {
        proof {
            crate::value::lemma_view_tokens_index(v@, k as int);
        }
        let kd = v[k].kind;
        if kd == TokenType::LeftBrace {
            return (out, k, true);
        }
        if kd == TokenType::Semicolon {
            return (out, k + 1, false);
        }
        let t = crate::value::copy_token(&v[k]);
        crate::value::push_tok(&mut out, t);
        k += 1;
    }
    (out, v.len(), false)
}

#[verifier::loop_isolation(false)]
fn collect_params_exec(v: &Vec<Token>, i: usize) -> (r: (Vec<AST>, usize, bool))
    requires
        i <= v@.len(),
    ensures
        ({
            let (out, j, ok) = collect_params(view_tokens(v@), i as int, Seq::empty());
            view_asts(r.0@) == out && r.1 as int == j && r.2 == ok && i <= r.1 <= v@.len()
        }),
{
    broadcast use group_view_lemmas;

    let ghost vv = view_tokens(v@);
    proof {
        crate::value::lemma_view_tokens_len(v@);
        lemma_collect_params_bounds(vv, i as int, Seq::empty());
    }
    let mut out: Vec<AST> = Vec::new();
    let mut k = i;
    while k < v.len()
        invariant
            i <= k <= v@.len(),
            collect_params(vv, i as int, Seq::empty()) == collect_params(
                vv,
                k as int,
                view_asts(out@),
            ),
        decreases v@.len() - k,
    {
        proof {
            crate::value::lemma_view_tokens_index(v@, k as int);
        }
        let kd = v[k].kind;
        if kd == TokenType::RightParen {
            return (out, k + 1, true);
        }
        if kd == TokenType::Comma {
            k += 1;
        } else if kd == TokenType::Var {
            let t = crate::value::copy_token(&v[k]);
            crate::value::push_ast(
                &mut out,
                AST { kind: ASTType::Token, token: t, children: Vec::new() },
            );
            proof {
                assert(view_asts(out@).last() =~= ast_node(
                    ASTType::Token,
                    vv[k as int],
                    Seq::empty(),
                ));
            }
            k += 1;
        } else {
            return (out, k, false);
        }
    }
    (out, v.len(), false)
}

// ---------------------------------------------------------------------------
// Executable grouped lists
// ---------------------------------------------------------------------------

fn parse_list_exec(v: &Vec<Token>, i: usize, closer: TokenType) -> (r: (Vec<AST>, usize))
    requires
        i <= v@.len(),
    ensures
        ({
            let (items, j) = parse_list(view_tokens(v@), i as int, closer);
            view_asts(r.0@) == items && r.1 as int == j && i <= r.1 <= v@.len()
        }),
    decreases v@.len() - i, 2int,
{
    broadcast use group_view_lemmas;

    let ghost vv = view_tokens(v@);
    proof {
        crate::value::lemma_view_tokens_len(v@);
        lemma_parse_list_bounds(vv, i as int, closer);
    }
    if i >= v.len() {
        let r: Vec<AST> = Vec::new();
        proof {
            assert(view_asts(r@) =~= Seq::<AstV>::empty());
        }
        return (r, v.len());
    }
    proof {
        crate::value::lemma_view_tokens_index(v@, i as int);
    }
    if v[i].kind == closer {
        let r: Vec<AST> = Vec::new();
        proof {
            assert(view_asts(r@) =~= Seq::<AstV>::empty());
        }
        (r, i + 1)
    } else if v[i].kind == TokenType::Comma || v[i].kind == TokenType::Comment {
        parse_list_exec(v, i + 1, closer)
    } else {
        proof {
            lemma_parse_element_bounds(vv, i as int, closer);
        }
        let (node, j) = parse_element_exec(v, i, closer);
        let (mut rest, j2) = parse_list_exec(v, j, closer);
        let mut items: Vec<AST> = Vec::new();
        let ghost nodev = node@;
        crate::value::push_ast(&mut items, node);
        let ghost onev = items@;
        items.append(&mut rest);
        proof {
            crate::value::lemma_view_asts_concat(onev, rest@);
            assert(view_asts(items@) =~= seq![nodev] + parse_list(vv, j as int, closer).0);
        }
        (items, j2)
    }
}

fn parse_element_exec(v: &Vec<Token>, i: usize, closer: TokenType) -> (r: (AST, usize))
    requires
        i < v@.len(),
    ensures
        ({
            let (node, j) = parse_element(view_tokens(v@), i as int, closer);
            r.0@ == node && r.1 as int == j && i < r.1 <= v@.len()
        }),
    decreases v@.len() - i, 0int,
{
    broadcast use group_view_lemmas;

    let ghost vv = view_tokens(v@);
    proof {
        crate::value::lemma_view_tokens_len(v@);
        crate::value::lemma_view_tokens_index(v@, i as int);
        lemma_parse_element_bounds(vv, i as int, closer);
    }
    let n = v.len();
    let t = &v[i];
    if t.kind == TokenType::LeftParen {
        let (sub, j) = parse_list_exec(v, i + 1, TokenType::RightParen);
        let node = AST { kind: ASTType::Token, token: Token::new(TokenType::List), children: sub };
        proof {
            assert(node@ =~= parse_element(vv, i as int, closer).0);
        }
        (node, j)
    } else if t.kind == TokenType::LeftBracket {
        let (sub, j) = parse_list_exec(v, i + 1, TokenType::RightBracket);
        let node = AST { kind: ASTType::Token, token: Token::new(TokenType::List), children: sub };
        proof {
            assert(node@ =~= parse_element(vv, i as int, closer).0);
        }
        (node, j)
    } else if crate::value::check_if_error(t) {
        let node = AST {
            kind: ASTType::Error,
            token: crate::value::copy_token(t),
            children: Vec::new(),
        };
        proof {
            assert(node@ =~= parse_element(vv, i as int, closer).0);
        }
        (node, i + 1)
    } else if t.kind == TokenType::Not {
        let (chain, j) = parse_rest_exec(v, i + 1, closer);
        let node = AST {
            kind: ASTType::Expression,
            token: crate::value::copy_token(t),
            children: chain,
        };
        proof {
            assert(node@ =~= parse_element(vv, i as int, closer).0);
        }
        (node, j)
    } else {
        let (chain, j) = parse_rest_exec(v, i + 1, closer);
        let node = AST { kind: ASTType::Token, token: crate::value::copy_token(t), children: chain };
        proof {
            assert(node@ =~= parse_element(vv, i as int, closer).0);
        }
        (node, j)
    }
}

fn parse_rest_exec(v: &Vec<Token>, i: usize, closer: TokenType) -> (r: (Vec<AST>, usize))
    requires
        i <= v@.len(),
    ensures
        ({
            let (items, j) = parse_rest(view_tokens(v@), i as int, closer);
            view_asts(r.0@) == items && r.1 as int == j && i <= r.1 <= v@.len()
        }),
    decreases v@.len() - i, 1int,
{
    broadcast use group_view_lemmas;

    let ghost vv = view_tokens(v@);
    proof {
        crate::value::lemma_view_tokens_len(v@);
        lemma_parse_rest_bounds(vv, i as int, closer);
    }
    if i >= v.len() {
        let r: Vec<AST> = Vec::new();
        proof {
            assert(view_asts(r@) =~= Seq::<AstV>::empty());
        }
        return (r, v.len());
    }
    proof {
        crate::value::lemma_view_tokens_index(v@, i as int);
    }
    if v[i].kind == closer || v[i].kind == TokenType::Comma {
        let r: Vec<AST> = Vec::new();
        proof {
            assert(view_asts(r@) =~= Seq::<AstV>::empty());
        }
        (r, i)
    } else if v[i].kind == TokenType::Comment {
        parse_rest_exec(v, i + 1, closer)
    } else {
        proof {
            lemma_parse_element_bounds(vv, i as int, closer);
        }
        let (node, j) = parse_element_exec(v, i, closer);
        let (mut rest, j2) = parse_rest_exec(v, j, closer);
        let mut items: Vec<AST> = Vec::new();
        let ghost nodev = node@;
        crate::value::push_ast(&mut items, node);
        let ghost onev = items@;
        items.append(&mut rest);
        proof {
            crate::value::lemma_view_asts_concat(onev, rest@);
            assert(view_asts(items@) =~= seq![nodev] + parse_rest(vv, j as int, closer).0);
        }
        (items, j2)
    }
}

// ---------------------------------------------------------------------------
// Executable statements
// ---------------------------------------------------------------------------

fn err_node_exec(text: &str) -> (r: AST)
    ensures
        r@ == err_node(text@),
{
    let r = AST {
        kind: ASTType::Error,
        token: Token::new_error(TokenType::SyntaxError, text.to_owned()),
        children: Vec::new(),
    };
    proof {
        assert(r@ =~= err_node(text@));
    }
    r
}

fn block_node_exec(children: Vec<AST>) -> (r: AST)
    ensures
        r@ == ast_node(ASTType::Block, tok_new(TokenType::Unknown), view_asts(children@)),
{
    let r = AST { kind: ASTType::Block, token: Token::new(TokenType::Unknown), children };
    proof {
        assert(r@ =~= ast_node(ASTType::Block, tok_new(TokenType::Unknown), view_asts(r.children@)));
    }
    r
}

fn parse_if_exec(v: &Vec<Token>, i: usize) -> (r: (AST, usize))
    requires
        i < v@.len(),
    ensures
        ({
            let (node, j) = parse_if(view_tokens(v@), i as int);
            r.0@ == node && r.1 as int == j && i < r.1 <= v@.len()
        }),
    decreases v@.len() - i, 2int,
{
    broadcast use group_view_lemmas;

    let ghost vv = view_tokens(v@);
    proof {
        crate::value::lemma_view_tokens_len(v@);
        crate::value::lemma_view_tokens_index(v@, i as int);
        lemma_collect_cond_bounds(vv, i + 1 as int, Seq::empty());
    }
    let n = v.len();
    let (cond, jlb, found) = collect_cond_exec(v, i + 1);
    if !found {
        return (err_node_exec("if without a block"), jlb);
    }
    proof {
        crate::value::lemma_view_tokens_index(v@, jlb as int);
        lemma_collect_block_bounds(vv, jlb + 1 as int, 1, Seq::empty());
        crate::value::lemma_view_tokens_len(cond@);
    }
    let cond_children = gen_from(&cond, 0);
    let cond_node = block_node_exec(cond_children);
    let (body, j2, ok) = collect_block_exec(v, jlb + 1);
    if !ok {
        return (err_node_exec("missing RightBrace"), j2);
    }
    proof {
        crate::value::lemma_view_tokens_len(body@);
    }
    let body_children = gen_from(&body, 0);
    let body_node = block_node_exec(body_children);
    if j2 < n && v[j2].kind == TokenType::Else {
        proof {
            crate::value::lemma_view_tokens_index(v@, j2 as int);
        }
        if j2 + 1 < n && v[j2 + 1].kind == TokenType::LeftBrace {
            proof {
                crate::value::lemma_view_tokens_index(v@, j2 + 1 as int);
                lemma_collect_block_bounds(vv, j2 + 2 as int, 1, Seq::empty());
            }
            let (els, j3, ok3) = collect_block_exec(v, j2 + 2);
            if !ok3 {
                return (err_node_exec("missing RightBrace"), j3);
            }
            proof {
                crate::value::lemma_view_tokens_len(els@);
            }
            let els_children = gen_from(&els, 0);
            let els_node = block_node_exec(els_children);
            let ghost cnv = cond_node@;
            let ghost bnv = body_node@;
            let ghost env = els_node@;
            let mut children: Vec<AST> = Vec::new();
            crate::value::push_ast(&mut children, cond_node);
            crate::value::push_ast(&mut children, body_node);
            crate::value::push_ast(&mut children, els_node);
            let node = AST {
                kind: ASTType::Keyword,
                token: crate::value::copy_token(&v[i]),
                children,
            };
            proof {
                assert(view_asts(node.children@) =~= seq![cnv, bnv, env]);
                assert(node@ =~= parse_if(vv, i as int).0);
            }
            (node, j3)
        } else {
            (err_node_exec("else without a block"), j2 + 1)
        }
    } else {
        let ghost cnv = cond_node@;
        let ghost bnv = body_node@;
        let mut children: Vec<AST> = Vec::new();
        crate::value::push_ast(&mut children, cond_node);
        crate::value::push_ast(&mut children, body_node);
        let node = AST { kind: ASTType::Keyword, token: crate::value::copy_token(&v[i]), children };
        proof {
            assert(view_asts(node.children@) =~= seq![cnv, bnv]);
            assert(node@ =~= parse_if(vv, i as int).0);
        }
        (node, j2)
    }
}

fn parse_fn_exec(v: &Vec<Token>, i: usize) -> (r: (AST, usize))
    requires
        i < v@.len(),
    ensures
        ({
            let (node, j) = parse_fn(view_tokens(v@), i as int);
            r.0@ == node && r.1 as int == j && i < r.1 <= v@.len()
        }),
    decreases v@.len() - i, 2int,
{
    broadcast use group_view_lemmas;

    let ghost vv = view_tokens(v@);
    proof {
        crate::value::lemma_view_tokens_len(v@);
        crate::value::lemma_view_tokens_index(v@, i as int);
    }
    let n = v.len();
    if n - i <= 2 {
        return (err_node_exec("invalid function definition"), n);
    }
    proof {
        crate::value::lemma_view_tokens_index(v@, i + 1 as int);
        crate::value::lemma_view_tokens_index(v@, i + 2 as int);
    }
    if !(v[i + 1].kind == TokenType::Var) || !(v[i + 2].kind == TokenType::LeftParen) {
        return (err_node_exec("invalid function definition"), n);
    }
    let name_node = AST {
        kind: ASTType::Token,
        token: crate::value::copy_token(&v[i + 1]),
        children: Vec::new(),
    };
    proof {
        assert(name_node@ =~= ast_node(ASTType::Token, vv[i + 1 as int], Seq::empty()));
    }
    let (params, jp, okp) = collect_params_exec(v, i + 3);
    if !okp {
        return (err_node_exec("invalid function definition"), n);
    }
    let params_node = AST {
        kind: ASTType::Token,
        token: Token::new(TokenType::List),
        children: params,
    };
    proof {
        assert(params_node@ =~= ast_node(
            ASTType::Token,
            tok_new(TokenType::List),
            view_asts(params_node.children@),
        ));
    }
    if jp < n && v[jp].kind == TokenType::LeftBrace {
        proof {
            crate::value::lemma_view_tokens_index(v@, jp as int);
            lemma_collect_block_bounds(vv, jp + 1 as int, 1, Seq::empty());
        }
        let (body, jb, okb) = collect_block_exec(v, jp + 1);
        if !okb {
            return (err_node_exec("missing RightBrace"), jb);
        }
        proof {
            crate::value::lemma_view_tokens_len(body@);
        }
        let body_children = gen_from(&body, 0);
        let body_node = block_node_exec(body_children);
        let ghost nnv = name_node@;
        let ghost pnv = params_node@;
        let ghost bnv = body_node@;
        let mut children: Vec<AST> = Vec::new();
        crate::value::push_ast(&mut children, name_node);
        crate::value::push_ast(&mut children, params_node);
        crate::value::push_ast(&mut children, body_node);
        let node = AST { kind: ASTType::Keyword, token: crate::value::copy_token(&v[i]), children };
        proof {
            assert(view_asts(node.children@) =~= seq![nnv, pnv, bnv]);
            assert(node@ =~= parse_fn(vv, i as int).0);
        }
        (node, jb)
    } else {
        if jp < n {
            proof {
                crate::value::lemma_view_tokens_index(v@, jp as int);
            }
        }
        (err_node_exec("invalid function definition"), n)
    }
}

/// Parses the statements from position `i` on.
#[verifier::loop_isolation(false)]
fn gen_from(v: &Vec<Token>, i: usize) -> (r: Vec<AST>)
    requires
        i <= v@.len(),
    ensures
        view_asts(r@) == parse_stmts(view_tokens(v@), i as int),
    decreases v@.len() - i, 4int,
{
    broadcast use group_view_lemmas;

    let ghost vv = view_tokens(v@);
    proof {
        crate::value::lemma_view_tokens_len(v@);
    }
    let n = v.len();
    let mut out: Vec<AST> = Vec::new();
    let mut k = i;
    while k < n
        invariant
            i <= k <= n,
            parse_stmts(vv, i as int) == view_asts(out@) + parse_stmts(vv, k as int),
        decreases v@.len() - k, 3int,
    {
        proof {
            crate::value::lemma_view_tokens_index(v@, k as int);
        }
        let ghost prev_out = view_asts(out@);
        let t = &v[k];
        let kd = t.kind;
        let ghost remaining = vv.len() - k;
        let (node, j): (AST, usize) = if crate::value::check_if_error(t) {
            let node = AST {
                kind: ASTType::Error,
                token: crate::value::copy_token(t),
                children: Vec::new(),
            };
            proof {
                assert(node@ =~= ast_node(ASTType::Error, vv[k as int], Seq::empty()));
            }
            (node, k + 1)
        } else if kd == TokenType::RightParen || kd == TokenType::RightBracket || kd
            == TokenType::RightBrace {
            let mut m = "unmatched ".to_owned();
            m.append(crate::value::kind_name(kd).as_str());
            let node = AST {
                kind: ASTType::Error,
                token: Token::new_error(TokenType::SyntaxError, m),
                children: Vec::new(),
            };
            proof {
                assert(node@ =~= err_node("unmatched "@ + kind_name_spec(kd)));
            }
            (node, k + 1)
        } else if kd == TokenType::Plus || kd == TokenType::Minus || kd == TokenType::Multiply || kd
            == TokenType::Divide || kd == TokenType::Modulo || kd == TokenType::EqualTo || kd
            == TokenType::NotEqual || kd == TokenType::Greater || kd == TokenType::GreaterEqual
            || kd == TokenType::Less || kd == TokenType::LessEqual || kd == TokenType::And || kd
            == TokenType::Or || kd == TokenType::Not {
            let (sub, j) = collect_expr_exec(v, k + 1);
            proof {
                crate::value::lemma_view_tokens_len(sub@);
            }
            let children = gen_from(&sub, 0);
            let node = AST {
                kind: ASTType::Expression,
                token: crate::value::copy_token(t),
                children,
            };
            proof {
                assert(node@ =~= ast_node(
                    ASTType::Expression,
                    vv[k as int],
                    parse_stmts(view_tokens(sub@), 0),
                ));
            }
            (node, j)
        } else if kd == TokenType::Equal || kd == TokenType::PlusEqual || kd
            == TokenType::MinusEqual || kd == TokenType::MultiplyEqual || kd
            == TokenType::DivideEqual || kd == TokenType::ModuloEqual {
            let (sub, j) = collect_expr_exec(v, k + 1);
            proof {
                crate::value::lemma_view_tokens_len(sub@);
            }
            let children = gen_from(&sub, 0);
            let node = AST { kind: ASTType::Assign, token: crate::value::copy_token(t), children };
            proof {
                assert(node@ =~= ast_node(
                    ASTType::Assign,
                    vv[k as int],
                    parse_stmts(view_tokens(sub@), 0),
                ));
            }
            (node, j)
        } else if kd == TokenType::Var || kd == TokenType::Dot || kd == TokenType::Int || kd
            == TokenType::Str || kd == TokenType::Bool || kd == TokenType::NoneValue {
            let (sub, j) = collect_expr_exec(v, k + 1);
            proof {
                crate::value::lemma_view_tokens_len(sub@);
            }
            let children = gen_from(&sub, 0);
            let node = AST { kind: ASTType::Token, token: crate::value::copy_token(t), children };
            proof {
                assert(node@ =~= ast_node(
                    ASTType::Token,
                    vv[k as int],
                    parse_stmts(view_tokens(sub@), 0),
                ));
            }
            (node, j)
        } else if kd == TokenType::Return {
            let (sub, j) = collect_expr_exec(v, k + 1);
            proof {
                crate::value::lemma_view_tokens_len(sub@);
            }
            let children = gen_from(&sub, 0);
            let node = AST { kind: ASTType::Keyword, token: crate::value::copy_token(t), children };
            proof {
                assert(node@ =~= ast_node(
                    ASTType::Keyword,
                    vv[k as int],
                    parse_stmts(view_tokens(sub@), 0),
                ));
            }
            (node, j)
        } else if kd == TokenType::If {
            parse_if_exec(v, k)
        } else if kd == TokenType::Func {
            parse_fn_exec(v, k)
        } else if kd == TokenType::LeftParen {
            let (items, j) = parse_list_exec(v, k + 1, TokenType::RightParen);
            let node = AST {
                kind: ASTType::Token,
                token: Token::new(TokenType::List),
                children: items,
            };
            proof {
                assert(node@ =~= ast_node(
                    ASTType::Token,
                    tok_new(TokenType::List),
                    parse_list(vv, k + 1 as int, TokenType::RightParen).0,
                ));
            }
            (node, j)
        } else if kd == TokenType::LeftBracket {
            let (items, j) = parse_list_exec(v, k + 1, TokenType::RightBracket);
            let node = AST {
                kind: ASTType::Token,
                token: Token::new(TokenType::List),
                children: items,
            };
            proof {
                assert(node@ =~= ast_node(
                    ASTType::Token,
                    tok_new(TokenType::List),
                    parse_list(vv, k + 1 as int, TokenType::RightBracket).0,
                ));
            }
            (node, j)
        } else if kd == TokenType::LeftBrace {
            let (content, j, ok) = collect_block_exec(v, k + 1);
            if !ok {
                (err_node_exec("missing RightBrace"), j)
            } else {
                proof {
                    crate::value::lemma_view_tokens_len(content@);
                }
                let children = gen_from(&content, 0);
                (block_node_exec(children), j)
            }
        } else {
            proof {
                assert(parse_stmts(vv, k as int) == parse_tail(vv, k as int, k + 1 as int));
            }
            k += 1;
            continue ;
        };
        let ghost nodev = node@;
        crate::value::push_ast(&mut out, node);
        proof {
            assert(view_asts(out@) + parse_stmts(vv, j as int) =~= prev_out + (seq![nodev]
                + parse_stmts(vv, j as int)));
            assert(parse_stmts(vv, k as int) == seq![nodev] + parse_tail(vv, k as int, j as int));
        }
        k = j;
    }
    proof {
        assert(view_asts(out@) + parse_stmts(vv, n as int) =~= view_asts(out@));
    }
    out
}

/// Builds the statement trees of a token sequence; structural failures are
/// embedded as `Error` nodes, never raised.
pub fn generate_ast(tokens: &Vec<Token>) -> (r: Vec<AST>)
    ensures
        view_asts(r@) == parse_spec(view_tokens(tokens@)),
{
    gen_from(tokens, 0)
}

} // verus!
