//! The general properties the library states of itself, proved as public
//! lemmas over the same specification functions that the executable
//! contracts use.
use vstd::prelude::*;

use crate::builtins::get_spec;
use crate::interpreter::eval_stmts;
use crate::interpreter::recursion_error;
use crate::lexer::lex_from;
use crate::lexer::lex_spec;
use crate::lexer::scan_ident;
use crate::numbers::tdiv;
use crate::numbers::SCALE;
use crate::value::tok_bool;
use crate::value::tok_error;
use crate::value::tok_int;
use crate::value::tok_list;
use crate::value::tok_new;
use crate::value::ASTType;
use crate::value::AstV;
use crate::value::ScopeV;
use crate::value::TokenType;
use crate::value::TokV;

verus! {

/// Exceeding the recursion ceiling fails with the recursion error and
/// leaves the scope untouched, whatever the program; and because every
/// evaluation function of this library terminates by proof, the ceiling is
/// reached without exhausting the host's own stack.
pub proof fn lemma_recursion_ceiling(nodes: Seq<AstV>, sc: ScopeV, ctx: TokV, depth: int)
    requires
        depth > 100,
    ensures
        eval_stmts(nodes, sc, ctx, depth) == (recursion_error(), sc),
{
}

/// For every list and every whole index inside the list's range, `get`
/// hands back exactly the element inserted at construction.
pub proof fn lemma_get_element(items: Seq<TokV>, i: int)
    requires
        0 <= i < items.len(),
        i * (SCALE as int) <= i64::MAX as int,
    ensures
        get_spec("get"@, seq![tok_list(items), tok_int(i * (SCALE as int))]) == items[i],
{
    lemma_whole_index(i);
    let args = seq![tok_list(items), tok_int(i * (SCALE as int))];
    assert(args.len() == 2);
    assert(args[0] == tok_list(items));
    assert(args[1] == tok_int(i * (SCALE as int)));
}

/// For every list and every whole index outside the range, `get` reports
/// the index error.
pub proof fn lemma_get_out_of_range(items: Seq<TokV>, i: int)
    requires
        i < 0 || i >= items.len(),
        -(i64::MAX as int) <= i * (SCALE as int) <= i64::MAX as int,
    ensures
        get_spec("get"@, seq![tok_list(items), tok_int(i * (SCALE as int))]) == tok_error(
            TokenType::IndexError,
            "list index out of range"@,
        ),
{
    lemma_whole_index(i);
    let args = seq![tok_list(items), tok_int(i * (SCALE as int))];
    assert(args.len() == 2);
    assert(args[0] == tok_list(items));
    assert(args[1] == tok_int(i * (SCALE as int)));
}

/// A whole fixed-point value divides back to its integer.
proof fn lemma_whole_index(i: int)
    ensures
        tdiv(i * (SCALE as int), SCALE as int) == i,
{
    let s = SCALE as int;
    if i >= 0 {
        assert(crate::numbers::abs1(i * s) == i * s) by (nonlinear_arith)
            requires
                i >= 0,
                s > 0,
        ;
        vstd::arithmetic::div_mod::lemma_div_multiples_vanish(i, s);
    } else {
        assert(crate::numbers::abs1(i * s) == (-i) * s) by (nonlinear_arith)
            requires
                i < 0,
                s > 0,
        ;
        vstd::arithmetic::div_mod::lemma_div_multiples_vanish(-i, s);
    }
}

// ---------------------------------------------------------------------------
// Comments never appear in the tree
// ---------------------------------------------------------------------------

/// No token of this node, at any depth, is a comment.
pub open spec fn comment_free(a: AstV) -> bool
    decreases a,
{
    a.token.kind != TokenType::Comment && comment_free_seq(a.children)
}

pub open spec fn comment_free_seq(s: Seq<AstV>) -> bool
    decreases s,
{
    s.len() == 0 || (comment_free_seq(s.drop_last()) && comment_free(s.last()))
}

proof fn lemma_cf_all(s: Seq<AstV>)
    ensures
        comment_free_seq(s) == (forall|i: int|
            0 <= i < s.len() ==> comment_free(#[trigger] s[i])),
    decreases s,
{
    if s.len() > 0 {
        lemma_cf_all(s.drop_last());
        if comment_free_seq(s) {
            assert forall|i: int| 0 <= i < s.len() implies comment_free(s[i]) by {
                if i < s.len() - 1 {
                    assert(s.drop_last()[i] == s[i]);
                } else {
                    assert(s.last() == s[i]);
                }
            }
        }
        if forall|i: int| 0 <= i < s.len() ==> comment_free(#[trigger] s[i]) {
            assert(comment_free(s.last()));
        }
    }
}

proof fn lemma_cf_concat(a: Seq<AstV>, b: Seq<AstV>)
    requires
        comment_free_seq(a),
        comment_free_seq(b),
    ensures
        comment_free_seq(a + b),
{
    lemma_cf_all(a);
    lemma_cf_all(b);
    lemma_cf_all(a + b);
    assert forall|i: int| 0 <= i < (a + b).len() implies comment_free(#[trigger] (a + b)[i]) by {
        if i < a.len() {
            assert((a + b)[i] == a[i]);
        } else {
            assert((a + b)[i] == b[i - a.len()]);
        }
    }
}

proof fn lemma_params_cf(toks: Seq<TokV>, i: int, acc: Seq<AstV>)
    requires
        comment_free_seq(acc),
    ensures
        comment_free_seq(crate::parser::collect_params(toks, i, acc).0),
    decreases toks.len() - i,
{
    if 0 <= i < toks.len() {
        let k = toks[i].kind;
        if k == TokenType::Comma {
            lemma_params_cf(toks, i + 1, acc);
        } else if k == TokenType::Var {
            let node = crate::parser::ast_node(ASTType::Token, toks[i], Seq::empty());
            assert(comment_free(node));
            assert(acc.push(node).drop_last() =~= acc);
            lemma_params_cf(toks, i + 1, acc.push(node));
        }
    }
}

proof fn lemma_stmts_cf(toks: Seq<TokV>, i: int)
    ensures
        comment_free_seq(crate::parser::parse_stmts(toks, i)),
    decreases toks.len() - i, 4int,
{
    if 0 <= i < toks.len() {
        let t = toks[i];
        let k = t.kind;
        let remaining = toks.len() - i;
        if crate::value::is_error_kind(k) || k == TokenType::RightParen || k
            == TokenType::RightBracket || k == TokenType::RightBrace {
            lemma_one_cf(crate::parser::parse_stmts(toks, i)[0]);
            lemma_tail_cf(toks, i, i + 1);
            lemma_cf_concat(
                seq![crate::parser::parse_stmts(toks, i)[0]],
                crate::parser::parse_tail(toks, i, i + 1),
            );
        } else if crate::parser::is_expr_head(k) || crate::parser::is_assign_head(k)
            || crate::parser::is_token_head(k) || k == TokenType::Return {
            let (sub, j) = crate::parser::collect_expr(toks, i + 1, 0, Seq::empty());
            if sub.len() < remaining {
                lemma_stmts_cf(sub, 0);
            }
            let node = crate::parser::parse_stmts(toks, i)[0];
            assert(comment_free(node));
            lemma_one_cf(node);
            lemma_tail_cf(toks, i, j);
            lemma_cf_concat(seq![node], crate::parser::parse_tail(toks, i, j));
        } else if k == TokenType::If {
            let (node, j) = crate::parser::parse_if(toks, i);
            lemma_if_cf(toks, i);
            lemma_one_cf(node);
            lemma_tail_cf(toks, i, j);
            lemma_cf_concat(seq![node], crate::parser::parse_tail(toks, i, j));
        } else if k == TokenType::Func {
            let (node, j) = crate::parser::parse_fn(toks, i);
            lemma_fn_cf(toks, i);
            lemma_one_cf(node);
            lemma_tail_cf(toks, i, j);
            lemma_cf_concat(seq![node], crate::parser::parse_tail(toks, i, j));
        } else if k == TokenType::LeftParen {
            let (items, j) = crate::parser::parse_list(toks, i + 1, TokenType::RightParen);
            lemma_list_cf(toks, i + 1, TokenType::RightParen);
            let node = crate::parser::ast_node(ASTType::Token, tok_new(TokenType::List), items);
            assert(comment_free(node));
            lemma_one_cf(node);
            lemma_tail_cf(toks, i, j);
            lemma_cf_concat(seq![node], crate::parser::parse_tail(toks, i, j));
        } else if k == TokenType::LeftBracket {
            let (items, j) = crate::parser::parse_list(toks, i + 1, TokenType::RightBracket);
            lemma_list_cf(toks, i + 1, TokenType::RightBracket);
            let node = crate::parser::ast_node(ASTType::Token, tok_new(TokenType::List), items);
            assert(comment_free(node));
            lemma_one_cf(node);
            lemma_tail_cf(toks, i, j);
            lemma_cf_concat(seq![node], crate::parser::parse_tail(toks, i, j));
        } else if k == TokenType::LeftBrace {
            let (content, j, ok) = crate::parser::collect_block(toks, i + 1, 1, Seq::empty());
            if !ok {
                lemma_one_cf(crate::parser::err_node("missing RightBrace"@));
                lemma_tail_cf(toks, i, j);
                lemma_cf_concat(
                    seq![crate::parser::err_node("missing RightBrace"@)],
                    crate::parser::parse_tail(toks, i, j),
                );
            } else {
                if content.len() < remaining {
                    lemma_stmts_cf(content, 0);
                }
                let node = crate::parser::parse_stmts(toks, i)[0];
                assert(comment_free(node));
                lemma_one_cf(node);
                lemma_tail_cf(toks, i, j);
                lemma_cf_concat(seq![node], crate::parser::parse_tail(toks, i, j));
            }
        } else {
            lemma_tail_cf(toks, i, i + 1);
        }
    }
}

/// A singleton of a comment-free node is comment-free.
proof fn lemma_one_cf(node: AstV)
    requires
        comment_free(node),
    ensures
        comment_free_seq(seq![node]),
{
    assert(seq![node].drop_last() =~= Seq::<AstV>::empty());
    assert(comment_free_seq(Seq::<AstV>::empty()));
    assert(seq![node].last() == node);
}

proof fn lemma_tail_cf(toks: Seq<TokV>, i: int, j: int)
    ensures
        comment_free_seq(crate::parser::parse_tail(toks, i, j)),
    decreases toks.len() - i, 3int,
{
    if i < j <= toks.len() {
        lemma_stmts_cf(toks, j);
    }
}

proof fn lemma_if_cf(toks: Seq<TokV>, i: int)
    requires
        0 <= i < toks.len(),
        toks[i].kind == TokenType::If,
    ensures
        comment_free(crate::parser::parse_if(toks, i).0),
    decreases toks.len() - i, 2int,
{
    let remaining = toks.len() - i;
    let (cond, jlb, found) = crate::parser::collect_cond(toks, i + 1, Seq::empty());
    if found {
        if cond.len() < remaining {
            lemma_stmts_cf(cond, 0);
        }
        let (body, j2, ok) = crate::parser::collect_block(toks, jlb + 1, 1, Seq::empty());
        if ok {
            if body.len() < remaining {
                lemma_stmts_cf(body, 0);
            }
            if j2 < toks.len() && toks[j2].kind == TokenType::Else {
                if j2 + 1 < toks.len() && toks[j2 + 1].kind == TokenType::LeftBrace {
                    let (els, j3, ok3) = crate::parser::collect_block(
                        toks,
                        j2 + 2,
                        1,
                        Seq::empty(),
                    );
                    if ok3 {
                        if els.len() < remaining {
                            lemma_stmts_cf(els, 0);
                        }
                        let node = crate::parser::parse_if(toks, i).0;
                        assert(node.children.len() == 3);
                        assert(comment_free_seq(Seq::<AstV>::empty()));
                        assert(comment_free(node.children[0]));
                        assert(comment_free(node.children[1]));
                        assert(comment_free(node.children[2]));
                        lemma_cf_all(node.children);
                        assert(comment_free_seq(node.children));
                    }
                }
            } else {
                let node = crate::parser::parse_if(toks, i).0;
                assert(node.children.len() == 2);
                assert(comment_free_seq(Seq::<AstV>::empty()));
                assert(comment_free(node.children[0]));
                assert(comment_free(node.children[1]));
                lemma_cf_all(node.children);
                assert(comment_free_seq(node.children));
            }
        }
    }
}

proof fn lemma_fn_cf(toks: Seq<TokV>, i: int)
    requires
        0 <= i < toks.len(),
        toks[i].kind == TokenType::Func,
    ensures
        comment_free(crate::parser::parse_fn(toks, i).0),
    decreases toks.len() - i, 2int,
{
    let remaining = toks.len() - i;
    if i + 2 < toks.len() && toks[i + 1].kind == TokenType::Var && toks[i + 2].kind
        == TokenType::LeftParen {
        let (params, jp, okp) = crate::parser::collect_params(toks, i + 3, Seq::empty());
        if okp {
            lemma_params_cf(toks, i + 3, Seq::empty());
            if jp < toks.len() && toks[jp].kind == TokenType::LeftBrace {
                let (body, jb, okb) = crate::parser::collect_block(toks, jp + 1, 1, Seq::empty());
                if okb {
                    if body.len() < remaining {
                        lemma_stmts_cf(body, 0);
                    }
                    let node = crate::parser::parse_fn(toks, i).0;
                    assert(node.children.len() == 3);
                    assert(comment_free_seq(Seq::<AstV>::empty()));
                    assert(comment_free(node.children[0]));
                    assert(comment_free(node.children[1]));
                    assert(comment_free(node.children[2]));
                    lemma_cf_all(node.children);
                    assert(comment_free_seq(node.children));
                }
            }
        }
    }
}

proof fn lemma_list_cf(toks: Seq<TokV>, i: int, closer: TokenType)
    ensures
        comment_free_seq(crate::parser::parse_list(toks, i, closer).0),
    decreases toks.len() - i, 2int,
{
    if 0 <= i < toks.len() {
        if toks[i].kind == closer {
        } else if toks[i].kind == TokenType::Comma || toks[i].kind == TokenType::Comment {
            lemma_list_cf(toks, i + 1, closer);
        } else {
            lemma_element_cf(toks, i, closer);
            let (node, j) = crate::parser::parse_element(toks, i, closer);
            if i < j <= toks.len() {
                lemma_list_cf(toks, j, closer);
                lemma_one_cf(node);
                lemma_cf_concat(seq![node], crate::parser::parse_list(toks, j, closer).0);
            } else {
                lemma_one_cf(node);
            }
        }
    }
}

proof fn lemma_element_cf(toks: Seq<TokV>, i: int, closer: TokenType)
    requires
        0 <= i,
        i < toks.len() ==> toks[i].kind != TokenType::Comment,
    ensures
        comment_free(crate::parser::parse_element(toks, i, closer).0),
    decreases toks.len() - i, 0int,
{
    if i < toks.len() {
        let t = toks[i];
        if t.kind == TokenType::LeftParen {
            lemma_list_cf(toks, i + 1, TokenType::RightParen);
        } else if t.kind == TokenType::LeftBracket {
            lemma_list_cf(toks, i + 1, TokenType::RightBracket);
        } else if crate::value::is_error_kind(t.kind) {
        } else {
            lemma_rest_cf(toks, i + 1, closer);
        }
    }
}

proof fn lemma_rest_cf(toks: Seq<TokV>, i: int, closer: TokenType)
    ensures
        comment_free_seq(crate::parser::parse_rest(toks, i, closer).0),
    decreases toks.len() - i, 1int,
{
    if 0 <= i < toks.len() {
        if toks[i].kind == closer || toks[i].kind == TokenType::Comma {
        } else if toks[i].kind == TokenType::Comment {
            lemma_rest_cf(toks, i + 1, closer);
        } else {
            lemma_element_cf(toks, i, closer);
            let (node, j) = crate::parser::parse_element(toks, i, closer);
            if i < j <= toks.len() {
                lemma_rest_cf(toks, j, closer);
                lemma_one_cf(node);
                lemma_cf_concat(seq![node], crate::parser::parse_rest(toks, j, closer).0);
            } else {
                lemma_one_cf(node);
            }
        }
    }
}

/// Comments never appear in the tree: whatever the token sequence, no node
/// of the parse, at any depth, carries a comment token.
pub proof fn lemma_comments_never_in_ast(toks: Seq<TokV>)
    ensures
        comment_free_seq(crate::parser::parse_spec(toks)),
{
    lemma_stmts_cf(toks, 0);
}

// ---------------------------------------------------------------------------
// Round trips: rendering a literal token and tokenizing the text gives the
// token back.
// ---------------------------------------------------------------------------

/// The unit value round-trips: its display form tokenizes to exactly the
/// unit token.
pub proof fn lemma_none_round_trip()
    ensures
        lex_spec(crate::render::render_display(tok_new(TokenType::NoneValue))) == seq![
            tok_new(TokenType::NoneValue),
        ],
{
    reveal_strlit("none");
    reveal_strlit("true");
    reveal_strlit("false");
    reveal_strlit("fn");
    reveal_strlit("import");
    reveal_strlit("return");
    reveal_strlit("if");
    reveal_strlit("else");
    reveal_strlit("and");
    reveal_strlit("or");
    let s = "none"@;
    reveal_with_fuel(scan_ident, 6);
    assert(scan_ident(s, 0) == 4);
    assert(s.subrange(0, 4) =~= s);
    reveal_with_fuel(lex_from, 2);
    assert(lex_spec(s) =~= seq![tok_new(TokenType::NoneValue)]);
}

/// The two boolean values round-trip: their display forms tokenize to
/// exactly the boolean tokens.
pub proof fn lemma_bool_round_trip(b: bool)
    ensures
        lex_spec(crate::render::render_display(tok_bool(b))) == seq![tok_bool(b)],
{
    reveal_strlit("none");
    reveal_strlit("true");
    reveal_strlit("false");
    reveal_strlit("fn");
    reveal_strlit("import");
    reveal_strlit("return");
    reveal_strlit("if");
    reveal_strlit("else");
    reveal_strlit("and");
    reveal_strlit("or");
    reveal_with_fuel(scan_ident, 7);
    reveal_with_fuel(lex_from, 2);
    if b {
        let s = "true"@;
        assert(crate::render::render_display(tok_bool(true)) == s);
        assert(scan_ident(s, 0) == 4);
        assert(s.subrange(0, 4) =~= s);
        assert(lex_spec(s) =~= seq![tok_bool(true)]);
    } else {
        let s = "false"@;
        assert(crate::render::render_display(tok_bool(false)) == s);
        assert(scan_ident(s, 0) == 5);
        assert(s.subrange(0, 5) =~= s);
        assert(lex_spec(s) =~= seq![tok_bool(false)]);
    }
}

/// The escape rule peeled from the front.
proof fn lemma_escape_front(s: Seq<char>)
    requires
        s.len() > 0,
    ensures
        crate::render::escape_chars(s) == crate::render::escape_one(s[0])
            + crate::render::escape_chars(s.subrange(1, s.len() as int)),
    decreases s,
{
    if s.len() == 1 {
        assert(s.drop_last() =~= Seq::<char>::empty());
        assert(s.subrange(1, s.len() as int) =~= Seq::<char>::empty());
        assert(crate::render::escape_chars(s) =~= crate::render::escape_one(s[0])
            + crate::render::escape_chars(s.subrange(1, s.len() as int)));
    } else {
        let dl = s.drop_last();
        lemma_escape_front(dl);
        assert(dl[0] == s[0]);
        assert(s.subrange(1, s.len() as int).drop_last() =~= dl.subrange(1, dl.len() as int));
        assert(s.subrange(1, s.len() as int).last() == s.last());
        assert(crate::render::escape_chars(s) == crate::render::escape_chars(dl)
            + crate::render::escape_one(s.last()));
        assert(crate::render::escape_chars(s.subrange(1, s.len() as int)) =~= crate::render::escape_chars(
            dl.subrange(1, dl.len() as int),
        ) + crate::render::escape_one(s.last()));
        assert(crate::render::escape_chars(s) =~= crate::render::escape_one(s[0])
            + crate::render::escape_chars(s.subrange(1, s.len() as int)));
    }
}

/// Scanning the escaped form of a quote-free, backslash-free text up to the
/// closing quote recovers the text exactly.
proof fn lemma_scan_str_of_escaped(full: Seq<char>, i: int, s: Seq<char>, acc: Seq<char>)
    requires
        0 <= i <= full.len(),
        full.subrange(i, full.len() as int) == crate::render::escape_chars(s) + seq!['"'],
        forall|j: int| 0 <= j < s.len() ==> s[j] != '"' && s[j] != '\\',
    ensures
        crate::lexer::scan_str(full, i, acc) == (acc + s, full.len() as int, true),
    decreases s.len(),
{
    let tail = full.subrange(i, full.len() as int);
    if s.len() == 0 {
        assert(crate::render::escape_chars(s) =~= Seq::<char>::empty());
        assert(tail =~= seq!['"']);
        assert(tail[0] == full[i]);
        assert(full[i] == '"');
        assert(acc + s =~= acc);
    } else {
        lemma_escape_front(s);
        let rest = s.subrange(1, s.len() as int);
        let e0 = crate::render::escape_one(s[0]);
        assert(tail == e0 + (crate::render::escape_chars(rest) + seq!['"'])) by {
            assert(e0 + (crate::render::escape_chars(rest) + seq!['"']) =~= (e0
                + crate::render::escape_chars(rest)) + seq!['"']);
        }
        assert(forall|j: int| 0 <= j < rest.len() ==> rest[j] != '"' && rest[j] != '\\');
        if s[0] == '\n' || s[0] == '\t' || s[0] == '\r' {
            assert(e0.len() == 2 && e0[0] == '\\');
            assert(tail.len() == e0.len() + crate::render::escape_chars(rest).len() + 1);
            assert(tail.len() == full.len() - i);
            assert(tail[0] == full[i]);
            assert(tail[1] == full[i + 1]);
            assert(tail[0] == e0[0]);
            assert(tail[1] == e0[1]);
            assert(i + 2 <= full.len());
            assert forall|j: int| 0 <= j < full.len() - i - 2 implies full.subrange(
                i + 2,
                full.len() as int,
            )[j] == (crate::render::escape_chars(rest) + seq!['"'])[j] by {
                assert(full.subrange(i + 2, full.len() as int)[j] == full[i + 2 + j]);
                assert(tail[2 + j] == full[i + 2 + j]);
            }
            assert(full.subrange(i + 2, full.len() as int) =~= crate::render::escape_chars(rest)
                + seq!['"']);
            assert(crate::lexer::map_escape(full[i + 1]) == s[0]);
            lemma_scan_str_of_escaped(full, i + 2, rest, acc.push(s[0]));
            assert(acc.push(s[0]) + rest =~= acc + s);
        } else {
            assert(e0 =~= seq![s[0]]);
            assert(tail.len() == e0.len() + crate::render::escape_chars(rest).len() + 1);
            assert(tail.len() == full.len() - i);
            assert(tail[0] == full[i]);
            assert(tail[0] == e0[0]);
            assert(full[i] == s[0]);
            assert(full[i] != '"' && full[i] != '\n' && full[i] != '\\');
            assert forall|j: int| 0 <= j < full.len() - i - 1 implies full.subrange(
                i + 1,
                full.len() as int,
            )[j] == (crate::render::escape_chars(rest) + seq!['"'])[j] by {
                assert(full.subrange(i + 1, full.len() as int)[j] == full[i + 1 + j]);
                assert(tail[1 + j] == full[i + 1 + j]);
            }
            assert(full.subrange(i + 1, full.len() as int) =~= crate::render::escape_chars(rest)
                + seq!['"']);
            lemma_scan_str_of_escaped(full, i + 1, rest, acc.push(s[0]));
            assert(acc.push(s[0]) + rest =~= acc + s);
        }
    }
}

/// A string value whose text holds no quote and no backslash round-trips:
/// its display form tokenizes to exactly the one string token. (A quote or
/// a backslash in the text renders unescaped and does not survive the trip;
/// newlines, tabs and carriage returns do, through the escape rule.)
pub proof fn lemma_str_round_trip(s: Seq<char>)
    requires
        forall|j: int| 0 <= j < s.len() ==> s[j] != '"' && s[j] != '\\',
    ensures
        lex_spec(crate::render::render_display(crate::value::tok_str(s))) == seq![
            crate::value::tok_str(s),
        ],
{
    let full = seq!['"'] + crate::render::escape_chars(s) + seq!['"'];
    assert(crate::render::render_display(crate::value::tok_str(s)) == full);
    assert(full[0] == '"');
    assert(full.subrange(1, full.len() as int) =~= crate::render::escape_chars(s) + seq!['"']);
    lemma_scan_str_of_escaped(full, 1, s, Seq::empty());
    assert(Seq::<char>::empty() + s =~= s);
    assert(lex_from(full, full.len() as int) =~= Seq::<TokV>::empty());
    assert(lex_spec(full) =~= seq![crate::value::tok_str(s)]);
}

/// Every character of a rendered decimal is a digit.
proof fn lemma_dec_digits_all(n: int)
    requires
        n >= 0,
    ensures
        crate::numbers::dec_digits(n).len() >= 1,
        forall|k: int|
            0 <= k < crate::numbers::dec_digits(n).len() ==> crate::lexer::is_digit_c(
                #[trigger] crate::numbers::dec_digits(n)[k],
            ),
    decreases n,
{
    let d = crate::numbers::dec_digits(n);
    if n < 10 {
        assert(crate::lexer::is_digit_c(crate::numbers::digit_char(n)));
        assert(d =~= seq![crate::numbers::digit_char(n)]);
    } else {
        lemma_dec_digits_all(n / 10);
        assert(crate::lexer::is_digit_c(crate::numbers::digit_char(n % 10)));
        assert forall|k: int| 0 <= k < d.len() implies crate::lexer::is_digit_c(
            #[trigger] d[k],
        ) by {
            if k < d.len() - 1 {
                assert(d[k] == crate::numbers::dec_digits(n / 10)[k]);
            } else {
                assert(d[k] == crate::numbers::digit_char(n % 10));
            }
        }
    }
}

/// A digit scan runs exactly to the first non-digit.
proof fn lemma_scan_digit_stop(s: Seq<char>, i: int, m: int)
    requires
        0 <= i <= m <= s.len(),
        forall|k: int| i <= k < m ==> crate::lexer::is_digit_c(#[trigger] s[k]),
        m == s.len() || !crate::lexer::is_digit_c(s[m]),
    ensures
        crate::lexer::scan_digits(s, i) == m,
    decreases m - i,
{
    if i < m {
        lemma_scan_digit_stop(s, i + 1, m);
    }
}

/// The digit run of a value reads back to the value, at any offset.
proof fn lemma_digits_value_back(pre: Seq<char>, n: int)
    requires
        n >= 0,
    ensures
        crate::lexer::digits_value(
            pre + crate::numbers::dec_digits(n),
            pre.len() as int,
            (pre + crate::numbers::dec_digits(n)).len() as int,
        ) == n,
    decreases n,
{
    let d = crate::numbers::dec_digits(n);
    let s = pre + d;
    if n < 10 {
        assert(d =~= seq![crate::numbers::digit_char(n)]);
        assert(s[s.len() - 1] == crate::numbers::digit_char(n));
        assert(crate::lexer::digits_value(s, pre.len() as int, pre.len() as int) == 0);
        assert(crate::numbers::digit_char(n) as int - 48 == n);
    } else {
        lemma_digits_value_back(pre, n / 10);
        let d2 = crate::numbers::dec_digits(n / 10);
        assert(d == d2.push(crate::numbers::digit_char(n % 10)));
        assert(pre + d2 =~= s.subrange(0, s.len() - 1));
        lemma_digits_value_prefix(pre + d2, s, pre.len() as int, (pre + d2).len() as int);
        assert(s[s.len() - 1] == crate::numbers::digit_char(n % 10));
        assert(crate::numbers::digit_char(n % 10) as int - 48 == n % 10);
        assert(crate::lexer::digits_value(s, pre.len() as int, s.len() as int)
            == crate::lexer::digits_value(s, pre.len() as int, s.len() - 1) * 10 + n % 10);
        assert((n / 10) * 10 + n % 10 == n) by {
            vstd::arithmetic::div_mod::lemma_fundamental_div_mod(n, 10);
        }
    }
}

/// Reading digits below a cut sees only the characters below the cut.
proof fn lemma_digits_value_prefix(a: Seq<char>, b: Seq<char>, i: int, j: int)
    requires
        0 <= i,
        j <= a.len(),
        a == b.subrange(0, a.len() as int),
        a.len() <= b.len(),
    ensures
        crate::lexer::digits_value(a, i, j) == crate::lexer::digits_value(b, i, j),
    decreases j - i,
{
    if j > i {
        lemma_digits_value_prefix(a, b, i, j - 1);
        if 0 <= j - 1 < a.len() {
            assert(a[j - 1] == b[j - 1]);
        }
    }
}

// The fractional side: place values, and the fractional digits reading
// back to the fractional part.

/// Ten to the `k`.
spec fn p10(k: int) -> int
    decreases k,
{
    if k <= 0 {
        1
    } else {
        10 * p10(k - 1)
    }
}

/// `k` halvings-by-ten of the place value, as the scanner performs them.
spec fn mdiv(m: int, k: int) -> int
    decreases k,
{
    if k <= 0 {
        m
    } else {
        mdiv(m / 10, k - 1)
    }
}

proof fn lemma_p10_pos(k: int)
    ensures
        p10(k) >= 1,
    decreases k,
{
    if k > 0 {
        lemma_p10_pos(k - 1);
    }
}

proof fn lemma_mdiv_p10(m: int, k: int)
    requires
        0 <= k <= m,
    ensures
        mdiv(p10(m), k) == p10(m - k),
    decreases k,
{
    if k > 0 {
        lemma_p10_pos(m - 1);
        vstd::arithmetic::div_mod::lemma_div_multiples_vanish(p10(m - 1), 10);
        assert(p10(m) / 10 == p10(m - 1));
        lemma_mdiv_p10_from(p10(m - 1), m - 1, k - 1);
    }
}

proof fn lemma_mdiv_p10_from(v: int, m: int, k: int)
    requires
        0 <= k <= m,
        v == p10(m),
    ensures
        mdiv(v, k) == p10(m - k),
    decreases k,
{
    if k > 0 {
        lemma_p10_pos(m - 1);
        vstd::arithmetic::div_mod::lemma_div_multiples_vanish(p10(m - 1), 10);
        assert(v / 10 == p10(m - 1));
        lemma_mdiv_p10_from(v / 10, m - 1, k - 1);
    }
}

/// Appending one digit extends a fractional reading by that digit at the
/// next place value.
proof fn lemma_frac_push(s: Seq<char>, d: char, i: int, m: int)
    requires
        0 <= i <= s.len(),
    ensures
        crate::lexer::frac_value(s.push(d), i, s.len() as int + 1, m) == crate::lexer::frac_value(
            s,
            i,
            s.len() as int,
            m,
        ) + (d as int - 48) * mdiv(m, s.len() - i),
    decreases s.len() - i,
{
    let t = s.push(d);
    if i == s.len() {
        assert(t[i] == d);
        assert(crate::lexer::frac_value(t, i + 1, s.len() as int + 1, m / 10) == 0);
        assert(crate::lexer::frac_value(s, i, s.len() as int, m) == 0);
    } else {
        assert(t[i] == s[i]);
        lemma_frac_push(s, d, i + 1, m / 10);
    }
}

proof fn lemma_padded_len(g: int, w: int)
    requires
        1 <= w,
    ensures
        crate::numbers::padded_digits(g, w).len() == w,
    decreases w,
{
    if w > 1 {
        lemma_padded_len(g / 10, w - 1);
    }
}

proof fn lemma_padded_all(g: int, w: int)
    requires
        0 <= g,
        1 <= w,
    ensures
        forall|k: int|
            0 <= k < crate::numbers::padded_digits(g, w).len() ==> crate::lexer::is_digit_c(
                #[trigger] crate::numbers::padded_digits(g, w)[k],
            ),
    decreases w,
{
    let d = crate::numbers::padded_digits(g, w);
    if w <= 1 {
        assert(crate::lexer::is_digit_c(crate::numbers::digit_char(g % 10)));
        assert(d =~= seq![crate::numbers::digit_char(g % 10)]);
    } else {
        lemma_padded_all(g / 10, w - 1);
        assert(crate::lexer::is_digit_c(crate::numbers::digit_char(g % 10)));
        assert forall|k: int| 0 <= k < d.len() implies crate::lexer::is_digit_c(
            #[trigger] d[k],
        ) by {
            if k < d.len() - 1 {
                assert(d[k] == crate::numbers::padded_digits(g / 10, w - 1)[k]);
            } else {
                assert(d[k] == crate::numbers::digit_char(g % 10));
            }
        }
    }
}

proof fn lemma_frac_digits_all(f: int, w: int)
    requires
        0 <= f,
        1 <= w,
    ensures
        crate::numbers::frac_digits(f, w).len() >= 1,
        forall|k: int|
            0 <= k < crate::numbers::frac_digits(f, w).len() ==> crate::lexer::is_digit_c(
                #[trigger] crate::numbers::frac_digits(f, w)[k],
            ),
    decreases w,
{
    let d = crate::numbers::frac_digits(f, w);
    if w <= 1 {
        assert(crate::lexer::is_digit_c(crate::numbers::digit_char(f % 10)));
        assert(d =~= seq![crate::numbers::digit_char(f % 10)]);
    } else if f % 10 == 0 {
        lemma_frac_digits_all(f / 10, w - 1);
    } else {
        lemma_padded_len(f, w);
        lemma_padded_all(f, w);
    }
}

/// Zero-padded digits read back: `w` digits of `g` at starting place value
/// `p10(m)` give `g` at place value `p10(m - w + 1)`.
proof fn lemma_padded_value(g: int, w: int, m: int)
    requires
        1 <= w,
        w - 1 <= m,
        0 <= g < p10(w),
    ensures
        crate::lexer::frac_value(crate::numbers::padded_digits(g, w), 0, w, p10(m)) == g * p10(
            m - w + 1,
        ),
    decreases w,
{
    let d = crate::numbers::padded_digits(g, w);
    if w <= 1 {
        assert(p10(1) == 10) by {
            reveal_with_fuel(p10, 3);
        }
        assert(g % 10 == g);
        assert(d =~= seq![crate::numbers::digit_char(g)]);
        assert(d[0] == crate::numbers::digit_char(g));
        assert(crate::numbers::digit_char(g) as int - 48 == g);
        assert(crate::lexer::frac_value(d, 1, 1, p10(m) / 10) == 0);
    } else {
        let d2 = crate::numbers::padded_digits(g / 10, w - 1);
        lemma_padded_len(g / 10, w - 1);
        assert(p10(w) == 10 * p10(w - 1));
        lemma_p10_pos(w - 1);
        assert(g / 10 < p10(w - 1)) by {
            vstd::arithmetic::div_mod::lemma_fundamental_div_mod_converse(
                10 * p10(w - 1) - 1,
                10,
                p10(w - 1) - 1,
                9,
            );
            vstd::arithmetic::div_mod::lemma_div_is_ordered(g, 10 * p10(w - 1) - 1, 10);
        }
        lemma_padded_value(g / 10, w - 1, m);
        lemma_frac_push(d2, crate::numbers::digit_char(g % 10), 0, p10(m));
        lemma_mdiv_p10(m, w - 1);
        assert(crate::numbers::digit_char(g % 10) as int - 48 == g % 10);
        assert(crate::lexer::frac_value(d, 0, w, p10(m)) == (g / 10) * p10(m - w + 2) + (g % 10)
            * p10(m - w + 1));
        assert(p10(m - w + 2) == 10 * p10(m - w + 1));
        assert((g / 10) * (10 * p10(m - w + 1)) + (g % 10) * p10(m - w + 1) == (10 * (g / 10) + g
            % 10) * p10(m - w + 1)) by (nonlinear_arith);
        assert(10 * (g / 10) + g % 10 == g) by {
            vstd::arithmetic::div_mod::lemma_fundamental_div_mod(g, 10);
        }
    }
}

/// The rendered fractional digits read back to the fractional part.
proof fn lemma_frac_digits_value(f: int, w: int, m: int)
    requires
        1 <= w,
        w - 1 <= m,
        0 < f < p10(w),
    ensures
        crate::lexer::frac_value(
            crate::numbers::frac_digits(f, w),
            0,
            crate::numbers::frac_digits(f, w).len() as int,
            p10(m),
        ) == f * p10(m - w + 1),
    decreases w,
{
    let d = crate::numbers::frac_digits(f, w);
    if w <= 1 {
        assert(p10(1) == 10) by {
            reveal_with_fuel(p10, 3);
        }
        assert(f % 10 == f);
        assert(d =~= seq![crate::numbers::digit_char(f)]);
        assert(d[0] == crate::numbers::digit_char(f));
        assert(crate::numbers::digit_char(f) as int - 48 == f);
        assert(crate::lexer::frac_value(d, 1, 1, p10(m) / 10) == 0);
    } else if f % 10 == 0 {
        assert(p10(w) == 10 * p10(w - 1));
        lemma_p10_pos(w - 1);
        assert(f == 10 * (f / 10)) by {
            vstd::arithmetic::div_mod::lemma_fundamental_div_mod(f, 10);
        }
        assert(f / 10 > 0);
        assert(f / 10 < p10(w - 1)) by (nonlinear_arith)
            requires
                f == 10 * (f / 10),
                f < 10 * p10(w - 1),
        ;
        lemma_frac_digits_value(f / 10, w - 1, m);
        assert(p10(m - w + 2) == 10 * p10(m - w + 1));
        assert((f / 10) * (10 * p10(m - w + 1)) == (10 * (f / 10)) * p10(m - w + 1))
            by (nonlinear_arith);
    } else {
        lemma_padded_len(f, w);
        lemma_padded_value(f, w, m);
    }
}

/// A rendered magnitude at `i0`, running to the end of the text, is read
/// back as one numeric literal of exactly that magnitude.
proof fn lemma_magnitude_reparse(s: Seq<char>, i0: int, m: int, neg: bool)
    requires
        0 <= i0 <= s.len(),
        0 <= m <= i64::MAX as int,
        s.subrange(i0, s.len() as int) == crate::numbers::render_magnitude(m),
    ensures
        crate::lexer::number_result(s, i0, neg) == (
            tok_int(
                if neg {
                    -m
                } else {
                    m
                },
            ),
            s.len() as int,
            false,
        ),
        i0 < s.len(),
        crate::lexer::is_digit_c(s[i0]),
{
    let sc = SCALE as int;
    let whole = m / sc;
    let frac = m % sc;
    assert(whole >= 0 && frac >= 0 && whole * sc + frac == m) by {
        vstd::arithmetic::div_mod::lemma_fundamental_div_mod(m, sc);
        vstd::arithmetic::div_mod::lemma_mod_bound(m, sc);
    }
    let dd = crate::numbers::dec_digits(whole);
    let tail = s.subrange(i0, s.len() as int);
    lemma_dec_digits_all(whole);
    if frac == 0 {
        assert(tail == dd);
        assert forall|k: int| i0 <= k < s.len() implies crate::lexer::is_digit_c(
            #[trigger] s[k],
        ) by {
            assert(s[k] == tail[k - i0]);
        }
        lemma_scan_digit_stop(s, i0, s.len() as int);
        assert(dd =~= s.subrange(i0, s.len() as int));
        lemma_digits_value_back(s.subrange(0, i0), whole);
        assert(s.subrange(0, i0) + dd =~= s);
        assert(crate::lexer::digits_value(s, i0, s.len() as int) == whole);
        assert(s[i0] == dd[0]);
    } else {
        let fd = crate::numbers::frac_digits(frac, 6);
        assert(tail == dd + seq!['.'] + fd);
        lemma_frac_digits_all(frac, 6);
        let cut = i0 + dd.len();
        assert(tail.len() == dd.len() + 1 + fd.len());
        assert forall|k: int| i0 <= k < cut implies crate::lexer::is_digit_c(
            #[trigger] s[k],
        ) by {
            assert(s[k] == tail[k - i0]);
            assert(tail[k - i0] == (dd + seq!['.'])[k - i0]);
            assert((dd + seq!['.'])[k - i0] == dd[k - i0]);
        }
        assert(s[cut] == tail[dd.len() as int]);
        assert(tail[dd.len() as int] == (dd + seq!['.'])[dd.len() as int]);
        assert((dd + seq!['.'])[dd.len() as int] == '.');
        assert(!crate::lexer::is_digit_c('.'));
        lemma_scan_digit_stop(s, i0, cut);
        assert forall|k: int| cut + 1 <= k < s.len() implies crate::lexer::is_digit_c(
            #[trigger] s[k],
        ) by {
            assert(s[k] == tail[k - i0]);
            assert((dd + seq!['.']).len() == dd.len() + 1);
            assert(tail[k - i0] == fd[k - i0 - dd.len() - 1]);
        }
        lemma_scan_digit_stop(s, cut + 1, s.len() as int);
        // the whole part
        let a = s.subrange(0, cut);
        lemma_digits_value_back(s.subrange(0, i0), whole);
        assert forall|j: int| 0 <= j < cut implies (s.subrange(0, i0) + dd)[j] == a[j] by {
            if j < i0 {
                assert((s.subrange(0, i0) + dd)[j] == s[j]);
            } else {
                assert((s.subrange(0, i0) + dd)[j] == dd[j - i0]);
                assert(a[j] == s[j]);
                assert(s[j] == tail[j - i0]);
                assert(tail[j - i0] == (dd + seq!['.'])[j - i0]);
                assert((dd + seq!['.'])[j - i0] == dd[j - i0]);
            }
        }
        assert(s.subrange(0, i0) + dd =~= a);
        assert(a == s.subrange(0, a.len() as int));
        lemma_digits_value_prefix(a, s, i0, cut);
        assert(crate::lexer::digits_value(s, i0, cut) == whole);
        // the fractional part
        let pre = s.subrange(0, cut + 1);
        assert forall|j: int| 0 <= j < s.len() implies (pre + fd)[j] == s[j] by {
            if j <= cut {
                assert((pre + fd)[j] == pre[j]);
                assert(pre[j] == s[j]);
            } else {
                assert((pre + fd)[j] == fd[j - cut - 1]);
                assert(s[j] == tail[j - i0]);
                assert((dd + seq!['.']).len() == dd.len() + 1);
                assert(tail[j - i0] == fd[j - i0 - dd.len() - 1]);
            }
        }
        assert(pre + fd =~= s);
        lemma_frac_shift(pre, fd, 0, 100000);
        assert(p10(5) == 100000) by {
            reveal_with_fuel(p10, 7);
        }
        assert(p10(6) == 1000000) by {
            reveal_with_fuel(p10, 8);
        }
        assert(frac < p10(6));
        lemma_frac_digits_value(frac, 6, 5);
        assert(p10(0) == 1) by {
            reveal_with_fuel(p10, 2);
        }
        assert(crate::lexer::frac_value(s, cut + 1, s.len() as int, 100000) == frac);
        assert(s[i0] == dd[0]);
    }
}

/// A fractional reading at an offset reads the suffix alone.
proof fn lemma_frac_shift(pre: Seq<char>, d: Seq<char>, k: int, m: int)
    requires
        0 <= k <= d.len(),
    ensures
        crate::lexer::frac_value(pre + d, pre.len() + k, (pre + d).len() as int, m)
            == crate::lexer::frac_value(d, k, d.len() as int, m),
    decreases d.len() - k,
{
    if k < d.len() {
        assert((pre + d)[pre.len() + k] == d[k]);
        lemma_frac_shift(pre, d, k + 1, m / 10);
    }
}

/// A number value round-trips: its display form tokenizes to exactly the
/// one number token. The one value left out is the smallest representable
/// number, whose magnitude itself no longer fits the representation.
pub proof fn lemma_int_round_trip(n: int)
    requires
        -(i64::MAX as int) <= n <= i64::MAX as int,
    ensures
        lex_spec(crate::render::render_display(tok_int(n))) == seq![tok_int(n)],
{
    if n >= 0 {
        let s = crate::numbers::render_magnitude(n);
        assert(crate::render::render_display(tok_int(n)) == s);
        assert(s.subrange(0, s.len() as int) =~= s);
        lemma_magnitude_reparse(s, 0, n, false);
        let c = s[0];
        assert(crate::lexer::is_digit_c(c));
        assert(lex_from(s, s.len() as int) =~= Seq::<TokV>::empty());
        assert(lex_spec(s) =~= seq![tok_int(n)]);
    } else {
        let m = -n;
        let mag = crate::numbers::render_magnitude(m);
        let s = seq!['-'] + mag;
        assert(crate::render::render_display(tok_int(n)) == s);
        assert(s.subrange(1, s.len() as int) =~= mag);
        lemma_magnitude_reparse(s, 1, m, true);
        assert(s[0] == '-');
        assert(s[1] == s.subrange(1, s.len() as int)[0]);
        assert(crate::lexer::is_digit_c(s[1]));
        assert(lex_from(s, s.len() as int) =~= Seq::<TokV>::empty());
        assert(lex_spec(s) =~= seq![tok_int(n)]);
    }
}

} // verus!
