//! The builtin library: a fixed, flat table of primitive operations. Each
//! builtin checks arity and argument kinds itself and reports violations as
//! ordinary error values, which flow through the evaluator's short-circuit
//! propagation like any other value.
use vstd::prelude::*;

use rand::Rng;

use crate::host::HostBridge;
use crate::numbers::in64;
use crate::numbers::tdiv;
use crate::numbers::SCALE;
use crate::render::debug_form;
use crate::scope::lookup_var;
use crate::value::group_view_lemmas;
use crate::value::str_eq_lit;
use crate::value::tok_error;
use crate::value::tok_int;
use crate::value::tok_new;
use crate::value::tok_str;
use crate::value::view_tokens;
use crate::value::Function;
use crate::value::FunV;
use crate::value::Scope;
use crate::value::ScopeV;
use crate::value::Token;
use crate::value::TokenType;
use crate::value::TokV;

verus! {

// ---------------------------------------------------------------------------
// Common pieces
// ---------------------------------------------------------------------------

pub open spec fn arity_msg(name: Seq<char>, suffix: Seq<char>) -> TokV {
    tok_error(TokenType::TypeError, name + suffix)
}

fn arity_error(name: &String, suffix: &str) -> (r: Token)
    ensures
        r@ == arity_msg(name@, suffix@),
{
    let mut m = name.clone();
    m.append(suffix);
    Token::new_error(TokenType::TypeError, m)
}

fn type_error(text: &str) -> (r: Token)
    ensures
        r@ == tok_error(TokenType::TypeError, text@),
{
    Token::new_error(TokenType::TypeError, text.to_owned())
}

/// A number that no longer fits the fixed-point representation.
pub open spec fn overflow_error() -> TokV {
    tok_error(TokenType::Error, "number overflow"@)
}

fn overflow_error_exec() -> (r: Token)
    ensures
        r@ == overflow_error(),
{
    Token::new_error(TokenType::Error, "number overflow".to_owned())
}

/// A list or string length as a fixed-point number.
pub open spec fn scaled_len(n: int) -> TokV {
    if in64(n * (SCALE as int)) {
        tok_int(n * (SCALE as int))
    } else {
        overflow_error()
    }
}

fn scaled_len_exec(n: usize) -> (r: Token)
    ensures
        r@ == scaled_len(n as int),
{
    if (n as u64) <= 9223372036854u64 {
        proof {
            assert(n as int * (SCALE as int) <= 9223372036854int * 1000000int) by (nonlinear_arith)
                requires
                    0 <= n as int <= 9223372036854int,
            ;
            assert(n as int * (SCALE as int) >= 0) by (nonlinear_arith)
                requires
                    n as int >= 0,
            ;
        }
        Token::new_int((n as i64) * SCALE)
    } else {
        proof {
            assert(n as int * (SCALE as int) > 9223372036854int * 1000000int) by (nonlinear_arith)
                requires
                    n as int > 9223372036854int,
            ;
        }
        overflow_error_exec()
    }
}

// ---------------------------------------------------------------------------
// print
// ---------------------------------------------------------------------------

pub open spec fn print_spec(name: Seq<char>, args: Seq<TokV>) -> TokV {
    if args.len() == 0 {
        arity_msg(name, "() takes 1 argument"@)
    } else {
        tok_new(TokenType::NoneValue)
    }
}

/// Writes the plain rendering of the value to the host's output channel
/// and returns the unit value.
pub fn print<B: HostBridge>(name: &String, args: &Vec<Token>, _scope: &Scope, bridge: &mut B) -> (r:
    Token)
    ensures
        r@ == print_spec(name@, view_tokens(args@)),
{
    broadcast use group_view_lemmas;

    if args.len() == 0 {
        return arity_error(name, "() takes 1 argument");
    }
    let line = args[0].to_print_string();
    bridge.emit_line(&line);
    Token::new_none()
}

// ---------------------------------------------------------------------------
// debug
// ---------------------------------------------------------------------------

pub open spec fn debug_spec(name: Seq<char>, args: Seq<TokV>) -> TokV {
    if args.len() == 0 || args.len() > 2 {
        arity_msg(name, "() takes 1 to 2 arguments"@)
    } else if args.len() == 2 && args[1].kind != TokenType::Bool {
        tok_error(TokenType::TypeError, "debug() takes a bool as its second argument"@)
    } else {
        tok_str(debug_form(args[0], args.len() == 2 && args[1].number != 0))
    }
}

fn debug<B: HostBridge>(name: &String, args: &Vec<Token>, _scope: &Scope, _bridge: &mut B) -> (r:
    Token)
    ensures
        r@ == debug_spec(name@, view_tokens(args@)),
{
    broadcast use group_view_lemmas;

    if args.len() == 0 || args.len() > 2 {
        return arity_error(name, "() takes 1 to 2 arguments");
    }
    if args.len() == 2 && !(args[1].kind == TokenType::Bool) {
        return type_error("debug() takes a bool as its second argument");
    }
    let pretty = args.len() == 2 && args[1].number != 0;
    Token::new_string(crate::render::debug_string(&args[0], pretty))
}

// ---------------------------------------------------------------------------
// get
// ---------------------------------------------------------------------------

pub open spec fn get_spec(name: Seq<char>, args: Seq<TokV>) -> TokV {
    if args.len() != 2 {
        arity_msg(name, "() takes 2 arguments"@)
    } else if args[0].kind != TokenType::List {
        tok_error(TokenType::TypeError, "get() takes a list as its first argument"@)
    } else if args[1].kind != TokenType::Int {
        tok_error(TokenType::TypeError, "get() takes an integer as its second argument"@)
    } else {
        let idx = tdiv(args[1].number, SCALE as int);
        if idx < 0 || idx >= args[0].list.len() {
            tok_error(TokenType::IndexError, "list index out of range"@)
        } else {
            args[0].list[idx]
        }
    }
}

fn get<B: HostBridge>(name: &String, args: &Vec<Token>, _scope: &Scope, _bridge: &mut B) -> (r:
    Token)
    ensures
        r@ == get_spec(name@, view_tokens(args@)),
{
    broadcast use group_view_lemmas;

    if args.len() != 2 {
        return arity_error(name, "() takes 2 arguments");
    }
    proof {
        assert(view_tokens(args@).len() == args@.len());
        assert(view_tokens(args@)[0] == crate::value::view_token(args@[0]));
        assert(view_tokens(args@)[1] == crate::value::view_token(args@[1]));
    }
    if !(args[0].kind == TokenType::List) {
        return type_error("get() takes a list as its first argument");
    }
    if !(args[1].kind == TokenType::Int) {
        return type_error("get() takes an integer as its second argument");
    }
    proof {
        assert(view_tokens(args@)[0].list == view_tokens(args@[0].list@));
        assert(view_tokens(args@[0].list@).len() == args@[0].list@.len());
    }
    let idx = crate::numbers::num_whole(args[1].number);
    if idx < 0 {
        return Token::new_error(TokenType::IndexError, "list index out of range".to_owned());
    }
    if idx as u64 >= args[0].list.len() as u64 {
        return Token::new_error(TokenType::IndexError, "list index out of range".to_owned());
    }
    let iu = idx as usize;
    proof {
        assert(view_tokens(args@[0].list@)[iu as int] == crate::value::view_token(
            args@[0].list@[iu as int],
        ));
    }
    crate::value::copy_token(&args[0].list[iu])
}

// ---------------------------------------------------------------------------
// len
// ---------------------------------------------------------------------------

pub open spec fn len_spec(name: Seq<char>, args: Seq<TokV>) -> TokV {
    if args.len() == 0 {
        arity_msg(name, "() takes 1 argument"@)
    } else if args[0].kind == TokenType::List {
        scaled_len(args[0].list.len() as int)
    } else if args[0].kind == TokenType::Str {
        scaled_len(args[0].value.len() as int)
    } else {
        tok_error(TokenType::TypeError, "len() takes a list or string as its first argument"@)
    }
}

fn len<B: HostBridge>(name: &String, args: &Vec<Token>, _scope: &Scope, _bridge: &mut B) -> (r:
    Token)
    ensures
        r@ == len_spec(name@, view_tokens(args@)),
{
    broadcast use group_view_lemmas;

    if args.len() == 0 {
        return arity_error(name, "() takes 1 argument");
    }
    proof {
        assert(view_tokens(args@).len() == args@.len());
        assert(view_tokens(args@)[0] == crate::value::view_token(args@[0]));
    }
    if args[0].kind == TokenType::List {
        proof {
            assert(view_tokens(args@)[0].list == view_tokens(args@[0].list@));
            assert(view_tokens(args@[0].list@).len() == args@[0].list@.len());
        }
        scaled_len_exec(args[0].list.len())
    } else if args[0].kind == TokenType::Str {
        scaled_len_exec(args[0].value.as_str().unicode_len())
    } else {
        type_error("len() takes a list or string as its first argument")
    }
}

// ---------------------------------------------------------------------------
// contains
// ---------------------------------------------------------------------------

/// Whether one element equals the needle under its own kind's equality
/// rule: strings by text, numbers and booleans by numeric payload.
pub open spec fn element_matches(e: TokV, needle: TokV) -> bool {
    match e.kind {
        TokenType::Str => e.value == needle.value,
        TokenType::Int | TokenType::Bool => e.number == needle.number,
        _ => false,
    }
}

pub open spec fn list_contains_from(l: Seq<TokV>, needle: TokV, i: int) -> bool
    decreases l.len() - i,
{
    if i < 0 || i >= l.len() {
        false
    } else if element_matches(l[i], needle) {
        true
    } else {
        list_contains_from(l, needle, i + 1)
    }
}

pub open spec fn contains_spec(name: Seq<char>, args: Seq<TokV>) -> TokV {
    if args.len() != 2 {
        arity_msg(name, "() takes 2 arguments"@)
    } else if args[0].kind != TokenType::List {
        tok_error(TokenType::TypeError, "contains() takes a list as its first argument"@)
    } else if args[1].kind != TokenType::Str && args[1].kind != TokenType::Int && args[1].kind
        != TokenType::Bool {
        tok_error(
            TokenType::TypeError,
            "contains() takes string, int or bool as its second argument"@,
        )
    } else {
        crate::value::tok_bool(list_contains_from(args[0].list, args[1], 0))
    }
}

#[verifier::loop_isolation(false)]
fn contains<B: HostBridge>(name: &String, args: &Vec<Token>, _scope: &Scope, _bridge: &mut B) -> (r:
    Token)
    ensures
        r@ == contains_spec(name@, view_tokens(args@)),
{
    broadcast use group_view_lemmas;

    if args.len() != 2 {
        return arity_error(name, "() takes 2 arguments");
    }
    proof {
        assert(view_tokens(args@).len() == args@.len());
        assert(view_tokens(args@)[0] == crate::value::view_token(args@[0]));
        assert(view_tokens(args@)[1] == crate::value::view_token(args@[1]));
        assert(view_tokens(args@)[0].list == view_tokens(args@[0].list@));
        assert(view_tokens(args@[0].list@).len() == args@[0].list@.len());
    }
    if !(args[0].kind == TokenType::List) {
        return type_error("contains() takes a list as its first argument");
    }
    if !(args[1].kind == TokenType::Str || args[1].kind == TokenType::Int || args[1].kind
        == TokenType::Bool) {
        return type_error("contains() takes string, int or bool as its second argument");
    }
    let ghost needle = view_tokens(args@)[1];
    let ghost l = view_tokens(args@)[0].list;
    let items = &args[0].list;
    let mut i: usize = 0;
    while i < items.len()
        invariant
            i <= items@.len(),
            l == view_tokens(items@),
            l.len() == items@.len(),
            needle == args@[1]@,
            args@.len() == 2,
            forall|j: int|
                0 <= j < items@.len() ==> #[trigger] view_tokens(items@)[j] == crate::value::view_token(
                    items@[j],
                ),
            list_contains_from(l, needle, 0) == list_contains_from(l, needle, i as int),
        decreases items@.len() - i,
    {
        proof {
            assert(l[i as int] == crate::value::view_token(items@[i as int]));
        }
        let hit = match items[i].kind {
            TokenType::Str => str_eq_lit(&items[i].value, args[1].value.as_str()),
            TokenType::Int | TokenType::Bool => items[i].number == args[1].number,
            _ => false,
        };
        proof {
            assert(hit == element_matches(l[i as int], needle));
        }
        if hit {
            proof {
                assert(view_tokens(args@).len() == args@.len());
                assert(view_tokens(args@)[0] == crate::value::view_token(args@[0]));
                assert(view_tokens(args@)[1] == crate::value::view_token(args@[1]));
            }
            return Token::from_bool(true);
        }
        i += 1;
    }
    proof {
        assert(view_tokens(args@).len() == args@.len());
        assert(view_tokens(args@)[0] == crate::value::view_token(args@[0]));
        assert(view_tokens(args@)[1] == crate::value::view_token(args@[1]));
    }
    Token::from_bool(false)
}

// ---------------------------------------------------------------------------
// hex
// ---------------------------------------------------------------------------

pub open spec fn hex_digit_val(c: char) -> Option<int> {
    let v = c as int;
    if '0' as int <= v && v <= '9' as int {
        Option::Some(v - '0' as int)
    } else if 'a' as int <= v && v <= 'f' as int {
        Option::Some(v - 'a' as int + 10)
    } else if 'A' as int <= v && v <= 'F' as int {
        Option::Some(v - 'A' as int + 10)
    } else {
        Option::None
    }
}

/// The magnitude of the hex digits of `s` from `i` on, accumulated onto
/// `acc`; `None` when a character is no hex digit.
pub open spec fn hex_acc(s: Seq<char>, i: int, acc: int) -> Option<int>
    decreases s.len() - i,
{
    if i < 0 || i >= s.len() {
        Option::Some(acc)
    } else {
        match hex_digit_val(s[i]) {
            Option::Some(d) => hex_acc(s, i + 1, acc * 16 + d),
            Option::None => Option::None,
        }
    }
}

/// A base-16 reading of the whole string: an optional sign, then hex
/// digits; `None` when the string is empty, malformed or out of the `i64`
/// range.
pub open spec fn hex_parse(s: Seq<char>) -> Option<int> {
    if s.len() == 0 {
        Option::None
    } else {
        let neg = s[0] == '-';
        let signed = s[0] == '-' || s[0] == '+';
        let start: int = if signed {
            1
        } else {
            0
        };
        if s.len() == start {
            Option::None
        } else {
            match hex_acc(s, start, 0) {
                Option::Some(m) => {
                    let v = if neg {
                        -m
                    } else {
                        m
                    };
                    if in64(v) {
                        Option::Some(v)
                    } else {
                        Option::None
                    }
                },
                Option::None => Option::None,
            }
        }
    }
}

pub open spec fn hex_spec(name: Seq<char>, args: Seq<TokV>) -> TokV {
    if args.len() == 0 {
        arity_msg(name, "() takes 1 argument"@)
    } else if args[0].kind != TokenType::Str {
        tok_error(TokenType::TypeError, "hex() takes a string as its first argument"@)
    } else {
        let v = match hex_parse(args[0].value) {
            Option::Some(v) => v,
            Option::None => 0,
        };
        if in64(v * (SCALE as int)) {
            tok_int(v * (SCALE as int))
        } else {
            tok_int(0)
        }
    }
}

fn hex_digit_exec(c: char) -> (r: Option<u8>)
    ensures
        match r {
            Option::Some(d) => hex_digit_val(c) == Option::Some(d as int),
            Option::None => hex_digit_val(c) is None,
        },
{
    let v = c as u32;
    if 48 <= v && v <= 57 {
        Option::Some((v - 48) as u8)
    } else if 97 <= v && v <= 102 {
        Option::Some((v - 97 + 10) as u8)
    } else if 65 <= v && v <= 70 {
        Option::Some((v - 65 + 10) as u8)
    } else {
        Option::None
    }
}

#[verifier::loop_isolation(false)]
fn hex<B: HostBridge>(name: &String, args: &Vec<Token>, _scope: &Scope, _bridge: &mut B) -> (r:
    Token)
    ensures
        r@ == hex_spec(name@, view_tokens(args@)),
{
    broadcast use group_view_lemmas;

    if args.len() == 0 {
        return arity_error(name, "() takes 1 argument");
    }
    proof {
        assert(view_tokens(args@).len() == args@.len());
        assert(view_tokens(args@)[0] == crate::value::view_token(args@[0]));
    }
    if !(args[0].kind == TokenType::Str) {
        return type_error("hex() takes a string as its first argument");
    }
    let s = &args[0].value;
    let ghost sv = s@;
    let n = s.as_str().unicode_len();
    if n == 0 {
        return Token::new_int(0);
    }
    let c0 = s.as_str().get_char(0);
    let neg = c0 == '-';
    let signed = c0 == '-' || c0 == '+';
    let mut i: usize = if signed {
        1
    } else {
        0
    };
    if n == i {
        return Token::new_int(0);
    }
    let ghost start = i as int;
    let mut acc: u128 = 0;
    let ghost mut gacc: int = 0;
    while i < n
        invariant
            start <= i <= n,
            n == sv.len(),
            sv == s@,
            gacc >= 0,
            hex_acc(sv, start, 0) == hex_acc(sv, i as int, gacc),
            (gacc <= 0x8000000000000000) ==> acc == gacc,
            (gacc > 0x8000000000000000) ==> acc > 0x8000000000000000,
            acc <= 0x80000000000000010u128,
        decreases n - i,
    {
        let c = s.as_str().get_char(i);
        match hex_digit_exec(c) {
            Option::Some(d) => {
                proof {
                    assert(gacc * 16 + d as int >= gacc) by (nonlinear_arith)
                        requires
                            gacc >= 0,
                            d as int >= 0,
                    ;
                    gacc = gacc * 16 + d as int;
                }
                if acc <= 0x8000000000000000u128 {
                    acc = acc * 16 + d as u128;
                }
            },
            Option::None => {
                proof {
                    assert(view_tokens(args@).len() == args@.len());
                    assert(view_tokens(args@)[0] == crate::value::view_token(args@[0]));
                }
                return Token::new_int(0);
            },
        }
        i += 1;
    }
    proof {
        assert(hex_acc(sv, start, 0) == Option::Some(gacc));
        assert(view_tokens(args@).len() == args@.len());
        assert(view_tokens(args@)[0] == crate::value::view_token(args@[0]));
    }
    if neg {
        if acc <= 0x8000000000000000u128 {
            let m = -(acc as i128);
            scale_hex(m as i64)
        } else {
            Token::new_int(0)
        }
    } else {
        if acc <= 0x7fffffffffffffffu128 {
            scale_hex(acc as i64)
        } else {
            Token::new_int(0)
        }
    }
}

/// Accumulating more hex digits never shrinks the magnitude.
proof fn lemma_hex_acc_mono(s: Seq<char>, i: int, acc: int)
    requires
        acc >= 0,
    ensures
        match hex_acc(s, i, acc) {
            Option::Some(m) => m >= acc,
            Option::None => true,
        },
    decreases s.len() - i,
{
    if 0 <= i < s.len() {
        match hex_digit_val(s[i]) {
            Option::Some(d) => {
                assert(acc * 16 + d >= acc) by (nonlinear_arith)
                    requires
                        acc >= 0,
                        d >= 0,
                ;
                lemma_hex_acc_mono(s, i + 1, acc * 16 + d);
            },
            Option::None => {},
        }
    }
}

fn scale_hex(v: i64) -> (r: Token)
    ensures
        r@ == if in64(v as int * (SCALE as int)) {
            tok_int(v as int * (SCALE as int))
        } else {
            tok_int(0)
        },
{
    proof {
        assert(-0x8000000000000000 * 0x100000 <= (v as int) * (SCALE as int) <= 0x8000000000000000
            * 0x100000) by (nonlinear_arith)
            requires
                -0x8000000000000000 <= v as int <= 0x7fffffffffffffff,
                SCALE as int == 0x0f4240,
        ;
    }
    let p: i128 = v as i128 * SCALE as i128;
    if p >= i64::MIN as i128 && p <= i64::MAX as i128 {
        Token::new_int(p as i64)
    } else {
        Token::new_int(0)
    }
}

// ---------------------------------------------------------------------------
// rgb
// ---------------------------------------------------------------------------

/// A channel value as a whole number, with negative inputs clamped to zero.
pub open spec fn channel_of(t: TokV) -> u64 {
    if t.number < 0 {
        0u64
    } else {
        tdiv(t.number, SCALE as int) as u64
    }
}

pub open spec fn rgb_spec(name: Seq<char>, args: Seq<TokV>) -> TokV {
    if args.len() != 3 {
        arity_msg(name, "() takes 3 arguments"@)
    } else if args[0].kind != TokenType::Int {
        tok_error(TokenType::TypeError, "rgb() takes an integer as its first argument"@)
    } else if args[1].kind != TokenType::Int {
        tok_error(TokenType::TypeError, "rgb() takes an integer as its second argument"@)
    } else if args[2].kind != TokenType::Int {
        tok_error(TokenType::TypeError, "rgb() takes an integer as its third argument"@)
    } else {
        let combined = (channel_of(args[0]) << 16) | (channel_of(args[1]) << 8) | channel_of(
            args[2],
        );
        if in64(combined as int * (SCALE as int)) {
            tok_int(combined as int * (SCALE as int))
        } else {
            overflow_error()
        }
    }
}

fn channel_exec(t: &Token) -> (r: u64)
    requires
        t.kind == TokenType::Int,
    ensures
        r == channel_of(t@),
{
    if t.number < 0 {
        0u64
    } else {
        let w = crate::numbers::num_whole(t.number);
        w as u64
    }
}

fn rgb<B: HostBridge>(name: &String, args: &Vec<Token>, _scope: &Scope, _bridge: &mut B) -> (r:
    Token)
    ensures
        r@ == rgb_spec(name@, view_tokens(args@)),
{
    broadcast use group_view_lemmas;

    if args.len() != 3 {
        return arity_error(name, "() takes 3 arguments");
    }
    if !(args[0].kind == TokenType::Int) {
        return type_error("rgb() takes an integer as its first argument");
    }
    if !(args[1].kind == TokenType::Int) {
        return type_error("rgb() takes an integer as its second argument");
    }
    if !(args[2].kind == TokenType::Int) {
        return type_error("rgb() takes an integer as its third argument");
    }
    let r0 = channel_exec(&args[0]);
    let g0 = channel_exec(&args[1]);
    let b0 = channel_exec(&args[2]);
    let combined = (r0 << 16u64) | (g0 << 8u64) | b0;
    proof {
        assert(-0x8000000000000000 * 0x100000 <= (combined as int) * (SCALE as int) && (
        combined as int) * (SCALE as int) <= 0xffffffffffffffff * 0x0f4240) by (nonlinear_arith)
            requires
                0 <= combined as int <= 0xffffffffffffffff,
                SCALE as int == 0x0f4240,
        ;
    }
    let p: i128 = combined as i128 * SCALE as i128;
    if p <= i64::MAX as i128 {
        Token::new_int(p as i64)
    } else {
        overflow_error_exec()
    }
}

// ---------------------------------------------------------------------------
// format
// ---------------------------------------------------------------------------

pub open spec fn find_close(s: Seq<char>, i: int) -> Option<int>
    decreases s.len() - i,
{
    if i < 0 || i >= s.len() {
        Option::None
    } else if s[i] == '}' {
        Option::Some(i)
    } else {
        find_close(s, i + 1)
    }
}

pub proof fn lemma_find_close_bound(s: Seq<char>, i: int)
    ensures
        match find_close(s, i) {
            Option::Some(k) => i <= k < s.len() && s[k] == '}',
            Option::None => true,
        },
    decreases s.len() - i,
{
    if 0 <= i < s.len() && s[i] != '}' {
        lemma_find_close_bound(s, i + 1);
    }
}

/// One pass over the template from position `i`: plain characters are
/// copied, `{}` consumes the next positional argument, and `{name}` splices
/// the named variable; an unmet index, a missing close brace, an undefined
/// name or a non-string payload stops the walk with the matching error.
pub open spec fn format_walk(
    tpl: Seq<char>,
    i: int,
    args: Seq<TokV>,
    idx: int,
    sc: ScopeV,
    acc: Seq<char>,
) -> TokV
    decreases tpl.len() - i,
{
    if i < 0 || i >= tpl.len() {
        tok_str(acc)
    } else if tpl[i] != '{' {
        format_walk(tpl, i + 1, args, idx, sc, acc.push(tpl[i]))
    } else if i + 1 >= tpl.len() {
        tok_error(TokenType::SyntaxError, "missing }"@)
    } else if tpl[i + 1] == '}' {
        if idx >= args.len() {
            tok_error(TokenType::IndexError, "not enough arguments"@)
        } else if args[idx].kind != TokenType::Str {
            tok_error(TokenType::TypeError, "all arguments must be strings"@)
        } else {
            format_walk(tpl, i + 2, args, idx + 1, sc, acc + args[idx].value)
        }
    } else {
        match find_close(tpl, i + 1) {
            Option::None => tok_error(TokenType::SyntaxError, "missing }"@),
            Option::Some(k) => {
                if k < i + 1 || k >= tpl.len() {
                    tok_error(TokenType::SyntaxError, "missing }"@)
                } else {
                    let nm = tpl.subrange(i + 1, k);
                    match lookup_var(sc, nm) {
                        Option::None => tok_error(TokenType::Undefined, nm + " is not defined"@),
                        Option::Some(v) => {
                            if v.kind != TokenType::Str {
                                tok_error(TokenType::TypeError, "all arguments must be strings"@)
                            } else {
                                format_walk(tpl, k + 1, args, idx, sc, acc + v.value)
                            }
                        },
                    }
                }
            },
        }
    }
}

pub open spec fn format_spec(name: Seq<char>, args: Seq<TokV>, sc: ScopeV) -> TokV {
    if args.len() == 0 {
        arity_msg(name, "() takes 1 argument"@)
    } else {
        format_walk(args[0].value, 0, args, 1, sc, Seq::empty())
    }
}

#[verifier::loop_isolation(false)]
fn format<B: HostBridge>(name: &String, args: &Vec<Token>, scope: &Scope, _bridge: &mut B) -> (r:
    Token)
    ensures
        r@ == format_spec(name@, view_tokens(args@), scope@),
{
    broadcast use group_view_lemmas;

    if args.len() == 0 {
        return arity_error(name, "() takes 1 argument");
    }
    proof {
        assert(view_tokens(args@).len() == args@.len());
        assert(view_tokens(args@)[0] == crate::value::view_token(args@[0]));
        assert forall|j: int| 0 <= j < args@.len() implies #[trigger] view_tokens(args@)[j]
            == crate::value::view_token(args@[j]) by {
            crate::value::lemma_view_tokens_index(args@, j);
        }
    }
    let ghost argsv = view_tokens(args@);
    let s = &args[0].value;
    let ghost tpl = s@;
    let n = s.as_str().unicode_len();
    let mut out = String::new();
    let mut i: usize = 0;
    let mut idx: usize = 1;
    while i < n
        invariant
            i <= n,
            n == tpl.len(),
            tpl == s@,
            1 <= idx <= args@.len(),
            format_walk(tpl, 0, argsv, 1, scope@, Seq::empty()) == format_walk(
                tpl,
                i as int,
                argsv,
                idx as int,
                scope@,
                out@,
            ),
        decreases n - i,
    {
        let c = s.as_str().get_char(i);
        if c != '{' {
            out.push(c);
            i += 1;
        } else if i + 1 >= n {
            return Token::new_error(TokenType::SyntaxError, "missing }".to_owned());
        } else if s.as_str().get_char(i + 1) == '}' {
            if idx >= args.len() {
                return Token::new_error(TokenType::IndexError, "not enough arguments".to_owned());
            }
            if !(args[idx].kind == TokenType::Str) {
                return type_error("all arguments must be strings");
            }
            out.append(args[idx].value.as_str());
            i += 2;
            idx += 1;
        } else {
            let mut k = i + 1;
            while k < n && s.as_str().get_char(k) != '}'
                invariant
                    i + 1 <= k <= n,
                    n == tpl.len(),
                    tpl == s@,
                    find_close(tpl, i + 1 as int) == find_close(tpl, k as int),
                decreases n - k,
            {
                k += 1;
            }
            if k == n {
                return Token::new_error(TokenType::SyntaxError, "missing }".to_owned());
            }
            proof {
                lemma_find_close_bound(tpl, i + 1 as int);
            }
            let nm = s.as_str().substring_char(i + 1, k).to_owned();
            match crate::scope::get_variable(&nm, scope) {
                Option::None => {
                    let mut m = nm;
                    m.append(" is not defined");
                    return Token::new_error(TokenType::Undefined, m);
                },
                Option::Some(v) => {
                    if !(v.kind == TokenType::Str) {
                        return type_error("all arguments must be strings");
                    }
                    out.append(v.value.as_str());
                },
            }
            i = k + 1;
        }
    }
    proof {
        assert(format_walk(tpl, n as int, argsv, idx as int, scope@, out@) == tok_str(out@));
    }
    Token::new_string(out)
}

// ---------------------------------------------------------------------------
// type and str
// ---------------------------------------------------------------------------

pub open spec fn type_spec(name: Seq<char>, args: Seq<TokV>) -> TokV {
    if args.len() == 0 {
        arity_msg(name, "() takes 1 argument"@)
    } else {
        tok_str(crate::value::kind_name_spec(args[0].kind))
    }
}

fn type_of<B: HostBridge>(name: &String, args: &Vec<Token>, _scope: &Scope, _bridge: &mut B) -> (r:
    Token)
    ensures
        r@ == type_spec(name@, view_tokens(args@)),
{
    broadcast use group_view_lemmas;

    if args.len() == 0 {
        return arity_error(name, "() takes 1 argument");
    }
    Token::new_string(crate::value::kind_name(args[0].kind))
}

pub open spec fn str_spec(name: Seq<char>, args: Seq<TokV>) -> TokV {
    if args.len() == 0 {
        arity_msg(name, "() takes 1 argument"@)
    } else {
        match args[0].kind {
            TokenType::Str => args[0],
            TokenType::Int => tok_str(crate::numbers::render_number(args[0].number)),
            TokenType::Bool => tok_str(
                if args[0].number == SCALE as int {
                    "true"@
                } else {
                    "false"@
                },
            ),
            _ => tok_error(
                TokenType::Unsupported,
                crate::value::kind_name_spec(args[0].kind) + " type is not supported"@,
            ),
        }
    }
}

fn str_of<B: HostBridge>(name: &String, args: &Vec<Token>, _scope: &Scope, _bridge: &mut B) -> (r:
    Token)
    ensures
        r@ == str_spec(name@, view_tokens(args@)),
{
    broadcast use group_view_lemmas;

    if args.len() == 0 {
        return arity_error(name, "() takes 1 argument");
    }
    proof {
        assert(view_tokens(args@)[0] == crate::value::view_token(args@[0]));
    }
    match args[0].kind {
        TokenType::Str => crate::value::copy_token(&args[0]),
        TokenType::Int => Token::new_string(crate::numbers::num_to_string(args[0].number)),
        TokenType::Bool => {
            if args[0].number == SCALE {
                Token::new_string("true".to_owned())
            } else {
                Token::new_string("false".to_owned())
            }
        },
        _ => {
            let mut m = crate::value::kind_name(args[0].kind);
            m.append(" type is not supported");
            Token::new_error(TokenType::Unsupported, m)
        },
    }
}

// ---------------------------------------------------------------------------
// randint
// ---------------------------------------------------------------------------

/// The deterministic outcomes of `randint`: its arity and kind checks.
/// `None` means the arguments are well formed and a sample is drawn.
pub open spec fn randint_err(name: Seq<char>, args: Seq<TokV>) -> Option<TokV> {
    if args.len() < 2 || args.len() > 3 {
        Option::Some(arity_msg(name, "() takes 2 to 3 arguments"@))
    } else if args[0].kind != TokenType::Int {
        Option::Some(
            tok_error(TokenType::TypeError, "randint() takes an int as its first argument"@),
        )
    } else if args[1].kind != TokenType::Int {
        Option::Some(
            tok_error(TokenType::TypeError, "randint() takes an int as its second argument"@),
        )
    } else if args.len() == 3 && args[2].kind != TokenType::Bool {
        Option::Some(
            tok_error(TokenType::TypeError, "randint() takes a bool as its third argument"@),
        )
    } else {
        Option::None
    }
}

/// Whether a well-formed `randint` call asks for a fractional result.
pub open spec fn randint_fractional(args: Seq<TokV>) -> bool {
    args.len() == 3 && args[2].number != 0
}

/// Relies on rand's `thread_rng` and `Rng::gen_range`: a sample drawn
/// uniformly from the half-open range. `gen_range` panics only on an empty
/// range, which the precondition excludes.
#[verifier::external_body]
fn sample_range(lo: i64, hi: i64) -> (r: i64)
    requires
        lo < hi,
    ensures
        lo <= r < hi,
{
    rand::thread_rng().gen_range(lo..hi)
}

/// The greatest whole fixed-point value at most `n`, clamped up by one unit
/// when that value would leave the representable range.
fn floor_scale(n: i64) -> (r: i64)
    ensures
        r as int % (SCALE as int) == 0,
        n as int - (n as int % (SCALE as int)) >= i64::MIN as int ==> r as int == n as int - (
        n as int % (SCALE as int)),
        n as int - (n as int % (SCALE as int)) < i64::MIN as int ==> r as int == n as int - (
        n as int % (SCALE as int)) + SCALE as int,
        n as int - (SCALE as int) < r as int,
{
    let tm = match crate::numbers::num_rem(n, SCALE) {
        Option::Some(v) => v,
        Option::None => 0,
    };
    let e: i64 = if tm < 0 {
        tm + SCALE
    } else {
        tm
    };
    proof {
        vstd::arithmetic::div_mod::lemma_fundamental_div_mod(n as int, SCALE as int);
        if tm < 0 {
            vstd::arithmetic::div_mod::lemma_fundamental_div_mod_converse(
                n as int,
                SCALE as int,
                crate::numbers::tdiv(n as int, SCALE as int) - 1,
                e as int,
            );
        } else {
            vstd::arithmetic::div_mod::lemma_fundamental_div_mod_converse(
                n as int,
                SCALE as int,
                crate::numbers::tdiv(n as int, SCALE as int),
                e as int,
            );
        }
        assert(e as int == n as int % (SCALE as int));
    }
    let f: i128 = n as i128 - e as i128;
    let r: i64 = if f >= i64::MIN as i128 {
        (n as i128 - e as i128) as i64
    } else {
        (n as i128 - e as i128 + SCALE as i128) as i64
    };
    proof {
        let q = (n as int - e as int) / (SCALE as int);
        vstd::arithmetic::div_mod::lemma_fundamental_div_mod(n as int - e as int, SCALE as int);
        vstd::arithmetic::div_mod::lemma_mod_multiples_basic(
            (n as int - e as int) / (SCALE as int),
            SCALE as int,
        );
        if f < i64::MIN as i128 {
            vstd::arithmetic::div_mod::lemma_mod_multiples_basic(
                (n as int - e as int) / (SCALE as int) + 1,
                SCALE as int,
            );
            assert((q + 1) * (SCALE as int) == q * (SCALE as int) + SCALE as int)
                by (nonlinear_arith);
        }
    }
    r
}

fn randint<B: HostBridge>(name: &String, args: &Vec<Token>, _scope: &Scope, _bridge: &mut B) -> (r:
    Token)
    ensures
        ({
            let argsv = view_tokens(args@);
            match randint_err(name@, argsv) {
                Option::Some(e) => r@ == e,
                Option::None => {
                    let a = argsv[0].number;
                    let b = argsv[1].number;
                    &&& r@.kind == TokenType::Int
                    &&& r@.value == Seq::<char>::empty()
                    &&& r@.list == Seq::<TokV>::empty()
                    &&& r@.scope is None
                    &&& r@.hostref is None
                    &&& (a >= b ==> r@.number == a)
                    &&& (a < b && randint_fractional(argsv) ==> a <= r@.number < b)
                    &&& (a < b && !randint_fractional(argsv) ==> r@.number % (SCALE as int) == 0
                        && a - (SCALE as int) < r@.number && (a >= i64::MIN as int + SCALE as int
                        ==> r@.number < b))
                },
            }
        }),
{
    broadcast use group_view_lemmas;

    if args.len() < 2 || args.len() > 3 {
        return arity_error(name, "() takes 2 to 3 arguments");
    }
    proof {
        assert(view_tokens(args@)[0] == crate::value::view_token(args@[0]));
        assert(view_tokens(args@)[1] == crate::value::view_token(args@[1]));
        if args@.len() == 3 {
            assert(view_tokens(args@)[2] == crate::value::view_token(args@[2]));
        }
    }
    if !(args[0].kind == TokenType::Int) {
        return type_error("randint() takes an int as its first argument");
    }
    if !(args[1].kind == TokenType::Int) {
        return type_error("randint() takes an int as its second argument");
    }
    if args.len() == 3 && !(args[2].kind == TokenType::Bool) {
        return type_error("randint() takes a bool as its third argument");
    }
    let a = args[0].number;
    let b = args[1].number;
    if a >= b {
        return Token::new_int(a);
    }
    let sampled = sample_range(a, b);
    let fractional = args.len() == 3 && args[2].number != 0;
    if fractional {
        Token::new_int(sampled)
    } else {
        Token::new_int(floor_scale(sampled))
    }
}

// ---------------------------------------------------------------------------
// await
// ---------------------------------------------------------------------------

/// The deterministic outcomes of `await`: anything that does not carry a
/// host reference is rejected before the host is consulted.
pub open spec fn await_err(name: Seq<char>, args: Seq<TokV>) -> Option<TokV> {
    if args.len() == 0 {
        Option::Some(arity_msg(name, "() takes 1 argument"@))
    } else if args[0].hostref is None {
        Option::Some(
            tok_error(TokenType::TypeError, "await() takes coroutine as its first argument"@),
        )
    } else {
        Option::None
    }
}

fn await_host<B: HostBridge>(name: &String, args: &Vec<Token>, _scope: &Scope, bridge: &mut B) -> (r:
    Token)
    ensures
        match await_err(name@, view_tokens(args@)) {
            Option::Some(e) => r@ == e,
            Option::None => true,
        },
{
    broadcast use group_view_lemmas;

    if args.len() == 0 {
        return arity_error(name, "() takes 1 argument");
    }
    proof {
        assert(view_tokens(args@)[0] == crate::value::view_token(args@[0]));
    }
    match args[0].hostref {
        Option::Some(h) => bridge.await_value(h),
        Option::None => type_error("await() takes coroutine as its first argument"),
    }
}

// ---------------------------------------------------------------------------
// The table
// ---------------------------------------------------------------------------

pub open spec fn is_builtin_name(name: Seq<char>) -> bool {
    ||| name == "print"@
    ||| name == "debug"@
    ||| name == "get"@
    ||| name == "len"@
    ||| name == "contains"@
    ||| name == "hex"@
    ||| name == "rgb"@
    ||| name == "randint"@
    ||| name == "format"@
    ||| name == "type"@
    ||| name == "str"@
    ||| name == "await"@
}

/// The result of a builtin call whose outcome is fixed by its arguments
/// and the caller's scope; the value for `randint`, and for `await` on a
/// host value, is never relied on (those calls go to the sampler or the
/// host bridge).
pub open spec fn builtin_spec(name: Seq<char>, args: Seq<TokV>, sc: ScopeV) -> TokV {
    if name == "print"@ {
        print_spec(name, args)
    } else if name == "debug"@ {
        debug_spec(name, args)
    } else if name == "get"@ {
        get_spec(name, args)
    } else if name == "len"@ {
        len_spec(name, args)
    } else if name == "contains"@ {
        contains_spec(name, args)
    } else if name == "hex"@ {
        hex_spec(name, args)
    } else if name == "rgb"@ {
        rgb_spec(name, args)
    } else if name == "format"@ {
        format_spec(name, args, sc)
    } else if name == "type"@ {
        type_spec(name, args)
    } else if name == "str"@ {
        str_spec(name, args)
    } else if name == "await"@ {
        match await_err(name, args) {
            Option::Some(e) => e,
            Option::None => tok_new(TokenType::Unknown),
        }
    } else {
        tok_new(TokenType::Unknown)
    }
}

/// Whether a builtin call's result is fixed by its arguments and scope:
/// everything but `randint` and an `await` that actually reaches the host.
pub open spec fn builtin_det(name: Seq<char>, args: Seq<TokV>) -> bool {
    &&& name != "randint"@
    &&& (name == "await"@ ==> args.len() == 0 || args[0].hostref is None)
}

/// Dispatches a builtin by name; `None` when no builtin has that name.
pub fn call_builtin<B: HostBridge>(
    name: &String,
    args: &Vec<Token>,
    scope: &Scope,
    bridge: &mut B,
) -> (r: Option<Token>)
    ensures
        (r is Some) == is_builtin_name(name@),
        builtin_det(name@, view_tokens(args@)) && r is Some ==> r->0@ == builtin_spec(
            name@,
            view_tokens(args@),
            scope@,
        ),
        name@ == "randint"@ ==> match randint_err(name@, view_tokens(args@)) {
            Option::Some(e) => r matches Option::Some(t) && t@ == e,
            Option::None => r matches Option::Some(t) && t@.kind == TokenType::Int,
        },
{
    proof {
        reveal_strlit("print");
        reveal_strlit("debug");
        reveal_strlit("get");
        reveal_strlit("len");
        reveal_strlit("contains");
        reveal_strlit("hex");
        reveal_strlit("rgb");
        reveal_strlit("randint");
        reveal_strlit("format");
        reveal_strlit("type");
        reveal_strlit("str");
        reveal_strlit("await");
    }
    if str_eq_lit(name, "print") {
        Option::Some(print(name, args, scope, bridge))
    } else if str_eq_lit(name, "debug") {
        Option::Some(debug(name, args, scope, bridge))
    } else if str_eq_lit(name, "get") {
        Option::Some(get(name, args, scope, bridge))
    } else if str_eq_lit(name, "len") {
        Option::Some(len(name, args, scope, bridge))
    } else if str_eq_lit(name, "contains") {
        Option::Some(contains(name, args, scope, bridge))
    } else if str_eq_lit(name, "hex") {
        Option::Some(hex(name, args, scope, bridge))
    } else if str_eq_lit(name, "rgb") {
        Option::Some(rgb(name, args, scope, bridge))
    } else if str_eq_lit(name, "randint") {
        Option::Some(randint(name, args, scope, bridge))
    } else if str_eq_lit(name, "format") {
        Option::Some(format(name, args, scope, bridge))
    } else if str_eq_lit(name, "type") {
        Option::Some(type_of(name, args, scope, bridge))
    } else if str_eq_lit(name, "str") {
        Option::Some(str_of(name, args, scope, bridge))
    } else if str_eq_lit(name, "await") {
        Option::Some(await_host(name, args, scope, bridge))
    } else {
        Option::None
    }
}

/// The stub entry of one builtin in a scope's function table.
pub open spec fn builtin_stub(name: Seq<char>) -> FunV {
    FunV {
        name,
        args: Seq::empty(),
        body: Option::None,
        builtin: true,
        hostfn: Option::None,
    }
}

/// The builtin stubs a fresh evaluation scope is seeded with.
pub fn get_builtins() -> (r: Vec<Function>)
    ensures
        crate::value::view_funs(r@) == seq![
            builtin_stub("get"@),
            builtin_stub("len"@),
            builtin_stub("contains"@),
            builtin_stub("hex"@),
            builtin_stub("rgb"@),
            builtin_stub("randint"@),
            builtin_stub("format"@),
            builtin_stub("type"@),
            builtin_stub("str"@),
            builtin_stub("await"@),
        ],
{
    let mut v: Vec<Function> = Vec::new();
    v.push(Function::new_builtin("get"));
    v.push(Function::new_builtin("len"));
    v.push(Function::new_builtin("contains"));
    v.push(Function::new_builtin("hex"));
    v.push(Function::new_builtin("rgb"));
    v.push(Function::new_builtin("randint"));
    v.push(Function::new_builtin("format"));
    v.push(Function::new_builtin("type"));
    v.push(Function::new_builtin("str"));
    v.push(Function::new_builtin("await"));
    proof {
        assert forall|i: int| 0 <= i < v@.len() implies #[trigger] crate::value::view_funs(v@)[i]
            == v@[i]@ by {
            crate::value::lemma_view_funs_index(v@, i);
        }
        crate::value::lemma_view_funs_len(v@);
        assert(crate::value::view_funs(v@) =~= seq![
            builtin_stub("get"@),
            builtin_stub("len"@),
            builtin_stub("contains"@),
            builtin_stub("hex"@),
            builtin_stub("rgb"@),
            builtin_stub("randint"@),
            builtin_stub("format"@),
            builtin_stub("type"@),
            builtin_stub("str"@),
            builtin_stub("await"@),
        ]);
    }
    v
}

} // verus!
