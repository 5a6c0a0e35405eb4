//! The lexer: source text to a flat token sequence. Tokenization never
//! fails outright; unrecognized input and unterminated constructs put an
//! in-band error token at the end of the stream and the rest of the input
//! is discarded.
use vstd::prelude::*;

use crate::numbers::SCALE;
use crate::value::group_view_lemmas;
use crate::value::tok_bool;
use crate::value::tok_error;
use crate::value::tok_int;
use crate::value::tok_new;
use crate::value::tok_str;
use crate::value::tok_var;
use crate::value::view_tokens;
use crate::value::Token;
use crate::value::TokenType;
use crate::value::TokV;

verus! {

// ---------------------------------------------------------------------------
// Character classes
// ---------------------------------------------------------------------------

pub open spec fn is_digit_c(c: char) -> bool {
    48 <= c as int <= 57
}

pub open spec fn is_alpha_c(c: char) -> bool {
    (65 <= c as int <= 90) || (97 <= c as int <= 122)
}

pub open spec fn is_ident_start(c: char) -> bool {
    is_alpha_c(c) || c == '_'
}

pub open spec fn is_ident_char(c: char) -> bool {
    is_alpha_c(c) || is_digit_c(c) || c == '_'
}

pub open spec fn is_space_c(c: char) -> bool {
    c == ' ' || c == '\n' || c == '\t'
}

// ---------------------------------------------------------------------------
// Scanning helpers
// ---------------------------------------------------------------------------

/// The first index at or after `i` holding no decimal digit.
pub open spec fn scan_digits(s: Seq<char>, i: int) -> int
    decreases s.len() - i,
{
    if i < 0 || i >= s.len() {
        i
    } else if is_digit_c(s[i]) {
        scan_digits(s, i + 1)
    } else {
        i
    }
}

pub proof fn lemma_scan_digits_bounds(s: Seq<char>, i: int)
    requires
        0 <= i <= s.len(),
    ensures
        i <= scan_digits(s, i) <= s.len(),
    decreases s.len() - i,
{
    if i < s.len() && is_digit_c(s[i]) {
        lemma_scan_digits_bounds(s, i + 1);
    }
}

/// The first index at or after `i` holding no identifier character.
pub open spec fn scan_ident(s: Seq<char>, i: int) -> int
    decreases s.len() - i,
{
    if i < 0 || i >= s.len() {
        i
    } else if is_ident_char(s[i]) {
        scan_ident(s, i + 1)
    } else {
        i
    }
}

pub proof fn lemma_scan_ident_bounds(s: Seq<char>, i: int)
    requires
        0 <= i <= s.len(),
    ensures
        i <= scan_ident(s, i) <= s.len(),
    decreases s.len() - i,
{
    if i < s.len() && is_ident_char(s[i]) {
        lemma_scan_ident_bounds(s, i + 1);
    }
}

/// The value of the decimal digits in `[i, j)`.
pub open spec fn digits_value(s: Seq<char>, i: int, j: int) -> int
    decreases j - i,
{
    if j <= i {
        0
    } else {
        digits_value(s, i, j - 1) * 10 + (s[j - 1] as int - 48)
    }
}

/// The scaled value of the fractional digits from `i` on, where `mult` is
/// the place value of the digit at `i`; digits beyond the carried precision
/// contribute nothing.
pub open spec fn frac_value(s: Seq<char>, i: int, j: int, mult: int) -> int
    decreases j - i,
{
    if j <= i {
        0
    } else {
        (s[i] as int - 48) * mult + frac_value(s, i + 1, j, mult / 10)
    }
}

/// The index just after the newline that ends a comment, or the end of the
/// input.
pub open spec fn skip_comment(s: Seq<char>, i: int) -> int
    decreases s.len() - i,
{
    if i < 0 || i >= s.len() {
        s.len() as int
    } else if s[i] == '\n' {
        i + 1
    } else {
        skip_comment(s, i + 1)
    }
}

pub proof fn lemma_skip_comment_bounds(s: Seq<char>, i: int)
    requires
        0 <= i <= s.len(),
    ensures
        i <= skip_comment(s, i) <= s.len(),
    decreases s.len() - i,
{
    if i < s.len() && s[i] != '\n' {
        lemma_skip_comment_bounds(s, i + 1);
    }
}

/// What one escaped character stands for inside a string literal; an
/// unrecognized escape passes the character through.
pub open spec fn map_escape(c: char) -> char {
    if c == 'n' {
        '\n'
    } else if c == 't' {
        '\t'
    } else if c == 'r' {
        '\r'
    } else {
        c
    }
}

/// Scans a string literal body from `i` with the content built so far in
/// `acc`: the triple holds the content, the index after the closing quote,
/// and whether the scan succeeded. An embedded raw newline fails the scan;
/// input that ends before the closing quote keeps the content read so far.
pub open spec fn scan_str(s: Seq<char>, i: int, acc: Seq<char>) -> (Seq<char>, int, bool)
    decreases s.len() - i,
{
    if i < 0 || i >= s.len() {
        (acc, s.len() as int, true)
    } else if s[i] == '"' {
        (acc, i + 1, true)
    } else if s[i] == '\n' {
        (acc, i, false)
    } else if s[i] == '\\' {
        if i + 1 >= s.len() {
            (acc, s.len() as int, true)
        } else {
            scan_str(s, i + 2, acc.push(map_escape(s[i + 1])))
        }
    } else {
        scan_str(s, i + 1, acc.push(s[i]))
    }
}

pub proof fn lemma_scan_str_bounds(s: Seq<char>, i: int, acc: Seq<char>)
    requires
        0 <= i <= s.len(),
    ensures
        i <= scan_str(s, i, acc).1 <= s.len(),
    decreases s.len() - i,
{
    if i < s.len() {
        if s[i] == '\\' && i + 1 < s.len() {
            lemma_scan_str_bounds(s, i + 2, acc.push(map_escape(s[i + 1])));
        } else if s[i] != '"' && s[i] != '\n' && s[i] != '\\' {
            lemma_scan_str_bounds(s, i + 1, acc.push(s[i]));
        }
    }
}

// ---------------------------------------------------------------------------
// Token construction rules
// ---------------------------------------------------------------------------

/// A one-character lookahead: the compound token when `=` follows, the
/// plain one otherwise.
pub open spec fn op2(s: Seq<char>, i: int, plain: TokenType, compound: TokenType) -> (TokV, int) {
    if i + 1 < s.len() && s[i + 1] == '=' {
        (tok_new(compound), i + 2)
    } else {
        (tok_new(plain), i + 1)
    }
}

/// The token for a scanned word: reserved words become keyword or literal
/// tokens, everything else an identifier.
pub open spec fn word_token(w: Seq<char>) -> TokV {
    if w == "true"@ {
        tok_bool(true)
    } else if w == "false"@ {
        tok_bool(false)
    } else if w == "none"@ {
        tok_new(TokenType::NoneValue)
    } else if w == "fn"@ {
        tok_new(TokenType::Func)
    } else if w == "import"@ {
        tok_new(TokenType::Import)
    } else if w == "return"@ {
        tok_new(TokenType::Return)
    } else if w == "if"@ {
        tok_new(TokenType::If)
    } else if w == "else"@ {
        tok_new(TokenType::Else)
    } else if w == "and"@ {
        tok_new(TokenType::And)
    } else if w == "or"@ {
        tok_new(TokenType::Or)
    } else {
        tok_var(w)
    }
}

/// The token and end position of a numeric literal whose digits start at
/// `i0`: digits, then optionally a point and fractional digits, normalized
/// into the fixed-point payload. The flag reports a literal too large for
/// the representation, which ends the token stream.
pub open spec fn number_result(s: Seq<char>, i0: int, neg: bool) -> (TokV, int, bool) {
    let j1 = scan_digits(s, i0);
    let dotted = j1 < s.len() && s[j1] == '.';
    let end = if dotted {
        scan_digits(s, j1 + 1)
    } else {
        j1
    };
    let fracv = if dotted {
        frac_value(s, j1 + 1, scan_digits(s, j1 + 1), 100000)
    } else {
        0
    };
    let total = digits_value(s, i0, j1) * (SCALE as int) + fracv;
    if total > i64::MAX as int {
        (tok_error(TokenType::SyntaxError, "number out of range"@), end, true)
    } else {
        (
            tok_int(
                if neg {
                    -total
                } else {
                    total
                },
            ),
            end,
            false,
        )
    }
}

// ---------------------------------------------------------------------------
// The lexer, in specification
// ---------------------------------------------------------------------------

/// The token stream of the input from position `i` on.
pub open spec fn lex_from(s: Seq<char>, i: int) -> Seq<TokV>
    decreases s.len() - i,
{
    if i < 0 || i >= s.len() {
        Seq::empty()
    } else {
        let c = s[i];
        if is_space_c(c) {
            lex_from(s, i + 1)
        } else if c == '(' {
            seq![tok_new(TokenType::LeftParen)] + lex_from(s, i + 1)
        } else if c == ')' {
            seq![tok_new(TokenType::RightParen)] + lex_from(s, i + 1)
        } else if c == '[' {
            seq![tok_new(TokenType::LeftBracket)] + lex_from(s, i + 1)
        } else if c == ']' {
            seq![tok_new(TokenType::RightBracket)] + lex_from(s, i + 1)
        } else if c == '{' {
            seq![tok_new(TokenType::LeftBrace)] + lex_from(s, i + 1)
        } else if c == '}' {
            seq![tok_new(TokenType::RightBrace)] + lex_from(s, i + 1)
        } else if c == ',' {
            seq![tok_new(TokenType::Comma)] + lex_from(s, i + 1)
        } else if c == '.' {
            seq![tok_new(TokenType::Dot)] + lex_from(s, i + 1)
        } else if c == ':' {
            seq![tok_new(TokenType::Colon)] + lex_from(s, i + 1)
        } else if c == ';' {
            seq![tok_new(TokenType::Semicolon)] + lex_from(s, i + 1)
        } else if c == '+' {
            let (t, n) = op2(s, i, TokenType::Plus, TokenType::PlusEqual);
            seq![t] + lex_from(s, n)
        } else if c == '-' {
            if i + 1 < s.len() && is_digit_c(s[i + 1]) {
                let (t, end, stop) = number_result(s, i + 1, true);
                if stop {
                    seq![t]
                } else if i < end <= s.len() {
                    seq![t] + lex_from(s, end)
                } else {
                    Seq::empty()
                }
            } else {
                let (t, n) = op2(s, i, TokenType::Minus, TokenType::MinusEqual);
                seq![t] + lex_from(s, n)
            }
        } else if c == '*' {
            let (t, n) = op2(s, i, TokenType::Multiply, TokenType::MultiplyEqual);
            seq![t] + lex_from(s, n)
        } else if c == '/' {
            let (t, n) = op2(s, i, TokenType::Divide, TokenType::DivideEqual);
            seq![t] + lex_from(s, n)
        } else if c == '%' {
            let (t, n) = op2(s, i, TokenType::Modulo, TokenType::ModuloEqual);
            seq![t] + lex_from(s, n)
        } else if c == '=' {
            let (t, n) = op2(s, i, TokenType::Equal, TokenType::EqualTo);
            seq![t] + lex_from(s, n)
        } else if c == '!' {
            let (t, n) = op2(s, i, TokenType::Not, TokenType::NotEqual);
            seq![t] + lex_from(s, n)
        } else if c == '>' {
            let (t, n) = op2(s, i, TokenType::Greater, TokenType::GreaterEqual);
            seq![t] + lex_from(s, n)
        } else if c == '<' {
            let (t, n) = op2(s, i, TokenType::Less, TokenType::LessEqual);
            seq![t] + lex_from(s, n)
        } else if c == '#' {
            let n = skip_comment(s, i + 1);
            if i < n <= s.len() {
                seq![tok_new(TokenType::Comment)] + lex_from(s, n)
            } else {
                Seq::empty()
            }
        } else if is_digit_c(c) {
            let (t, end, stop) = number_result(s, i, false);
            if stop {
                seq![t]
            } else if i < end <= s.len() {
                seq![t] + lex_from(s, end)
            } else {
                Seq::empty()
            }
        } else if is_ident_start(c) {
            let j = scan_ident(s, i);
            if i < j <= s.len() {
                seq![word_token(s.subrange(i, j))] + lex_from(s, j)
            } else {
                Seq::empty()
            }
        } else if c == '"' {
            let (content, end, ok) = scan_str(s, i + 1, Seq::empty());
            if !ok {
                seq![tok_error(TokenType::SyntaxError, "String not closed"@)]
            } else if i < end <= s.len() {
                seq![tok_str(content)] + lex_from(s, end)
            } else {
                Seq::empty()
            }
        } else {
            seq![tok_error(TokenType::Error, seq![c] + " is not a valid character"@)]
        }
    }
}

/// The token stream of a whole input.
pub open spec fn lex_spec(s: Seq<char>) -> Seq<TokV> {
    lex_from(s, 0)
}

// ---------------------------------------------------------------------------
// Scanning, executably
// ---------------------------------------------------------------------------

/// The characters of a text, one vector element per character.
pub fn chars_of(code: &str) -> (v: Vec<char>)
    ensures
        v@ == code@,
{
    let n = code.unicode_len();
    let mut v: Vec<char> = Vec::new();
    let mut i: usize = 0;
    while i < n
        invariant
            i <= n,
            n == code@.len(),
            v@ == code@.subrange(0, i as int),
        decreases n - i,
    {
        v.push(code.get_char(i));
        proof {
            assert(v@ =~= code@.subrange(0, i + 1 as int));
        }
        i += 1;
    }
    proof {
        assert(code@.subrange(0, n as int) =~= code@);
    }
    v
}

fn is_digit_exec(c: char) -> (r: bool)
    ensures
        r == is_digit_c(c),
{
    let u = c as u32;
    48 <= u && u <= 57
}

fn is_ident_start_exec(c: char) -> (r: bool)
    ensures
        r == is_ident_start(c),
{
    let u = c as u32;
    (65 <= u && u <= 90) || (97 <= u && u <= 122) || c == '_'
}

fn is_ident_char_exec(c: char) -> (r: bool)
    ensures
        r == is_ident_char(c),
{
    let u = c as u32;
    (65 <= u && u <= 90) || (97 <= u && u <= 122) || (48 <= u && u <= 57) || c == '_'
}

#[verifier::loop_isolation(false)]
fn scan_digits_exec(v: &Vec<char>, i: usize) -> (j: usize)
    requires
        i <= v@.len(),
    ensures
        j as int == scan_digits(v@, i as int),
        i <= j <= v@.len(),
{
    let mut j = i;
    while j < v.len() && is_digit_exec(v[j])
        invariant
            i <= j <= v@.len(),
            scan_digits(v@, i as int) == scan_digits(v@, j as int),
        decreases v@.len() - j,
    {
        j += 1;
    }
    j
}

#[verifier::loop_isolation(false)]
fn scan_ident_exec(v: &Vec<char>, i: usize) -> (j: usize)
    requires
        i <= v@.len(),
    ensures
        j as int == scan_ident(v@, i as int),
        i <= j <= v@.len(),
{
    let mut j = i;
    while j < v.len() && is_ident_char_exec(v[j])
        invariant
            i <= j <= v@.len(),
            scan_ident(v@, i as int) == scan_ident(v@, j as int),
        decreases v@.len() - j,
    {
        j += 1;
    }
    j
}

#[verifier::loop_isolation(false)]
fn skip_comment_exec(v: &Vec<char>, i: usize) -> (j: usize)
    requires
        i <= v@.len(),
    ensures
        j as int == skip_comment(v@, i as int),
        i <= j <= v@.len(),
{
    let mut j = i;
    while j < v.len() && !(v[j] == '\n')
        invariant
            i <= j <= v@.len(),
            skip_comment(v@, i as int) == skip_comment(v@, j as int),
        decreases v@.len() - j,
    {
        j += 1;
    }
    if j < v.len() {
        j + 1
    } else {
        j
    }
}

/// Every character that a digit scan passed over is a digit.
proof fn lemma_scan_digits_all(s: Seq<char>, i: int)
    requires
        0 <= i <= s.len(),
    ensures
        forall|k: int| i <= k < scan_digits(s, i) ==> is_digit_c(#[trigger] s[k]),
    decreases s.len() - i,
{
    lemma_scan_digits_bounds(s, i);
    if i < s.len() && is_digit_c(s[i]) {
        lemma_scan_digits_all(s, i + 1);
    }
}

/// The digits of a scanned run, accumulated exactly while they fit the
/// representation; the flag reports a value beyond `i64::MAX`.
#[verifier::loop_isolation(false)]
fn digits_value_exec(v: &Vec<char>, i: usize, j: usize) -> (r: (u64, bool))
    requires
        i <= j <= v@.len(),
        forall|k: int| i <= k < j ==> is_digit_c(#[trigger] v@[k]),
    ensures
        !r.1 ==> r.0 as int == digits_value(v@, i as int, j as int) && r.0 <= i64::MAX as u64,
        r.1 ==> digits_value(v@, i as int, j as int) > i64::MAX as int,
{
    let mut acc: u128 = 0;
    let ghost mut gacc: int = 0;
    let mut k = i;
    while k < j
        invariant
            i <= k <= j,
            gacc == digits_value(v@, i as int, k as int),
            gacc >= 0,
            gacc <= i64::MAX as int ==> acc == gacc,
            gacc > i64::MAX as int ==> acc > i64::MAX as u128,
            acc < 0x80000000000000000u128,
        decreases j - k,
    {
        proof {
            assert(is_digit_c(v@[k as int]));
        }
        let d = (v[k] as u32 - 48) as u128;
        proof {
            assert(gacc * 10 + d as int >= gacc) by (nonlinear_arith)
                requires
                    gacc >= 0,
                    d as int >= 0,
            ;
            gacc = gacc * 10 + d as int;
        }
        if acc <= i64::MAX as u128 {
            acc = acc * 10 + d;
        }
        k += 1;
    }
    if acc <= i64::MAX as u128 {
        ((acc as u64), false)
    } else {
        (0, true)
    }
}

/// The geometric tail bound used to keep the fractional accumulator small.
spec fn frac_bound(m: int) -> int
    decreases m,
{
    if m <= 0 {
        0
    } else {
        9 * m + frac_bound(m / 10)
    }
}

proof fn lemma_frac_value_zero(s: Seq<char>, i: int, j: int)
    ensures
        frac_value(s, i, j, 0) == 0,
    decreases j - i,
{
    if j > i {
        lemma_frac_value_zero(s, i + 1, j);
    }
}

/// The scaled value of a run of fractional digits; at most six of them
/// carry weight, so the result stays below one whole unit.
#[verifier::loop_isolation(false)]
fn frac_value_exec(v: &Vec<char>, i: usize, j: usize) -> (r: u64)
    requires
        i <= j <= v@.len(),
        forall|k: int| i <= k < j ==> is_digit_c(#[trigger] v@[k]),
    ensures
        r as int == frac_value(v@, i as int, j as int, 100000),
        r <= 999999,
{
    proof {
        reveal_with_fuel(frac_bound, 8);
        assert(frac_bound(100000) == 999999);
    }
    let mut acc: u64 = 0;
    let mut mult: u64 = 100000;
    let mut k = i;
    while k < j && mult > 0
        invariant
            i <= k <= j,
            mult == 100000 || mult == 10000 || mult == 1000 || mult == 100 || mult == 10 || mult
                == 1 || mult == 0,
            frac_value(v@, i as int, j as int, 100000) == acc as int + frac_value(
                v@,
                k as int,
                j as int,
                mult as int,
            ),
            acc as int + frac_bound(mult as int) <= 999999,
        decreases j - k,
    {
        proof {
            assert(is_digit_c(v@[k as int]));
        }
        let d = (v[k] as u32 - 48) as u64;
        proof {
            assert(frac_bound(mult as int) == 9 * mult as int + frac_bound(mult as int / 10));
            assert(d as int * mult as int <= 9 * mult as int) by (nonlinear_arith)
                requires
                    0 <= d as int <= 9,
                    mult as int >= 0,
            ;
        }
        acc = acc + d * mult;
        mult = mult / 10;
        k += 1;
    }
    proof {
        if k < j {
            lemma_frac_value_zero(v@, k as int, j as int);
        }
    }
    acc
}

fn map_escape_exec(c: char) -> (r: char)
    ensures
        r == map_escape(c),
{
    if c == 'n' {
        '\n'
    } else if c == 't' {
        '\t'
    } else if c == 'r' {
        '\r'
    } else {
        c
    }
}

/// Scans a string literal body, pushing the content onto `out`.
fn scan_str_exec(v: &Vec<char>, i: usize, out: &mut String) -> (r: (usize, bool))
    requires
        i <= v@.len(),
    ensures
        ({
            let (content, end, ok) = scan_str(v@, i as int, old(out)@);
            final(out)@ == content && r.0 as int == end && r.1 == ok
        }),
    decreases v@.len() - i,
{
    if i >= v.len() {
        return (v.len(), true);
    }
    let c = v[i];
    if c == '"' {
        (i + 1, true)
    } else if c == '\n' {
        (i, false)
    } else if c == '\\' {
        if i + 1 >= v.len() {
            (v.len(), true)
        } else {
            let m = map_escape_exec(v[i + 1]);
            out.push(m);
            scan_str_exec(v, i + 2, out)
        }
    } else {
        out.push(c);
        scan_str_exec(v, i + 1, out)
    }
}

/// Builds the token of a scanned word.
fn word_token_exec(w: String) -> (r: Token)
    ensures
        r@ == word_token(w@),
{
    if crate::value::str_eq_lit(&w, "true") {
        Token::from_bool(true)
    } else if crate::value::str_eq_lit(&w, "false") {
        Token::from_bool(false)
    } else if crate::value::str_eq_lit(&w, "none") {
        Token::new(TokenType::NoneValue)
    } else if crate::value::str_eq_lit(&w, "fn") {
        Token::new(TokenType::Func)
    } else if crate::value::str_eq_lit(&w, "import") {
        Token::new(TokenType::Import)
    } else if crate::value::str_eq_lit(&w, "return") {
        Token::new(TokenType::Return)
    } else if crate::value::str_eq_lit(&w, "if") {
        Token::new(TokenType::If)
    } else if crate::value::str_eq_lit(&w, "else") {
        Token::new(TokenType::Else)
    } else if crate::value::str_eq_lit(&w, "and") {
        Token::new(TokenType::And)
    } else if crate::value::str_eq_lit(&w, "or") {
        Token::new(TokenType::Or)
    } else {
        Token::new_var(w)
    }
}

/// Scans a numeric literal whose digits start at `i0` and builds its
/// token, the position after it, and whether the stream must stop.
fn number_token_exec(v: &Vec<char>, i0: usize, neg: bool) -> (r: (Token, usize, bool))
    requires
        i0 <= v@.len(),
    ensures
        ({
            let (t, end, stop) = number_result(v@, i0 as int, neg);
            r.0@ == t && r.1 as int == end && r.2 == stop
        }),
        i0 <= r.1 <= v@.len(),
{
    proof {
        lemma_scan_digits_all(v@, i0 as int);
    }
    let j1 = scan_digits_exec(v, i0);
    let dotted = j1 < v.len() && v[j1] == '.';
    let (end, fracv): (usize, u64) = if dotted {
        proof {
            lemma_scan_digits_all(v@, j1 + 1 as int);
        }
        let j2 = scan_digits_exec(v, j1 + 1);
        let f = frac_value_exec(v, j1 + 1, j2);
        (j2, f)
    } else {
        (j1, 0u64)
    };
    let (intv, over) = digits_value_exec(v, i0, j1);
    let ghost total = digits_value(v@, i0 as int, j1 as int) * (SCALE as int) + frac_value(
        v@,
        j1 + 1 as int,
        scan_digits(v@, j1 + 1 as int),
        100000,
    );
    if over {
        proof {
            let dv = digits_value(v@, i0 as int, j1 as int);
            assert(dv * (SCALE as int) >= dv) by (nonlinear_arith)
                requires
                    dv > 0,
                    SCALE as int >= 1,
            ;
        }
        return (
            Token::new_error(TokenType::SyntaxError, "number out of range".to_owned()),
            end,
            true,
        );
    }
    proof {
        assert(intv as int * (SCALE as int) <= 0x7fffffffffffffff * 0x0f4240) by (nonlinear_arith)
            requires
                0 <= intv as int <= 0x7fffffffffffffff,
                SCALE as int == 0x0f4240,
        ;
        assert(intv as int * (SCALE as int) >= 0) by (nonlinear_arith)
            requires
                intv as int >= 0,
        ;
    }
    let big: u128 = intv as u128 * SCALE as u128 + fracv as u128;
    if big > i64::MAX as u128 {
        return (
            Token::new_error(TokenType::SyntaxError, "number out of range".to_owned()),
            end,
            true,
        );
    }
    let tv = big as i64;
    if neg {
        (Token::new_int(-tv), end, false)
    } else {
        (Token::new_int(tv), end, false)
    }
}

// ---------------------------------------------------------------------------
// The lexer
// ---------------------------------------------------------------------------

/// One step: the token starting at `i` (none for skipped whitespace), the
/// position after it, and whether the stream stops here.
fn scan_token(v: &Vec<char>, i: usize) -> (r: (Option<Token>, usize, bool))
    requires
        i < v@.len(),
    ensures
        r.2 ==> match r.0 {
            Option::Some(t) => lex_from(v@, i as int) == seq![t@],
            Option::None => false,
        },
        !r.2 ==> i < r.1 <= v@.len() && match r.0 {
            Option::Some(t) => lex_from(v@, i as int) == seq![t@] + lex_from(v@, r.1 as int),
            Option::None => lex_from(v@, i as int) == lex_from(v@, r.1 as int),
        },
{
    let n = v.len();
    let c = v[i];
    if c == ' ' || c == '\n' || c == '\t' {
        (Option::None, i + 1, false)
    } else if c == '(' {
        (Option::Some(Token::new(TokenType::LeftParen)), i + 1, false)
    } else if c == ')' {
        (Option::Some(Token::new(TokenType::RightParen)), i + 1, false)
    } else if c == '[' {
        (Option::Some(Token::new(TokenType::LeftBracket)), i + 1, false)
    } else if c == ']' {
        (Option::Some(Token::new(TokenType::RightBracket)), i + 1, false)
    } else if c == '{' {
        (Option::Some(Token::new(TokenType::LeftBrace)), i + 1, false)
    } else if c == '}' {
        (Option::Some(Token::new(TokenType::RightBrace)), i + 1, false)
    } else if c == ',' {
        (Option::Some(Token::new(TokenType::Comma)), i + 1, false)
    } else if c == '.' {
        (Option::Some(Token::new(TokenType::Dot)), i + 1, false)
    } else if c == ':' {
        (Option::Some(Token::new(TokenType::Colon)), i + 1, false)
    } else if c == ';' {
        (Option::Some(Token::new(TokenType::Semicolon)), i + 1, false)
    } else if c == '+' {
        op2_exec(v, i, TokenType::Plus, TokenType::PlusEqual)
    } else if c == '-' {
        if n > i + 1 && is_digit_exec(v[i + 1]) {
            let (t, end, stop) = number_token_exec(v, i + 1, true);
            (Option::Some(t), end, stop)
        } else {
            op2_exec(v, i, TokenType::Minus, TokenType::MinusEqual)
        }
    } else if c == '*' {
        op2_exec(v, i, TokenType::Multiply, TokenType::MultiplyEqual)
    } else if c == '/' {
        op2_exec(v, i, TokenType::Divide, TokenType::DivideEqual)
    } else if c == '%' {
        op2_exec(v, i, TokenType::Modulo, TokenType::ModuloEqual)
    } else if c == '=' {
        op2_exec(v, i, TokenType::Equal, TokenType::EqualTo)
    } else if c == '!' {
        op2_exec(v, i, TokenType::Not, TokenType::NotEqual)
    } else if c == '>' {
        op2_exec(v, i, TokenType::Greater, TokenType::GreaterEqual)
    } else if c == '<' {
        op2_exec(v, i, TokenType::Less, TokenType::LessEqual)
    } else if c == '#' {
        let m = skip_comment_exec(v, i + 1);
        proof {
            assert(lex_from(v@, i as int) == seq![tok_new(TokenType::Comment)] + lex_from(
                v@,
                m as int,
            ));
        }
        (Option::Some(Token::new(TokenType::Comment)), m, false)
    } else if is_digit_exec(c) {
        proof {
            assert(is_digit_c(v@[i as int]));
            assert(scan_digits(v@, i as int) == scan_digits(v@, i + 1 as int));
            lemma_scan_digits_bounds(v@, i + 1 as int);
            let j1 = scan_digits(v@, i as int);
            if j1 < v@.len() && v@[j1] == '.' {
                lemma_scan_digits_bounds(v@, j1 + 1);
            }
        }
        let (t, end, stop) = number_token_exec(v, i, false);
        proof {
            if !stop {
                assert(lex_from(v@, i as int) == seq![t@] + lex_from(v@, end as int));
            } else {
                assert(lex_from(v@, i as int) == seq![t@]);
            }
        }
        (Option::Some(t), end, stop)
    } else if is_ident_start_exec(c) {
        let j = scan_ident_exec(v, i);
        proof {
            assert(is_ident_char(v@[i as int]));
            lemma_scan_ident_bounds(v@, i + 1 as int);
        }
        let w = char_range_string(v, i, j);
        let t = word_token_exec(w);
        proof {
            assert(lex_from(v@, i as int) == seq![t@] + lex_from(v@, j as int));
        }
        (Option::Some(t), j, false)
    } else if c == '"' {
        let mut content = String::new();
        proof {
            assert(content@ =~= Seq::<char>::empty());
            lemma_scan_str_bounds(v@, i + 1 as int, Seq::empty());
        }
        let (end, ok) = scan_str_exec(v, i + 1, &mut content);
        if !ok {
            (
                Option::Some(
                    Token::new_error(TokenType::SyntaxError, "String not closed".to_owned()),
                ),
                end,
                true,
            )
        } else {
            (Option::Some(Token::new_string(content)), end, false)
        }
    } else {
        let mut m = String::new();
        m.push(c);
        m.append(" is not a valid character");
        proof {
            assert(m@ =~= seq![c] + " is not a valid character"@);
        }
        (Option::Some(Token::new_error(TokenType::Error, m)), i + 1, true)
    }
}

fn op2_exec(v: &Vec<char>, i: usize, plain: TokenType, compound: TokenType) -> (r: (
    Option<Token>,
    usize,
    bool,
))
    requires
        i < v@.len(),
    ensures
        ({
            let (t, n) = op2(v@, i as int, plain, compound);
            r.0 matches Option::Some(tk) && tk@ == t && r.1 as int == n && r.2 == false && i < r.1
                <= v@.len()
        }),
{
    let n = v.len();
    if i + 1 < n && v[i + 1] == '=' {
        (Option::Some(Token::new(compound)), i + 2, false)
    } else {
        (Option::Some(Token::new(plain)), i + 1, false)
    }
}

/// The characters in `[i, j)` as a string.
#[verifier::loop_isolation(false)]
fn char_range_string(v: &Vec<char>, i: usize, j: usize) -> (r: String)
    requires
        i <= j <= v@.len(),
    ensures
        r@ == v@.subrange(i as int, j as int),
{
    let mut out = String::new();
    let mut k = i;
    while k < j
        invariant
            i <= k <= j,
            out@ == v@.subrange(i as int, k as int),
        decreases j - k,
    {
        out.push(v[k]);
        proof {
            assert(out@ =~= v@.subrange(i as int, k + 1 as int));
        }
        k += 1;
    }
    out
}

/// Converts source text into its flat token sequence. Tokenization stops
/// at the first structural error, with the error carried as the last
/// token of the stream.
#[verifier::loop_isolation(false)]
pub fn generate_tokens(code: &str) -> (r: Vec<Token>)
    ensures
        view_tokens(r@) == lex_spec(code@),
{
    broadcast use group_view_lemmas;

    let v = chars_of(code);
    let n = v.len();
    let mut out: Vec<Token> = Vec::new();
    let mut i: usize = 0;
    while i < n
        invariant
            i <= n,
            n == v@.len(),
            v@ == code@,
            lex_spec(code@) == view_tokens(out@) + lex_from(v@, i as int),
        decreases n - i,
    {
        let (t_opt, next, stop) = scan_token(&v, i);
        match t_opt {
            Option::Some(t) => {
                let ghost tv = t@;
                let ghost prev = out@;
                out.push(t);
                proof {
                    assert(out@.drop_last() =~= prev);
                    assert(view_tokens(out@) == view_tokens(prev).push(tv));
                }
                if stop {
                    proof {
                        assert(lex_spec(code@) =~= view_tokens(out@));
                    }
                    return out;
                }
                proof {
                    assert(view_tokens(out@) + lex_from(v@, next as int) =~= view_tokens(prev)
                        + lex_from(v@, i as int));
                }
            },
            Option::None => {
            },
        }
        i = next;
    }
    proof {
        assert(lex_from(v@, n as int) =~= Seq::<TokV>::empty());
        assert(view_tokens(out@) + lex_from(v@, n as int) =~= view_tokens(out@));
    }
    out
}

} // verus!
