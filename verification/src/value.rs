//! The runtime data model: the tagged `Token` value, the `AST` node, and the
//! `Scope` namespace, together with their mathematical views and the purity
//! predicates that delimit the host-independent fragment of the language.
use vstd::prelude::*;

verus! {

/// The tag of a `Token`: lexer token kinds, value kinds, and error kinds
/// share one vocabulary, because the same tagged union serves as lexer
/// output and as the evaluator's value representation.
#[derive(Clone, Copy, PartialEq, Eq, Structural, Debug)]
pub enum TokenType {
    Unknown,
    LeftParen,
    RightParen,
    LeftBracket,
    RightBracket,
    LeftBrace,
    RightBrace,
    Comma,
    Dot,
    Colon,
    Semicolon,
    Plus,
    Minus,
    Multiply,
    Divide,
    Modulo,
    Equal,
    PlusEqual,
    MinusEqual,
    MultiplyEqual,
    DivideEqual,
    ModuloEqual,
    EqualTo,
    NotEqual,
    Not,
    Greater,
    Less,
    GreaterEqual,
    LessEqual,
    Comment,
    If,
    Else,
    And,
    Or,
    Func,
    Import,
    Return,
    Var,
    Str,
    Int,
    Bool,
    NoneValue,
    List,
    ScopeValue,
    HostObject,
    Error,
    Undefined,
    RecursionError,
    SyntaxError,
    TypeError,
    IndexError,
    Unsupported,
}

/// The variant of an `AST` node; the variant, not a separate grammar type,
/// says how the node's token and children are interpreted.
#[derive(Clone, Copy, PartialEq, Eq, Structural, Debug)]
pub enum ASTType {
    Block,
    Assign,
    Token,
    Expression,
    Keyword,
    Error,
}

/// The single runtime datum. Exactly one payload field is meaningful per
/// kind; the others stay at their default. Numbers are fixed-point decimals
/// (see `numbers`): the `number` field holds the value scaled by `SCALE`.
pub struct Token {
    pub kind: TokenType,
    pub value: String,
    pub number: i64,
    pub list: Vec<Token>,
    pub scope: Option<Box<Scope>>,
    pub hostref: Option<u64>,
}

/// A named binding in a `Scope`.
pub struct Variable {
    pub name: String,
    pub value: Token,
}

/// A callable registered in a `Scope`: user-defined (`body` is set),
/// builtin (`builtin` is set), or host-registered (`hostfn` carries the
/// host's opaque handle for the callable).
pub struct Function {
    pub name: String,
    pub args: Vec<String>,
    pub body: Option<Vec<AST>>,
    pub builtin: bool,
    pub hostfn: Option<u64>,
}

/// An ordered namespace of variables and functions. Scopes never hold a
/// reference to a parent; data crosses scope boundaries only by copy.
pub struct Scope {
    pub variables: Vec<Variable>,
    pub functions: Vec<Function>,
}

/// One node of the abstract syntax tree.
pub struct AST {
    pub kind: ASTType,
    pub token: Token,
    pub children: Vec<AST>,
}

// ---------------------------------------------------------------------------
// Mathematical views
// ---------------------------------------------------------------------------

/// The view of a `Token`: strings become `Seq<char>`, vectors become `Seq`,
/// and the fixed-point payload becomes an unbounded integer.
pub struct TokV {
    pub kind: TokenType,
    pub value: Seq<char>,
    pub number: int,
    pub list: Seq<TokV>,
    pub scope: Option<ScopeV>,
    pub hostref: Option<u64>,
}

pub struct VarV {
    pub name: Seq<char>,
    pub value: TokV,
}

pub struct FunV {
    pub name: Seq<char>,
    pub args: Seq<Seq<char>>,
    pub body: Option<Seq<AstV>>,
    pub builtin: bool,
    pub hostfn: Option<u64>,
}

pub struct ScopeV {
    pub variables: Seq<VarV>,
    pub functions: Seq<FunV>,
}

pub struct AstV {
    pub kind: ASTType,
    pub token: TokV,
    pub children: Seq<AstV>,
}

pub open spec fn view_token(t: Token) -> TokV
    decreases t,
{
    TokV {
        kind: t.kind,
        value: t.value@,
        number: t.number as int,
        list: view_tokens(t.list@),
        scope: match t.scope {
            Option::Some(s) => Option::Some(view_scope(*s)),
            Option::None => Option::None,
        },
        hostref: t.hostref,
    }
}

pub open spec fn view_tokens(s: Seq<Token>) -> Seq<TokV>
    decreases s,
{
    if s.len() == 0 {
        Seq::empty()
    } else {
        view_tokens(s.drop_last()).push(view_token(s.last()))
    }
}

pub open spec fn view_scope(s: Scope) -> ScopeV
    decreases s,
{
    ScopeV { variables: view_vars(s.variables@), functions: view_funs(s.functions@) }
}

pub open spec fn view_vars(s: Seq<Variable>) -> Seq<VarV>
    decreases s,
{
    if s.len() == 0 {
        Seq::empty()
    } else {
        view_vars(s.drop_last()).push(
            VarV { name: s.last().name@, value: view_token(s.last().value) },
        )
    }
}

pub open spec fn view_strings(s: Seq<String>) -> Seq<Seq<char>> {
    s.map_values(|x: String| x@)
}

pub open spec fn view_funs(s: Seq<Function>) -> Seq<FunV>
    decreases s,
{
    if s.len() == 0 {
        Seq::empty()
    } else {
        view_funs(s.drop_last()).push(
            FunV {
                name: s.last().name@,
                args: view_strings(s.last().args@),
                body: match s.last().body {
                    Option::Some(b) => Option::Some(view_asts(b@)),
                    Option::None => Option::None,
                },
                builtin: s.last().builtin,
                hostfn: s.last().hostfn,
            },
        )
    }
}

pub open spec fn view_ast(a: AST) -> AstV
    decreases a,
{
    AstV { kind: a.kind, token: view_token(a.token), children: view_asts(a.children@) }
}

pub open spec fn view_asts(s: Seq<AST>) -> Seq<AstV>
    decreases s,
{
    if s.len() == 0 {
        Seq::empty()
    } else {
        view_asts(s.drop_last()).push(view_ast(s.last()))
    }
}

impl View for Token {
    type V = TokV;

    open spec fn view(&self) -> TokV {
        view_token(*self)
    }
}

impl View for Variable {
    type V = VarV;

    open spec fn view(&self) -> VarV {
        VarV { name: self.name@, value: view_token(self.value) }
    }
}

impl View for Function {
    type V = FunV;

    open spec fn view(&self) -> FunV {
        FunV {
            name: self.name@,
            args: view_strings(self.args@),
            body: match self.body {
                Option::Some(b) => Option::Some(view_asts(b@)),
                Option::None => Option::None,
            },
            builtin: self.builtin,
            hostfn: self.hostfn,
        }
    }
}

impl View for Scope {
    type V = ScopeV;

    open spec fn view(&self) -> ScopeV {
        view_scope(*self)
    }
}

impl View for AST {
    type V = AstV;

    open spec fn view(&self) -> AstV {
        view_ast(*self)
    }
}

// ---------------------------------------------------------------------------
// View lemmas: each sequence view keeps length and maps elementwise.
// ---------------------------------------------------------------------------

pub broadcast proof fn lemma_view_tokens_len(s: Seq<Token>)
    ensures
        #[trigger] view_tokens(s).len() == s.len(),
    decreases s,
{
    if s.len() > 0 {
        lemma_view_tokens_len(s.drop_last());
    }
}

pub broadcast proof fn lemma_view_tokens_index(s: Seq<Token>, i: int)
    requires
        0 <= i < s.len(),
    ensures
        view_tokens(s).len() == s.len(),
        #[trigger] view_tokens(s)[i] == view_token(s[i]),
    decreases s,
{
    lemma_view_tokens_len(s);
    if i < s.len() - 1 {
        lemma_view_tokens_index(s.drop_last(), i);
        assert(s.drop_last()[i] == s[i]);
    } else {
        assert(s.last() == s[i]);
    }
}

pub broadcast proof fn lemma_view_vars_len(s: Seq<Variable>)
    ensures
        #[trigger] view_vars(s).len() == s.len(),
    decreases s,
{
    if s.len() > 0 {
        lemma_view_vars_len(s.drop_last());
    }
}

pub broadcast proof fn lemma_view_vars_index(s: Seq<Variable>, i: int)
    requires
        0 <= i < s.len(),
    ensures
        view_vars(s).len() == s.len(),
        #[trigger] view_vars(s)[i] == s[i]@,
    decreases s,
{
    lemma_view_vars_len(s);
    if i < s.len() - 1 {
        lemma_view_vars_index(s.drop_last(), i);
        assert(s.drop_last()[i] == s[i]);
    } else {
        assert(s.last() == s[i]);
    }
}

pub broadcast proof fn lemma_view_funs_len(s: Seq<Function>)
    ensures
        #[trigger] view_funs(s).len() == s.len(),
    decreases s,
{
    if s.len() > 0 {
        lemma_view_funs_len(s.drop_last());
    }
}

pub broadcast proof fn lemma_view_funs_index(s: Seq<Function>, i: int)
    requires
        0 <= i < s.len(),
    ensures
        view_funs(s).len() == s.len(),
        #[trigger] view_funs(s)[i] == s[i]@,
    decreases s,
{
    lemma_view_funs_len(s);
    if i < s.len() - 1 {
        lemma_view_funs_index(s.drop_last(), i);
        assert(s.drop_last()[i] == s[i]);
    } else {
        assert(s.last() == s[i]);
    }
}

pub broadcast proof fn lemma_view_asts_len(s: Seq<AST>)
    ensures
        #[trigger] view_asts(s).len() == s.len(),
    decreases s,
{
    if s.len() > 0 {
        lemma_view_asts_len(s.drop_last());
    }
}

pub broadcast proof fn lemma_view_asts_index(s: Seq<AST>, i: int)
    requires
        0 <= i < s.len(),
    ensures
        view_asts(s).len() == s.len(),
        #[trigger] view_asts(s)[i] == view_ast(s[i]),
    decreases s,
{
    lemma_view_asts_len(s);
    if i < s.len() - 1 {
        lemma_view_asts_index(s.drop_last(), i);
        assert(s.drop_last()[i] == s[i]);
    } else {
        assert(s.last() == s[i]);
    }
}

pub broadcast group group_view_lemmas {
    lemma_view_tokens_len,
    lemma_view_tokens_index,
    lemma_view_vars_len,
    lemma_view_vars_index,
    lemma_view_funs_len,
    lemma_view_funs_index,
    lemma_view_asts_len,
    lemma_view_asts_index,
}

/// Relies on `String::push` from std: it appends exactly the one character
/// to the end of the string.
pub assume_specification[ String::push ](s: &mut String, c: char)
    ensures
        final(s)@ == old(s)@.push(c),
;

// ---------------------------------------------------------------------------
// Error classification
// ---------------------------------------------------------------------------

/// The error taxonomy: any value of one of these kinds short-circuits a
/// statement sequence the moment it is observed.
pub open spec fn is_error_kind(k: TokenType) -> bool {
    ||| k == TokenType::Error
    ||| k == TokenType::Undefined
    ||| k == TokenType::RecursionError
    ||| k == TokenType::SyntaxError
    ||| k == TokenType::TypeError
    ||| k == TokenType::IndexError
    ||| k == TokenType::Unsupported
}

pub open spec fn is_error_tok(t: TokV) -> bool {
    is_error_kind(t.kind)
}

/// True when the token carries an error-class kind.
pub fn check_if_error(token: &Token) -> (r: bool)
    ensures
        r == is_error_tok(token@),
{
    token.kind == TokenType::Error || token.kind == TokenType::Undefined || token.kind
        == TokenType::RecursionError || token.kind == TokenType::SyntaxError || token.kind
        == TokenType::TypeError || token.kind == TokenType::IndexError || token.kind
        == TokenType::Unsupported
}

// ---------------------------------------------------------------------------
// Kind names
// ---------------------------------------------------------------------------

pub open spec fn kind_name_spec(k: TokenType) -> Seq<char> {
    match k {
        TokenType::Unknown => "Unknown"@,
        TokenType::LeftParen => "LeftParen"@,
        TokenType::RightParen => "RightParen"@,
        TokenType::LeftBracket => "LeftBracket"@,
        TokenType::RightBracket => "RightBracket"@,
        TokenType::LeftBrace => "LeftBrace"@,
        TokenType::RightBrace => "RightBrace"@,
        TokenType::Comma => "Comma"@,
        TokenType::Dot => "Dot"@,
        TokenType::Colon => "Colon"@,
        TokenType::Semicolon => "Semicolon"@,
        TokenType::Plus => "Plus"@,
        TokenType::Minus => "Minus"@,
        TokenType::Multiply => "Multiply"@,
        TokenType::Divide => "Divide"@,
        TokenType::Modulo => "Modulo"@,
        TokenType::Equal => "Equal"@,
        TokenType::PlusEqual => "PlusEqual"@,
        TokenType::MinusEqual => "MinusEqual"@,
        TokenType::MultiplyEqual => "MultiplyEqual"@,
        TokenType::DivideEqual => "DivideEqual"@,
        TokenType::ModuloEqual => "ModuloEqual"@,
        TokenType::EqualTo => "EqualTo"@,
        TokenType::NotEqual => "NotEqual"@,
        TokenType::Not => "Not"@,
        TokenType::Greater => "Greater"@,
        TokenType::Less => "Less"@,
        TokenType::GreaterEqual => "GreaterEqual"@,
        TokenType::LessEqual => "LessEqual"@,
        TokenType::Comment => "Comment"@,
        TokenType::If => "If"@,
        TokenType::Else => "Else"@,
        TokenType::And => "And"@,
        TokenType::Or => "Or"@,
        TokenType::Func => "Func"@,
        TokenType::Import => "Import"@,
        TokenType::Return => "Return"@,
        TokenType::Var => "Var"@,
        TokenType::Str => "Str"@,
        TokenType::Int => "Int"@,
        TokenType::Bool => "Bool"@,
        TokenType::NoneValue => "None"@,
        TokenType::List => "List"@,
        TokenType::ScopeValue => "Scope"@,
        TokenType::HostObject => "HostObject"@,
        TokenType::Error => "Error"@,
        TokenType::Undefined => "Undefined"@,
        TokenType::RecursionError => "RecursionError"@,
        TokenType::SyntaxError => "SyntaxError"@,
        TokenType::TypeError => "TypeError"@,
        TokenType::IndexError => "IndexError"@,
        TokenType::Unsupported => "Unsupported"@,
    }
}

/// The display name of a kind, as the `type` builtin reports it.
pub fn kind_name(k: TokenType) -> (r: String)
    ensures
        r@ == kind_name_spec(k),
{
    match k {
        TokenType::Unknown => "Unknown".to_owned(),
        TokenType::LeftParen => "LeftParen".to_owned(),
        TokenType::RightParen => "RightParen".to_owned(),
        TokenType::LeftBracket => "LeftBracket".to_owned(),
        TokenType::RightBracket => "RightBracket".to_owned(),
        TokenType::LeftBrace => "LeftBrace".to_owned(),
        TokenType::RightBrace => "RightBrace".to_owned(),
        TokenType::Comma => "Comma".to_owned(),
        TokenType::Dot => "Dot".to_owned(),
        TokenType::Colon => "Colon".to_owned(),
        TokenType::Semicolon => "Semicolon".to_owned(),
        TokenType::Plus => "Plus".to_owned(),
        TokenType::Minus => "Minus".to_owned(),
        TokenType::Multiply => "Multiply".to_owned(),
        TokenType::Divide => "Divide".to_owned(),
        TokenType::Modulo => "Modulo".to_owned(),
        TokenType::Equal => "Equal".to_owned(),
        TokenType::PlusEqual => "PlusEqual".to_owned(),
        TokenType::MinusEqual => "MinusEqual".to_owned(),
        TokenType::MultiplyEqual => "MultiplyEqual".to_owned(),
        TokenType::DivideEqual => "DivideEqual".to_owned(),
        TokenType::ModuloEqual => "ModuloEqual".to_owned(),
        TokenType::EqualTo => "EqualTo".to_owned(),
        TokenType::NotEqual => "NotEqual".to_owned(),
        TokenType::Not => "Not".to_owned(),
        TokenType::Greater => "Greater".to_owned(),
        TokenType::Less => "Less".to_owned(),
        TokenType::GreaterEqual => "GreaterEqual".to_owned(),
        TokenType::LessEqual => "LessEqual".to_owned(),
        TokenType::Comment => "Comment".to_owned(),
        TokenType::If => "If".to_owned(),
        TokenType::Else => "Else".to_owned(),
        TokenType::And => "And".to_owned(),
        TokenType::Or => "Or".to_owned(),
        TokenType::Func => "Func".to_owned(),
        TokenType::Import => "Import".to_owned(),
        TokenType::Return => "Return".to_owned(),
        TokenType::Var => "Var".to_owned(),
        TokenType::Str => "Str".to_owned(),
        TokenType::Int => "Int".to_owned(),
        TokenType::Bool => "Bool".to_owned(),
        TokenType::NoneValue => "None".to_owned(),
        TokenType::List => "List".to_owned(),
        TokenType::ScopeValue => "Scope".to_owned(),
        TokenType::HostObject => "HostObject".to_owned(),
        TokenType::Error => "Error".to_owned(),
        TokenType::Undefined => "Undefined".to_owned(),
        TokenType::RecursionError => "RecursionError".to_owned(),
        TokenType::SyntaxError => "SyntaxError".to_owned(),
        TokenType::TypeError => "TypeError".to_owned(),
        TokenType::IndexError => "IndexError".to_owned(),
        TokenType::Unsupported => "Unsupported".to_owned(),
    }
}

// ---------------------------------------------------------------------------
// String helpers
// ---------------------------------------------------------------------------

/// Compares a string with a literal by contents.
pub fn str_eq_lit(s: &String, lit: &str) -> (r: bool)
    ensures
        r == (s@ == lit@),
{
    let o: String = lit.to_owned();
    *s == o
}

// ---------------------------------------------------------------------------
// Token constructors
// ---------------------------------------------------------------------------

/// A bare token of the given kind with every payload empty.
pub open spec fn tok_new(kind: TokenType) -> TokV {
    TokV {
        kind,
        value: Seq::empty(),
        number: 0,
        list: Seq::empty(),
        scope: Option::None,
        hostref: Option::None,
    }
}

pub open spec fn tok_int(n: int) -> TokV {
    TokV { number: n, ..tok_new(TokenType::Int) }
}

pub open spec fn tok_str(s: Seq<char>) -> TokV {
    TokV { value: s, ..tok_new(TokenType::Str) }
}

pub open spec fn tok_var(s: Seq<char>) -> TokV {
    TokV { value: s, ..tok_new(TokenType::Var) }
}

pub open spec fn tok_bool(b: bool) -> TokV {
    TokV {
        number: if b {
            crate::numbers::SCALE as int
        } else {
            0
        },
        ..tok_new(TokenType::Bool)
    }
}

pub open spec fn tok_list(l: Seq<TokV>) -> TokV {
    TokV { list: l, ..tok_new(TokenType::List) }
}

pub open spec fn tok_scope(s: ScopeV) -> TokV {
    TokV { scope: Option::Some(s), ..tok_new(TokenType::ScopeValue) }
}

/// An error value: the kind's name, a separating colon, and the message.
pub open spec fn tok_error(kind: TokenType, text: Seq<char>) -> TokV {
    TokV { value: kind_name_spec(kind) + ": "@ + text, ..tok_new(kind) }
}

impl Token {
    /// A bare token of the given kind.
    pub fn new(kind: TokenType) -> (r: Token)
        ensures
            r@ == tok_new(kind),
    {
        let r = Token {
            kind,
            value: String::new(),
            number: 0,
            list: Vec::new(),
            scope: Option::None,
            hostref: Option::None,
        };
        proof {
            assert(r@ =~= tok_new(kind));
        }
        r
    }

    /// An error value carrying the kind's name and a message.
    pub fn new_error(error_type: TokenType, error_text: String) -> (r: Token)
        ensures
            r@ == tok_error(error_type, error_text@),
    {
        let mut value = kind_name(error_type);
        value.append(": ");
        value.append(error_text.as_str());
        let r = Token { value, ..Token::new(error_type) };
        proof {
            assert(r@ =~= tok_error(error_type, error_text@));
        }
        r
    }

    /// The unit value.
    pub fn new_none() -> (r: Token)
        ensures
            r@ == tok_new(TokenType::NoneValue),
    {
        Token::new(TokenType::NoneValue)
    }

    /// An identifier token.
    pub fn new_var(value: String) -> (r: Token)
        ensures
            r@ == tok_var(value@),
    {
        let r = Token { value, ..Token::new(TokenType::Var) };
        proof {
            assert(r@ =~= tok_var(r.value@));
        }
        r
    }

    /// A string value.
    pub fn new_string(value: String) -> (r: Token)
        ensures
            r@ == tok_str(value@),
    {
        let r = Token { value, ..Token::new(TokenType::Str) };
        proof {
            assert(r@ =~= tok_str(r.value@));
        }
        r
    }

    /// A number value; `number` is the fixed-point payload.
    pub fn new_int(number: i64) -> (r: Token)
        ensures
            r@ == tok_int(number as int),
    {
        let r = Token { number, ..Token::new(TokenType::Int) };
        proof {
            assert(r@ =~= tok_int(number as int));
        }
        r
    }

    /// A boolean value built from the word `true` or `false`.
    pub fn new_bool(value: String) -> (r: Token)
        requires
            value@ == "true"@ || value@ == "false"@,
        ensures
            r@ == tok_bool(value@ == "true"@),
    {
        let t = str_eq_lit(&value, "true");
        let r = Token {
            number: if t {
                crate::numbers::SCALE
            } else {
                0
            },
            ..Token::new(TokenType::Bool)
        };
        proof {
            assert(r@ =~= tok_bool(value@ == "true"@));
        }
        r
    }

    /// A boolean value built directly from a flag.
    pub fn from_bool(b: bool) -> (r: Token)
        ensures
            r@ == tok_bool(b),
    {
        let r = Token {
            number: if b {
                crate::numbers::SCALE
            } else {
                0
            },
            ..Token::new(TokenType::Bool)
        };
        proof {
            assert(r@ =~= tok_bool(b));
        }
        r
    }

    /// A list value holding the given elements in order.
    pub fn new_list(list: Vec<Token>) -> (r: Token)
        ensures
            r@ == tok_list(view_tokens(list@)),
    {
        let r = Token { list, ..Token::new(TokenType::List) };
        proof {
            assert(r@ =~= tok_list(view_tokens(r.list@)));
        }
        r
    }

    /// A namespace value wrapping a scope.
    pub fn new_scope(scope: Scope) -> (r: Token)
        ensures
            r@ == tok_scope(scope@),
    {
        let r = Token { scope: Option::Some(Box::new(scope)), ..Token::new(TokenType::ScopeValue) };
        proof {
            assert(r@ =~= tok_scope(view_scope(*r.scope->0)));
        }
        r
    }
}

// ---------------------------------------------------------------------------
// Deep copies
// ---------------------------------------------------------------------------

/// Copies a token, preserving its view. Scope operations move data only by
/// such copies, never by sharing.
pub fn copy_token(t: &Token) -> (r: Token)
    ensures
        r@ == t@,
    decreases *t,
{
    let list = copy_tokens(&t.list);
    let scope = match &t.scope {
        Option::Some(b) => Option::Some(Box::new(copy_scope(&**b))),
        Option::None => Option::None,
    };
    let r = Token {
        kind: t.kind,
        value: t.value.clone(),
        number: t.number,
        list,
        scope,
        hostref: t.hostref,
    };
    proof {
        assert(r@ =~= t@);
    }
    r
}

pub fn copy_tokens(v: &Vec<Token>) -> (r: Vec<Token>)
    ensures
        view_tokens(r@) == view_tokens(v@),
        r@.len() == v@.len(),
    decreases v@,
{
    broadcast use group_view_lemmas;

    let mut r: Vec<Token> = Vec::new();
    let mut i: usize = 0;
    while i < v.len()
        invariant
            i <= v@.len(),
            r@.len() == i,
            forall|j: int| 0 <= j < i ==> #[trigger] view_token(r@[j]) == view_token(v@[j]),
        decreases v@.len() - i,
    {
        let t = copy_token(&v[i]);
        r.push(t);
        i += 1;
    }
    proof {
        assert(view_tokens(r@) =~= view_tokens(v@));
    }
    r
}

pub fn copy_scope(s: &Scope) -> (r: Scope)
    ensures
        r@ == s@,
    decreases *s,
{
    let variables = copy_vars(&s.variables);
    let functions = copy_funs(&s.functions);
    let r = Scope { variables, functions };
    proof {
        assert(r@ =~= s@);
    }
    r
}

pub fn copy_vars(v: &Vec<Variable>) -> (r: Vec<Variable>)
    ensures
        view_vars(r@) == view_vars(v@),
        r@.len() == v@.len(),
    decreases v@,
{
    broadcast use group_view_lemmas;

    let mut r: Vec<Variable> = Vec::new();
    let mut i: usize = 0;
    while i < v.len()
        invariant
            i <= v@.len(),
            r@.len() == i,
            forall|j: int| 0 <= j < i ==> #[trigger] r@[j]@ == v@[j]@,
        decreases v@.len() - i,
    {
        let value = copy_token(&v[i].value);
        let name = v[i].name.clone();
        r.push(Variable { name, value });
        i += 1;
    }
    proof {
        assert(view_vars(r@) =~= view_vars(v@));
    }
    r
}

pub fn copy_strings(v: &Vec<String>) -> (r: Vec<String>)
    ensures
        view_strings(r@) == view_strings(v@),
        r@.len() == v@.len(),
{
    let mut r: Vec<String> = Vec::new();
    let mut i: usize = 0;
    while i < v.len()
        invariant
            i <= v@.len(),
            r@.len() == i,
            forall|j: int| 0 <= j < i ==> #[trigger] r@[j]@ == v@[j]@,
        decreases v@.len() - i,
    {
        let s = v[i].clone();
        r.push(s);
        i += 1;
    }
    proof {
        assert(view_strings(r@) =~= view_strings(v@));
    }
    r
}

pub fn copy_funs(v: &Vec<Function>) -> (r: Vec<Function>)
    ensures
        view_funs(r@) == view_funs(v@),
        r@.len() == v@.len(),
    decreases v@,
{
    broadcast use group_view_lemmas;

    let mut r: Vec<Function> = Vec::new();
    let mut i: usize = 0;
    while i < v.len()
        invariant
            i <= v@.len(),
            r@.len() == i,
            forall|j: int| 0 <= j < i ==> #[trigger] r@[j]@ == v@[j]@,
        decreases v@.len() - i,
    {
        let body = match &v[i].body {
            Option::Some(b) => Option::Some(copy_asts(b)),
            Option::None => Option::None,
        };
        let name = v[i].name.clone();
        let args = copy_strings(&v[i].args);
        let f = Function { name, args, body, builtin: v[i].builtin, hostfn: v[i].hostfn };
        proof {
            assert(f@ =~= v@[i as int]@);
        }
        r.push(f);
        i += 1;
    }
    proof {
        assert(view_funs(r@) =~= view_funs(v@));
    }
    r
}

pub fn copy_ast(a: &AST) -> (r: AST)
    ensures
        r@ == a@,
    decreases *a,
{
    let token = copy_token(&a.token);
    let children = copy_asts(&a.children);
    let r = AST { kind: a.kind, token, children };
    proof {
        assert(r@ =~= a@);
    }
    r
}

pub fn copy_asts(v: &Vec<AST>) -> (r: Vec<AST>)
    ensures
        view_asts(r@) == view_asts(v@),
        r@.len() == v@.len(),
    decreases v@,
{
    broadcast use group_view_lemmas;

    let mut r: Vec<AST> = Vec::new();
    let mut i: usize = 0;
    while i < v.len()
        invariant
            i <= v@.len(),
            r@.len() == i,
            forall|j: int| 0 <= j < i ==> #[trigger] view_ast(r@[j]) == view_ast(v@[j]),
        decreases v@.len() - i,
    {
        let a = copy_ast(&v[i]);
        r.push(a);
        i += 1;
    }
    proof {
        assert(view_asts(r@) =~= view_asts(v@));
    }
    r
}

pub proof fn lemma_view_tokens_concat(a: Seq<Token>, b: Seq<Token>)
    ensures
        view_tokens(a + b) == view_tokens(a) + view_tokens(b),
    decreases b,
{
    if b.len() == 0 {
        assert(a + b =~= a);
        assert(view_tokens(a) + view_tokens(b) =~= view_tokens(a));
    } else {
        lemma_view_tokens_concat(a, b.drop_last());
        assert((a + b).drop_last() =~= a + b.drop_last());
        assert((a + b).last() == b.last());
        assert(view_tokens(a + b) =~= view_tokens(a) + view_tokens(b));
    }
}

pub proof fn lemma_view_funs_concat(a: Seq<Function>, b: Seq<Function>)
    ensures
        view_funs(a + b) == view_funs(a) + view_funs(b),
    decreases b,
{
    if b.len() == 0 {
        assert(a + b =~= a);
        assert(view_funs(a) + view_funs(b) =~= view_funs(a));
    } else {
        lemma_view_funs_concat(a, b.drop_last());
        assert((a + b).drop_last() =~= a + b.drop_last());
        assert((a + b).last() == b.last());
        assert(view_funs(a + b) =~= view_funs(a) + view_funs(b));
    }
}

pub proof fn lemma_view_vars_concat(a: Seq<Variable>, b: Seq<Variable>)
    ensures
        view_vars(a + b) == view_vars(a) + view_vars(b),
    decreases b,
{
    if b.len() == 0 {
        assert(a + b =~= a);
        assert(view_vars(a) + view_vars(b) =~= view_vars(a));
    } else {
        lemma_view_vars_concat(a, b.drop_last());
        assert((a + b).drop_last() =~= a + b.drop_last());
        assert((a + b).last() == b.last());
        assert(view_vars(a + b) =~= view_vars(a) + view_vars(b));
    }
}

pub proof fn lemma_view_asts_concat(a: Seq<AST>, b: Seq<AST>)
    ensures
        view_asts(a + b) == view_asts(a) + view_asts(b),
    decreases b,
{
    if b.len() == 0 {
        assert(a + b =~= a);
        assert(view_asts(a) + view_asts(b) =~= view_asts(a));
    } else {
        lemma_view_asts_concat(a, b.drop_last());
        assert((a + b).drop_last() =~= a + b.drop_last());
        assert((a + b).last() == b.last());
        assert(view_asts(a + b) =~= view_asts(a) + view_asts(b));
    }
}

/// Appends a token, tracking the sequence view.
pub fn push_tok(out: &mut Vec<Token>, t: Token)
    ensures
        view_tokens(final(out)@) == view_tokens(old(out)@).push(t@),
        final(out)@.len() == old(out)@.len() + 1,
{
    let ghost prev = out@;
    out.push(t);
    proof {
        assert(out@.drop_last() =~= prev);
    }
}

/// Appends a node, tracking the sequence view.
pub fn push_ast(out: &mut Vec<AST>, a: AST)
    ensures
        view_asts(final(out)@) == view_asts(old(out)@).push(a@),
        final(out)@.len() == old(out)@.len() + 1,
{
    let ghost prev = out@;
    out.push(a);
    proof {
        assert(out@.drop_last() =~= prev);
    }
}

impl Clone for Token {
    fn clone(&self) -> (r: Token)
        ensures
            r@ == self@,
    {
        copy_token(self)
    }
}

impl Clone for Variable {
    fn clone(&self) -> (r: Variable)
        ensures
            r@ == self@,
    {
        Variable { name: self.name.clone(), value: copy_token(&self.value) }
    }
}

impl Clone for Function {
    fn clone(&self) -> (r: Function)
        ensures
            r@ == self@,
    {
        let body = match &self.body {
            Option::Some(b) => Option::Some(copy_asts(b)),
            Option::None => Option::None,
        };
        let r = Function {
            name: self.name.clone(),
            args: copy_strings(&self.args),
            body,
            builtin: self.builtin,
            hostfn: self.hostfn,
        };
        proof {
            assert(r@ =~= self@);
        }
        r
    }
}

impl Clone for Scope {
    fn clone(&self) -> (r: Scope)
        ensures
            r@ == self@,
    {
        copy_scope(self)
    }
}

impl Clone for AST {
    fn clone(&self) -> (r: AST)
        ensures
            r@ == self@,
    {
        copy_ast(self)
    }
}

} // verus!
