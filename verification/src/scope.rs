//! Scope operations: building namespaces, looking names up, updating a
//! binding in place, and the copy-based data movement between scopes.
use vstd::prelude::*;

use crate::value::copy_token;
use crate::value::group_view_lemmas;
use crate::value::view_vars;
use crate::value::Function;
use crate::value::FunV;
use crate::value::Scope;
use crate::value::ScopeV;
use crate::value::Token;
use crate::value::Variable;
use crate::value::VarV;

verus! {

// ---------------------------------------------------------------------------
// Name lookup, in specification
// ---------------------------------------------------------------------------

/// The index of the first variable called `name`, scanning from `i`.
pub open spec fn find_var_from(vars: Seq<VarV>, name: Seq<char>, i: int) -> Option<int>
    decreases vars.len() - i,
{
    if i < 0 || i >= vars.len() {
        Option::None
    } else if vars[i].name == name {
        Option::Some(i)
    } else {
        find_var_from(vars, name, i + 1)
    }
}

pub open spec fn find_var(sc: ScopeV, name: Seq<char>) -> Option<int> {
    find_var_from(sc.variables, name, 0)
}

/// The index of the first function called `name`, scanning from `i`.
pub open spec fn find_fun_from(funs: Seq<FunV>, name: Seq<char>, i: int) -> Option<int>
    decreases funs.len() - i,
{
    if i < 0 || i >= funs.len() {
        Option::None
    } else if funs[i].name == name {
        Option::Some(i)
    } else {
        find_fun_from(funs, name, i + 1)
    }
}

pub open spec fn find_fun(sc: ScopeV, name: Seq<char>) -> Option<int> {
    find_fun_from(sc.functions, name, 0)
}

/// The value of the first variable called `name`, if any.
pub open spec fn lookup_var(sc: ScopeV, name: Seq<char>) -> Option<crate::value::TokV> {
    match find_var(sc, name) {
        Option::Some(i) => Option::Some(sc.variables[i].value),
        Option::None => Option::None,
    }
}

/// The scope after storing `value` under `name`: the first existing binding
/// is overwritten, and a missing name is appended as a new binding.
pub open spec fn store_var(sc: ScopeV, name: Seq<char>, value: crate::value::TokV) -> ScopeV {
    match find_var(sc, name) {
        Option::Some(i) => ScopeV {
            variables: sc.variables.update(i, VarV { name, value }),
            ..sc
        },
        Option::None => ScopeV { variables: sc.variables.push(VarV { name, value }), ..sc },
    }
}

pub proof fn lemma_find_var_bound(vars: Seq<VarV>, name: Seq<char>, i: int)
    ensures
        match find_var_from(vars, name, i) {
            Option::Some(j) => i <= j < vars.len() && vars[j].name == name,
            Option::None => true,
        },
    decreases vars.len() - i,
{
    if 0 <= i < vars.len() && vars[i].name != name {
        lemma_find_var_bound(vars, name, i + 1);
    }
}

pub proof fn lemma_find_fun_bound(funs: Seq<FunV>, name: Seq<char>, i: int)
    ensures
        match find_fun_from(funs, name, i) {
            Option::Some(j) => i <= j < funs.len() && funs[j].name == name,
            Option::None => true,
        },
    decreases funs.len() - i,
{
    if 0 <= i < funs.len() && funs[i].name != name {
        lemma_find_fun_bound(funs, name, i + 1);
    }
}

// ---------------------------------------------------------------------------
// Executable lookups
// ---------------------------------------------------------------------------

/// The index of the first variable called `name` in the scope, if any.
pub fn find_variable_index(name: &String, scope: &Scope) -> (r: Option<usize>)
    ensures
        match r {
            Option::Some(i) => find_var(scope@, name@) == Option::Some(i as int) && i
                < scope.variables@.len(),
            Option::None => find_var(scope@, name@) is None,
        },
{
    broadcast use group_view_lemmas;

    let mut i: usize = 0;
    while i < scope.variables.len()
        invariant
            i <= scope.variables@.len(),
            find_var(scope@, name@) == find_var_from(scope@.variables, name@, i as int),
        decreases scope.variables@.len() - i,
    {
        proof {
            crate::value::lemma_view_vars_index(scope.variables@, i as int);
        }
        if crate::value::str_eq_lit(&scope.variables[i].name, name.as_str()) {
            return Option::Some(i);
        }
        i += 1;
    }
    proof {
        crate::value::lemma_view_vars_len(scope.variables@);
    }
    Option::None
}

/// Looks a variable up by name and hands back a copy of its value.
pub fn get_variable(name: &String, scope: &Scope) -> (r: Option<Token>)
    ensures
        match r {
            Option::Some(t) => lookup_var(scope@, name@) == Option::Some(t@),
            Option::None => lookup_var(scope@, name@) is None,
        },
{
    broadcast use group_view_lemmas;

    match find_variable_index(name, scope) {
        Option::Some(i) => {
            proof {
                crate::value::lemma_view_vars_index(scope.variables@, i as int);
            }
            Option::Some(copy_token(&scope.variables[i].value))
        },
        Option::None => Option::None,
    }
}

/// Looks a function up by name and hands back a copy of it.
pub fn get_function(name: &String, scope: &Scope) -> (r: Option<Function>)
    ensures
        match r {
            Option::Some(f) => match find_fun(scope@, name@) {
                Option::Some(i) => f@ == scope@.functions[i],
                Option::None => false,
            },
            Option::None => find_fun(scope@, name@) is None,
        },
{
    broadcast use group_view_lemmas;

    let mut i: usize = 0;
    while i < scope.functions.len()
        invariant
            i <= scope.functions@.len(),
            find_fun(scope@, name@) == find_fun_from(scope@.functions, name@, i as int),
        decreases scope.functions@.len() - i,
    {
        proof {
            crate::value::lemma_view_funs_index(scope.functions@, i as int);
        }
        if crate::value::str_eq_lit(&scope.functions[i].name, name.as_str()) {
            return Option::Some(scope.functions[i].clone());
        }
        i += 1;
    }
    proof {
        crate::value::lemma_view_funs_len(scope.functions@);
    }
    Option::None
}

/// Stores `value` under `name`: overwrites the first existing binding, or
/// appends a new one.
pub fn set_variable(name: &String, value: Token, scope: &mut Scope)
    ensures
        final(scope)@ == store_var(old(scope)@, name@, value@),
{
    broadcast use group_view_lemmas;

    match find_variable_index(name, scope) {
        Option::Some(i) => {
            proof {
                lemma_find_var_bound(old(scope)@.variables, name@, 0);
            }
            scope.variables[i] = Variable { name: name.clone(), value };
            proof {
                let target = store_var(old(scope)@, name@, value@);
                assert forall|j: int| 0 <= j < scope.variables@.len() implies view_vars(
                    scope.variables@,
                )[j] == target.variables[j] by {
                    crate::value::lemma_view_vars_index(scope.variables@, j);
                    crate::value::lemma_view_vars_index(old(scope).variables@, j);
                }
                crate::value::lemma_view_vars_len(scope.variables@);
                crate::value::lemma_view_vars_len(old(scope).variables@);
                assert(view_vars(scope.variables@) =~= target.variables);
                assert(scope@ =~= target);
            }
        },
        Option::None => {
            scope.variables.push(Variable { name: name.clone(), value });
            proof {
                assert(scope.variables@.drop_last() =~= old(scope).variables@);
                assert(scope@ =~= store_var(old(scope)@, name@, value@));
            }
        },
    }
}

// ---------------------------------------------------------------------------
// The public Scope and Function API
// ---------------------------------------------------------------------------

impl Function {
    /// A builtin stub: a name resolved against the builtin table at call
    /// time.
    pub fn new_builtin(name: &str) -> (r: Function)
        ensures
            r@ == (FunV {
                name: name@,
                args: Seq::empty(),
                body: Option::None,
                builtin: true,
                hostfn: Option::None,
            }),
    {
        let r = Function {
            name: name.to_owned(),
            args: Vec::new(),
            body: Option::None,
            builtin: true,
            hostfn: Option::None,
        };
        proof {
            assert(r@.args =~= Seq::<Seq<char>>::empty());
        }
        r
    }
}

impl Scope {
    /// An empty namespace.
    pub fn new() -> (r: Scope)
        ensures
            r@ == (ScopeV { variables: Seq::empty(), functions: Seq::empty() }),
    {
        Scope { variables: Vec::new(), functions: Vec::new() }
    }

    /// Appends a variable binding.
    pub fn push_variable(&mut self, name: &str, value: Token)
        ensures
            final(self)@.variables == old(self)@.variables.push(VarV { name: name@, value: value@ }),
            final(self)@.functions == old(self)@.functions,
    {
        broadcast use group_view_lemmas;

        self.variables.push(Variable { name: name.to_owned(), value });
        proof {
            assert(self.variables@.drop_last() =~= old(self).variables@);
            assert(self@.variables =~= old(self)@.variables.push(
                VarV { name: name@, value: value@ },
            ));
        }
    }

    /// Appends a builtin function stub.
    pub fn push_builtin(&mut self, name: &str)
        ensures
            final(self)@.functions == old(self)@.functions.push(
                FunV {
                    name: name@,
                    args: Seq::empty(),
                    body: Option::None,
                    builtin: true,
                    hostfn: Option::None,
                },
            ),
            final(self)@.variables == old(self)@.variables,
    {
        broadcast use group_view_lemmas;

        let f = Function::new_builtin(name);
        self.functions.push(f);
        proof {
            assert(self.functions@.drop_last() =~= old(self).functions@);
            assert(self@.functions =~= old(self)@.functions.push(
                FunV {
                    name: name@,
                    args: Seq::empty(),
                    body: Option::None,
                    builtin: true,
                    hostfn: Option::None,
                },
            ));
        }
    }

    /// Appends a host-registered function under the host's opaque handle.
    pub fn push_hostfn(&mut self, name: &str, hostfn: u64)
        ensures
            final(self)@.functions == old(self)@.functions.push(
                FunV {
                    name: name@,
                    args: Seq::empty(),
                    body: Option::None,
                    builtin: false,
                    hostfn: Option::Some(hostfn),
                },
            ),
            final(self)@.variables == old(self)@.variables,
    {
        broadcast use group_view_lemmas;

        let f = Function {
            name: name.to_owned(),
            args: Vec::new(),
            body: Option::None,
            builtin: false,
            hostfn: Option::Some(hostfn),
        };
        proof {
            assert(f@.args =~= Seq::<Seq<char>>::empty());
        }
        self.functions.push(f);
        proof {
            assert(self.functions@.drop_last() =~= old(self).functions@);
            assert(self@.functions =~= old(self)@.functions.push(
                FunV {
                    name: name@,
                    args: Seq::empty(),
                    body: Option::None,
                    builtin: false,
                    hostfn: Option::Some(hostfn),
                },
            ));
        }
    }
}

} // verus!
