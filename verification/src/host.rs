//! The capability boundary to the embedding host.
//!
//! The evaluator never inspects a host object or a host-registered callable:
//! everything the host does is reached through this injected interface, one
//! non-reentrant call per evaluated node. A host call may suspend the
//! evaluation (an awaitable resolving, an asynchronous callable); from the
//! evaluator's side the call simply returns once the host is done, and a
//! host failure comes back marshalled as an error value, never as an
//! unwound exception. Nothing is assumed about what a host call returns:
//! every contract of the evaluator holds whatever token comes back.
use vstd::prelude::*;

use crate::value::Scope;
use crate::value::Token;
use crate::value::TokenType;

verus! {

/// What the host supplies to the language: an output channel, callables
/// registered by name, method calls on opaque host objects, and the
/// resolution of awaitable host values.
pub trait HostBridge {
    /// Writes one line of program output to the host's output channel.
    fn emit_line(&mut self, text: &String);

    /// Calls the host-registered callable behind `handle` with the
    /// evaluated payload (a list or a namespace) and a snapshot of the
    /// caller's scope.
    fn call_function(&mut self, handle: u64, name: &String, payload: &Token, caller: &Scope) -> (r:
        Token);

    /// Calls the method `name` on the host object behind `hostref` with the
    /// evaluated payload. The evaluator has already rejected unsafe names.
    fn call_method(&mut self, hostref: u64, name: &String, payload: &Token) -> (r: Token);

    /// Suspends until the awaitable host value behind `hostref` resolves,
    /// then hands its marshalled result back.
    fn await_value(&mut self, hostref: u64) -> (r: Token);
}

/// A host that supplies nothing: output is kept in memory, and every host
/// call reports that no host is attached. This is the bridge of an
/// embedding that only runs self-contained programs.
pub struct NoHost {
    pub output: Vec<String>,
}

impl NoHost {
    pub fn new() -> (r: NoHost)
        ensures
            r.output@.len() == 0,
    {
        NoHost { output: Vec::new() }
    }
}

impl HostBridge for NoHost {
    fn emit_line(&mut self, text: &String) {
        self.output.push(text.clone());
    }

    fn call_function(&mut self, handle: u64, name: &String, payload: &Token, caller: &Scope) -> (r:
        Token) {
        Token::new_error(TokenType::Error, "no host is attached".to_owned())
    }

    fn call_method(&mut self, hostref: u64, name: &String, payload: &Token) -> (r: Token) {
        Token::new_error(TokenType::Error, "no host is attached".to_owned())
    }

    fn await_value(&mut self, hostref: u64) -> (r: Token) {
        Token::new_error(TokenType::Error, "no host is attached".to_owned())
    }
}

} // verus!
