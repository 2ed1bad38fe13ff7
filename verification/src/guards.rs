//! Guards: who may see what.

use vstd::prelude::*;
use crate::text::same_text;

verus! {

/// The token that a request carries: the id of whoever sent it.
#[derive(Debug, PartialEq, Eq)]
pub struct Token(pub String);

/// Why a guard turns a request down.
#[derive(Debug, Clone, Copy, PartialEq, Eq, Structural)]
pub enum GuardError {
    /// The request carries no token.
    NoToken,
    /// The token is not the owner's.
    Forbidden,
}

impl GuardError {
    /// The diagnostic message of the error.
    pub fn message(&self) -> (text: &'static str)
        ensures
            text@ == match *self {
                GuardError::NoToken => "No token provided"@,
                GuardError::Forbidden => "Forbidden"@,
            },
    {
        match self {
            GuardError::NoToken => "No token provided",
            GuardError::Forbidden => "Forbidden",
        }
    }
}

/// Lets a request pass only if it comes from the owner.
#[derive(Debug, PartialEq, Eq)]
pub struct OwnerGuard {
    owner_id: String,
}

/// What the guard of an owner answers to a request with the given token.
pub open spec fn guard_verdict(owner_id: Seq<char>, token: Option<Token>) -> Result<(), GuardError> {
    match token {
        Some(token) => if token.0@ == owner_id {
            Ok(())
        } else {
            Err(GuardError::Forbidden)
        },
        None => Err(GuardError::NoToken),
    }
}

/// Passes the token of the owner and no other.
pub fn validate_token(owner_id: &String, token: &Token) -> (r: Result<(), GuardError>)
    ensures
        r == guard_verdict(owner_id@, Some(*token)),
{
    if same_text(owner_id.as_str(), token.0.as_str()) {
        Ok(())
    } else {
        Err(GuardError::Forbidden)
    }
}

impl OwnerGuard {
    /// The guard of the given owner.
    pub fn new(owner_id: &str) -> (guard: OwnerGuard)
        ensures
            guard.owner_id() == owner_id@,
    {
        OwnerGuard { owner_id: owner_id.to_owned() }
    }

    /// The id of the owner that the guard lets pass.
    pub closed spec fn owner_id(&self) -> Seq<char> {
        self.owner_id@
    }

    /// Checks the token of a request, if it carries one.
    pub fn check(&self, token: Option<&Token>) -> (r: Result<(), GuardError>)
        ensures
            r == guard_verdict(
                self.owner_id(),
                match token {
                    Some(t) => Some(*t),
                    None => None,
                },
            ),
    {
        match token {
            Some(token) => validate_token(&self.owner_id, token),
            None => Err(GuardError::NoToken),
        }
    }
}

} // verus!
