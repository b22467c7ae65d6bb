//! Errors of the core ledger model.
use vstd::prelude::*;

use crate::text::{chars_of, push_str, string_of};

verus! {

#[derive(Clone, Debug)]
pub enum CoreError {
    UnbalancedTransaction { tx: String, detail: String },
    InvalidAmount(String),
    InvalidAccount(String),
    Invariant(String),
}

/// The message of an error, as its `Display` writes it.
pub open spec fn core_error_msg(e: CoreError) -> Seq<char> {
    match e {
        CoreError::UnbalancedTransaction { tx, detail } => "transaction "@ + tx@
            + " does not balance: "@ + detail@,
        CoreError::InvalidAmount(m) => "invalid money amount: "@ + m@,
        CoreError::InvalidAccount(m) => "invalid account name: "@ + m@,
        CoreError::Invariant(m) => "invariant violated: "@ + m@,
    }
}

impl CoreError {
    /// The human-readable message.
    pub fn message(&self) -> (r: String)
        ensures
            r@ == core_error_msg(*self),
    {
        match self {
            CoreError::UnbalancedTransaction { tx, detail } => {
                let mut s = string_of(chars_of("transaction ").as_slice());
                push_str(&mut s, tx.as_str());
                push_str(&mut s, " does not balance: ");
                push_str(&mut s, detail.as_str());
                s
            },
            CoreError::InvalidAmount(m) => {
                let mut s = string_of(chars_of("invalid money amount: ").as_slice());
                push_str(&mut s, m.as_str());
                s
            },
            CoreError::InvalidAccount(m) => {
                let mut s = string_of(chars_of("invalid account name: ").as_slice());
                push_str(&mut s, m.as_str());
                s
            },
            CoreError::Invariant(m) => {
                let mut s = string_of(chars_of("invariant violated: ").as_slice());
                push_str(&mut s, m.as_str());
                s
            },
        }
    }
}

} // verus!
