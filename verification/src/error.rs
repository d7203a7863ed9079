//! Typed errors at every public boundary.
use vstd::prelude::*;

use crate::text::{cat2, cat4, int_text, show_i64};

verus! {

/// What can go wrong.
#[derive(Debug)]
pub enum BrainError {
    Config(String),
    Storage(String),
    Migration { found: i64, expected: i64 },
    Locked { holder: String },
    NotFound(String),
    Invalid(String),
    Corruption(String),
    Provider { retryable: bool, message: String },
    Extraction(String),
    Budget(String),
    Scope { required: String },
    Unauthorized(String),
    Conflict(String),
    /// Another writer got there first.
    Busy(String),
}

/// [`BrainError`] as a mathematical value.
#[verifier::ext_equal]
pub enum BrainErrorView {
    Config(Seq<char>),
    Storage(Seq<char>),
    Migration { found: i64, expected: i64 },
    Locked { holder: Seq<char> },
    NotFound(Seq<char>),
    Invalid(Seq<char>),
    Corruption(Seq<char>),
    Provider { retryable: bool, message: Seq<char> },
    Extraction(Seq<char>),
    Budget(Seq<char>),
    Scope { required: Seq<char> },
    Unauthorized(Seq<char>),
    Conflict(Seq<char>),
    Busy(Seq<char>),
}

impl DeepView for BrainError {
    type V = BrainErrorView;

    open spec fn deep_view(&self) -> BrainErrorView {
        match self {
            BrainError::Config(s) => BrainErrorView::Config(s@),
            BrainError::Storage(s) => BrainErrorView::Storage(s@),
            BrainError::Migration { found, expected } => BrainErrorView::Migration {
                found: *found,
                expected: *expected,
            },
            BrainError::Locked { holder } => BrainErrorView::Locked { holder: holder@ },
            BrainError::NotFound(s) => BrainErrorView::NotFound(s@),
            BrainError::Invalid(s) => BrainErrorView::Invalid(s@),
            BrainError::Corruption(s) => BrainErrorView::Corruption(s@),
            BrainError::Provider { retryable, message } => BrainErrorView::Provider {
                retryable: *retryable,
                message: message@,
            },
            BrainError::Extraction(s) => BrainErrorView::Extraction(s@),
            BrainError::Budget(s) => BrainErrorView::Budget(s@),
            BrainError::Scope { required } => BrainErrorView::Scope { required: required@ },
            BrainError::Unauthorized(s) => BrainErrorView::Unauthorized(s@),
            BrainError::Conflict(s) => BrainErrorView::Conflict(s@),
            BrainError::Busy(s) => BrainErrorView::Busy(s@),
        }
    }
}

impl BrainErrorView {
    /// Whether repeating the operation might succeed.
    pub open spec fn retryable(self) -> bool {
        match self {
            BrainErrorView::Storage(_) => true,
            BrainErrorView::Locked { holder: _ } => true,
            BrainErrorView::Busy(_) => true,
            BrainErrorView::Provider { retryable, message: _ } => retryable,
            _ => false,
        }
    }

    /// The message that is shown for the error.
    pub open spec fn shown(self) -> Seq<char> {
        match self {
            BrainErrorView::Config(s) => "configuration error: "@ + s,
            BrainErrorView::Storage(s) => "storage error: "@ + s,
            BrainErrorView::Migration { found, expected } => "schema version mismatch: found "@
                + int_text(found as int) + ", expected "@ + int_text(expected as int),
            BrainErrorView::Locked { holder } => "store locked by another writer: "@ + holder,
            BrainErrorView::NotFound(s) => "not found: "@ + s,
            BrainErrorView::Invalid(s) => "invalid input: "@ + s,
            BrainErrorView::Corruption(s) => "corruption: "@ + s,
            BrainErrorView::Provider { retryable, message } => "provider error (retryable: "@
                + bool_text(retryable) + "): "@ + message,
            BrainErrorView::Extraction(s) => "extraction error: "@ + s,
            BrainErrorView::Budget(s) => "budget exceeded: "@ + s,
            BrainErrorView::Scope { required } => "insufficient scope: requires "@ + required,
            BrainErrorView::Unauthorized(s) => "unauthorized: "@ + s,
            BrainErrorView::Conflict(s) => "conflict: "@ + s,
            BrainErrorView::Busy(s) => "busy: "@ + s,
        }
    }
}

/// A truth value as text.
pub open spec fn bool_text(b: bool) -> Seq<char> {
    if b {
        "true"@
    } else {
        "false"@
    }
}

/// A truth value as text.
pub fn show_bool(b: bool) -> (r: &'static str)
    ensures
        r@ == bool_text(b),
{
    if b {
        "true"
    } else {
        "false"
    }
}

impl BrainError {
    /// True if repeating the operation might succeed (transient I/O, lock contention).
    pub fn retryable(&self) -> (r: bool)
        ensures
            r == self.deep_view().retryable(),
    {
        match self {
            BrainError::Storage(_) => true,
            BrainError::Locked { holder: _ } => true,
            BrainError::Busy(_) => true,
            BrainError::Provider { retryable, message: _ } => *retryable,
            _ => false,
        }
    }

    /// The message that is shown for the error.
    pub fn to_text(&self) -> (r: String)
        ensures
            r@ == self.deep_view().shown(),
    {
        match self {
            BrainError::Config(s) => cat2("configuration error: ", s.as_str()),
            BrainError::Storage(s) => cat2("storage error: ", s.as_str()),
            BrainError::Migration { found, expected } => cat4(
                "schema version mismatch: found ",
                show_i64(*found).as_str(),
                ", expected ",
                show_i64(*expected).as_str(),
            ),
            BrainError::Locked { holder } => cat2(
                "store locked by another writer: ",
                holder.as_str(),
            ),
            BrainError::NotFound(s) => cat2("not found: ", s.as_str()),
            BrainError::Invalid(s) => cat2("invalid input: ", s.as_str()),
            BrainError::Corruption(s) => cat2("corruption: ", s.as_str()),
            BrainError::Provider { retryable, message } => cat4(
                "provider error (retryable: ",
                show_bool(*retryable),
                "): ",
                message.as_str(),
            ),
            BrainError::Extraction(s) => cat2("extraction error: ", s.as_str()),
            BrainError::Budget(s) => cat2("budget exceeded: ", s.as_str()),
            BrainError::Scope { required } => cat2(
                "insufficient scope: requires ",
                required.as_str(),
            ),
            BrainError::Unauthorized(s) => cat2("unauthorized: ", s.as_str()),
            BrainError::Conflict(s) => cat2("conflict: ", s.as_str()),
            BrainError::Busy(s) => cat2("busy: ", s.as_str()),
        }
    }
}

/// Whether a result is the given error.
pub open spec fn fails_with<T>(r: Result<T, BrainError>, e: BrainErrorView) -> bool {
    r is Err && r->Err_0.deep_view() == e
}

} // verus!
