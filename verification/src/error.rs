//! The errors a cookie operation answers with.

use vstd::prelude::*;

verus! {

/// Why a request for, or an operation on, a cookie was refused.
#[derive(Debug, Clone, Copy, PartialEq, Eq)]
pub enum ClewdrError {
    /// The pool holds no cookie that can be handed out.
    NoCookieAvailable,
    /// Every cookie that could be handed out is at its concurrency limit.
    AllCookiesBusy,
    /// Something that had to be there was missing.
    UnexpectedNone { msg: &'static str },
}

} // verus!
