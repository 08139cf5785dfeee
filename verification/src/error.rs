//! Repository error values shared by every adapter operation.

use vstd::prelude::*;

verus! {

/// Classification of an error that the caller can act on.
#[derive(Clone, Copy, Debug, PartialEq, Eq, Structural)]
pub enum ExpectedVariant {
    /// The request arguments name something absent or invalid.
    Args,
    /// The caller lacks permission for the target resource.
    Perm,
}

/// Error returned by repository operations.
#[derive(Debug)]
pub enum BaseError {
    /// A caller-facing failure; `message` holds the message key.
    Expected { variant: ExpectedVariant, message: String },
    /// A broken invariant that the caller cannot repair.
    Unrecoverable { message: String },
}

/// Result of a repository operation.
pub type BaseRest<T> = Result<T, BaseError>;

/// True when `e` is an unrecoverable error carrying exactly `message`.
pub open spec fn is_unrecoverable(e: BaseError, message: Seq<char>) -> bool {
    e matches BaseError::Unrecoverable { message: m } && m@ == message
}

/// True when `e` is an expected error of `variant` carrying exactly `message`.
pub open spec fn is_expected(e: BaseError, variant: ExpectedVariant, message: Seq<char>) -> bool {
    e matches BaseError::Expected { variant: v, message: m } && v == variant && m@ == message
}

/// `r` failed with an unrecoverable error carrying exactly `message`.
pub open spec fn fails_unrecoverable<T>(r: BaseRest<T>, message: Seq<char>) -> bool {
    r matches Err(e) && is_unrecoverable(e, message)
}

/// `r` failed with an expected error of `variant` carrying exactly `message`.
pub open spec fn fails_expected<T>(r: BaseRest<T>, variant: ExpectedVariant, message: Seq<char>) -> bool {
    r matches Err(e) && is_expected(e, variant, message)
}

/// Builds an unrecoverable error whose message is `message`.
pub fn unrecoverable(message: &str) -> (e: BaseError)
    ensures
        is_unrecoverable(e, message@),
{
    BaseError::Unrecoverable { message: String::from_str(message) }
}

/// Builds an expected error of `variant` whose message is `message`.
pub fn expected_with(variant: ExpectedVariant, message: &str) -> (e: BaseError)
    ensures
        is_expected(e, variant, message@),
{
    BaseError::Expected { variant, message: String::from_str(message) }
}

/// Builds an expected argument error whose message is `message`.
pub fn expected(message: &str) -> (e: BaseError)
    ensures
        is_expected(e, ExpectedVariant::Args, message@),
{
    expected_with(ExpectedVariant::Args, message)
}

} // verus!
