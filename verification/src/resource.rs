//! Caller-facing errors for resources that cannot be found, and the small
//! decisions that report them.

use vstd::prelude::*;

use crate::error::{
    BaseError, BaseRest, ExpectedVariant, expected, expected_with, fails_expected, is_expected,
};

verus! {

/// Builds the expected error for a missing active subtree root; the message
/// is the given message key.
pub fn missing(error_key: &str, resource_kind: &str, resource_id: &str) -> (e: BaseError)
    ensures
        is_expected(e, ExpectedVariant::Args, error_key@),
{
    expected(error_key)
}

/// Builds the expected error for a missing team.
pub fn missing_team(id: &str, operation: &str) -> (e: BaseError)
    ensures
        is_expected(e, ExpectedVariant::Args, "error-team-not-found"@),
{
    expected("error-team-not-found")
}

/// Builds the expected error for a missing workset.
pub fn missing_workset(id: &str, operation: &str) -> (e: BaseError)
    ensures
        is_expected(e, ExpectedVariant::Args, "error-workset-not-found"@),
{
    expected("error-workset-not-found")
}

/// A request to resolve the team owning a comic or a chapter.
pub enum ResolveTeamId {
    Comic { id: String },
    Chapter { id: String },
}

/// The message key reported when the resource of `oper` is unresolvable.
pub open spec fn unresolved_key(oper: ResolveTeamId) -> Seq<char> {
    match oper {
        ResolveTeamId::Comic { .. } => "error-comic-not-found"@,
        ResolveTeamId::Chapter { .. } => "error-chapter-not-found"@,
    }
}

/// Builds the client-visible error for an unresolvable comic or chapter.
pub fn missing_resource(oper: &ResolveTeamId) -> (e: BaseError)
    ensures
        is_expected(e, ExpectedVariant::Args, unresolved_key(*oper)),
{
    match oper {
        ResolveTeamId::Comic { .. } => expected("error-comic-not-found"),
        ResolveTeamId::Chapter { .. } => expected("error-chapter-not-found"),
    }
}

/// Decides whether a user may mark a system mail as read, given the receiver
/// of the mail that was found (if any).
pub fn authorize_mark_read(receiver_id: Option<&String>, user_id: &String) -> (r: BaseRest<()>)
    ensures
        receiver_id is None ==> fails_expected(r, ExpectedVariant::Args, "error-system-mail-not-found"@),
        receiver_id matches Some(rid) && rid@ != user_id@ ==> fails_expected(
            r,
            ExpectedVariant::Perm,
            "error-forbidden"@,
        ),
        receiver_id matches Some(rid) && rid@ == user_id@ ==> r is Ok,
{
    match receiver_id {
        None => Err(expected("error-system-mail-not-found")),
        Some(rid) => {
            if !rid.eq(user_id) {
                return Err(expected_with(ExpectedVariant::Perm, "error-forbidden"));
            }
            Ok(())
        },
    }
}

/// Rejects an avatar upload mark that matched no row (a stale version or key).
pub fn ensure_avatar_marked(affected: usize) -> (r: BaseRest<()>)
    ensures
        r is Ok <==> affected != 0,
        r is Err ==> fails_expected(r, ExpectedVariant::Args, "error-avatar-version-mismatch"@),
{
    if affected == 0 {
        return Err(expected("error-avatar-version-mismatch"));
    }
    Ok(())
}

/// Rejects a team update that matched no active team.
pub fn ensure_team_updated(updated_count: usize, id: &str) -> (r: BaseRest<()>)
    ensures
        r is Ok <==> updated_count != 0,
        r is Err ==> fails_expected(r, ExpectedVariant::Args, "error-team-not-found"@),
{
    if updated_count == 0 {
        return Err(missing_team(id, "update team info"));
    }
    Ok(())
}

} // verus!
