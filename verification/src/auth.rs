//! Authorization policy: classifies each administrative operation as allowed
//! or denied for a given acting identity. The policy is pure; callers must
//! abort on a denial before touching the store.

use vstd::prelude::*;

verus! {

/// Reserved identity of the superuser/root account.
pub const SUPERUSER_ID: i64 = 1;

/// The administrative operations the module knows about.
#[derive(Clone, Copy, PartialEq, Eq, Structural, Debug)]
pub enum AdminOp {
    /// Create a new administrator account.
    CreateAdmin,
    /// Replace the access labels of a target account.
    UpdateAccesses,
    /// Replace the whole metadata list of a target account.
    UpdateMeta,
    /// Set the password of an account chosen by id.
    UpdatePassword,
    /// List accounts (paged).
    ListAdmins,
    /// Count all accounts.
    Count,
    /// Read one account by id.
    Detail,
    /// Read the acting identity's own record.
    SelfInfo,
    /// Delete an account by id.
    DeleteAdmin,
    /// Ask for a password-reset token (pre-authentication).
    RequestReset,
    /// Check a password-reset token (pre-authentication).
    VerifyReset,
    /// Consume a reset token and set a new password (pre-authentication).
    CompleteReset,
}

/// Error taxonomy surfaced by the module's operations.
#[derive(Clone, Copy, PartialEq, Eq, Structural, Debug)]
pub enum ApiError {
    /// Malformed input, caught before any store access.
    ValidationFailed,
    /// The authorization policy denied the operation.
    Unauthorized,
    /// The target account or email does not exist.
    NotFound,
    /// Semantically invalid combination, e.g. mismatched confirmation
    /// password or a missing reset token.
    ParamError,
    /// The supplied reset token does not match the pending one.
    TokenInvalid,
    /// An account with the given email already exists.
    DuplicateEmail,
    /// The store cannot take another record (id space exhausted).
    StoreError,
}

impl ApiError {
    /// Human-readable message carried alongside the error kind.
    pub fn message(&self) -> &'static str {
        match self {
            ApiError::ValidationFailed => "Invalid input",
            ApiError::Unauthorized => "Unauthorized",
            ApiError::NotFound => "Not found",
            ApiError::ParamError => "Invalid parameter combination",
            ApiError::TokenInvalid => "Invalid reset token",
            ApiError::DuplicateEmail => "Email already registered",
            ApiError::StoreError => "Store failure",
        }
    }
}

/// Operations reserved to the superuser: account creation, replacing another
/// account's labels or metadata, and setting a password by id.
pub open spec fn superuser_only(op: AdminOp) -> bool {
    ||| op == AdminOp::CreateAdmin
    ||| op == AdminOp::UpdateAccesses
    ||| op == AdminOp::UpdateMeta
    ||| op == AdminOp::UpdatePassword
}

/// The policy: superuser-only operations need acting id exactly the reserved
/// id; listing passes any id at most the reserved id (the historical `<=`
/// comparison, kept as specified); everything else only needs the caller to
/// be authenticated, which the presence of an acting identity already gives,
/// and the reset flows run before authentication.
pub open spec fn allowed(acting_id: int, op: AdminOp) -> bool {
    if superuser_only(op) {
        acting_id == SUPERUSER_ID as int
    } else if op == AdminOp::ListAdmins {
        acting_id <= SUPERUSER_ID as int
    } else {
        true
    }
}

/// Decide whether `acting_id` may perform `op`. Pure classification: no side
/// effects; a denial is reported as `Unauthorized`.
pub fn authorize(acting_id: i64, op: AdminOp) -> (r: Result<(), ApiError>)
    ensures
        r is Ok <==> allowed(acting_id as int, op),
        r is Err ==> r == Result::<(), ApiError>::Err(ApiError::Unauthorized),
{
    match op {
        AdminOp::CreateAdmin | AdminOp::UpdateAccesses | AdminOp::UpdateMeta
        | AdminOp::UpdatePassword => {
            if acting_id == SUPERUSER_ID {
                Ok(())
            } else {
                Err(ApiError::Unauthorized)
            }
        },
        AdminOp::ListAdmins => {
            if acting_id <= SUPERUSER_ID {
                Ok(())
            } else {
                Err(ApiError::Unauthorized)
            }
        },
        _ => Ok(()),
    }
}

/// Law: every superuser-only operation is denied whenever the acting
/// identity is not the superuser, whatever the identity is.
pub proof fn lemma_superuser_only_denied(acting_id: int, op: AdminOp)
    requires
        superuser_only(op),
        acting_id != SUPERUSER_ID as int,
    ensures
        !allowed(acting_id, op),
{
}

} // verus!
