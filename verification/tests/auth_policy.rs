use admin_accounts::{authorize, AdminOp, ApiError};

#[test]
fn superuser_only_operations_require_id_one() {
    let ops = [
        AdminOp::CreateAdmin,
        AdminOp::UpdateAccesses,
        AdminOp::UpdateMeta,
        AdminOp::UpdatePassword,
    ];
    for op in ops {
        assert!(authorize(1, op).is_ok());
        for id in [0i64, 2, 3, -5, i64::MAX] {
            assert!(matches!(authorize(id, op), Err(ApiError::Unauthorized)));
        }
    }
}

#[test]
fn listing_passes_any_id_at_most_one() {
    assert!(authorize(1, AdminOp::ListAdmins).is_ok());
    assert!(authorize(0, AdminOp::ListAdmins).is_ok());
    assert!(authorize(-1, AdminOp::ListAdmins).is_ok());
    assert!(matches!(authorize(2, AdminOp::ListAdmins), Err(ApiError::Unauthorized)));
}

#[test]
fn read_delete_and_reset_operations_pass_any_identity() {
    let ops = [
        AdminOp::Count,
        AdminOp::Detail,
        AdminOp::SelfInfo,
        AdminOp::DeleteAdmin,
        AdminOp::RequestReset,
        AdminOp::VerifyReset,
        AdminOp::CompleteReset,
    ];
    for op in ops {
        for id in [1i64, 2, 0, -3, 77] {
            assert!(authorize(id, op).is_ok());
        }
    }
}

#[test]
fn error_kinds_carry_messages() {
    assert!(!ApiError::Unauthorized.message().is_empty());
    assert!(!ApiError::NotFound.message().is_empty());
    assert!(!ApiError::ValidationFailed.message().is_empty());
    assert!(!ApiError::ParamError.message().is_empty());
    assert!(!ApiError::TokenInvalid.message().is_empty());
    assert!(!ApiError::DuplicateEmail.message().is_empty());
    assert!(!ApiError::StoreError.message().is_empty());
}
