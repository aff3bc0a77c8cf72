use admin_accounts::api::{
    IdQuery, NewAdmin, PublicApi, QueryEntries, ResetPassword, UpdateAccesses, UpdateMeta,
    UpdatePassword,
};
use admin_accounts::{AdminStore, ApiError};

fn strings(v: &[&str]) -> Vec<String> {
    v.iter().map(|s| s.to_string()).collect()
}

fn creation(name: &str, email: &str, password: &str, confirm: &str, accesses: &[&str]) -> NewAdmin {
    NewAdmin {
        name: name.to_string(),
        email: email.to_string(),
        phone_num: "+15550100".to_string(),
        password: password.to_string(),
        confirm_password: confirm.to_string(),
        accesses: strings(accesses),
    }
}

fn seeded() -> AdminStore {
    let mut store = AdminStore::new();
    PublicApi::add_admin(&mut store, 1, creation("Root", "root@x.com", "rootpw", "rootpw", &[]))
        .unwrap();
    PublicApi::add_admin(
        &mut store,
        1,
        creation("Ann", "a@b.com", "secret1", "secret1", &["read", "write"]),
    )
    .unwrap();
    store
}

#[test]
fn creation_assigns_incrementing_ids_and_normalized_labels() {
    let mut store = AdminStore::new();
    let root = PublicApi::add_admin(
        &mut store,
        1,
        creation("Root", "root@x.com", "rootpw", "rootpw", &[]),
    )
    .unwrap();
    assert_eq!(root.id, 1);
    let ann = PublicApi::add_admin(
        &mut store,
        1,
        creation("Ann", "a@b.com", "secret1", "secret1", &["write", "read", "write"]),
    )
    .unwrap();
    assert_eq!(ann.id, 2);
    assert_eq!(ann.meta, strings(&["access.read", "access.write"]));
    assert_eq!(ann.email, "a@b.com".to_string());
}

#[test]
fn mismatched_confirmation_gives_param_error_and_no_account() {
    let mut store = AdminStore::new();
    let r = PublicApi::add_admin(
        &mut store,
        1,
        creation("Somebody", "s@x.com", "abc123", "abc456", &[]),
    );
    assert!(matches!(r, Err(ApiError::ParamError)));
    assert_eq!(PublicApi::admin_count(&store), 0);
}

#[test]
fn invalid_input_is_rejected_before_any_store_access() {
    let mut store = AdminStore::new();
    let r = PublicApi::add_admin(&mut store, 1, creation("Ab", "s@x.com", "abc123", "abc123", &[]));
    assert!(matches!(r, Err(ApiError::ValidationFailed)));
    let r = PublicApi::add_admin(
        &mut store,
        1,
        creation("Somebody", "not-an-email", "abc123", "abc123", &[]),
    );
    assert!(matches!(r, Err(ApiError::ValidationFailed)));
    let r = PublicApi::add_admin(&mut store, 1, creation("Somebody", "s@x.com", "abc", "abc", &[]));
    assert!(matches!(r, Err(ApiError::ValidationFailed)));
    assert_eq!(PublicApi::admin_count(&store), 0);
}

#[test]
fn non_superuser_cannot_create() {
    let mut store = AdminStore::new();
    let r = PublicApi::add_admin(&mut store, 2, creation("Bob", "b@x.com", "abc123", "abc123", &[]));
    assert!(matches!(r, Err(ApiError::Unauthorized)));
    assert_eq!(PublicApi::admin_count(&store), 0);
}

#[test]
fn duplicate_email_is_rejected() {
    let mut store = seeded();
    let r = PublicApi::add_admin(&mut store, 1, creation("Twin", "a@b.com", "abc123", "abc123", &[]));
    assert!(matches!(r, Err(ApiError::DuplicateEmail)));
    assert_eq!(PublicApi::admin_count(&store), 2);
}

#[test]
fn exhausted_id_space_reports_store_error() {
    let mut store = AdminStore { accounts: Vec::new(), tokens: Vec::new(), next_id: i64::MAX };
    let r = PublicApi::add_admin(&mut store, 1, creation("Late", "l@x.com", "abc123", "abc123", &[]));
    assert!(matches!(r, Err(ApiError::StoreError)));
}

#[test]
fn listing_excludes_the_reserved_account_but_counts_it() {
    let mut store = seeded();
    PublicApi::add_admin(&mut store, 1, creation("Cid", "c@d.com", "secret2", "secret2", &[]))
        .unwrap();
    let res = PublicApi::list_admin(&store, 1, QueryEntries { offset: 0, limit: 10 }).unwrap();
    let ids: Vec<i64> = res.entries.iter().map(|a| a.id).collect();
    assert_eq!(ids, vec![2, 3]);
    assert!(!ids.contains(&1));
    // the count is the store-wide total, so it exceeds the listing by one
    // (the reserved account): the documented discrepancy.
    assert_eq!(res.count, 3);
    assert_eq!(res.entries.len(), 2);
}

#[test]
fn listing_authorization_uses_at_most_one() {
    let store = seeded();
    assert!(PublicApi::list_admin(&store, 0, QueryEntries { offset: 0, limit: 10 }).is_ok());
    let r = PublicApi::list_admin(&store, 2, QueryEntries { offset: 0, limit: 10 });
    assert!(matches!(r, Err(ApiError::Unauthorized)));
}

#[test]
fn listing_pages_in_storage_order() {
    let mut store = seeded();
    PublicApi::add_admin(&mut store, 1, creation("Cid", "c@d.com", "secret2", "secret2", &[]))
        .unwrap();
    let res = PublicApi::list_admin(&store, 1, QueryEntries { offset: 2, limit: 5 }).unwrap();
    let ids: Vec<i64> = res.entries.iter().map(|a| a.id).collect();
    assert_eq!(ids, vec![3]);
    let res = PublicApi::list_admin(&store, 1, QueryEntries { offset: 9, limit: 5 }).unwrap();
    assert!(res.entries.is_empty());
}

#[test]
fn detail_returns_the_record_or_not_found() {
    let store = seeded();
    let a = PublicApi::admin_detail(&store, IdQuery { id: 2 }).unwrap();
    assert_eq!(a.name, "Ann".to_string());
    assert_eq!(a.email, "a@b.com".to_string());
    let r = PublicApi::admin_detail(&store, IdQuery { id: 99 });
    assert!(matches!(r, Err(ApiError::NotFound)));
}

#[test]
fn me_info_returns_the_acting_record() {
    let store = seeded();
    let acting = PublicApi::admin_detail(&store, IdQuery { id: 2 }).unwrap();
    let me = PublicApi::me_info(&acting);
    assert_eq!(me.id, acting.id);
    assert_eq!(me.email, acting.email);
    assert_eq!(me.meta, acting.meta);
}

#[test]
fn update_meta_replaces_the_whole_list() {
    let mut store = seeded();
    PublicApi::update_meta(
        &mut store,
        1,
        UpdateMeta { id: 2, meta: strings(&["note", "access.ops"]) },
    )
    .unwrap();
    let a = PublicApi::admin_detail(&store, IdQuery { id: 2 }).unwrap();
    assert_eq!(a.meta, strings(&["note", "access.ops"]));
    let r = PublicApi::update_meta(&mut store, 2, UpdateMeta { id: 2, meta: strings(&[]) });
    assert!(matches!(r, Err(ApiError::Unauthorized)));
    let r = PublicApi::update_meta(&mut store, 1, UpdateMeta { id: 42, meta: strings(&[]) });
    assert!(matches!(r, Err(ApiError::NotFound)));
}

#[test]
fn update_accesses_strips_then_appends_in_request_order() {
    let mut store = seeded();
    PublicApi::update_meta(
        &mut store,
        1,
        UpdateMeta { id: 2, meta: strings(&["keep", "access.old", "other"]) },
    )
    .unwrap();
    PublicApi::update_accesses(
        &mut store,
        1,
        UpdateAccesses { id: 2, accesses: strings(&["z", "a"]) },
    )
    .unwrap();
    let a = PublicApi::admin_detail(&store, IdQuery { id: 2 }).unwrap();
    assert_eq!(a.meta, strings(&["keep", "other", "access.z", "access.a"]));
}

#[test]
fn non_superuser_update_accesses_is_unauthorized_and_changes_nothing() {
    let mut store = seeded();
    let before = PublicApi::admin_detail(&store, IdQuery { id: 2 }).unwrap();
    let r = PublicApi::update_accesses(
        &mut store,
        2,
        UpdateAccesses { id: 2, accesses: strings(&["x"]) },
    );
    assert!(matches!(r, Err(ApiError::Unauthorized)));
    let after = PublicApi::admin_detail(&store, IdQuery { id: 2 }).unwrap();
    assert_eq!(before.meta, after.meta);
}

#[test]
fn update_password_needs_matching_confirmation_and_superuser() {
    let mut store = seeded();
    let r = PublicApi::update_password(
        &mut store,
        1,
        UpdatePassword {
            id: 2,
            password: "newpass".to_string(),
            password_confm: "other".to_string(),
        },
    );
    assert!(matches!(r, Err(ApiError::ParamError)));
    let r = PublicApi::update_password(
        &mut store,
        2,
        UpdatePassword {
            id: 2,
            password: "newpass".to_string(),
            password_confm: "newpass".to_string(),
        },
    );
    assert!(matches!(r, Err(ApiError::Unauthorized)));
    PublicApi::update_password(
        &mut store,
        1,
        UpdatePassword {
            id: 2,
            password: "newpass".to_string(),
            password_confm: "newpass".to_string(),
        },
    )
    .unwrap();
    let a = PublicApi::admin_detail(&store, IdQuery { id: 2 }).unwrap();
    assert_eq!(a.password_hash, "newpass".to_string());
}

#[test]
fn delete_removes_the_account() {
    let mut store = seeded();
    PublicApi::delete_admin(&mut store, IdQuery { id: 2 }).unwrap();
    assert!(matches!(
        PublicApi::admin_detail(&store, IdQuery { id: 2 }),
        Err(ApiError::NotFound)
    ));
    assert!(matches!(
        PublicApi::delete_admin(&mut store, IdQuery { id: 2 }),
        Err(ApiError::NotFound)
    ));
    assert_eq!(PublicApi::admin_count(&store), 1);
}

fn reset_query(email: &str, token: Option<&str>, password: Option<&str>) -> ResetPassword {
    ResetPassword {
        email: email.to_string(),
        token: token.map(|s| s.to_string()),
        password: password.map(|s| s.to_string()),
    }
}

#[test]
fn reset_request_then_verify_is_repeatable_and_rejects_wrong_tokens() {
    let mut store = seeded();
    PublicApi::reset_password(&mut store, &reset_query("a@b.com", None, None), "tok-1".to_string())
        .unwrap();
    let r = PublicApi::reset_password_verify(&store, &reset_query("a@b.com", Some("wrong"), None));
    assert!(matches!(r, Err(ApiError::TokenInvalid)));
    PublicApi::reset_password_verify(&store, &reset_query("a@b.com", Some("tok-1"), None)).unwrap();
    // verification does not consume the token
    PublicApi::reset_password_verify(&store, &reset_query("a@b.com", Some("tok-1"), None)).unwrap();
}

#[test]
fn reset_request_for_unknown_email_is_not_found() {
    let mut store = seeded();
    let r = PublicApi::reset_password(
        &mut store,
        &reset_query("nobody@b.com", None, None),
        "tok".to_string(),
    );
    assert!(matches!(r, Err(ApiError::NotFound)));
    let r = PublicApi::reset_password(
        &mut store,
        &reset_query("not-an-email", None, None),
        "tok".to_string(),
    );
    assert!(matches!(r, Err(ApiError::ValidationFailed)));
}

#[test]
fn verify_without_token_is_a_param_error() {
    let mut store = seeded();
    PublicApi::reset_password(&mut store, &reset_query("a@b.com", None, None), "tok".to_string())
        .unwrap();
    let r = PublicApi::reset_password_verify(&store, &reset_query("a@b.com", None, None));
    assert!(matches!(r, Err(ApiError::ParamError)));
}

#[test]
fn reissuing_a_token_overwrites_the_pending_one() {
    let mut store = seeded();
    PublicApi::reset_password(&mut store, &reset_query("a@b.com", None, None), "tok-1".to_string())
        .unwrap();
    PublicApi::reset_password(&mut store, &reset_query("a@b.com", None, None), "tok-2".to_string())
        .unwrap();
    let r = PublicApi::reset_password_verify(&store, &reset_query("a@b.com", Some("tok-1"), None));
    assert!(matches!(r, Err(ApiError::TokenInvalid)));
    PublicApi::reset_password_verify(&store, &reset_query("a@b.com", Some("tok-2"), None)).unwrap();
}

#[test]
fn complete_reset_sets_the_password_and_removes_the_token() {
    let mut store = seeded();
    PublicApi::reset_password(&mut store, &reset_query("a@b.com", None, None), "tok-1".to_string())
        .unwrap();
    PublicApi::set_new_password(&mut store, reset_query("a@b.com", Some("tok-1"), Some("newpass")))
        .unwrap();
    let a = PublicApi::admin_detail(&store, IdQuery { id: 2 }).unwrap();
    assert_eq!(a.password_hash, "newpass".to_string());
    // the token is no longer pending
    let r = PublicApi::reset_password_verify(&store, &reset_query("a@b.com", Some("tok-1"), None));
    assert!(matches!(r, Err(ApiError::TokenInvalid)));
}

#[test]
fn complete_reset_fails_closed() {
    let mut store = seeded();
    PublicApi::reset_password(&mut store, &reset_query("a@b.com", None, None), "tok-1".to_string())
        .unwrap();
    let r = PublicApi::set_new_password(
        &mut store,
        reset_query("a@b.com", Some("wrong"), Some("newpass")),
    );
    assert!(matches!(r, Err(ApiError::TokenInvalid)));
    let r = PublicApi::set_new_password(&mut store, reset_query("a@b.com", Some("tok-1"), None));
    assert!(matches!(r, Err(ApiError::ParamError)));
    let r = PublicApi::set_new_password(&mut store, reset_query("a@b.com", None, Some("newpass")));
    assert!(matches!(r, Err(ApiError::ParamError)));
    // the password is untouched and the token still pending
    let a = PublicApi::admin_detail(&store, IdQuery { id: 2 }).unwrap();
    assert_eq!(a.password_hash, "secret1".to_string());
    PublicApi::reset_password_verify(&store, &reset_query("a@b.com", Some("tok-1"), None)).unwrap();
}
