//! The administrative operations: each takes the acting identity and the
//! store handle explicitly, consults the authorization policy first, and on
//! approval performs its semantic work through the label codec, the
//! credential store and the reset-token state machine.

use vstd::prelude::*;
use crate::auth::{authorize, AdminOp, ApiError};
use crate::labels::{
    label_of, label_set, strictly_sorted, strip_spec, to_labels, replace_access_labels, views_of,
};
use crate::store::{page, same_account, Account, AdminStore};
use crate::valid::{check_email, is_valid_email};

verus! {

/// Creation request for a new administrator account.
pub struct NewAdmin {
    pub name: String,
    pub email: String,
    pub phone_num: String,
    pub password: String,
    pub confirm_password: String,
    /// Raw permission names; stored as normalized `access.<name>` labels.
    pub accesses: Vec<String>,
}

/// Activation request (token-based), carried for the transport layer.
pub struct ActivateAdmin {
    pub phone_num: String,
    pub password: String,
    pub token: String,
}

/// Set a password by account id.
pub struct UpdatePassword {
    pub id: i64,
    pub password: String,
    pub password_confm: String,
}

/// Replace the access labels of an account.
pub struct UpdateAccesses {
    pub id: i64,
    pub accesses: Vec<String>,
}

/// Replace the whole metadata list of an account.
pub struct UpdateMeta {
    pub id: i64,
    pub meta: Vec<String>,
}

/// Paging parameters for listings.
pub struct QueryEntries {
    pub offset: usize,
    pub limit: usize,
}

/// A target account chosen by id.
pub struct IdQuery {
    pub id: i64,
}

/// Password-reset request: the account's email, and, for the verify and
/// complete steps, the token and the new password.
pub struct ResetPassword {
    pub email: String,
    pub token: Option<String>,
    pub password: Option<String>,
}

/// A page of accounts together with the store-wide count.
pub struct EntriesResult {
    pub count: usize,
    pub entries: Vec<Account>,
}

/// The input-format conditions a creation request must meet: name of 3 to
/// 500 characters, a valid email, password and confirmation of 6 to 500
/// characters each.
pub open spec fn valid_new_admin(q: NewAdmin) -> bool {
    &&& 3 <= q.name@.len() <= 500
    &&& is_valid_email(q.email@)
    &&& 6 <= q.password@.len() <= 500
    &&& 6 <= q.confirm_password@.len() <= 500
}

impl NewAdmin {
    /// Check the request's input format, before any store access.
    pub fn validate(&self) -> (r: Result<(), ApiError>)
        ensures
            r is Ok <==> valid_new_admin(*self),
            r is Err ==> r == Result::<(), ApiError>::Err(ApiError::ValidationFailed),
    {
        let nlen: usize = self.name.as_str().unicode_len();
        if nlen < 3 || nlen > 500 {
            return Err(ApiError::ValidationFailed);
        }
        if !check_email(self.email.as_str()) {
            return Err(ApiError::ValidationFailed);
        }
        let plen: usize = self.password.as_str().unicode_len();
        if plen < 6 || plen > 500 {
            return Err(ApiError::ValidationFailed);
        }
        let clen: usize = self.confirm_password.as_str().unicode_len();
        if clen < 6 || clen > 500 {
            return Err(ApiError::ValidationFailed);
        }
        Ok(())
    }
}

impl ResetPassword {
    /// Check the request's input format: the email must be valid.
    pub fn validate(&self) -> (r: Result<(), ApiError>)
        ensures
            r is Ok <==> is_valid_email(self.email@),
            r is Err ==> r == Result::<(), ApiError>::Err(ApiError::ValidationFailed),
    {
        if !check_email(self.email.as_str()) {
            return Err(ApiError::ValidationFailed);
        }
        Ok(())
    }
}

/// The accounts a listing shows: every stored account whose id is above the
/// reserved superuser id, in storage order.
pub open spec fn visible(s: Seq<Account>) -> Seq<Account>
    decreases s.len(),
{
    if s.len() == 0 {
        Seq::empty()
    } else if s[0].id > 1 {
        seq![s[0]] + visible(s.drop_first())
    } else {
        visible(s.drop_first())
    }
}

proof fn lemma_visible_push(s: Seq<Account>, x: Account)
    ensures
        visible(s.push(x)) == visible(s) + (if x.id > 1 {
            seq![x]
        } else {
            Seq::<Account>::empty()
        }),
    decreases s.len(),
{
    let ghost tail: Seq<Account> = if x.id > 1 {
        seq![x]
    } else {
        Seq::empty()
    };
    if s.len() == 0 {
        assert(s.push(x)[0] == x);
        assert(s.push(x).drop_first() =~= Seq::<Account>::empty());
        assert(visible(Seq::<Account>::empty()) =~= Seq::<Account>::empty());
        assert(visible(s) =~= Seq::<Account>::empty());
        if x.id > 1 {
            assert(visible(s.push(x)) == seq![x] + visible(s.push(x).drop_first()));
            assert(visible(s.push(x)) =~= visible(s) + tail);
        } else {
            assert(visible(s.push(x)) == visible(s.push(x).drop_first()));
            assert(visible(s.push(x)) =~= visible(s) + tail);
        }
    } else {
        assert(s.push(x)[0] == s[0]);
        assert(s.push(x).drop_first() =~= s.drop_first().push(x));
        lemma_visible_push(s.drop_first(), x);
        if s[0].id > 1 {
            assert(seq![s[0]] + (visible(s.drop_first()) + tail) =~= (seq![s[0]] + visible(
                s.drop_first(),
            )) + tail);
        }
    }
}

/// Law: a listing never shows the reserved account: every entry it keeps
/// has id above 1.
pub proof fn lemma_visible_ids(s: Seq<Account>)
    ensures
        forall|i: int| 0 <= i < visible(s).len() ==> (#[trigger] visible(s)[i]).id > 1,
    decreases s.len(),
{
    if s.len() > 0 {
        lemma_visible_ids(s.drop_first());
        if s[0].id > 1 {
            assert forall|i: int| 0 <= i < visible(s).len() implies (#[trigger] visible(
                s,
            )[i]).id > 1 by {
                if i > 0 {
                    assert(visible(s)[i] == visible(s.drop_first())[i - 1]);
                }
            };
        }
    }
}

/// Law: the store-wide count and the listing filter agree exactly when no
/// stored account has id at or below the reserved id; otherwise the count
/// the module reports exceeds the number of accounts a full listing shows.
pub proof fn lemma_count_listing_consistency(s: Seq<Account>)
    ensures
        visible(s).len() <= s.len(),
        visible(s).len() == s.len() <==> (forall|i: int|
            0 <= i < s.len() ==> (#[trigger] s[i]).id > 1),
    decreases s.len(),
{
    if s.len() > 0 {
        lemma_count_listing_consistency(s.drop_first());
        assert(forall|i: int|
            0 <= i < s.drop_first().len() ==> #[trigger] s.drop_first()[i] == s[i + 1]);
        if visible(s).len() == s.len() {
            assert(s[0].id > 1);
            assert forall|i: int| 0 <= i < s.len() implies (#[trigger] s[i]).id > 1 by {
                if i > 0 {
                    assert(s.drop_first()[i - 1] == s[i]);
                }
            };
        }
        if forall|i: int| 0 <= i < s.len() ==> (#[trigger] s[i]).id > 1 {
            assert(s[0].id > 1);
        }
    }
}

/// Holder for the public administrative API endpoints.
pub struct PublicApi;

impl PublicApi {
    /// Create a new administrator account: input format first, then the
    /// password confirmation, then the superuser gate; the requested
    /// permission names are stored as normalized access labels.
    pub fn add_admin(store: &mut AdminStore, acting_id: i64, query: NewAdmin) -> (r: Result<
        Account,
        ApiError,
    >)
        requires
            old(store).wf(),
        ensures
            final(store).wf(),
            !valid_new_admin(query) ==> r == Result::<Account, ApiError>::Err(
                ApiError::ValidationFailed,
            ) && *old(store) == *final(store),
            valid_new_admin(query) && query.password@ != query.confirm_password@ ==> r
                == Result::<Account, ApiError>::Err(ApiError::ParamError) && *old(store) == *final(store),
            valid_new_admin(query) && query.password@ == query.confirm_password@ && acting_id != 1
                ==> r == Result::<Account, ApiError>::Err(ApiError::Unauthorized) && *old(store) == *final(store),
            valid_new_admin(query) && query.password@ == query.confirm_password@ && acting_id == 1
                && old(store).has_email(query.email@) ==> r == Result::<Account, ApiError>::Err(
                ApiError::DuplicateEmail,
            ) && *old(store) == *final(store),
            valid_new_admin(query) && query.password@ == query.confirm_password@ && acting_id == 1
                && !old(store).has_email(query.email@) && old(store).fresh_id() == i64::MAX as int
                ==> r == Result::<Account, ApiError>::Err(ApiError::StoreError) && *old(store)
                == *final(store),
            r is Ok <==> (valid_new_admin(query) && query.password@ == query.confirm_password@
                && acting_id == 1 && !old(store).has_email(query.email@) && old(store).fresh_id()
                < i64::MAX as int),
            r matches Ok(a) ==> {
                &&& a.id as int == old(store).fresh_id()
                &&& a.name@ == query.name@
                &&& a.email@ == query.email@
                &&& a.phone_num@ == query.phone_num@
                &&& a.password_hash@ == query.password@
                &&& strictly_sorted(a.meta@)
                &&& views_of(a.meta@) == label_set(query.accesses@)
                &&& final(store).accounts_seq().len() == old(store).accounts_seq().len() + 1
                &&& forall|j: int|
                    0 <= j < old(store).accounts_seq().len() ==> final(store).accounts_seq()[j]
                        == old(store).accounts_seq()[j]
                &&& same_account(
                    final(store).accounts_seq()[old(store).accounts_seq().len() as int],
                    a,
                )
                &&& final(store).fresh_id() == old(store).fresh_id() + 1
                &&& final(store).tokens_seq() == old(store).tokens_seq()
            },
    {
        if let Err(e) = query.validate() {
            return Err(e);
        }
        if !(query.password == query.confirm_password) {
            return Err(ApiError::ParamError);
        }
        if let Err(e) = authorize(acting_id, AdminOp::CreateAdmin) {
            return Err(e);
        }
        let labels = to_labels(&query.accesses);
        store.create(query.name, query.email, query.phone_num, query.password, labels)
    }

    /// Replace the access labels of the target account: superuser-only; the
    /// target's non-access metadata is kept in order and one label is
    /// appended per requested name, in the requested order.
    pub fn update_accesses(store: &mut AdminStore, acting_id: i64, query: UpdateAccesses) -> (r:
        Result<(), ApiError>)
        requires
            old(store).wf(),
        ensures
            final(store).wf(),
            acting_id != 1 ==> r == Result::<(), ApiError>::Err(ApiError::Unauthorized) && *old(store) == *final(store),
            acting_id == 1 && !old(store).has_id(query.id as int) ==> r == Result::<
                (),
                ApiError,
            >::Err(ApiError::NotFound) && *old(store) == *final(store),
            r is Ok <==> acting_id == 1 && old(store).has_id(query.id as int),
            r is Ok ==> {
                let k = old(store).idx_of(query.id as int);
                let a = old(store).accounts_seq()[k];
                let newmeta = final(store).accounts_seq()[k].meta@;
                &&& final(store).accounts_seq() == old(store).accounts_seq().update(
                    k,
                    final(store).accounts_seq()[k],
                )
                &&& final(store).accounts_seq()[k].id == a.id
                &&& final(store).accounts_seq()[k].name@ == a.name@
                &&& final(store).accounts_seq()[k].email@ == a.email@
                &&& final(store).accounts_seq()[k].phone_num@ == a.phone_num@
                &&& final(store).accounts_seq()[k].password_hash@ == a.password_hash@
                &&& newmeta.len() == strip_spec(a.meta@).len() + query.accesses@.len()
                &&& forall|i: int|
                    0 <= i < strip_spec(a.meta@).len() ==> newmeta[i] == strip_spec(a.meta@)[i]
                &&& forall|j: int|
                    0 <= j < query.accesses@.len() ==> newmeta[strip_spec(a.meta@).len() + j]@
                        == label_of(query.accesses@[j]@)
                &&& final(store).tokens_seq() == old(store).tokens_seq()
                &&& final(store).fresh_id() == old(store).fresh_id()
            },
    {
        if let Err(e) = authorize(acting_id, AdminOp::UpdateAccesses) {
            return Err(e);
        }
        let admin = match store.get_by_id(query.id) {
            Ok(a) => a,
            Err(e) => {
                return Err(e);
            },
        };
        let meta = replace_access_labels(&admin.meta, &query.accesses);
        store.update_meta(query.id, meta)
    }

    /// Replace the whole metadata list of the target account:
    /// superuser-only.
    pub fn update_meta(store: &mut AdminStore, acting_id: i64, query: UpdateMeta) -> (r: Result<
        (),
        ApiError,
    >)
        requires
            old(store).wf(),
        ensures
            final(store).wf(),
            acting_id != 1 ==> r == Result::<(), ApiError>::Err(ApiError::Unauthorized) && *old(store) == *final(store),
            acting_id == 1 && !old(store).has_id(query.id as int) ==> r == Result::<
                (),
                ApiError,
            >::Err(ApiError::NotFound) && *old(store) == *final(store),
            r is Ok <==> acting_id == 1 && old(store).has_id(query.id as int),
            r is Ok ==> {
                let k = old(store).idx_of(query.id as int);
                let a = old(store).accounts_seq()[k];
                &&& final(store).accounts_seq() == old(store).accounts_seq().update(
                    k,
                    final(store).accounts_seq()[k],
                )
                &&& final(store).accounts_seq()[k].id == a.id
                &&& final(store).accounts_seq()[k].name@ == a.name@
                &&& final(store).accounts_seq()[k].email@ == a.email@
                &&& final(store).accounts_seq()[k].phone_num@ == a.phone_num@
                &&& final(store).accounts_seq()[k].password_hash@ == a.password_hash@
                &&& final(store).accounts_seq()[k].meta@ == query.meta@
                &&& final(store).tokens_seq() == old(store).tokens_seq()
                &&& final(store).fresh_id() == old(store).fresh_id()
            },
    {
        if let Err(e) = authorize(acting_id, AdminOp::UpdateMeta) {
            return Err(e);
        }
        match store.get_by_id(query.id) {
            Ok(_) => (),
            Err(e) => {
                return Err(e);
            },
        }
        store.update_meta(query.id, query.meta)
    }

    /// List accounts, paged: only an acting id at most the reserved id may
    /// list; the reserved account itself (and any id at or below 1) never
    /// appears among the entries, while the returned count is the store-wide
    /// total, the reserved account included.
    pub fn list_admin(store: &AdminStore, acting_id: i64, query: QueryEntries) -> (r: Result<
        EntriesResult,
        ApiError,
    >)
        requires
            store.wf(),
        ensures
            r is Ok <==> acting_id <= 1,
            acting_id > 1 ==> r == Result::<EntriesResult, ApiError>::Err(ApiError::Unauthorized),
            r matches Ok(res) ==> {
                let shown = visible(
                    page(store.accounts_seq(), query.offset as int, query.limit as int),
                );
                &&& res.count == store.accounts_seq().len()
                &&& res.entries@.len() == shown.len()
                &&& forall|i: int|
                    0 <= i < shown.len() ==> same_account(#[trigger] res.entries@[i], shown[i])
                &&& forall|i: int| 0 <= i < res.entries@.len() ==> (#[trigger] res.entries@[i]).id
                    > 1
            },
    {
        if let Err(e) = authorize(acting_id, AdminOp::ListAdmins) {
            return Err(e);
        }
        let pg = store.list_page(query.offset, query.limit);
        let ghost pseq = page(store.accounts_seq(), query.offset as int, query.limit as int);
        let mut entries: Vec<Account> = Vec::new();
        let mut k: usize = 0;
        proof {
            assert(pseq.take(0) =~= Seq::<Account>::empty());
        }
        while k < pg.len()
            invariant
                pg@.len() == pseq.len(),
                forall|i: int| 0 <= i < pg@.len() ==> same_account(#[trigger] pg@[i], pseq[i]),
                k <= pg@.len(),
                entries@.len() == visible(pseq.take(k as int)).len(),
                forall|i: int|
                    0 <= i < entries@.len() ==> same_account(
                        #[trigger] entries@[i],
                        visible(pseq.take(k as int))[i],
                    ),
            decreases pg@.len() - k,
        {
            proof {
                lemma_visible_push(pseq.take(k as int), pseq[k as int]);
                assert(pseq.take(k as int).push(pseq[k as int]) =~= pseq.take(k as int + 1));
            }
            if pg[k].id > 1 {
                let a = pg[k].duplicate();
                entries.push(a);
                proof {
                    assert(pseq[k as int].id > 1);
                    assert(visible(pseq.take(k as int + 1)) == visible(pseq.take(k as int))
                        + seq![pseq[k as int]]);
                }
            } else {
                proof {
                    assert(pseq[k as int].id <= 1);
                    assert(visible(pseq.take(k as int)) + Seq::<Account>::empty() =~= visible(
                        pseq.take(k as int),
                    ));
                }
            }
            k = k + 1;
        }
        proof {
            assert(pseq.take(pseq.len() as int) =~= pseq);
            lemma_visible_ids(pseq);
        }
        let count = store.count();
        Ok(EntriesResult { count, entries })
    }

    /// The store-wide account count; open to any authenticated identity.
    pub fn admin_count(store: &AdminStore) -> (r: usize)
        ensures
            r == store.accounts_seq().len(),
    {
        store.count()
    }

    /// Read one account by id; open to any authenticated identity.
    pub fn admin_detail(store: &AdminStore, query: IdQuery) -> (r: Result<Account, ApiError>)
        requires
            store.wf(),
        ensures
            r is Ok <==> store.has_id(query.id as int),
            r matches Ok(a) ==> same_account(a, store.account_of(query.id as int)) && a.id
                == query.id,
            r is Err ==> r == Result::<Account, ApiError>::Err(ApiError::NotFound),
    {
        store.get_by_id(query.id)
    }

    /// Delete an account by id; open to any authenticated identity (no
    /// superuser gate on this path).
    pub fn delete_admin(store: &mut AdminStore, query: IdQuery) -> (r: Result<(), ApiError>)
        requires
            old(store).wf(),
        ensures
            final(store).wf(),
            r is Ok <==> old(store).has_id(query.id as int),
            r is Err ==> r == Result::<(), ApiError>::Err(ApiError::NotFound) && *old(store) == *final(store),
            r is Ok ==> {
                &&& final(store).accounts_seq() == old(store).accounts_seq().remove(
                    old(store).idx_of(query.id as int),
                )
                &&& !final(store).has_id(query.id as int)
                &&& final(store).fresh_id() == old(store).fresh_id()
                &&& forall|t: Seq<char>| !final(store).has_pending_token(query.id as int, t)
                &&& forall|id2: int, t: Seq<char>|
                    id2 != query.id as int ==> (final(store).has_pending_token(id2, t) <==> old(
                        store,
                    ).has_pending_token(id2, t))
            },
    {
        store.delete_by_id(query.id)
    }

    /// The acting identity's own record.
    pub fn me_info(acting: &Account) -> (r: Account)
        ensures
            same_account(r, *acting),
    {
        acting.duplicate()
    }

    /// Ask for a password reset: look the account up by email and bind the
    /// freshly generated token to it, overwriting any token already pending
    /// (dispatching the token to its owner is the notification
    /// collaborator's work).
    pub fn reset_password(store: &mut AdminStore, query: &ResetPassword, fresh_token: String) -> (r:
        Result<(), ApiError>)
        requires
            old(store).wf(),
        ensures
            final(store).wf(),
            !is_valid_email(query.email@) ==> r == Result::<(), ApiError>::Err(
                ApiError::ValidationFailed,
            ) && *old(store) == *final(store),
            is_valid_email(query.email@) && !old(store).has_email(query.email@) ==> r == Result::<
                (),
                ApiError,
            >::Err(ApiError::NotFound) && *old(store) == *final(store),
            r is Ok <==> is_valid_email(query.email@) && old(store).has_email(query.email@),
            r is Ok ==> {
                let aid = old(store).account_by_email(query.email@).id as int;
                &&& final(store).accounts_seq() == old(store).accounts_seq()
                &&& final(store).fresh_id() == old(store).fresh_id()
                &&& final(store).has_pending_token(aid, fresh_token@)
                &&& forall|t: Seq<char>|
                    final(store).has_pending_token(aid, t) ==> t == fresh_token@
                &&& forall|id2: int, t: Seq<char>|
                    id2 != aid ==> (final(store).has_pending_token(id2, t) <==> old(
                        store,
                    ).has_pending_token(id2, t))
            },
    {
        if let Err(e) = query.validate() {
            return Err(e);
        }
        let admin = match store.get_by_email(&query.email) {
            Ok(a) => a,
            Err(e) => {
                return Err(e);
            },
        };
        proof {
            assert(admin.id == old(store).account_by_email(query.email@).id);
        }
        store.set_token(admin.id, fresh_token);
        Ok(())
    }

    /// Verify a reset token: succeeds exactly when the account exists and
    /// this token is the one pending for it. Read-only, so verification can
    /// be repeated while the token stays pending.
    pub fn reset_password_verify(store: &AdminStore, query: &ResetPassword) -> (r: Result<
        (),
        ApiError,
    >)
        requires
            store.wf(),
        ensures
            !is_valid_email(query.email@) ==> r == Result::<(), ApiError>::Err(
                ApiError::ValidationFailed,
            ),
            is_valid_email(query.email@) && !store.has_email(query.email@) ==> r == Result::<
                (),
                ApiError,
            >::Err(ApiError::NotFound),
            is_valid_email(query.email@) && store.has_email(query.email@) && query.token is None
                ==> r == Result::<(), ApiError>::Err(ApiError::ParamError),
            r is Ok <==> (is_valid_email(query.email@) && store.has_email(query.email@) && (
            query.token matches Some(t) && store.has_pending_token(
                store.account_by_email(query.email@).id as int,
                t@,
            ))),
            is_valid_email(query.email@) && store.has_email(query.email@) && (
            query.token matches Some(t) && !store.has_pending_token(
                store.account_by_email(query.email@).id as int,
                t@,
            )) ==> r == Result::<(), ApiError>::Err(ApiError::TokenInvalid),
    {
        if let Err(e) = query.validate() {
            return Err(e);
        }
        let admin = match store.get_by_email(&query.email) {
            Ok(a) => a,
            Err(e) => {
                return Err(e);
            },
        };
        match &query.token {
            Some(token) => {
                if store.token_matches(admin.id, token) {
                    Ok(())
                } else {
                    Err(ApiError::TokenInvalid)
                }
            },
            None => Err(ApiError::ParamError),
        }
    }

    /// Complete a password reset: both the token and the new password must
    /// be present; the token is verified first (failing closed), then the
    /// password is set, then the token is removed.
    pub fn set_new_password(store: &mut AdminStore, query: ResetPassword) -> (r: Result<
        (),
        ApiError,
    >)
        requires
            old(store).wf(),
        ensures
            final(store).wf(),
            !is_valid_email(query.email@) ==> r == Result::<(), ApiError>::Err(
                ApiError::ValidationFailed,
            ) && *old(store) == *final(store),
            is_valid_email(query.email@) && !old(store).has_email(query.email@) ==> r == Result::<
                (),
                ApiError,
            >::Err(ApiError::NotFound) && *old(store) == *final(store),
            is_valid_email(query.email@) && old(store).has_email(query.email@) && (
            query.token is None || query.password is None) ==> r == Result::<(), ApiError>::Err(
                ApiError::ParamError,
            ) && *old(store) == *final(store),
            is_valid_email(query.email@) && old(store).has_email(query.email@)
                && query.token is Some && query.password is Some && !old(store).has_pending_token(
                old(store).account_by_email(query.email@).id as int,
                query.token->0@,
            ) ==> r == Result::<(), ApiError>::Err(ApiError::TokenInvalid) && *old(store) == *final(store),
            r is Ok <==> (is_valid_email(query.email@) && old(store).has_email(query.email@)
                && query.token is Some && query.password is Some && old(store).has_pending_token(
                old(store).account_by_email(query.email@).id as int,
                query.token->0@,
            )),
            r is Ok ==> {
                let k = old(store).email_idx(query.email@);
                let a = old(store).accounts_seq()[k];
                let aid = a.id as int;
                &&& final(store).accounts_seq() == old(store).accounts_seq().update(
                    k,
                    final(store).accounts_seq()[k],
                )
                &&& final(store).accounts_seq()[k].id == a.id
                &&& final(store).accounts_seq()[k].name@ == a.name@
                &&& final(store).accounts_seq()[k].email@ == a.email@
                &&& final(store).accounts_seq()[k].phone_num@ == a.phone_num@
                &&& final(store).accounts_seq()[k].password_hash@ == query.password->0@
                &&& final(store).accounts_seq()[k].meta@ == a.meta@
                &&& forall|t: Seq<char>| !final(store).has_pending_token(aid, t)
                &&& forall|id2: int, t: Seq<char>|
                    id2 != aid ==> (final(store).has_pending_token(id2, t) <==> old(
                        store,
                    ).has_pending_token(id2, t))
                &&& final(store).fresh_id() == old(store).fresh_id()
            },
    {
        if let Err(e) = query.validate() {
            return Err(e);
        }
        let admin = match store.get_by_email(&query.email) {
            Ok(a) => a,
            Err(e) => {
                return Err(e);
            },
        };
        proof {
            let k = old(store).email_idx(query.email@);
            assert(old(store).accounts_seq()[k].id == admin.id);
            assert(old(store).has_id(admin.id as int));
            let w = old(store).idx_of(admin.id as int);
            assert(0 <= w < old(store).accounts_seq().len() && old(store).accounts_seq()[w].id
                == admin.id);
            assert(w == k);
        }
        match (query.token, query.password) {
            (Some(token), Some(password)) => {
                if !store.token_matches(admin.id, &token) {
                    return Err(ApiError::TokenInvalid);
                }
                let ghost mid0 = *store;
                let set_r = store.set_password(admin.id, password);
                proof {
                    assert(set_r is Ok);
                }
                let ghost mid1 = *store;
                store.remove_token(admin.id);
                proof {
                    crate::store::lemma_same_tokens_same_pending(mid1, mid0);
                }
                Ok(())
            },
            _ => Err(ApiError::ParamError),
        }
    }

    /// Set the password of the account chosen by id: the confirmation must
    /// match, and only the superuser may do it.
    pub fn update_password(store: &mut AdminStore, acting_id: i64, query: UpdatePassword) -> (r:
        Result<(), ApiError>)
        requires
            old(store).wf(),
        ensures
            final(store).wf(),
            query.password@ != query.password_confm@ ==> r == Result::<(), ApiError>::Err(
                ApiError::ParamError,
            ) && *old(store) == *final(store),
            query.password@ == query.password_confm@ && acting_id != 1 ==> r == Result::<
                (),
                ApiError,
            >::Err(ApiError::Unauthorized) && *old(store) == *final(store),
            query.password@ == query.password_confm@ && acting_id == 1 && !old(store).has_id(
                query.id as int,
            ) ==> r == Result::<(), ApiError>::Err(ApiError::NotFound) && *old(store) == *final(store),
            r is Ok <==> query.password@ == query.password_confm@ && acting_id == 1 && old(
                store,
            ).has_id(query.id as int),
            r is Ok ==> {
                let k = old(store).idx_of(query.id as int);
                let a = old(store).accounts_seq()[k];
                &&& final(store).accounts_seq() == old(store).accounts_seq().update(
                    k,
                    final(store).accounts_seq()[k],
                )
                &&& final(store).accounts_seq()[k].id == a.id
                &&& final(store).accounts_seq()[k].name@ == a.name@
                &&& final(store).accounts_seq()[k].email@ == a.email@
                &&& final(store).accounts_seq()[k].phone_num@ == a.phone_num@
                &&& final(store).accounts_seq()[k].password_hash@ == query.password@
                &&& final(store).accounts_seq()[k].meta@ == a.meta@
                &&& final(store).tokens_seq() == old(store).tokens_seq()
                &&& final(store).fresh_id() == old(store).fresh_id()
            },
    {
        if !(query.password == query.password_confm) {
            return Err(ApiError::ParamError);
        }
        if let Err(e) = authorize(acting_id, AdminOp::UpdatePassword) {
            return Err(e);
        }
        store.set_password(query.id, query.password)
    }
}

/// Holder for the private administrative API endpoints (none are defined).
pub struct PrivateApi;

} // verus!
