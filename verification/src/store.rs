//! Credential store: accounts with identity, contact data, password hash and
//! metadata labels, plus the pending password-reset token bound to each
//! account. An in-memory model of the relational record store the module
//! works against; ids are assigned by an auto-incrementing counter, emails
//! are unique, and at most one reset token is pending per account.

use vstd::prelude::*;
use vstd::pervasive::VecAdditionalExecFns;
use crate::auth::ApiError;

verus! {

/// One administrator account record.
pub struct Account {
    /// Unique identity; id 1 is the reserved superuser.
    pub id: i64,
    pub name: String,
    pub email: String,
    pub phone_num: String,
    pub password_hash: String,
    /// Free-form metadata entries, holding access labels and other
    /// properties.
    pub meta: Vec<String>,
}

/// Two account records carry the same data (their owned strings may be
/// distinct allocations).
pub open spec fn same_account(a: Account, b: Account) -> bool {
    &&& a.id == b.id
    &&& a.name@ == b.name@
    &&& a.email@ == b.email@
    &&& a.phone_num@ == b.phone_num@
    &&& a.password_hash@ == b.password_hash@
    &&& a.meta@ == b.meta@
}

impl Account {
    /// Copy of the record, field for field.
    pub fn duplicate(&self) -> (r: Account)
        ensures
            same_account(r, *self),
    {
        let meta: Vec<String> = self.meta.clone();
        proof {
            assert(meta@ =~= self.meta@);
        }
        Account {
            id: self.id,
            name: self.name.clone(),
            email: self.email.clone(),
            phone_num: self.phone_num.clone(),
            password_hash: self.password_hash.clone(),
            meta,
        }
    }
}

/// The record store: the ordered account table, the pending reset tokens
/// (each bound to one account id), and the next identity to assign.
pub struct AdminStore {
    /// The account table, in storage order.
    pub accounts: Vec<Account>,
    /// Pending reset tokens, each bound to one account id.
    pub tokens: Vec<(i64, String)>,
    /// The identity the next created account will get.
    pub next_id: i64,
}

impl AdminStore {
    /// Store invariant: positive ids below the assignment counter, unique
    /// ids, unique emails, at most one pending token per account id.
    pub open spec fn wf(self) -> bool {
        &&& 1 <= self.next_id
        &&& forall|i: int|
            0 <= i < self.accounts@.len() ==> 1 <= (#[trigger] self.accounts@[i]).id
                < self.next_id
        &&& forall|i: int, j: int|
            0 <= i < j < self.accounts@.len() ==> (#[trigger] self.accounts@[i]).id != (
            #[trigger] self.accounts@[j]).id
        &&& forall|i: int, j: int|
            0 <= i < j < self.accounts@.len() ==> (#[trigger] self.accounts@[i]).email@ != (
            #[trigger] self.accounts@[j]).email@
        &&& forall|i: int, j: int|
            0 <= i < j < self.tokens@.len() ==> (#[trigger] self.tokens@[i]).0 != (
            #[trigger] self.tokens@[j]).0
    }

    /// The account table, in storage order.
    pub open spec fn accounts_seq(self) -> Seq<Account> {
        self.accounts@
    }

    /// The pending reset tokens as (account id, token) pairs.
    pub open spec fn tokens_seq(self) -> Seq<(i64, String)> {
        self.tokens@
    }

    /// The identity the next created account will get.
    pub open spec fn fresh_id(self) -> int {
        self.next_id as int
    }

    /// An account with this id exists.
    pub open spec fn has_id(self, id: int) -> bool {
        exists|i: int| 0 <= i < self.accounts@.len() && (#[trigger] self.accounts@[i]).id == id
    }

    /// An account with this email exists.
    pub open spec fn has_email(self, e: Seq<char>) -> bool {
        exists|i: int| 0 <= i < self.accounts@.len() && (#[trigger] self.accounts@[i]).email@ == e
    }

    /// Index of the account with this id (meaningful when `has_id`).
    pub open spec fn idx_of(self, id: int) -> int {
        choose|i: int| 0 <= i < self.accounts@.len() && (#[trigger] self.accounts@[i]).id == id
    }

    /// The account with this id (meaningful when `has_id`).
    pub open spec fn account_of(self, id: int) -> Account {
        self.accounts@[self.idx_of(id)]
    }

    /// Index of the account with this email (meaningful when `has_email`).
    pub open spec fn email_idx(self, e: Seq<char>) -> int {
        choose|i: int| 0 <= i < self.accounts@.len() && (#[trigger] self.accounts@[i]).email@ == e
    }

    /// The account with this email (meaningful when `has_email`).
    pub open spec fn account_by_email(self, e: Seq<char>) -> Account {
        self.accounts@[self.email_idx(e)]
    }

    /// A reset token with these characters is pending for this account.
    pub open spec fn has_pending_token(self, id: int, tok: Seq<char>) -> bool {
        exists|i: int|
            0 <= i < self.tokens@.len() && (#[trigger] self.tokens@[i]).0 == id
                && self.tokens@[i].1@ == tok
    }

    /// Some reset token is pending for this account.
    pub open spec fn has_token_for(self, id: int) -> bool {
        exists|i: int| 0 <= i < self.tokens@.len() && (#[trigger] self.tokens@[i]).0 == id
    }

    /// An empty store; the first account created gets id 1, the reserved
    /// superuser identity.
    pub fn new() -> (r: AdminStore)
        ensures
            r.wf(),
            r.accounts_seq() =~= Seq::<Account>::empty(),
            r.tokens_seq() =~= Seq::<(i64, String)>::empty(),
            r.fresh_id() == 1,
    {
        AdminStore { accounts: Vec::new(), tokens: Vec::new(), next_id: 1 }
    }

    fn index_of_id(&self, id: i64) -> (r: Option<usize>)
        requires
            self.wf(),
        ensures
            match r {
                Some(k) => k < self.accounts@.len() && self.accounts@[k as int].id == id
                    && k as int == self.idx_of(id as int),
                None => !self.has_id(id as int),
            },
    {
        let n = self.accounts.len();
        let mut k: usize = 0;
        while k < n
            invariant
                self.wf(),
                n == self.accounts@.len(),
                k <= n,
                forall|j: int| 0 <= j < k ==> (#[trigger] self.accounts@[j]).id != id,
            decreases n - k,
        {
            if self.accounts[k].id == id {
                proof {
                    assert(self.has_id(id as int));
                    let w = self.idx_of(id as int);
                    assert(0 <= w < self.accounts@.len() && self.accounts@[w].id == id);
                    assert(w == k as int);
                }
                return Some(k);
            }
            k = k + 1;
        }
        None
    }

    fn index_of_email(&self, email: &String) -> (r: Option<usize>)
        requires
            self.wf(),
        ensures
            match r {
                Some(k) => k < self.accounts@.len() && self.accounts@[k as int].email@ == email@
                    && k as int == self.email_idx(email@),
                None => !self.has_email(email@),
            },
    {
        let n = self.accounts.len();
        let mut k: usize = 0;
        while k < n
            invariant
                self.wf(),
                n == self.accounts@.len(),
                k <= n,
                forall|j: int| 0 <= j < k ==> (#[trigger] self.accounts@[j]).email@ != email@,
            decreases n - k,
        {
            if self.accounts[k].email == *email {
                proof {
                    assert(self.has_email(email@));
                    let w = self.email_idx(email@);
                    assert(0 <= w < self.accounts@.len() && self.accounts@[w].email@ == email@);
                    assert(w == k as int);
                }
                return Some(k);
            }
            k = k + 1;
        }
        None
    }

    /// Insert a new account. Fails with `DuplicateEmail` when the email is
    /// taken, with `StoreError` when the id space is exhausted; otherwise
    /// the record is appended with the next fresh id and returned.
    pub fn create(
        &mut self,
        name: String,
        email: String,
        phone_num: String,
        password_hash: String,
        meta: Vec<String>,
    ) -> (r: Result<Account, ApiError>)
        requires
            old(self).wf(),
        ensures
            final(self).wf(),
            r is Ok <==> (!old(self).has_email(email@) && old(self).fresh_id()
                < i64::MAX as int),
            old(self).has_email(email@) ==> r == Result::<Account, ApiError>::Err(
                ApiError::DuplicateEmail,
            ) && *final(self) == *old(self),
            !old(self).has_email(email@) && old(self).fresh_id() == i64::MAX as int ==> r
                == Result::<Account, ApiError>::Err(ApiError::StoreError) && *final(self) == *old(
                self,
            ),
            r matches Ok(a) ==> {
                &&& a.id as int == old(self).fresh_id()
                &&& a.name@ == name@
                &&& a.email@ == email@
                &&& a.phone_num@ == phone_num@
                &&& a.password_hash@ == password_hash@
                &&& a.meta@ == meta@
                &&& final(self).accounts_seq().len() == old(self).accounts_seq().len() + 1
                &&& forall|j: int|
                    0 <= j < old(self).accounts_seq().len() ==> final(self).accounts_seq()[j]
                        == old(self).accounts_seq()[j]
                &&& same_account(
                    final(self).accounts_seq()[old(self).accounts_seq().len() as int],
                    a,
                )
                &&& final(self).fresh_id() == old(self).fresh_id() + 1
                &&& final(self).tokens_seq() == old(self).tokens_seq()
            },
    {
        if let Some(_) = self.index_of_email(&email) {
            return Err(ApiError::DuplicateEmail);
        }
        if self.next_id == i64::MAX {
            return Err(ApiError::StoreError);
        }
        let record = Account { id: self.next_id, name, email, phone_num, password_hash, meta };
        let copy = record.duplicate();
        self.accounts.push(record);
        self.next_id = self.next_id + 1;
        proof {
            assert forall|i: int, j: int|
                0 <= i < j < self.accounts@.len() implies (#[trigger] self.accounts@[i]).email@
                != (#[trigger] self.accounts@[j]).email@ by {
                if j == self.accounts@.len() - 1 {
                    assert(!old(self).has_email(self.accounts@[j].email@));
                }
            };
        }
        Ok(copy)
    }

    /// Read one account by id; `NotFound` exactly when no account has it.
    pub fn get_by_id(&self, id: i64) -> (r: Result<Account, ApiError>)
        requires
            self.wf(),
        ensures
            r is Ok <==> self.has_id(id as int),
            r matches Ok(a) ==> same_account(a, self.account_of(id as int)) && a.id == id,
            r is Err ==> r == Result::<Account, ApiError>::Err(ApiError::NotFound),
    {
        match self.index_of_id(id) {
            Some(k) => Ok(self.accounts[k].duplicate()),
            None => Err(ApiError::NotFound),
        }
    }

    /// Read one account by email; `NotFound` exactly when no account has it.
    pub fn get_by_email(&self, email: &String) -> (r: Result<Account, ApiError>)
        requires
            self.wf(),
        ensures
            r is Ok <==> self.has_email(email@),
            r matches Ok(a) ==> same_account(a, self.account_by_email(email@)) && a.email@
                == email@,
            r is Err ==> r == Result::<Account, ApiError>::Err(ApiError::NotFound),
    {
        match self.index_of_email(email) {
            Some(k) => Ok(self.accounts[k].duplicate()),
            None => Err(ApiError::NotFound),
        }
    }

    /// Replace the whole metadata list of the account with this id.
    pub fn update_meta(&mut self, id: i64, meta: Vec<String>) -> (r: Result<(), ApiError>)
        requires
            old(self).wf(),
        ensures
            final(self).wf(),
            r is Ok <==> old(self).has_id(id as int),
            r is Err ==> r == Result::<(), ApiError>::Err(ApiError::NotFound) && *final(self)
                == *old(self),
            r is Ok ==> {
                let k = old(self).idx_of(id as int);
                let a = old(self).accounts_seq()[k];
                &&& final(self).accounts_seq() == old(self).accounts_seq().update(
                    k,
                    final(self).accounts_seq()[k],
                )
                &&& final(self).accounts_seq()[k].id == a.id
                &&& final(self).accounts_seq()[k].name@ == a.name@
                &&& final(self).accounts_seq()[k].email@ == a.email@
                &&& final(self).accounts_seq()[k].phone_num@ == a.phone_num@
                &&& final(self).accounts_seq()[k].password_hash@ == a.password_hash@
                &&& final(self).accounts_seq()[k].meta@ == meta@
                &&& final(self).tokens_seq() == old(self).tokens_seq()
                &&& final(self).fresh_id() == old(self).fresh_id()
            },
    {
        match self.index_of_id(id) {
            Some(k) => {
                let a = self.accounts[k].duplicate();
                let updated = Account {
                    id: a.id,
                    name: a.name,
                    email: a.email,
                    phone_num: a.phone_num,
                    password_hash: a.password_hash,
                    meta,
                };
                self.accounts.set(k, updated);
                Ok(())
            },
            None => Err(ApiError::NotFound),
        }
    }

    /// Set the password hash of the account with this id.
    pub fn set_password(&mut self, id: i64, password_hash: String) -> (r: Result<(), ApiError>)
        requires
            old(self).wf(),
        ensures
            final(self).wf(),
            r is Ok <==> old(self).has_id(id as int),
            r is Err ==> r == Result::<(), ApiError>::Err(ApiError::NotFound) && *final(self)
                == *old(self),
            r is Ok ==> {
                let k = old(self).idx_of(id as int);
                let a = old(self).accounts_seq()[k];
                &&& final(self).accounts_seq() == old(self).accounts_seq().update(
                    k,
                    final(self).accounts_seq()[k],
                )
                &&& final(self).accounts_seq()[k].id == a.id
                &&& final(self).accounts_seq()[k].name@ == a.name@
                &&& final(self).accounts_seq()[k].email@ == a.email@
                &&& final(self).accounts_seq()[k].phone_num@ == a.phone_num@
                &&& final(self).accounts_seq()[k].password_hash@ == password_hash@
                &&& final(self).accounts_seq()[k].meta@ == a.meta@
                &&& final(self).tokens_seq() == old(self).tokens_seq()
                &&& final(self).fresh_id() == old(self).fresh_id()
            },
    {
        match self.index_of_id(id) {
            Some(k) => {
                let a = self.accounts[k].duplicate();
                let updated = Account {
                    id: a.id,
                    name: a.name,
                    email: a.email,
                    phone_num: a.phone_num,
                    password_hash,
                    meta: a.meta,
                };
                self.accounts.set(k, updated);
                Ok(())
            },
            None => Err(ApiError::NotFound),
        }
    }

    /// Remove the account with this id (hard delete; a pending token for
    /// the id, if any, is removed with it).
    pub fn delete_by_id(&mut self, id: i64) -> (r: Result<(), ApiError>)
        requires
            old(self).wf(),
        ensures
            final(self).wf(),
            r is Ok <==> old(self).has_id(id as int),
            r is Err ==> r == Result::<(), ApiError>::Err(ApiError::NotFound) && *final(self)
                == *old(self),
            r is Ok ==> {
                &&& final(self).accounts_seq() == old(self).accounts_seq().remove(
                    old(self).idx_of(id as int),
                )
                &&& !final(self).has_id(id as int)
                &&& final(self).fresh_id() == old(self).fresh_id()
                &&& forall|t: Seq<char>| !final(self).has_pending_token(id as int, t)
                &&& forall|id2: int, t: Seq<char>|
                    id2 != id as int ==> (final(self).has_pending_token(id2, t) <==> old(
                        self,
                    ).has_pending_token(id2, t))
            },
    {
        match self.index_of_id(id) {
            Some(k) => {
                self.accounts.remove(k);
                proof {
                    assert(forall|i: int|
                        0 <= i < self.accounts@.len() ==> #[trigger] self.accounts@[i] == (if i
                            < k as int {
                            old(self).accounts@[i]
                        } else {
                            old(self).accounts@[i + 1]
                        }));
                    assert forall|i: int|
                        0 <= i < self.accounts@.len() implies (#[trigger] self.accounts@[i]).id
                        != id by {
                        if i < k as int {
                            assert(self.accounts@[i] == old(self).accounts@[i]);
                        } else {
                            assert(self.accounts@[i] == old(self).accounts@[i + 1]);
                        }
                    };
                    assert forall|i: int, j: int|
                        0 <= i < j < self.accounts@.len() implies (#[trigger] self.accounts@[i]).id
                        != (#[trigger] self.accounts@[j]).id && self.accounts@[i].email@
                        != self.accounts@[j].email@ by {
                        let i0 = if i < k as int { i } else { i + 1 };
                        let j0 = if j < k as int { j } else { j + 1 };
                        assert(self.accounts@[i] == old(self).accounts@[i0]);
                        assert(self.accounts@[j] == old(self).accounts@[j0]);
                    };
                }
                let ghost mid = *self;
                self.remove_token(id);
                proof {
                    assert(self.accounts@ == old(self).accounts@.remove(
                        old(self).idx_of(id as int),
                    ));
                    assert(!self.has_id(id as int));
                    assert(forall|t: Seq<char>| !self.has_pending_token(id as int, t));
                    assert(mid.tokens@ == old(self).tokens@);
                    assert forall|id2: int, t: Seq<char>|
                        id2 != id as int implies (mid.has_pending_token(id2, t) <==> old(
                        self,
                    ).has_pending_token(id2, t)) by {
                        if mid.has_pending_token(id2, t) {
                            let w = choose|w: int|
                                0 <= w < mid.tokens@.len() && (#[trigger] mid.tokens@[w]).0 == id2
                                    && mid.tokens@[w].1@ == t;
                            assert(old(self).tokens@[w] == mid.tokens@[w]);
                        }
                        if old(self).has_pending_token(id2, t) {
                            let w = choose|w: int|
                                0 <= w < old(self).tokens@.len() && (#[trigger] old(
                                    self,
                                ).tokens@[w]).0 == id2 && old(self).tokens@[w].1@ == t;
                            assert(mid.tokens@[w] == old(self).tokens@[w]);
                        }
                    };
                }
                Ok(())
            },
            None => Err(ApiError::NotFound),
        }
    }

    /// How many accounts the store holds, the reserved one included.
    pub fn count(&self) -> (r: usize)
        ensures
            r == self.accounts_seq().len(),
    {
        self.accounts.len()
    }

    /// One page of the account table: up to `limit` records starting at
    /// `offset`, in storage order.
    pub fn list_page(&self, offset: usize, limit: usize) -> (r: Vec<Account>)
        ensures
            r@.len() == page(self.accounts_seq(), offset as int, limit as int).len(),
            forall|i: int|
                0 <= i < r@.len() ==> same_account(
                    #[trigger] r@[i],
                    page(self.accounts_seq(), offset as int, limit as int)[i],
                ),
    {
        let n = self.accounts.len();
        let mut out: Vec<Account> = Vec::new();
        if offset >= n {
            return out;
        }
        let mut k: usize = offset;
        while k < n && k - offset < limit
            invariant
                n == self.accounts@.len(),
                offset <= k <= n,
                k - offset <= limit,
                out@.len() == k - offset,
                forall|i: int|
                    0 <= i < out@.len() ==> same_account(
                        #[trigger] out@[i],
                        self.accounts@[offset + i],
                    ),
            decreases n - k,
        {
            let a = self.accounts[k].duplicate();
            out.push(a);
            k = k + 1;
        }
        proof {
            let pg = page(self.accounts@, offset as int, limit as int);
            assert(pg.len() == out@.len());
            assert(forall|i: int| 0 <= i < pg.len() ==> pg[i] == self.accounts@[offset + i]);
        }
        out
    }

    /// Bind a fresh reset token to this account id, overwriting any token
    /// already pending for it.
    pub fn set_token(&mut self, id: i64, token: String)
        requires
            old(self).wf(),
        ensures
            final(self).wf(),
            final(self).accounts_seq() == old(self).accounts_seq(),
            final(self).fresh_id() == old(self).fresh_id(),
            final(self).has_pending_token(id as int, token@),
            forall|t: Seq<char>|
                final(self).has_pending_token(id as int, t) ==> t == token@,
            forall|id2: int, t: Seq<char>|
                id2 != id as int ==> (final(self).has_pending_token(id2, t) <==> old(
                    self,
                ).has_pending_token(id2, t)),
    {
        let n = self.tokens.len();
        let mut k: usize = 0;
        while k < n
            invariant
                old(self).wf(),
                *self == *old(self),
                n == self.tokens@.len(),
                k <= n,
                forall|j: int| 0 <= j < k ==> (#[trigger] self.tokens@[j]).0 != id,
            decreases n - k,
        {
            if self.tokens[k].0 == id {
                self.tokens.set(k, (id, token));
                proof {
                    assert(self.tokens@[k as int].0 == id && self.tokens@[k as int].1@ == token@);
                    assert forall|t: Seq<char>|
                        self.has_pending_token(id as int, t) implies t == token@ by {
                        let w = choose|w: int|
                            0 <= w < self.tokens@.len() && (#[trigger] self.tokens@[w]).0 == id
                                && self.tokens@[w].1@ == t;
                        assert(w == k as int);
                    };
                    assert forall|id2: int, t: Seq<char>|
                        id2 != id as int implies (self.has_pending_token(id2, t) <==> old(
                        self,
                    ).has_pending_token(id2, t)) by {
                        if self.has_pending_token(id2, t) {
                            let w = choose|w: int|
                                0 <= w < self.tokens@.len() && (#[trigger] self.tokens@[w]).0
                                    == id2 && self.tokens@[w].1@ == t;
                            assert(old(self).tokens@[w] == self.tokens@[w]);
                        }
                        if old(self).has_pending_token(id2, t) {
                            let w = choose|w: int|
                                0 <= w < old(self).tokens@.len() && (#[trigger] old(
                                    self,
                                ).tokens@[w]).0 == id2 && old(self).tokens@[w].1@ == t;
                            assert(self.tokens@[w] == old(self).tokens@[w]);
                        }
                    };
                }
                return ;
            }
            k = k + 1;
        }
        self.tokens.push((id, token));
        proof {
            let m = self.tokens@.len() - 1;
            assert(self.tokens@[m].0 == id && self.tokens@[m].1@ == token@);
            assert forall|t: Seq<char>|
                self.has_pending_token(id as int, t) implies t == token@ by {
                let w = choose|w: int|
                    0 <= w < self.tokens@.len() && (#[trigger] self.tokens@[w]).0 == id
                        && self.tokens@[w].1@ == t;
                assert(w == m);
            };
            assert forall|id2: int, t: Seq<char>|
                id2 != id as int implies (self.has_pending_token(id2, t) <==> old(
                self,
            ).has_pending_token(id2, t)) by {
                if self.has_pending_token(id2, t) {
                    let w = choose|w: int|
                        0 <= w < self.tokens@.len() && (#[trigger] self.tokens@[w]).0 == id2
                            && self.tokens@[w].1@ == t;
                    assert(w < m);
                    assert(old(self).tokens@[w] == self.tokens@[w]);
                }
                if old(self).has_pending_token(id2, t) {
                    let w = choose|w: int|
                        0 <= w < old(self).tokens@.len() && (#[trigger] old(self).tokens@[w]).0
                            == id2 && old(self).tokens@[w].1@ == t;
                    assert(self.tokens@[w] == old(self).tokens@[w]);
                }
            };
        }
    }

    /// Whether this exact token is pending for this account id.
    pub fn token_matches(&self, id: i64, token: &String) -> (r: bool)
        ensures
            r == self.has_pending_token(id as int, token@),
    {
        let n = self.tokens.len();
        let mut k: usize = 0;
        while k < n
            invariant
                n == self.tokens@.len(),
                k <= n,
                forall|j: int|
                    0 <= j < k ==> !((#[trigger] self.tokens@[j]).0 == id && self.tokens@[j].1@
                        == token@),
            decreases n - k,
        {
            if self.tokens[k].0 == id && self.tokens[k].1 == *token {
                return true;
            }
            k = k + 1;
        }
        false
    }

    /// Drop any token pending for this account id.
    pub fn remove_token(&mut self, id: i64)
        requires
            old(self).wf(),
        ensures
            final(self).wf(),
            final(self).accounts_seq() == old(self).accounts_seq(),
            final(self).fresh_id() == old(self).fresh_id(),
            forall|t: Seq<char>| !final(self).has_pending_token(id as int, t),
            forall|id2: int, t: Seq<char>|
                id2 != id as int ==> (final(self).has_pending_token(id2, t) <==> old(
                    self,
                ).has_pending_token(id2, t)),
    {
        let n = self.tokens.len();
        let mut k: usize = 0;
        while k < n
            invariant
                old(self).wf(),
                *self == *old(self),
                n == self.tokens@.len(),
                k <= n,
                forall|j: int| 0 <= j < k ==> (#[trigger] self.tokens@[j]).0 != id,
            decreases n - k,
        {
            if self.tokens[k].0 == id {
                self.tokens.remove(k);
                proof {
                    assert forall|i: int|
                        0 <= i < self.tokens@.len() implies (#[trigger] self.tokens@[i]).0
                        != id by {
                        if i < k as int {
                            assert(self.tokens@[i] == old(self).tokens@[i]);
                        } else {
                            assert(self.tokens@[i] == old(self).tokens@[i + 1]);
                        }
                    };
                    assert forall|id2: int, t: Seq<char>|
                        id2 != id as int && old(self).has_pending_token(id2, t) implies self
                        .has_pending_token(id2, t) by {
                        let w = choose|w: int|
                            0 <= w < old(self).tokens@.len() && (#[trigger] old(
                                self,
                            ).tokens@[w]).0 == id2 && old(self).tokens@[w].1@ == t;
                        if w < k as int {
                            assert(self.tokens@[w] == old(self).tokens@[w]);
                        } else {
                            assert(self.tokens@[w - 1] == old(self).tokens@[w]);
                        }
                    };
                    assert forall|id2: int, t: Seq<char>|
                        id2 != id as int && self.has_pending_token(id2, t) implies old(
                        self,
                    ).has_pending_token(id2, t) by {
                        let w = choose|w: int|
                            0 <= w < self.tokens@.len() && (#[trigger] self.tokens@[w]).0 == id2
                                && self.tokens@[w].1@ == t;
                        if w < k as int {
                            assert(old(self).tokens@[w] == self.tokens@[w]);
                        } else {
                            assert(old(self).tokens@[w + 1] == self.tokens@[w]);
                        }
                    };
                }
                return ;
            }
            k = k + 1;
        }
    }
}

/// Two stores with the same token table have the same pending tokens.
pub proof fn lemma_same_tokens_same_pending(s1: AdminStore, s2: AdminStore)
    requires
        s1.tokens@ == s2.tokens@,
    ensures
        forall|id: int, t: Seq<char>| #[trigger]
            s1.has_pending_token(id, t) == s2.has_pending_token(id, t),
{
    assert forall|id: int, t: Seq<char>| #[trigger]
        s1.has_pending_token(id, t) == s2.has_pending_token(id, t) by {
        if s1.has_pending_token(id, t) {
            let w = choose|w: int|
                0 <= w < s1.tokens@.len() && (#[trigger] s1.tokens@[w]).0 == id
                    && s1.tokens@[w].1@ == t;
            assert(s2.tokens@[w] == s1.tokens@[w]);
        }
        if s2.has_pending_token(id, t) {
            let w = choose|w: int|
                0 <= w < s2.tokens@.len() && (#[trigger] s2.tokens@[w]).0 == id
                    && s2.tokens@[w].1@ == t;
            assert(s1.tokens@[w] == s2.tokens@[w]);
        }
    };
}

/// One page of a sequence: up to `limit` elements starting at `offset`,
/// clamped to the sequence's end.
pub open spec fn page(s: Seq<Account>, offset: int, limit: int) -> Seq<Account> {
    let start = if offset <= s.len() {
        offset
    } else {
        s.len() as int
    };
    let end = if offset + limit <= s.len() {
        offset + limit
    } else {
        s.len() as int
    };
    if start <= end {
        s.subrange(start, end)
    } else {
        Seq::empty()
    }
}

} // verus!
