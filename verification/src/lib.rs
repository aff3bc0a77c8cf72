//! Administrative account management: permission-label codec, authorization
//! policy, and the password-reset credential lifecycle, verified against an
//! in-memory model of the credential store.

pub mod api;
pub mod auth;
pub mod labels;
pub mod store;
pub mod valid;

pub use api::PrivateApi;
pub use api::PublicApi;
pub use auth::AdminOp;
pub use auth::ApiError;
pub use auth::authorize;
pub use store::Account;
pub use store::AdminStore;
