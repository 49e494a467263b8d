//! Account records and the deferred account-deletion scheduler of the
//! gallery backend.
//!
//! The scheduler keeps, for each user who asked for the deletion of their
//! account, the instant from which the account may be purged. A request can
//! be withdrawn until a sweep purges the account; a sweep hands every matured
//! request to the purge layer and retires it only once that layer reports
//! success.
pub mod model;
pub mod service;
pub mod utils;
