use vstd::prelude::*;

verus! {

/// A user row as the data store returns it.
pub struct User {
    pub id: String,
    pub username: String,
    pub email: Option<String>,
    pub password: Option<String>,
}

/// A post row as the data store returns it.
pub struct DbPost {
    pub id: String,
    pub image: String,
    pub ratio: String,
}

} // verus!
