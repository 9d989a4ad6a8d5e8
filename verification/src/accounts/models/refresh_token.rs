//! Refresh tokens issued to users.
use vstd::prelude::*;

verus! {

/// A stored refresh token.
#[derive(Debug)]
pub struct Model {
    pub id: i32,
    pub user_id: i32,
    pub refresh_token: String,
}

} // verus!
