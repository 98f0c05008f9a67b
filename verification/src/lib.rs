pub mod clear_tab;
pub mod descriptions;
pub mod hashing;
pub mod order;
pub mod reconcile;
pub mod relocate;
pub mod scanner;
pub mod store;
pub mod utils;

use vstd::prelude::*;

verus! {

/// Default file name for the persistent inventory database.
pub fn get_default_db_path() -> (r: String)
    ensures
        r@ == "appdata_cleaner.db"@,
{
    String::from_str("appdata_cleaner.db")
}

/// Relies on std::path::Path::exists: whether anything stands at the path
/// right now. What is on disk promises nothing, so nothing more is stated.
#[verifier::external_body]
pub fn database_exists(db_path: &str) -> bool {
    std::path::Path::new(db_path).exists()
}

} // verus!
