//! Hosting packages: the limits an account is sold with.
use vstd::prelude::*;
use crate::error::{ApiError, internal, is_error, unique_conflict};
use crate::text::{contains_seq, string_of, trim, trim_str};

verus! {

/// A package as stored.
pub struct Package {
    pub id: i64,
    pub name: String,
    pub disk_limit_mb: i64,
    pub mailbox_limit: i64,
    pub database_limit: i64,
    pub domain_limit: i64,
    pub bandwidth_limit_gb: i64,
}

/// A request to create a package.
pub struct CreatePackage {
    pub name: String,
    pub disk_limit_mb: i64,
    pub mailbox_limit: i64,
    pub database_limit: i64,
    pub domain_limit: i64,
    pub bandwidth_limit_gb: i64,
}

/// A package's name, trimmed as stored; a blank one is refused (400).
pub fn package_name(name: &str) -> (r: Result<String, ApiError>)
    ensures
        trim(name@).len() == 0 ==> (r matches Err(e) && is_error(e, 400, "Package name cannot be empty"@)),
        trim(name@).len() > 0 ==> (r matches Ok(n) && n@ == trim(name@)),
{
    let n = trim_str(name);
    if n.len() == 0 {
        return Err(ApiError::new(400, "Package name cannot be empty"));
    }
    Ok(string_of(&n))
}

/// The answer to a failed insert: a taken name (the database names its
/// uniqueness constraint) is 409; anything else is the server's failure.
pub fn insert_failure(db_error: &str) -> (e: ApiError)
    ensures
        contains_seq(db_error@, "UNIQUE"@) ==> is_error(e, 409, "Package name already exists"@),
        !contains_seq(db_error@, "UNIQUE"@) ==> is_error(e, 500, "Internal server error"@),
{
    match unique_conflict(db_error, "Package name already exists") {
        Some(e) => e,
        None => internal(),
    }
}

/// A delete that removed no row names no package (404).
pub fn check_deleted(rows_affected: u64) -> (r: Result<(), ApiError>)
    ensures
        rows_affected == 0 ==> (r matches Err(e) && is_error(e, 404, "Package not found"@)),
        rows_affected > 0 ==> r is Ok,
{
    if rows_affected == 0 {
        return Err(ApiError::new(404, "Package not found"));
    }
    Ok(())
}

} // verus!
