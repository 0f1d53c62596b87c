//! Types of std and of outside crates that the library carries without
//! looking inside.

use vstd::prelude::*;

verus! {

/// `std::num::ParseIntError`: why decimal text is not an integer.
#[verifier::external_type_specification]
#[verifier::external_body]
pub struct ExParseIntError(std::num::ParseIntError);

/// `std::io::Error`: why reading or writing a file or directory failed.
#[verifier::external_type_specification]
#[verifier::external_body]
pub struct ExIoError(std::io::Error);

/// `sqlx::Error`: why a database query or statement failed.
#[verifier::external_type_specification]
#[verifier::external_body]
pub struct ExSqlxError(sqlx::Error);

} // verus!
