//! The claims of a login token, and when a token's claims are accepted.
use vstd::prelude::*;
use crate::models::MysqlInfo;
use crate::clock::utc_timestamp;

verus! {

/// What a login token claims: the user, whether an administrator, when it expires
/// (seconds since the UNIX epoch, a 64-bit number) and the database it was given for.
#[derive(Debug, Clone)]
pub struct Claims {
    pub id_user: i32,
    pub admin: bool,
    pub exp: u64,
    pub mysql_connect: MysqlInfo,
}

/// When every token expires: a fixed moment, in the year 2286.
pub const TOKEN_EXPIRY: u64 = 10000000000u64;

/// The claims of a new token for a user and a database.
pub fn create_claims(id_user: i32, admin: bool, mysql_conn: MysqlInfo) -> (c: Claims)
    ensures
        c == (Claims { id_user, admin, exp: TOKEN_EXPIRY, mysql_connect: mysql_conn }),
{
    Claims { id_user, admin, exp: TOKEN_EXPIRY, mysql_connect: mysql_conn }
}

/// Whether decoded claims are accepted at time `now`: they were decoded, have not
/// expired (`exp` later than `now`, read as a `u64`) and were given for this database.
pub open spec fn claims_accepted(decoded: Option<Claims>, now: i64, mysql_info: MysqlInfo) -> bool {
    match decoded {
        Some(c) => c.exp > (now as u64) && c.mysql_connect.fields() == mysql_info.fields(),
        None => false,
    }
}

/// Decides on the claims of a token at time `now`: the administrator mark is cleared,
/// then set to the claims' own when they are accepted.
pub fn validate_claims_at(decoded: Option<Claims>, now: i64, mysql_info: &MysqlInfo, is_admin: &mut bool) -> (ok: bool)
    ensures
        ok == claims_accepted(decoded, now, *mysql_info),
        *final(is_admin) == (ok && decoded.unwrap().admin),
{
    *is_admin = false;
    match decoded {
        Some(c) => {
            if c.exp > (now as u64) && c.mysql_connect == *mysql_info {
                *is_admin = c.admin;
                true
            } else {
                false
            }
        },
        None => false,
    }
}

/// Decides on the claims of a token now, by the UTC clock.
pub fn validate_claims(decoded: Option<Claims>, mysql_info: &MysqlInfo, is_admin: &mut bool) -> (ok: bool)
    ensures
        exists|now: i64| now >= 0 && ok == claims_accepted(decoded, now, *mysql_info),
        *final(is_admin) == (ok && decoded.unwrap().admin),
        ok ==> decoded is Some && decoded.unwrap().mysql_connect.fields() == mysql_info.fields(),
{
    let now = utc_timestamp();
    validate_claims_at(decoded, now, mysql_info, is_admin)
}


/// The claims of a new token are accepted, for the database they were made for, at any
/// time from the epoch on and before the fixed expiry (so `validate_claims_at` then
/// sets the administrator mark to the one they were made with).
pub proof fn lemma_new_claims_accepted(id_user: i32, admin: bool, mysql_conn: MysqlInfo, now: i64)
    requires
        0 <= now < TOKEN_EXPIRY,
    ensures
        claims_accepted(Some(Claims { id_user, admin, exp: TOKEN_EXPIRY, mysql_connect: mysql_conn }), now, mysql_conn),
{
}

/// A new token's claims, checked now for the database they were made for, are rejected
/// only where the clock reads the fixed expiry or later.
pub proof fn lemma_new_claims_rejected_only_when_expired(id_user: i32, admin: bool, mysql_conn: MysqlInfo, now: i64)
    requires
        now >= 0,
        !claims_accepted(Some(Claims { id_user, admin, exp: TOKEN_EXPIRY, mysql_connect: mysql_conn }), now, mysql_conn),
    ensures
        now >= TOKEN_EXPIRY,
{
}

} // verus!
