//! What the page templates are filled with.
use vstd::prelude::*;
use crate::models::{MysqlInfo, User};

verus! {

/// The login page: whether a shift is open, and the users, the shift's operator first.
#[derive(Debug, Clone, PartialEq, Eq)]
pub struct AuthTemplate {
    pub smena: bool,
    pub users: Vec<User>,
}

/// Pages that differ for administrators.
#[derive(Debug, Clone, Copy, PartialEq, Eq, Structural)]
pub struct AdminTemplate {
    pub admin: bool,
}

/// A nozzle on the station map: its tank, and the price, colour and name of the product
/// in that tank. The price is held by its bits (`f32::to_bits`).
#[derive(Debug, Clone, PartialEq, Eq)]
pub struct PistForTemplate {
    pub id_pist: i32,
    pub id_tank: i32,
    pub price_bits: u32,
    pub r: u8,
    pub g: u8,
    pub b: u8,
    pub name: String,
}

/// The page that shows the error log.
#[derive(Debug, Clone, PartialEq, Eq)]
pub struct ErrorDb {
    pub error: String,
}

/// The page of the database settings: the records last tried and last accepted, and
/// the error log.
#[derive(Debug, Clone)]
pub struct MysqlInfowithErrorDb {
    pub mysql_info_last: MysqlInfo,
    pub mysql_info_success: MysqlInfo,
    pub error_db: String,
}

} // verus!
