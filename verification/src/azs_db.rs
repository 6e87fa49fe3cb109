//! The site's hold on the MySQL database: the pool, once there is one, the connection
//! records last tried and last accepted, whether a connection is under way, and the
//! station's number. The pool itself is of any type `P`: nothing here looks inside it.
use vstd::prelude::*;
use crate::models::{DbStatus, MyError, MysqlInfo, TypesStatus, error_text};
use crate::queries::{database_url, database_url_text};

verus! {

/// The connection state of the site.
pub struct AzsDb<P> {
    pub mysql: Option<P>,
    pub mysql_info_success: MysqlInfo,
    pub mysql_info_last: MysqlInfo,
    pub is_connecting: bool,
    pub azs_id: String,
}

impl<P> AzsDb<P> {
    /// The state of the connection: connected while there is a pool; else connecting or
    /// disconnected, by the flag.
    pub open spec fn status_spec(&self) -> TypesStatus {
        if self.mysql is Some {
            TypesStatus::Connected
        } else if self.is_connecting {
            TypesStatus::Connecting
        } else {
            TypesStatus::Disconnected
        }
    }

    /// No pool, empty records, not connecting, no station number.
    pub fn new() -> (db: AzsDb<P>)
        ensures
            db.mysql is None,
            db.mysql_info_success.is_empty_spec(),
            db.mysql_info_last.is_empty_spec(),
            !db.is_connecting,
            db.azs_id@.len() == 0,
            db.status_spec() == TypesStatus::Disconnected,
    {
        AzsDb {
            mysql: None,
            mysql_info_success: MysqlInfo::new(),
            mysql_info_last: MysqlInfo::new(),
            is_connecting: false,
            azs_id: String::new(),
        }
    }

    /// Drops the pool and stops connecting.
    pub fn disconnect(&mut self)
        ensures
            final(self).mysql is None,
            !final(self).is_connecting,
            final(self).mysql_info_success == old(self).mysql_info_success,
            final(self).mysql_info_last == old(self).mysql_info_last,
            final(self).azs_id == old(self).azs_id,
            final(self).status_spec() == TypesStatus::Disconnected,
    {
        self.is_connecting = false;
        self.mysql = None;
    }

    /// The state of the connection.
    #[allow(non_snake_case)]
    pub fn getDbStatus(&self) -> (s: DbStatus)
        ensures
            s.status == self.status_spec(),
    {
        if self.mysql.is_none() {
            if self.is_connecting {
                DbStatus { status: TypesStatus::Connecting }
            } else {
                DbStatus { status: TypesStatus::Disconnected }
            }
        } else {
            DbStatus { status: TypesStatus::Connected }
        }
    }

    /// The first step of a connection: the pool is dropped, the site is connecting, the
    /// record is kept as the last one tried. Returns the address to connect to.
    pub fn begin_connect(&mut self, mysql_info: &MysqlInfo) -> (url: String)
        ensures
            url@ == database_url_text(*mysql_info),
            final(self).mysql is None,
            final(self).is_connecting,
            final(self).mysql_info_last == *mysql_info,
            final(self).mysql_info_success == old(self).mysql_info_success,
            final(self).azs_id == old(self).azs_id,
            final(self).status_spec() == TypesStatus::Connecting,
    {
        let url = database_url(mysql_info);
        self.mysql = None;
        self.is_connecting = true;
        self.mysql_info_last = mysql_info.duplicate();
        url
    }

    /// Whether an opened connection's record differs from the last accepted one, and so
    /// must be stored in the local database.
    pub fn must_store_info(&self, mysql_info: &MysqlInfo) -> (b: bool)
        ensures
            b == (self.mysql_info_success.fields() != mysql_info.fields()),
    {
        self.mysql_info_success != *mysql_info
    }

    /// The connection opened: its record is the accepted one and the pool is kept.
    pub fn connection_opened(&mut self, pool: P, mysql_info: &MysqlInfo)
        ensures
            final(self).mysql == Some(pool),
            final(self).mysql_info_success == *mysql_info,
            final(self).mysql_info_last == old(self).mysql_info_last,
            final(self).is_connecting == old(self).is_connecting,
            final(self).azs_id == old(self).azs_id,
            final(self).status_spec() == TypesStatus::Connected,
    {
        self.mysql_info_success = mysql_info.duplicate();
        self.mysql = Some(pool);
    }

    /// The connection failed: the site disconnects, and the error tells why.
    pub fn connection_failed(&mut self, now: &str, detail: &str) -> (e: MyError)
        ensures
            e.message() == error_text("MYSQL"@, now@, detail@),
            final(self).mysql is None,
            !final(self).is_connecting,
            final(self).mysql_info_success == old(self).mysql_info_success,
            final(self).mysql_info_last == old(self).mysql_info_last,
            final(self).azs_id == old(self).azs_id,
            final(self).status_spec() == TypesStatus::Disconnected,
    {
        self.disconnect();
        MyError::logged("MYSQL", now, detail)
    }

    /// The last step of a connection: the station's number is kept and connecting ends.
    /// Returns whether there is a pool.
    pub fn connection_ready(&mut self, azs_id: String) -> (connected: bool)
        ensures
            connected == (old(self).mysql is Some),
            final(self).azs_id == azs_id,
            !final(self).is_connecting,
            final(self).mysql == old(self).mysql,
            final(self).mysql_info_success == old(self).mysql_info_success,
            final(self).mysql_info_last == old(self).mysql_info_last,
            final(self).status_spec() == (if connected { TypesStatus::Connected } else { TypesStatus::Disconnected }),
    {
        self.azs_id = azs_id;
        self.is_connecting = false;
        self.mysql.is_some()
    }
}

} // verus!
