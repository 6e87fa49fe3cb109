//! A gas-station control site: the records it keeps, the SQL it sends, the rows it
//! reads back, its sessions, its connection state and its grouped log.
pub mod text;
pub mod models;
pub mod rows;
pub mod queries;
pub mod clock;
pub mod jwt;
pub mod azs_db;
pub mod logger;
pub mod render_temps;
pub mod controllers;
