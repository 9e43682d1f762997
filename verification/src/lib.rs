//! The rules of a laundry relay: which clients are connected, how requests reach them and their
//! answers come back, what is archived, and what is put into the table of machines.

pub mod archiver;
pub mod clock;
pub mod connection;
pub mod files;
pub mod jobs;
pub mod json;
pub mod log;
pub mod machines;
pub mod query;
pub mod registry;
pub mod reply;
pub mod requests;
pub mod rotation;
pub mod text;
