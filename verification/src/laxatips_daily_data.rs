pub mod init;
pub mod time;
pub mod transit_data;
