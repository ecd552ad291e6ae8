pub mod commands;
pub mod config;
pub mod enums;
pub mod errors;
pub mod rdb;
pub mod resp;
pub mod servers;
pub mod storage;
pub mod strutil;
