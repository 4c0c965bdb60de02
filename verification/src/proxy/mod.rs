//! The local proxy through which a browser reaches Fistbump names.

pub mod ca;
pub mod cache;
pub mod connect;
pub mod dane;
pub mod dns;
pub mod http;
pub mod pac;
pub mod pages;
pub mod request;
pub mod shape;
pub mod socks;
pub mod steps;
pub mod system;
