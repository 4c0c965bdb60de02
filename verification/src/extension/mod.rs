//! The browser extension: what web pages may ask of the wallet.

pub mod flow;
pub mod focus;
pub mod hosts;
pub mod request;
