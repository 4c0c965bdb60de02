//! The logic of the Fistbump desktop wallet: what it asks of a hardware
//! wallet and of the node, how it resolves and fetches names, and how it
//! answers the browser extension.

pub mod biometric;
pub mod bridge;
pub mod build_info;
pub mod doubles;
pub mod extension;
pub mod hashes;
pub mod hexes;
pub mod json;
pub mod ledger;
pub mod links;
pub mod pem;
pub mod places;
pub mod proxy;
pub mod rpc;
pub mod settings;
pub mod setup;
pub mod state;
pub mod text;
pub mod text_map;
pub mod wire;
