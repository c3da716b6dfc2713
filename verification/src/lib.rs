//! The rules of the CryptoCraft proof-of-work coin, apart from terminals, sockets and disks.

pub mod auth;
pub mod blockchain;
pub mod clock;
pub mod db;
pub mod display;
pub mod double;
pub mod hashing;
pub mod http;
pub mod id;
pub mod mining;
pub mod network;
pub mod order;
pub mod pool_client;
pub mod pool_server;
pub mod screens;
pub mod server;
pub mod solo;
pub mod sync;
pub mod text;
pub mod wallet;
