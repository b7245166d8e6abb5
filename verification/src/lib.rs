//! The verified core of a publish/subscribe server.
pub mod address;
pub mod basic;
pub mod broadcast;
pub mod channels;
pub mod decode;
pub mod gone;
pub mod handles;
pub mod json;
pub mod laws;
pub mod lock;
pub mod pubsub;
pub mod redis_pubsub;
pub mod rest_api;
pub mod server;
pub mod table;
pub mod token;
