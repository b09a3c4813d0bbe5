pub mod auth;
pub mod codec;
pub mod message;
pub mod roundtrip;
pub mod session;
