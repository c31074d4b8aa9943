//! Verified core of a distributed compile cache: cache keys, toolchain
//! stores, job scheduling, build-worker decisions and wire framing.
pub mod bytes;
pub mod client;
pub mod compiler;
pub mod frame;
pub mod key;
pub mod protocol;
pub mod request;
pub mod scheduler;
pub mod store;
pub mod worker;
