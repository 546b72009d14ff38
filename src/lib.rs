//! Client-side core of a threshold-replicated secret-recovery service:
//! enclave flavors and endpoints, per-route connection management, the
//! fan-in of replica answers, and a reference model of the per-user record
//! lifecycle.
pub mod connection;
pub mod enclave;
pub mod protocol;
pub mod storage;
pub mod svr;
