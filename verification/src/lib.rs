pub mod error;
pub mod frame;
pub mod request;
pub mod session;
pub mod transfer;
