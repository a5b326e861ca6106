pub mod cmd_runner;
pub mod frame;
pub mod key_order;
pub mod kv;
pub mod policy;
pub mod store;
