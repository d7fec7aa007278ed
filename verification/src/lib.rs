pub mod defworker;
pub mod message;
pub mod name_map;
pub mod srvmanager_proc;
pub mod transaction;
pub mod txn_set;
pub mod varworker;
pub mod worker;
