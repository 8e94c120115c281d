pub mod codec;
pub mod dto;
pub mod error;
pub mod paging;
pub mod txn;
pub mod table;
pub mod order;
pub mod memdb;
pub mod repo;
pub mod service;
pub mod user;
