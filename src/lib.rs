pub mod connectioniterator;
pub mod get_rtor_impl;
pub mod irlf_db;
pub mod irlf_rust;
pub mod irlf_ser;
pub mod irlf_ser_val;
pub mod lf_types;
