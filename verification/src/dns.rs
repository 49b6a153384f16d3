//! DNS wire format: packet buffer, message model, and resolver logic.

pub mod errors;
pub mod header;
pub mod name;
pub mod packet;
pub mod packet_buf;
pub mod query_type;
pub mod question;
pub mod record;
pub mod resolver;
pub mod result_code;
pub mod service;
