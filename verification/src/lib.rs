use vstd::prelude::*;

pub mod adapter_error;
pub mod auth_route;
pub mod base62;
pub mod base64_codec;
pub mod build_number;
pub mod byte_order;
pub mod byte_search;
pub mod chat_mode;
pub mod chat_request;
pub mod client_headers;
pub mod compression;
pub mod config;
pub mod conversation;
pub mod decimal;
pub mod env_value;
pub mod grpc;
pub mod hex;
pub mod interned;
pub mod manually_init;
pub mod model;
pub mod ntp;
pub mod platform;
pub mod proto_encode;
pub mod proxy_pool;
pub mod random_ids;
pub mod raw_token;
pub mod rep_move;
pub mod text;
pub mod text_scan;
pub mod time;
pub mod token_upgrade;
pub mod token;
pub mod ulid_code;
pub mod url_base64;
pub mod utf8_check;
pub mod usage;
pub mod userinfo;
pub mod version;
pub mod wire_type;

verus! {

} // verus!
