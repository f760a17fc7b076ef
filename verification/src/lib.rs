//! The decisions of a small Matrix homeserver, as verified functions on plain values.
pub mod account_data;
pub mod client;
pub mod codec;
pub mod directory;
pub mod e2ee;
pub mod e2ee_laws;
pub mod edu_laws;
pub mod edus;
pub mod engine;
pub mod ephemeral;
pub mod event;
pub mod event_laws;
pub mod event_view;
pub mod fed_keys;
pub mod ids;
pub mod inbound;
pub mod join;
pub mod json;
pub mod key_laws;
pub mod key_store;
pub mod legacy_sync;
pub mod lists;
pub mod names;
pub mod query_directory;
pub mod reception;
pub mod reply;
pub mod send;
pub mod strmap;
pub mod sync_laws;
pub mod text;
pub mod validate;
pub mod view_laws;
