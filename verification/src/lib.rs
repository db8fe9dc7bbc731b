pub mod text;
pub mod strip;
pub mod strip_generic;
pub mod rustfmt;
pub mod stable_hash;
pub mod compress_go;
pub mod config;
pub mod strmap;
pub mod fingerprint;
pub mod cache;
pub mod registry;
pub mod compress;
pub mod scanner;
pub mod reindex;
pub mod sync;
pub mod daemon;
pub mod client;
pub mod mod_roundtrip;
pub mod session;
pub mod lex;
pub mod listing;
pub mod paths;
