//! The state and the rules of an IPTV subscription manager.

pub mod clock;
pub mod http;
pub mod ident;
pub mod jobs;
pub mod manager;
pub mod player;
pub mod release;
pub mod search;
pub mod subscription;
pub mod text;
