pub mod text;
pub mod address;
pub mod filter;
pub mod api;
pub mod encoding;
pub mod stalker;
pub mod hls;
pub mod dns;
pub mod mag;
pub mod discover;
pub mod profile;
pub mod proxy;
pub mod reply;
