//! A loudspeaker service: text sanitising and sentence splitting, an
//! anti-raid "teapot" mode, access checks, request routing and the rules
//! around audio volume.
pub mod time;
pub mod text;
pub mod service;
pub mod platform;
pub mod server;
