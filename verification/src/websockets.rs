pub mod client;
pub mod digest;
pub mod encoding;
pub mod frame;
pub mod handshake;

pub use client::Client;
pub use digest::sha1;
pub use encoding::base64;
pub use frame::Message;
pub use handshake::get_accept;
