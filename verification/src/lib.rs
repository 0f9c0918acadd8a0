pub mod extras;
pub mod http;
pub mod request;
pub mod response;
pub mod text;
pub mod websockets;
