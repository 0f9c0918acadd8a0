pub mod chunked;
pub mod headers;
pub mod message;
pub mod status;

pub use headers::{HeaderIter, Headers};
pub use message::{Body, Method, Request, Response, ResponseBody};
pub use status::ResponseCode;
