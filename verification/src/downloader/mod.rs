pub mod headers;
pub mod text;
pub mod http_client;
pub mod error;
pub mod file_request;
pub mod block;
pub mod task;
pub mod request;
pub mod state;
