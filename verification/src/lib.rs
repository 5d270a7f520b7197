pub mod connection;
pub mod http;
pub mod pool;
pub mod response;
pub mod router;
pub mod text;
