//! Verified core of a small set of HTTP clients and servers: the I/O adapter
//! wrapper, request planning from a URI, response-body assembly, the echo
//! handlers, request routing and the ranking of image-classification scores.

mod tokio_io;

pub use tokio_io::TokioIo;
pub mod body;
pub mod classify;
pub mod echo;
pub mod lines;
pub mod ranking;
pub mod text;
pub mod uri;
