//! Building blocks of a small blocking HTTP client.
pub mod client;
pub mod error;
pub mod form;
pub mod headers;
pub mod laws;
pub mod media_type;
pub mod octets;
pub mod outgoing;
pub mod parameter;
pub mod parts;
pub mod percent;
pub mod request;
pub mod response;
pub mod text;
pub mod transfer;

pub use client::Client;
pub use error::Error;
pub use media_type::MediaType;
pub use parameter::{Parameter, ParameterType};
pub use request::Method;
pub use response::{header_map_to_hash_map, ParsedResponse, RawResponse};
