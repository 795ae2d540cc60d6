//! A reverse-proxy dispatch core: request framing and validation, a family
//! of load-balancing strategies with verified accounting, and the framing
//! rules by which an upstream's response is relayed to the client verbatim.
//! The surrounding program performs the network I/O; every parsing, framing,
//! selection and accounting decision is made and proved here.

pub mod cgi_handler;
pub mod config;
pub mod http_validator;
pub mod lbs;
pub mod server_handler;
pub mod text;
