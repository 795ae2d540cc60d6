use vstd::prelude::*;

use crate::config::{Config, ConfigModel};

verus! {

/// The terminal handler used when load balancing is switched off: it holds
/// the startup configuration and answers every connection with one fixed
/// response.
pub struct CgiHandler {
    config: Config,
}

impl CgiHandler {
    /// The ghost shape of the held configuration.
    pub closed spec fn config_model(&self) -> ConfigModel {
        self.config.model()
    }

    pub fn new(config: Config) -> (r: Self)
        ensures
            r.config_model() == config.model(),
    {
        CgiHandler { config }
    }

    /// The fixed response every connection receives in passthrough mode.
    pub fn response(&self) -> (r: String)
        ensures
            r@
                == "HTTP/1.1 200 OK\r\nContent-Type: text/plain\r\nContent-Length: 12\r\nConnection: close\r\n\r\nHello World!\n"@,
    {
        ("HTTP/1.1 200 OK\r\nContent-Type: text/plain\r\nContent-Length: 12\r\nConnection: close\r\n\r\nHello World!\n").to_owned()
    }
}

} // verus!
