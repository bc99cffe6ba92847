//! Settings of a running relay.

use vstd::prelude::*;

verus! {

/// The relay's configuration.
pub struct Config {
    pub fb_username: String,
    pub fb_password: String,
    pub e2ee_pin: Option<String>,
    pub refresh_rate: usize,
    pub latency: usize,
    pub gecko: Gecko,
    pub tcp: Tcp,
}

/// Where the browser driver runs.
pub struct Gecko {
    pub port: u16,
    pub path: String,
    pub headless: bool,
}

/// Where the relay listens for subscribers.
pub struct Tcp {
    pub port: u16,
    pub host: String,
}

} // verus!
