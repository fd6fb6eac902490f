//! Settings of a server.

use vstd::prelude::*;

verus! {

/// Everything a server is configured with.
pub struct Config {
    pub electrum: Electrum,
    pub group: GroupConf,
    pub dust: Dust,
    pub fee: Fee,
    pub server: Server,
    pub network: Network,
}

/// Where the chain is asked.
pub struct Electrum {
    pub endpoint: String,
    pub certificate_validation: bool,
}

/// When a group is closed.
pub struct GroupConf {
    /// Age in seconds from which a group is closed whatever its size.
    pub max_time: usize,
    /// Number of pairs from which a group is closed.
    pub max_size: usize,
}

/// The smallest output that is accepted.
pub struct Dust {
    /// In satoshis.
    pub limit: u64,
}

/// How fee rates are grouped.
pub struct Fee {
    /// Width of a bucket, in satoshis per 1000 virtual bytes.
    pub range: u64,
}

/// Where clients connect.
pub struct Server {
    pub ip: String,
    pub port: String,
}

/// The chain that the server works on.
pub struct Network {
    /// `mainnet`, `testnet` or `signet`.
    pub name: String,
}

} // verus!
