use vstd::prelude::*;

verus! {

/// Settings the surrounding service runs with. The service reads them
/// from its environment and hands them over as plain strings.
pub struct Configuration {
    pub application: ApplicationConfiguration,
    pub database: DatabaseConfiguration,
}

pub struct ApplicationConfiguration {
    pub listen_address: String,
    pub listen_port: String,
}

pub struct DatabaseConfiguration {
    pub url: String,
}

} // verus!
