//! The command line of the service, as plain values.

use vstd::prelude::*;
use crate::redis_config::RedisConfig;

verus! {

/// What the service is asked to do, and with which cache store.
#[derive(Debug, PartialEq, Eq)]
pub struct Client {
    pub redis_config: RedisConfig,
    pub command: Commands,
}

#[derive(Debug, PartialEq, Eq)]
pub enum Commands {
    Runserver(RunserverArgs),
    Generate(GenerateArgs),
    Clear(ClearArgs),
    ImportRailjson(ImportRailjsonArgs),
}

/// Where the server listens.
#[derive(Debug, PartialEq, Eq)]
pub struct RunserverArgs {
    pub port: u16,
    pub address: String,
}

impl Default for RunserverArgs {
    /// Port 8090 on every interface.
    fn default() -> (r: RunserverArgs)
        ensures
            r.port == 8090,
            r.address@ == "0.0.0.0"@,
    {
        RunserverArgs { port: 8090, address: String::from_str("0.0.0.0") }
    }
}

/// Refresh the generated data of some infrastructures.
#[derive(Debug, PartialEq, Eq)]
pub struct GenerateArgs {
    pub infra_ids: Vec<u32>,
    /// Refresh even when the generated data is up to date.
    pub force: bool,
}

/// Clear the generated data of some infrastructures.
#[derive(Debug, PartialEq, Eq)]
pub struct ClearArgs {
    pub infra_ids: Vec<u32>,
}

/// Import an infrastructure from a railjson file.
#[derive(Debug, PartialEq, Eq)]
pub struct ImportRailjsonArgs {
    pub infra_name: String,
    pub railjson_path: String,
    /// Refresh the generated data after the import.
    pub generate: bool,
}

} // verus!
