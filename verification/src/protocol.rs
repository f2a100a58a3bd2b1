//! The boundary protocol between the privileged server and its clients:
//! requests, replies and CPU-core selectors. These are structural types; the
//! wire codec that carries them lives outside the verified library.

use vstd::prelude::*;
use std::collections::HashMap;

verus! {

/// A response from a server implementation.
pub enum Response<E> {
    /// The request failed.
    Error(ServerError<E>),
    /// The names of the scaling governors that may be selected.
    ScalingGovernors(Vec<String>),
    /// Scaling information.
    Information(Information),
}

/// Frequency information returned from a server implementation.
pub enum Information {
    /// Information that holds for all CPU cores.
    All(PerCpuInformation),
    /// Information for each individual CPU core.
    Table(HashMap<u8, PerCpuInformation>),
}

/// Information for a given CPU core, or for all of them.
pub struct PerCpuInformation {
    /// The scaling governor currently in force.
    pub governor: String,
    /// The clock speed in megahertz, where it is known.
    pub megahertz: Option<u64>,
}

/// The errors a server request can end in.
pub enum ServerError<E> {
    /// The server is not running.
    NotRunning,
    /// The server is not running as root.
    NotRoot,
    /// The requested scaling-governor preset is not valid.
    InvalidScalingGovernor,
    /// Any other error.
    Other(E),
}

/// A request sent to the server.
#[derive(Debug, Clone)]
pub enum Request {
    /// Read scaling information for the selected cores.
    Get(CpuCores),
    /// Set the scaling behaviour of the selected cores.
    SetScaling(CpuCores, ScalingType),
    /// List the scaling governors available on the selected cores.
    List(CpuCores),
}

/// How scaling is to be set. May grow to support a speed in hertz beside the
/// preset governors.
#[derive(Debug, Clone)]
pub enum ScalingType {
    /// A preset scaling governor, by name.
    Preset(String),
}

/// Which CPU cores a request applies to.
#[derive(Debug, Clone)]
pub enum CpuCores {
    /// Every core.
    All,
    /// A single core, by index.
    One(u8),
    /// An explicit set of cores.
    Multiple(Vec<u8>),
    /// An inclusive range of cores.
    Range(u8, u8),
}

impl Default for CpuCores {
    /// A request that names no cores applies to all of them.
    fn default() -> (r: Self)
        ensures
            r is All,
    {
        CpuCores::All
    }
}

} // verus!
