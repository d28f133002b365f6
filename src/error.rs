//! The failures a run can end with, one kind per stage.
use crate::prover::{decimal_chars, decimal_string};
use vstd::prelude::*;

verus! {

#[derive(Debug)]
pub enum AgentError {
    /// The feed could not be reached (connection or timeout).
    Network(String),
    /// The feed answered with a status outside 200..=299.
    Status(u16),
    /// A JSON document (feed or prover output) was malformed or off-schema.
    Parse(String),
    /// The prover process could not be started.
    ProcessSpawn(String),
    /// The prover exited with failure; holds what it wrote to standard error.
    ProverExecution(String),
}

/// The one-line description of `e`, naming the stage that failed.
pub open spec fn description(e: AgentError) -> Seq<char> {
    match e {
        AgentError::Network(m) => "failed to fetch pools: "@ + m@,
        AgentError::Status(code) => "pools feed returned status "@ + decimal_chars(code as nat),
        AgentError::Parse(m) => "failed to parse JSON: "@ + m@,
        AgentError::ProcessSpawn(m) => "failed to run prover: "@ + m@,
        AgentError::ProverExecution(m) => "prover failed: "@ + m@,
    }
}

impl AgentError {
    /// A one-line description naming the stage that failed.
    pub fn describe(&self) -> (r: String)
        ensures
            r@ == description(*self),
    {
        match self {
            AgentError::Network(m) => String::from_str("failed to fetch pools: ").concat(m.as_str()),
            AgentError::Status(code) => String::from_str("pools feed returned status ").concat(
                decimal_string(*code as u64).as_str(),
            ),
            AgentError::Parse(m) => String::from_str("failed to parse JSON: ").concat(m.as_str()),
            AgentError::ProcessSpawn(m) => String::from_str("failed to run prover: ").concat(
                m.as_str(),
            ),
            AgentError::ProverExecution(m) => String::from_str("prover failed: ").concat(
                m.as_str(),
            ),
        }
    }
}

} // verus!
