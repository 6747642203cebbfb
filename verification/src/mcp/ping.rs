//! The document that the fallback server answers a status request with.
use vstd::prelude::*;

use crate::configuration::SorryServerConfig;
use crate::mcp::constants::DEFAULT_PROTOCOL;
use crate::text::{join_lines, join_with, texts};

verus! {

/// The status document: version, players and description.
#[derive(Debug, Clone, PartialEq, Eq)]
pub struct Response {
    pub version: Version,
    pub players: Players,
    pub description: Description,
}

/// The version text and protocol number that a client shows.
#[derive(Debug, Clone, PartialEq, Eq)]
pub struct Version {
    pub name: String,
    pub protocol: u32,
}

/// The player counts and the sample of players online.
#[derive(Debug, Clone, PartialEq, Eq)]
pub struct Players {
    pub max: u32,
    pub online: u32,
    pub sample: Vec<Sample>,
}

/// One player of the sample.
#[derive(Debug, Clone, PartialEq, Eq)]
pub struct Sample {
    pub id: String,
    pub name: String,
}

/// The message of the day.
#[derive(Debug, Clone, PartialEq, Eq)]
pub struct Description {
    pub text: String,
}

impl Response {
    /// The status of the fallback server: its version text with the default
    /// protocol, no players, and the lines of the message of the day joined
    /// by newlines.
    pub fn from_config(config: SorryServerConfig) -> (r: Response)
        ensures
            r.version.name@ == config.version@,
            r.version.protocol == DEFAULT_PROTOCOL,
            r.players.max == 0,
            r.players.online == 0,
            r.players.sample@.len() == 0,
            r.description.text@ == join_with(texts(config.motd@), seq!['\n']),
    {
        let text = join_lines(&config.motd);
        let version = Version { name: config.version, protocol: DEFAULT_PROTOCOL };
        let players = Players { max: 0, online: 0, sample: Vec::new() };
        let description = Description { text };
        Response { version, players, description }
    }
}

} // verus!
